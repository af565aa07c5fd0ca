//! What one pass does with one resource.

use vstd::prelude::*;

use super::flags::{AccessFlags, BufferUsage, ImageLayout, ImageUsage, PipelineStages};

verus! {

/// What one pass does with one resource.
///
/// This enum is the whole vocabulary a pass author has, and everything the
/// compiler derives comes out of it: execution order, image layouts, barriers,
/// and the image and buffer usage a resource is created with. Shader accesses
/// widen to vertex | fragment | compute: over-synchronising costs a bubble,
/// under-synchronising is a race.
#[derive(Clone, Copy, PartialEq, Eq, Structural, Debug)]
pub enum Access {
    ColorAttachment,
    /// The 1-sample destination of an MSAA resolve: referenced in
    /// `TransferDstOptimal`, written at color-attachment output.
    ResolveAttachment,
    /// Depth tested and written.
    DepthAttachment,
    /// Depth tested only.
    DepthAttachmentRead,
    Sampled,
    UniformRead,
    StorageRead,
    StorageWrite,
    /// Vertex or index buffer read by the input assembler.
    VertexRead,
    IndirectRead,
    TransferRead,
    TransferWrite,
}

/// Every shader stage a shader access widens to.
pub open spec fn shader_stages() -> u64 {
    PipelineStages::VERTEX_SHADER | PipelineStages::FRAGMENT_SHADER | PipelineStages::COMPUTE_SHADER
}

impl Access {

    /// The access's name, as the plan and error messages print it.
    #[verifier::allow_in_spec]
    pub fn name(self) -> &'static str
        returns
            (match self {
                Access::ColorAttachment => "ColorAttachment",
                Access::ResolveAttachment => "ResolveAttachment",
                Access::DepthAttachment => "DepthAttachment",
                Access::DepthAttachmentRead => "DepthAttachmentRead",
                Access::Sampled => "Sampled",
                Access::UniformRead => "UniformRead",
                Access::StorageRead => "StorageRead",
                Access::StorageWrite => "StorageWrite",
                Access::VertexRead => "VertexRead",
                Access::IndirectRead => "IndirectRead",
                Access::TransferRead => "TransferRead",
                Access::TransferWrite => "TransferWrite",
            }),
    {
        match self {
            Access::ColorAttachment => "ColorAttachment",
            Access::ResolveAttachment => "ResolveAttachment",
            Access::DepthAttachment => "DepthAttachment",
            Access::DepthAttachmentRead => "DepthAttachmentRead",
            Access::Sampled => "Sampled",
            Access::UniformRead => "UniformRead",
            Access::StorageRead => "StorageRead",
            Access::StorageWrite => "StorageWrite",
            Access::VertexRead => "VertexRead",
            Access::IndirectRead => "IndirectRead",
            Access::TransferRead => "TransferRead",
            Access::TransferWrite => "TransferWrite",
        }
    }
    /// The layout an image must be in for this access. Buffer-only accesses
    /// name `Undefined`; the compiler tracks no layout for buffers.
    #[verifier::allow_in_spec]
    pub fn layout(self) -> ImageLayout
        returns
            (match self {
                Access::ColorAttachment => ImageLayout::ColorAttachmentOptimal,
                Access::ResolveAttachment => ImageLayout::TransferDstOptimal,
                Access::DepthAttachment => ImageLayout::DepthStencilAttachmentOptimal,
                Access::DepthAttachmentRead => ImageLayout::DepthStencilReadOnlyOptimal,
                Access::Sampled => ImageLayout::ShaderReadOnlyOptimal,
                Access::StorageRead | Access::StorageWrite => ImageLayout::General,
                Access::TransferRead => ImageLayout::TransferSrcOptimal,
                Access::TransferWrite => ImageLayout::TransferDstOptimal,
                Access::UniformRead | Access::VertexRead | Access::IndirectRead => ImageLayout::Undefined,
            }),
    {
        match self {
            Access::ColorAttachment => ImageLayout::ColorAttachmentOptimal,
            Access::ResolveAttachment => ImageLayout::TransferDstOptimal,
            Access::DepthAttachment => ImageLayout::DepthStencilAttachmentOptimal,
            Access::DepthAttachmentRead => ImageLayout::DepthStencilReadOnlyOptimal,
            Access::Sampled => ImageLayout::ShaderReadOnlyOptimal,
            Access::StorageRead | Access::StorageWrite => ImageLayout::General,
            Access::TransferRead => ImageLayout::TransferSrcOptimal,
            Access::TransferWrite => ImageLayout::TransferDstOptimal,
            Access::UniformRead | Access::VertexRead | Access::IndirectRead => ImageLayout::Undefined,
        }
    }

    /// The pipeline stages that perform this access.
    #[verifier::allow_in_spec]
    pub fn stages(self) -> u64
        returns
            (match self {
                Access::ColorAttachment | Access::ResolveAttachment => PipelineStages::COLOR_ATTACHMENT_OUTPUT,
                Access::DepthAttachment | Access::DepthAttachmentRead =>
                    PipelineStages::EARLY_FRAGMENT_TESTS | PipelineStages::LATE_FRAGMENT_TESTS,
                Access::Sampled | Access::UniformRead | Access::StorageRead | Access::StorageWrite =>
                    shader_stages(),
                Access::VertexRead => PipelineStages::VERTEX_INPUT,
                Access::IndirectRead => PipelineStages::DRAW_INDIRECT,
                Access::TransferRead | Access::TransferWrite => PipelineStages::ALL_TRANSFER,
            }),
    {
        let shader = PipelineStages::VERTEX_SHADER | PipelineStages::FRAGMENT_SHADER
            | PipelineStages::COMPUTE_SHADER;
        match self {
            Access::ColorAttachment | Access::ResolveAttachment => PipelineStages::COLOR_ATTACHMENT_OUTPUT,
            Access::DepthAttachment | Access::DepthAttachmentRead => {
                PipelineStages::EARLY_FRAGMENT_TESTS | PipelineStages::LATE_FRAGMENT_TESTS
            },
            Access::Sampled | Access::UniformRead | Access::StorageRead | Access::StorageWrite => shader,
            Access::VertexRead => PipelineStages::VERTEX_INPUT,
            Access::IndirectRead => PipelineStages::DRAW_INDIRECT,
            Access::TransferRead | Access::TransferWrite => PipelineStages::ALL_TRANSFER,
        }
    }

    /// The memory accesses this access performs. A color write claims the
    /// read too, because blending reads the attachment and the graph cannot
    /// see whether a pipeline blends.
    #[verifier::allow_in_spec]
    pub fn flags(self) -> u64
        returns
            (match self {
                Access::ColorAttachment =>
                    AccessFlags::COLOR_ATTACHMENT_READ | AccessFlags::COLOR_ATTACHMENT_WRITE,
                Access::ResolveAttachment => AccessFlags::COLOR_ATTACHMENT_WRITE,
                Access::DepthAttachment =>
                    AccessFlags::DEPTH_STENCIL_ATTACHMENT_READ | AccessFlags::DEPTH_STENCIL_ATTACHMENT_WRITE,
                Access::DepthAttachmentRead => AccessFlags::DEPTH_STENCIL_ATTACHMENT_READ,
                Access::Sampled => AccessFlags::SHADER_SAMPLED_READ,
                Access::UniformRead => AccessFlags::UNIFORM_READ,
                Access::StorageRead => AccessFlags::SHADER_STORAGE_READ,
                Access::StorageWrite => AccessFlags::SHADER_STORAGE_READ | AccessFlags::SHADER_STORAGE_WRITE,
                Access::VertexRead => AccessFlags::VERTEX_ATTRIBUTE_READ | AccessFlags::INDEX_READ,
                Access::IndirectRead => AccessFlags::INDIRECT_COMMAND_READ,
                Access::TransferRead => AccessFlags::TRANSFER_READ,
                Access::TransferWrite => AccessFlags::TRANSFER_WRITE,
            }),
    {
        match self {
            Access::ColorAttachment => AccessFlags::COLOR_ATTACHMENT_READ | AccessFlags::COLOR_ATTACHMENT_WRITE,
            Access::ResolveAttachment => AccessFlags::COLOR_ATTACHMENT_WRITE,
            Access::DepthAttachment => {
                AccessFlags::DEPTH_STENCIL_ATTACHMENT_READ | AccessFlags::DEPTH_STENCIL_ATTACHMENT_WRITE
            },
            Access::DepthAttachmentRead => AccessFlags::DEPTH_STENCIL_ATTACHMENT_READ,
            Access::Sampled => AccessFlags::SHADER_SAMPLED_READ,
            Access::UniformRead => AccessFlags::UNIFORM_READ,
            Access::StorageRead => AccessFlags::SHADER_STORAGE_READ,
            Access::StorageWrite => AccessFlags::SHADER_STORAGE_READ | AccessFlags::SHADER_STORAGE_WRITE,
            Access::VertexRead => AccessFlags::VERTEX_ATTRIBUTE_READ | AccessFlags::INDEX_READ,
            Access::IndirectRead => AccessFlags::INDIRECT_COMMAND_READ,
            Access::TransferRead => AccessFlags::TRANSFER_READ,
            Access::TransferWrite => AccessFlags::TRANSFER_WRITE,
        }
    }

    #[verifier::allow_in_spec]
    pub fn is_write(self) -> bool
        returns
            (match self {
                Access::ColorAttachment | Access::ResolveAttachment | Access::DepthAttachment
                | Access::StorageWrite | Access::TransferWrite => true,
                _ => false,
            }),
    {
        match self {
            Access::ColorAttachment | Access::ResolveAttachment | Access::DepthAttachment
            | Access::StorageWrite | Access::TransferWrite => true,
            _ => false,
        }
    }

    /// True for accesses that happen inside a render pass as an attachment.
    /// An image touched only this way never leaves the render pass that wrote
    /// it, so it can live in tile memory.
    #[verifier::allow_in_spec]
    pub fn is_attachment(self) -> bool
        returns
            (match self {
                Access::ColorAttachment | Access::ResolveAttachment | Access::DepthAttachment
                | Access::DepthAttachmentRead => true,
                _ => false,
            }),
    {
        match self {
            Access::ColorAttachment | Access::ResolveAttachment | Access::DepthAttachment
            | Access::DepthAttachmentRead => true,
            _ => false,
        }
    }

    /// The image usage this access needs the image to be created with.
    #[verifier::allow_in_spec]
    pub fn image_usage(self) -> u32
        returns
            (match self {
                Access::ColorAttachment => ImageUsage::COLOR_ATTACHMENT,
                Access::ResolveAttachment => ImageUsage::COLOR_ATTACHMENT | ImageUsage::TRANSFER_DST,
                Access::DepthAttachment | Access::DepthAttachmentRead => ImageUsage::DEPTH_STENCIL_ATTACHMENT,
                Access::Sampled => ImageUsage::SAMPLED,
                Access::StorageRead | Access::StorageWrite => ImageUsage::STORAGE,
                Access::TransferRead => ImageUsage::TRANSFER_SRC,
                Access::TransferWrite => ImageUsage::TRANSFER_DST,
                Access::UniformRead | Access::VertexRead | Access::IndirectRead => 0u32,
            }),
    {
        match self {
            Access::ColorAttachment => ImageUsage::COLOR_ATTACHMENT,
            Access::ResolveAttachment => ImageUsage::COLOR_ATTACHMENT | ImageUsage::TRANSFER_DST,
            Access::DepthAttachment | Access::DepthAttachmentRead => ImageUsage::DEPTH_STENCIL_ATTACHMENT,
            Access::Sampled => ImageUsage::SAMPLED,
            Access::StorageRead | Access::StorageWrite => ImageUsage::STORAGE,
            Access::TransferRead => ImageUsage::TRANSFER_SRC,
            Access::TransferWrite => ImageUsage::TRANSFER_DST,
            Access::UniformRead | Access::VertexRead | Access::IndirectRead => 0u32,
        }
    }

    /// The buffer usage this access needs the buffer to be created with.
    #[verifier::allow_in_spec]
    pub fn buffer_usage(self) -> u32
        returns
            (match self {
                Access::UniformRead => BufferUsage::UNIFORM_BUFFER,
                Access::StorageRead | Access::StorageWrite => BufferUsage::STORAGE_BUFFER,
                Access::VertexRead => BufferUsage::VERTEX_BUFFER | BufferUsage::INDEX_BUFFER,
                Access::IndirectRead => BufferUsage::INDIRECT_BUFFER,
                Access::TransferRead => BufferUsage::TRANSFER_SRC,
                Access::TransferWrite => BufferUsage::TRANSFER_DST,
                _ => 0u32,
            }),
    {
        match self {
            Access::UniformRead => BufferUsage::UNIFORM_BUFFER,
            Access::StorageRead | Access::StorageWrite => BufferUsage::STORAGE_BUFFER,
            Access::VertexRead => BufferUsage::VERTEX_BUFFER | BufferUsage::INDEX_BUFFER,
            Access::IndirectRead => BufferUsage::INDIRECT_BUFFER,
            Access::TransferRead => BufferUsage::TRANSFER_SRC,
            Access::TransferWrite => BufferUsage::TRANSFER_DST,
            _ => 0u32,
        }
    }
}

} // verus!
