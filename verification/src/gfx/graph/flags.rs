//! The Vulkan flag sets the graph derives, as the raw bit patterns Vulkan
//! defines for them (`VkPipelineStageFlags2`, `VkAccessFlags2`,
//! `VkImageUsageFlags`, `VkBufferUsageFlags`), and the image layouts and formats
//! a declaration carries. A flag set is a plain integer: union is `|`, and `a`
//! contains `b` when `a & b == b`.

use vstd::prelude::*;

verus! {

/// Pipeline stages, as `VkPipelineStageFlagBits2`.
pub struct PipelineStages;

impl PipelineStages {
    pub const TOP_OF_PIPE: u64 = 0x1;
    pub const DRAW_INDIRECT: u64 = 0x2;
    pub const VERTEX_INPUT: u64 = 0x4;
    pub const VERTEX_SHADER: u64 = 0x8;
    pub const FRAGMENT_SHADER: u64 = 0x80;
    pub const EARLY_FRAGMENT_TESTS: u64 = 0x100;
    pub const LATE_FRAGMENT_TESTS: u64 = 0x200;
    pub const COLOR_ATTACHMENT_OUTPUT: u64 = 0x400;
    pub const COMPUTE_SHADER: u64 = 0x800;
    pub const ALL_TRANSFER: u64 = 0x1000;
    pub const BOTTOM_OF_PIPE: u64 = 0x2000;
}

/// Memory access kinds, as `VkAccessFlagBits2`.
pub struct AccessFlags;

impl AccessFlags {
    pub const INDIRECT_COMMAND_READ: u64 = 0x1;
    pub const INDEX_READ: u64 = 0x2;
    pub const VERTEX_ATTRIBUTE_READ: u64 = 0x4;
    pub const UNIFORM_READ: u64 = 0x8;
    pub const COLOR_ATTACHMENT_READ: u64 = 0x80;
    pub const COLOR_ATTACHMENT_WRITE: u64 = 0x100;
    pub const DEPTH_STENCIL_ATTACHMENT_READ: u64 = 0x200;
    pub const DEPTH_STENCIL_ATTACHMENT_WRITE: u64 = 0x400;
    pub const TRANSFER_READ: u64 = 0x800;
    pub const TRANSFER_WRITE: u64 = 0x1000;
    pub const SHADER_SAMPLED_READ: u64 = 0x1_0000_0000;
    pub const SHADER_STORAGE_READ: u64 = 0x2_0000_0000;
    pub const SHADER_STORAGE_WRITE: u64 = 0x4_0000_0000;
}

/// What an image may be used for, as `VkImageUsageFlagBits`.
pub struct ImageUsage;

impl ImageUsage {
    pub const TRANSFER_SRC: u32 = 0x1;
    pub const TRANSFER_DST: u32 = 0x2;
    pub const SAMPLED: u32 = 0x4;
    pub const STORAGE: u32 = 0x8;
    pub const COLOR_ATTACHMENT: u32 = 0x10;
    pub const DEPTH_STENCIL_ATTACHMENT: u32 = 0x20;
    pub const TRANSIENT_ATTACHMENT: u32 = 0x40;
}

/// What a buffer may be used for, as `VkBufferUsageFlagBits`.
pub struct BufferUsage;

impl BufferUsage {
    pub const TRANSFER_SRC: u32 = 0x1;
    pub const TRANSFER_DST: u32 = 0x2;
    pub const UNIFORM_BUFFER: u32 = 0x10;
    pub const STORAGE_BUFFER: u32 = 0x20;
    pub const INDEX_BUFFER: u32 = 0x40;
    pub const VERTEX_BUFFER: u32 = 0x80;
    pub const INDIRECT_BUFFER: u32 = 0x100;
}

/// Whether every flag of `wanted` is set in `set`.
pub open spec fn contains_flags(set: u64, wanted: u64) -> bool {
    set & wanted == wanted
}

pub fn contains(set: u64, wanted: u64) -> (r: bool)
    ensures
        r == contains_flags(set, wanted),
{
    set & wanted == wanted
}

/// The layout an image is in, as `VkImageLayout`.
#[derive(Clone, Copy, PartialEq, Eq, Structural, Debug)]
pub enum ImageLayout {
    Undefined,
    General,
    ColorAttachmentOptimal,
    DepthStencilAttachmentOptimal,
    DepthStencilReadOnlyOptimal,
    ShaderReadOnlyOptimal,
    TransferSrcOptimal,
    TransferDstOptimal,
    Preinitialized,
    PresentSrc,
}

impl ImageLayout {
    /// The layout's name, as the plan prints it.
    #[verifier::allow_in_spec]
    pub fn name(self) -> &'static str
        returns
            (match self {
                ImageLayout::Undefined => "Undefined",
                ImageLayout::General => "General",
                ImageLayout::ColorAttachmentOptimal => "ColorAttachmentOptimal",
                ImageLayout::DepthStencilAttachmentOptimal => "DepthStencilAttachmentOptimal",
                ImageLayout::DepthStencilReadOnlyOptimal => "DepthStencilReadOnlyOptimal",
                ImageLayout::ShaderReadOnlyOptimal => "ShaderReadOnlyOptimal",
                ImageLayout::TransferSrcOptimal => "TransferSrcOptimal",
                ImageLayout::TransferDstOptimal => "TransferDstOptimal",
                ImageLayout::Preinitialized => "Preinitialized",
                ImageLayout::PresentSrc => "PresentSrc",
            }),
    {
        match self {
            ImageLayout::Undefined => "Undefined",
            ImageLayout::General => "General",
            ImageLayout::ColorAttachmentOptimal => "ColorAttachmentOptimal",
            ImageLayout::DepthStencilAttachmentOptimal => "DepthStencilAttachmentOptimal",
            ImageLayout::DepthStencilReadOnlyOptimal => "DepthStencilReadOnlyOptimal",
            ImageLayout::ShaderReadOnlyOptimal => "ShaderReadOnlyOptimal",
            ImageLayout::TransferSrcOptimal => "TransferSrcOptimal",
            ImageLayout::TransferDstOptimal => "TransferDstOptimal",
            ImageLayout::Preinitialized => "Preinitialized",
            ImageLayout::PresentSrc => "PresentSrc",
        }
    }
}

/// The pixel formats the engine names; anything else is carried as its raw
/// `VkFormat` value.
#[allow(non_camel_case_types)]
#[derive(Clone, Copy, PartialEq, Eq, Structural, Debug)]
pub enum Format {
    R8_UNORM,
    R8G8B8A8_UNORM,
    B8G8R8A8_UNORM,
    B8G8R8A8_SRGB,
    R8G8B8A8_SRGB,
    R16G16_SFLOAT,
    R16G16B16A16_SFLOAT,
    D32_SFLOAT,
    Other(u32),
}

/// Samples per pixel, as `VkSampleCountFlagBits`.
#[derive(Clone, Copy, PartialEq, Eq, Structural, Debug)]
pub enum SampleCount {
    Sample1,
    Sample2,
    Sample4,
    Sample8,
    Sample16,
    Sample32,
    Sample64,
}

} // verus!
