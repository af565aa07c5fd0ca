//! Resources a graph declares: graph-owned images, imported images, imported
//! buffers.

use vstd::prelude::*;

use super::flags::{Format, ImageLayout, SampleCount};

verus! {

/// Handle to a resource declared on a `GraphBuilder`. Valid only against the
/// graph that issued it.
#[derive(Clone, Copy, PartialEq, Eq, Structural, PartialOrd, Ord, Hash, Debug)]
pub struct ResourceId(pub u32);

impl ResourceId {
    #[verifier::allow_in_spec]
    pub fn index(self) -> usize
        returns
            self.0 as usize,
    {
        self.0 as usize
    }
}

/// One side of a frame extent halved `shift` times; a shift past the width of
/// the value leaves nothing.
pub open spec fn halved(side: u32, shift: u32) -> u32 {
    if shift >= 32 {
        0
    } else {
        side >> shift
    }
}

/// How a graph-owned image is sized.
#[derive(Clone, Copy, PartialEq, Eq, Debug)]
pub enum Extent {
    /// Tracks the frame's render extent, so a swapchain resize reallocates it.
    Frame,
    Fixed([u32; 2]),
    /// The frame's extent halved the given number of times.
    FrameDiv(u32),
}

impl Extent {
    pub fn resolve(self, frame: [u32; 2]) -> (r: [u32; 2])
        ensures
            match self {
                Extent::Frame => r == frame,
                Extent::Fixed(extent) => r == extent,
                Extent::FrameDiv(shift) => r[0] == halved(frame[0], shift) && r[1] == halved(
                    frame[1],
                    shift,
                ),
            },
    {
        match self {
            Extent::Frame => frame,
            Extent::Fixed(extent) => extent,
            Extent::FrameDiv(shift) => {
                if shift >= 32 {
                    [0, 0]
                } else {
                    [frame[0] >> shift, frame[1] >> shift]
                }
            },
        }
    }
}

/// Everything about a graph-owned image that the graph cannot derive. Usage is
/// absent on purpose: it comes from what passes declare.
#[derive(Clone, Copy, PartialEq, Eq, Debug)]
pub struct ImageDesc {
    pub format: Format,
    pub extent: Extent,
    pub samples: SampleCount,
    pub array_layers: u32,
}

impl ImageDesc {
    /// A frame-sized, single-sampled, single-layer image of `format`.
    pub fn new(format: Format) -> (r: Self)
        ensures
            r == (ImageDesc {
                format,
                extent: Extent::Frame,
                samples: SampleCount::Sample1,
                array_layers: 1,
            }),
    {
        ImageDesc { format, extent: Extent::Frame, samples: SampleCount::Sample1, array_layers: 1 }
    }

    pub fn samples(self, samples: SampleCount) -> (r: Self)
        ensures
            r == (ImageDesc { samples, ..self }),
    {
        ImageDesc { samples, ..self }
    }

    pub fn extent(self, extent: Extent) -> (r: Self)
        ensures
            r == (ImageDesc { extent, ..self }),
    {
        ImageDesc { extent, ..self }
    }

    pub fn array_layers(self, array_layers: u32) -> (r: Self)
        ensures
            r == (ImageDesc { array_layers, ..self }),
    {
        ImageDesc { array_layers, ..self }
    }
}

/// The layouts an imported image is in when the frame starts and must be in
/// when it ends. The importer states them; the compiler emits whatever
/// transitions that implies.
#[derive(Clone, Copy, PartialEq, Eq, Structural, Debug)]
pub struct ImportedLayouts {
    pub entry: ImageLayout,
    pub exit: ImageLayout,
}

#[derive(Clone, Copy, PartialEq, Eq, Debug)]
pub enum ResourceKind {
    /// Allocated and owned by the graph.
    Transient(ImageDesc),
    Imported(ImageDesc, ImportedLayouts),
    /// Every buffer in a frame is imported: there is no transient buffer.
    ImportedBuffer,
}

#[derive(Clone, Copy, Debug)]
pub struct ResourceDecl {
    pub name: &'static str,
    pub kind: ResourceKind,
}

impl ResourceDecl {
    #[verifier::allow_in_spec]
    pub fn is_image(&self) -> bool
        returns
            !(self.kind is ImportedBuffer),
    {
        !matches!(self.kind, ResourceKind::ImportedBuffer)
    }

    #[verifier::allow_in_spec]
    pub fn is_imported(&self) -> bool
        returns
            self.kind is Imported || self.kind is ImportedBuffer,
    {
        match self.kind {
            ResourceKind::Imported(..) | ResourceKind::ImportedBuffer => true,
            ResourceKind::Transient(_) => false,
        }
    }

    /// The layout this resource is in when the frame begins: a transient
    /// starts `Undefined` every frame, an import where its importer said.
    #[verifier::allow_in_spec]
    pub fn entry_layout(&self) -> ImageLayout
        returns
            (match self.kind {
                ResourceKind::Imported(_, layouts) => layouts.entry,
                _ => ImageLayout::Undefined,
            }),
    {
        match self.kind {
            ResourceKind::Transient(_) => ImageLayout::Undefined,
            ResourceKind::Imported(_, layouts) => layouts.entry,
            ResourceKind::ImportedBuffer => ImageLayout::Undefined,
        }
    }

    /// The layout the frame must leave this resource in, if any is required.
    #[verifier::allow_in_spec]
    pub fn exit_layout(&self) -> Option<ImageLayout>
        returns
            (match self.kind {
                ResourceKind::Imported(_, layouts) => Some(layouts.exit),
                _ => None,
            }),
    {
        match self.kind {
            ResourceKind::Imported(_, layouts) => Some(layouts.exit),
            ResourceKind::Transient(_) | ResourceKind::ImportedBuffer => None,
        }
    }
}

} // verus!
