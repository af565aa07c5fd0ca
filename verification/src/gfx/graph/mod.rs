//! The frame render graph: passes declare what they touch, the compiler derives
//! the rest — execution order, image layout transitions, the barriers between
//! passes, and the usage each graph-owned image is created with. Nothing here
//! takes a device: a graph compiles from declarations alone.

pub mod access;
pub mod builder;
pub mod checks;
pub mod compile;
pub mod cull;
pub mod error;
pub mod flags;
pub mod images;
pub mod laws;
pub mod names;
pub mod plan;
pub mod report;
pub mod resource;
pub mod schedule;

pub use access::Access;
pub use builder::{GraphBuilder, PassBuilder, PassDecl, PassId, PassKind};
pub use error::GraphError;
pub use flags::{AccessFlags, BufferUsage, Format, ImageLayout, ImageUsage, PipelineStages, SampleCount};
pub use resource::{Extent, ImageDesc, ImportedLayouts, ResourceDecl, ResourceId, ResourceKind};

use crate::text::str_eq;
pub use compile::{compile, FrameGraph};
pub use images::TransientImage;
pub use plan::Barrier;
pub use schedule::{dependency_edges, max_resource, topological_order};
pub use checks::check_raw_passes_last;
