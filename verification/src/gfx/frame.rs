//! The engine's frame, declared as a graph.
//!
//! This is the one place that says what a frame is. It takes no device and
//! allocates nothing: it registers resources and passes and hands back the
//! compiled result, so the function that runs each frame is the one a test
//! compiles and asserts the barrier plan of.

use vstd::prelude::*;

use super::bloom::MAX_BLOOM_MIPS;
use super::timestamps::MAX_PASSES;
use super::graph::access::Access;
use super::graph::builder::{ids_in_range, GraphBuilder, PassDecl, PassId, PassKind};
use super::frame_valid::lemma_every_frame_compiles;
use super::graph::compile::{compile, compiled_from, FrameGraph};
use super::graph::error::GraphError;
use super::graph::flags::{Format, ImageLayout, SampleCount};
use super::graph::resource::{Extent, ImageDesc, ImportedLayouts, ResourceDecl, ResourceId, ResourceKind};

verus! {

/// Most shadow cascades a frame renders.
pub const MAX_CASCADES: usize = 4;

pub const HDR_FORMAT: Format = Format::R16G16B16A16_SFLOAT;
pub const DEPTH_FORMAT: Format = Format::D32_SFLOAT;
pub const NORMAL_FORMAT: Format = Format::R8G8B8A8_UNORM;
pub const VELOCITY_FORMAT: Format = Format::R16G16_SFLOAT;
pub const AO_FORMAT: Format = Format::R8_UNORM;
pub const MSAA_SAMPLES: SampleCount = SampleCount::Sample4;

/// What a frame's structure depends on. A change to any of these recompiles
/// the graph; nothing else does.
#[derive(Clone, Copy, PartialEq, Eq, Structural, Debug)]
pub struct FrameConfig {
    pub color_format: Format,
    pub ssao: bool,
    /// Whether the frame resolves against a reprojected history; this also
    /// brings in the geometry prepass, where the motion vectors come from.
    pub taa: bool,
    /// Whether the frame meters its own luminance.
    pub auto_exposure: bool,
    /// Levels in the bloom chain, zero for none.
    pub bloom_mips: u8,
    /// Whether the editor overlay draws over the frame.
    pub overlay: bool,
    pub shadow_cascades: u8,
    pub shadow_resolution: u32,
}

/// Which piece of engine code a graph node runs.
#[derive(Clone, Copy, PartialEq, Eq, Structural, Debug)]
pub enum PassBody {
    GeometryPrepass,
    SsaoResolve,
    SsaoBlur,
    Forward,
    /// Reprojects the history onto this frame and accumulates into it.
    TaaResolve,
    LuminanceHistogram,
    LuminanceAverage,
    /// Half the frame, exposed and firefly-weighted: the chain's first level.
    BloomPrefilter,
    /// Writes down-chain level `n`, reading level `n - 1`.
    BloomDownsample(u32),
    /// Writes up-chain level `n`, reading the coarser level and down-chain `n`.
    BloomUpsample(u32),
    Tonemap,
    Overlay,
    ShadowCascade(u32),
}

/// Name of the pass and image of bloom down-chain level `level`.
#[verifier::allow_in_spec]
pub fn bloom_down_name(level: u32) -> &'static str
    returns
        (if level == 0 {
            "bloom_down_0"
        } else if level == 1 {
            "bloom_down_1"
        } else if level == 2 {
            "bloom_down_2"
        } else if level == 3 {
            "bloom_down_3"
        } else if level == 4 {
            "bloom_down_4"
        } else {
            "bloom_down_5"
        }),
{
    if level == 0 {
        "bloom_down_0"
    } else if level == 1 {
        "bloom_down_1"
    } else if level == 2 {
        "bloom_down_2"
    } else if level == 3 {
        "bloom_down_3"
    } else if level == 4 {
        "bloom_down_4"
    } else {
        "bloom_down_5"
    }
}

/// Name of the pass and image of bloom up-chain level `level`.
#[verifier::allow_in_spec]
pub fn bloom_up_name(level: u32) -> &'static str
    returns
        (if level == 0 {
            "bloom_up_0"
        } else if level == 1 {
            "bloom_up_1"
        } else if level == 2 {
            "bloom_up_2"
        } else if level == 3 {
            "bloom_up_3"
        } else if level == 4 {
            "bloom_up_4"
        } else {
            "bloom_up_5"
        }),
{
    if level == 0 {
        "bloom_up_0"
    } else if level == 1 {
        "bloom_up_1"
    } else if level == 2 {
        "bloom_up_2"
    } else if level == 3 {
        "bloom_up_3"
    } else if level == 4 {
        "bloom_up_4"
    } else {
        "bloom_up_5"
    }
}

/// Name of the pass rendering shadow cascade `cascade`.
#[verifier::allow_in_spec]
pub fn cascade_pass_name(cascade: u32) -> &'static str
    returns
        (if cascade == 0 {
            "shadow_cascade_0"
        } else if cascade == 1 {
            "shadow_cascade_1"
        } else if cascade == 2 {
            "shadow_cascade_2"
        } else {
            "shadow_cascade_3"
        }),
{
    if cascade == 0 {
        "shadow_cascade_0"
    } else if cascade == 1 {
        "shadow_cascade_1"
    } else if cascade == 2 {
        "shadow_cascade_2"
    } else {
        "shadow_cascade_3"
    }
}

impl PassBody {
    /// The name the pass running this body is registered under.
    #[verifier::allow_in_spec]
    pub fn name(self) -> &'static str
        returns
            (match self {
                PassBody::GeometryPrepass => "geometry_prepass",
                PassBody::SsaoResolve => "ssao_resolve",
                PassBody::SsaoBlur => "ssao_blur",
                PassBody::Forward => "forward",
                PassBody::TaaResolve => "taa_resolve",
                PassBody::LuminanceHistogram => "luminance_histogram",
                PassBody::LuminanceAverage => "luminance_average",
                PassBody::BloomPrefilter => "bloom_prefilter",
                PassBody::BloomDownsample(level) => bloom_down_name(level),
                PassBody::BloomUpsample(level) => bloom_up_name(level),
                PassBody::Tonemap => "tonemap",
                PassBody::Overlay => "overlay",
                PassBody::ShadowCascade(cascade) => cascade_pass_name(cascade),
            }),
    {
        match self {
            PassBody::GeometryPrepass => "geometry_prepass",
            PassBody::SsaoResolve => "ssao_resolve",
            PassBody::SsaoBlur => "ssao_blur",
            PassBody::Forward => "forward",
            PassBody::TaaResolve => "taa_resolve",
            PassBody::LuminanceHistogram => "luminance_histogram",
            PassBody::LuminanceAverage => "luminance_average",
            PassBody::BloomPrefilter => "bloom_prefilter",
            PassBody::BloomDownsample(level) => bloom_down_name(level),
            PassBody::BloomUpsample(level) => bloom_up_name(level),
            PassBody::Tonemap => "tonemap",
            PassBody::Overlay => "overlay",
            PassBody::ShadowCascade(cascade) => cascade_pass_name(cascade),
        }
    }

    /// How the pass running this body records: dispatches are compute, the
    /// overlay submits on its own, the rest record inline.
    #[verifier::allow_in_spec]
    pub fn kind(self) -> PassKind
        returns
            (match self {
                PassBody::TaaResolve | PassBody::LuminanceHistogram | PassBody::LuminanceAverage
                | PassBody::BloomPrefilter | PassBody::BloomDownsample(_) | PassBody::BloomUpsample(
                    _,
                ) => PassKind::Compute,
                PassBody::Overlay => PassKind::Raw,
                _ => PassKind::Inline,
            }),
    {
        match self {
            PassBody::TaaResolve | PassBody::LuminanceHistogram | PassBody::LuminanceAverage
            | PassBody::BloomPrefilter | PassBody::BloomDownsample(_) | PassBody::BloomUpsample(_) => {
                PassKind::Compute
            },
            PassBody::Overlay => PassKind::Raw,
            _ => PassKind::Inline,
        }
    }
}

/// The two chains bloom needs, each level a separate image. Only the first
/// `mips` entries of `down` and the first `mips - 1` of `up` are present.
#[derive(Clone, Copy, Debug)]
pub struct BloomIds {
    pub mips: u8,
    pub down: [Option<ResourceId>; MAX_BLOOM_MIPS],
    pub up: [Option<ResourceId>; MAX_BLOOM_MIPS],
}

impl BloomIds {
    pub fn down(&self, level: usize) -> (r: ResourceId)
        requires
            level < MAX_BLOOM_MIPS,
            self.down[level as int] is Some,
        ensures
            self.down[level as int] == Some(r),
    {
        self.down[level].unwrap()
    }

    pub fn up(&self, level: usize) -> (r: ResourceId)
        requires
            level < MAX_BLOOM_MIPS,
            self.up[level as int] is Some,
        ensures
            self.up[level as int] == Some(r),
    {
        self.up[level].unwrap()
    }

    /// What the tonemap pass composites: the finest level of the up chain, or
    /// for a one-level chain, which has no upsample step, the down chain's
    /// only level.
    #[verifier::allow_in_spec]
    pub fn result(&self) -> ResourceId
        requires
            self.mips >= 2 ==> self.up[0] is Some,
            self.mips < 2 ==> self.down[0] is Some,
        returns
            (if self.mips >= 2 {
                self.up[0]->Some_0
            } else {
                self.down[0]->Some_0
            }),
    {
        if self.mips >= 2 {
            self.up[0].unwrap()
        } else {
            self.down[0].unwrap()
        }
    }
}

/// What the one geometry pass in front of shading leaves behind.
#[derive(Clone, Copy, PartialEq, Eq, Structural, Debug)]
pub struct PrepassIds {
    pub normal: ResourceId,
    pub velocity: ResourceId,
    pub depth: ResourceId,
}

#[derive(Clone, Copy, PartialEq, Eq, Structural, Debug)]
pub struct SsaoIds {
    pub raw_ao: ResourceId,
    pub ao: ResourceId,
}

/// The two images TAA carries across the frame boundary, both imported: the
/// allocation bound as `output` this frame is `history` next frame.
#[derive(Clone, Copy, PartialEq, Eq, Structural, Debug)]
pub struct TaaIds {
    pub history: ResourceId,
    pub output: ResourceId,
}

/// Handles the executor needs to bind per-frame resources.
#[derive(Clone, Copy, Debug)]
pub struct FrameIds {
    pub object_transforms: ResourceId,
    pub swapchain_color: ResourceId,
    pub hdr_color: ResourceId,
    /// What tonemapping, metering and bloom read: the TAA output when there is
    /// one, else `hdr_color`.
    pub scene_color: ResourceId,
    pub msaa_hdr: ResourceId,
    pub msaa_depth: ResourceId,
    /// Always declared: the tonemap pass binds it whether or not metering ran.
    pub exposure: ResourceId,
    pub histogram: Option<ResourceId>,
    pub bloom: Option<BloomIds>,
    pub prepass: Option<PrepassIds>,
    pub ssao: Option<SsaoIds>,
    pub taa: Option<TaaIds>,
    pub shadows: Option<ResourceId>,
}

pub struct Frame {
    pub graph: FrameGraph,
    pub ids: FrameIds,
    /// Indexed by pass id, so a pass's declarations and its body cannot drift.
    pub bodies: Vec<PassBody>,
}

pub open spec fn rid(i: int) -> ResourceId {
    ResourceId(i as u32)
}

pub open spec fn has_shadows(c: FrameConfig) -> bool {
    c.shadow_cascades > 0
}

pub open spec fn has_prepass(c: FrameConfig) -> bool {
    c.ssao || c.taa
}

/// Where each group of the frame's resources starts, in declaration order.
pub open spec fn prepass_at(c: FrameConfig) -> int {
    2 + if has_shadows(c) { 1int } else { 0 }
}

pub open spec fn ssao_at(c: FrameConfig) -> int {
    prepass_at(c) + if has_prepass(c) { 3int } else { 0 }
}

pub open spec fn msaa_at(c: FrameConfig) -> int {
    ssao_at(c) + if c.ssao { 2int } else { 0 }
}

pub open spec fn taa_at(c: FrameConfig) -> int {
    msaa_at(c) + 3
}

pub open spec fn exposure_at(c: FrameConfig) -> int {
    taa_at(c) + if c.taa { 2int } else { 0 }
}

pub open spec fn bloom_at(c: FrameConfig) -> int {
    exposure_at(c) + 1 + if c.auto_exposure { 1int } else { 0 }
}

pub open spec fn bloom_down_id(c: FrameConfig, level: int) -> Option<ResourceId> {
    if level < c.bloom_mips {
        Some(rid(bloom_at(c) + 2 * level))
    } else {
        None
    }
}

pub open spec fn bloom_up_id(c: FrameConfig, level: int) -> Option<ResourceId> {
    if level + 1 < c.bloom_mips {
        Some(rid(bloom_at(c) + 2 * level + 1))
    } else {
        None
    }
}

/// What shading past the resolve reads: the temporal output when there is
/// one, else the resolved colour.
pub open spec fn scene_color_id(c: FrameConfig) -> ResourceId {
    if c.taa {
        rid(taa_at(c) + 1)
    } else {
        rid(msaa_at(c) + 2)
    }
}

/// The handles a frame of configuration `c` declares.
pub open spec fn frame_ids(c: FrameConfig) -> FrameIds {
    FrameIds {
        object_transforms: rid(0),
        swapchain_color: rid(1),
        hdr_color: rid(msaa_at(c) + 2),
        scene_color: scene_color_id(c),
        msaa_hdr: rid(msaa_at(c)),
        msaa_depth: rid(msaa_at(c) + 1),
        exposure: rid(exposure_at(c)),
        histogram: if c.auto_exposure {
            Some(rid(exposure_at(c) + 1))
        } else {
            None
        },
        bloom: if c.bloom_mips > 0 {
            Some(
                BloomIds {
                    mips: c.bloom_mips,
                    down: [
                        bloom_down_id(c, 0),
                        bloom_down_id(c, 1),
                        bloom_down_id(c, 2),
                        bloom_down_id(c, 3),
                        bloom_down_id(c, 4),
                        bloom_down_id(c, 5),
                    ],
                    up: [
                        bloom_up_id(c, 0),
                        bloom_up_id(c, 1),
                        bloom_up_id(c, 2),
                        bloom_up_id(c, 3),
                        bloom_up_id(c, 4),
                        bloom_up_id(c, 5),
                    ],
                },
            )
        } else {
            None
        },
        prepass: if has_prepass(c) {
            Some(
                PrepassIds {
                    normal: rid(prepass_at(c)),
                    velocity: rid(prepass_at(c) + 1),
                    depth: rid(prepass_at(c) + 2),
                },
            )
        } else {
            None
        },
        ssao: if c.ssao {
            Some(SsaoIds { raw_ao: rid(ssao_at(c)), ao: rid(ssao_at(c) + 1) })
        } else {
            None
        },
        taa: if c.taa {
            Some(TaaIds { history: rid(taa_at(c)), output: rid(taa_at(c) + 1) })
        } else {
            None
        },
        shadows: if has_shadows(c) {
            Some(rid(2))
        } else {
            None
        },
    }
}

pub open spec fn plain_desc(format: Format) -> ImageDesc {
    ImageDesc { format, extent: Extent::Frame, samples: SampleCount::Sample1, array_layers: 1 }
}

pub open spec fn transient(name: &'static str, desc: ImageDesc) -> ResourceDecl {
    ResourceDecl { name, kind: ResourceKind::Transient(desc) }
}

pub open spec fn imported(name: &'static str, desc: ImageDesc, entry: ImageLayout, exit: ImageLayout) -> ResourceDecl {
    ResourceDecl { name, kind: ResourceKind::Imported(desc, ImportedLayouts { entry, exit }) }
}

pub open spec fn buffer(name: &'static str) -> ResourceDecl {
    ResourceDecl { name, kind: ResourceKind::ImportedBuffer }
}

pub open spec fn when<T>(cond: bool, s: Seq<T>) -> Seq<T> {
    if cond {
        s
    } else {
        Seq::empty()
    }
}

/// Bloom level `level`: the frame halved `level + 1` times.
pub open spec fn bloom_desc(level: int) -> ImageDesc {
    ImageDesc { extent: Extent::FrameDiv((level + 1) as u32), ..plain_desc(HDR_FORMAT) }
}

/// The bloom chain's images for the levels below `upto`: each level's down
/// image, then its up image when a coarser level follows.
pub open spec fn bloom_resources(mips: int, upto: int) -> Seq<ResourceDecl>
    decreases upto,
{
    if upto <= 0 {
        Seq::empty()
    } else {
        let level = upto - 1;
        bloom_resources(mips, level) + seq![transient(bloom_down_name(level as u32), bloom_desc(level))]
            + when(level + 1 < mips, seq![transient(bloom_up_name(level as u32), bloom_desc(level))])
    }
}

/// The resources a frame declares before anything that depends on shading:
/// the transform upload, the swapchain image and the shadow atlas.
pub open spec fn base_resources(c: FrameConfig) -> Seq<ResourceDecl> {
    seq![
        buffer("object_transforms"),
        imported("swapchain_color", plain_desc(c.color_format), ImageLayout::Undefined, ImageLayout::PresentSrc),
    ] + when(
        has_shadows(c),
        seq![transient("shadow_cascades", ImageDesc {
            format: DEPTH_FORMAT,
            extent: Extent::Fixed([c.shadow_resolution, c.shadow_resolution]),
            samples: SampleCount::Sample1,
            array_layers: c.shadow_cascades as u32,
        })],
    )
}

/// Then the prepass targets, the ambient occlusion targets and the targets
/// the forward pass shades into.
pub open spec fn shading_resources(c: FrameConfig) -> Seq<ResourceDecl> {
    base_resources(c) + when(
        has_prepass(c),
        seq![
            transient("prepass_normal", plain_desc(NORMAL_FORMAT)),
            transient("prepass_velocity", plain_desc(VELOCITY_FORMAT)),
            transient("prepass_depth", plain_desc(DEPTH_FORMAT)),
        ],
    ) + when(
        c.ssao,
        seq![transient("ssao_raw_ao", plain_desc(AO_FORMAT)), transient("ssao_ao", plain_desc(AO_FORMAT))],
    ) + seq![
        transient("msaa_hdr", ImageDesc { samples: MSAA_SAMPLES, ..plain_desc(HDR_FORMAT) }),
        transient("msaa_depth", ImageDesc { samples: MSAA_SAMPLES, ..plain_desc(DEPTH_FORMAT) }),
        transient("hdr_color", plain_desc(HDR_FORMAT)),
    ]
}

/// Then the two images temporal resolve carries across frames.
pub open spec fn history_resources(c: FrameConfig) -> Seq<ResourceDecl> {
    shading_resources(c) + when(
        c.taa,
        seq![
            imported("taa_history", plain_desc(HDR_FORMAT), ImageLayout::ShaderReadOnlyOptimal, ImageLayout::ShaderReadOnlyOptimal),
            imported("taa_color", plain_desc(HDR_FORMAT), ImageLayout::Undefined, ImageLayout::ShaderReadOnlyOptimal),
        ],
    )
}

/// Then the exposure buffer and, when metering, the histogram.
pub open spec fn metering_resources(c: FrameConfig) -> Seq<ResourceDecl> {
    history_resources(c) + seq![buffer("exposure")] + when(c.auto_exposure, seq![buffer("luminance_histogram")])
}

/// Every resource a frame of configuration `c` declares, in declaration order.
pub open spec fn frame_resources(c: FrameConfig) -> Seq<ResourceDecl> {
    metering_resources(c) + bloom_resources(c.bloom_mips as int, c.bloom_mips as int)
}

/// One shadow pass per cascade.
pub open spec fn cascade_bodies(c: FrameConfig) -> Seq<PassBody> {
    Seq::new(c.shadow_cascades as nat, |i: int| PassBody::ShadowCascade(i as u32))
}

/// The passes up to and including the forward pass.
pub open spec fn shading_bodies(c: FrameConfig) -> Seq<PassBody> {
    cascade_bodies(c) + when(has_prepass(c), seq![PassBody::GeometryPrepass]) + when(
        c.ssao,
        seq![PassBody::SsaoResolve, PassBody::SsaoBlur],
    ) + seq![PassBody::Forward]
}

/// Then temporal resolve and metering.
pub open spec fn metering_bodies(c: FrameConfig) -> Seq<PassBody> {
    shading_bodies(c) + when(c.taa, seq![PassBody::TaaResolve]) + when(
        c.auto_exposure,
        seq![PassBody::LuminanceHistogram, PassBody::LuminanceAverage],
    )
}

/// The bloom chain: the prefilter, the downsamples finest first, then the
/// upsamples coarsest first.
pub open spec fn bloom_bodies(mips: int) -> Seq<PassBody> {
    seq![PassBody::BloomPrefilter] + Seq::new((mips - 1) as nat, |i: int| PassBody::BloomDownsample((i + 1) as u32))
        + Seq::new((mips - 1) as nat, |i: int| PassBody::BloomUpsample((mips - 2 - i) as u32))
}

/// The bodies of a frame of configuration `c`, in registration order.
pub open spec fn frame_bodies(c: FrameConfig) -> Seq<PassBody> {
    metering_bodies(c) + when(c.bloom_mips > 0, bloom_bodies(c.bloom_mips as int)) + seq![PassBody::Tonemap]
        + when(c.overlay, seq![PassBody::Overlay])
}

/// What the pass running `body` declares, in declaration order.
pub open spec fn body_accesses(c: FrameConfig, body: PassBody) -> Seq<(ResourceId, Access)> {
    let mips = c.bloom_mips as int;
    let object_transforms = rid(0);
    let swapchain_color = rid(1);
    let hdr_color = rid(msaa_at(c) + 2);
    let scene_color = scene_color_id(c);
    let exposure = rid(exposure_at(c));
    match body {
        PassBody::ShadowCascade(_) => seq![
            (object_transforms, Access::StorageRead),
            (rid(2), Access::DepthAttachment),
        ],
        PassBody::GeometryPrepass => seq![
            (object_transforms, Access::StorageRead),
            (rid(prepass_at(c)), Access::ColorAttachment),
            (rid(prepass_at(c) + 1), Access::ColorAttachment),
            (rid(prepass_at(c) + 2), Access::DepthAttachment),
        ],
        PassBody::SsaoResolve => seq![
            (rid(prepass_at(c) + 2), Access::Sampled),
            (rid(prepass_at(c)), Access::Sampled),
            (rid(ssao_at(c)), Access::ColorAttachment),
        ],
        PassBody::SsaoBlur => seq![
            (rid(ssao_at(c)), Access::Sampled),
            (rid(ssao_at(c) + 1), Access::ColorAttachment),
        ],
        PassBody::Forward => seq![(object_transforms, Access::StorageRead)] + when(
            c.ssao,
            seq![(rid(ssao_at(c) + 1), Access::Sampled)],
        ) + when(has_shadows(c), seq![(rid(2), Access::Sampled)]) + seq![
            (rid(msaa_at(c)), Access::ColorAttachment),
            (rid(msaa_at(c) + 1), Access::DepthAttachment),
            (hdr_color, Access::ResolveAttachment),
        ],
        PassBody::TaaResolve => seq![
            (hdr_color, Access::Sampled),
            (rid(prepass_at(c) + 1), Access::Sampled),
            (rid(prepass_at(c) + 2), Access::Sampled),
            (rid(taa_at(c)), Access::Sampled),
            (rid(taa_at(c) + 1), Access::StorageWrite),
        ],
        PassBody::LuminanceHistogram => seq![
            (scene_color, Access::Sampled),
            (rid(exposure_at(c) + 1), Access::StorageWrite),
        ],
        PassBody::LuminanceAverage => seq![
            (rid(exposure_at(c) + 1), Access::StorageWrite),
            (exposure, Access::StorageWrite),
        ],
        PassBody::BloomPrefilter => seq![
            (scene_color, Access::Sampled),
            (exposure, Access::StorageRead),
            (rid(bloom_at(c)), Access::StorageWrite),
        ],
        PassBody::BloomDownsample(level) => seq![
            (rid(bloom_at(c) + 2 * (level - 1)), Access::Sampled),
            (rid(bloom_at(c) + 2 * level), Access::StorageWrite),
        ],
        PassBody::BloomUpsample(level) => seq![
            (if level + 2 < mips {
                rid(bloom_at(c) + 2 * (level + 1) + 1)
            } else {
                rid(bloom_at(c) + 2 * (level + 1))
            }, Access::Sampled),
            (rid(bloom_at(c) + 2 * level), Access::Sampled),
            (rid(bloom_at(c) + 2 * level + 1), Access::StorageWrite),
        ],
        PassBody::Tonemap => seq![(scene_color, Access::Sampled), (exposure, Access::StorageRead)]
            + when(
            mips > 0,
            seq![(if mips >= 2 {
                rid(bloom_at(c) + 1)
            } else {
                rid(bloom_at(c))
            }, Access::Sampled)],
        ) + seq![(swapchain_color, Access::ColorAttachment)],
        PassBody::Overlay => seq![(swapchain_color, Access::ColorAttachment)],
    }
}

/// Pass `pass` is the registration of `body` in a frame of configuration `c`.
pub open spec fn declares_body(c: FrameConfig, pass: PassDecl, body: PassBody) -> bool {
    &&& pass.name == body.name()
    &&& pass.kind == body.kind()
    &&& pass.accesses@ == body_accesses(c, body)
}

/// `b` holds exactly the resources and passes a frame of configuration `c`
/// declares.
pub open spec fn declares_frame(c: FrameConfig, b: GraphBuilder) -> bool {
    &&& b.resources@ == frame_resources(c)
    &&& b.passes@.len() == frame_bodies(c).len()
    &&& forall|i: int| 0 <= i < b.passes@.len() ==> #[trigger] declares_body(c, b.passes@[i], frame_bodies(c)[i])
}

/// Each registered pass is the registration of the body recorded beside it.
pub open spec fn passes_match(c: FrameConfig, passes: Seq<PassDecl>, bodies: Seq<PassBody>) -> bool {
    &&& passes.len() == bodies.len()
    &&& forall|i: int| 0 <= i < passes.len() ==> #[trigger] declares_body(c, passes[i], bodies[i])
}

/// Where a frame's declaration stands: the resources and bodies declared so
/// far, and passes that match the bodies and name only declared resources.
pub open spec fn declared_so_far(
    c: FrameConfig,
    b: GraphBuilder,
    bodies: Seq<PassBody>,
    resources: Seq<ResourceDecl>,
    expected: Seq<PassBody>,
) -> bool {
    &&& b.resources@ == resources
    &&& bodies == expected
    &&& passes_match(c, b.passes@, bodies)
    &&& ids_in_range(b.resources@, b.passes@)
    &&& bodies.len() < 64
}

/// Declaring more resources keeps every pass's accesses in range.
proof fn lemma_resources_grow(resources: Seq<ResourceDecl>, more: Seq<ResourceDecl>, passes: Seq<PassDecl>)
    requires
        ids_in_range(resources, passes),
        resources.len() <= more.len(),
    ensures
        ids_in_range(more, passes),
{
}

/// Registering a pass that matches its body and names only declared
/// resources keeps the declaration on track.
proof fn lemma_register(
    c: FrameConfig,
    resources: Seq<ResourceDecl>,
    passes: Seq<PassDecl>,
    bodies: Seq<PassBody>,
    decl: PassDecl,
    body: PassBody,
)
    requires
        passes_match(c, passes, bodies),
        ids_in_range(resources, passes),
        declares_body(c, decl, body),
        forall|k: int| 0 <= k < decl.accesses@.len() ==> (#[trigger] decl.accesses@[k]).0.0 < resources.len(),
    ensures
        passes_match(c, passes.push(decl), bodies.push(body)),
        ids_in_range(resources, passes.push(decl)),
{
    assert forall|i: int| 0 <= i < passes.push(decl).len() implies #[trigger] declares_body(
        c,
        passes.push(decl)[i],
        bodies.push(body)[i],
    ) by {
        if i < passes.len() {
            assert(declares_body(c, passes[i], bodies[i]));
        }
    }
    assert forall|p: int, k: int|
        0 <= p < passes.push(decl).len() && 0 <= k < passes.push(decl)[p].accesses@.len() implies (
        #[trigger] passes.push(decl)[p].accesses@[k]).0.0 < resources.len() by {
        if p < passes.len() {
            assert(passes[p].accesses@[k] == passes.push(decl)[p].accesses@[k]);
        }
    }
}

/// Length of the bloom chain's images below level `upto`: two per level, but
/// the coarsest level has no up image.
pub proof fn lemma_bloom_len(mips: int, upto: int)
    requires
        0 <= upto <= mips,
    ensures
        bloom_resources(mips, upto).len() == if upto == mips && mips > 0 {
            2 * upto - 1
        } else {
            2 * upto
        },
    decreases upto,
{
    if upto > 0 {
        lemma_bloom_len(mips, upto - 1);
    }
}

proof fn lemma_seq_new_push<A>(prefix: Seq<A>, k: nat, f: spec_fn(int) -> A)
    ensures
        (prefix + Seq::new(k, f)).push(f(k as int)) =~= prefix + Seq::new(k + 1, f),
{
}

/// Recording the upsample of `level` extends the upsamples recorded so far
/// by one.
proof fn lemma_upsample_step(prefix: Seq<PassBody>, downs: Seq<PassBody>, m: int, level: int)
    requires
        0 <= level,
        level + 2 <= m,
    ensures
        ({
            let f = |i: int| PassBody::BloomUpsample((m - 2 - i) as u32);
            (prefix + (downs + Seq::new((m - 2 - level) as nat, f))).push(PassBody::BloomUpsample(level as u32))
                == prefix + (downs + Seq::new((m - 1 - level) as nat, f))
        }),
{
    let f = |i: int| PassBody::BloomUpsample((m - 2 - i) as u32);
    lemma_seq_new_push(prefix + downs, (m - 2 - level) as nat, f);
    assert(prefix + (downs + Seq::new((m - 2 - level) as nat, f)) =~= prefix + downs + Seq::new(
        (m - 2 - level) as nat,
        f,
    ));
    assert(prefix + (downs + Seq::new((m - 1 - level) as nat, f)) =~= prefix + downs + Seq::new(
        (m - 1 - level) as nat,
        f,
    ));
}

/// What an upsample step reads and writes, in terms of the chain's handles.
proof fn lemma_upsample_accesses(c: FrameConfig, level: int)
    requires
        0 <= level,
        level + 1 < c.bloom_mips,
    ensures
        body_accesses(c, PassBody::BloomUpsample(level as u32)) == seq![
            (if level + 2 < c.bloom_mips {
                bloom_up_id(c, level + 1)->Some_0
            } else {
                bloom_down_id(c, level + 1)->Some_0
            }, Access::Sampled),
            (bloom_down_id(c, level)->Some_0, Access::Sampled),
            (bloom_up_id(c, level)->Some_0, Access::StorageWrite),
        ],
{
}

/// Keeps the body list in step with the builder's passes.
fn record(id: PassId, body: PassBody, bodies: &mut Vec<PassBody>)
    requires
        id.index() == old(bodies).len(),
    ensures
        final(bodies)@ == old(bodies)@.push(body),
{
    bodies.push(body);
}

/// One depth-only pass per cascade, each drawing into its own layer of the
/// shadow atlas.
fn declare_cascades(
    builder: &mut GraphBuilder,
    bodies: &mut Vec<PassBody>,
    config: FrameConfig,
    object_transforms: ResourceId,
    shadows: ResourceId,
)
    requires
        has_shadows(config),
        config.shadow_cascades <= MAX_CASCADES,
        declared_so_far(config, *old(builder), old(bodies)@, base_resources(config), Seq::empty()),
        object_transforms == rid(0),
        shadows == rid(2),
    ensures
        declared_so_far(config, *final(builder), final(bodies)@, base_resources(config), cascade_bodies(config)),
{
    let count = config.shadow_cascades as u32;
    let mut cascade: u32 = 0;
    assert(Seq::new(0nat, |i: int| PassBody::ShadowCascade(i as u32)) =~= Seq::<PassBody>::empty());
    while cascade < count
        invariant
            count == config.shadow_cascades,
            count <= MAX_CASCADES,
            has_shadows(config),
            cascade <= count,
            object_transforms == rid(0),
            shadows == rid(2),
            declared_so_far(
                config,
                *builder,
                bodies@,
                base_resources(config),
                Seq::new(cascade as nat, |i: int| PassBody::ShadowCascade(i as u32)),
            ),
        decreases count - cascade,
    {
        let ghost before = *builder;
        let ghost listed = bodies@;
        let id = builder.pass(cascade_pass_name(cascade), PassKind::Inline).access(
            object_transforms,
            Access::StorageRead,
        ).access(shadows, Access::DepthAttachment).build();
        let body = PassBody::ShadowCascade(cascade);
        record(id, body, bodies);
        proof {
            let decl = builder.passes@.last();
            assert(builder.passes@ == before.passes@.push(decl));
            assert(decl.accesses@ =~= body_accesses(config, body));
            lemma_register(config, base_resources(config), before.passes@, listed, decl, body);
            assert(bodies@ =~= Seq::new((cascade + 1) as nat, |i: int| PassBody::ShadowCascade(i as u32)));
        }
        cascade += 1;
    }
}

/// The bloom chain's images, each level a separate image, and its passes:
/// the prefilter writes the finest down level, each downsample the next
/// coarser one, and the upsamples walk back up, coarsest first.
#[verifier::spinoff_prover]
#[verifier::rlimit(50)]
fn declare_bloom(
    builder: &mut GraphBuilder,
    bodies: &mut Vec<PassBody>,
    config: FrameConfig,
    scene_color: ResourceId,
    exposure: ResourceId,
) -> (r: BloomIds)
    requires
        0 < config.bloom_mips <= MAX_BLOOM_MIPS,
        config.shadow_cascades <= MAX_CASCADES,
        declared_so_far(config, *old(builder), old(bodies)@, metering_resources(config), metering_bodies(config)),
        metering_resources(config).len() == bloom_at(config),
        scene_color == frame_ids(config).scene_color,
        exposure == frame_ids(config).exposure,
        scene_color.0 < bloom_at(config),
        exposure.0 < bloom_at(config),
    ensures
        declared_so_far(
            config,
            *final(builder),
            final(bodies)@,
            frame_resources(config),
            metering_bodies(config) + bloom_bodies(config.bloom_mips as int),
        ),
        frame_ids(config).bloom == Some(r),
{
    let mips = config.bloom_mips as usize;
    let ghost start = metering_resources(config);
    let ghost m = mips as int;
    let ghost at = bloom_at(config);
    let mut down: [Option<ResourceId>; MAX_BLOOM_MIPS] = [None, None, None, None, None, None];
    let mut up: [Option<ResourceId>; MAX_BLOOM_MIPS] = [None, None, None, None, None, None];

    // Level `n` is the frame halved `n + 1` times, so level 0 is half the frame.
    let mut level: usize = 0;
    while level < mips
        invariant
            mips == config.bloom_mips,
            0 < mips <= MAX_BLOOM_MIPS,
            config.shadow_cascades <= MAX_CASCADES,
            level <= mips,
            m == mips,
            at == bloom_at(config),
            start == metering_resources(config),
            start.len() == at,
            declared_so_far(config, *builder, bodies@, start + bloom_resources(m, level as int), metering_bodies(config)),
            forall|l: int| 0 <= l < MAX_BLOOM_MIPS ==> down[l] == if l < level { bloom_down_id(config, l) } else { None },
            forall|l: int| 0 <= l < MAX_BLOOM_MIPS ==> up[l] == if l < level { bloom_up_id(config, l) } else { None },
        decreases mips - level,
    {
        let ghost before = *builder;
        proof {
            lemma_bloom_len(m, level as int);
        }
        let shift = level as u32 + 1;
        let id = builder.create_image(
            bloom_down_name(level as u32),
            ImageDesc::new(HDR_FORMAT).extent(Extent::FrameDiv(shift)),
        );
        down[level] = Some(id);
        if level + 1 < mips {
            let id = builder.create_image(
                bloom_up_name(level as u32),
                ImageDesc::new(HDR_FORMAT).extent(Extent::FrameDiv(shift)),
            );
            up[level] = Some(id);
        }
        proof {
            assert(builder.resources@ =~= start + bloom_resources(m, level + 1));
            lemma_resources_grow(before.resources@, builder.resources@, builder.passes@);
        }
        level += 1;
    }
    proof {
        lemma_bloom_len(m, m);
    }

    let ghost before = *builder;
    let ghost listed = bodies@;
    let id = builder.pass("bloom_prefilter", PassKind::Compute).access(scene_color, Access::Sampled).access(
        exposure,
        Access::StorageRead,
    ).access(down[0].unwrap(), Access::StorageWrite).build();
    record(id, PassBody::BloomPrefilter, bodies);
    proof {
        let decl = builder.passes@.last();
        assert(builder.passes@ == before.passes@.push(decl));
        assert(decl.accesses@ =~= body_accesses(config, PassBody::BloomPrefilter));
        lemma_register(config, builder.resources@, before.passes@, listed, decl, PassBody::BloomPrefilter);
        assert(bodies@ =~= metering_bodies(config) + (seq![PassBody::BloomPrefilter] + Seq::new(
            0nat,
            |i: int| PassBody::BloomDownsample((i + 1) as u32),
        )));
    }

    let mut level: usize = 1;
    while level < mips
        invariant
            mips == config.bloom_mips,
            0 < mips <= MAX_BLOOM_MIPS,
            config.shadow_cascades <= MAX_CASCADES,
            1 <= level <= mips,
            m == mips,
            at == bloom_at(config),
            start.len() == at,
            declared_so_far(
                config,
                *builder,
                bodies@,
                frame_resources(config),
                metering_bodies(config) + (seq![PassBody::BloomPrefilter] + Seq::new(
                    (level - 1) as nat,
                    |i: int| PassBody::BloomDownsample((i + 1) as u32),
                )),
            ),
            frame_resources(config).len() == at + 2 * m - 1,
            forall|l: int| 0 <= l < MAX_BLOOM_MIPS ==> down[l] == bloom_down_id(config, l),
            forall|l: int| 0 <= l < MAX_BLOOM_MIPS ==> up[l] == bloom_up_id(config, l),
        decreases mips - level,
    {
        let ghost before = *builder;
        let ghost listed = bodies@;
        let body = PassBody::BloomDownsample(level as u32);
        assert(down[level - 1] == bloom_down_id(config, level - 1));
        assert(down[level as int] == bloom_down_id(config, level as int));
        let id = builder.pass(bloom_down_name(level as u32), PassKind::Compute).access(
            down[level - 1].unwrap(),
            Access::Sampled,
        ).access(down[level].unwrap(), Access::StorageWrite).build();
        record(id, body, bodies);
        proof {
            let decl = builder.passes@.last();
            assert(builder.passes@ == before.passes@.push(decl));
            assert(decl.accesses@ =~= body_accesses(config, body));
            lemma_register(config, builder.resources@, before.passes@, listed, decl, body);
            assert(bodies@ =~= metering_bodies(config) + (seq![PassBody::BloomPrefilter] + Seq::new(
                level as nat,
                |i: int| PassBody::BloomDownsample((i + 1) as u32),
            )));
        }
        level += 1;
    }

    // Back up the chain, coarsest first. The coarsest step spreads the down
    // chain's last level; every step after it spreads the up level it just
    // produced.
    let ghost downs = seq![PassBody::BloomPrefilter] + Seq::new(
        (m - 1) as nat,
        |i: int| PassBody::BloomDownsample((i + 1) as u32),
    );
    proof {
        assert(downs + Seq::new(0nat, |i: int| PassBody::BloomUpsample((m - 2 - i) as u32)) =~= downs);
    }
    let mut remaining: usize = mips - 1;
    while remaining > 0
        invariant
            mips == config.bloom_mips,
            0 < mips <= MAX_BLOOM_MIPS,
            config.shadow_cascades <= MAX_CASCADES,
            remaining < mips,
            m == mips,
            at == bloom_at(config),
            downs == seq![PassBody::BloomPrefilter] + Seq::new(
                (m - 1) as nat,
                |i: int| PassBody::BloomDownsample((i + 1) as u32),
            ),
            declared_so_far(
                config,
                *builder,
                bodies@,
                frame_resources(config),
                metering_bodies(config) + (downs + Seq::new(
                    (m - 1 - remaining) as nat,
                    |i: int| PassBody::BloomUpsample((m - 2 - i) as u32),
                )),
            ),
            frame_resources(config).len() == at + 2 * m - 1,
            forall|l: int| 0 <= l < MAX_BLOOM_MIPS ==> down[l] == bloom_down_id(config, l),
            forall|l: int| 0 <= l < MAX_BLOOM_MIPS ==> up[l] == bloom_up_id(config, l),
        decreases remaining,
    {
        remaining -= 1;
        let level = remaining;
        let ghost before = *builder;
        let ghost listed = bodies@;
        assert(down[level + 1] == bloom_down_id(config, level + 1));
        assert(down[level as int] == bloom_down_id(config, level as int));
        assert(up[level + 1] == bloom_up_id(config, level + 1));
        assert(up[level as int] == bloom_up_id(config, level as int));
        let coarse = if level + 2 < mips {
            up[level + 1].unwrap()
        } else {
            down[level + 1].unwrap()
        };
        let body = PassBody::BloomUpsample(level as u32);
        let id = builder.pass(bloom_up_name(level as u32), PassKind::Compute).access(
            coarse,
            Access::Sampled,
        ).access(down[level].unwrap(), Access::Sampled).access(up[level].unwrap(), Access::StorageWrite).build();
        record(id, body, bodies);
        proof {
            let decl = builder.passes@.last();
            assert(builder.passes@ == before.passes@.push(decl));
            lemma_upsample_accesses(config, level as int);
            assert(decl.accesses@ =~= body_accesses(config, body));
            lemma_register(config, builder.resources@, before.passes@, listed, decl, body);
            lemma_upsample_step(metering_bodies(config), downs, m, level as int);
        }
    }
    proof {
        assert(down =~= [
            bloom_down_id(config, 0),
            bloom_down_id(config, 1),
            bloom_down_id(config, 2),
            bloom_down_id(config, 3),
            bloom_down_id(config, 4),
            bloom_down_id(config, 5),
        ]);
        assert(up =~= [
            bloom_up_id(config, 0),
            bloom_up_id(config, 1),
            bloom_up_id(config, 2),
            bloom_up_id(config, 3),
            bloom_up_id(config, 4),
            bloom_up_id(config, 5),
        ]);
    }
    BloomIds { mips: config.bloom_mips, down, up }
}

/// Registers the passes up to shading: the geometry prepass, the ambient
/// occlusion resolve and blur, and the forward pass.
#[verifier::spinoff_prover]
fn declare_shading(
    builder: &mut GraphBuilder,
    bodies: &mut Vec<PassBody>,
    config: FrameConfig,
    object_transforms: ResourceId,
    shadows: Option<ResourceId>,
    prepass: Option<PrepassIds>,
    ssao: Option<SsaoIds>,
    msaa_hdr: ResourceId,
    msaa_depth: ResourceId,
    hdr_color: ResourceId,
)
    requires
        config.shadow_cascades <= MAX_CASCADES,
        declared_so_far(config, *old(builder), old(bodies)@, shading_resources(config), cascade_bodies(config)),
        shading_resources(config).len() == taa_at(config),
        object_transforms == rid(0),
        prepass == frame_ids(config).prepass,
        ssao == frame_ids(config).ssao,
        shadows == frame_ids(config).shadows,
        msaa_hdr == rid(msaa_at(config)),
        msaa_depth == rid(msaa_at(config) + 1),
        hdr_color == rid(msaa_at(config) + 2),
    ensures
        declared_so_far(config, *final(builder), final(bodies)@, shading_resources(config), shading_bodies(config)),
{
    let ghost resources = shading_resources(config);
    let ghost expected = cascade_bodies(config);
    if let Some(prepass) = prepass {
        let ghost before = *builder;
        let ghost listed = bodies@;
        let id = builder.pass("geometry_prepass", PassKind::Inline).access(
            object_transforms,
            Access::StorageRead,
        ).access(prepass.normal, Access::ColorAttachment).access(
            prepass.velocity,
            Access::ColorAttachment,
        ).access(prepass.depth, Access::DepthAttachment).build();
        record(id, PassBody::GeometryPrepass, bodies);
        proof {
            let decl = builder.passes@.last();
            assert(builder.passes@ == before.passes@.push(decl));
            assert(decl.accesses@ =~= body_accesses(config, PassBody::GeometryPrepass));
            lemma_register(config, resources, before.passes@, listed, decl, PassBody::GeometryPrepass);
        }
    }
    proof {
        expected = expected + when(has_prepass(config), seq![PassBody::GeometryPrepass]);
        assert(bodies@ =~= expected);
    }
    if let Some(ssao) = ssao {
        let prepass = prepass.unwrap();
        let ghost before = *builder;
        let ghost listed = bodies@;
        let id = builder.pass("ssao_resolve", PassKind::Inline).access(prepass.depth, Access::Sampled).access(
            prepass.normal,
            Access::Sampled,
        ).access(ssao.raw_ao, Access::ColorAttachment).build();
        record(id, PassBody::SsaoResolve, bodies);
        proof {
            let decl = builder.passes@.last();
            assert(builder.passes@ == before.passes@.push(decl));
            assert(decl.accesses@ =~= body_accesses(config, PassBody::SsaoResolve));
            lemma_register(config, resources, before.passes@, listed, decl, PassBody::SsaoResolve);
        }

        let ghost before = *builder;
        let ghost listed = bodies@;
        let id = builder.pass("ssao_blur", PassKind::Inline).access(ssao.raw_ao, Access::Sampled).access(
            ssao.ao,
            Access::ColorAttachment,
        ).build();
        record(id, PassBody::SsaoBlur, bodies);
        proof {
            let decl = builder.passes@.last();
            assert(builder.passes@ == before.passes@.push(decl));
            assert(decl.accesses@ =~= body_accesses(config, PassBody::SsaoBlur));
            lemma_register(config, resources, before.passes@, listed, decl, PassBody::SsaoBlur);
        }
    }
    proof {
        expected = expected + when(config.ssao, seq![PassBody::SsaoResolve, PassBody::SsaoBlur]);
        assert(bodies@ =~= expected);
    }

    let ghost before = *builder;
    let ghost listed = bodies@;
    let mut forward = builder.pass("forward", PassKind::Inline).access(object_transforms, Access::StorageRead);
    if let Some(ssao) = ssao {
        forward = forward.access(ssao.ao, Access::Sampled);
    }
    if let Some(shadows) = shadows {
        forward = forward.access(shadows, Access::Sampled);
    }
    let id = forward.access(msaa_hdr, Access::ColorAttachment).access(
        msaa_depth,
        Access::DepthAttachment,
    ).access(hdr_color, Access::ResolveAttachment).build();
    record(id, PassBody::Forward, bodies);
    proof {
        let decl = builder.passes@.last();
        assert(builder.passes@ == before.passes@.push(decl));
        assert(decl.accesses@ =~= body_accesses(config, PassBody::Forward));
        lemma_register(config, resources, before.passes@, listed, decl, PassBody::Forward);
        assert(bodies@ =~= shading_bodies(config));
    }
}

/// The two images temporal resolve carries across frames, both imported,
/// and the resolve itself.
fn declare_taa(
    builder: &mut GraphBuilder,
    bodies: &mut Vec<PassBody>,
    config: FrameConfig,
    hdr_color: ResourceId,
    prepass: PrepassIds,
) -> (r: TaaIds)
    requires
        config.taa,
        config.shadow_cascades <= MAX_CASCADES,
        declared_so_far(config, *old(builder), old(bodies)@, shading_resources(config), shading_bodies(config)),
        shading_resources(config).len() == taa_at(config),
        hdr_color == rid(msaa_at(config) + 2),
        frame_ids(config).prepass == Some(prepass),
    ensures
        declared_so_far(
            config,
            *final(builder),
            final(bodies)@,
            history_resources(config),
            shading_bodies(config) + seq![PassBody::TaaResolve],
        ),
        frame_ids(config).taa == Some(r),
{
    let ghost start = *builder;
    // Entered in the layout the previous frame's output left it in.
    let history = builder.import_image(
        "taa_history",
        ImageDesc::new(HDR_FORMAT),
        ImageLayout::ShaderReadOnlyOptimal,
        ImageLayout::ShaderReadOnlyOptimal,
    );
    // Every texel is written, and it is left where the next frame wants it.
    let output = builder.import_image(
        "taa_color",
        ImageDesc::new(HDR_FORMAT),
        ImageLayout::Undefined,
        ImageLayout::ShaderReadOnlyOptimal,
    );
    proof {
        assert(builder.resources@ =~= history_resources(config));
        lemma_resources_grow(start.resources@, builder.resources@, builder.passes@);
    }
    let ghost before = *builder;
    let ghost listed = bodies@;
    let id = builder.pass("taa_resolve", PassKind::Compute).access(hdr_color, Access::Sampled).access(
        prepass.velocity,
        Access::Sampled,
    ).access(prepass.depth, Access::Sampled).access(history, Access::Sampled).access(
        output,
        Access::StorageWrite,
    ).build();
    record(id, PassBody::TaaResolve, bodies);
    proof {
        let decl = builder.passes@.last();
        assert(builder.passes@ == before.passes@.push(decl));
        assert(decl.accesses@ =~= body_accesses(config, PassBody::TaaResolve));
        lemma_register(config, builder.resources@, before.passes@, listed, decl, PassBody::TaaResolve);
        assert(bodies@ =~= shading_bodies(config) + seq![PassBody::TaaResolve]);
    }
    TaaIds { history, output }
}

/// The luminance histogram and the pass that averages it into the exposure.
fn declare_metering(
    builder: &mut GraphBuilder,
    bodies: &mut Vec<PassBody>,
    config: FrameConfig,
    scene_color: ResourceId,
    exposure: ResourceId,
) -> (r: ResourceId)
    requires
        config.auto_exposure,
        config.shadow_cascades <= MAX_CASCADES,
        declared_so_far(
            config,
            *old(builder),
            old(bodies)@,
            history_resources(config) + seq![buffer("exposure")],
            shading_bodies(config) + when(config.taa, seq![PassBody::TaaResolve]),
        ),
        history_resources(config).len() == exposure_at(config),
        scene_color == scene_color_id(config),
        exposure == rid(exposure_at(config)),
        scene_color.0 < exposure_at(config),
    ensures
        declared_so_far(config, *final(builder), final(bodies)@, metering_resources(config), metering_bodies(config)),
        frame_ids(config).histogram == Some(r),
{
    let ghost start = *builder;
    let histogram = builder.import_buffer("luminance_histogram");
    proof {
        assert(builder.resources@ =~= metering_resources(config));
        lemma_resources_grow(start.resources@, builder.resources@, builder.passes@);
    }

    let ghost before = *builder;
    let ghost listed = bodies@;
    let id = builder.pass("luminance_histogram", PassKind::Compute).access(scene_color, Access::Sampled).access(
        histogram,
        Access::StorageWrite,
    ).build();
    record(id, PassBody::LuminanceHistogram, bodies);
    proof {
        let decl = builder.passes@.last();
        assert(builder.passes@ == before.passes@.push(decl));
        assert(decl.accesses@ =~= body_accesses(config, PassBody::LuminanceHistogram));
        lemma_register(config, builder.resources@, before.passes@, listed, decl, PassBody::LuminanceHistogram);
    }

    // One write covers both halves of what this pass does to each buffer: it
    // reads the bins and zeroes them, reads last frame's adapted luminance and
    // replaces it. A separate read would be two accesses to one resource in
    // one pass, which compiling rejects.
    let ghost before = *builder;
    let ghost listed = bodies@;
    let id = builder.pass("luminance_average", PassKind::Compute).access(histogram, Access::StorageWrite).access(
        exposure,
        Access::StorageWrite,
    ).build();
    record(id, PassBody::LuminanceAverage, bodies);
    proof {
        let decl = builder.passes@.last();
        assert(builder.passes@ == before.passes@.push(decl));
        assert(decl.accesses@ =~= body_accesses(config, PassBody::LuminanceAverage));
        lemma_register(config, builder.resources@, before.passes@, listed, decl, PassBody::LuminanceAverage);
        assert(bodies@ =~= metering_bodies(config));
    }
    histogram
}

/// Tonemapping into the swapchain image, and the overlay over it.
fn declare_present(
    builder: &mut GraphBuilder,
    bodies: &mut Vec<PassBody>,
    config: FrameConfig,
    scene_color: ResourceId,
    exposure: ResourceId,
    bloom: Option<BloomIds>,
    swapchain_color: ResourceId,
)
    requires
        config.shadow_cascades <= MAX_CASCADES,
        config.bloom_mips <= MAX_BLOOM_MIPS,
        declared_so_far(
            config,
            *old(builder),
            old(bodies)@,
            frame_resources(config),
            metering_bodies(config) + when(config.bloom_mips > 0, bloom_bodies(config.bloom_mips as int)),
        ),
        metering_resources(config).len() == bloom_at(config),
        scene_color == scene_color_id(config),
        scene_color.0 < bloom_at(config),
        exposure == rid(exposure_at(config)),
        swapchain_color == rid(1),
        bloom == frame_ids(config).bloom,
    ensures
        declared_so_far(config, *final(builder), final(bodies)@, frame_resources(config), frame_bodies(config)),
{
    proof {
        lemma_bloom_len(config.bloom_mips as int, config.bloom_mips as int);
    }
    // Reading the exposure is also what orders this behind the metering.
    let ghost before = *builder;
    let ghost listed = bodies@;
    let mut tonemap = builder.pass("tonemap", PassKind::Inline).access(scene_color, Access::Sampled).access(
        exposure,
        Access::StorageRead,
    );
    if let Some(bloom) = bloom {
        tonemap = tonemap.access(bloom.result(), Access::Sampled);
    }
    let id = tonemap.access(swapchain_color, Access::ColorAttachment).build();
    record(id, PassBody::Tonemap, bodies);
    proof {
        let decl = builder.passes@.last();
        assert(builder.passes@ == before.passes@.push(decl));
        assert(decl.accesses@ =~= body_accesses(config, PassBody::Tonemap));
        lemma_register(config, builder.resources@, before.passes@, listed, decl, PassBody::Tonemap);
    }

    if config.overlay {
        let ghost before = *builder;
        let ghost listed = bodies@;
        let id = builder.pass("overlay", PassKind::Raw).access(swapchain_color, Access::ColorAttachment).build();
        record(id, PassBody::Overlay, bodies);
        proof {
            let decl = builder.passes@.last();
            assert(builder.passes@ == before.passes@.push(decl));
            assert(decl.accesses@ =~= body_accesses(config, PassBody::Overlay));
            lemma_register(config, builder.resources@, before.passes@, listed, decl, PassBody::Overlay);
        }
    }
    proof {
        assert(bodies@ =~= frame_bodies(config));
    }
}

/// Declares the frame of configuration `config` and compiles it.
///
/// The builder it compiles holds exactly the resources and passes
/// `declares_frame` lists, so what comes back is that builder's compile,
/// and since every such builder compiles, it always comes back `Ok`.
#[verifier::spinoff_prover]
#[verifier::rlimit(30)]
pub fn declare(config: FrameConfig) -> (r: Result<Frame, GraphError>)
    requires
        config.shadow_cascades <= MAX_CASCADES,
        config.bloom_mips <= MAX_BLOOM_MIPS,
    ensures
        r is Ok,
        r matches Ok(frame) ==> {
            &&& frame.ids == frame_ids(config)
            &&& frame.bodies@ == frame_bodies(config)
            &&& exists|b: GraphBuilder, sched: Seq<PassId>|
                declares_frame(config, b) && b.wf() && #[trigger] compiled_from(b, frame.graph, sched)
        },
{
    let mut builder = GraphBuilder::new();
    let mut bodies: Vec<PassBody> = Vec::new();

    // Host-written each frame and read by both geometry passes, which share
    // the one upload.
    let object_transforms = builder.import_buffer("object_transforms");
    // An acquired image's contents are not ours to keep, and presentation
    // wants it back in `PresentSrc`.
    let swapchain_color = builder.import_image(
        "swapchain_color",
        ImageDesc::new(config.color_format),
        ImageLayout::Undefined,
        ImageLayout::PresentSrc,
    );
    let shadows = if config.shadow_cascades > 0 {
        Some(
            builder.create_image(
                "shadow_cascades",
                ImageDesc::new(DEPTH_FORMAT).extent(Extent::Fixed([config.shadow_resolution, config.shadow_resolution])).array_layers(
                    config.shadow_cascades as u32,
                ),
            ),
        )
    } else {
        None
    };
    proof {
        assert(builder.resources@ =~= base_resources(config));
        assert(bodies@ =~= Seq::<PassBody>::empty());
    }
    if let Some(shadows) = shadows {
        declare_cascades(&mut builder, &mut bodies, config, object_transforms, shadows);
    } else {
        assert(cascade_bodies(config) =~= Seq::<PassBody>::empty());
    }

    // One prepass serves both consumers: they need the same rasterisation.
    let ghost cascaded = builder;
    let prepass = if config.ssao || config.taa {
        Some(
            PrepassIds {
                normal: builder.create_image("prepass_normal", ImageDesc::new(NORMAL_FORMAT)),
                velocity: builder.create_image("prepass_velocity", ImageDesc::new(VELOCITY_FORMAT)),
                depth: builder.create_image("prepass_depth", ImageDesc::new(DEPTH_FORMAT)),
            },
        )
    } else {
        None
    };
    let ssao = if config.ssao {
        Some(
            SsaoIds {
                raw_ao: builder.create_image("ssao_raw_ao", ImageDesc::new(AO_FORMAT)),
                ao: builder.create_image("ssao_ao", ImageDesc::new(AO_FORMAT)),
            },
        )
    } else {
        None
    };
    let msaa_hdr = builder.create_image("msaa_hdr", ImageDesc::new(HDR_FORMAT).samples(MSAA_SAMPLES));
    let msaa_depth = builder.create_image("msaa_depth", ImageDesc::new(DEPTH_FORMAT).samples(MSAA_SAMPLES));
    let hdr_color = builder.create_image("hdr_color", ImageDesc::new(HDR_FORMAT));
    proof {
        assert(builder.resources@ =~= shading_resources(config));
        lemma_resources_grow(cascaded.resources@, builder.resources@, builder.passes@);
    }

    declare_shading(
        &mut builder,
        &mut bodies,
        config,
        object_transforms,
        shadows,
        prepass,
        ssao,
        msaa_hdr,
        msaa_depth,
        hdr_color,
    );

    let taa = if config.taa {
        Some(declare_taa(&mut builder, &mut bodies, config, hdr_color, prepass.unwrap()))
    } else {
        None
    };
    proof {
        assert(builder.resources@ =~= history_resources(config));
        assert(bodies@ =~= shading_bodies(config) + when(config.taa, seq![PassBody::TaaResolve]));
    }

    // Everything past shading reads this rather than `hdr_color`.
    let scene_color = match taa {
        Some(taa) => taa.output,
        None => hdr_color,
    };

    // Imported: adaptation is a value that has to outlive the frame.
    let ghost resolved = builder;
    let exposure = builder.import_buffer("exposure");
    proof {
        lemma_resources_grow(resolved.resources@, builder.resources@, builder.passes@);
        assert(builder.resources@ =~= history_resources(config) + seq![buffer("exposure")]);
    }

    let histogram = if config.auto_exposure {
        Some(declare_metering(&mut builder, &mut bodies, config, scene_color, exposure))
    } else {
        None
    };
    proof {
        assert(builder.resources@ =~= metering_resources(config));
        assert(bodies@ =~= metering_bodies(config));
    }

    let bloom = if config.bloom_mips > 0 {
        Some(declare_bloom(&mut builder, &mut bodies, config, scene_color, exposure))
    } else {
        None
    };
    proof {
        assert(builder.resources@ =~= frame_resources(config));
        assert(bodies@ =~= metering_bodies(config) + when(
            config.bloom_mips > 0,
            bloom_bodies(config.bloom_mips as int),
        ));
    }

    declare_present(&mut builder, &mut bodies, config, scene_color, exposure, bloom, swapchain_color);

    let ids = FrameIds {
        object_transforms,
        swapchain_color,
        hdr_color,
        scene_color,
        msaa_hdr,
        msaa_depth,
        exposure,
        histogram,
        bloom,
        prepass,
        ssao,
        taa,
        shadows,
    };
    let ghost declared = builder;
    proof {
        lemma_bloom_len(config.bloom_mips as int, config.bloom_mips as int);
        assert(declares_frame(config, declared));
        assert(declared.wf());
        lemma_every_frame_compiles(config, declared);
    }
    match compile(builder) {
        Ok(graph) => {
            let frame = Frame { graph, ids, bodies };
            assert(exists|b: GraphBuilder, sched: Seq<PassId>|
                declares_frame(config, b) && b.wf() && #[trigger] compiled_from(b, frame.graph, sched)) by {
                let sched = choose|sched: Seq<PassId>| compiled_from(declared, graph, sched);
                assert(compiled_from(declared, frame.graph, sched));
            }
            Ok(frame)
        },
        Err(e) => Err(e),
    }
}

/// What keeping the compiled frame current takes before a frame is drawn.
#[derive(Clone, Copy, PartialEq, Eq, Structural, Debug)]
pub enum GraphStep {
    /// The structure changed: declare and compile the frame again, then
    /// allocate its images.
    Redeclare,
    /// Same structure, but the images no longer match the swapchain's extent.
    Reallocate,
    Keep,
}

/// Only a change of configuration recompiles the graph; a frame of the same
/// structure at a new size only reallocates its images.
pub fn graph_step(current: FrameConfig, wanted: FrameConfig, images_stale: bool) -> (r: GraphStep)
    ensures
        r == if current != wanted {
            GraphStep::Redeclare
        } else if images_stale {
            GraphStep::Reallocate
        } else {
            GraphStep::Keep
        },
{
    if current != wanted {
        GraphStep::Redeclare
    } else if images_stale {
        GraphStep::Reallocate
    } else {
        GraphStep::Keep
    }
}

/// A bloom chain of `mips` levels is `2 * mips - 1` passes: the prefilter,
/// a downsample per further level, and an upsample back up each of them.
pub proof fn lemma_bloom_pass_count(mips: int)
    requires
        mips >= 1,
    ensures
        bloom_bodies(mips).len() == 2 * mips - 1,
{
}

/// Every frame the engine can declare fits the timing pool: its passes, with
/// the reserved whole-frame pair, never outnumber `MAX_PASSES`, so no pass
/// goes untimed for want of a query.
pub proof fn lemma_every_frame_fits_the_query_pool(c: FrameConfig)
    requires
        c.shadow_cascades <= MAX_CASCADES,
        c.bloom_mips <= MAX_BLOOM_MIPS,
    ensures
        frame_bodies(c).len() + 1 <= MAX_PASSES,
{
    if c.bloom_mips > 0 {
        lemma_bloom_pass_count(c.bloom_mips as int);
    }
}

} // verus!
