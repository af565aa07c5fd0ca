//! Why every frame the engine declares compiles.
//!
//! Each pass of a frame has a fixed place in registration order, and every
//! resource a fixed last writer: every read of a resource comes after its
//! last write, so all dependencies point forward and the schedule is
//! registration order. With unique names, sound declarations and the one
//! raw pass last, no rule of the compiler can reject the frame.

use vstd::prelude::*;

use super::bloom::MAX_BLOOM_MIPS;
use super::frame::{
    base_resources, bloom_at, bloom_bodies, bloom_down_name, bloom_resources, bloom_up_name, body_accesses,
    cascade_bodies, declares_body, declares_frame, exposure_at, frame_bodies, frame_resources, has_prepass,
    has_shadows, history_resources, metering_bodies, metering_resources, msaa_at, prepass_at, rid, scene_color_id,
    shading_bodies, shading_resources, ssao_at, taa_at, FrameConfig, PassBody, MAX_CASCADES,
};
use super::graph::access::Access;
use super::graph::builder::{duplicate_pass_at, duplicate_resource_at, GraphBuilder, PassKind};
use super::graph::checks::{compute_attachment_at, conflict_at};
use super::graph::compile::{compile_rejects, declaration_error_at, declarations_ok, names_unique};
use super::graph::error::GraphError;
use super::graph::laws::{forward_only, lemma_valid_graphs_compile, raw_only_last, reads_follow_writes};
use super::graph::schedule::{depends, depends_via, reads, writes};
use super::graph::resource::{ResourceDecl, ResourceId};

verus! {

/// One for a group of passes that is there, zero for one that is not.
pub open spec fn flag(b: bool) -> int {
    if b {
        1
    } else {
        0
    }
}

/// Where the forward pass stands: after the cascades, the prepass and the
/// ambient occlusion passes.
pub open spec fn forward_pos(c: FrameConfig) -> int {
    c.shadow_cascades as int + flag(has_prepass(c)) + 2 * flag(c.ssao)
}

/// Where the bloom chain starts: after temporal resolve and metering.
pub open spec fn bloom_pos(c: FrameConfig) -> int {
    forward_pos(c) + 1 + flag(c.taa) + 2 * flag(c.auto_exposure)
}

/// Where the tonemap pass stands: after the bloom chain's `2 * mips - 1` passes.
pub open spec fn tonemap_pos(c: FrameConfig) -> int {
    bloom_pos(c) + if c.bloom_mips > 0 {
        2 * c.bloom_mips - 1
    } else {
        0
    }
}

/// The place of `body` in the registration order of a frame of
/// configuration `c`.
pub open spec fn body_pos(c: FrameConfig, body: PassBody) -> int {
    let k = c.shadow_cascades as int;
    let m = c.bloom_mips as int;
    match body {
        PassBody::ShadowCascade(i) => i as int,
        PassBody::GeometryPrepass => k,
        PassBody::SsaoResolve => k + flag(has_prepass(c)),
        PassBody::SsaoBlur => k + flag(has_prepass(c)) + 1,
        PassBody::Forward => forward_pos(c),
        PassBody::TaaResolve => forward_pos(c) + 1,
        PassBody::LuminanceHistogram => forward_pos(c) + 1 + flag(c.taa),
        PassBody::LuminanceAverage => forward_pos(c) + 2 + flag(c.taa),
        PassBody::BloomPrefilter => bloom_pos(c),
        PassBody::BloomDownsample(l) => bloom_pos(c) + l,
        PassBody::BloomUpsample(l) => bloom_pos(c) + 2 * m - 2 - l,
        PassBody::Tonemap => tonemap_pos(c),
        PassBody::Overlay => tonemap_pos(c) + 1,
    }
}

/// `body` runs in a frame of configuration `c`.
pub open spec fn in_frame(c: FrameConfig, body: PassBody) -> bool {
    let m = c.bloom_mips as int;
    match body {
        PassBody::ShadowCascade(i) => i < c.shadow_cascades,
        PassBody::GeometryPrepass => has_prepass(c),
        PassBody::SsaoResolve | PassBody::SsaoBlur => c.ssao,
        PassBody::Forward | PassBody::Tonemap => true,
        PassBody::TaaResolve => c.taa,
        PassBody::LuminanceHistogram | PassBody::LuminanceAverage => c.auto_exposure,
        PassBody::BloomPrefilter => m > 0,
        PassBody::BloomDownsample(l) => 1 <= l < m,
        PassBody::BloomUpsample(l) => l + 2 <= m,
        PassBody::Overlay => c.overlay,
    }
}

/// The bodies of `s` run in the frame, each at its place plus `offset`.
pub open spec fn placed(c: FrameConfig, s: Seq<PassBody>, offset: int) -> bool {
    forall|i: int| 0 <= i < s.len() ==> in_frame(c, #[trigger] s[i]) && body_pos(c, s[i]) == i + offset
}

proof fn lemma_shading_placed(c: FrameConfig)
    ensures
        shading_bodies(c).len() == forward_pos(c) + 1,
        placed(c, shading_bodies(c), 0),
{
    let k = c.shadow_cascades as int;
    let cascades = cascade_bodies(c);
    let pre = crate::gfx::frame::when(has_prepass(c), seq![PassBody::GeometryPrepass]);
    let ao = crate::gfx::frame::when(c.ssao, seq![PassBody::SsaoResolve, PassBody::SsaoBlur]);
    assert(shading_bodies(c) == cascades + pre + ao + seq![PassBody::Forward]);
    assert forall|i: int| 0 <= i < shading_bodies(c).len() implies in_frame(c, #[trigger] shading_bodies(c)[i])
        && body_pos(c, shading_bodies(c)[i]) == i by {
        let s = shading_bodies(c);
        if i < k {
            assert(s[i] == cascades[i]);
        } else if i < k + pre.len() {
            assert(s[i] == pre[i - k]);
        } else if i < k + pre.len() + ao.len() {
            assert(s[i] == ao[i - k - pre.len()]);
        } else {
            assert(s[i] == PassBody::Forward);
        }
    }
}

proof fn lemma_metering_placed(c: FrameConfig)
    ensures
        metering_bodies(c).len() == bloom_pos(c),
        placed(c, metering_bodies(c), 0),
{
    lemma_shading_placed(c);
    let sh = shading_bodies(c);
    let taa = crate::gfx::frame::when(c.taa, seq![PassBody::TaaResolve]);
    let lum = crate::gfx::frame::when(c.auto_exposure, seq![PassBody::LuminanceHistogram, PassBody::LuminanceAverage]);
    assert(metering_bodies(c) == sh + taa + lum);
    assert forall|i: int| 0 <= i < metering_bodies(c).len() implies in_frame(c, #[trigger] metering_bodies(c)[i])
        && body_pos(c, metering_bodies(c)[i]) == i by {
        let s = metering_bodies(c);
        if i < sh.len() {
            assert(s[i] == sh[i]);
        } else if i < sh.len() + taa.len() {
            assert(s[i] == taa[i - sh.len()]);
        } else {
            assert(s[i] == lum[i - sh.len() - taa.len()]);
        }
    }
}

proof fn lemma_bloom_placed(c: FrameConfig)
    requires
        c.bloom_mips > 0,
    ensures
        bloom_bodies(c.bloom_mips as int).len() == 2 * c.bloom_mips - 1,
        placed(c, bloom_bodies(c.bloom_mips as int), bloom_pos(c)),
{
    let m = c.bloom_mips as int;
    let downs = Seq::new((m - 1) as nat, |i: int| PassBody::BloomDownsample((i + 1) as u32));
    let ups = Seq::new((m - 1) as nat, |i: int| PassBody::BloomUpsample((m - 2 - i) as u32));
    assert(bloom_bodies(m) == seq![PassBody::BloomPrefilter] + downs + ups);
    assert forall|i: int| 0 <= i < bloom_bodies(m).len() implies in_frame(c, #[trigger] bloom_bodies(m)[i])
        && body_pos(c, bloom_bodies(m)[i]) == i + bloom_pos(c) by {
        let s = bloom_bodies(m);
        if i == 0 {
            assert(s[i] == PassBody::BloomPrefilter);
        } else if i < m {
            assert(s[i] == downs[i - 1]);
            assert(downs[i - 1] == PassBody::BloomDownsample(i as u32));
        } else {
            assert(s[i] == ups[i - m]);
            assert(ups[i - m] == PassBody::BloomUpsample((2 * m - 2 - i) as u32));
        }
    }
}

/// Every pass of a frame runs a body of the frame, at that body's place.
proof fn lemma_frame_placed(c: FrameConfig)
    ensures
        frame_bodies(c).len() == tonemap_pos(c) + 1 + flag(c.overlay),
        placed(c, frame_bodies(c), 0),
{
    lemma_metering_placed(c);
    let me = metering_bodies(c);
    let bl = crate::gfx::frame::when(c.bloom_mips > 0, bloom_bodies(c.bloom_mips as int));
    let ov = crate::gfx::frame::when(c.overlay, seq![PassBody::Overlay]);
    if c.bloom_mips > 0 {
        lemma_bloom_placed(c);
    }
    assert(frame_bodies(c) == me + bl + seq![PassBody::Tonemap] + ov);
    assert forall|i: int| 0 <= i < frame_bodies(c).len() implies in_frame(c, #[trigger] frame_bodies(c)[i])
        && body_pos(c, frame_bodies(c)[i]) == i by {
        let s = frame_bodies(c);
        if i < me.len() {
            assert(s[i] == me[i]);
        } else if i < me.len() + bl.len() {
            assert(s[i] == bl[i - me.len()]);
        } else if i == me.len() + bl.len() {
            assert(s[i] == PassBody::Tonemap);
        } else {
            assert(s[i] == ov[i - me.len() - bl.len() - 1]);
        }
    }
}

/// Two bodies of a frame at the same place are the same body.
proof fn lemma_pos_injective(c: FrameConfig, b1: PassBody, b2: PassBody)
    requires
        in_frame(c, b1),
        in_frame(c, b2),
        body_pos(c, b1) == body_pos(c, b2),
    ensures
        b1 == b2,
{
    match b1 {
        PassBody::ShadowCascade(_) => {},
        PassBody::GeometryPrepass => {},
        PassBody::SsaoResolve => {},
        PassBody::SsaoBlur => {},
        PassBody::Forward => {},
        PassBody::TaaResolve => {},
        PassBody::LuminanceHistogram => {},
        PassBody::LuminanceAverage => {},
        PassBody::BloomPrefilter => {},
        PassBody::BloomDownsample(_) => {},
        PassBody::BloomUpsample(_) => {},
        PassBody::Tonemap => {},
        PassBody::Overlay => {},
    }
}

/// Every body of a frame has its place among the frame's passes.
proof fn lemma_body_at_pos(c: FrameConfig, body: PassBody)
    requires
        in_frame(c, body),
    ensures
        0 <= body_pos(c, body) < frame_bodies(c).len(),
        frame_bodies(c)[body_pos(c, body)] == body,
{
    lemma_frame_placed(c);
    let i = body_pos(c, body);
    assert(0 <= i < frame_bodies(c).len());
    let other = frame_bodies(c)[i];
    assert(in_frame(c, other) && body_pos(c, other) == i);
    lemma_pos_injective(c, body, other);
}

/// The place of the last pass of a frame that writes resource `r`, or -1
/// when none does.
pub open spec fn last_write(c: FrameConfig, r: int) -> int {
    let k = c.shadow_cascades as int;
    let m = c.bloom_mips as int;
    let fwd = forward_pos(c);
    let bl = bloom_at(c);
    if r == 1 {
        tonemap_pos(c) + flag(c.overlay)
    } else if r == 2 && has_shadows(c) {
        k - 1
    } else if prepass_at(c) <= r < prepass_at(c) + 3 && has_prepass(c) {
        k
    } else if r == ssao_at(c) && c.ssao {
        k + flag(has_prepass(c))
    } else if r == ssao_at(c) + 1 && c.ssao {
        k + flag(has_prepass(c)) + 1
    } else if msaa_at(c) <= r < msaa_at(c) + 3 {
        fwd
    } else if r == taa_at(c) + 1 && c.taa {
        fwd + 1
    } else if exposure_at(c) <= r < exposure_at(c) + 2 && c.auto_exposure {
        fwd + 2 + flag(c.taa)
    } else if bl <= r < bl + 2 * m - 1 && (r - bl) % 2 == 0 {
        bloom_pos(c) + (r - bl) / 2
    } else if bl <= r < bl + 2 * m - 1 {
        bloom_pos(c) + 2 * m - 2 - (r - bl - 1) / 2
    } else {
        -1
    }
}

/// Resource `r` of a frame comes from outside it: the transform upload, the
/// swapchain image, TAA's two images or the exposure buffers.
pub open spec fn outside_id(c: FrameConfig, r: int) -> bool {
    ||| r == 0
    ||| r == 1
    ||| c.taa && (r == taa_at(c) || r == taa_at(c) + 1)
    ||| r == exposure_at(c)
    ||| c.auto_exposure && r == exposure_at(c) + 1
}

/// The body that last writes resource `r`, and the access it does it with.
pub open spec fn last_writer(c: FrameConfig, r: int) -> (PassBody, int) {
    let k = c.shadow_cascades as int;
    let bl = bloom_at(c);
    if r == 2 && has_shadows(c) {
        (PassBody::ShadowCascade((k - 1) as u32), 1)
    } else if prepass_at(c) <= r < prepass_at(c) + 3 && has_prepass(c) {
        (PassBody::GeometryPrepass, r - prepass_at(c) + 1)
    } else if r == ssao_at(c) && c.ssao {
        (PassBody::SsaoResolve, 2)
    } else if r == ssao_at(c) + 1 && c.ssao {
        (PassBody::SsaoBlur, 1)
    } else if msaa_at(c) <= r < msaa_at(c) + 3 {
        (PassBody::Forward, 1 + flag(c.ssao) + flag(has_shadows(c)) + r - msaa_at(c))
    } else if r == bl {
        (PassBody::BloomPrefilter, 2)
    } else if (r - bl) % 2 == 0 {
        (PassBody::BloomDownsample(((r - bl) / 2) as u32), 1)
    } else {
        (PassBody::BloomUpsample(((r - bl - 1) / 2) as u32), 2)
    }
}

/// Resource `r` is written, at its last write, by the body `last_writer` names.
pub open spec fn written_last_by(c: FrameConfig, r: int) -> bool {
    let (body, kw) = last_writer(c, r);
    &&& in_frame(c, body)
    &&& body_pos(c, body) == last_write(c, r)
    &&& 0 <= kw < body_accesses(c, body).len()
    &&& body_accesses(c, body)[kw].0.0 == r
    &&& body_accesses(c, body)[kw].1.is_write()
}

/// An access by the pass at place `q` keeps the frame's order: a write
/// comes no later than the resource's last write, and a read after it, of
/// a resource that comes from outside or that its last writer writes.
pub open spec fn access_ordered(c: FrameConfig, q: int, acc: (ResourceId, Access)) -> bool {
    let r = acc.0.0 as int;
    if acc.1.is_write() {
        q <= last_write(c, r)
    } else {
        last_write(c, r) < q && (outside_id(c, r) || written_last_by(c, r))
    }
}

/// What every pass of a frame declares is sound and in order: no resource
/// twice, no attachment in a dispatch, and every access ordered.
pub open spec fn body_sound(c: FrameConfig, body: PassBody) -> bool {
    let accs = body_accesses(c, body);
    &&& forall|j: int, k: int| 0 <= j < k < accs.len() ==> (#[trigger] accs[j]).0 != (#[trigger] accs[k]).0
    &&& body.kind() == PassKind::Compute ==> forall|k: int| 0 <= k < accs.len() ==> !(#[trigger] accs[k]).1.is_attachment()
    &&& forall|k: int| 0 <= k < accs.len() ==> access_ordered(c, body_pos(c, body), #[trigger] accs[k])
}

proof fn lemma_halves(x: int)
    requires
        0 <= x,
    ensures
        (2 * x) % 2 == 0,
        (2 * x) / 2 == x,
        (2 * x + 1) % 2 == 1,
        (2 * x + 1 - 1) / 2 == x,
{
}

/// The accesses of a body in order: each one ordered, none repeating an
/// earlier resource.
proof fn lemma_accesses_sound(c: FrameConfig, body: PassBody)
    requires
        forall|k: int|
            0 <= k < body_accesses(c, body).len() ==> access_ordered(
                c,
                body_pos(c, body),
                #[trigger] body_accesses(c, body)[k],
            ),
        forall|j: int, k: int|
            0 <= j < k < body_accesses(c, body).len() ==> (#[trigger] body_accesses(c, body)[j]).0 != (
            #[trigger] body_accesses(c, body)[k]).0,
        body.kind() == PassKind::Compute ==> forall|k: int|
            0 <= k < body_accesses(c, body).len() ==> !(#[trigger] body_accesses(c, body)[k]).1.is_attachment(),
    ensures
        body_sound(c, body),
{
}

proof fn lemma_cascade_sound(c: FrameConfig, i: u32)
    requires
        in_frame(c, PassBody::ShadowCascade(i)),
        c.shadow_cascades <= MAX_CASCADES,
    ensures
        body_sound(c, PassBody::ShadowCascade(i)),
{
    let body = PassBody::ShadowCascade(i);
    let accs = body_accesses(c, body);
    assert(accs[0] == (rid(0), Access::StorageRead));
    assert(accs[1] == (rid(2), Access::DepthAttachment));
    assert(last_write(c, 0) == -1);
    assert(last_write(c, 2) == c.shadow_cascades - 1);
    assert(access_ordered(c, body_pos(c, body), accs[0]));
    assert(access_ordered(c, body_pos(c, body), accs[1]));
    lemma_accesses_sound(c, body);
}

proof fn lemma_prepass_sound(c: FrameConfig)
    requires
        in_frame(c, PassBody::GeometryPrepass),
        c.shadow_cascades <= MAX_CASCADES,
    ensures
        body_sound(c, PassBody::GeometryPrepass),
{
    let body = PassBody::GeometryPrepass;
    let accs = body_accesses(c, body);
    let p = prepass_at(c);
    let q = body_pos(c, body);
    assert(last_write(c, 0) == -1);
    assert(last_write(c, p) == q);
    assert(last_write(c, p + 1) == q);
    assert(last_write(c, p + 2) == q);
    assert(access_ordered(c, q, accs[0]));
    assert(access_ordered(c, q, accs[1]));
    assert(access_ordered(c, q, accs[2]));
    assert(access_ordered(c, q, accs[3]));
    lemma_accesses_sound(c, body);
}

proof fn lemma_ssao_sound(c: FrameConfig, body: PassBody)
    requires
        in_frame(c, body),
        c.shadow_cascades <= MAX_CASCADES,
        body is SsaoResolve || body is SsaoBlur,
    ensures
        body_sound(c, body),
{
    let accs = body_accesses(c, body);
    let p = prepass_at(c);
    let s = ssao_at(c);
    let q = body_pos(c, body);
    let k = c.shadow_cascades as int;
    assert(last_write(c, p) == k);
    assert(last_write(c, p + 2) == k);
    assert(written_last_by(c, p));
    assert(written_last_by(c, p + 2));
    assert(last_write(c, s) == k + 1);
    assert(last_write(c, s + 1) == k + 2);
    assert(written_last_by(c, s));
    if body is SsaoResolve {
        assert(access_ordered(c, q, accs[0]));
        assert(access_ordered(c, q, accs[1]));
        assert(access_ordered(c, q, accs[2]));
    } else {
        assert(access_ordered(c, q, accs[0]));
        assert(access_ordered(c, q, accs[1]));
    }
    lemma_accesses_sound(c, body);
}

proof fn lemma_forward_sound(c: FrameConfig)
    requires
        c.shadow_cascades <= MAX_CASCADES,
    ensures
        body_sound(c, PassBody::Forward),
{
    let body = PassBody::Forward;
    let accs = body_accesses(c, body);
    let s = ssao_at(c);
    let ms = msaa_at(c);
    let q = body_pos(c, body);
    let k = c.shadow_cascades as int;
    let ao = crate::gfx::frame::when(c.ssao, seq![(rid(s + 1), Access::Sampled)]);
    let sh = crate::gfx::frame::when(has_shadows(c), seq![(rid(2), Access::Sampled)]);
    let tail = seq![
        (rid(ms), Access::ColorAttachment),
        (rid(ms + 1), Access::DepthAttachment),
        (rid(ms + 2), Access::ResolveAttachment),
    ];
    assert(accs == seq![(rid(0), Access::StorageRead)] + ao + sh + tail);
    assert(last_write(c, 0) == -1);
    assert(last_write(c, ms) == q);
    assert(last_write(c, ms + 1) == q);
    assert(last_write(c, ms + 2) == q);
    if c.ssao {
        assert(last_write(c, s + 1) == k + 2);
        assert(written_last_by(c, s + 1));
    }
    if has_shadows(c) {
        assert(last_write(c, 2) == k - 1);
        assert(written_last_by(c, 2));
    }
    assert forall|x: int| 0 <= x < accs.len() implies access_ordered(c, q, #[trigger] accs[x]) by {
        if x == 0 {
        } else if x < 1 + ao.len() {
            assert(accs[x] == ao[x - 1]);
        } else if x < 1 + ao.len() + sh.len() {
            assert(accs[x] == sh[x - 1 - ao.len()]);
        } else {
            assert(accs[x] == tail[x - 1 - ao.len() - sh.len()]);
        }
    }
    assert forall|x: int, y: int| 0 <= x < y < accs.len() implies (#[trigger] accs[x]).0 != (#[trigger] accs[y]).0 by {
        let n = 1 + ao.len() + sh.len();
        assert(x < n ==> accs[x].0.0 < ms);
        assert(y < n ==> accs[y].0.0 < ms);
        if x >= n {
            assert(accs[x] == tail[x - n]);
            assert(accs[y] == tail[y - n]);
        } else if y >= n {
            assert(accs[y] == tail[y - n]);
        } else if x == 0 {
        } else {
            assert(c.ssao && has_shadows(c) && x == 1 && y == 2);
        }
    }
    lemma_accesses_sound(c, body);
}

proof fn lemma_scene_color_written(c: FrameConfig)
    requires
        c.shadow_cascades <= MAX_CASCADES,
    ensures
        last_write(c, scene_color_id(c).0 as int) == forward_pos(c) + flag(c.taa),
        outside_id(c, scene_color_id(c).0 as int) || written_last_by(c, scene_color_id(c).0 as int),
{
    let ms = msaa_at(c);
    if c.taa {
        assert(last_write(c, taa_at(c) + 1) == forward_pos(c) + 1);
    } else {
        assert(last_write(c, ms + 2) == forward_pos(c));
        assert(written_last_by(c, ms + 2));
    }
}

proof fn lemma_taa_sound(c: FrameConfig)
    requires
        in_frame(c, PassBody::TaaResolve),
        c.shadow_cascades <= MAX_CASCADES,
    ensures
        body_sound(c, PassBody::TaaResolve),
{
    let body = PassBody::TaaResolve;
    let accs = body_accesses(c, body);
    let p = prepass_at(c);
    let ms = msaa_at(c);
    let t = taa_at(c);
    let q = body_pos(c, body);
    let k = c.shadow_cascades as int;
    assert(last_write(c, ms + 2) == forward_pos(c));
    assert(written_last_by(c, ms + 2));
    assert(last_write(c, p + 1) == k);
    assert(last_write(c, p + 2) == k);
    assert(written_last_by(c, p + 1));
    assert(written_last_by(c, p + 2));
    assert(last_write(c, t) == -1);
    assert(last_write(c, t + 1) == q);
    assert(access_ordered(c, q, accs[0]));
    assert(access_ordered(c, q, accs[1]));
    assert(access_ordered(c, q, accs[2]));
    assert(access_ordered(c, q, accs[3]));
    assert(access_ordered(c, q, accs[4]));
    lemma_accesses_sound(c, body);
}

proof fn lemma_metering_sound(c: FrameConfig, body: PassBody)
    requires
        in_frame(c, body),
        c.shadow_cascades <= MAX_CASCADES,
        body is LuminanceHistogram || body is LuminanceAverage,
    ensures
        body_sound(c, body),
{
    let accs = body_accesses(c, body);
    let e = exposure_at(c);
    let q = body_pos(c, body);
    lemma_scene_color_written(c);
    assert(last_write(c, e) == forward_pos(c) + 2 + flag(c.taa));
    assert(last_write(c, e + 1) == forward_pos(c) + 2 + flag(c.taa));
    assert(access_ordered(c, q, accs[0]));
    assert(access_ordered(c, q, accs[1]));
    lemma_accesses_sound(c, body);
}

proof fn lemma_prefilter_sound(c: FrameConfig)
    requires
        in_frame(c, PassBody::BloomPrefilter),
        c.shadow_cascades <= MAX_CASCADES,
    ensures
        body_sound(c, PassBody::BloomPrefilter),
{
    let body = PassBody::BloomPrefilter;
    let accs = body_accesses(c, body);
    let e = exposure_at(c);
    let bl = bloom_at(c);
    let q = body_pos(c, body);
    lemma_scene_color_written(c);
    lemma_halves(0);
    assert(last_write(c, e) < q);
    assert(last_write(c, bl) == q);
    assert(access_ordered(c, q, accs[0]));
    assert(access_ordered(c, q, accs[1]));
    assert(access_ordered(c, q, accs[2]));
    lemma_accesses_sound(c, body);
}

/// Bloom's down level `l` is last written at the `l`-th pass of the chain,
/// and its up level `l` by the upsample of that level.
proof fn lemma_bloom_writes(c: FrameConfig, l: int)
    requires
        0 <= l < c.bloom_mips,
    ensures
        last_write(c, bloom_at(c) + 2 * l) == bloom_pos(c) + l,
        written_last_by(c, bloom_at(c) + 2 * l),
        l + 1 < c.bloom_mips ==> last_write(c, bloom_at(c) + 2 * l + 1) == bloom_pos(c) + 2 * c.bloom_mips - 2 - l,
        l + 1 < c.bloom_mips ==> written_last_by(c, bloom_at(c) + 2 * l + 1),
{
    lemma_halves(l);
    let bl = bloom_at(c);
    if l > 0 {
        assert(last_writer(c, bl + 2 * l) == (PassBody::BloomDownsample(l as u32), 1int));
    }
    if l + 1 < c.bloom_mips {
        assert(last_writer(c, bl + 2 * l + 1) == (PassBody::BloomUpsample(l as u32), 2int));
    }
}

proof fn lemma_downsample_sound(c: FrameConfig, l: u32)
    requires
        in_frame(c, PassBody::BloomDownsample(l)),
        c.shadow_cascades <= MAX_CASCADES,
    ensures
        body_sound(c, PassBody::BloomDownsample(l)),
{
    let body = PassBody::BloomDownsample(l);
    let accs = body_accesses(c, body);
    let q = body_pos(c, body);
    lemma_bloom_writes(c, l - 1);
    lemma_bloom_writes(c, l as int);
    assert(accs[0].0.0 == bloom_at(c) + 2 * (l - 1));
    assert(access_ordered(c, q, accs[0]));
    assert(access_ordered(c, q, accs[1]));
    lemma_accesses_sound(c, body);
}

proof fn lemma_upsample_sound(c: FrameConfig, l: u32)
    requires
        in_frame(c, PassBody::BloomUpsample(l)),
        c.shadow_cascades <= MAX_CASCADES,
    ensures
        body_sound(c, PassBody::BloomUpsample(l)),
{
    let body = PassBody::BloomUpsample(l);
    let accs = body_accesses(c, body);
    let q = body_pos(c, body);
    lemma_bloom_writes(c, l as int);
    lemma_bloom_writes(c, l + 1);
    assert(access_ordered(c, q, accs[0]));
    assert(access_ordered(c, q, accs[1]));
    assert(access_ordered(c, q, accs[2]));
    lemma_accesses_sound(c, body);
}

proof fn lemma_tonemap_sound(c: FrameConfig)
    requires
        c.shadow_cascades <= MAX_CASCADES,
    ensures
        body_sound(c, PassBody::Tonemap),
{
    let body = PassBody::Tonemap;
    let accs = body_accesses(c, body);
    let e = exposure_at(c);
    let bl = bloom_at(c);
    let m = c.bloom_mips as int;
    let q = body_pos(c, body);
    lemma_scene_color_written(c);
    assert(last_write(c, e) < q);
    assert(last_write(c, 1) >= q);
    let head = seq![(scene_color_id(c), Access::Sampled), (rid(e), Access::StorageRead)];
    let bloom = crate::gfx::frame::when(
        m > 0,
        seq![(if m >= 2 {
            rid(bl + 1)
        } else {
            rid(bl)
        }, Access::Sampled)],
    );
    let tail = seq![(rid(1), Access::ColorAttachment)];
    assert(accs == head + bloom + tail);
    if m > 0 {
        lemma_bloom_writes(c, 0);
        assert(access_ordered(c, q, bloom[0]));
    }
    assert forall|x: int| 0 <= x < accs.len() implies access_ordered(c, q, #[trigger] accs[x]) by {
        if x < 2 {
            assert(accs[x] == head[x]);
        } else if x < 2 + bloom.len() {
            assert(accs[x] == bloom[x - 2]);
        } else {
            assert(accs[x] == tail[x - 2 - bloom.len()]);
        }
    }
    assert forall|x: int, y: int| 0 <= x < y < accs.len() implies (#[trigger] accs[x]).0 != (#[trigger] accs[y]).0 by {
        if y == accs.len() - 1 {
            assert(accs[y] == tail[0]);
            if x >= 2 {
                assert(accs[x] == bloom[x - 2]);
            }
        } else if y >= 2 {
            assert(accs[y] == bloom[y - 2]);
        }
    }
    lemma_accesses_sound(c, body);
}

proof fn lemma_overlay_sound(c: FrameConfig)
    requires
        in_frame(c, PassBody::Overlay),
    ensures
        body_sound(c, PassBody::Overlay),
{
    let body = PassBody::Overlay;
    let accs = body_accesses(c, body);
    assert(last_write(c, 1) == body_pos(c, body));
    assert(access_ordered(c, body_pos(c, body), accs[0]));
    lemma_accesses_sound(c, body);
}

/// Every body of a frame declares soundly and in order.
/// Every body of a frame declares soundly and in order.
proof fn lemma_body_sound(c: FrameConfig, body: PassBody)
    requires
        in_frame(c, body),
        c.shadow_cascades <= MAX_CASCADES,
        c.bloom_mips <= MAX_BLOOM_MIPS,
    ensures
        body_sound(c, body),
{
    match body {
        PassBody::ShadowCascade(i) => lemma_cascade_sound(c, i),
        PassBody::GeometryPrepass => lemma_prepass_sound(c),
        PassBody::SsaoResolve | PassBody::SsaoBlur => lemma_ssao_sound(c, body),
        PassBody::Forward => lemma_forward_sound(c),
        PassBody::TaaResolve => lemma_taa_sound(c),
        PassBody::LuminanceHistogram | PassBody::LuminanceAverage => lemma_metering_sound(c, body),
        PassBody::BloomPrefilter => lemma_prefilter_sound(c),
        PassBody::BloomDownsample(l) => lemma_downsample_sound(c, l),
        PassBody::BloomUpsample(l) => lemma_upsample_sound(c, l),
        PassBody::Tonemap => lemma_tonemap_sound(c),
        PassBody::Overlay => lemma_overlay_sound(c),
    }
}

/// A name's length with its first and last characters: enough to tell
/// apart every name a frame declares.
pub open spec fn name_key(s: Seq<char>) -> (int, int, int) {
    (s.len() as int, s[0] as int, s[s.len() - 1] as int)
}

/// The key of the name of the pass running `body`.
pub open spec fn pass_key(body: PassBody) -> (int, int, int) {
    match body {
        PassBody::ShadowCascade(i) => (16, 's' as int, '0' as int + i),
        PassBody::GeometryPrepass => (16, 'g' as int, 's' as int),
        PassBody::SsaoResolve => (12, 's' as int, 'e' as int),
        PassBody::SsaoBlur => (9, 's' as int, 'r' as int),
        PassBody::Forward => (7, 'f' as int, 'd' as int),
        PassBody::TaaResolve => (11, 't' as int, 'e' as int),
        PassBody::LuminanceHistogram => (19, 'l' as int, 'm' as int),
        PassBody::LuminanceAverage => (17, 'l' as int, 'e' as int),
        PassBody::BloomPrefilter => (15, 'b' as int, 'r' as int),
        PassBody::BloomDownsample(l) => (12, 'b' as int, '0' as int + l),
        PassBody::BloomUpsample(l) => (10, 'b' as int, '0' as int + l),
        PassBody::Tonemap => (7, 't' as int, 'p' as int),
        PassBody::Overlay => (7, 'o' as int, 'y' as int),
    }
}

proof fn lemma_pass_key(c: FrameConfig, body: PassBody)
    requires
        in_frame(c, body),
        c.shadow_cascades <= MAX_CASCADES,
        c.bloom_mips <= MAX_BLOOM_MIPS,
    ensures
        name_key(body.name()@) == pass_key(body),
{
    match body {
        PassBody::ShadowCascade(i) => {
            reveal_strlit("shadow_cascade_0");
            reveal_strlit("shadow_cascade_1");
            reveal_strlit("shadow_cascade_2");
            reveal_strlit("shadow_cascade_3");
        },
        PassBody::GeometryPrepass => {
            reveal_strlit("geometry_prepass");
        },
        PassBody::SsaoResolve => {
            reveal_strlit("ssao_resolve");
        },
        PassBody::SsaoBlur => {
            reveal_strlit("ssao_blur");
        },
        PassBody::Forward => {
            reveal_strlit("forward");
        },
        PassBody::TaaResolve => {
            reveal_strlit("taa_resolve");
        },
        PassBody::LuminanceHistogram => {
            reveal_strlit("luminance_histogram");
        },
        PassBody::LuminanceAverage => {
            reveal_strlit("luminance_average");
        },
        PassBody::BloomPrefilter => {
            reveal_strlit("bloom_prefilter");
        },
        PassBody::BloomDownsample(l) => {
            reveal_strlit("bloom_down_1");
            reveal_strlit("bloom_down_2");
            reveal_strlit("bloom_down_3");
            reveal_strlit("bloom_down_4");
            reveal_strlit("bloom_down_5");
        },
        PassBody::BloomUpsample(l) => {
            reveal_strlit("bloom_up_0");
            reveal_strlit("bloom_up_1");
            reveal_strlit("bloom_up_2");
            reveal_strlit("bloom_up_3");
            reveal_strlit("bloom_up_4");
        },
        PassBody::Tonemap => {
            reveal_strlit("tonemap");
        },
        PassBody::Overlay => {
            reveal_strlit("overlay");
        },
    }
}

/// Distinct bodies of a frame run under distinct names.
proof fn lemma_pass_names_differ(c: FrameConfig, b1: PassBody, b2: PassBody)
    requires
        in_frame(c, b1),
        in_frame(c, b2),
        b1 != b2,
        c.shadow_cascades <= MAX_CASCADES,
        c.bloom_mips <= MAX_BLOOM_MIPS,
    ensures
        b1.name()@ != b2.name()@,
{
    lemma_pass_key(c, b1);
    lemma_pass_key(c, b2);
    assert(pass_key(b1) != pass_key(b2));
}

/// The key of the name of resource `r` of a frame of configuration `c`.
pub open spec fn resource_key(c: FrameConfig, r: int) -> (int, int, int) {
    let p = prepass_at(c);
    let s = ssao_at(c);
    let ms = msaa_at(c);
    let t = taa_at(c);
    let e = exposure_at(c);
    let bl = bloom_at(c);
    if r == 0 {
        (17, 'o' as int, 's' as int)
    } else if r == 1 {
        (15, 's' as int, 'r' as int)
    } else if r == 2 && has_shadows(c) {
        (15, 's' as int, 's' as int)
    } else if r == p && has_prepass(c) {
        (14, 'p' as int, 'l' as int)
    } else if r == p + 1 && has_prepass(c) {
        (16, 'p' as int, 'y' as int)
    } else if r == p + 2 && has_prepass(c) {
        (13, 'p' as int, 'h' as int)
    } else if r == s && c.ssao {
        (11, 's' as int, 'o' as int)
    } else if r == s + 1 && c.ssao {
        (7, 's' as int, 'o' as int)
    } else if r == ms {
        (8, 'm' as int, 'r' as int)
    } else if r == ms + 1 {
        (10, 'm' as int, 'h' as int)
    } else if r == ms + 2 {
        (9, 'h' as int, 'r' as int)
    } else if r == t && c.taa {
        (11, 't' as int, 'y' as int)
    } else if r == t + 1 && c.taa {
        (9, 't' as int, 'r' as int)
    } else if r == e {
        (8, 'e' as int, 'e' as int)
    } else if r == e + 1 && c.auto_exposure {
        (19, 'l' as int, 'm' as int)
    } else if (r - bl) % 2 == 0 {
        (12, 'b' as int, '0' as int + (r - bl) / 2)
    } else {
        (10, 'b' as int, '0' as int + (r - bl - 1) / 2)
    }
}

/// The resources of `s` sit at their places plus `offset`: each name has
/// its key, and each resource from outside is imported.
pub open spec fn keyed(c: FrameConfig, s: Seq<ResourceDecl>, offset: int) -> bool {
    forall|i: int|
        0 <= i < s.len() ==> name_key((#[trigger] s[i]).name@) == resource_key(c, i + offset) && (outside_id(
            c,
            i + offset,
        ) ==> s[i].is_imported())
}

proof fn lemma_bloom_name_keys(l: u32)
    requires
        l < MAX_BLOOM_MIPS,
    ensures
        name_key(bloom_down_name(l)@) == (12int, 'b' as int, '0' as int + l),
        l + 1 < MAX_BLOOM_MIPS ==> name_key(bloom_up_name(l)@) == (10int, 'b' as int, '0' as int + l),
{
    reveal_strlit("bloom_down_0");
    reveal_strlit("bloom_down_1");
    reveal_strlit("bloom_down_2");
    reveal_strlit("bloom_down_3");
    reveal_strlit("bloom_down_4");
    reveal_strlit("bloom_down_5");
    reveal_strlit("bloom_up_0");
    reveal_strlit("bloom_up_1");
    reveal_strlit("bloom_up_2");
    reveal_strlit("bloom_up_3");
    reveal_strlit("bloom_up_4");
}

/// The bloom chain's images alternate down and up levels, finest first.
proof fn lemma_bloom_keyed(c: FrameConfig, upto: int)
    requires
        0 <= upto <= c.bloom_mips,
        c.bloom_mips <= MAX_BLOOM_MIPS,
    ensures
        keyed(c, bloom_resources(c.bloom_mips as int, upto), bloom_at(c)),
    decreases upto,
{
    let m = c.bloom_mips as int;
    let bl = bloom_at(c);
    if upto > 0 {
        let l = upto - 1;
        lemma_bloom_keyed(c, l);
        crate::gfx::frame::lemma_bloom_len(m, l);
        let prev = bloom_resources(m, l);
        let cur = bloom_resources(m, upto);
        lemma_bloom_name_keys(l as u32);
        lemma_halves(l);
        assert forall|i: int| 0 <= i < cur.len() implies name_key((#[trigger] cur[i]).name@) == resource_key(
            c,
            i + bl,
        ) && (outside_id(c, i + bl) ==> cur[i].is_imported()) by {
            if i < prev.len() {
                assert(cur[i] == prev[i]);
            } else if i == prev.len() {
                assert(i + bl - bl == 2 * l);
            } else {
                assert(i + bl - bl == 2 * l + 1);
            }
        }
    }
}

proof fn lemma_metering_keyed(c: FrameConfig)
    requires
        c.shadow_cascades <= MAX_CASCADES,
    ensures
        metering_resources(c).len() == bloom_at(c),
        keyed(c, metering_resources(c), 0),
{
    reveal_strlit("object_transforms");
    reveal_strlit("swapchain_color");
    reveal_strlit("shadow_cascades");
    reveal_strlit("prepass_normal");
    reveal_strlit("prepass_velocity");
    reveal_strlit("prepass_depth");
    reveal_strlit("ssao_raw_ao");
    reveal_strlit("ssao_ao");
    reveal_strlit("msaa_hdr");
    reveal_strlit("msaa_depth");
    reveal_strlit("hdr_color");
    reveal_strlit("taa_history");
    reveal_strlit("taa_color");
    reveal_strlit("exposure");
    reveal_strlit("luminance_histogram");
    let base = base_resources(c);
    let sh = shading_resources(c);
    let hi = history_resources(c);
    let me = metering_resources(c);
    assert(base.len() == prepass_at(c));
    assert(sh.len() == taa_at(c));
    assert(hi.len() == exposure_at(c));
    assert(me.len() == bloom_at(c));
    assert forall|i: int| 0 <= i < base.len() implies name_key((#[trigger] base[i]).name@) == resource_key(c, i)
        && (outside_id(c, i) ==> base[i].is_imported()) by {
        if i == 2 {
            assert(base[i] == base.last());
        }
    }
    assert forall|i: int| 0 <= i < sh.len() implies name_key((#[trigger] sh[i]).name@) == resource_key(c, i)
        && (outside_id(c, i) ==> sh[i].is_imported()) by {
        if i < base.len() {
            assert(sh[i] == base[i]);
        }
    }
    assert forall|i: int| 0 <= i < hi.len() implies name_key((#[trigger] hi[i]).name@) == resource_key(c, i)
        && (outside_id(c, i) ==> hi[i].is_imported()) by {
        if i < sh.len() {
            assert(hi[i] == sh[i]);
        }
    }
    assert forall|i: int| 0 <= i < me.len() implies name_key((#[trigger] me[i]).name@) == resource_key(c, i)
        && (outside_id(c, i) ==> me[i].is_imported()) by {
        if i < hi.len() {
            assert(me[i] == hi[i]);
        }
    }
}

/// Distinct resources of a frame have distinct name keys.
proof fn lemma_resource_keys_differ(c: FrameConfig, i: int, j: int)
    requires
        0 <= i < j < bloom_at(c) + 2 * c.bloom_mips,
        c.shadow_cascades <= MAX_CASCADES,
        c.bloom_mips <= MAX_BLOOM_MIPS,
    ensures
        resource_key(c, i) != resource_key(c, j),
{
    let bl = bloom_at(c);
    if i >= bl {
        let qi = (i - bl) / 2;
        let qj = (j - bl) / 2;
        assert(i - bl == 2 * qi + (i - bl) % 2);
        assert(j - bl == 2 * qj + (j - bl) % 2);
    }
}

/// Every frame's resources have its keys, and no two the same key.
proof fn lemma_frame_keyed(c: FrameConfig)
    requires
        c.shadow_cascades <= MAX_CASCADES,
        c.bloom_mips <= MAX_BLOOM_MIPS,
    ensures
        frame_resources(c).len() <= bloom_at(c) + 2 * c.bloom_mips,
        keyed(c, frame_resources(c), 0),
{
    let m = c.bloom_mips as int;
    lemma_metering_keyed(c);
    lemma_bloom_keyed(c, m);
    crate::gfx::frame::lemma_bloom_len(m, m);
    let me = metering_resources(c);
    let bl = bloom_resources(m, m);
    let all = frame_resources(c);
    assert forall|i: int| 0 <= i < all.len() implies name_key((#[trigger] all[i]).name@) == resource_key(c, i)
        && (outside_id(c, i) ==> all[i].is_imported()) by {
        if i < me.len() {
            assert(all[i] == me[i]);
        } else {
            assert(all[i] == bl[i - me.len()]);
            assert(i - me.len() + bloom_at(c) == i);
        }
    }
}

/// A frame's resources and passes all have distinct names.
proof fn lemma_frame_names_unique(c: FrameConfig, b: GraphBuilder)
    requires
        c.shadow_cascades <= MAX_CASCADES,
        c.bloom_mips <= MAX_BLOOM_MIPS,
        declares_frame(c, b),
    ensures
        names_unique(b),
{
    let resources = b.resources@;
    let passes = b.passes@;
    let bodies = frame_bodies(c);
    lemma_frame_keyed(c);
    lemma_frame_placed(c);
    assert forall|i: int| !duplicate_resource_at(resources, i) by {
        if duplicate_resource_at(resources, i) {
            let j = choose|j: int| 0 <= j < i && resources[j].name@ == resources[i].name@;
            assert(name_key(resources[j].name@) == resource_key(c, j));
            assert(name_key(resources[i].name@) == resource_key(c, i));
            lemma_resource_keys_differ(c, j, i);
        }
    }
    assert forall|i: int| !duplicate_pass_at(passes, i) by {
        if duplicate_pass_at(passes, i) {
            let j = choose|j: int| 0 <= j < i && passes[j].name@ == passes[i].name@;
            assert(declares_body(c, passes[i], bodies[i]));
            assert(declares_body(c, passes[j], bodies[j]));
            assert(in_frame(c, bodies[i]) && body_pos(c, bodies[i]) == i);
            assert(in_frame(c, bodies[j]) && body_pos(c, bodies[j]) == j);
            lemma_pass_names_differ(c, bodies[j], bodies[i]);
        }
    }
}

/// Pass `p` of a frame is the registration of a body of the frame, at its
/// place, and that body declares soundly.
proof fn lemma_pass_sound(c: FrameConfig, b: GraphBuilder, p: int)
    requires
        c.shadow_cascades <= MAX_CASCADES,
        c.bloom_mips <= MAX_BLOOM_MIPS,
        declares_frame(c, b),
        0 <= p < b.passes@.len(),
    ensures
        in_frame(c, frame_bodies(c)[p]),
        body_pos(c, frame_bodies(c)[p]) == p,
        declares_body(c, b.passes@[p], frame_bodies(c)[p]),
        body_sound(c, frame_bodies(c)[p]),
{
    lemma_frame_placed(c);
    assert(declares_body(c, b.passes@[p], frame_bodies(c)[p]));
    lemma_body_sound(c, frame_bodies(c)[p]);
}

/// No pass of a frame repeats a resource or declares an attachment in a dispatch.
proof fn lemma_frame_declarations_ok(c: FrameConfig, b: GraphBuilder)
    requires
        c.shadow_cascades <= MAX_CASCADES,
        c.bloom_mips <= MAX_BLOOM_MIPS,
        declares_frame(c, b),
    ensures
        declarations_ok(b.passes@),
{
    let passes = b.passes@;
    assert forall|p: int| !declaration_error_at(passes, p) by {
        if 0 <= p < passes.len() {
            lemma_pass_sound(c, b, p);
            let accs = passes[p].accesses@;
            assert forall|k: int| !conflict_at(passes[p], k) && !compute_attachment_at(passes[p], k) by {
                if conflict_at(passes[p], k) {
                    let j = choose|j: int| 0 <= j < k && (#[trigger] accs[j]).0 == accs[k].0;
                    assert(accs[j].0 != accs[k].0);
                }
                if compute_attachment_at(passes[p], k) {
                    assert(!accs[k].1.is_attachment());
                }
            }
        }
    }
}

/// Every dependency of a frame points forward: a resource's writers all
/// come no later than its last write, and its readers all after it.
proof fn lemma_frame_forward_only(c: FrameConfig, b: GraphBuilder)
    requires
        c.shadow_cascades <= MAX_CASCADES,
        c.bloom_mips <= MAX_BLOOM_MIPS,
        declares_frame(c, b),
    ensures
        forward_only(b.passes@),
{
    let passes = b.passes@;
    assert forall|x: int, y: int| #[trigger] depends(passes, x, y) implies x < y by {
        let r = choose|r: int| 0 <= r && #[trigger] depends_via(passes, r, x, y);
        if writes(passes, x, r) && reads(passes, y, r) {
            lemma_pass_sound(c, b, x);
            lemma_pass_sound(c, b, y);
            let kx = choose|k: int|
                0 <= k < passes[x].accesses@.len() && (#[trigger] passes[x].accesses@[k]).0.0 == r
                    && passes[x].accesses@[k].1.is_write() == true;
            let ky = choose|k: int|
                0 <= k < passes[y].accesses@.len() && (#[trigger] passes[y].accesses@[k]).0.0 == r
                    && passes[y].accesses@[k].1.is_write() == false;
            assert(access_ordered(c, x, passes[x].accesses@[kx]));
            assert(access_ordered(c, y, passes[y].accesses@[ky]));
        }
    }
}

/// Only a frame's last pass, the overlay, records raw.
proof fn lemma_frame_raw_last(c: FrameConfig, b: GraphBuilder)
    requires
        c.shadow_cascades <= MAX_CASCADES,
        c.bloom_mips <= MAX_BLOOM_MIPS,
        declares_frame(c, b),
    ensures
        raw_only_last(b.passes@),
{
    let passes = b.passes@;
    lemma_frame_placed(c);
    assert forall|p: int| 0 <= p < passes.len() - 1 implies (#[trigger] passes[p]).kind != PassKind::Raw by {
        lemma_pass_sound(c, b, p);
    }
}

/// Every read of a resource of the frame's own comes after a write of it.
proof fn lemma_frame_reads_follow_writes(c: FrameConfig, b: GraphBuilder)
    requires
        c.shadow_cascades <= MAX_CASCADES,
        c.bloom_mips <= MAX_BLOOM_MIPS,
        declares_frame(c, b),
        b.wf(),
    ensures
        reads_follow_writes(b.passes@, b.resources@),
{
    let passes = b.passes@;
    let resources = b.resources@;
    lemma_frame_keyed(c);
    assert forall|p: int, k: int|
        0 <= p < passes.len() && 0 <= k < passes[p].accesses@.len() && !passes[p].accesses@[k].1.is_write()
            && !resources[passes[p].accesses@[k].0.0 as int].is_imported() implies exists|w: int, kw: int|
        0 <= w < p && 0 <= kw < passes[w].accesses@.len() && (#[trigger] passes[w].accesses@[kw]).0
            == passes[p].accesses@[k].0 && passes[w].accesses@[kw].1.is_write() by {
        lemma_pass_sound(c, b, p);
        let acc = passes[p].accesses@[k];
        let r = acc.0.0 as int;
        assert(access_ordered(c, p, acc));
        assert(r < resources.len());
        if outside_id(c, r) {
            assert(resources[r].is_imported());
        }
        assert(written_last_by(c, r));
        let (body, kw) = last_writer(c, r);
        let w = last_write(c, r);
        lemma_body_at_pos(c, body);
        lemma_pass_sound(c, b, w);
        assert(passes[w].accesses@[kw].0 == acc.0);
    }
}

/// Every frame the engine can declare compiles: its names are unique, its
/// passes declare soundly, each resource is read only after its last write,
/// and the one raw pass, the overlay, comes last, so no rule of the
/// compiler rejects it.
pub proof fn lemma_every_frame_compiles(c: FrameConfig, b: GraphBuilder)
    requires
        c.shadow_cascades <= MAX_CASCADES,
        c.bloom_mips <= MAX_BLOOM_MIPS,
        declares_frame(c, b),
        b.wf(),
    ensures
        forall|e: GraphError| !compile_rejects(b, e),
{
    lemma_frame_names_unique(c, b);
    lemma_frame_declarations_ok(c, b);
    lemma_frame_forward_only(c, b);
    lemma_frame_raw_last(c, b);
    lemma_frame_reads_follow_writes(c, b);
    lemma_valid_graphs_compile(b);
}

} // verus!
