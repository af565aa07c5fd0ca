//! Sizing and flagging the images the graph owns.

use vstd::prelude::*;

use super::access::Access;
use super::builder::{PassDecl, PassId};
use super::flags::ImageUsage;
use super::plan::scheduled_accesses;
use super::resource::{ImageDesc, ResourceDecl, ResourceId, ResourceKind};

verus! {

/// A graph-owned image, sized and flagged by the compiler.
#[derive(Clone, Copy, Debug)]
pub struct TransientImage {
    pub desc: ImageDesc,
    /// The union of what the passes declared: never a capability nothing
    /// asked for, never missing one something did.
    pub usage: u32,
    /// Every access is an attachment, so the image never leaves the render
    /// pass that wrote it and can live in tile memory.
    pub memoryless: bool,
}

/// The union of the image usage of the accesses to `r` in `hist`.
pub open spec fn usage_of(hist: Seq<(ResourceId, Access)>, r: int) -> u32
    decreases hist.len(),
{
    if hist.len() == 0 {
        0
    } else {
        let prior = usage_of(hist.drop_last(), r);
        if hist.last().0.0 == r {
            prior | hist.last().1.image_usage()
        } else {
            prior
        }
    }
}

/// Some access in `hist` names `r`.
pub open spec fn accessed(hist: Seq<(ResourceId, Access)>, r: int) -> bool {
    exists|t: int| 0 <= t < hist.len() && (#[trigger] hist[t]).0.0 == r
}

/// Every access in `hist` that names `r` is an attachment.
pub open spec fn only_attachments(hist: Seq<(ResourceId, Access)>, r: int) -> bool {
    forall|t: int| 0 <= t < hist.len() && (#[trigger] hist[t]).0.0 == r ==> hist[t].1.is_attachment()
}

/// The image the graph allocates for resource `r` given every scheduled
/// access: only transients, and only those something touches.
pub open spec fn image_for(decl: ResourceDecl, r: int, hist: Seq<(ResourceId, Access)>) -> Option<
    TransientImage,
> {
    match decl.kind {
        ResourceKind::Transient(desc) => if accessed(hist, r) {
            let memoryless = only_attachments(hist, r);
            Some(
                TransientImage {
                    desc,
                    usage: if memoryless {
                        usage_of(hist, r) | ImageUsage::TRANSIENT_ATTACHMENT
                    } else {
                        usage_of(hist, r)
                    },
                    memoryless,
                },
            )
        } else {
            None
        },
        _ => None,
    }
}

/// One entry per resource: the transient image to allocate, if any.
pub fn derive_images(order: &[PassId], passes: &[PassDecl], resources: &[ResourceDecl]) -> (r: Vec<
    Option<TransientImage>,
>)
    requires
        forall|i: int| 0 <= i < order@.len() ==> (#[trigger] order@[i]).0 < passes@.len(),
    ensures
        r@.len() == resources@.len(),
        forall|q: int|
            0 <= q < resources@.len() ==> #[trigger] r@[q] == image_for(
                resources@[q],
                q,
                scheduled_accesses(order@, passes@, order@.len() as int),
            ),
{
    let ghost hist = scheduled_accesses(order@, passes@, order@.len() as int);
    let mut images: Vec<Option<TransientImage>> = Vec::new();
    let mut q: usize = 0;
    while q < resources.len()
        invariant
            q <= resources@.len(),
            forall|i: int| 0 <= i < order@.len() ==> (#[trigger] order@[i]).0 < passes@.len(),
            hist == scheduled_accesses(order@, passes@, order@.len() as int),
            images@.len() == q,
            forall|q2: int| 0 <= q2 < q ==> #[trigger] images@[q2] == image_for(resources@[q2], q2, hist),
        decreases resources@.len() - q,
    {
        let decl = &resources[q];
        match decl.kind {
            ResourceKind::Transient(desc) => {
                let mut usage: u32 = 0;
                let mut any = false;
                let mut memoryless = true;
                let mut slot: usize = 0;
                while slot < order.len()
                    invariant
                        slot <= order@.len(),
                        forall|i: int| 0 <= i < order@.len() ==> (#[trigger] order@[i]).0 < passes@.len(),
                        usage == usage_of(scheduled_accesses(order@, passes@, slot as int), q as int),
                        any == accessed(scheduled_accesses(order@, passes@, slot as int), q as int),
                        memoryless == only_attachments(scheduled_accesses(order@, passes@, slot as int), q as int),
                    decreases order@.len() - slot,
                {
                    let pass = &passes[order[slot].index()];
                    let ghost base = scheduled_accesses(order@, passes@, slot as int);
                    let ghost accs = pass.accesses@;
                    let mut k: usize = 0;
                    while k < pass.accesses.len()
                        invariant
                            accs == pass.accesses@,
                            k <= accs.len(),
                            usage == usage_of(base + accs.take(k as int), q as int),
                            any == accessed(base + accs.take(k as int), q as int),
                            memoryless == only_attachments(base + accs.take(k as int), q as int),
                        decreases accs.len() - k,
                    {
                        let (id, access) = pass.accesses[k];
                        let ghost prev = base + accs.take(k as int);
                        let ghost next = base + accs.take(k as int + 1);
                        proof {
                            assert(next =~= prev.push(accs[k as int]));
                            assert(next.drop_last() =~= prev);
                        }
                        if id.0 as usize == q {
                            usage = usage | access.image_usage();
                            any = true;
                            memoryless = memoryless && access.is_attachment();
                        }
                        proof {
                            assert(accessed(next, q as int) <==> (accessed(prev, q as int) || accs[k as int].0.0 == q)) by {
                                if accessed(next, q as int) {
                                    let t = choose|t: int| 0 <= t < next.len() && (#[trigger] next[t]).0.0 == q;
                                    if t < prev.len() {
                                        assert(prev[t] == next[t]);
                                    }
                                }
                                if accessed(prev, q as int) {
                                    let t = choose|t: int| 0 <= t < prev.len() && (#[trigger] prev[t]).0.0 == q;
                                    assert(next[t] == prev[t]);
                                }
                                if accs[k as int].0.0 == q {
                                    assert(next[prev.len() as int] == accs[k as int]);
                                }
                            }
                            assert(only_attachments(next, q as int) <==> (only_attachments(prev, q as int) && (
                            accs[k as int].0.0 == q ==> accs[k as int].1.is_attachment()))) by {
                                if only_attachments(next, q as int) {
                                    assert forall|t: int| 0 <= t < prev.len() && (#[trigger] prev[t]).0.0 == q implies prev[t].1.is_attachment() by {
                                        assert(next[t] == prev[t]);
                                    }
                                    assert(next[prev.len() as int] == accs[k as int]);
                                }
                                if only_attachments(prev, q as int) && (accs[k as int].0.0 == q ==> accs[k as int].1.is_attachment()) {
                                    assert forall|t: int| 0 <= t < next.len() && (#[trigger] next[t]).0.0 == q implies next[t].1.is_attachment() by {
                                        if t < prev.len() {
                                            assert(next[t] == prev[t]);
                                        }
                                    }
                                }
                            }
                        }
                        k += 1;
                    }
                    proof {
                        assert(accs.take(accs.len() as int) =~= accs);
                    }
                    slot += 1;
                }
                if any {
                    if memoryless {
                        usage = usage | ImageUsage::TRANSIENT_ATTACHMENT;
                    }
                    images.push(Some(TransientImage { desc, usage, memoryless }));
                } else {
                    images.push(None);
                }
            },
            _ => {
                images.push(None);
            },
        }
        q += 1;
    }
    images
}

} // verus!
