//! What holds of every schedule the compiler produces.

use vstd::prelude::*;

use super::access::Access;
use super::builder::{duplicate_pass_at, duplicate_resource_at, GraphBuilder, PassDecl, PassId, PassKind};
use super::checks::recorded_after_raw;
use super::checks::conflict_at;
use super::compile::{
    compile_rejects, compiled_from, declaration_error_at, declarations_ok, lemma_kahn_distinct, live_order, names_unique,
    FrameGraph,
};
use super::error::GraphError;
use super::cull::{live_slot, needed_from, observed, partition_live, reads_of};
use super::flags::{contains_flags, ImageUsage};
use super::images::{image_for, usage_of};
use super::resource::ResourceKind;
use super::plan::{
    access_layout, final_barrier_for, final_barriers_upto, read_before_write_at, scheduled_accesses, state_after,
    step_barrier, step_state, State,
};
use super::resource::{ResourceDecl, ResourceId};
use super::schedule::{depends, depends_via, is_ready, kahn_prefix, kahn_schedule, placed, reads, touches, writes};

verus! {

/// A pass runs after every pass it depends on: whenever `b` is scheduled and
/// depends on `a`, `a` is scheduled in an earlier slot. This is what makes
/// registration order irrelevant to a reader and its writer.
pub proof fn lemma_dependencies_run_first(passes: Seq<PassDecl>, order: Seq<PassId>, a: int, b: int, j: int)
    requires
        kahn_prefix(passes, order),
        depends(passes, a, b),
        0 <= j < order.len(),
        order[j].0 == b,
    ensures
        exists|i: int| 0 <= i < j && #[trigger] order[i].0 == a,
{
    assert(is_ready(passes, order.take(j), b));
    assert(placed(order.take(j), a));
    let i = choose|i: int| 0 <= i < order.take(j).len() && (#[trigger] order.take(j)[i]).0 as int == a;
    assert(order.take(j)[i] == order[i]);
}

proof fn lemma_kahn_prefixes_agree(passes: Seq<PassDecl>, s1: Seq<PassId>, s2: Seq<PassId>, i: int)
    requires
        kahn_prefix(passes, s1),
        kahn_prefix(passes, s2),
        0 <= i <= s1.len(),
        i <= s2.len(),
    ensures
        s1.take(i) == s2.take(i),
    decreases i,
{
    if i > 0 {
        lemma_kahn_prefixes_agree(passes, s1, s2, i - 1);
        let prefix = s1.take(i - 1);
        let x1 = s1[i - 1].0 as int;
        let x2 = s2[i - 1].0 as int;
        assert(is_ready(passes, prefix, x1));
        assert(is_ready(passes, s2.take(i - 1), x2));
        if x1 < x2 {
            assert(!is_ready(passes, s2.take(i - 1), x1));
        }
        if x2 < x1 {
            assert(!is_ready(passes, s1.take(i - 1), x2));
        }
        assert(s1[i - 1] == s2[i - 1]);
        assert(s1.take(i) =~= s1.take(i - 1).push(s1[i - 1]));
        assert(s2.take(i) =~= s2.take(i - 1).push(s2[i - 1]));
    }
}

/// The schedule is a function of the declarations: any two complete Kahn
/// schedules of the same passes are the same sequence, so compiling one frame
/// twice orders it the same way twice.
pub proof fn lemma_schedule_is_unique(passes: Seq<PassDecl>, s1: Seq<PassId>, s2: Seq<PassId>)
    requires
        kahn_schedule(passes, s1),
        kahn_schedule(passes, s2),
    ensures
        s1 == s2,
{
    if s1.len() < s2.len() {
        lemma_kahn_prefixes_agree(passes, s1, s2, s1.len() as int);
        assert(s1.take(s1.len() as int) =~= s1);
        assert(is_ready(passes, s2.take(s1.len() as int), s2[s1.len() as int].0 as int));
        assert(!is_ready(passes, s1, s2[s1.len() as int].0 as int));
    } else if s2.len() < s1.len() {
        lemma_kahn_prefixes_agree(passes, s1, s2, s2.len() as int);
        assert(s2.take(s2.len() as int) =~= s2);
        assert(is_ready(passes, s1.take(s2.len() as int), s1[s2.len() as int].0 as int));
        assert(!is_ready(passes, s2, s1[s2.len() as int].0 as int));
    } else {
        lemma_kahn_prefixes_agree(passes, s1, s2, s1.len() as int);
        assert(s1.take(s1.len() as int) =~= s1);
        assert(s2.take(s2.len() as int) =~= s2);
    }
}


/// `path` follows dependencies, each pass one that the next depends on, and
/// ends where it started.
pub open spec fn dependency_cycle(passes: Seq<PassDecl>, path: Seq<int>) -> bool {
    &&& path.len() >= 2
    &&& path[0] == path.last()
    &&& forall|i: int| 0 <= i < path.len() - 1 ==> #[trigger] depends(passes, path[i], path[i + 1])
}

pub open spec fn has_cycle(passes: Seq<PassDecl>) -> bool {
    exists|path: Seq<int>| #[trigger] dependency_cycle(passes, path)
}

pub open spec fn ids_of(order: Seq<PassId>) -> Seq<int> {
    order.map_values(|p: PassId| p.0 as int)
}

proof fn lemma_ids_of(passes: Seq<PassDecl>, order: Seq<PassId>)
    requires
        kahn_prefix(passes, order),
    ensures
        ids_of(order).no_duplicates(),
        ids_of(order).to_set().subset_of(vstd::set_lib::set_int_range(0, passes.len() as int)),
        ids_of(order).to_set().finite(),
        ids_of(order).to_set().len() == order.len(),
        order.len() <= passes.len(),
        forall|v: int| ids_of(order).to_set().contains(v) <==> placed(order, v),
{
    super::compile::lemma_kahn_distinct(passes, order);
    let ids = ids_of(order);
    assert forall|i: int, j: int| 0 <= i < ids.len() && 0 <= j < ids.len() && i != j implies ids[i] != ids[j] by {
        if i < j {
            assert(order[i] != order[j]);
        } else {
            assert(order[j] != order[i]);
        }
    }
    ids.unique_seq_to_set();
    assert forall|v: int| ids.to_set().contains(v) <==> placed(order, v) by {
        if ids.to_set().contains(v) {
            let i = choose|i: int| 0 <= i < ids.len() && ids[i] == v;
            assert(order[i].0 as int == v);
        }
        if placed(order, v) {
            let i = choose|i: int| 0 <= i < order.len() && (#[trigger] order[i]).0 as int == v;
            assert(ids[i] == v);
        }
    }
    assert forall|v: int| ids.to_set().contains(v) implies vstd::set_lib::set_int_range(0, passes.len() as int).contains(v) by {
        let i = choose|i: int| 0 <= i < ids.len() && ids[i] == v;
        assert(order[i].0 < passes.len());
    }
    vstd::set_lib::lemma_int_range(0, passes.len() as int);
    vstd::set_lib::lemma_len_subset(ids.to_set(), vstd::set_lib::set_int_range(0, passes.len() as int));
}

/// Where pass `v` sits in `order`.
pub open spec fn position(order: Seq<PassId>, v: int) -> int {
    choose|i: int| 0 <= i < order.len() && (#[trigger] order[i]).0 as int == v
}

proof fn lemma_path_climbs(passes: Seq<PassDecl>, order: Seq<PassId>, path: Seq<int>, k: int)
    requires
        kahn_prefix(passes, order),
        forall|v: int| 0 <= v < passes.len() ==> placed(order, v),
        path.len() >= 2,
        forall|i: int| 0 <= i < path.len() - 1 ==> #[trigger] depends(passes, path[i], path[i + 1]),
        1 <= k < path.len(),
    ensures
        position(order, path[0]) < position(order, path[k]),
        placed(order, path[k]),
    decreases k,
{
    super::compile::lemma_kahn_distinct(passes, order);
    let a = path[k - 1];
    let b = path[k];
    assert(depends(passes, path[k - 1], path[(k - 1) + 1]));
    let r = choose|r: int| 0 <= r && #[trigger] super::schedule::depends_via(passes, r, a, b);
    assert(0 <= b < passes.len());
    assert(0 <= a < passes.len());
    assert(placed(order, b));
    assert(placed(order, a));
    let pb = position(order, b);
    let pa = position(order, a);
    lemma_dependencies_run_first(passes, order, a, b, pb);
    let i = choose|i: int| 0 <= i < pb && #[trigger] order[i].0 == a;
    if i != pa {
        assert(order[i] == order[pa]);
    }
    if k > 1 {
        lemma_path_climbs(passes, order, path, k - 1);
    }
}

/// A complete schedule leaves no dependency cycle.
proof fn lemma_complete_schedule_acyclic(passes: Seq<PassDecl>, order: Seq<PassId>)
    requires
        kahn_schedule(passes, order),
        order.len() == passes.len(),
    ensures
        !has_cycle(passes),
{
    lemma_ids_of(passes, order);
    vstd::set_lib::lemma_int_range(0, passes.len() as int);
    vstd::set_lib::lemma_subset_equality(ids_of(order).to_set(), vstd::set_lib::set_int_range(0, passes.len() as int));
    assert forall|v: int| 0 <= v < passes.len() implies placed(order, v) by {
        assert(vstd::set_lib::set_int_range(0, passes.len() as int).contains(v));
    }
    if has_cycle(passes) {
        let path = choose|path: Seq<int>| #[trigger] dependency_cycle(passes, path);
        lemma_path_climbs(passes, order, path, path.len() - 1);
    }
}

/// Some pass that `v` depends on is unscheduled.
pub open spec fn unscheduled_dependency(passes: Seq<PassDecl>, order: Seq<PassId>, v: int) -> int {
    choose|u: int| #[trigger] depends(passes, u, v) && !placed(order, u)
}

/// The unscheduled passes leading to `v`, `k` steps back, ending at `v`.
pub open spec fn walk_back(passes: Seq<PassDecl>, order: Seq<PassId>, v: int, k: nat) -> Seq<int>
    decreases k,
{
    if k == 0 {
        seq![v]
    } else {
        walk_back(passes, order, unscheduled_dependency(passes, order, v), (k - 1) as nat).push(v)
    }
}

proof fn lemma_walk_back(passes: Seq<PassDecl>, order: Seq<PassId>, v: int, k: nat)
    requires
        kahn_schedule(passes, order),
        0 <= v < passes.len(),
        !placed(order, v),
    ensures
        walk_back(passes, order, v, k).len() == k + 1,
        walk_back(passes, order, v, k).last() == v,
        forall|i: int|
            0 <= i < k + 1 ==> 0 <= #[trigger] walk_back(passes, order, v, k)[i] < passes.len()
                && !placed(order, walk_back(passes, order, v, k)[i]),
        forall|i: int|
            0 <= i < k ==> #[trigger] depends(
                passes,
                walk_back(passes, order, v, k)[i],
                walk_back(passes, order, v, k)[i + 1],
            ),
    decreases k,
{
    if k > 0 {
        assert(!is_ready(passes, order, v));
        let u = unscheduled_dependency(passes, order, v);
        assert(depends(passes, u, v) && !placed(order, u));
        let r = choose|r: int| 0 <= r && #[trigger] super::schedule::depends_via(passes, r, u, v);
        assert(0 <= u < passes.len());
        lemma_walk_back(passes, order, u, (k - 1) as nat);
        let prior = walk_back(passes, order, u, (k - 1) as nat);
        let w = walk_back(passes, order, v, k);
        assert(w == prior.push(v));
        assert forall|i: int| 0 <= i < k implies #[trigger] depends(passes, w[i], w[i + 1]) by {
            if i < k - 1 {
                assert(w[i] == prior[i] && w[i + 1] == prior[i + 1]);
            } else {
                assert(w[i] == prior.last());
            }
        }
        assert forall|i: int| 0 <= i < k + 1 implies 0 <= #[trigger] w[i] < passes.len() && !placed(order, w[i]) by {
            if i < k {
                assert(w[i] == prior[i]);
            }
        }
    }
}

/// A schedule that stops short of every pass leaves a dependency cycle among
/// the passes it left out.
proof fn lemma_incomplete_schedule_cyclic(passes: Seq<PassDecl>, order: Seq<PassId>)
    requires
        kahn_schedule(passes, order),
        order.len() < passes.len(),
    ensures
        has_cycle(passes),
{
    let n = passes.len() as int;
    let range = vstd::set_lib::set_int_range(0, n);
    lemma_ids_of(passes, order);
    vstd::set_lib::lemma_int_range(0, n);
    if forall|v: int| 0 <= v < n ==> placed(order, v) {
        assert forall|v: int| range.contains(v) implies ids_of(order).to_set().contains(v) by {
            assert(placed(order, v));
        }
        vstd::set_lib::lemma_len_subset(range, ids_of(order).to_set());
    }
    let v0 = choose|v: int| 0 <= v < n && !placed(order, v);
    lemma_walk_back(passes, order, v0, n as nat);
    let path = walk_back(passes, order, v0, n as nat);
    if path.no_duplicates() {
        path.unique_seq_to_set();
        assert(path.to_set().subset_of(range));
        vstd::set_lib::lemma_len_subset(path.to_set(), range);
    }
    let (i, j) = choose|i: int, j: int| 0 <= i < path.len() && 0 <= j < path.len() && i != j && path[i] == path[j];
    let (lo, hi) = if i < j { (i, j) } else { (j, i) };
    let cycle = path.subrange(lo, hi + 1);
    assert forall|t: int| 0 <= t < cycle.len() - 1 implies #[trigger] depends(passes, cycle[t], cycle[t + 1]) by {
        assert(cycle[t] == path[lo + t]);
        assert(cycle[t + 1] == path[lo + t + 1]);
    }
    assert(dependency_cycle(passes, cycle));
}

/// The schedule covers every pass exactly when the passes' dependencies
/// contain no cycle: a cycle error is reported if and only if one exists.
pub proof fn lemma_schedule_complete_iff_acyclic(passes: Seq<PassDecl>, order: Seq<PassId>)
    requires
        kahn_schedule(passes, order),
    ensures
        order.len() == passes.len() <==> !has_cycle(passes),
{
    lemma_ids_of(passes, order);
    vstd::set_lib::lemma_int_range(0, passes.len() as int);
    if order.len() == passes.len() {
        lemma_complete_schedule_acyclic(passes, order);
    } else {
        assert(order.len() < passes.len());
        lemma_incomplete_schedule_cyclic(passes, order);
    }
}

proof fn lemma_or_keeps_contained(v: u64, x: u64, y: u64)
    requires
        x & y == y,
    ensures
        (v | x) & y == y,
{
    assert((v | x) & y == y) by (bit_vector)
        requires
            x & y == y,
    ;
}

/// A read needs no barrier right after a read of the same layout that
/// covered its stages and accesses: whatever the first read waited for, the
/// second has already been made to wait for. So a second reader in the same
/// layout costs nothing.
pub proof fn lemma_repeat_read_needs_no_barrier(
    state: State,
    is_image: bool,
    resource: ResourceId,
    first: Access,
    second: Access,
)
    requires
        !first.is_write(),
        !second.is_write(),
        access_layout(is_image, first) == access_layout(is_image, second),
        contains_flags(first.stages(), second.stages()),
        contains_flags(first.flags(), second.flags()),
    ensures
        step_barrier(step_state(state, is_image, first), is_image, resource, second) is None,
{
    let after = step_state(state, is_image, first);
    if access_layout(is_image, first) == state.layout {
        lemma_or_keeps_contained(state.visible_stages, first.stages(), second.stages());
        lemma_or_keeps_contained(state.visible_access, first.flags(), second.flags());
    }
}

/// Every import leaves the frame in the layout its owner declared: if the
/// last access left it elsewhere, a closing barrier moves it there from the
/// layout that access left.
pub proof fn lemma_imports_end_in_exit_layout(
    resources: Seq<ResourceDecl>,
    hist: Seq<(ResourceId, Access)>,
    r: int,
)
    requires
        0 <= r < resources.len(),
        resources.len() <= u32::MAX + 1,
        resources[r].exit_layout() is Some,
    ensures
        ({
            let exit = resources[r].exit_layout()->Some_0;
            let left = state_after(resources[r], r, hist).layout;
            let closing = final_barriers_upto(resources, hist, resources.len() as int);
            left == exit || exists|k: int|
                0 <= k < closing.len() && (#[trigger] closing[k]).resource == ResourceId(r as u32)
                    && closing[k].old_layout == left && closing[k].new_layout == exit
        }),
{
    lemma_final_barrier_kept(resources, hist, r, resources.len() as int);
}

proof fn lemma_final_barrier_kept(resources: Seq<ResourceDecl>, hist: Seq<(ResourceId, Access)>, r: int, upto: int)
    requires
        0 <= r < upto <= resources.len(),
    ensures
        final_barrier_for(resources[r], r, hist) matches Some(b) ==> exists|k: int|
            0 <= k < final_barriers_upto(resources, hist, upto).len() && #[trigger] final_barriers_upto(
                resources,
                hist,
                upto,
            )[k] == b,
    decreases upto,
{
    let prior = final_barriers_upto(resources, hist, upto - 1);
    let now = final_barriers_upto(resources, hist, upto);
    if r < upto - 1 {
        lemma_final_barrier_kept(resources, hist, r, upto - 1);
        if final_barrier_for(resources[r], r, hist) is Some {
            let b = final_barrier_for(resources[r], r, hist)->Some_0;
            let k = choose|k: int| 0 <= k < prior.len() && #[trigger] prior[k] == b;
            assert(now[k] == prior[k]);
        }
    } else {
        if final_barrier_for(resources[r], r, hist) is Some {
            assert(now[prior.len() as int] == final_barrier_for(resources[r], r, hist)->Some_0);
        }
    }
}

/// Culling splits the schedule: every scheduled pass is live or culled, and
/// the two halves together hold as many passes as the schedule.
pub proof fn lemma_cull_splits_the_schedule(
    order: Seq<PassId>,
    passes: Seq<PassDecl>,
    resources: Seq<ResourceDecl>,
    upto: int,
)
    requires
        0 <= upto <= order.len(),
    ensures
        ({
            let (live, culled) = partition_live(order, passes, resources, upto);
            &&& live.len() + culled.len() == upto
            &&& forall|i: int|
                0 <= i < upto ==> (exists|x: int| 0 <= x < live.len() && #[trigger] live[x] == #[trigger] order[i])
                    || (exists|x: int| 0 <= x < culled.len() && #[trigger] culled[x] == order[i])
        }),
    decreases upto,
{
    if upto > 0 {
        lemma_cull_splits_the_schedule(order, passes, resources, upto - 1);
        let (live0, culled0) = partition_live(order, passes, resources, upto - 1);
        let (live, culled) = partition_live(order, passes, resources, upto);
        assert forall|i: int| 0 <= i < upto implies (exists|x: int|
            0 <= x < live.len() && #[trigger] live[x] == #[trigger] order[i]) || (exists|x: int|
            0 <= x < culled.len() && #[trigger] culled[x] == order[i]) by {
            if i < upto - 1 {
                if exists|x: int| 0 <= x < live0.len() && #[trigger] live0[x] == order[i] {
                    let x = choose|x: int| 0 <= x < live0.len() && #[trigger] live0[x] == order[i];
                    assert(live[x] == live0[x]);
                } else {
                    let x = choose|x: int| 0 <= x < culled0.len() && #[trigger] culled0[x] == order[i];
                    assert(culled[x] == culled0[x]);
                }
            } else {
                if live.len() > live0.len() {
                    assert(live[live0.len() as int] == order[i]);
                } else {
                    assert(culled[culled0.len() as int] == order[i]);
                }
            }
        }
    }
}

proof fn lemma_or_covers(p: u32, x: u32, y: u32)
    ensures
        (p | x) & x == x,
        p & y == y ==> (p | x) & y == y,
{
    assert((p | x) & x == x) by (bit_vector);
    assert(p & y == y ==> (p | x) & y == y) by (bit_vector);
}

/// An image is created with every usage its accesses declare: whatever one
/// access to it needs, the image's usage includes.
pub proof fn lemma_image_usage_covers_accesses(hist: Seq<(ResourceId, Access)>, r: int, t: int)
    requires
        0 <= t < hist.len(),
        hist[t].0.0 == r,
    ensures
        usage_of(hist, r) & hist[t].1.image_usage() == hist[t].1.image_usage(),
    decreases hist.len(),
{
    let last = hist.len() - 1;
    let prior = usage_of(hist.drop_last(), r);
    if t < last {
        lemma_image_usage_covers_accesses(hist.drop_last(), r, t);
        assert(hist.drop_last()[t] == hist[t]);
        if hist.last().0.0 == r {
            lemma_or_covers(prior, hist.last().1.image_usage(), hist[t].1.image_usage());
        }
    } else {
        lemma_or_covers(prior, hist.last().1.image_usage(), hist[t].1.image_usage());
    }
}

/// Every dependency runs from an earlier-registered pass to a later one.
pub open spec fn forward_only(passes: Seq<PassDecl>) -> bool {
    forall|a: int, b: int| #[trigger] depends(passes, a, b) ==> a < b
}

/// The first `n` pass ids in registration order.
pub open spec fn registration_order(n: int) -> Seq<PassId> {
    Seq::new(n as nat, |i: int| PassId(i as u32))
}

/// When every dependency points forward, the schedule is registration order:
/// the lowest unscheduled pass is always ready, so it is always the one taken.
pub proof fn lemma_forward_graph_runs_in_registration_order(passes: Seq<PassDecl>, order: Seq<PassId>)
    requires
        forward_only(passes),
        kahn_schedule(passes, order),
        passes.len() <= u32::MAX,
    ensures
        order == registration_order(passes.len() as int),
{
    assert forall|i: int| 0 <= i < order.len() implies (#[trigger] order[i]).0 == i by {
        lemma_prefix_is_registration_order(passes, order, i + 1);
        assert(order.take(i + 1)[i] == order[i]);
    }
    lemma_prefix_is_registration_order(passes, order, order.len() as int);
    assert(order.take(order.len() as int) =~= order);
    if order.len() < passes.len() {
        let v = order.len() as int;
        assert(!placed(order, v)) by {
            if placed(order, v) {
                let i = choose|i: int| 0 <= i < order.len() && (#[trigger] order[i]).0 as int == v;
            }
        }
        assert forall|u: int| #[trigger] depends(passes, u, v) implies placed(order, u) by {
            assert(order[u].0 == u);
        }
        assert(is_ready(passes, order, v));
    }
    assert(order =~= registration_order(passes.len() as int));
}

proof fn lemma_prefix_is_registration_order(passes: Seq<PassDecl>, order: Seq<PassId>, k: int)
    requires
        forward_only(passes),
        kahn_prefix(passes, order),
        0 <= k <= order.len(),
        passes.len() <= u32::MAX,
    ensures
        forall|i: int| 0 <= i < k ==> (#[trigger] order.take(k)[i]).0 == i,
        k <= passes.len(),
    decreases k,
{
    if k > 0 {
        lemma_prefix_is_registration_order(passes, order, k - 1);
        let i = k - 1;
        let prefix = order.take(i);
        assert forall|j: int| 0 <= j < i implies (#[trigger] prefix[j]).0 == j by {
            assert(prefix[j] == order.take(k - 1)[j]);
        }
        assert(is_ready(passes, prefix, order[i].0 as int));
        // `i` itself is ready: it is unplaced, and all it depends on is below it.
        if order[i].0 as int != i {
            assert(!placed(prefix, i)) by {
                if placed(prefix, i) {
                    let j = choose|j: int| 0 <= j < prefix.len() && (#[trigger] prefix[j]).0 as int == i;
                }
            }
            assert forall|u: int| #[trigger] depends(passes, u, i) implies placed(prefix, u) by {
                assert(prefix[u].0 == u);
            }
            if (order[i].0 as int) < i {
                assert(prefix[order[i].0 as int].0 == order[i].0);
                assert(placed(prefix, order[i].0 as int));
            } else {
                assert(i < passes.len()) by {
                    assert(order[i].0 < passes.len());
                }
                assert(is_ready(passes, prefix, i));
            }
        }
        assert forall|j: int| 0 <= j < k implies (#[trigger] order.take(k)[j]).0 == j by {
            if j < i {
                assert(order.take(k)[j] == prefix[j]);
            }
        }
    }
}

/// What the passes at slots `i..` need only shrinks as the slot moves on.
proof fn lemma_needed_shrinks(
    order: Seq<PassId>,
    passes: Seq<PassDecl>,
    resources: Seq<ResourceDecl>,
    i: int,
    j: int,
    r: int,
)
    requires
        0 <= i <= j,
        needed_from(order, passes, resources, j).contains(r),
    ensures
        needed_from(order, passes, resources, i).contains(r),
    decreases j - i,
{
    if i < j {
        lemma_needed_shrinks(order, passes, resources, i + 1, j, r);
        if i < order.len() {
            let later = needed_from(order, passes, resources, i + 1);
            if observed(passes[order[i].0 as int], later) {
                assert(later.union(reads_of(passes[order[i].0 as int])).contains(r));
            }
        } else {
            assert(needed_from(order, passes, resources, i + 1) == needed_from(order, passes, resources, i));
        }
    }
}

/// A live pass keeps alive every earlier pass that writes what it reads: the
/// read makes the resource needed, and a write to a needed resource is
/// observed.
pub proof fn lemma_producers_of_a_live_pass_live(
    order: Seq<PassId>,
    passes: Seq<PassDecl>,
    resources: Seq<ResourceDecl>,
    i: int,
    j: int,
    r: int,
    kw: int,
    kr: int,
)
    requires
        0 <= i < j < order.len(),
        live_slot(order, passes, resources, j),
        0 <= kr < passes[order[j].0 as int].accesses@.len(),
        passes[order[j].0 as int].accesses@[kr].0.0 == r,
        !passes[order[j].0 as int].accesses@[kr].1.is_write(),
        0 <= kw < passes[order[i].0 as int].accesses@.len(),
        passes[order[i].0 as int].accesses@[kw].0.0 == r,
        passes[order[i].0 as int].accesses@[kw].1.is_write(),
    ensures
        live_slot(order, passes, resources, i),
{
    let reader = passes[order[j].0 as int];
    assert(reads_of(reader).contains(r)) by {
        assert(reader.accesses@[kr].0.0 == r);
    }
    assert(needed_from(order, passes, resources, j).contains(r));
    lemma_needed_shrinks(order, passes, resources, i + 1, j, r);
    let writer = passes[order[i].0 as int];
    assert(writer.accesses@[kw].1.is_write());
}

/// Only the last pass registered may be raw.
pub open spec fn raw_only_last(passes: Seq<PassDecl>) -> bool {
    forall|p: int| 0 <= p < passes.len() - 1 ==> (#[trigger] passes[p]).kind != PassKind::Raw
}

/// Every read of a graph-owned resource comes after a write of it by an
/// earlier-registered pass.
pub open spec fn reads_follow_writes(passes: Seq<PassDecl>, resources: Seq<ResourceDecl>) -> bool {
    forall|p: int, k: int|
        #![trigger passes[p].accesses@[k]]
        0 <= p < passes.len() && 0 <= k < passes[p].accesses@.len() && !passes[p].accesses@[k].1.is_write()
            && !resources[passes[p].accesses@[k].0.0 as int].is_imported() ==> exists|w: int, kw: int|
            0 <= w < p && 0 <= kw < passes[w].accesses@.len() && (#[trigger] passes[w].accesses@[kw]).0
                == passes[p].accesses@[k].0 && passes[w].accesses@[kw].1.is_write()
}

/// Over registration order, the live passes are the live slots, in order.
proof fn lemma_live_in_registration_order(
    order: Seq<PassId>,
    passes: Seq<PassDecl>,
    resources: Seq<ResourceDecl>,
    upto: int,
)
    requires
        passes.len() <= u32::MAX,
        order == registration_order(passes.len() as int),
        0 <= upto <= order.len(),
    ensures
        ({
            let live = partition_live(order, passes, resources, upto).0;
            &&& forall|x: int|
                0 <= x < live.len() ==> (#[trigger] live[x]).0 < upto && live_slot(
                    order,
                    passes,
                    resources,
                    live[x].0 as int,
                )
            &&& forall|x: int, y: int| 0 <= x < y < live.len() ==> (#[trigger] live[x]).0 < (#[trigger] live[y]).0
            &&& forall|t: int|
                0 <= t < upto && #[trigger] live_slot(order, passes, resources, t) ==> exists|x: int|
                    0 <= x < live.len() && (#[trigger] live[x]).0 == t
        }),
    decreases upto,
{
    if upto > 0 {
        lemma_live_in_registration_order(order, passes, resources, upto - 1);
        let prior = partition_live(order, passes, resources, upto - 1).0;
        let live = partition_live(order, passes, resources, upto).0;
        assert(order[upto - 1].0 == upto - 1);
        if live_slot(order, passes, resources, upto - 1) {
            assert(live == prior.push(order[upto - 1]));
            assert forall|t: int|
                0 <= t < upto && #[trigger] live_slot(order, passes, resources, t) implies exists|x: int|
                0 <= x < live.len() && (#[trigger] live[x]).0 == t by {
                if t < upto - 1 {
                    let x = choose|x: int| 0 <= x < prior.len() && (#[trigger] prior[x]).0 == t;
                    assert(live[x] == prior[x]);
                } else {
                    assert(live[prior.len() as int].0 == t);
                }
            }
        } else {
            assert(live == prior);
        }
    }
}

/// Once a write to `r` has happened, the compiler knows `r` is written,
/// whatever follows.
proof fn lemma_written_stays_written(decl: ResourceDecl, r: int, hist: Seq<(ResourceId, Access)>, t: int)
    requires
        0 <= t < hist.len(),
        hist[t].0.0 == r,
        hist[t].1.is_write(),
    ensures
        state_after(decl, r, hist).has_write,
    decreases hist.len(),
{
    if t < hist.len() - 1 {
        assert(hist.drop_last()[t] == hist[t]);
        lemma_written_stays_written(decl, r, hist.drop_last(), t);
    }
}

/// The accesses scheduled before slot `i` include every access of every
/// pass in an earlier slot.
proof fn lemma_scheduled_includes(order: Seq<PassId>, passes: Seq<PassDecl>, i: int, i2: int, kw: int)
    requires
        0 <= i2 < i <= order.len(),
        0 <= kw < passes[order[i2].0 as int].accesses@.len(),
    ensures
        exists|t: int|
            0 <= t < scheduled_accesses(order, passes, i).len() && #[trigger] scheduled_accesses(order, passes, i)[t]
                == passes[order[i2].0 as int].accesses@[kw],
    decreases i,
{
    let before = scheduled_accesses(order, passes, i - 1);
    let now = scheduled_accesses(order, passes, i);
    assert(now == before + passes[order[i - 1].0 as int].accesses@);
    if i2 == i - 1 {
        assert(now[before.len() + kw] == passes[order[i2].0 as int].accesses@[kw]);
    } else {
        lemma_scheduled_includes(order, passes, i - 1, i2, kw);
        let t = choose|t: int|
            0 <= t < before.len() && #[trigger] before[t] == passes[order[i2].0 as int].accesses@[kw];
        assert(now[t] == before[t]);
    }
}

/// A graph compiles whenever its names are unique, its declarations valid,
/// every dependency points forward, only its last pass is raw, and every
/// read of a graph-owned resource follows a write of it: no rule of the
/// compiler can reject it.
pub proof fn lemma_valid_graphs_compile(b: GraphBuilder)
    requires
        b.wf(),
        names_unique(b),
        declarations_ok(b.passes@),
        forward_only(b.passes@),
        raw_only_last(b.passes@),
        reads_follow_writes(b.passes@, b.resources@),
    ensures
        forall|e: GraphError| !compile_rejects(b, e),
{
    let passes = b.passes@;
    let resources = b.resources@;
    let n = passes.len() as int;
    let order = registration_order(n);
    assert forall|e: GraphError| !compile_rejects(b, e) by {
        // Any complete schedule is registration order.
        assert forall|sched: Seq<PassId>| #[trigger] kahn_schedule(passes, sched) implies sched == order by {
            lemma_forward_graph_runs_in_registration_order(passes, sched);
        }
        if exists|sched: Seq<PassId>| #[trigger] kahn_schedule(passes, sched) {
            let sched = choose|sched: Seq<PassId>| #[trigger] kahn_schedule(passes, sched);
            assert(sched == order);
            lemma_live_in_registration_order(order, passes, resources, n);
            let live = live_order(passes, resources, order);
            assert(live == partition_live(order, passes, resources, n).0);
            // Raw passes come last.
            assert forall|i: int, j: int| !recorded_after_raw(live, passes, i, j) by {
                if recorded_after_raw(live, passes, i, j) {
                    assert(live[i].0 < live[j].0);
                    assert(live[j].0 < n);
                    assert(passes[live[i].0 as int].kind == PassKind::Raw);
                }
            }
            // Every read follows a write that stayed live.
            assert forall|i: int, k: int| !read_before_write_at(live, passes, resources, i, k) by {
                if read_before_write_at(live, passes, resources, i, k) {
                    let p = live[i].0 as int;
                    let accs = passes[p].accesses@;
                    let (id, access) = accs[k];
                    assert(passes[p].accesses@[k] == accs[k]);
                    let (w, kw) = choose|w: int, kw: int|
                        0 <= w < p && 0 <= kw < passes[w].accesses@.len() && (#[trigger] passes[w].accesses@[kw]).0
                            == passes[p].accesses@[k].0 && passes[w].accesses@[kw].1.is_write();
                    assert(order[p].0 == p && order[w].0 == w);
                    lemma_producers_of_a_live_pass_live(order, passes, resources, w, p, id.0 as int, kw, k);
                    let x = choose|x: int| 0 <= x < live.len() && (#[trigger] live[x]).0 == w;
                    if x >= i {
                        if x > i {
                            assert(live[i].0 < live[x].0);
                        }
                    }
                    assert(x < i);
                    lemma_scheduled_includes(live, passes, i, x, kw);
                    let before = scheduled_accesses(live, passes, i);
                    let t = choose|t: int|
                        0 <= t < before.len() && #[trigger] before[t] == passes[live[x].0 as int].accesses@[kw];
                    let hist = before + accs.take(k);
                    assert(hist[t] == before[t]);
                    lemma_written_stays_written(resources[id.0 as int], id.0 as int, hist, t);
                }
            }
        }
    }
}

/// The live passes keep the schedule's order: any two of them sit in the
/// schedule in the order they sit in the live list.
proof fn lemma_live_keeps_order(
    order: Seq<PassId>,
    passes: Seq<PassDecl>,
    resources: Seq<ResourceDecl>,
    upto: int,
    x: int,
    y: int,
)
    requires
        0 <= upto <= order.len(),
        0 <= x < y < partition_live(order, passes, resources, upto).0.len(),
    ensures
        exists|jx: int, jy: int|
            0 <= jx < jy < upto && order[jx] == partition_live(order, passes, resources, upto).0[x] && order[jy]
                == #[trigger] partition_live(order, passes, resources, upto).0[y],
    decreases upto,
{
    let prior = partition_live(order, passes, resources, upto - 1).0;
    let live = partition_live(order, passes, resources, upto).0;
    if y < prior.len() {
        lemma_live_keeps_order(order, passes, resources, upto - 1, x, y);
        let (jx, jy) = choose|jx: int, jy: int|
            0 <= jx < jy < upto - 1 && order[jx] == prior[x] && order[jy] == #[trigger] prior[y];
        assert(live[x] == prior[x] && live[y] == prior[y]);
    } else {
        assert(live == prior.push(order[upto - 1]));
        lemma_live_member(order, passes, resources, upto - 1, x);
        let jx = choose|jx: int| 0 <= jx < upto - 1 && order[jx] == #[trigger] prior[x];
        assert(live[x] == prior[x]);
        assert(order[upto - 1] == live[y]);
    }
}

/// Every live pass comes from a slot of the schedule below `upto`.
proof fn lemma_live_member(
    order: Seq<PassId>,
    passes: Seq<PassDecl>,
    resources: Seq<ResourceDecl>,
    upto: int,
    x: int,
)
    requires
        0 <= upto <= order.len(),
        0 <= x < partition_live(order, passes, resources, upto).0.len(),
    ensures
        exists|j: int| 0 <= j < upto && order[j] == #[trigger] partition_live(order, passes, resources, upto).0[x],
    decreases upto,
{
    let prior = partition_live(order, passes, resources, upto - 1).0;
    let live = partition_live(order, passes, resources, upto).0;
    if x < prior.len() {
        lemma_live_member(order, passes, resources, upto - 1, x);
        let j = choose|j: int| 0 <= j < upto - 1 && order[j] == #[trigger] prior[x];
        assert(live[x] == prior[x]);
    } else {
        assert(live[x] == order[upto - 1]);
    }
}

/// Every access scheduled before slot `i` is declared by the pass of an
/// earlier slot.
proof fn lemma_scheduled_from(order: Seq<PassId>, passes: Seq<PassDecl>, i: int, t: int)
    requires
        0 <= i <= order.len(),
        0 <= t < scheduled_accesses(order, passes, i).len(),
    ensures
        exists|x: int, kk: int|
            0 <= x < i && 0 <= kk < passes[order[x].0 as int].accesses@.len()
                && #[trigger] passes[order[x].0 as int].accesses@[kk] == scheduled_accesses(order, passes, i)[t],
    decreases i,
{
    let before = scheduled_accesses(order, passes, i - 1);
    let now = scheduled_accesses(order, passes, i);
    assert(now == before + passes[order[i - 1].0 as int].accesses@);
    if t < before.len() {
        lemma_scheduled_from(order, passes, i - 1, t);
        assert(now[t] == before[t]);
    } else {
        assert(now[t] == passes[order[i - 1].0 as int].accesses@[t - before.len()]);
    }
}

/// A history with no read of `r` leaves no read of `r` pending.
proof fn lemma_no_reads_pending(decl: ResourceDecl, r: int, hist: Seq<(ResourceId, Access)>)
    requires
        forall|t: int| 0 <= t < hist.len() && (#[trigger] hist[t]).0.0 == r ==> hist[t].1.is_write(),
    ensures
        state_after(decl, r, hist).read_stages == 0,
    decreases hist.len(),
{
    if hist.len() > 0 {
        assert forall|t: int| 0 <= t < hist.drop_last().len() && (#[trigger] hist.drop_last()[t]).0.0 == r implies hist.drop_last()[t].1.is_write() by {
            assert(hist.drop_last()[t] == hist[t]);
        }
        lemma_no_reads_pending(decl, r, hist.drop_last());
        assert(hist.last() == hist[hist.len() - 1]);
    }
}

/// A write never meets a pending read: along a compiled schedule, when a
/// pass writes a resource, no read of it since its last write is waiting.
/// Every reader of a resource runs after every writer of it, and a pass
/// touches a resource once, so no barrier has a write-after-read hazard to
/// cover.
pub proof fn lemma_writes_meet_no_pending_reads(b: GraphBuilder, g: FrameGraph, sched: Seq<PassId>, i: int, k: int)
    requires
        b.wf(),
        declarations_ok(b.passes@),
        compiled_from(b, g, sched),
        0 <= i < g.schedule().len(),
        0 <= k < b.passes@[g.schedule()[i].0 as int].accesses@.len(),
        b.passes@[g.schedule()[i].0 as int].accesses@[k].1.is_write(),
    ensures
        ({
            let passes = b.passes@;
            let live = g.schedule();
            let accs = passes[live[i].0 as int].accesses@;
            let r = accs[k].0.0 as int;
            state_after(b.resources@[r], r, scheduled_accesses(live, passes, i) + accs.take(k)).read_stages == 0
        }),
{
    let passes = b.passes@;
    let resources = b.resources@;
    let live = g.schedule();
    let w = live[i].0 as int;
    let accs = passes[w].accesses@;
    let r = accs[k].0.0 as int;
    let before = scheduled_accesses(live, passes, i);
    let hist = before + accs.take(k);
    lemma_kahn_distinct(passes, sched);
    assert(live == partition_live(sched, passes, resources, sched.len() as int).0);
    assert forall|x: int| 0 <= x < live.len() implies (#[trigger] live[x]).0 < passes.len() by {
        lemma_live_member(sched, passes, resources, sched.len() as int, x);
        let j = choose|j: int| 0 <= j < sched.len() && sched[j] == #[trigger] live[x];
    }
    assert(w < passes.len());
    assert forall|t: int| 0 <= t < hist.len() && (#[trigger] hist[t]).0.0 == r implies hist[t].1.is_write() by {
        if t >= before.len() {
            let j = t - before.len();
            assert(hist[t] == accs[j]);
            if accs[j].0.0 == accs[k].0.0 {
                assert(accs[j].0 == accs[k].0);
                assert(passes[w].accesses@[j] == accs[j]);
                assert(conflict_at(passes[w], k));
                assert(passes[w].accesses@[k] == accs[k]);
                assert(declaration_error_at(passes, w));
                assert(!declaration_error_at(passes, w));
            }
        } else {
            assert(hist[t] == before[t]);
            lemma_scheduled_from(live, passes, i, t);
            let (x, kk) = choose|x: int, kk: int|
                0 <= x < i && 0 <= kk < passes[live[x].0 as int].accesses@.len()
                    && #[trigger] passes[live[x].0 as int].accesses@[kk] == before[t];
            if !hist[t].1.is_write() {
                let rd = live[x].0 as int;
                assert(passes[rd].accesses@[kk].0.0 == r);
                assert(touches(passes[w], r, true));
                assert(touches(passes[rd], r, false));
                assert(rd < passes.len());
                assert(passes[w].accesses@[k] == accs[k]);
                assert(writes(passes, w, r));
                assert(reads(passes, rd, r));
                assert(depends_via(passes, r, w, rd));
                assert(depends(passes, w, rd));
                lemma_live_keeps_order(sched, passes, resources, sched.len() as int, x, i);
                let (jx, jy) = choose|jx: int, jy: int|
                    0 <= jx < jy < sched.len() && sched[jx] == live[x] && sched[jy] == #[trigger] live[i];
                lemma_dependencies_run_first(passes, sched, w, rd, jx);
                let j0 = choose|j0: int| 0 <= j0 < jx && #[trigger] sched[j0].0 == w;
                assert(sched[j0] == sched[jy]);
            }
        }
    }
    lemma_no_reads_pending(resources[r], r, hist);
}

proof fn lemma_or_misses(p: u32, x: u32, m: u32)
    ensures
        p & m == 0 && x & m == 0 ==> (p | x) & m == 0,
{
    assert(p & m == 0 && x & m == 0 ==> (p | x) & m == 0) by (bit_vector);
}

/// The union of declared usage holds no bit that no access to `r` declares.
proof fn lemma_usage_only_declared(hist: Seq<(ResourceId, Access)>, r: int, m: u32)
    requires
        forall|t: int| 0 <= t < hist.len() && (#[trigger] hist[t]).0.0 == r ==> hist[t].1.image_usage() & m == 0,
    ensures
        usage_of(hist, r) & m == 0,
    decreases hist.len(),
{
    if hist.len() == 0 {
        assert(0u32 & m == 0) by (bit_vector);
    } else {
        assert forall|t: int| 0 <= t < hist.drop_last().len() && (#[trigger] hist.drop_last()[t]).0.0 == r implies hist.drop_last()[t].1.image_usage() & m == 0 by {
            assert(hist.drop_last()[t] == hist[t]);
        }
        lemma_usage_only_declared(hist.drop_last(), r, m);
        assert(hist.last() == hist[hist.len() - 1]);
        lemma_or_misses(usage_of(hist.drop_last(), r), hist.last().1.image_usage(), m);
    }
}

/// A transient image the frame touches is allocated, and with every usage
/// any access to it declares, memoryless or not: the transient-attachment
/// bit is added to what the passes declared, never put in its place.
pub proof fn lemma_transient_usage_covers_accesses(
    decl: ResourceDecl,
    r: int,
    hist: Seq<(ResourceId, Access)>,
    t: int,
)
    requires
        decl.kind is Transient,
        0 <= t < hist.len(),
        hist[t].0.0 == r,
    ensures
        image_for(decl, r, hist) matches Some(img) && img.usage & hist[t].1.image_usage()
            == hist[t].1.image_usage(),
{
    assert(crate::gfx::graph::images::accessed(hist, r));
    lemma_image_usage_covers_accesses(hist, r, t);
    lemma_or_covers(usage_of(hist, r), ImageUsage::TRANSIENT_ATTACHMENT, hist[t].1.image_usage());
    let u = usage_of(hist, r);
    let a = hist[t].1.image_usage();
    assert(u & a == a ==> (u | 0x40u32) & a == a) by (bit_vector);
}

/// A transient image is memoryless exactly when every access to it is an
/// attachment; a memoryless one carries the transient-attachment usage;
/// and no image carries a usage bit that no access to it declares, apart
/// from that one on a memoryless image.
pub proof fn lemma_transient_usage_is_what_was_declared(
    decl: ResourceDecl,
    r: int,
    hist: Seq<(ResourceId, Access)>,
    t: int,
    m: u32,
)
    requires
        decl.kind is Transient,
        0 <= t < hist.len(),
        hist[t].0.0 == r,
    ensures
        image_for(decl, r, hist) matches Some(img) && {
            &&& img.memoryless <==> forall|u: int|
                0 <= u < hist.len() && (#[trigger] hist[u]).0.0 == r ==> hist[u].1.is_attachment()
            &&& img.memoryless ==> img.usage & ImageUsage::TRANSIENT_ATTACHMENT == ImageUsage::TRANSIENT_ATTACHMENT
            &&& (forall|u: int|
                0 <= u < hist.len() && (#[trigger] hist[u]).0.0 == r ==> hist[u].1.image_usage() & m == 0) && (
            img.memoryless ==> ImageUsage::TRANSIENT_ATTACHMENT & m == 0) ==> img.usage & m == 0
        },
{
    assert(crate::gfx::graph::images::accessed(hist, r));
    let u = usage_of(hist, r);
    lemma_or_covers(u, ImageUsage::TRANSIENT_ATTACHMENT, ImageUsage::TRANSIENT_ATTACHMENT);
    if forall|v: int| 0 <= v < hist.len() && (#[trigger] hist[v]).0.0 == r ==> hist[v].1.image_usage() & m == 0 {
        lemma_usage_only_declared(hist, r, m);
        lemma_or_misses(u, ImageUsage::TRANSIENT_ATTACHMENT, m);
    }
}

/// In a compiled graph, every transient image a scheduled pass touches is
/// allocated with every usage that pass declares for it.
pub proof fn lemma_compiled_images_cover_accesses(b: GraphBuilder, g: FrameGraph, sched: Seq<PassId>, i: int, k: int)
    requires
        b.wf(),
        compiled_from(b, g, sched),
        0 <= i < g.schedule().len(),
        0 <= k < b.passes@[g.schedule()[i].0 as int].accesses@.len(),
        b.resources@[b.passes@[g.schedule()[i].0 as int].accesses@[k].0.0 as int].kind is Transient,
    ensures
        ({
            let access = b.passes@[g.schedule()[i].0 as int].accesses@[k];
            g.image_plan()[access.0.0 as int] matches Some(img) && img.usage & access.1.image_usage()
                == access.1.image_usage()
        }),
{
    let passes = b.passes@;
    let resources = b.resources@;
    let live = g.schedule();
    let access = passes[live[i].0 as int].accesses@[k];
    let r = access.0.0 as int;
    let hist = scheduled_accesses(live, passes, live.len() as int);
    lemma_scheduled_includes(live, passes, live.len() as int, i, k);
    let t = choose|t: int| 0 <= t < hist.len() && #[trigger] hist[t] == access;
    lemma_kahn_distinct(passes, sched);
    assert(live == partition_live(sched, passes, resources, sched.len() as int).0);
    lemma_live_member(sched, passes, resources, sched.len() as int, i);
    assert(live[i].0 < passes.len());
    assert(r < resources.len());
    assert(g.image_plan()[r] == image_for(resources[r], r, hist));
    lemma_transient_usage_covers_accesses(resources[r], r, hist, t);
}

} // verus!
