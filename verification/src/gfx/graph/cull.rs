//! Dropping passes whose results nothing observes.

use vstd::prelude::*;

use super::builder::{PassDecl, PassId};
use super::resource::ResourceDecl;

verus! {

/// Resource `r` is imported: it outlives the frame, so what is written to it
/// is observed.
pub open spec fn imported(resources: Seq<ResourceDecl>, r: int) -> bool {
    0 <= r < resources.len() && resources[r].is_imported()
}

/// `pass` writes some resource in `needed`.
pub open spec fn observed(pass: PassDecl, needed: Set<int>) -> bool {
    exists|k: int|
        0 <= k < pass.accesses@.len() && (#[trigger] pass.accesses@[k]).1.is_write() && needed.contains(
            pass.accesses@[k].0.0 as int,
        )
}

/// The resources `pass` only reads.
pub open spec fn reads_of(pass: PassDecl) -> Set<int> {
    Set::new(
        |r: int|
            exists|k: int|
                0 <= k < pass.accesses@.len() && (#[trigger] pass.accesses@[k]).0.0 == r
                    && !pass.accesses@[k].1.is_write(),
    )
}

/// One of the first `k` accesses of `pass` reads `q`.
pub open spec fn read_below(pass: PassDecl, k: int, q: int) -> bool {
    exists|k2: int|
        0 <= k2 < k && (#[trigger] pass.accesses@[k2]).0.0 == q && !pass.accesses@[k2].1.is_write()
}

/// What the passes in slots `i..` need: every import, and everything an
/// observed pass among them reads.
pub open spec fn needed_from(
    order: Seq<PassId>,
    passes: Seq<PassDecl>,
    resources: Seq<ResourceDecl>,
    i: int,
) -> Set<int>
    decreases order.len() - i,
{
    if i < 0 || i >= order.len() {
        Set::new(|r: int| imported(resources, r))
    } else {
        let later = needed_from(order, passes, resources, i + 1);
        let pass = passes[order[i].0 as int];
        if observed(pass, later) {
            later.union(reads_of(pass))
        } else {
            later
        }
    }
}

/// The pass in slot `i` writes something a later observed pass, or the world
/// outside the frame, reads.
pub open spec fn live_slot(
    order: Seq<PassId>,
    passes: Seq<PassDecl>,
    resources: Seq<ResourceDecl>,
    i: int,
) -> bool {
    observed(passes[order[i].0 as int], needed_from(order, passes, resources, i + 1))
}

/// The slots below `upto` split into the live passes and the culled ones,
/// each in schedule order.
pub open spec fn partition_live(
    order: Seq<PassId>,
    passes: Seq<PassDecl>,
    resources: Seq<ResourceDecl>,
    upto: int,
) -> (Seq<PassId>, Seq<PassId>)
    decreases upto,
{
    if upto <= 0 {
        (Seq::empty(), Seq::empty())
    } else {
        let (live, culled) = partition_live(order, passes, resources, upto - 1);
        if live_slot(order, passes, resources, upto - 1) {
            (live.push(order[upto - 1]), culled)
        } else {
            (live, culled.push(order[upto - 1]))
        }
    }
}

/// Drops passes whose results nothing observes. One reverse sweep suffices,
/// because a consumer always follows its producer in the schedule.
pub fn cull(order: Vec<PassId>, passes: &[PassDecl], resources: &[ResourceDecl]) -> (r: (
    Vec<PassId>,
    Vec<PassId>,
))
    requires
        forall|i: int| 0 <= i < order@.len() ==> (#[trigger] order@[i]).0 < passes@.len(),
        forall|i: int, j: int| 0 <= i < j < order@.len() ==> order@[i] != order@[j],
        forall|p: int, k: int|
            0 <= p < passes@.len() && 0 <= k < passes@[p].accesses@.len() ==> (
            #[trigger] passes@[p].accesses@[k]).0.0 < resources@.len(),
    ensures
        (r.0@, r.1@) == partition_live(order@, passes@, resources@, order@.len() as int),
{
    let mut needed: Vec<bool> = Vec::new();
    let mut r: usize = 0;
    while r < resources.len()
        invariant
            r <= resources@.len(),
            needed@.len() == r,
            forall|q: int| 0 <= q < r ==> (needed@[q] <==> imported(resources@, q)),
        decreases resources@.len() - r,
    {
        needed.push(resources[r].is_imported());
        r += 1;
    }
    let mut live: Vec<bool> = Vec::new();
    let mut p: usize = 0;
    while p < passes.len()
        invariant
            p <= passes@.len(),
            live@.len() == p,
            forall|q: int| 0 <= q < p ==> !live@[q],
        decreases passes@.len() - p,
    {
        live.push(false);
        p += 1;
    }

    let n = order.len();
    let mut slot: usize = n;
    while slot > 0
        invariant
            n == order@.len(),
            slot <= n,
            forall|i: int| 0 <= i < order@.len() ==> (#[trigger] order@[i]).0 < passes@.len(),
            forall|i: int, j: int| 0 <= i < j < order@.len() ==> order@[i] != order@[j],
            forall|p: int, k: int|
                0 <= p < passes@.len() && 0 <= k < passes@[p].accesses@.len() ==> (
                #[trigger] passes@[p].accesses@[k]).0.0 < resources@.len(),
            needed@.len() == resources@.len(),
            live@.len() == passes@.len(),
            forall|q: int|
                0 <= q < resources@.len() ==> (needed@[q] <==> needed_from(
                    order@,
                    passes@,
                    resources@,
                    slot as int,
                ).contains(q)),
            forall|q: int|
                0 <= q < passes@.len() ==> (live@[q] <==> exists|j: int|
                    slot <= j < n && (#[trigger] order@[j]).0 == q && live_slot(order@, passes@, resources@, j)),
        decreases slot,
    {
        let idx = slot - 1;
        let pass_index = order[idx].index();
        let pass = &passes[pass_index];
        let ghost later = needed_from(order@, passes@, resources@, slot as int);
        assert(needed_from(order@, passes@, resources@, idx as int) == if observed(*pass, later) {
            later.union(reads_of(*pass))
        } else {
            later
        });
        let mut seen = false;
        let mut k: usize = 0;
        while k < pass.accesses.len()
            invariant
                pass_index < passes@.len(),
                *pass == passes@[pass_index as int],
                k <= pass.accesses@.len(),
                needed@.len() == resources@.len(),
                forall|k2: int| 0 <= k2 < pass.accesses@.len() ==> (#[trigger] pass.accesses@[k2]).0.0 < resources@.len(),
                forall|q: int| 0 <= q < resources@.len() ==> (needed@[q] <==> later.contains(q)),
                seen <==> exists|k2: int|
                    0 <= k2 < k && (#[trigger] pass.accesses@[k2]).1.is_write() && later.contains(
                        pass.accesses@[k2].0.0 as int,
                    ),
            decreases pass.accesses@.len() - k,
        {
            let (id, access) = pass.accesses[k];
            if access.is_write() && needed[id.index()] {
                seen = true;
            }
            k += 1;
        }
        proof {
            assert(needed_from(order@, passes@, resources@, slot as int) == later);
        }
        if seen {
            live.set(pass_index, true);
            let mut k: usize = 0;
            while k < pass.accesses.len()
                invariant
                    pass_index < passes@.len(),
                    *pass == passes@[pass_index as int],
                    k <= pass.accesses@.len(),
                    needed@.len() == resources@.len(),
                    forall|k2: int| 0 <= k2 < pass.accesses@.len() ==> (#[trigger] pass.accesses@[k2]).0.0 < resources@.len(),
                    forall|q: int|
                        0 <= q < resources@.len() ==> (needed@[q] <==> (later.contains(q) || read_below(*pass, k as int, q))),
                decreases pass.accesses@.len() - k,
            {
                let (id, access) = pass.accesses[k];
                let ghost before = needed@;
                assert(forall|q: int| 0 <= q < resources@.len() ==> (before[q] <==> (later.contains(q) || read_below(*pass, k as int, q))));
                if !access.is_write() {
                    needed.set(id.index(), true);
                }
                proof {
                    assert forall|q: int| read_below(*pass, k as int + 1, q) <==> (read_below(*pass, k as int, q)
                        || (pass.accesses@[k as int].0.0 == q && !pass.accesses@[k as int].1.is_write())) by {
                        if read_below(*pass, k as int + 1, q) {
                            let k2 = choose|k2: int| 0 <= k2 < k + 1 && (#[trigger] pass.accesses@[k2]).0.0 == q
                                && !pass.accesses@[k2].1.is_write();
                            if k2 < k {
                                assert(read_below(*pass, k as int, q));
                            }
                        }
                        if read_below(*pass, k as int, q) {
                            let k2 = choose|k2: int| 0 <= k2 < k && (#[trigger] pass.accesses@[k2]).0.0 == q
                                && !pass.accesses@[k2].1.is_write();
                            assert(read_below(*pass, k as int + 1, q));
                        }
                        if pass.accesses@[k as int].0.0 == q && !pass.accesses@[k as int].1.is_write() {
                            assert(read_below(*pass, k as int + 1, q));
                        }
                    }
                    assert forall|q: int| 0 <= q < resources@.len() implies (needed@[q] <==> (later.contains(q)
                        || read_below(*pass, k as int + 1, q))) by {
                        if q == id.0 as int && !access.is_write() {
                            assert(needed@[q]);
                        } else {
                            assert(needed@[q] == before[q]);
                        }
                    }
                }
                k += 1;
            }
            assert(k == pass.accesses@.len());
            proof {
                let now = needed_from(order@, passes@, resources@, idx as int);
                assert(observed(*pass, later));
                assert(now == later.union(reads_of(*pass)));
                assert forall|q: int| 0 <= q < resources@.len() implies (needed@[q] <==> now.contains(q)) by {
                    assert(needed@[q] <==> (later.contains(q) || read_below(*pass, k as int, q)));
                    assert(read_below(*pass, pass.accesses@.len() as int, q) <==> reads_of(*pass).contains(q));
                }
            }
        } else {
            proof {
                let now = needed_from(order@, passes@, resources@, idx as int);
                assert(!observed(*pass, later));
                assert(now == later);
                assert forall|q: int| 0 <= q < resources@.len() implies (needed@[q] <==> now.contains(q)) by {
                    assert(needed@[q] <==> later.contains(q));
                }
            }
        }
        proof {
            assert(live_slot(order@, passes@, resources@, idx as int) == seen);
            assert forall|q: int| 0 <= q < passes@.len() implies (live@[q] <==> exists|j: int|
                idx <= j < n && (#[trigger] order@[j]).0 == q && live_slot(order@, passes@, resources@, j)) by {
                if exists|j: int| idx <= j < n && (#[trigger] order@[j]).0 == q && live_slot(order@, passes@, resources@, j) {
                    let j = choose|j: int| idx <= j < n && (#[trigger] order@[j]).0 == q && live_slot(order@, passes@, resources@, j);
                    if j == idx {
                        assert(q == pass_index);
                    }
                }
                if q == pass_index && !seen {
                    if exists|j: int| slot <= j < n && (#[trigger] order@[j]).0 == q && live_slot(order@, passes@, resources@, j) {
                        let j = choose|j: int| slot <= j < n && (#[trigger] order@[j]).0 == q && live_slot(order@, passes@, resources@, j);
                        assert(order@[j] == order@[idx as int]);
                    }
                }
            }
        }
        slot = idx;
    }

    let mut kept: Vec<PassId> = Vec::new();
    let mut culled: Vec<PassId> = Vec::new();
    let mut i: usize = 0;
    while i < n
        invariant
            n == order@.len(),
            i <= n,
            live@.len() == passes@.len(),
            forall|i2: int| 0 <= i2 < order@.len() ==> (#[trigger] order@[i2]).0 < passes@.len(),
            forall|i2: int, j: int| 0 <= i2 < j < order@.len() ==> order@[i2] != order@[j],
            forall|q: int|
                0 <= q < passes@.len() ==> (live@[q] <==> exists|j: int|
                    0 <= j < n && (#[trigger] order@[j]).0 == q && live_slot(order@, passes@, resources@, j)),
            (kept@, culled@) == partition_live(order@, passes@, resources@, i as int),
        decreases n - i,
    {
        let id = order[i];
        proof {
            if live@[id.0 as int] {
                let j = choose|j: int| 0 <= j < n && (#[trigger] order@[j]).0 == id.0 && live_slot(order@, passes@, resources@, j);
                if j != i {
                    assert(order@[j] == order@[i as int]);
                }
            }
        }
        if live[id.index()] {
            kept.push(id);
        } else {
            culled.push(id);
        }
        i += 1;
    }
    (kept, culled)
}

} // verus!
