//! Execution order: the edges data flow implies, and the schedule Kahn's
//! algorithm takes over them, lowest-numbered ready pass first.

use vstd::prelude::*;

use super::builder::{PassDecl, PassId};
use super::error::GraphError;

verus! {

/// Pass `pass` declares an access to resource `r` that writes (`write`) or
/// only reads it.
pub open spec fn touches(pass: PassDecl, r: int, write: bool) -> bool {
    exists|k: int|
        0 <= k < pass.accesses@.len() && (#[trigger] pass.accesses@[k]).0.0 == r
            && pass.accesses@[k].1.is_write() == write
}

pub open spec fn writes(passes: Seq<PassDecl>, a: int, r: int) -> bool {
    0 <= a < passes.len() && touches(passes[a], r, true)
}

pub open spec fn reads(passes: Seq<PassDecl>, b: int, r: int) -> bool {
    0 <= b < passes.len() && touches(passes[b], r, false)
}

/// `b` is the first pass registered after `a` that writes `r`, which `a` writes too.
pub open spec fn next_writer(passes: Seq<PassDecl>, r: int, a: int, b: int) -> bool {
    &&& a < b
    &&& writes(passes, a, r)
    &&& writes(passes, b, r)
    &&& forall|c: int| a < c < b ==> !writes(passes, c, r)
}

/// Resource `r` orders `b` after `a`: `b` is the next writer of what `a`
/// writes, or reads what `a` writes.
pub open spec fn depends_via(passes: Seq<PassDecl>, r: int, a: int, b: int) -> bool {
    next_writer(passes, r, a, b) || (writes(passes, a, r) && reads(passes, b, r))
}

/// Some resource below `resource_count` orders `b` after `a`.
pub open spec fn depends_below(passes: Seq<PassDecl>, resource_count: int, a: int, b: int) -> bool {
    exists|r: int| 0 <= r < resource_count && #[trigger] depends_via(passes, r, a, b)
}

/// Some resource orders `b` after `a`: every reader of a resource runs after
/// every writer of it, and its writers run in registration order.
pub open spec fn depends(passes: Seq<PassDecl>, a: int, b: int) -> bool {
    exists|r: int| 0 <= r && #[trigger] depends_via(passes, r, a, b)
}

/// Every access names a resource below `bound`.
pub open spec fn ids_below(passes: Seq<PassDecl>, bound: int) -> bool {
    forall|p: int, k: int|
        0 <= p < passes.len() && 0 <= k < passes[p].accesses@.len() ==> (
        #[trigger] passes[p].accesses@[k]).0.0 < bound
}

/// Whether `pass` declares an access to `r` that writes (`write`) or reads it.
pub fn touches_exec(pass: &PassDecl, r: usize, write: bool) -> (b: bool)
    ensures
        b == touches(*pass, r as int, write),
{
    let mut k: usize = 0;
    while k < pass.accesses.len()
        invariant
            k <= pass.accesses@.len(),
            forall|j: int|
                0 <= j < k ==> !((pass.accesses@[j]).0.0 == r && pass.accesses@[j].1.is_write()
                    == write),
        decreases pass.accesses@.len() - k,
    {
        let (id, access) = pass.accesses[k];
        if id.0 as usize == r && access.is_write() == write {
            return true;
        }
        k += 1;
    }
    false
}

proof fn lemma_below_step(passes: Seq<PassDecl>, r: int, a: int, b: int)
    requires
        0 <= r,
    ensures
        depends_below(passes, r + 1, a, b) <==> (depends_below(passes, r, a, b) || depends_via(
            passes,
            r,
            a,
            b,
        )),
{
    if depends_below(passes, r + 1, a, b) {
        let w = choose|w: int| 0 <= w < r + 1 && #[trigger] depends_via(passes, w, a, b);
        if w < r {
            assert(depends_below(passes, r, a, b));
        }
    }
    if depends_below(passes, r, a, b) {
        let w = choose|w: int| 0 <= w < r && #[trigger] depends_via(passes, w, a, b);
        assert(depends_below(passes, r + 1, a, b));
    }
    if depends_via(passes, r, a, b) {
        assert(depends_below(passes, r + 1, a, b));
    }
}

/// With every resource id below `bound`, the resources at or above it order
/// nothing, so the bounded relation is the whole relation.
pub proof fn lemma_depends_bounded(passes: Seq<PassDecl>, bound: int, a: int, b: int)
    requires
        ids_below(passes, bound),
        0 <= bound,
    ensures
        depends_below(passes, bound, a, b) <==> depends(passes, a, b),
{
    if depends(passes, a, b) {
        let r = choose|r: int| 0 <= r && #[trigger] depends_via(passes, r, a, b);
        assert(writes(passes, a, r));
        let k = choose|k: int|
            0 <= k < passes[a].accesses@.len() && (#[trigger] passes[a].accesses@[k]).0.0 == r
                && passes[a].accesses@[k].1.is_write() == true;
        assert(r < bound);
        assert(depends_below(passes, bound, a, b));
    }
    if depends_below(passes, bound, a, b) {
        let r = choose|r: int| 0 <= r < bound && #[trigger] depends_via(passes, r, a, b);
        assert(depends(passes, a, b));
    }
}

/// The first pass at or after `c` that writes `r`.
pub open spec fn first_writer_from(passes: Seq<PassDecl>, r: int, c: int) -> Option<int>
    decreases passes.len() - c,
{
    if c < 0 || c >= passes.len() {
        None
    } else if writes(passes, c, r) {
        Some(c)
    } else {
        first_writer_from(passes, r, c + 1)
    }
}

/// The passes below `m` that read `r`, in registration order.
pub open spec fn readers_below(passes: Seq<PassDecl>, r: int, m: int) -> Seq<usize>
    decreases m,
{
    if m <= 0 {
        Seq::empty()
    } else {
        readers_below(passes, r, m - 1) + if reads(passes, m - 1, r) {
            seq![(m - 1) as usize]
        } else {
            Seq::empty()
        }
    }
}

/// What resource `r` adds to the row of pass `a`: when `a` writes it, the
/// next pass that writes it, then every pass that reads it.
pub open spec fn resource_edges(passes: Seq<PassDecl>, r: int, a: int) -> Seq<usize> {
    if writes(passes, a, r) {
        (match first_writer_from(passes, r, a + 1) {
            Some(c) => seq![c as usize],
            None => Seq::empty(),
        }) + readers_below(passes, r, passes.len() as int)
    } else {
        Seq::empty()
    }
}

/// The row of pass `a` over the resources below `bound`, resource by resource.
pub open spec fn edge_row(passes: Seq<PassDecl>, a: int, bound: int) -> Seq<usize>
    decreases bound,
{
    if bound <= 0 {
        Seq::empty()
    } else {
        edge_row(passes, a, bound - 1) + resource_edges(passes, bound - 1, a)
    }
}

proof fn lemma_first_writer_is_next(passes: Seq<PassDecl>, r: int, a: int, c: int)
    requires
        0 <= a < c <= passes.len(),
        forall|x: int| a < x < c ==> !writes(passes, x, r),
    ensures
        first_writer_from(passes, r, a + 1) == first_writer_from(passes, r, c),
    decreases c - a,
{
    if a + 1 < c {
        lemma_first_writer_is_next(passes, r, a + 1, c);
    }
}

/// Edges from data flow: `edges[a]` lists the passes that must run after `a`.
/// Within a row, resources come in increasing order, and for each the next
/// writer comes before the readers, readers in registration order.
pub fn dependency_edges(passes: &[PassDecl], resource_count: usize) -> (edges: Vec<Vec<usize>>)
    ensures
        edges@.len() == passes@.len(),
        forall|a: int| 0 <= a < passes@.len() ==> #[trigger] edges@[a]@ == edge_row(passes@, a, resource_count as int),
        forall|a: int, b: usize|
            0 <= a < passes@.len() ==> (#[trigger] edges@[a]@.contains(b) <==> depends_below(
                passes@,
                resource_count as int,
                a,
                b as int,
            )),
{
    let n = passes.len();
    let mut edges: Vec<Vec<usize>> = Vec::new();
    let mut a: usize = 0;
    while a < n
        invariant
            n == passes@.len(),
            a <= n,
            edges@.len() == a,
            forall|a2: int| 0 <= a2 < a ==> #[trigger] edges@[a2]@ == edge_row(passes@, a2, resource_count as int),
            forall|a2: int, b: usize|
                0 <= a2 < a ==> (#[trigger] edges@[a2]@.contains(b) <==> depends_below(
                    passes@,
                    resource_count as int,
                    a2,
                    b as int,
                )),
        decreases n - a,
    {
        let mut row: Vec<usize> = Vec::new();
        let mut r: usize = 0;
        while r < resource_count
            invariant
                n == passes@.len(),
                a < n,
                r <= resource_count,
                row@ == edge_row(passes@, a as int, r as int),
                forall|b: usize|
                    #[trigger] row@.contains(b) <==> depends_below(passes@, r as int, a as int, b as int),
            decreases resource_count - r,
        {
            let ghost before = row@;
            if touches_exec(&passes[a], r, true) {
                let mut next = a + 1;
                while next < n && !touches_exec(&passes[next], r, true)
                    invariant
                        n == passes@.len(),
                        a < next <= n,
                        forall|c: int| a < c < next ==> !writes(passes@, c, r as int),
                    decreases n - next,
                {
                    next += 1;
                }
                let ghost before_next = row@;
                proof {
                    lemma_first_writer_is_next(passes@, r as int, a as int, next as int);
                }
                if next < n {
                    row.push(next);
                }
                let ghost mid = row@;
                assert(mid == before + match first_writer_from(passes@, r as int, a + 1) {
                    Some(c) => seq![c as usize],
                    None => Seq::<usize>::empty(),
                });
                assert forall|x: usize| #[trigger] mid.contains(x) <==> (before.contains(x)
                    || next_writer(passes@, r as int, a as int, x as int)) by {
                    if next_writer(passes@, r as int, a as int, x as int) {
                        if (x as int) < (next as int) {
                            assert(!writes(passes@, x as int, r as int));
                        }
                        if (x as int) > (next as int) {
                            assert(next < n);
                            assert(writes(passes@, next as int, r as int));
                        }
                        assert(x as int == next as int);
                        assert(mid[mid.len() - 1] == x);
                    }
                    if next < n && x == next {
                        assert(next_writer(passes@, r as int, a as int, x as int));
                        assert(mid[mid.len() - 1] == x);
                    }
                    if mid.contains(x) {
                        let i = choose|i: int| 0 <= i < mid.len() && mid[i] == x;
                        if i < before.len() {
                            assert(before[i] == x);
                        }
                    }
                    if before.contains(x) {
                        let i = choose|i: int| 0 <= i < before.len() && before[i] == x;
                        assert(mid[i] == x);
                    }
                }
                let mut b2: usize = 0;
                while b2 < n
                    invariant
                        n == passes@.len(),
                        b2 <= n,
                        row@ == mid + readers_below(passes@, r as int, b2 as int),
                        forall|x: usize|
                            #[trigger] row@.contains(x) <==> (mid.contains(x) || (x < b2 && reads(
                                passes@,
                                x as int,
                                r as int,
                            ))),
                    decreases n - b2,
                {
                    let ghost prev = row@;
                    if touches_exec(&passes[b2], r, false) {
                        row.push(b2);
                        assert(row@ == mid + readers_below(passes@, r as int, b2 + 1));
                        assert forall|x: usize|
                            #[trigger] row@.contains(x) <==> (prev.contains(x) || x == b2) by {
                            if row@.contains(x) {
                                let i = choose|i: int| 0 <= i < row@.len() && row@[i] == x;
                                if i < prev.len() {
                                    assert(prev[i] == x);
                                }
                            }
                            if prev.contains(x) {
                                let i = choose|i: int| 0 <= i < prev.len() && prev[i] == x;
                                assert(row@[i] == x);
                            }
                            if x == b2 {
                                assert(row@[row@.len() - 1] == x);
                            }
                        }
                    }
                    b2 += 1;
                }
                assert forall|x: usize| #[trigger] row@.contains(x) <==> (before.contains(x)
                    || depends_via(passes@, r as int, a as int, x as int)) by {
                    assert(mid.contains(x) <==> (before.contains(x) || next_writer(
                        passes@,
                        r as int,
                        a as int,
                        x as int,
                    )));
                }
                assert(row@ == edge_row(passes@, a as int, r + 1));
            } else {
                assert(!writes(passes@, a as int, r as int));
                assert(row@ == edge_row(passes@, a as int, r + 1));
            }
            proof {
                assert forall|b: usize|
                    #[trigger] row@.contains(b) <==> depends_below(
                        passes@,
                        r + 1,
                        a as int,
                        b as int,
                    ) by {
                    lemma_below_step(passes@, r as int, a as int, b as int);
                }
            }
            r += 1;
        }
        edges.push(row);
        a += 1;
    }
    edges
}


/// The largest resource id any pass names, plus one; zero when nothing is
/// accessed.
pub fn max_resource(passes: &[PassDecl]) -> (r: usize)
    requires
        ids_below(passes@, u32::MAX as int),
    ensures
        ids_below(passes@, r as int),
        r == 0 || exists|p: int, k: int|
            0 <= p < passes@.len() && 0 <= k < passes@[p].accesses@.len() && (
            #[trigger] passes@[p].accesses@[k]).0.0 + 1 == r,
{
    let mut best: usize = 0;
    let mut p: usize = 0;
    while p < passes.len()
        invariant
            ids_below(passes@, u32::MAX as int),
            p <= passes@.len(),
            forall|p2: int, k: int|
                0 <= p2 < p && 0 <= k < passes@[p2].accesses@.len() ==> (
                #[trigger] passes@[p2].accesses@[k]).0.0 < best,
            best == 0 || exists|p2: int, k: int|
                0 <= p2 < passes@.len() && 0 <= k < passes@[p2].accesses@.len() && (
                #[trigger] passes@[p2].accesses@[k]).0.0 + 1 == best,
        decreases passes@.len() - p,
    {
        let mut k: usize = 0;
        while k < passes[p].accesses.len()
            invariant
                ids_below(passes@, u32::MAX as int),
                p < passes@.len(),
                k <= passes@[p as int].accesses@.len(),
                forall|p2: int, k2: int|
                    0 <= p2 < p && 0 <= k2 < passes@[p2].accesses@.len() ==> (
                    #[trigger] passes@[p2].accesses@[k2]).0.0 < best,
                forall|k2: int| 0 <= k2 < k ==> (#[trigger] passes@[p as int].accesses@[k2]).0.0 < best,
                best == 0 || exists|p2: int, k2: int|
                    0 <= p2 < passes@.len() && 0 <= k2 < passes@[p2].accesses@.len() && (
                    #[trigger] passes@[p2].accesses@[k2]).0.0 + 1 == best,
            decreases passes@[p as int].accesses@.len() - k,
        {
            let id = passes[p].accesses[k].0;
            let candidate = id.index() + 1;
            if candidate > best {
                best = candidate;
                assert(passes@[p as int].accesses@[k as int].0.0 + 1 == best);
            }
            k += 1;
        }
        p += 1;
    }
    best
}

/// Pass `v` appears in `order`.
pub open spec fn placed(order: Seq<PassId>, v: int) -> bool {
    exists|i: int| 0 <= i < order.len() && (#[trigger] order[i]).0 as int == v
}

/// Pass `v` is unscheduled, and everything it depends on is scheduled.
pub open spec fn is_ready(passes: Seq<PassDecl>, order: Seq<PassId>, v: int) -> bool {
    &&& 0 <= v < passes.len()
    &&& !placed(order, v)
    &&& forall|u: int| #[trigger] depends(passes, u, v) ==> placed(order, u)
}

/// Every step took the lowest-numbered pass that was ready.
pub open spec fn kahn_prefix(passes: Seq<PassDecl>, order: Seq<PassId>) -> bool {
    forall|i: int|
        0 <= i < order.len() ==> {
            &&& is_ready(passes, order.take(i), (#[trigger] order[i]).0 as int)
            &&& forall|v: int| 0 <= v < order[i].0 ==> !is_ready(passes, order.take(i), v)
        }
}

/// The schedule Kahn's algorithm produces: lowest ready pass first, run until
/// nothing is ready.
pub open spec fn kahn_schedule(passes: Seq<PassDecl>, order: Seq<PassId>) -> bool {
    kahn_prefix(passes, order) && forall|v: int| !is_ready(passes, order, v)
}

/// Names of the passes below `upto` that `order` leaves out, in registration order.
pub open spec fn unscheduled_names(passes: Seq<PassDecl>, order: Seq<PassId>, upto: int) -> Seq<
    &'static str,
>
    decreases upto,
{
    if upto <= 0 {
        Seq::empty()
    } else {
        let rest = unscheduled_names(passes, order, upto - 1);
        if placed(order, upto - 1) {
            rest
        } else {
            rest.push(passes[upto - 1].name)
        }
    }
}

/// How many unscheduled passes below `upto` have an edge into `v`.
pub open spec fn pending(edges: Seq<Vec<usize>>, sched: Seq<bool>, v: usize, upto: int) -> nat
    decreases upto,
{
    if upto <= 0 {
        0
    } else {
        pending(edges, sched, v, upto - 1) + if !sched[upto - 1] && edges[upto - 1]@.contains(v) {
            1nat
        } else {
            0nat
        }
    }
}

proof fn lemma_pending_zero(edges: Seq<Vec<usize>>, sched: Seq<bool>, v: usize, upto: int)
    requires
        0 <= upto,
    ensures
        pending(edges, sched, v, upto) == 0 <==> forall|u: int|
            0 <= u < upto && !sched[u] ==> !(#[trigger] edges[u])@.contains(v),
        pending(edges, sched, v, upto) <= upto,
    decreases upto,
{
    if upto > 0 {
        lemma_pending_zero(edges, sched, v, upto - 1);
    }
}

proof fn lemma_pending_flip(
    edges: Seq<Vec<usize>>,
    sched: Seq<bool>,
    x: int,
    v: usize,
    upto: int,
)
    requires
        0 <= x < sched.len(),
        !sched[x],
        0 <= upto <= sched.len(),
    ensures
        pending(edges, sched.update(x, true), v, upto) + (if x < upto && edges[x]@.contains(v) {
            1nat
        } else {
            0nat
        }) == pending(edges, sched, v, upto),
    decreases upto,
{
    if upto > 0 {
        lemma_pending_flip(edges, sched, x, v, upto - 1);
    }
}

/// Whether `t` occurs among the first `k` entries of `row`.
fn occurs_before(row: &Vec<usize>, k: usize, t: usize) -> (b: bool)
    requires
        k <= row@.len(),
    ensures
        b == row@.take(k as int).contains(t),
{
    let mut j: usize = 0;
    while j < k
        invariant
            k <= row@.len(),
            j <= k,
            forall|i: int| 0 <= i < j ==> row@[i] != t,
        decreases k - j,
    {
        if row[j] == t {
            assert(row@.take(k as int)[j as int] == t);
            return true;
        }
        j += 1;
    }
    false
}

fn contains_value(row: &Vec<usize>, t: usize) -> (b: bool)
    ensures
        b == row@.contains(t),
{
    let r = occurs_before(row, row.len(), t);
    assert(row@.take(row@.len() as int) =~= row@);
    r
}

/// Index of the smallest entry.
fn index_of_min(ready: &Vec<usize>) -> (i: usize)
    requires
        ready@.len() > 0,
    ensures
        i < ready@.len(),
        forall|j: int| 0 <= j < ready@.len() ==> ready@[i as int] <= ready@[j],
{
    let mut best: usize = 0;
    let mut j: usize = 1;
    while j < ready.len()
        invariant
            0 < ready@.len(),
            best < ready@.len(),
            1 <= j <= ready@.len(),
            forall|k: int| 0 <= k < j ==> ready@[best as int] <= ready@[k],
        decreases ready@.len() - j,
    {
        if ready[j] < ready[best] {
            best = j;
        }
        j += 1;
    }
    best
}



proof fn lemma_kahn_extend(passes: Seq<PassDecl>, order: Seq<PassId>, x: PassId)
    requires
        kahn_prefix(passes, order),
        is_ready(passes, order, x.0 as int),
        forall|v: int| 0 <= v < x.0 ==> !is_ready(passes, order, v),
    ensures
        kahn_prefix(passes, order.push(x)),
{
    let next = order.push(x);
    assert forall|i: int| 0 <= i < next.len() implies {
        &&& is_ready(passes, next.take(i), (#[trigger] next[i]).0 as int)
        &&& forall|v: int| 0 <= v < next[i].0 ==> !is_ready(passes, next.take(i), v)
    } by {
        if i < order.len() {
            assert(next.take(i) =~= order.take(i));
            assert(next[i] == order[i]);
        } else {
            assert(next.take(i) =~= order);
        }
    }
}

/// In a Kahn prefix whose last pass is `x`, placed there for the first time,
/// nothing that depends on `x` is placed.
proof fn lemma_successor_unplaced(passes: Seq<PassDecl>, order: Seq<PassId>, t: int)
    requires
        kahn_prefix(passes, order),
        order.len() >= 1,
        !placed(order.drop_last(), order.last().0 as int),
        depends(passes, order.last().0 as int, t),
    ensures
        !placed(order, t),
{
    let x = order.last().0 as int;
    if placed(order, t) {
        let i = choose|i: int| 0 <= i < order.len() && (#[trigger] order[i]).0 as int == t;
        assert(is_ready(passes, order.take(i), order[i].0 as int));
        assert(placed(order.take(i), x));
        let j = choose|j: int| 0 <= j < order.take(i).len() && (#[trigger] order.take(i)[j]).0 as int == x;
        assert(order.drop_last()[j] == order[j]);
        assert(placed(order.drop_last(), x));
    }
}

/// Kahn's algorithm over the data-flow edges, taking the lowest-numbered ready
/// pass at each step, so the schedule is the same on every run.
pub fn topological_order(passes: &[PassDecl]) -> (r: Result<Vec<PassId>, GraphError>)
    requires
        ids_below(passes@, u32::MAX as int),
        passes@.len() <= u32::MAX,
    ensures
        match r {
            Ok(order) => kahn_schedule(passes@, order@) && order@.len() == passes@.len(),
            Err(GraphError::Cycle { passes: names }) => exists|order: Seq<PassId>|
                kahn_schedule(passes@, order) && order.len() < passes@.len() && names@
                    == unscheduled_names(passes@, order, passes@.len() as int),
            Err(_) => false,
        },
{
    let n = passes.len();
    let rc = max_resource(passes);
    let edges = dependency_edges(passes, rc);
    proof {
        assert forall|a: int, b: usize| 0 <= a < n implies (#[trigger] edges@[a]@.contains(b)
            <==> depends(passes@, a, b as int)) by {
            lemma_depends_bounded(passes@, rc as int, a, b as int);
        }
        assert forall|a: int, b: int| #[trigger] depends(passes@, a, b) implies 0 <= a < n && 0
            <= b < n by {
            let r = choose|r: int| 0 <= r && #[trigger] depends_via(passes@, r, a, b);
        }
    }

    let mut sched: Vec<bool> = Vec::new();
    let mut indegree: Vec<usize> = Vec::new();
    let mut v: usize = 0;
    while v < n
        invariant
            n == passes@.len(),
            edges@.len() == n,
            v <= n,
            sched@.len() == v,
            indegree@.len() == v,
            forall|w: int| 0 <= w < v ==> !sched@[w],
            forall|w: int|
                0 <= w < v ==> indegree@[w] == pending(edges@, Seq::new(n as nat, |i: int| false), w as usize, n as int),
        decreases n - v,
    {
        let mut count: usize = 0;
        let mut u: usize = 0;
        while u < n
            invariant
                n == passes@.len(),
                edges@.len() == n,
                u <= n,
                v < n,
                count == pending(edges@, Seq::new(n as nat, |i: int| false), v, u as int),
            decreases n - u,
        {
            proof {
                lemma_pending_zero(edges@, Seq::new(n as nat, |i: int| false), v, u as int);
            }
            if contains_value(&edges[u], v) {
                count += 1;
            }
            u += 1;
        }
        sched.push(false);
        indegree.push(count);
        v += 1;
    }
    assert(sched@ =~= Seq::new(n as nat, |i: int| false));

    let mut ready: Vec<usize> = Vec::new();
    let mut v: usize = 0;
    while v < n
        invariant
            n == passes@.len(),
            v <= n,
            sched@.len() == n,
            indegree@.len() == n,
            forall|w: int| 0 <= w < n ==> !sched@[w],
            ready@.no_duplicates(),
            forall|i: int| 0 <= i < ready@.len() ==> ready@[i] < v,
            forall|w: usize|
                w < v ==> (#[trigger] ready@.contains(w) <==> (!sched@[w as int] && indegree@[w as int] == 0)),
        decreases n - v,
    {
        let ghost before = ready@;
        if indegree[v] == 0 {
            ready.push(v);
            proof {
                assert forall|w: usize| #[trigger] ready@.contains(w) <==> (before.contains(w) || w
                    == v) by {
                    if ready@.contains(w) {
                        let i = choose|i: int| 0 <= i < ready@.len() && ready@[i] == w;
                        if i < before.len() {
                            assert(before[i] == w);
                        }
                    }
                    if before.contains(w) {
                        let i = choose|i: int| 0 <= i < before.len() && before[i] == w;
                        assert(ready@[i] == w);
                    }
                    if w == v {
                        assert(ready@[ready@.len() - 1] == w);
                    }
                }
            }
        }
        v += 1;
    }

    let mut order: Vec<PassId> = Vec::new();
    let ghost mut placed_set: Set<int> = Set::empty();
    proof {
        vstd::set_lib::lemma_int_range(0, n as int);
    }
    while ready.len() > 0
        invariant
            n == passes@.len(),
            n <= u32::MAX,
            edges@.len() == n,
            forall|a: int, b: usize| 0 <= a < n ==> (#[trigger] edges@[a]@.contains(b) <==> depends(passes@, a, b as int)),
            forall|a: int, b: int| #[trigger] depends(passes@, a, b) ==> 0 <= a < n && 0 <= b < n,
            sched@.len() == n,
            indegree@.len() == n,
            forall|w: int| 0 <= w < n ==> (sched@[w] <==> placed(order@, w)),
            forall|i: int| 0 <= i < order@.len() ==> (#[trigger] order@[i]).0 < n,
            placed_set.finite(),
            placed_set.len() == order@.len(),
            placed_set.subset_of(vstd::set_lib::set_int_range(0, n as int)),
            forall|w: int| placed_set.contains(w) <==> placed(order@, w),
            vstd::set_lib::set_int_range(0, n as int).finite(),
            vstd::set_lib::set_int_range(0, n as int).len() == n,
            forall|w: int| 0 <= w < n ==> indegree@[w] == pending(edges@, sched@, w as usize, n as int),
            ready@.no_duplicates(),
            forall|i: int| 0 <= i < ready@.len() ==> ready@[i] < n,
            forall|w: usize|
                w < n ==> (#[trigger] ready@.contains(w) <==> (!sched@[w as int] && indegree@[w as int] == 0)),
            kahn_prefix(passes@, order@),
        decreases n - order@.len(),
    {
        proof {
            vstd::set_lib::lemma_len_subset(placed_set, vstd::set_lib::set_int_range(0, n as int));
        }
        let at = index_of_min(&ready);
        let ghost ready_before = ready@;
        let x = ready.remove(at);
        let ghost old_order = order@;
        let ghost old_sched = sched@;
        proof {
            assert(ready_before[at as int] == x);
            assert(ready_before.contains(x));
            lemma_pending_zero(edges@, sched@, x, n as int);
            // `x` is ready, and nothing below it is.
            assert forall|u: int| #[trigger] depends(passes@, u, x as int) implies placed(old_order, u) by {
                assert(edges@[u]@.contains(x));
            }
            assert(is_ready(passes@, old_order, x as int));
            assert forall|w: int| 0 <= w < x implies !is_ready(passes@, old_order, w) by {
                if is_ready(passes@, old_order, w) {
                    lemma_pending_zero(edges@, sched@, w as usize, n as int);
                    assert(ready_before.contains(w as usize));
                    let j = choose|j: int| 0 <= j < ready_before.len() && ready_before[j] == w as usize;
                    assert(ready_before[at as int] <= ready_before[j]);
                }
            }
        }

        let ghost old_sched = sched@;
        let ghost x_id = PassId(x as u32);
        proof {
            lemma_kahn_extend(passes@, old_order, x_id);
        }
        sched.set(x, true);
        order.push(PassId(x as u32));
        proof {
            assert(order@ =~= old_order.push(x_id));
            assert(order@.drop_last() =~= old_order);
            assert forall|w: int| placed(order@, w) <==> (placed(old_order, w) || w == x) by {
                if placed(order@, w) {
                    let i = choose|i: int| 0 <= i < order@.len() && (#[trigger] order@[i]).0 as int == w;
                    if i < old_order.len() {
                        assert(old_order[i] == order@[i]);
                    }
                }
                if placed(old_order, w) {
                    let i = choose|i: int| 0 <= i < old_order.len() && (#[trigger] old_order[i]).0 as int == w;
                    assert(order@[i] == old_order[i]);
                }
                if w == x {
                    assert(order@[order@.len() - 1].0 as int == w);
                }
            }
            assert(!placed_set.contains(x as int));
            placed_set = placed_set.insert(x as int);
            assert forall|i: int, j: int| 0 <= i < ready@.len() && 0 <= j < ready@.len() && i != j
                implies ready@[i] != ready@[j] by {
                let i2 = if i < at { i } else { i + 1 };
                let j2 = if j < at { j } else { j + 1 };
                assert(ready@[i] == ready_before[i2]);
                assert(ready@[j] == ready_before[j2]);
            }
            assert forall|w: int| 0 <= w < n implies indegree@[w] == pending(edges@, sched@, w as usize, n as int)
                + (if edges@[x as int]@.contains(w as usize) && !edges@[x as int]@.take(0).contains(w as usize) {
                1nat
            } else {
                0nat
            }) by {
                lemma_pending_flip(edges@, old_sched, x as int, w as usize, n as int);
                assert(sched@ =~= old_sched.update(x as int, true));
            }
            assert forall|w: usize| w < n implies (#[trigger] ready@.contains(w) <==> (!sched@[w as int]
                && indegree@[w as int] == 0)) by {
                if ready@.contains(w) {
                    let i = choose|i: int| 0 <= i < ready@.len() && ready@[i] == w;
                    if i < at {
                        assert(ready_before[i] == w);
                    } else {
                        assert(ready_before[i + 1] == w);
                    }
                    if w == x {
                        assert(ready_before[at as int] == x);
                    }
                }
                if w != x && ready_before.contains(w) {
                    let i = choose|i: int| 0 <= i < ready_before.len() && ready_before[i] == w;
                    if i < at {
                        assert(ready@[i] == w);
                    } else {
                        assert(i != at);
                        assert(ready@[i - 1] == w);
                    }
                }
            }
        }
        let mut k: usize = 0;
        while k < edges[x].len()
            invariant
                n == passes@.len(),
                n <= u32::MAX,
                x < n,
                edges@.len() == n,
                forall|a: int, b: usize| 0 <= a < n ==> (#[trigger] edges@[a]@.contains(b) <==> depends(passes@, a, b as int)),
                forall|a: int, b: int| #[trigger] depends(passes@, a, b) ==> 0 <= a < n && 0 <= b < n,
                sched@.len() == n,
                indegree@.len() == n,
                forall|w: int| 0 <= w < n ==> (sched@[w] <==> placed(order@, w)),
                order@.len() >= 1,
                order@.last().0 == x,
                !placed(order@.drop_last(), x as int),
                kahn_prefix(passes@, order@),
                k <= edges@[x as int]@.len(),
                forall|w: int| 0 <= w < n ==> indegree@[w] == pending(edges@, sched@, w as usize, n as int)
                    + (if edges@[x as int]@.contains(w as usize) && !edges@[x as int]@.take(k as int).contains(w as usize) {
                    1nat
                } else {
                    0nat
                }),
                ready@.no_duplicates(),
                forall|i: int| 0 <= i < ready@.len() ==> ready@[i] < n,
                forall|w: usize|
                    w < n ==> (#[trigger] ready@.contains(w) <==> (!sched@[w as int] && indegree@[w as int] == 0)),
            decreases edges@[x as int]@.len() - k,
        {
            let t = edges[x][k];
            let ghost row = edges@[x as int]@;
            proof {
                assert(row.contains(t));
                assert(row.take(k as int + 1) =~= row.take(k as int).push(t));
                assert forall|w: usize| #[trigger] row.take(k as int + 1).contains(w) <==> (row.take(k as int).contains(w) || w == t) by {
                    let a = row.take(k as int);
                    let b = row.take(k as int + 1);
                    if b.contains(w) {
                        let i = choose|i: int| 0 <= i < b.len() && b[i] == w;
                        if i < a.len() {
                            assert(a[i] == w);
                        }
                    }
                    if a.contains(w) {
                        let i = choose|i: int| 0 <= i < a.len() && a[i] == w;
                        assert(b[i] == w);
                    }
                    if w == t {
                        assert(b[k as int] == w);
                    }
                }
            }
            if !occurs_before(&edges[x], k, t) {
                proof {
                    assert(depends(passes@, x as int, t as int));
                    lemma_successor_unplaced(passes@, order@, t as int);
                    lemma_pending_zero(edges@, sched@, t, n as int);
                }
                let ghost ready_mid = ready@;
                assert(!ready_mid.contains(t));
                let d = indegree[t] - 1;
                indegree.set(t, d);
                if d == 0 {
                    ready.push(t);
                    proof {
                        assert forall|i: int, j: int| 0 <= i < ready@.len() && 0 <= j < ready@.len() && i != j
                            implies ready@[i] != ready@[j] by {
                            if i < ready_mid.len() && j < ready_mid.len() {
                                assert(ready_mid[i] == ready@[i] && ready_mid[j] == ready@[j]);
                            } else if i < ready_mid.len() {
                                assert(ready_mid[i] == ready@[i]);
                                assert(ready_mid.contains(ready@[i]));
                            } else {
                                assert(ready_mid[j] == ready@[j]);
                                assert(ready_mid.contains(ready@[j]));
                            }
                        }
                        assert forall|w: usize| #[trigger] ready@.contains(w) <==> (ready_mid.contains(w) || w == t) by {
                            if ready@.contains(w) {
                                let i = choose|i: int| 0 <= i < ready@.len() && ready@[i] == w;
                                if i < ready_mid.len() {
                                    assert(ready_mid[i] == w);
                                }
                            }
                            if ready_mid.contains(w) {
                                let i = choose|i: int| 0 <= i < ready_mid.len() && ready_mid[i] == w;
                                assert(ready@[i] == w);
                            }
                            if w == t {
                                assert(ready@[ready@.len() - 1] == w);
                            }
                        }
                    }
                }
            }
            k += 1;
        }
        proof {
            assert(edges@[x as int]@.take(edges@[x as int]@.len() as int) =~= edges@[x as int]@);
            vstd::set_lib::lemma_len_subset(placed_set, vstd::set_lib::set_int_range(0, n as int));
        }
    }

    proof {
        assert forall|w: int| !is_ready(passes@, order@, w) by {
            if is_ready(passes@, order@, w) {
                lemma_pending_zero(edges@, sched@, w as usize, n as int);
                assert forall|u: int| 0 <= u < n && !sched@[u] implies !(#[trigger] edges@[u])@.contains(w as usize) by {
                    if edges@[u]@.contains(w as usize) {
                        assert(depends(passes@, u, w));
                    }
                }
                assert(ready@.contains(w as usize));
            }
        }
        assert(kahn_schedule(passes@, order@));
        vstd::set_lib::lemma_len_subset(placed_set, vstd::set_lib::set_int_range(0, n as int));
    }
    if order.len() != n {
        let mut names: Vec<&'static str> = Vec::new();
        let mut v: usize = 0;
        while v < n
            invariant
                n == passes@.len(),
                v <= n,
                sched@.len() == n,
                forall|w: int| 0 <= w < n ==> (sched@[w] <==> placed(order@, w)),
                names@ == unscheduled_names(passes@, order@, v as int),
            decreases n - v,
        {
            if !sched[v] {
                names.push(passes[v].name);
            }
            v += 1;
        }
        return Err(GraphError::Cycle { passes: names });
    }
    Ok(order)
}

} // verus!
