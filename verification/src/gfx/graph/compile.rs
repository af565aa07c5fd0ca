//! Compiling a declared frame: check the declarations, order the passes, cull
//! what nothing observes, derive the barriers, and size the owned images.

use vstd::prelude::*;

use super::access::Access;
use super::builder::{duplicate_pass_at, duplicate_resource_at, ids_in_range, GraphBuilder, PassDecl, PassId, PassKind};
use super::checks::{
    check_compute_attachments, check_raw_passes_last, check_single_access_per_resource,
    compute_attachment_at, conflict_at, first_conflict, recorded_after_raw, first_recorded_after_raw,
};
use super::cull::{cull, partition_live};
use super::error::GraphError;
use super::images::{derive_images, image_for, TransientImage};
use super::plan::{
    barriers_for, derive_barriers, final_barriers_upto, first_read_before_write, read_before_write_at,
    scheduled_accesses, Barrier,
};
use super::resource::{ResourceDecl, ResourceId};
use super::schedule::{ids_below, is_ready, kahn_prefix, kahn_schedule, placed, topological_order, unscheduled_names};

verus! {

/// A compiled frame: passes in execution order, the barriers before each,
/// the closing barriers, the culled passes, and the images the graph owns.
pub struct FrameGraph {
    resources: Vec<ResourceDecl>,
    passes: Vec<PassDecl>,
    order: Vec<PassId>,
    /// Parallel to `order`: what must be recorded before that pass runs.
    barriers: Vec<Vec<Barrier>>,
    final_barriers: Vec<Barrier>,
    culled: Vec<PassId>,
    /// Indexed by resource; `None` for imports, buffers, and untouched images.
    images: Vec<Option<TransientImage>>,
}

impl FrameGraph {
    #[verifier::type_invariant]
    closed spec fn consistent(&self) -> bool {
        &&& self.barriers@.len() == self.order@.len()
        &&& self.images@.len() == self.resources@.len()
        &&& self.resources@.len() <= u32::MAX
        &&& forall|i: int| 0 <= i < self.order@.len() ==> (#[trigger] self.order@[i]).0 < self.passes@.len()
        &&& forall|i: int| 0 <= i < self.culled@.len() ==> (#[trigger] self.culled@[i]).0 < self.passes@.len()
        &&& ids_in_range(self.resources@, self.passes@)
        &&& forall|i: int, j: int|
            0 <= i < self.barriers@.len() && 0 <= j < self.barriers@[i]@.len() ==> (
            #[trigger] self.barriers@[i]@[j]).resource.0 < self.resources@.len()
        &&& forall|j: int|
            0 <= j < self.final_barriers@.len() ==> (#[trigger] self.final_barriers@[j]).resource.0
                < self.resources@.len()
    }

    /// Every id the graph holds names one of its resources: what each pass
    /// declares and what each barrier guards.
    pub open spec fn names_resources(&self) -> bool {
        &&& ids_in_range(self.resource_decls(), self.pass_decls())
        &&& forall|i: int, j: int|
            0 <= i < self.barrier_plan().len() && 0 <= j < self.barrier_plan()[i].len() ==> (
            #[trigger] self.barrier_plan()[i][j]).resource.0 < self.resource_decls().len()
        &&& forall|j: int|
            0 <= j < self.closing_barriers().len() ==> (#[trigger] self.closing_barriers()[j]).resource.0
                < self.resource_decls().len()
        &&& forall|i: int| 0 <= i < self.schedule().len() ==> (#[trigger] self.schedule()[i]).0 < self.pass_decls().len()
        &&& forall|i: int| 0 <= i < self.culled_passes().len() ==> (#[trigger] self.culled_passes()[i]).0 < self.pass_decls().len()
        &&& self.barrier_plan().len() == self.schedule().len()
    }

    /// The plan as text: each scheduled pass with the barriers before it
    /// and what it declares, the closing barriers, and the culled passes.
    pub fn plan(&self) -> (r: String)
        ensures
            r@ == super::report::plan_text(*self),
    {
        proof {
            use_type_invariant(self);
            assert forall|i: int, j: int|
                0 <= i < self.barrier_plan().len() && 0 <= j < self.barrier_plan()[i].len() implies (
                #[trigger] self.barrier_plan()[i][j]).resource.0 < self.resource_decls().len() by {
                assert(self.barrier_plan()[i] == self.barriers@[i]@);
            }
        }
        super::report::write_plan(self)
    }

    pub closed spec fn resource_decls(&self) -> Seq<ResourceDecl> {
        self.resources@
    }

    pub closed spec fn pass_decls(&self) -> Seq<PassDecl> {
        self.passes@
    }

    pub closed spec fn schedule(&self) -> Seq<PassId> {
        self.order@
    }

    pub closed spec fn barrier_plan(&self) -> Seq<Seq<Barrier>> {
        self.barriers@.map_values(|v: Vec<Barrier>| v@)
    }

    pub closed spec fn closing_barriers(&self) -> Seq<Barrier> {
        self.final_barriers@
    }

    pub closed spec fn culled_passes(&self) -> Seq<PassId> {
        self.culled@
    }

    pub closed spec fn image_plan(&self) -> Seq<Option<TransientImage>> {
        self.images@
    }

    /// The schedule: passes in execution order.
    pub fn order(&self) -> (r: &[PassId])
        ensures
            r@ == self.schedule(),
    {
        self.order.as_slice()
    }

    /// What must be recorded before the pass in `slot` runs.
    pub fn barriers_before(&self, slot: usize) -> (r: &[Barrier])
        requires
            slot < self.schedule().len(),
        ensures
            r@ == self.barrier_plan()[slot as int],
    {
        proof {
            use_type_invariant(self);
        }
        self.barriers[slot].as_slice()
    }

    /// The barriers after the last pass that leave each import in its exit layout.
    pub fn final_barriers(&self) -> (r: &[Barrier])
        ensures
            r@ == self.closing_barriers(),
    {
        self.final_barriers.as_slice()
    }

    /// Passes whose results nothing observes, in the order they were scheduled.
    pub fn culled(&self) -> (r: &[PassId])
        ensures
            r@ == self.culled_passes(),
    {
        self.culled.as_slice()
    }

    pub fn pass_count(&self) -> (r: usize)
        ensures
            r == self.pass_decls().len(),
    {
        self.passes.len()
    }

    pub fn resource_count(&self) -> (r: usize)
        ensures
            r == self.resource_decls().len(),
    {
        self.resources.len()
    }

    pub fn pass_name(&self, pass: PassId) -> (r: &'static str)
        requires
            pass.0 < self.pass_decls().len(),
        ensures
            r == self.pass_decls()[pass.0 as int].name,
    {
        self.passes[pass.index()].name
    }

    pub fn pass_kind(&self, pass: PassId) -> (r: PassKind)
        requires
            pass.0 < self.pass_decls().len(),
        ensures
            r == self.pass_decls()[pass.0 as int].kind,
    {
        self.passes[pass.index()].kind
    }

    pub fn resource_name(&self, resource: ResourceId) -> (r: &'static str)
        requires
            resource.0 < self.resource_decls().len(),
        ensures
            r == self.resource_decls()[resource.0 as int].name,
    {
        self.resources[resource.index()].name
    }

    /// A pass's declaration: its name, kind, and accesses.
    pub fn pass(&self, pass: PassId) -> (r: &PassDecl)
        requires
            pass.0 < self.pass_decls().len(),
        ensures
            *r == self.pass_decls()[pass.0 as int],
    {
        &self.passes[pass.index()]
    }

    /// The images the executor must allocate, in declaration order.
    pub fn transient_images(&self) -> (r: Vec<(ResourceId, TransientImage)>)
        ensures
            r@ == transients(self.image_plan(), self.image_plan().len() as int),
    {
        proof {
            use_type_invariant(self);
        }
        let mut out: Vec<(ResourceId, TransientImage)> = Vec::new();
        let mut q: usize = 0;
        while q < self.images.len()
            invariant
                q <= self.images@.len(),
                self.images@.len() <= u32::MAX,
                out@ == transients(self.images@, q as int),
            decreases self.images@.len() - q,
        {
            match self.images[q] {
                Some(image) => out.push((ResourceId(q as u32), image)),
                None => {},
            }
            q += 1;
        }
        out
    }
}

/// The images among the first `upto` resources, each with its id.
pub open spec fn transients(images: Seq<Option<TransientImage>>, upto: int) -> Seq<(ResourceId, TransientImage)>
    decreases upto,
{
    if upto <= 0 {
        Seq::empty()
    } else {
        let prior = transients(images, upto - 1);
        match images[upto - 1] {
            Some(image) => prior.push((ResourceId((upto - 1) as u32), image)),
            None => prior,
        }
    }
}

/// No two resources and no two passes share a name.
pub open spec fn names_unique(b: GraphBuilder) -> bool {
    &&& forall|i: int| !duplicate_resource_at(b.resources@, i)
    &&& forall|i: int| !duplicate_pass_at(b.passes@, i)
}

/// How the naming rule rejects a graph: the first resource name that repeats an earlier
/// one, else the first such pass name.
pub open spec fn rejects_names(b: GraphBuilder, e: GraphError) -> bool {
    match e {
        GraphError::DuplicateResource { name } => exists|i: int|
            #[trigger] duplicate_resource_at(b.resources@, i) && (forall|k: int|
                0 <= k < i ==> !duplicate_resource_at(b.resources@, k)) && name == b.resources@[i].name,
        GraphError::DuplicatePass { name } => (forall|i: int| !duplicate_resource_at(b.resources@, i))
            && exists|i: int|
            #[trigger] duplicate_pass_at(b.passes@, i) && (forall|k: int|
                0 <= k < i ==> !duplicate_pass_at(b.passes@, k)) && name == b.passes@[i].name,
        _ => false,
    }
}

/// Pass `p` repeats a resource, or is a compute pass declaring an attachment.
pub open spec fn declaration_error_at(passes: Seq<PassDecl>, p: int) -> bool {
    0 <= p < passes.len() && exists|k: int|
        #![trigger passes[p].accesses@[k]]
        conflict_at(passes[p], k) || compute_attachment_at(passes[p], k)
}

pub open spec fn declarations_ok(passes: Seq<PassDecl>) -> bool {
    forall|p: int| !declaration_error_at(passes, p)
}

/// How the declaration rules reject a graph, at the first pass with a bad declaration:
/// its first repeated resource, else its first attachment in a compute pass.
pub open spec fn rejects_declarations(passes: Seq<PassDecl>, resources: Seq<ResourceDecl>, e: GraphError) -> bool {
    exists|p: int|
        #[trigger] declaration_error_at(passes, p) && (forall|p2: int| 0 <= p2 < p ==> !declaration_error_at(passes, p2))
            && match e {
            GraphError::ConflictingAccess { pass, resource, first, second } => exists|k: int, j: int|
                #[trigger] first_conflict(passes[p], k, j) && pass == passes[p].name && resource
                    == resources[passes[p].accesses@[k].0.0 as int].name && first == passes[p].accesses@[j].1
                    && second == passes[p].accesses@[k].1,
            GraphError::AttachmentInComputePass { pass, resource, access } => (forall|k: int|
                !conflict_at(passes[p], k)) && exists|k: int|
                #[trigger] compute_attachment_at(passes[p], k) && (forall|k2: int|
                    0 <= k2 < k ==> !compute_attachment_at(passes[p], k2)) && pass == passes[p].name
                    && resource == resources[passes[p].accesses@[k].0.0 as int].name && access
                    == passes[p].accesses@[k].1,
            _ => false,
        }
}

/// The schedule leaves passes out: they wait on one another. The error names
/// them in registration order.
pub open spec fn rejects_schedule(passes: Seq<PassDecl>, e: GraphError) -> bool {
    match e {
        GraphError::Cycle { passes: names } => exists|sched: Seq<PassId>|
            #[trigger] kahn_schedule(passes, sched) && sched.len() < passes.len() && names@
                == unscheduled_names(passes, sched, passes.len() as int),
        _ => false,
    }
}

/// The live passes of a complete schedule, in schedule order.
pub open spec fn live_order(passes: Seq<PassDecl>, resources: Seq<ResourceDecl>, sched: Seq<PassId>) -> Seq<PassId> {
    partition_live(sched, passes, resources, sched.len() as int).0
}

pub open spec fn culled_order(passes: Seq<PassDecl>, resources: Seq<ResourceDecl>, sched: Seq<PassId>) -> Seq<PassId> {
    partition_live(sched, passes, resources, sched.len() as int).1
}

pub open spec fn raw_passes_last(live: Seq<PassId>, passes: Seq<PassDecl>) -> bool {
    forall|i: int, j: int| !recorded_after_raw(live, passes, i, j)
}

pub open spec fn rejects_raw_order(live: Seq<PassId>, passes: Seq<PassDecl>, e: GraphError) -> bool {
    match e {
        GraphError::RawPassNotLast { raw, followed_by } => exists|i: int, j: int|
            #![trigger recorded_after_raw(live, passes, i, j)]
            first_recorded_after_raw(live, passes, j) && recorded_after_raw(live, passes, i, j) && (forall|i2: int|
                i < i2 < j ==> passes[live[i2].0 as int].kind != PassKind::Raw) && raw
                == passes[live[i].0 as int].name && followed_by == passes[live[j].0 as int].name,
        _ => false,
    }
}

pub open spec fn reads_written(live: Seq<PassId>, passes: Seq<PassDecl>, resources: Seq<ResourceDecl>) -> bool {
    forall|i: int, k: int| !read_before_write_at(live, passes, resources, i, k)
}

pub open spec fn rejects_reads(live: Seq<PassId>, passes: Seq<PassDecl>, resources: Seq<ResourceDecl>, e: GraphError) -> bool {
    match e {
        GraphError::ReadBeforeWrite { pass, resource } => exists|i: int, k: int|
            #[trigger] first_read_before_write(live, passes, resources, i, k) && pass
                == passes[live[i].0 as int].name && resource
                == resources[passes[live[i].0 as int].accesses@[k].0.0 as int].name,
        _ => false,
    }
}

/// Why compiling `b` fails with `e`: the first stage that rejects the graph
/// names its first offence.
pub open spec fn compile_rejects(b: GraphBuilder, e: GraphError) -> bool {
    let passes = b.passes@;
    let resources = b.resources@;
    ||| rejects_names(b, e)
    ||| names_unique(b) && rejects_declarations(passes, resources, e)
    ||| names_unique(b) && declarations_ok(passes) && rejects_schedule(passes, e)
    ||| names_unique(b) && declarations_ok(passes) && exists|sched: Seq<PassId>|
        #[trigger] kahn_schedule(passes, sched) && sched.len() == passes.len() && ({
            let live = live_order(passes, resources, sched);
            ||| rejects_raw_order(live, passes, e)
            ||| raw_passes_last(live, passes) && rejects_reads(live, passes, resources, e)
        })
}

/// What a successful compile of `b` holds, given its complete schedule.
pub open spec fn compiled_from(b: GraphBuilder, g: FrameGraph, sched: Seq<PassId>) -> bool {
    let passes = b.passes@;
    let resources = b.resources@;
    let live = g.schedule();
    let hist = scheduled_accesses(live, passes, live.len() as int);
    &&& kahn_schedule(passes, sched)
    &&& sched.len() == passes.len()
    &&& live == live_order(passes, resources, sched)
    &&& g.culled_passes() == culled_order(passes, resources, sched)
    &&& raw_passes_last(live, passes)
    &&& reads_written(live, passes, resources)
    &&& g.resource_decls() == resources
    &&& g.pass_decls() == passes
    &&& g.barrier_plan().len() == live.len()
    &&& forall|i: int|
        0 <= i < live.len() ==> #[trigger] g.barrier_plan()[i] == barriers_for(
            resources,
            scheduled_accesses(live, passes, i),
            passes[live[i].0 as int].accesses@,
        )
    &&& g.closing_barriers() == final_barriers_upto(resources, hist, resources.len() as int)
    &&& g.image_plan().len() == resources.len()
    &&& forall|q: int| 0 <= q < resources.len() ==> #[trigger] g.image_plan()[q] == image_for(resources[q], q, hist)
}

/// In a Kahn prefix every pass appears once, and every one is a declared pass.
pub proof fn lemma_kahn_distinct(passes: Seq<PassDecl>, order: Seq<PassId>)
    requires
        kahn_prefix(passes, order),
    ensures
        forall|i: int| 0 <= i < order.len() ==> (#[trigger] order[i]).0 < passes.len(),
        forall|i: int, j: int| 0 <= i < j < order.len() ==> order[i] != order[j],
{
    assert forall|i: int, j: int| 0 <= i < j < order.len() implies order[i] != order[j] by {
        assert(is_ready(passes, order.take(j), order[j].0 as int));
        assert(order.take(j)[i] == order[i]);
        if order[i] == order[j] {
            assert(placed(order.take(j), order[j].0 as int));
        }
    }
    assert forall|i: int| 0 <= i < order.len() implies (#[trigger] order[i]).0 < passes.len() by {
        assert(is_ready(passes, order.take(i), order[i].0 as int));
    }
}

/// Both halves of the cull draw their passes from the schedule.
pub proof fn lemma_partition_members(
    order: Seq<PassId>,
    passes: Seq<PassDecl>,
    resources: Seq<ResourceDecl>,
    upto: int,
)
    requires
        0 <= upto <= order.len(),
    ensures
        forall|x: int|
            0 <= x < partition_live(order, passes, resources, upto).0.len() ==> exists|i: int|
                0 <= i < upto && order[i] == #[trigger] partition_live(order, passes, resources, upto).0[x],
        forall|x: int|
            0 <= x < partition_live(order, passes, resources, upto).1.len() ==> exists|i: int|
                0 <= i < upto && order[i] == #[trigger] partition_live(order, passes, resources, upto).1[x],
    decreases upto,
{
    if upto > 0 {
        lemma_partition_members(order, passes, resources, upto - 1);
        let prior = partition_live(order, passes, resources, upto - 1);
        let now = partition_live(order, passes, resources, upto);
        assert forall|x: int| 0 <= x < now.0.len() implies exists|i: int|
            0 <= i < upto && order[i] == #[trigger] now.0[x] by {
            if x < prior.0.len() {
                assert(now.0[x] == prior.0[x]);
                let i = choose|i: int| 0 <= i < upto - 1 && order[i] == #[trigger] prior.0[x];
            } else {
                assert(now.0[x] == order[upto - 1]);
            }
        }
        assert forall|x: int| 0 <= x < now.1.len() implies exists|i: int|
            0 <= i < upto && order[i] == #[trigger] now.1[x] by {
            if x < prior.1.len() {
                assert(now.1[x] == prior.1[x]);
                let i = choose|i: int| 0 <= i < upto - 1 && order[i] == #[trigger] prior.1[x];
            } else {
                assert(now.1[x] == order[upto - 1]);
            }
        }
    }
}

/// Orders the passes, derives the barriers between them, and sizes the images.
#[verifier::spinoff_prover]
#[verifier::rlimit(40)]
/// Every barrier a pass's accesses yield guards a resource one of them names.
proof fn lemma_barriers_name_accessed(
    resources: Seq<ResourceDecl>,
    before: Seq<(ResourceId, Access)>,
    accs: Seq<(ResourceId, Access)>,
    j: int,
)
    requires
        forall|k: int| 0 <= k < accs.len() ==> (#[trigger] accs[k]).0.0 < resources.len(),
        0 <= j < barriers_for(resources, before, accs).len(),
    ensures
        barriers_for(resources, before, accs)[j].resource.0 < resources.len(),
    decreases accs.len(),
{
    let prior = barriers_for(resources, before, accs.drop_last());
    if j < prior.len() {
        lemma_barriers_name_accessed(resources, before, accs.drop_last(), j);
    } else {
        assert(accs.last() == accs[accs.len() - 1]);
    }
}

/// The closing barriers of the resources below `upto` guard those resources.
proof fn lemma_closing_barriers_below(
    resources: Seq<ResourceDecl>,
    hist: Seq<(ResourceId, Access)>,
    upto: int,
    j: int,
)
    requires
        upto <= resources.len() <= u32::MAX,
        0 <= j < final_barriers_upto(resources, hist, upto).len(),
    ensures
        final_barriers_upto(resources, hist, upto)[j].resource.0 < upto,
    decreases upto,
{
    if upto > 0 {
        let prior = final_barriers_upto(resources, hist, upto - 1);
        if j < prior.len() {
            lemma_closing_barriers_below(resources, hist, upto - 1, j);
        }
    }
}

pub fn compile(builder: GraphBuilder) -> (r: Result<FrameGraph, GraphError>)
    requires
        builder.wf(),
    ensures
        r matches Ok(g) ==> names_unique(builder) && declarations_ok(builder.passes@) && exists|
            sched: Seq<PassId>,
        | #[trigger] compiled_from(builder, g, sched),
        r matches Err(e) ==> compile_rejects(builder, e),
{
    let ghost b = builder;
    match builder.validate_names() {
        Ok(()) => {},
        Err(e) => {
            return Err(e);
        },
    }
    let GraphBuilder { resources, passes } = builder;
    assert(resources@ == b.resources@ && passes@ == b.passes@);

    let mut p: usize = 0;
    while p < passes.len()
        invariant
            passes@ == b.passes@,
            resources@ == b.resources@,
            b.wf(),
            b == builder,
            names_unique(b),
            p <= passes@.len(),
            forall|p2: int| 0 <= p2 < p ==> !declaration_error_at(passes@, p2),
        decreases passes@.len() - p,
    {
        let pass = &passes[p];
        proof {
            assert forall|k: int| 0 <= k < pass.accesses@.len() implies (#[trigger] pass.accesses@[k]).0.0 < resources@.len() by {
                assert(passes@[p as int].accesses@[k] == pass.accesses@[k]);
            }
        }
        match check_single_access_per_resource(pass, resources.as_slice()) {
            Ok(()) => {},
            Err(e) => {
                proof {
                    let (k, j) = choose|k: int, j: int| #[trigger] first_conflict(*pass, k, j);
                    assert(first_conflict(passes@[p as int], k, j));
                    assert(conflict_at(passes@[p as int], k));
                    assert(passes@[p as int].accesses@[k] == pass.accesses@[k]);
                    assert(declaration_error_at(passes@, p as int));
                    assert(rejects_declarations(passes@, resources@, e));
                    assert(names_unique(b));
                    assert(compile_rejects(b, e));
                }
                return Err(e);
            },
        }
        match check_compute_attachments(pass, resources.as_slice()) {
            Ok(()) => {},
            Err(e) => {
                proof {
                    let k = choose|k: int| #[trigger] compute_attachment_at(*pass, k) && (forall|k2: int|
                        0 <= k2 < k ==> !compute_attachment_at(*pass, k2));
                    assert(compute_attachment_at(passes@[p as int], k));
                    assert(passes@[p as int].accesses@[k] == pass.accesses@[k]);
                    assert(declaration_error_at(passes@, p as int));
                    assert(rejects_declarations(passes@, resources@, e));
                }
                return Err(e);
            },
        }
        proof {
            assert(!declaration_error_at(passes@, p as int));
        }
        p += 1;
    }

    proof {
        assert(ids_below(passes@, u32::MAX as int));
        assert(declarations_ok(passes@));
    }
    let sched = match topological_order(passes.as_slice()) {
        Ok(order) => order,
        Err(e) => {
            return Err(e);
        },
    };
    let ghost sched_view = sched@;
    proof {
        lemma_kahn_distinct(passes@, sched@);
    }
    let (live, culled) = cull(sched, passes.as_slice(), resources.as_slice());
    proof {
        lemma_partition_members(sched_view, passes@, resources@, sched_view.len() as int);
        assert forall|i: int| 0 <= i < live@.len() implies (#[trigger] live@[i]).0 < passes@.len() by {
            let j = choose|j: int| 0 <= j < sched_view.len() && sched_view[j] == #[trigger] partition_live(sched_view, passes@, resources@, sched_view.len() as int).0[i];
        }
        assert forall|i: int| 0 <= i < culled@.len() implies (#[trigger] culled@[i]).0 < passes@.len() by {
            let j = choose|j: int| 0 <= j < sched_view.len() && sched_view[j] == #[trigger] partition_live(sched_view, passes@, resources@, sched_view.len() as int).1[i];
        }
        assert(live@ == live_order(passes@, resources@, sched_view));
    }
    match check_raw_passes_last(live.as_slice(), passes.as_slice()) {
        Ok(()) => {},
        Err(e) => {
            proof {
                assert(rejects_raw_order(live@, passes@, e));
                assert(compile_rejects(b, e));
            }
            return Err(e);
        },
    }
    let (barriers, final_barriers) = match derive_barriers(live.as_slice(), passes.as_slice(), resources.as_slice()) {
        Ok(plan) => plan,
        Err(e) => {
            proof {
                assert(rejects_reads(live@, passes@, resources@, e));
                assert(compile_rejects(b, e));
            }
            return Err(e);
        },
    };
    let images = derive_images(live.as_slice(), passes.as_slice(), resources.as_slice());
    proof {
        let hist = scheduled_accesses(live@, passes@, live@.len() as int);
        assert forall|i: int, j: int|
            0 <= i < barriers@.len() && 0 <= j < barriers@[i]@.len() implies (
            #[trigger] barriers@[i]@[j]).resource.0 < resources@.len() by {
            lemma_barriers_name_accessed(resources@, scheduled_accesses(live@, passes@, i), passes@[live@[i].0 as int].accesses@, j);
        }
        assert forall|j: int|
            0 <= j < final_barriers@.len() implies (#[trigger] final_barriers@[j]).resource.0 < resources@.len() by {
            lemma_closing_barriers_below(resources@, hist, resources@.len() as int, j);
        }
    }
    let g = FrameGraph { resources, passes, order: live, barriers, final_barriers, culled, images };
    proof {
        assert(g.barrier_plan().len() == g.schedule().len());
        assert(compiled_from(b, g, sched_view));
        assert(b == builder);
        assert(compiled_from(builder, g, sched_view));
        assert(names_unique(builder));
        assert(declarations_ok(builder.passes@));
        assert(exists|sched: Seq<PassId>| #[trigger] compiled_from(builder, g, sched));
    }
    let r: Result<FrameGraph, GraphError> = Ok(g);
    proof {
        assert(r->Ok_0 == g);
        assert(compiled_from(builder, r->Ok_0, sched_view));
    }
    r
}

} // verus!
