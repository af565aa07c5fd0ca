//! Barrier derivation: each resource's synchronisation state, advanced one
//! declared access at a time in schedule order.

use vstd::prelude::*;

use super::access::Access;
use super::builder::{PassDecl, PassId};
use super::error::GraphError;
use super::flags::{contains, contains_flags, ImageLayout, PipelineStages};
use super::resource::{ResourceDecl, ResourceId};

verus! {

/// One derived dependency: what must finish, what may then start, and the
/// layout the image changes to on the way.
#[derive(Clone, Copy, PartialEq, Eq, Structural, Debug)]
pub struct Barrier {
    pub resource: ResourceId,
    pub src_stages: u64,
    pub src_access: u64,
    pub dst_stages: u64,
    pub dst_access: u64,
    /// Equal when no transition is needed, and both `Undefined` for buffers.
    pub old_layout: ImageLayout,
    pub new_layout: ImageLayout,
}

impl Barrier {
    pub fn is_transition(&self) -> (r: bool)
        ensures
            r == (self.old_layout != self.new_layout),
    {
        self.old_layout != self.new_layout
    }
}

/// What the compiler knows about one resource between two accesses.
#[derive(Clone, Copy, PartialEq, Eq, Structural, Debug)]
pub struct State {
    pub layout: ImageLayout,
    pub has_write: bool,
    pub write_stages: u64,
    pub write_access: u64,
    pub read_stages: u64,
    /// What the last write has already been made visible to. A later reader
    /// in the same layout needing no more than this needs no barrier.
    pub visible_stages: u64,
    pub visible_access: u64,
}

/// A resource at frame start: in its entry layout, unwritten, unread.
pub open spec fn initial_state(decl: ResourceDecl) -> State {
    State {
        layout: decl.entry_layout(),
        has_write: false,
        write_stages: 0,
        write_access: 0,
        read_stages: 0,
        visible_stages: 0,
        visible_access: 0,
    }
}

/// `TopOfPipe` stands in for an empty source stage set, which is not legal.
pub open spec fn nonempty_stages(stages: u64) -> u64 {
    if stages == 0 {
        PipelineStages::TOP_OF_PIPE
    } else {
        stages
    }
}

/// The layout an access leaves a resource in; buffers have none.
pub open spec fn access_layout(is_image: bool, access: Access) -> ImageLayout {
    if is_image {
        access.layout()
    } else {
        ImageLayout::Undefined
    }
}

/// The barrier one access needs: a write waits on the previous write or a
/// layout change; a read waits on a layout change, or on a write not yet made
/// visible to the stages and accesses it needs.
pub open spec fn step_barrier(state: State, is_image: bool, resource: ResourceId, access: Access) -> Option<
    Barrier,
> {
    let layout = access_layout(is_image, access);
    let transition = layout != state.layout;
    let needed = if access.is_write() {
        transition || state.has_write
    } else {
        transition || (state.has_write && !(contains_flags(state.visible_stages, access.stages())
            && contains_flags(state.visible_access, access.flags())))
    };
    if needed {
        Some(
            Barrier {
                resource,
                src_stages: nonempty_stages(state.write_stages),
                src_access: state.write_access,
                dst_stages: access.stages(),
                dst_access: access.flags(),
                old_layout: state.layout,
                new_layout: layout,
            },
        )
    } else {
        None
    }
}

/// The state after one access: a write starts a new generation; a read adds
/// its stages, and what the write is visible to restarts after a transition,
/// which is itself a write.
pub open spec fn step_state(state: State, is_image: bool, access: Access) -> State {
    let layout = access_layout(is_image, access);
    let transition = layout != state.layout;
    if access.is_write() {
        State {
            layout,
            has_write: true,
            write_stages: access.stages(),
            write_access: access.flags(),
            read_stages: 0,
            visible_stages: 0,
            visible_access: 0,
        }
    } else {
        State {
            layout,
            read_stages: state.read_stages | access.stages(),
            visible_stages: if transition {
                access.stages()
            } else {
                state.visible_stages | access.stages()
            },
            visible_access: if transition {
                access.flags()
            } else {
                state.visible_access | access.flags()
            },
            ..state
        }
    }
}

/// Advances one resource's state by one access, returning the barrier that
/// move requires, if any.
pub fn step(state: &mut State, is_image: bool, resource: ResourceId, access: Access) -> (r: Option<Barrier>)
    ensures
        r == step_barrier(*old(state), is_image, resource, access),
        *final(state) == step_state(*old(state), is_image, access),
{
    let layout = if is_image {
        access.layout()
    } else {
        ImageLayout::Undefined
    };
    let transition = layout != state.layout;
    let needed = if access.is_write() {
        transition || state.has_write
    } else {
        let already_visible = contains(state.visible_stages, access.stages()) && contains(
            state.visible_access,
            access.flags(),
        );
        transition || (state.has_write && !already_visible)
    };
    let barrier = if needed {
        Some(
            Barrier {
                resource,
                src_stages: nonempty(state.write_stages),
                src_access: state.write_access,
                dst_stages: access.stages(),
                dst_access: access.flags(),
                old_layout: state.layout,
                new_layout: layout,
            },
        )
    } else {
        None
    };
    state.layout = layout;
    if access.is_write() {
        state.has_write = true;
        state.write_stages = access.stages();
        state.write_access = access.flags();
        state.read_stages = 0;
        state.visible_stages = 0;
        state.visible_access = 0;
    } else {
        state.read_stages = state.read_stages | access.stages();
        if transition {
            state.visible_stages = access.stages();
            state.visible_access = access.flags();
        } else {
            state.visible_stages = state.visible_stages | access.stages();
            state.visible_access = state.visible_access | access.flags();
        }
    }
    barrier
}

/// `TopOfPipe` is the identity source stage: nothing has happened yet, so
/// nothing has to finish first.
pub fn nonempty(stages: u64) -> (r: u64)
    ensures
        r == nonempty_stages(stages),
{
    if stages == 0 {
        PipelineStages::TOP_OF_PIPE
    } else {
        stages
    }
}

/// Resource `r`'s state after the accesses in `hist`, in order.
pub open spec fn state_after(decl: ResourceDecl, r: int, hist: Seq<(ResourceId, Access)>) -> State
    decreases hist.len(),
{
    if hist.len() == 0 {
        initial_state(decl)
    } else {
        let prev = state_after(decl, r, hist.drop_last());
        let (id, access) = hist.last();
        if id.0 == r {
            step_state(prev, decl.is_image(), access)
        } else {
            prev
        }
    }
}

/// Every access the passes in the first `i` slots declare, in schedule order.
pub open spec fn scheduled_accesses(order: Seq<PassId>, passes: Seq<PassDecl>, i: int) -> Seq<
    (ResourceId, Access),
>
    decreases i,
{
    if i <= 0 {
        Seq::empty()
    } else {
        scheduled_accesses(order, passes, i - 1) + passes[order[i - 1].0 as int].accesses@
    }
}

/// The barriers for the accesses `accs` of one pass, given everything
/// scheduled `before` it.
pub open spec fn barriers_for(
    resources: Seq<ResourceDecl>,
    before: Seq<(ResourceId, Access)>,
    accs: Seq<(ResourceId, Access)>,
) -> Seq<Barrier>
    decreases accs.len(),
{
    if accs.len() == 0 {
        Seq::empty()
    } else {
        let prior = barriers_for(resources, before, accs.drop_last());
        let (id, access) = accs.last();
        let decl = resources[id.0 as int];
        match step_barrier(
            state_after(decl, id.0 as int, before + accs.drop_last()),
            decl.is_image(),
            id,
            access,
        ) {
            Some(b) => prior.push(b),
            None => prior,
        }
    }
}

/// Access `k` of the pass in slot `i` reads a transient that nothing has
/// written yet.
pub open spec fn read_before_write_at(
    order: Seq<PassId>,
    passes: Seq<PassDecl>,
    resources: Seq<ResourceDecl>,
    i: int,
    k: int,
) -> bool {
    let accs = passes[order[i].0 as int].accesses@;
    let before = scheduled_accesses(order, passes, i) + accs.take(k);
    let (id, access) = accs[k];
    let decl = resources[id.0 as int];
    &&& 0 <= i < order.len()
    &&& 0 <= k < accs.len()
    &&& !access.is_write()
    &&& !state_after(decl, id.0 as int, before).has_write
    &&& !decl.is_imported()
}

/// The first read before write in schedule order.
pub open spec fn first_read_before_write(
    order: Seq<PassId>,
    passes: Seq<PassDecl>,
    resources: Seq<ResourceDecl>,
    i: int,
    k: int,
) -> bool {
    &&& read_before_write_at(order, passes, resources, i, k)
    &&& forall|i2: int, k2: int|
        (i2 < i || (i2 == i && k2 < k)) ==> !read_before_write_at(order, passes, resources, i2, k2)
}

/// The barrier that leaves import `r` in the layout its owner expects.
pub open spec fn final_barrier_for(decl: ResourceDecl, r: int, hist: Seq<(ResourceId, Access)>) -> Option<
    Barrier,
> {
    match decl.exit_layout() {
        Some(exit) => {
            let s = state_after(decl, r, hist);
            if s.layout == exit {
                None
            } else {
                Some(
                    Barrier {
                        resource: ResourceId(r as u32),
                        src_stages: nonempty_stages(s.write_stages | s.read_stages),
                        src_access: s.write_access,
                        dst_stages: PipelineStages::BOTTOM_OF_PIPE,
                        dst_access: 0,
                        old_layout: s.layout,
                        new_layout: exit,
                    },
                )
            }
        },
        None => None,
    }
}

/// The closing barriers of resources below `upto`, in declaration order.
pub open spec fn final_barriers_upto(
    resources: Seq<ResourceDecl>,
    hist: Seq<(ResourceId, Access)>,
    upto: int,
) -> Seq<Barrier>
    decreases upto,
{
    if upto <= 0 {
        Seq::empty()
    } else {
        let prior = final_barriers_upto(resources, hist, upto - 1);
        match final_barrier_for(resources[upto - 1], upto - 1, hist) {
            Some(b) => prior.push(b),
            None => prior,
        }
    }
}


proof fn lemma_state_after_push(decl: ResourceDecl, r: int, hist: Seq<(ResourceId, Access)>, x: (ResourceId, Access))
    ensures
        state_after(decl, r, hist.push(x)) == if x.0.0 == r {
            step_state(state_after(decl, r, hist), decl.is_image(), x.1)
        } else {
            state_after(decl, r, hist)
        },
{
    assert(hist.push(x).drop_last() =~= hist);
}

/// Derives every pass's barriers in schedule order, then the closing barriers
/// that leave each import in its exit layout. Rejects the first read of a
/// transient that no earlier access wrote.
pub fn derive_barriers(order: &[PassId], passes: &[PassDecl], resources: &[ResourceDecl]) -> (r: Result<
    (Vec<Vec<Barrier>>, Vec<Barrier>),
    GraphError,
>)
    requires
        forall|i: int| 0 <= i < order@.len() ==> (#[trigger] order@[i]).0 < passes@.len(),
        forall|p: int, k: int|
            0 <= p < passes@.len() && 0 <= k < passes@[p].accesses@.len() ==> (
            #[trigger] passes@[p].accesses@[k]).0.0 < resources@.len(),
        resources@.len() <= u32::MAX,
    ensures
        match r {
            Ok((barriers, finals)) => {
                &&& forall|i: int, k: int| !read_before_write_at(order@, passes@, resources@, i, k)
                &&& barriers@.len() == order@.len()
                &&& forall|i: int|
                    0 <= i < order@.len() ==> (#[trigger] barriers@[i])@ == barriers_for(
                        resources@,
                        scheduled_accesses(order@, passes@, i),
                        passes@[order@[i].0 as int].accesses@,
                    )
                &&& finals@ == final_barriers_upto(
                    resources@,
                    scheduled_accesses(order@, passes@, order@.len() as int),
                    resources@.len() as int,
                )
            },
            Err(GraphError::ReadBeforeWrite { pass, resource }) => exists|i: int, k: int|
                #[trigger] first_read_before_write(order@, passes@, resources@, i, k) && pass
                    == passes@[order@[i].0 as int].name && resource
                    == resources@[passes@[order@[i].0 as int].accesses@[k].0.0 as int].name,
            Err(_) => false,
        },
{
    let mut states: Vec<State> = Vec::new();
    let mut q: usize = 0;
    while q < resources.len()
        invariant
            q <= resources@.len(),
            states@.len() == q,
            forall|q2: int| 0 <= q2 < q ==> #[trigger] states@[q2] == initial_state(resources@[q2]),
        decreases resources@.len() - q,
    {
        let decl = &resources[q];
        states.push(
            State {
                layout: decl.entry_layout(),
                has_write: false,
                write_stages: 0,
                write_access: 0,
                read_stages: 0,
                visible_stages: 0,
                visible_access: 0,
            },
        );
        q += 1;
    }

    let mut barriers: Vec<Vec<Barrier>> = Vec::new();
    let mut slot: usize = 0;
    while slot < order.len()
        invariant
            slot <= order@.len(),
            forall|i: int| 0 <= i < order@.len() ==> (#[trigger] order@[i]).0 < passes@.len(),
            forall|p: int, k: int|
                0 <= p < passes@.len() && 0 <= k < passes@[p].accesses@.len() ==> (
                #[trigger] passes@[p].accesses@[k]).0.0 < resources@.len(),
            states@.len() == resources@.len(),
            forall|q2: int|
                0 <= q2 < resources@.len() ==> #[trigger] states@[q2] == state_after(
                    resources@[q2],
                    q2,
                    scheduled_accesses(order@, passes@, slot as int),
                ),
            barriers@.len() == slot,
            forall|i: int|
                0 <= i < slot ==> (#[trigger] barriers@[i])@ == barriers_for(
                    resources@,
                    scheduled_accesses(order@, passes@, i),
                    passes@[order@[i].0 as int].accesses@,
                ),
            forall|i2: int, k2: int|
                i2 < slot ==> !read_before_write_at(order@, passes@, resources@, i2, k2),
        decreases order@.len() - slot,
    {
        let pass = &passes[order[slot].index()];
        let ghost base = scheduled_accesses(order@, passes@, slot as int);
        let ghost accs = pass.accesses@;
        let mut pass_barriers: Vec<Barrier> = Vec::new();
        let mut k: usize = 0;
        while k < pass.accesses.len()
            invariant
                slot < order@.len(),
                *pass == passes@[order@[slot as int].0 as int],
                accs == pass.accesses@,
                base == scheduled_accesses(order@, passes@, slot as int),
                k <= accs.len(),
                forall|k2: int| 0 <= k2 < accs.len() ==> (#[trigger] accs[k2]).0.0 < resources@.len(),
                states@.len() == resources@.len(),
                forall|q2: int|
                    0 <= q2 < resources@.len() ==> #[trigger] states@[q2] == state_after(
                        resources@[q2],
                        q2,
                        base + accs.take(k as int),
                    ),
                pass_barriers@ == barriers_for(resources@, base, accs.take(k as int)),
                forall|i2: int, k2: int|
                    i2 < slot ==> !read_before_write_at(order@, passes@, resources@, i2, k2),
                forall|k2: int|
                    k2 < k ==> !read_before_write_at(order@, passes@, resources@, slot as int, k2),
            decreases accs.len() - k,
        {
            let (resource, access) = pass.accesses[k];
            let decl = &resources[resource.index()];
            let mut state = states[resource.index()];
            proof {
                assert(accs.take(k as int + 1) =~= accs.take(k as int).push(accs[k as int]));
                assert(accs.take(k as int + 1).drop_last() =~= accs.take(k as int));
                assert(base + accs.take(k as int + 1) =~= (base + accs.take(k as int)).push(accs[k as int]));
            }
            if !access.is_write() && !state.has_write && !decl.is_imported() {
                proof {
                    assert(read_before_write_at(order@, passes@, resources@, slot as int, k as int));
                    assert(first_read_before_write(order@, passes@, resources@, slot as int, k as int));
                }
                return Err(GraphError::ReadBeforeWrite { pass: pass.name, resource: decl.name });
            }
            let barrier = step(&mut state, decl.is_image(), resource, access);
            states.set(resource.index(), state);
            match barrier {
                Some(b) => pass_barriers.push(b),
                None => {},
            }
            proof {
                assert forall|q2: int| 0 <= q2 < resources@.len() implies #[trigger] states@[q2] == state_after(
                    resources@[q2],
                    q2,
                    base + accs.take(k as int + 1),
                ) by {
                    lemma_state_after_push(resources@[q2], q2, base + accs.take(k as int), accs[k as int]);
                }
            }
            k += 1;
        }
        proof {
            assert(accs.take(accs.len() as int) =~= accs);
            assert(scheduled_accesses(order@, passes@, slot as int + 1) == base + accs);
        }
        barriers.push(pass_barriers);
        slot += 1;
    }

    let ghost hist = scheduled_accesses(order@, passes@, order@.len() as int);
    let mut finals: Vec<Barrier> = Vec::new();
    let mut q: usize = 0;
    while q < resources.len()
        invariant
            q <= resources@.len(),
            resources@.len() <= u32::MAX,
            states@.len() == resources@.len(),
            forall|q2: int|
                0 <= q2 < resources@.len() ==> #[trigger] states@[q2] == state_after(resources@[q2], q2, hist),
            finals@ == final_barriers_upto(resources@, hist, q as int),
        decreases resources@.len() - q,
    {
        let decl = &resources[q];
        match decl.exit_layout() {
            Some(exit) => {
                let state = states[q];
                if state.layout != exit {
                    finals.push(
                        Barrier {
                            resource: ResourceId(q as u32),
                            src_stages: nonempty(state.write_stages | state.read_stages),
                            src_access: state.write_access,
                            dst_stages: PipelineStages::BOTTOM_OF_PIPE,
                            dst_access: 0,
                            old_layout: state.layout,
                            new_layout: exit,
                        },
                    );
                }
            },
            None => {},
        }
        q += 1;
    }
    Ok((barriers, finals))
}

} // verus!
