//! Declarations the compiler rejects before scheduling, and the one placement
//! rule it checks after.

use vstd::prelude::*;

use super::builder::{PassDecl, PassId, PassKind};
use super::error::GraphError;
use super::resource::ResourceDecl;

verus! {

/// Access `k` of `pass` names a resource an earlier access of the pass named.
pub open spec fn conflict_at(pass: PassDecl, k: int) -> bool {
    0 <= k < pass.accesses@.len() && exists|j: int|
        0 <= j < k && (#[trigger] pass.accesses@[j]).0 == pass.accesses@[k].0
}

/// Access `k` is the first of `pass` to repeat a resource, and `j` the
/// earliest access it repeats.
pub open spec fn first_conflict(pass: PassDecl, k: int, j: int) -> bool {
    &&& conflict_at(pass, k)
    &&& forall|k2: int| 0 <= k2 < k ==> !conflict_at(pass, k2)
    &&& 0 <= j < k
    &&& pass.accesses@[j].0 == pass.accesses@[k].0
    &&& forall|i: int| 0 <= i < j ==> pass.accesses@[i].0 != pass.accesses@[k].0
}

/// A pass is a single point in the schedule, so two accesses to one resource
/// inside it cannot be ordered against each other. Reports the first access
/// that repeats a resource, and the earliest access it repeats.
pub fn check_single_access_per_resource(pass: &PassDecl, resources: &[ResourceDecl]) -> (r: Result<
    (),
    GraphError,
>)
    requires
        forall|k: int|
            0 <= k < pass.accesses@.len() ==> (#[trigger] pass.accesses@[k]).0.0 < resources@.len(),
    ensures
        match r {
            Ok(()) => forall|k: int| !conflict_at(*pass, k),
            Err(GraphError::ConflictingAccess { pass: name, resource, first, second }) => exists|k: int, j: int|
                #[trigger] first_conflict(*pass, k, j) && name == pass.name && resource
                    == resources@[pass.accesses@[k].0.0 as int].name && first == pass.accesses@[j].1
                    && second == pass.accesses@[k].1,
            Err(_) => false,
        },
{
    let mut k: usize = 0;
    while k < pass.accesses.len()
        invariant
            k <= pass.accesses@.len(),
            forall|k2: int| 0 <= k2 < k ==> !conflict_at(*pass, k2),
            forall|k2: int|
                0 <= k2 < pass.accesses@.len() ==> (#[trigger] pass.accesses@[k2]).0.0 < resources@.len(),
        decreases pass.accesses@.len() - k,
    {
        let (resource, access) = pass.accesses[k];
        let mut j: usize = 0;
        while j < k
            invariant
                k < pass.accesses@.len(),
                j <= k,
                resource == pass.accesses@[k as int].0,
                access == pass.accesses@[k as int].1,
                forall|i: int| 0 <= i < j ==> pass.accesses@[i].0 != resource,
                forall|k2: int| 0 <= k2 < k ==> !conflict_at(*pass, k2),
                forall|k2: int|
                    0 <= k2 < pass.accesses@.len() ==> (#[trigger] pass.accesses@[k2]).0.0 < resources@.len(),
            decreases k - j,
        {
            if pass.accesses[j].0 == resource {
                proof {
                    assert(conflict_at(*pass, k as int));
                    assert(first_conflict(*pass, k as int, j as int));
                }
                return Err(
                    GraphError::ConflictingAccess {
                        pass: pass.name,
                        resource: resources[resource.index()].name,
                        first: pass.accesses[j].1,
                        second: access,
                    },
                );
            }
            j += 1;
        }
        k += 1;
    }
    Ok(())
}

/// Access `k` of a compute pass is an attachment.
pub open spec fn compute_attachment_at(pass: PassDecl, k: int) -> bool {
    pass.kind == PassKind::Compute && 0 <= k < pass.accesses@.len()
        && pass.accesses@[k].1.is_attachment()
}

/// A dispatch runs outside any render pass, and an attachment only exists
/// inside one. Reports the first attachment a compute pass declares.
pub fn check_compute_attachments(pass: &PassDecl, resources: &[ResourceDecl]) -> (r: Result<
    (),
    GraphError,
>)
    requires
        forall|k: int|
            0 <= k < pass.accesses@.len() ==> (#[trigger] pass.accesses@[k]).0.0 < resources@.len(),
    ensures
        match r {
            Ok(()) => forall|k: int| !compute_attachment_at(*pass, k),
            Err(GraphError::AttachmentInComputePass { pass: name, resource, access }) => exists|k: int|
                compute_attachment_at(*pass, k) && (forall|k2: int|
                    0 <= k2 < k ==> !compute_attachment_at(*pass, k2)) && name == pass.name
                    && resource == resources@[pass.accesses@[k].0.0 as int].name && access
                    == pass.accesses@[k].1,
            Err(_) => false,
        },
{
    if pass.kind != PassKind::Compute {
        return Ok(());
    }
    let mut k: usize = 0;
    while k < pass.accesses.len()
        invariant
            pass.kind == PassKind::Compute,
            k <= pass.accesses@.len(),
            forall|k2: int| 0 <= k2 < k ==> !compute_attachment_at(*pass, k2),
            forall|k2: int|
                0 <= k2 < pass.accesses@.len() ==> (#[trigger] pass.accesses@[k2]).0.0 < resources@.len(),
        decreases pass.accesses@.len() - k,
    {
        let (resource, access) = pass.accesses[k];
        if access.is_attachment() {
            assert(compute_attachment_at(*pass, k as int));
            return Err(
                GraphError::AttachmentInComputePass {
                    pass: pass.name,
                    resource: resources[resource.index()].name,
                    access,
                },
            );
        }
        k += 1;
    }
    Ok(())
}

/// Slot `j` records into the frame's command buffer after the raw pass in slot `i`.
pub open spec fn recorded_after_raw(order: Seq<PassId>, passes: Seq<PassDecl>, i: int, j: int) -> bool {
    0 <= i < j < order.len() && passes[order[i].0 as int].kind == PassKind::Raw
        && passes[order[j].0 as int].kind != PassKind::Raw
}

/// The first slot that records after some raw pass.
pub open spec fn first_recorded_after_raw(order: Seq<PassId>, passes: Seq<PassDecl>, j: int) -> bool {
    &&& exists|i: int| recorded_after_raw(order, passes, i, j)
    &&& forall|j2: int, i: int| 0 <= j2 < j ==> !recorded_after_raw(order, passes, i, j2)
}

/// A raw pass owns its submission, and the frame's command buffer is submitted
/// before any of them, so every other pass must be scheduled ahead of every raw
/// one. Reports the first pass that is not, with the latest raw pass before it.
pub fn check_raw_passes_last(order: &[PassId], passes: &[PassDecl]) -> (r: Result<(), GraphError>)
    requires
        forall|i: int| 0 <= i < order@.len() ==> (#[trigger] order@[i]).0 < passes@.len(),
    ensures
        match r {
            Ok(()) => forall|i: int, j: int| !recorded_after_raw(order@, passes@, i, j),
            Err(GraphError::RawPassNotLast { raw, followed_by }) => exists|i: int, j: int|
                #![trigger recorded_after_raw(order@, passes@, i, j)]
                first_recorded_after_raw(order@, passes@, j) && recorded_after_raw(order@, passes@, i, j)
                    && (forall|i2: int| i < i2 < j ==> passes@[order@[i2].0 as int].kind != PassKind::Raw)
                    && raw == passes@[order@[i].0 as int].name && followed_by
                    == passes@[order@[j].0 as int].name,
            Err(_) => false,
        },
{
    let mut raw: Option<usize> = None;
    let mut slot: usize = 0;
    while slot < order.len()
        invariant
            slot <= order@.len(),
            forall|i: int| 0 <= i < order@.len() ==> (#[trigger] order@[i]).0 < passes@.len(),
            forall|j2: int, i: int| 0 <= j2 < slot ==> !recorded_after_raw(order@, passes@, i, j2),
            match raw {
                None => forall|i: int| 0 <= i < slot ==> passes@[order@[i].0 as int].kind != PassKind::Raw,
                Some(at) => at < slot && passes@[order@[at as int].0 as int].kind == PassKind::Raw
                    && forall|i2: int| at < i2 < slot ==> passes@[order@[i2].0 as int].kind != PassKind::Raw,
            },
        decreases order@.len() - slot,
    {
        let pass = &passes[order[slot].index()];
        if pass.kind == PassKind::Raw {
            raw = Some(slot);
        } else {
            match raw {
                Some(at) => {
                    let name = passes[order[at].index()].name;
                    proof {
                        assert(recorded_after_raw(order@, passes@, at as int, slot as int));
                        assert(first_recorded_after_raw(order@, passes@, slot as int));
                    }
                    return Err(GraphError::RawPassNotLast { raw: name, followed_by: pass.name });
                },
                None => {
                    assert forall|i: int| !recorded_after_raw(order@, passes@, i, slot as int) by { }
                },
            }
        }
        slot += 1;
    }
    Ok(())
}

} // verus!
