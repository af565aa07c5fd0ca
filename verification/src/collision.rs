//! Which pairs of colliders started or stopped touching.
//!
//! Shapes, bounds and contacts are measured in floating point by the
//! program; a touching pair is known here by its two entities, ordered so
//! that a pair has one key whichever way round it was found.

use vstd::prelude::*;

use crate::entity::{entity_le, Entity};

verus! {

#[derive(Clone, Copy, PartialEq, Eq, Structural, Debug)]
pub enum CollisionEventKind {
    Enter,
    Exit,
}

/// The key of the pair `a`, `b`: the two ordered by slot, then generation.
pub fn pair_key(a: Entity, b: Entity) -> (r: (Entity, Entity))
    ensures
        r == if entity_le(a, b) {
            (a, b)
        } else {
            (b, a)
        },
{
    if a.index < b.index || (a.index == b.index && a.generation <= b.generation) {
        (a, b)
    } else {
        (b, a)
    }
}

/// The pairs of `current` that `previous` lacks, in `current`'s order.
pub open spec fn missing_from(current: Seq<(Entity, Entity)>, previous: Seq<(Entity, Entity)>) -> Seq<(Entity, Entity)>
    decreases current.len(),
{
    if current.len() == 0 {
        Seq::empty()
    } else {
        missing_from(current.drop_last(), previous) + if previous.contains(current.last()) {
            Seq::empty()
        } else {
            seq![current.last()]
        }
    }
}

pub open spec fn tagged(kind: CollisionEventKind, pairs: Seq<(Entity, Entity)>) -> Seq<(CollisionEventKind, (Entity, Entity))> {
    pairs.map_values(|p: (Entity, Entity)| (kind, p))
}

/// The events between two frames' touching pairs: an `Enter` for each pair
/// touching now that was not before, then an `Exit` for each pair that was
/// touching and no longer is.
pub open spec fn pair_events(
    previous: Seq<(Entity, Entity)>,
    current: Seq<(Entity, Entity)>,
) -> Seq<(CollisionEventKind, (Entity, Entity))> {
    tagged(CollisionEventKind::Enter, missing_from(current, previous)) + tagged(
        CollisionEventKind::Exit,
        missing_from(previous, current),
    )
}

fn contains_pair(pairs: &[(Entity, Entity)], key: (Entity, Entity)) -> (r: bool)
    ensures
        r == pairs@.contains(key),
{
    let mut i: usize = 0;
    while i < pairs.len()
        invariant
            i <= pairs@.len(),
            forall|j: int| 0 <= j < i ==> pairs@[j] != key,
        decreases pairs@.len() - i,
    {
        let (a, b) = pairs[i];
        if a == key.0 && b == key.1 {
            assert(pairs@[i as int] == key);
            return true;
        }
        i += 1;
    }
    false
}

/// Appends, tagged with `kind`, each pair of `from` that `other` lacks.
fn push_missing(
    from: &[(Entity, Entity)],
    other: &[(Entity, Entity)],
    kind: CollisionEventKind,
    events: &mut Vec<(CollisionEventKind, (Entity, Entity))>,
)
    ensures
        final(events)@ == old(events)@ + tagged(kind, missing_from(from@, other@)),
{
    let ghost start = events@;
    let mut i: usize = 0;
    while i < from.len()
        invariant
            i <= from@.len(),
            events@ == start + tagged(kind, missing_from(from@.take(i as int), other@)),
        decreases from@.len() - i,
    {
        let key = from[i];
        proof {
            assert(from@.take(i + 1).drop_last() =~= from@.take(i as int));
        }
        if !contains_pair(other, key) {
            events.push((kind, key));
        }
        proof {
            assert(events@ =~= start + tagged(kind, missing_from(from@.take(i + 1), other@)));
        }
        i += 1;
    }
    proof {
        assert(from@.take(from@.len() as int) =~= from@);
    }
}

/// Appends to `events` what changed between the pairs touching last frame
/// and those touching now.
pub fn diff_pairs(
    previous: &[(Entity, Entity)],
    current: &[(Entity, Entity)],
    events: &mut Vec<(CollisionEventKind, (Entity, Entity))>,
)
    ensures
        final(events)@ == old(events)@ + pair_events(previous@, current@),
{
    push_missing(current, previous, CollisionEventKind::Enter, events);
    push_missing(previous, current, CollisionEventKind::Exit, events);
    proof {
        assert(final(events)@ =~= old(events)@ + pair_events(previous@, current@));
    }
}

/// The pairs of `from` that `other` lacks are `from` filtered to them.
proof fn lemma_missing_is_filter(from: Seq<(Entity, Entity)>, other: Seq<(Entity, Entity)>)
    ensures
        missing_from(from, other) == from.filter(|p: (Entity, Entity)| !other.contains(p)),
    decreases from.len(),
{
    reveal(Seq::filter);
    if from.len() > 0 {
        lemma_missing_is_filter(from.drop_last(), other);
        let f = |p: (Entity, Entity)| !other.contains(p);
        assert(from.filter(f) == if f(from.last()) {
            from.drop_last().filter(f).push(from.last())
        } else {
            from.drop_last().filter(f)
        });
        assert(missing_from(from, other) =~= from.filter(f));
    }
}

/// The events between two frames are, first, an `Enter` for every pair of
/// `current` that `previous` lacks, in `current`'s order, then an `Exit`
/// for every pair of `previous` that `current` lacks, in `previous`'s
/// order: a contact that ends is reported whatever else is touching,
/// even when nothing is.
pub proof fn lemma_events_enter_then_exit(previous: Seq<(Entity, Entity)>, current: Seq<(Entity, Entity)>)
    ensures
        pair_events(previous, current) == current.filter(|p: (Entity, Entity)| !previous.contains(p)).map_values(
            |p: (Entity, Entity)| (CollisionEventKind::Enter, p),
        ) + previous.filter(|p: (Entity, Entity)| !current.contains(p)).map_values(
            |p: (Entity, Entity)| (CollisionEventKind::Exit, p),
        ),
{
    lemma_missing_is_filter(current, previous);
    lemma_missing_is_filter(previous, current);
}

/// A pair is reported entering exactly when it touches now and did not
/// before, and leaving exactly when it touched before and does not now; no
/// pair touching in both frames, or in neither, is reported.
pub proof fn lemma_event_membership(
    previous: Seq<(Entity, Entity)>,
    current: Seq<(Entity, Entity)>,
    pair: (Entity, Entity),
)
    ensures
        pair_events(previous, current).contains((CollisionEventKind::Enter, pair)) <==> (current.contains(pair)
            && !previous.contains(pair)),
        pair_events(previous, current).contains((CollisionEventKind::Exit, pair)) <==> (previous.contains(pair)
            && !current.contains(pair)),
{
    lemma_events_enter_then_exit(previous, current);
    let fe = |p: (Entity, Entity)| !previous.contains(p);
    let fx = |p: (Entity, Entity)| !current.contains(p);
    let enters = current.filter(fe);
    let exits = previous.filter(fx);
    let te = enters.map_values(|p: (Entity, Entity)| (CollisionEventKind::Enter, p));
    let tx = exits.map_values(|p: (Entity, Entity)| (CollisionEventKind::Exit, p));
    let events = pair_events(previous, current);
    assert(events == te + tx);
    current.filter_lemma(fe);
    previous.filter_lemma(fx);
    // Enter
    if events.contains((CollisionEventKind::Enter, pair)) {
        let i = choose|i: int| 0 <= i < events.len() && events[i] == (CollisionEventKind::Enter, pair);
        if i < te.len() {
            assert(te[i] == (CollisionEventKind::Enter, enters[i]));
            assert(enters.contains(pair));
            current.lemma_filter_contains_rev(fe, pair);
            assert(fe(enters[i]));
        } else {
            assert(tx[i - te.len()] == events[i]);
        }
    }
    if current.contains(pair) && !previous.contains(pair) {
        let j = choose|j: int| 0 <= j < current.len() && current[j] == pair;
        assert(fe(current[j]));
        assert(enters.contains(pair));
        let i = choose|i: int| 0 <= i < enters.len() && enters[i] == pair;
        assert(events[i] == te[i]);
    }
    // Exit
    if events.contains((CollisionEventKind::Exit, pair)) {
        let i = choose|i: int| 0 <= i < events.len() && events[i] == (CollisionEventKind::Exit, pair);
        if i < te.len() {
            assert(te[i] == events[i]);
        } else {
            assert(tx[i - te.len()] == (CollisionEventKind::Exit, exits[i - te.len()]));
            assert(exits.contains(pair));
            previous.lemma_filter_contains_rev(fx, pair);
            assert(fx(exits[i - te.len()]));
        }
    }
    if previous.contains(pair) && !current.contains(pair) {
        let j = choose|j: int| 0 <= j < previous.len() && previous[j] == pair;
        assert(fx(previous[j]));
        assert(exits.contains(pair));
        let i = choose|i: int| 0 <= i < exits.len() && exits[i] == pair;
        assert(events[te.len() + i] == tx[i]);
    }
}

} // verus!
