use orrin_core::collision::{diff_pairs, pair_key, CollisionEventKind};
use orrin_core::entity::Entity;

fn e(index: u32, generation: u32) -> Entity {
    Entity { index, generation }
}

#[test]
fn a_pair_has_one_key_whichever_way_round() {
    assert_eq!(pair_key(e(3, 0), e(1, 5)), (e(1, 5), e(3, 0)));
    assert_eq!(pair_key(e(1, 5), e(3, 0)), (e(1, 5), e(3, 0)));
    assert_eq!(pair_key(e(2, 1), e(2, 0)), (e(2, 0), e(2, 1)));
    assert_eq!(pair_key(e(2, 1), e(2, 1)), (e(2, 1), e(2, 1)));
}

#[test]
fn new_pairs_enter_and_lost_pairs_exit() {
    let a = (e(0, 0), e(1, 0));
    let b = (e(0, 0), e(2, 0));
    let c = (e(1, 0), e(2, 0));
    let previous = [a, b];
    let current = [b, c];
    let mut events = Vec::new();
    diff_pairs(&previous, &current, &mut events);
    assert_eq!(events, vec![(CollisionEventKind::Enter, c), (CollisionEventKind::Exit, a)]);
}

#[test]
fn a_steady_contact_reports_nothing() {
    let a = (e(0, 0), e(1, 0));
    let mut events = Vec::new();
    diff_pairs(&[a], &[a], &mut events);
    assert!(events.is_empty());
    diff_pairs(&[], &[], &mut events);
    assert!(events.is_empty());
}
