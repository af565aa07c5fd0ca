use orrin_core::gfx::{object_layout, DrawList, RunKey};

/// Runs over the identity order, which is what a list nothing reordered has.
fn ranges(keys: &[RunKey]) -> Vec<(usize, usize)> {
    let order: Vec<u32> = (0..keys.len() as u32).collect();
    DrawList::new(keys, &order).runs()
}

#[test]
fn a_grouped_order_collapses_into_one_run_per_mesh_material_pair() {
    let keys = [(0, 0), (0, 0), (0, 1), (3, 1), (3, 1), (3, 1)];
    assert_eq!(ranges(&keys), vec![(0, 2), (2, 3), (3, 6)]);
}

#[test]
fn runs_partition_the_order_without_gaps_or_overlaps() {
    let keys = [(1, 0), (1, 0), (2, 7), (2, 7), (9, 9)];
    let ranges = ranges(&keys);
    assert_eq!(ranges.first().unwrap().0, 0);
    assert_eq!(ranges.last().unwrap().1, keys.len());
    for pair in ranges.windows(2) {
        assert_eq!(pair[0].1, pair[1].0, "runs must be contiguous: {ranges:?}");
    }
    assert!(ranges.iter().all(|(start, end)| end > start));
    assert_eq!(ranges.iter().map(|(s, e)| e - s).sum::<usize>(), keys.len());
}

#[test]
fn a_material_change_breaks_a_run() {
    let keys = [(4, 0), (4, 1)];
    assert_eq!(ranges(&keys), vec![(0, 1), (1, 2)]);
}

#[test]
fn an_ungrouped_order_still_partitions_correctly() {
    let keys = [(0, 0), (5, 0), (0, 0)];
    assert_eq!(ranges(&keys), vec![(0, 1), (1, 2), (2, 3)]);
}

#[test]
fn an_empty_order_has_no_runs() {
    assert!(ranges(&[]).is_empty());
}

#[test]
fn runs_follow_the_order_not_the_item_array() {
    let keys = [(0, 0), (7, 7), (0, 0)];
    let order = [0u32, 2, 1];
    let list = DrawList::new(&keys, &order);
    assert_eq!(list.runs(), vec![(0, 2), (2, 3)]);
    assert_eq!(list.len(), 3);
    assert!(!list.is_empty());
    assert_eq!(list.key(1), (0, 0));
}

#[test]
fn cascades_index_the_upload_after_the_visible_items() {
    let keys = [(0, 0); 10];
    let visible_order = [0u32, 1, 2];
    let first = [3u32, 4];
    let second: [u32; 0] = [];
    let third = [5u32, 6, 7, 8];
    let visible = DrawList::new(&keys, &visible_order);
    let casters = [
        DrawList::new(&keys, &first),
        DrawList::new(&keys, &second),
        DrawList::new(&keys, &third),
    ];
    let layout = object_layout(visible, &casters);
    assert_eq!(layout.rows, 9);
    assert_eq!(layout.bases, [3, 5, 5, 0]);
    assert_eq!(layout.slots(), 9);
}

#[test]
fn an_empty_scene_still_allocates_one_row() {
    let keys: [RunKey; 0] = [];
    let order: [u32; 0] = [];
    let layout = object_layout(DrawList::new(&keys, &order), &[]);
    assert_eq!(layout.rows, 0);
    assert_eq!(layout.bases, [0, 0, 0, 0]);
    assert_eq!(layout.slots(), 1);
}
