use orrin_core::profile::{Collector, Lane, Profiler, Span, HISTORY};

fn span(name: &'static str, depth: u16, start_ns: u64, end_ns: u64) -> Span {
    Span { name, depth, start_ns, end_ns }
}

fn duration_ms(span: &Span) -> f64 {
    span.duration_ns() as f64 / 1.0e6
}

#[test]
fn scopes_record_nesting_depth() {
    let mut collector = Collector::new();
    let mut profiler = Profiler::new(4);
    profiler.end_frame(&mut collector);

    let outer = collector.open_scope("outer", 0);
    let inner = collector.open_scope("inner", 1);
    collector.close_scope(&inner, 2);
    let sibling = collector.open_scope("sibling", 3);
    collector.close_scope(&sibling, 4);
    collector.close_scope(&outer, 5);
    profiler.end_frame(&mut collector);

    let frame = profiler.latest().unwrap();
    let depths: Vec<_> = frame.cpu.iter().map(|s| (s.name, s.depth)).collect();
    // Inner scopes close first, so they land ahead of their parent.
    assert_eq!(depths, vec![("inner", 1), ("sibling", 1), ("outer", 0)]);
    assert_eq!(collector.open, 0);
    assert!(collector.spans.is_empty());
}

#[test]
fn gpu_spans_file_against_an_earlier_frame() {
    let mut collector = Collector::new();
    let mut profiler = Profiler::new(4);
    profiler.end_frame(&mut collector); // frame 0
    let recorded_in = profiler.latest().unwrap().index;
    profiler.end_frame(&mut collector); // frame 1: the readback arrives here

    assert!(profiler.push_gpu_span(recorded_in, span("forward", 0, 0, 2_000_000)));

    let frame = profiler.frame(recorded_in).unwrap();
    assert_eq!(frame.gpu.len(), 1);
    assert_eq!(duration_ms(&frame.gpu[0]), 2.0);
    // The frame the readback happened in stays empty.
    assert!(profiler.latest().unwrap().gpu.is_empty());
}

#[test]
fn gpu_spans_for_evicted_frames_are_dropped() {
    let mut collector = Collector::new();
    let mut profiler = Profiler::new(2);
    for _ in 0..4 {
        profiler.end_frame(&mut collector);
    }
    assert!(!profiler.push_gpu_span(0, span("forward", 0, 0, 1)));
    assert!(profiler.push_gpu_span(3, span("forward", 0, 0, 1)));
}

#[test]
fn ring_evicts_oldest_and_keeps_indices_monotonic() {
    let mut collector = Collector::new();
    let mut profiler = Profiler::new(3);
    for _ in 0..5 {
        profiler.end_frame(&mut collector);
    }
    let indices: Vec<_> = profiler.frames().iter().map(|f| f.index).collect();
    assert_eq!(indices, vec![2, 3, 4]);
    assert_eq!(profiler.frame_index(), 5);
}

#[test]
fn a_zero_capacity_still_keeps_the_latest_frame() {
    let mut collector = Collector::new();
    let mut profiler = Profiler::new(0);
    profiler.end_frame(&mut collector);
    profiler.end_frame(&mut collector);
    assert_eq!(profiler.frames().len(), 1);
    assert_eq!(profiler.latest().unwrap().index, 1);
    assert!(profiler.frame(0).is_none());
}

#[test]
fn a_lane_is_the_spans_it_names() {
    let mut collector = Collector::new();
    let mut profiler = Profiler::new(2);
    let scope = collector.open_scope("update", 10);
    collector.close_scope(&scope, 30);
    profiler.end_frame(&mut collector);
    profiler.push_gpu_span(0, span("forward", 0, 5, 3));
    let frame = profiler.latest().unwrap();
    assert_eq!(frame.lane(Lane::Cpu)[0].duration_ns(), 20);
    assert_eq!(frame.lane(Lane::Gpu)[0].duration_ns(), 0);
}

#[test]
fn closing_with_nothing_open_saturates() {
    let mut collector = Collector::new();
    let stray = orrin_core::profile::Scope { name: "stray", depth: 0, start_ns: 0 };
    collector.close_scope(&stray, 1);
    assert_eq!(collector.open, 0);
    assert_eq!(collector.spans.len(), 1);
}

fn ms(ns: u64) -> f64 {
    ns as f64 / 1.0e6
}

/// The newest frames never carry GPU spans yet, so a lane's "latest" has to
/// mean its newest populated frame or the column reads zero forever.
#[test]
fn gpu_lane_reports_the_newest_frame_that_has_spans() {
    let mut collector = Collector::new();
    let mut profiler = Profiler::new(8);
    for _ in 0..4 {
        profiler.end_frame(&mut collector);
    }
    profiler.push_gpu_span(1, span("forward", 0, 0, 3_000_000));

    let (rows, populated) = profiler.aggregate(Lane::Gpu);
    assert_eq!(rows[0].name, "forward");
    assert_eq!(ms(rows[0].last_ns), 3.0);
    // Averaged over the one frame with GPU data, not all four retained.
    assert_eq!(ms(rows[0].total_ns) / populated as f64, 3.0);
}

#[test]
fn aggregate_sums_repeats_within_a_frame_and_averages_across_them() {
    let mut collector = Collector::new();
    let mut profiler = Profiler::new(4);
    profiler.end_frame(&mut collector); // frame 0
    profiler.end_frame(&mut collector); // frame 1

    // 1 ms in frame 0; 2 ms split across two calls in frame 1.
    profiler.push_gpu_span(0, span("forward", 0, 0, 1_000_000));
    profiler.push_gpu_span(1, span("forward", 0, 0, 1_500_000));
    profiler.push_gpu_span(1, span("forward", 0, 2_000_000, 2_500_000));
    profiler.push_gpu_span(1, span("ssao", 0, 0, 4_000_000));

    let (rows, populated) = profiler.aggregate(Lane::Gpu);
    // Ordered by cost in the latest frame, so ssao (4 ms) leads forward (2 ms).
    assert_eq!(rows[0].name, "ssao");
    assert_eq!(rows[1].name, "forward");

    let forward = rows[1];
    assert_eq!(ms(forward.last_ns), 2.0);
    assert_eq!(forward.calls, 2);
    assert_eq!(ms(forward.max_ns), 2.0);
    // (1 ms + 2 ms) over the two retained frames.
    assert_eq!(ms(forward.total_ns) / populated as f64, 1.5);
}

#[test]
fn a_row_keeps_the_shallowest_depth_and_ties_keep_their_order() {
    let mut collector = Collector::new();
    let mut profiler = Profiler::new(4);
    let outer = collector.open_scope("update", 0);
    let inner = collector.open_scope("physics", 0);
    collector.close_scope(&inner, 10);
    collector.close_scope(&outer, 20);
    let top = collector.open_scope("physics", 30);
    collector.close_scope(&top, 40);
    profiler.end_frame(&mut collector);

    let (rows, populated) = profiler.aggregate(Lane::Cpu);
    assert_eq!(populated, 1);
    assert_eq!(rows.len(), 2);
    assert_eq!((rows[0].name, rows[0].depth, rows[0].last_ns, rows[0].calls), ("physics", 0, 20, 2));
    assert_eq!((rows[1].name, rows[1].depth, rows[1].last_ns), ("update", 0, 20));
    // Equal cost: physics was seen first, and keeps its place.
    let (rows, populated) = profiler.aggregate(Lane::Gpu);
    assert!(rows.is_empty());
    assert_eq!(populated, 0);
}

#[test]
fn the_root_total_counts_nested_scopes_once() {
    let mut collector = Collector::new();
    let mut profiler = Profiler::new(2);
    let outer = collector.open_scope("frame", 0);
    let inner = collector.open_scope("update", 10);
    collector.close_scope(&inner, 40);
    collector.close_scope(&outer, 100);
    let other = collector.open_scope("present", 100);
    collector.close_scope(&other, 130);
    profiler.end_frame(&mut collector);
    assert_eq!(profiler.latest().unwrap().root_ns(Lane::Cpu), 130);
    assert_eq!(profiler.latest().unwrap().root_ns(Lane::Gpu), 0);
}

#[test]
fn a_default_profiler_keeps_the_standard_history() {
    let mut collector = Collector::new();
    let mut profiler = Profiler::default();
    assert_eq!(profiler.frame_index(), 0);
    for _ in 0..HISTORY + 2 {
        profiler.end_frame(&mut collector);
    }
    assert_eq!(profiler.frames().len(), HISTORY);
    assert_eq!(profiler.frames().front().unwrap().index, 2);
}
