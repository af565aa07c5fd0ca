use orrin_core::gfx::bloom::{mip_count, MAX_BLOOM_MIPS};
use orrin_core::gfx::frame::{declare, FrameConfig, MAX_CASCADES};
use orrin_core::gfx::graph::{Format, PassKind};
use orrin_core::gfx::timestamps::{valid_mask, SlotState, TimestampSlots, MAX_PASSES, SLOTS};

#[test]
fn the_busiest_frame_fits_the_query_pool() {
    let config = FrameConfig {
        color_format: Format::B8G8R8A8_SRGB,
        ssao: true,
        taa: true,
        auto_exposure: true,
        bloom_mips: MAX_BLOOM_MIPS as u8,
        overlay: true,
        shadow_cascades: MAX_CASCADES as u8,
        shadow_resolution: 2048,
    };
    let frame = declare(config).ok().expect("the busiest frame must compile");

    // Raw passes own their submission and are never timed, so they do not
    // draw from the pool. The whole-frame pair does.
    let timed = 1 + frame
        .graph
        .order()
        .iter()
        .filter(|&&id| frame.graph.pass_kind(id) != PassKind::Raw)
        .count();

    assert!(
        timed <= MAX_PASSES,
        "the busiest frame times {timed} passes but the pool holds {MAX_PASSES}",
    );
}

#[test]
fn a_common_display_gets_the_full_bloom_chain() {
    assert_eq!(mip_count([2560, 1440]), MAX_BLOOM_MIPS as u8);
}

#[test]
fn passes_take_consecutive_pairs_until_the_pool_is_full() {
    let mut slots = TimestampSlots::new();
    slots.begin_frame(7, 1000);
    let first = slots.begin_pass(true, "frame").unwrap();
    assert_eq!(first.base(), 0);
    let second = slots.begin_pass(true, "forward").unwrap();
    assert_eq!(second.base(), 2);
    assert_eq!(slots.end_pass(Some(second)), Some(3));
    assert_eq!(slots.end_pass(None), None);
    assert!(slots.begin_pass(false, "off").is_none());
    for _ in 2..MAX_PASSES {
        assert!(slots.begin_pass(true, "more").is_some());
    }
    assert!(slots.begin_pass(true, "one too many").is_none());
}

#[test]
fn a_closed_frame_waits_for_readback_in_its_slot() {
    let mut slots = TimestampSlots::new();
    slots.begin_frame(5, 100);
    slots.begin_pass(true, "frame");
    slots.begin_pass(true, "forward");
    slots.begin_pass(true, "tonemap");
    assert_eq!(slots.end_frame(), Some(1));
    // The slot just closed is pending and no longer the one being recorded.
    assert_eq!(slots.awaiting_readback(0), Some(6));
    assert_eq!(slots.awaiting_readback(1), None);

    // Forward never wrote its opening stamp; tonemap's closed before it opened.
    let results = [10u64, 90, 0, 40, 70, 60];
    let (frame, anchor, passes) = slots.file_results(0, &results, valid_mask(64));
    assert_eq!((frame, anchor), (5, 100));
    assert_eq!(passes.len(), 1);
    assert_eq!((passes[0].name, passes[0].start, passes[0].end), ("frame", 10, 90));
    assert_eq!(slots.awaiting_readback(0), None);
    let _ = SlotState::Idle;
}

#[test]
fn an_empty_frame_has_no_pair_to_close_and_slots_rotate() {
    let mut slots = TimestampSlots::new();
    for _ in 0..SLOTS {
        slots.begin_frame(0, 0);
        assert_eq!(slots.end_frame(), None);
    }
    assert_eq!(slots.awaiting_readback(0), None);
}

#[test]
fn the_mask_keeps_the_bits_a_queue_writes() {
    assert_eq!(valid_mask(64), u64::MAX);
    assert_eq!(valid_mask(36), (1u64 << 36) - 1);
    assert_eq!(valid_mask(0), 0);
}
