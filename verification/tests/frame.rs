use orrin_core::gfx::frame::{declare, graph_step, FrameConfig, GraphStep, PassBody, MAX_CASCADES};
use orrin_core::gfx::graph::{Format, PassKind};

fn config() -> FrameConfig {
    FrameConfig {
        color_format: Format::B8G8R8A8_SRGB,
        ssao: false,
        taa: false,
        auto_exposure: false,
        bloom_mips: 0,
        overlay: false,
        shadow_cascades: 0,
        shadow_resolution: 1024,
    }
}

fn order(config: FrameConfig) -> Vec<&'static str> {
    let frame = declare(config).ok().expect("the frame compiles");
    frame.graph.order().iter().map(|&id| frame.graph.pass_name(id)).collect()
}

#[test]
fn a_bare_frame_shades_and_tonemaps() {
    let frame = declare(config()).ok().expect("the frame compiles");
    assert_eq!(frame.bodies, vec![PassBody::Forward, PassBody::Tonemap]);
    assert_eq!(order(config()), vec!["forward", "tonemap"]);
    assert!(frame.ids.prepass.is_none());
    assert!(frame.ids.bloom.is_none());
    assert_eq!(frame.ids.scene_color, frame.ids.hdr_color);
}

#[test]
fn temporal_resolve_brings_the_prepass_and_moves_the_scene_colour() {
    let config = FrameConfig { taa: true, ..config() };
    let frame = declare(config).ok().expect("the frame compiles");
    assert_eq!(
        frame.bodies,
        vec![PassBody::GeometryPrepass, PassBody::Forward, PassBody::TaaResolve, PassBody::Tonemap]
    );
    let taa = frame.ids.taa.expect("declared");
    assert!(frame.ids.prepass.is_some());
    assert_eq!(frame.ids.scene_color, taa.output);
    assert_eq!(order(config), vec!["geometry_prepass", "forward", "taa_resolve", "tonemap"]);
}

#[test]
fn the_bloom_chain_goes_down_then_back_up() {
    let config = FrameConfig { bloom_mips: 3, ..config() };
    let frame = declare(config).ok().expect("the frame compiles");
    assert_eq!(
        frame.bodies,
        vec![
            PassBody::Forward,
            PassBody::BloomPrefilter,
            PassBody::BloomDownsample(1),
            PassBody::BloomDownsample(2),
            PassBody::BloomUpsample(1),
            PassBody::BloomUpsample(0),
            PassBody::Tonemap,
        ]
    );
    let bloom = frame.ids.bloom.expect("declared");
    assert_eq!(bloom.mips, 3);
    assert!(bloom.up[2].is_none() && bloom.down[3].is_none());
    assert_eq!(bloom.result(), bloom.up(0));
    assert_eq!(
        order(config),
        vec!["forward", "bloom_prefilter", "bloom_down_1", "bloom_down_2", "bloom_up_1", "bloom_up_0", "tonemap"]
    );
}

#[test]
fn a_one_level_chain_composites_its_only_level() {
    let frame = declare(FrameConfig { bloom_mips: 1, ..config() }).ok().expect("the frame compiles");
    let bloom = frame.ids.bloom.expect("declared");
    assert_eq!(bloom.result(), bloom.down(0));
    assert!(bloom.up[0].is_none());
}

#[test]
fn the_busiest_frame_runs_the_overlay_last() {
    let config = FrameConfig {
        ssao: true,
        taa: true,
        auto_exposure: true,
        bloom_mips: 6,
        overlay: true,
        shadow_cascades: MAX_CASCADES as u8,
        ..config()
    };
    let frame = declare(config).ok().expect("the frame compiles");
    assert_eq!(frame.bodies.len(), 4 + 1 + 2 + 1 + 1 + 2 + 11 + 1 + 1);
    let order = frame.graph.order();
    assert_eq!(order.len(), frame.bodies.len());
    let last = *order.last().unwrap();
    assert_eq!(frame.graph.pass_kind(last), PassKind::Raw);
    assert_eq!(frame.bodies[last.0 as usize], PassBody::Overlay);
    assert_eq!(frame.graph.pass_name(last), "overlay");
    // Every pass's body names it as the graph does.
    for (index, body) in frame.bodies.iter().enumerate() {
        assert_eq!(body.name(), frame.graph.pass_name(orrin_core::gfx::graph::PassId(index as u32)));
    }
}

/// The renderer treats a frame that fails to compile as a bug, so every
/// structure a configuration can ask for must compile, and each must fit the
/// timing pool.
#[test]
fn every_configuration_compiles() {
    let mut count = 0;
    for flags in 0..16u8 {
        for shadow_cascades in 0..=MAX_CASCADES as u8 {
            for bloom_mips in 0..=6u8 {
                let config = FrameConfig {
                    ssao: flags & 1 != 0,
                    taa: flags & 2 != 0,
                    auto_exposure: flags & 4 != 0,
                    overlay: flags & 8 != 0,
                    shadow_cascades,
                    bloom_mips,
                    ..config()
                };
                let frame = declare(config).ok().unwrap_or_else(|| panic!("{config:?} does not compile"));
                assert_eq!(frame.graph.order().len() + frame.graph.culled().len(), frame.bodies.len());
                assert!(frame.bodies.len() + 1 <= orrin_core::gfx::timestamps::MAX_PASSES);
                count += 1;
            }
        }
    }
    assert_eq!(count, 16 * 5 * 7);
}

#[test]
fn only_a_structural_change_recompiles_the_graph() {
    let current = config();
    assert_eq!(graph_step(current, current, false), GraphStep::Keep);
    assert_eq!(graph_step(current, current, true), GraphStep::Reallocate);
    let with_bloom = FrameConfig { bloom_mips: 3, ..current };
    assert_eq!(graph_step(current, with_bloom, false), GraphStep::Redeclare);
    assert_eq!(graph_step(current, with_bloom, true), GraphStep::Redeclare);
}
