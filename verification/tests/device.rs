use orrin_core::gfx::device::{
    budget_queryable, pick_device, surface_format, vram_bytes, ColorSpace, DeviceInfo, DeviceType, MemoryHeap,
    QueueFamily,
};
use orrin_core::gfx::dispatch::{workgroups, BLOOM_TILE, HISTOGRAM_TILE, TAA_TILE};
use orrin_core::gfx::graph::Format;
use orrin_core::gfx::{next_texture_handle, texture_format, TextureHandle, MAX_TEXTURES};

#[test]
fn the_swapchain_takes_the_first_srgb_offer_presented_as_srgb() {
    let offers = [
        (Format::B8G8R8A8_UNORM, ColorSpace::SrgbNonLinear),
        (Format::R8G8B8A8_SRGB, ColorSpace::Other(1000104001)),
        (Format::R8G8B8A8_SRGB, ColorSpace::SrgbNonLinear),
        (Format::B8G8R8A8_SRGB, ColorSpace::SrgbNonLinear),
    ];
    assert_eq!(surface_format(&offers), Format::R8G8B8A8_SRGB);
}

#[test]
fn without_an_srgb_offer_the_swapchain_falls_back_to_bgra_srgb() {
    let offers = [(Format::B8G8R8A8_UNORM, ColorSpace::SrgbNonLinear)];
    assert_eq!(surface_format(&offers), Format::B8G8R8A8_SRGB);
    assert_eq!(surface_format(&[]), Format::B8G8R8A8_SRGB);
}

fn device(has_extensions: bool, device_type: DeviceType, families: &[(bool, bool)]) -> DeviceInfo {
    DeviceInfo {
        has_extensions,
        device_type,
        queue_families: families.iter().map(|&(graphics, presents)| QueueFamily { graphics, presents }).collect(),
    }
}

#[test]
fn a_discrete_gpu_wins_and_draws_with_its_first_presenting_graphics_family() {
    let devices = [
        device(true, DeviceType::IntegratedGpu, &[(true, true)]),
        device(false, DeviceType::DiscreteGpu, &[(true, true)]),
        device(true, DeviceType::DiscreteGpu, &[(false, true), (true, false), (true, true), (true, true)]),
        device(true, DeviceType::DiscreteGpu, &[(true, true)]),
    ];
    assert_eq!(pick_device(&devices), Some((2, 2)));
}

#[test]
fn no_device_is_picked_when_none_can_draw_and_present() {
    let devices = [
        device(true, DeviceType::DiscreteGpu, &[(true, false)]),
        device(false, DeviceType::Cpu, &[(true, true)]),
    ];
    assert_eq!(pick_device(&devices), None);
    assert_eq!(pick_device(&[]), None);
}

#[test]
fn video_memory_counts_only_device_local_heaps() {
    let heaps = [
        MemoryHeap { size: 8 << 30, device_local: true },
        MemoryHeap { size: 16 << 30, device_local: false },
        MemoryHeap { size: 256 << 20, device_local: true },
    ];
    let usage = [1 << 30, 5 << 30, 10 << 20];
    assert_eq!(vram_bytes(&heaps, Some(&usage)), (Some((1 << 30) + (10 << 20)), (8 << 30) + (256 << 20)));
    assert_eq!(vram_bytes(&heaps, None), (None, (8 << 30) + (256 << 20)));
}

#[test]
fn the_budget_query_needs_the_extension_and_vulkan_1_1() {
    assert!(budget_queryable(true, 1, 1));
    assert!(budget_queryable(true, 1, 3));
    assert!(!budget_queryable(true, 1, 0));
    assert!(!budget_queryable(false, 1, 3));
}

#[test]
fn workgroups_round_each_side_up_to_whole_tiles() {
    assert_eq!(workgroups([1920, 1080], BLOOM_TILE), [240, 135, 1]);
    assert_eq!(workgroups([1921, 1], HISTOGRAM_TILE), [121, 1, 1]);
    assert_eq!(workgroups([0, 7], TAA_TILE), [0, 1, 1]);
    assert_eq!(workgroups([u32::MAX, 9], 1), [u32::MAX, 9, 1]);
    assert_eq!(workgroups([u32::MAX, 9], 2), [1 << 31, 5, 1]);
}

#[test]
fn texture_handles_stop_at_the_shader_array() {
    assert_eq!(next_texture_handle(0), Some(TextureHandle(0)));
    assert_eq!(next_texture_handle(MAX_TEXTURES - 1), Some(TextureHandle(MAX_TEXTURES as u32 - 1)));
    assert_eq!(next_texture_handle(MAX_TEXTURES), None);
    assert_eq!(texture_format(true), Format::R8G8B8A8_SRGB);
    assert_eq!(texture_format(false), Format::R8G8B8A8_UNORM);
}
