use orrin_core::gfx::bloom::{mip_count, MAX_BLOOM_MIPS};

#[test]
fn the_chain_length_suits_the_frame() {
    assert_eq!(mip_count([1920, 1080]), MAX_BLOOM_MIPS as u8);
    assert_eq!(mip_count([3840, 2160]), MAX_BLOOM_MIPS as u8);
    // 1080 >> 6 == 16, still above the floor; 256 >> 5 == 8 is the last that
    // clears it.
    assert_eq!(mip_count([256, 256]), 5);
    assert_eq!(mip_count([64, 64]), 3);
    assert_eq!(mip_count([16, 16]), 1);
}

#[test]
fn a_tiny_frame_gets_no_chain() {
    assert_eq!(mip_count([8, 8]), 0);
    assert_eq!(mip_count([1, 1]), 0);
    // Narrow but tall: the smaller side is what limits the chain.
    assert_eq!(mip_count([4096, 12]), 0);
}
