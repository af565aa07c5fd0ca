//! How long a frame's bloom chain is.

use vstd::prelude::*;

verus! {

/// Most levels the chain will ever have. Six covers a 4K frame down to about
/// 60x34, past which a level contributes nothing a wider filter would not.
pub const MAX_BLOOM_MIPS: usize = 6;

/// Below this the next level is too small for the 13-tap filter to mean
/// anything, so the chain stops there.
pub const MIN_BLOOM_EXTENT: u32 = 8;

/// Level `level` of the chain — the frame halved `level` times — still has
/// both sides at least `MIN_BLOOM_EXTENT`.
pub open spec fn level_fits(extent: [u32; 2], level: u32) -> bool {
    (extent[0] >> level) >= MIN_BLOOM_EXTENT && (extent[1] >> level) >= MIN_BLOOM_EXTENT
}

/// How many levels a frame of this size supports: the longest run of levels,
/// from the first, that all fit, capped at `MAX_BLOOM_MIPS`.
pub fn mip_count(extent: [u32; 2]) -> (r: u8)
    ensures
        r <= MAX_BLOOM_MIPS,
        forall|l: u32| 1 <= l <= r ==> level_fits(extent, l),
        r < MAX_BLOOM_MIPS ==> !level_fits(extent, (r + 1) as u32),
{
    let mut mips: u8 = 0;
    let mut level: u32 = 1;
    while level <= MAX_BLOOM_MIPS as u32
        invariant
            1 <= level <= MAX_BLOOM_MIPS + 1,
            mips as u32 == level - 1,
            forall|l: u32| 1 <= l <= mips ==> level_fits(extent, l),
        decreases MAX_BLOOM_MIPS + 1 - level,
    {
        let width = extent[0] >> level;
        let height = extent[1] >> level;
        let smaller = if width < height {
            width
        } else {
            height
        };
        if smaller < MIN_BLOOM_EXTENT {
            return mips;
        }
        mips = level as u8;
        level += 1;
    }
    mips
}

} // verus!
