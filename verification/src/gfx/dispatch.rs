//! How many workgroups a compute pass dispatches to cover its target image.

use vstd::prelude::*;

verus! {

/// Side of the square of pixels one bloom workgroup covers.
pub const BLOOM_TILE: u32 = 8;

/// Side of the square of pixels one histogram workgroup covers.
pub const HISTOGRAM_TILE: u32 = 16;

/// Side of the square of pixels one temporal-resolve workgroup covers.
pub const TAA_TILE: u32 = 8;

/// `a / b`, rounded up.
pub open spec fn ceil_div(a: int, b: int) -> int {
    a / b + if a % b != 0 {
        1int
    } else {
        0
    }
}

/// The workgroups that cover an image of `extent`, each covering a `tile`
/// by `tile` square, one layer deep.
pub fn workgroups(extent: [u32; 2], tile: u32) -> (r: [u32; 3])
    requires
        tile > 0,
    ensures
        r[0] == ceil_div(extent[0] as int, tile as int),
        r[1] == ceil_div(extent[1] as int, tile as int),
        r[2] == 1,
{
    [ceil_part(extent[0], tile), ceil_part(extent[1], tile), 1]
}

fn ceil_part(a: u32, b: u32) -> (r: u32)
    requires
        b > 0,
    ensures
        r == ceil_div(a as int, b as int),
{
    let q = a / b;
    proof {
        vstd::arithmetic::div_mod::lemma_fundamental_div_mod(a as int, b as int);
        assert(q * b <= a) by (nonlinear_arith)
            requires
                q == a / b,
                a == b * (a / b) + a % b,
                0 <= a % b,
        ;
        if b == 1 {
            assert(q == a);
        } else {
            assert(q < u32::MAX) by (nonlinear_arith)
                requires
                    q * b <= a,
                    b >= 2,
                    a <= u32::MAX,
            ;
        }
    }
    if a % b != 0 {
        q + 1
    } else {
        q
    }
}

/// The workgroups cover the image exactly: together they reach every pixel,
/// and none lies wholly past it, so a shader that discards invocations
/// outside the image wastes at most part of the last workgroup on each side.
pub proof fn lemma_workgroups_cover(side: int, tile: int)
    requires
        side >= 0,
        tile > 0,
    ensures
        ceil_div(side, tile) * tile >= side,
        ceil_div(side, tile) * tile < side + tile,
{
    vstd::arithmetic::div_mod::lemma_fundamental_div_mod(side, tile);
    let q = side / tile;
    let r = side % tile;
    assert(0 <= r < tile);
    if r != 0 {
        assert((q + 1) * tile == q * tile + tile) by (nonlinear_arith);
        assert(q * tile == tile * q) by (nonlinear_arith);
    } else {
        assert(q * tile == tile * q) by (nonlinear_arith);
    }
}

} // verus!
