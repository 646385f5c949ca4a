//! The xorshift generator behind phase scrambling and hammer noise.

use vstd::prelude::*;

verus! {

/// Initial state of a synth's generator.
pub const SEED: u32 = 0x1234_5678;

/// One xorshift step: shifts of 13, 17 and 5.
pub open spec fn spec_xorshift(x: u32) -> u32 {
    let a = x ^ (x << 13);
    let b = a ^ (a >> 17);
    b ^ (b << 5)
}

/// The state after `n` draws.
pub open spec fn spec_draws(x: u32, n: nat) -> u32
    decreases n,
{
    if n == 0 {
        x
    } else {
        spec_xorshift(spec_draws(x, (n - 1) as nat))
    }
}

/// The odd multiplier of the per-note advance.
pub const ADVANCE: u32 = 0x9E37_79B9;

/// The per-note advance of the generator, modulo 2^32.
pub open spec fn spec_advance(x: u32) -> u32 {
    ((x * ADVANCE + 1) % 0x1_0000_0000) as u32
}

/// Next state of the generator; the state is also the drawn number.
pub fn xorshift(x: u32) -> (r: u32)
    ensures
        r == spec_xorshift(x),
{
    let a: u32 = x ^ (x << 13);
    let b: u32 = a ^ (a >> 17);
    b ^ (b << 5)
}

/// Advances the generator between notes, so that consecutive notes get
/// fresh phases.
pub fn advance(x: u32) -> (r: u32)
    ensures
        r == spec_advance(x),
{
    assert(0 <= x * ADVANCE <= 0xFFFF_FFFF * 0x9E37_79B9) by (nonlinear_arith)
        requires
            0 <= x <= 0xFFFF_FFFF,
            ADVANCE == 0x9E37_79B9,
    ;
    let wide: u64 = x as u64 * ADVANCE as u64 + 1;
    (wide % 0x1_0000_0000) as u32
}

/// A generator that is not at zero never reaches zero, and one at zero stays.
pub proof fn xorshift_keeps_zero_apart(x: u32)
    ensures
        spec_xorshift(x) == 0 <==> x == 0,
{
    assert(({
        let a = x ^ (x << 13);
        let b = a ^ (a >> 17);
        b ^ (b << 5)
    }) == 0 <==> x == 0) by (bit_vector);
}

/// Distinct states stay distinct: no two streams ever merge.
pub proof fn xorshift_is_injective(x: u32, y: u32)
    requires
        spec_xorshift(x) == spec_xorshift(y),
    ensures
        x == y,
{
    assert(({
        let a = x ^ (x << 13);
        let b = a ^ (a >> 17);
        b ^ (b << 5)
    }) == ({
        let a = y ^ (y << 13);
        let b = a ^ (a >> 17);
        b ^ (b << 5)
    }) ==> x == y) by (bit_vector);
}

/// The per-note advance always moves the generator to another state.
pub proof fn advance_moves(x: u32)
    ensures
        spec_advance(x) != x,
{
    let p: int = x * ADVANCE + 1;
    assert(p % 2 != x % 2) by (nonlinear_arith)
        requires
            p == x * 0x9E37_79B9 + 1,
    ;
    assert((p % 0x1_0000_0000) % 2 == p % 2) by (nonlinear_arith);
}

} // verus!
