//! The generator that every peer agrees on.

use vstd::prelude::*;

verus! {

/// The state after a draw.
pub open spec fn next_state(state: u64) -> u64 {
    state.wrapping_add(0x9E37_79B9_7F4A_7C15)
}

/// The number that a state stands for.
pub open spec fn mixed(state: u64) -> u64 {
    let a = (state ^ (state >> 30)).wrapping_mul(0xBF58_476D_1CE4_E5B9);
    let b = (a ^ (a >> 27)).wrapping_mul(0x94D0_49BB_1331_11EB);
    b ^ (b >> 31)
}

/// The number drawn in `state`.
pub open spec fn drawn(state: u64) -> u64 {
    mixed(next_state(state))
}

/// The top 24 bits of the number drawn in `state`: a share of one, in parts of 2^24.
pub open spec fn unit(state: u64) -> u32 {
    (drawn(state) >> 40) as u32
}

/// The state after `n` draws.
pub open spec fn state_after(state: u64, n: nat) -> u64
    decreases n,
{
    if n == 0 {
        state
    } else {
        next_state(state_after(state, (n - 1) as nat))
    }
}

/// Share number `n` of the stream that starts in `state`.
pub open spec fn unit_at(state: u64, n: nat) -> u32 {
    unit(state_after(state, n))
}

/// One draw of the splitmix64 generator.
pub fn splitmix64(state: &mut u64) -> (n: u64)
    ensures
        *final(state) == next_state(*old(state)),
        n == drawn(*old(state)),
{
    *state = state.wrapping_add(0x9E37_79B9_7F4A_7C15);
    let z: u64 = *state;
    let a: u64 = (z ^ (z >> 30)).wrapping_mul(0xBF58_476D_1CE4_E5B9);
    let b: u64 = (a ^ (a >> 27)).wrapping_mul(0x94D0_49BB_1331_11EB);
    b ^ (b >> 31)
}

/// A share has 24 bits.
pub proof fn lemma_unit_is_small(state: u64)
    ensures
        unit(state) < 0x100_0000,
        drawn(state) >> 40 < 0x100_0000,
{
    let n = drawn(state);
    assert(n >> 40 < 0x100_0000) by (bit_vector);
}

/// One draw, as a share of one in parts of 2^24.
pub fn next_unit(state: &mut u64) -> (k: u32)
    ensures
        *final(state) == next_state(*old(state)),
        k == unit(*old(state)),
        k < 0x100_0000,
{
    proof {
        lemma_unit_is_small(*state);
    }
    let n: u64 = splitmix64(state);
    (n >> 40) as u32
}

/// The number that lies the share `k` of the way from `low` to `high`.
pub open spec fn between(k: int, low: int, high: int) -> int {
    low + (k * (high - low)) / 0x100_0000
}

/// A draw between `low` and `high`.
pub fn next_between(state: &mut u64, low: i64, high: i64) -> (v: i64)
    requires
        low <= high,
        -0x1_0000_0000 <= low,
        high <= 0x1_0000_0000,
    ensures
        *final(state) == next_state(*old(state)),
        v == between(unit(*old(state)) as int, low as int, high as int),
        low <= v <= high,
{
    let k: u32 = next_unit(state);
    let gap: u64 = (high - low) as u64;
    proof {
        assert(0 <= k * gap <= 0x100_0000 * gap) by (nonlinear_arith)
            requires
                0 <= k < 0x100_0000,
                0 <= gap,
        ;
        assert(0 <= (k * gap) / 0x100_0000 <= gap);
    }
    low + ((k as u64 * gap) / 0x100_0000) as i64
}

/// A draw lies its share of the way from the low end to the high one: at the low end for none,
/// never past the high end, and the farther the larger the share.
pub proof fn law_a_draw_lies_between(k: int, more: int, low: int, high: int)
    requires
        low <= high,
        0 <= k <= more < 0x100_0000,
    ensures
        low <= between(k, low, high) <= between(more, low, high) <= high,
        between(0, low, high) == low,
        0x100_0000 * (between(k, low, high) - low) <= k * (high - low) < 0x100_0000 * (between(
            k,
            low,
            high,
        ) - low) + 0x100_0000,
{
    let gap = high - low;
    assert(0 <= k * gap <= more * gap <= 0x100_0000 * gap) by (nonlinear_arith)
        requires
            0 <= k <= more < 0x100_0000,
            0 <= gap,
    ;
    assert(0 * gap == 0);
}

/// A stream goes on from draw to draw: the share after the next is the next of the stream that
/// has drawn one.
pub proof fn law_a_stream_goes_on(state: u64, n: nat)
    ensures
        unit_at(state, 0) == unit(state),
        unit_at(state, n + 1) == unit_at(next_state(state), n),
        unit_at(state, n) < 0x100_0000,
    decreases n,
{
    lemma_stream(state, n);
    lemma_unit_is_small(state_after(state, n));
    assert(state_after(state, 0) == state);
}

proof fn lemma_stream(state: u64, n: nat)
    ensures
        state_after(state, n + 1) == state_after(next_state(state), n),
    decreases n,
{
    if n > 0 {
        lemma_stream(state, (n - 1) as nat);
    } else {
        reveal_with_fuel(state_after, 2);
    }
}

} // verus!
