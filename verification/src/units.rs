//! Fixed-point scalar arithmetic.
//!
//! World coordinates are stored as `i64` ticks with [`UNIT`] ticks per world
//! unit.  Anchor offsets are rounded onto the whole-unit grid at registration
//! time (rounding half away from zero, as the engine's float rounding did),
//! so distance and compatibility checks stay stable.

use vstd::prelude::*;

verus! {

/// Ticks per world unit.
pub const UNIT: i64 = 1000;

/// Largest magnitude of any stored position coordinate, in ticks.
pub const POS_LIMIT: i64 = 400_000_000;

/// Largest magnitude of an anchor offset or collider half-extent, in ticks.
pub const OFF_LIMIT: i64 = 1_000_000;

/// Largest magnitude of a body scale component, in ticks (4.0 world scale).
pub const SCALE_LIMIT: i64 = 4_000;

/// Largest magnitude of a raw anchor marker coordinate, in ticks.
pub const RAW_LIMIT: i64 = 250_000;

/// Division rounding half away from zero, the convention of the engine's
/// coordinate rounding.
pub open spec fn round_div_spec(n: int, d: int) -> int
    recommends
        d > 0,
{
    if n >= 0 {
        (n + d / 2) / d
    } else {
        -((-n + d / 2) / d)
    }
}

/// Quotient of `n / d` rounded half away from zero.
pub fn round_div(n: i64, d: i64) -> (r: i64)
    requires
        0 < d,
        -1_000_000_000_000 <= n <= 1_000_000_000_000,
        d <= 1_000_000_000_000,
    ensures
        r == round_div_spec(n as int, d as int),
{
    if n >= 0 {
        (n + d / 2) / d
    } else {
        -((-n + d / 2) / d)
    }
}

/// A raw marker offset `t` scaled by a body scale `s` (both in ticks) and
/// rounded onto the whole-unit grid, in ticks.
pub open spec fn grid_offset_spec(t: int, s: int) -> int {
    round_div_spec(t * s, (UNIT * UNIT) as int) * (UNIT as int)
}

proof fn lemma_round_div_bound(n: int, d: int, b: int)
    requires
        0 < d,
        0 <= b,
        -(b * d) <= n <= b * d,
    ensures
        -b <= round_div_spec(n, d) <= b,
{
    if n >= 0 {
        assert(n + d / 2 <= b * d + d / 2);
        assert((b * d + d / 2) / d == b + (d / 2) / d) by (nonlinear_arith)
            requires 0 < d;
        assert((d / 2) / d == 0) by (nonlinear_arith)
            requires 0 < d;
        assert((n + d / 2) / d <= (b * d + d / 2) / d) by (nonlinear_arith)
            requires 0 < d && n + d / 2 <= b * d + d / 2;
        assert((n + d / 2) / d >= 0);
    } else {
        assert(-n + d / 2 <= b * d + d / 2);
        assert((b * d + d / 2) / d == b + (d / 2) / d) by (nonlinear_arith)
            requires 0 < d;
        assert((d / 2) / d == 0) by (nonlinear_arith)
            requires 0 < d;
        assert((-n + d / 2) / d <= (b * d + d / 2) / d) by (nonlinear_arith)
            requires 0 < d && -n + d / 2 <= b * d + d / 2;
        assert((-n + d / 2) / d >= 0);
    }
}

/// Scale a raw marker coordinate by a body scale component and round the
/// result onto the whole-unit grid.  The result is a multiple of [`UNIT`]
/// and within [`OFF_LIMIT`].
pub fn grid_offset(t: i64, s: i64) -> (r: i64)
    requires
        -RAW_LIMIT <= t <= RAW_LIMIT,
        -SCALE_LIMIT <= s <= SCALE_LIMIT,
    ensures
        r == grid_offset_spec(t as int, s as int),
        -OFF_LIMIT <= r <= OFF_LIMIT,
        (r as int) % (UNIT as int) == 0,
{
    proof {
        assert(t * s <= RAW_LIMIT * SCALE_LIMIT && -(RAW_LIMIT * SCALE_LIMIT) <= t * s)
            by (nonlinear_arith)
            requires -RAW_LIMIT <= t <= RAW_LIMIT && -SCALE_LIMIT <= s <= SCALE_LIMIT;
    }
    let scaled: i64 = t * s;
    let q: i64 = round_div(scaled, UNIT * UNIT);
    proof {
        lemma_round_div_bound(scaled as int, (UNIT * UNIT) as int, 1000);
        assert((q as int) * (UNIT as int) % (UNIT as int) == 0) by (nonlinear_arith);
    }
    q * UNIT
}

} // verus!
