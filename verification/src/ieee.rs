//! IEEE-754 reals as bit patterns: rounding a binary64 to the binary32 that
//! the native format stores, and widening a binary32 back to binary64.

use vstd::prelude::*;
use vstd::arithmetic::power2::{pow2, lemma_pow2_pos, lemma_pow2_adds, lemma2_to64, lemma2_to64_rest, lemma_pow2_strictly_increases};
use vstd::arithmetic::div_mod::{lemma_div_by_multiple, lemma_mod_multiples_basic};

verus! {

/// `m / 2^k` rounded to the nearest integer, ties to even (`k >= 1`).
pub open spec fn round_half_even(m: nat, k: nat) -> nat {
    let q = m / pow2(k);
    let r = m % pow2(k);
    let h = pow2((k - 1) as nat);
    if r > h || (r == h && q % 2 == 1) {
        q + 1
    } else {
        q
    }
}

/// Magnitude bits of the binary32 nearest to the binary64 with exponent
/// field `e` and fraction field `f`.
pub open spec fn f32_magnitude(e: nat, f: nat) -> nat {
    if e == 2047 {
        if f == 0 {
            0x7F80_0000
        } else {
            let p = f / 0x2000_0000;
            0x7F80_0000 + (if p >= 0x40_0000 { p } else { p + 0x40_0000 })
        }
    } else {
        let m: nat = if e == 0 { f } else { f + 0x10_0000_0000_0000 };
        let ee: nat = if e == 0 { 1 } else { e };
        let raw: nat = if ee >= 897 {
            ((ee - 897) * 0x80_0000 + round_half_even(m, 29)) as nat
        } else {
            round_half_even(m, (926 - ee) as nat)
        };
        if raw >= 0x7F80_0000 { 0x7F80_0000 } else { raw }
    }
}

/// The binary32 bit pattern nearest to the binary64 with bit pattern `b`
/// (round to nearest, ties to even; overflow to infinity; a NaN keeps its
/// sign and the top of its payload and becomes quiet).
pub open spec fn f64_to_f32_bits(b: u64) -> u32 {
    let sign: nat = if b >= 0x8000_0000_0000_0000 { 0x8000_0000 } else { 0 };
    (sign + f32_magnitude(((b / 0x10_0000_0000_0000) % 2048) as nat, (b % 0x10_0000_0000_0000) as nat)) as u32
}

/// Index of the highest set bit (`0` for `0` and `1`).
pub open spec fn msb(x: nat) -> nat
    decreases x,
{
    if x <= 1 {
        0
    } else {
        1 + msb(x / 2)
    }
}

/// The binary64 bit pattern of the binary32 with bit pattern `w` (exact; a
/// NaN becomes quiet).
pub open spec fn f32_to_f64_bits(w: u32) -> u64 {
    let sign: nat = if w >= 0x8000_0000 { 0x8000_0000_0000_0000 } else { 0 };
    let e = (w / 0x80_0000) % 256;
    let f = w % 0x80_0000;
    let mag: nat = if e == 255 {
        if f == 0 {
            0x7FF0_0000_0000_0000
        } else {
            (0x7FF0_0000_0000_0000 + (if f >= 0x40_0000 { f as int } else { f + 0x40_0000 }) * 0x2000_0000) as nat
        }
    } else if e == 0 {
        if f == 0 {
            0
        } else {
            let p = msb(f as nat);
            ((p + 874) * 0x10_0000_0000_0000 + (f - pow2(p)) * pow2((52 - p) as nat)) as nat
        }
    } else {
        ((e + 896) * 0x10_0000_0000_0000 + f * 0x2000_0000) as nat
    };
    (sign + mag) as u64
}

/// A signalling binary32 NaN (the only inputs that widening does not keep).
pub open spec fn is_signalling_nan32(w: u32) -> bool {
    (w / 0x80_0000) % 256 == 255 && w % 0x80_0000 != 0 && w % 0x80_0000 < 0x40_0000
}

/// `2^k` for `k < 64`.
pub fn pow2_u64(k: u64) -> (r: u64)
    requires
        k < 64,
    ensures
        r == pow2(k as nat),
{
    let mut r: u64 = 1;
    let mut i: u64 = 0;
    proof {
        lemma2_to64();
        lemma2_to64_rest();
    }
    while i < k
        invariant
            i <= k < 64,
            r == pow2(i as nat),
        decreases k - i,
    {
        proof {
            vstd::arithmetic::power2::lemma_pow2_unfold((i + 1) as nat);
            vstd::bits::lemma_u64_pow2_no_overflow((i + 1) as nat);
        }
        r = r * 2;
        i = i + 1;
    }
    r
}

/// `m / 2^k` rounded half to even.
fn round_half_even_exec(m: u64, k: u64) -> (r: u64)
    requires
        m < 0x20_0000_0000_0000,
        k >= 1,
    ensures
        r == round_half_even(m as nat, k as nat),
{
    proof {
        lemma2_to64();
        lemma2_to64_rest();
    }
    if k >= 60 {
        proof {
            assert(pow2(53) == 0x20_0000_0000_0000);
            lemma_pow2_strictly_increases(53, (k - 1) as nat);
            lemma_pow2_strictly_increases((k - 1) as nat, k as nat);
            vstd::arithmetic::div_mod::lemma_small_mod(m as nat, pow2(k as nat));
            vstd::arithmetic::div_mod::lemma_basic_div(m as int, pow2(k as nat) as int);
        }
        return 0;
    }
    let p = pow2_u64(k);
    let h = pow2_u64(k - 1);
    proof {
        lemma_pow2_pos(k as nat);
    }
    let q = m / p;
    let rem = m % p;
    if rem > h || (rem == h && q % 2 == 1) {
        q + 1
    } else {
        q
    }
}

/// Rounds a binary64 (bit pattern) to the nearest binary32 (bit pattern).
pub fn f64_bits_to_f32_bits(b: u64) -> (r: u32)
    ensures
        r == f64_to_f32_bits(b),
{
    let sign: u32 = if b >= 0x8000_0000_0000_0000 { 0x8000_0000 } else { 0 };
    let e = (b / 0x10_0000_0000_0000) % 2048;
    let f = b % 0x10_0000_0000_0000;
    let mag: u32 = if e == 2047 {
        if f == 0 {
            0x7F80_0000
        } else {
            let p = (f / 0x2000_0000) as u32;
            0x7F80_0000 + (if p >= 0x40_0000 { p } else { p + 0x40_0000 })
        }
    } else {
        let m: u64 = if e == 0 { f } else { f + 0x10_0000_0000_0000 };
        let ee: u64 = if e == 0 { 1 } else { e };
        let raw: u64 = if ee >= 897 {
            let q = round_half_even_exec(m, 29);
            proof {
                lemma2_to64();
                assert(q <= 0x100_0000) by {
                    assert(m / 0x2000_0000 < 0x100_0000);
                }
            }
            (ee - 897) * 0x80_0000 + q
        } else {
            round_half_even_exec(m, 926 - ee)
        };
        if raw >= 0x7F80_0000 { 0x7F80_0000 } else { raw as u32 }
    };
    sign + mag
}

/// `2^msb(x) <= x < 2^(msb(x) + 1)` for `x >= 1`.
pub proof fn lemma_msb_bounds(x: nat)
    requires
        x >= 1,
    ensures
        pow2(msb(x)) <= x < pow2(msb(x) + 1),
    decreases x,
{
    vstd::arithmetic::power2::lemma_pow2_unfold(msb(x) + 1);
    if x > 1 {
        lemma_msb_bounds(x / 2);
        vstd::arithmetic::power2::lemma_pow2_unfold(msb(x));
    } else {
        lemma2_to64();
    }
}

/// Index of the highest set bit of a nonzero `x`.
fn msb_exec(x: u32) -> (p: u32)
    requires
        x >= 1,
    ensures
        p == msb(x as nat),
{
    let mut t = x;
    let mut p: u32 = 0;
    proof {
        lemma_msb_bounds(x as nat);
        lemma2_to64();
        if msb(x as nat) > 32 {
            lemma_pow2_strictly_increases(32, msb(x as nat));
        }
    }
    while t > 1
        invariant
            t >= 1,
            p + msb(t as nat) == msb(x as nat),
            msb(x as nat) <= 31,
        decreases t,
    {
        t = t / 2;
        p = p + 1;
    }
    p
}

/// Widens a binary32 (bit pattern) to the binary64 of the same value.
pub fn f32_bits_to_f64_bits(w: u32) -> (r: u64)
    ensures
        r == f32_to_f64_bits(w),
{
    let sign: u64 = if w >= 0x8000_0000 { 0x8000_0000_0000_0000 } else { 0 };
    let e = (w / 0x80_0000) % 256;
    let f = w % 0x80_0000;
    let mag: u64 = if e == 255 {
        if f == 0 {
            0x7FF0_0000_0000_0000
        } else {
            let q: u64 = if f >= 0x40_0000 { f as u64 } else { f as u64 + 0x40_0000 };
            0x7FF0_0000_0000_0000 + q * 0x2000_0000
        }
    } else if e == 0 {
        if f == 0 {
            0
        } else {
            let p = msb_exec(f);
            proof {
                lemma_msb_bounds(f as nat);
                lemma2_to64();
                if msb(f as nat) >= 23 {
                    lemma_pow2_strictly_increases(23, msb(f as nat));
                }
            }
            let lo = pow2_u64(p as u64);
            let sh = pow2_u64(52 - p as u64);
            proof {
                lemma_pow2_pos((52 - p) as nat);
                lemma_pow2_adds(p as nat, (52 - p) as nat);
                assert((f - lo) * sh <= f * sh) by (nonlinear_arith)
                    requires f >= lo, sh > 0;
                assert(f * sh < pow2((p + 1) as nat) * sh) by (nonlinear_arith)
                    requires f < pow2((p + 1) as nat), sh > 0;
                lemma_pow2_adds((p + 1) as nat, (52 - p) as nat);
                lemma2_to64_rest();
            }
            (p as u64 + 874) * 0x10_0000_0000_0000 + (f as u64 - lo) * sh
        }
    } else {
        (e as u64 + 896) * 0x10_0000_0000_0000 + f as u64 * 0x2000_0000
    };
    sign + mag
}

/// `round_half_even(q * 2^k, k) == q`: exact quotients are kept.
proof fn lemma_round_exact(q: nat, k: nat)
    requires
        k >= 1,
    ensures
        round_half_even(q * pow2(k), k) == q,
{
    lemma_pow2_pos(k);
    lemma_pow2_pos((k - 1) as nat);
    lemma_div_by_multiple(q as int, pow2(k) as int);
    lemma_mod_multiples_basic(q as int, pow2(k) as int);
}

/// The subnormal case of [`lemma_f32_round_trip`].
proof fn lemma_f32_round_trip_subnormal(w: u32)
    requires
        (w / 0x80_0000) % 256 == 0,
        w % 0x80_0000 != 0,
    ensures
        f64_to_f32_bits(f32_to_f64_bits(w)) == w,
{
    lemma2_to64();
    lemma2_to64_rest();
    let f = w % 0x80_0000;
    let b = f32_to_f64_bits(w);
    let hi: nat = if w >= 0x8000_0000 { 0x8000_0000 } else { 0 };
    assert(w == hi + f);
    let p = msb(f as nat);
    lemma_msb_bounds(f as nat);
    if p >= 23 {
        lemma_pow2_strictly_increases(23, p);
    }
    lemma_pow2_pos((52 - p) as nat);
    lemma_pow2_adds(p, (52 - p) as nat);
    vstd::arithmetic::power2::lemma_pow2_unfold(p + 1);
    let frac = (f - pow2(p)) * pow2((52 - p) as nat);
    assert(frac + 0x10_0000_0000_0000 == f * pow2((52 - p) as nat)) by (nonlinear_arith)
        requires
            frac == (f - pow2(p)) * pow2((52 - p) as nat),
            pow2(p) * pow2((52 - p) as nat) == 0x10_0000_0000_0000;
    assert(frac < 0x10_0000_0000_0000) by (nonlinear_arith)
        requires
            frac == (f - pow2(p)) * pow2((52 - p) as nat),
            f < pow2(p + 1),
            pow2(p + 1) == 2 * pow2(p),
            pow2(p) * pow2((52 - p) as nat) == 0x10_0000_0000_0000;
    lemma_round_exact(f as nat, (52 - p) as nat);
    let sg: nat = if b >= 0x8000_0000_0000_0000 { 0x8000_0000 } else { 0 };
    let e2: nat = ((b / 0x10_0000_0000_0000) % 2048) as nat;
    let f2: nat = (b % 0x10_0000_0000_0000) as nat;
    assert(e2 == p + 874);
    assert(f2 == frac);
    assert(sg == hi);
    assert(f32_magnitude(e2, f2) == f);
}

/// The normal case of [`lemma_f32_round_trip`].
proof fn lemma_f32_round_trip_normal(w: u32)
    requires
        0 < (w / 0x80_0000) % 256 < 255,
    ensures
        f64_to_f32_bits(f32_to_f64_bits(w)) == w,
{
    lemma2_to64();
    lemma2_to64_rest();
    let e = (w / 0x80_0000) % 256;
    let f = w % 0x80_0000;
    let b = f32_to_f64_bits(w);
    lemma_round_exact((f + 0x80_0000) as nat, 29);
    let e2: nat = ((b / 0x10_0000_0000_0000) % 2048) as nat;
    let f2: nat = (b % 0x10_0000_0000_0000) as nat;
    assert(e2 == e + 896);
    assert(f2 == f * 0x2000_0000);
    assert(f32_magnitude(e2, f2) == e * 0x80_0000 + f);
}

/// Widening a binary32 and rounding it back gives the same binary32, unless
/// it was a signalling NaN (which widening makes quiet).
pub proof fn lemma_f32_round_trip(w: u32)
    requires
        !is_signalling_nan32(w),
    ensures
        f64_to_f32_bits(f32_to_f64_bits(w)) == w,
{
    lemma2_to64();
    lemma2_to64_rest();
    let e = (w / 0x80_0000) % 256;
    let f = w % 0x80_0000;
    let b = f32_to_f64_bits(w);
    let hi: nat = if w >= 0x8000_0000 { 0x8000_0000 } else { 0 };
    assert(w == hi + e * 0x80_0000 + f);
    let sg: nat = if b >= 0x8000_0000_0000_0000 { 0x8000_0000 } else { 0 };
    let e2: nat = ((b / 0x10_0000_0000_0000) % 2048) as nat;
    let f2: nat = (b % 0x10_0000_0000_0000) as nat;
    if e == 0 {
        if f != 0 {
            lemma_f32_round_trip_subnormal(w);
        } else {
            lemma_pow2_pos(925);
            lemma_pow2_pos(924);
            assert(e2 == 0 && f2 == 0);
            assert(sg == hi);
            assert(f32_magnitude(e2, f2) == 0);
        }
    } else if e < 255 {
        lemma_f32_round_trip_normal(w);
    } else {
        assert(e2 == 2047);
        assert(sg == hi);
        if f == 0 {
            assert(f2 == 0);
        } else {
            assert(f2 == f * 0x2000_0000);
            assert(f32_magnitude(e2, f2) == 0x7F80_0000 + f);
        }
    }
}

} // verus!
