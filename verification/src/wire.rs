//! Byte-level encodings of the native drawing-rules format: base-128 varints,
//! ZigZag, little-endian `u32`, length-prefixed UTF-8 strings, and the
//! binary64 -> binary32 rounding used for the format's `f32` fields.

use vstd::prelude::*;
use vstd::arithmetic::power2::{pow2, lemma_pow2_pos, lemma_pow2_adds, lemma2_to64};

verus! {

// ---------------------------------------------------------------- varints

/// Base-128 encoding, least significant group first, high bit = "more".
pub open spec fn enc_varuint(n: nat) -> Seq<u8>
    decreases n,
{
    if n <= 127 {
        seq![n as u8]
    } else {
        seq![(n % 128 + 128) as u8] + enc_varuint(n / 128)
    }
}

/// Appends the base-128 encoding of `value`.
pub fn write_varuint(out: &mut Vec<u8>, value: u64)
    ensures
        final(out)@ == old(out)@ + enc_varuint(value as nat),
{
    let ghost orig = value;
    let ghost start = out@;
    let mut value = value;
    while value > 127
        invariant
            out@ + enc_varuint(value as nat) == start + enc_varuint(orig as nat),
        decreases value,
    {
        let ghost before = out@;
        out.push((value % 128 + 128) as u8);
        assert(enc_varuint(value as nat) == seq![(value % 128 + 128) as u8] + enc_varuint(
            (value / 128) as nat,
        ));
        assert(before + enc_varuint(value as nat) == out@ + enc_varuint((value / 128) as nat));
        value = value / 128;
    }
    out.push(value as u8);
    assert(enc_varuint(value as nat) == seq![value as u8]);
}

/// The base-128 encoding of `n` is as short as it can be: it has at least one
/// byte, every byte but the last has its high bit set and the last has it
/// clear, and its `k` bytes hold `n` in `7 * k` bits where `k - 1` groups of
/// seven would not do.
pub proof fn lemma_varuint_layout(n: nat)
    ensures
        enc_varuint(n).len() >= 1,
        forall|i: int| 0 <= i < enc_varuint(n).len() - 1 ==> enc_varuint(n)[i] >= 128,
        enc_varuint(n).last() < 128,
        n < pow2(7 * enc_varuint(n).len()),
        enc_varuint(n).len() > 1 ==> pow2((7 * (enc_varuint(n).len() - 1)) as nat) <= n,
    decreases n,
{
    lemma2_to64();
    let e = enc_varuint(n);
    if n <= 127 {
        assert(e == seq![n as u8]);
    } else {
        let m = n / 128;
        let rest = enc_varuint(m);
        lemma_varuint_layout(m);
        assert(e == seq![(n % 128 + 128) as u8] + rest);
        let l = rest.len();
        assert forall|i: int| 0 <= i < e.len() - 1 implies e[i] >= 128 by {
            if i > 0 {
                assert(e[i] == rest[i - 1]);
            }
        }
        assert(e.last() == rest.last());
        lemma_pow2_adds(7, 7 * l);
        assert(pow2(7 * e.len()) == 128 * pow2(7 * l)) by {
            assert(7 * e.len() == 7 + 7 * l);
        }
        assert(n < 128 * pow2(7 * l)) by (nonlinear_arith)
            requires
                n == 128 * m + n % 128,
                n % 128 < 128,
                m < pow2(7 * l),
        ;
        if l > 1 {
            let k = (7 * (l - 1)) as nat;
            lemma_pow2_adds(7, k);
            assert((7 * (e.len() - 1)) as nat == 7 + k);
            assert(128 * pow2(k) <= n) by (nonlinear_arith)
                requires
                    n == 128 * m + n % 128,
                    n % 128 >= 0,
                    pow2(k) <= m,
            ;
        } else {
            assert((7 * (e.len() - 1)) as nat == 7);
        }
    }
}

/// ZigZag mapping of a signed value onto the naturals.
pub open spec fn zigzag(v: int) -> nat {
    if v >= 0 {
        (2 * v) as nat
    } else {
        (-2 * v - 1) as nat
    }
}

/// Appends the ZigZag varint encoding of a value that fits in 32 bits.
pub fn write_varint(out: &mut Vec<u8>, value: i64)
    requires
        -0x8000_0000 <= value < 0x8000_0000,
    ensures
        final(out)@ == old(out)@ + enc_varuint(zigzag(value as int)),
{
    let u: u64 = if value >= 0 {
        (value as u64) * 2
    } else {
        ((-(value + 1)) as u64) * 2 + 1
    };
    write_varuint(out, u);
}

/// Little-endian bytes of a `u32`.
pub open spec fn enc_u32(v: u32) -> Seq<u8> {
    seq![
        (v % 256) as u8,
        ((v / 256) % 256) as u8,
        ((v / 65536) % 256) as u8,
        (v / 16777216) as u8,
    ]
}

/// Appends the little-endian bytes of `value`.
pub fn write_u32(out: &mut Vec<u8>, value: u32)
    ensures
        final(out)@ == old(out)@ + enc_u32(value),
{
    out.push((value % 256) as u8);
    out.push(((value / 256) % 256) as u8);
    out.push(((value / 65536) % 256) as u8);
    out.push((value / 16777216) as u8);
    assert(out@ =~= old(out)@ + enc_u32(value));
}

/// Length-prefixed UTF-8 encoding of a string.
pub open spec fn enc_string(s: Seq<char>) -> Seq<u8> {
    enc_varuint(vstd::utf8::encode_utf8(s).len()) + vstd::utf8::encode_utf8(s)
}

/// Appends the length-prefixed UTF-8 bytes of `s`.
pub fn write_string(out: &mut Vec<u8>, s: &str)
    ensures
        final(out)@ == old(out)@ + enc_string(s@),
{
    let data = s.as_bytes();
    write_varuint(out, data.len() as u64);
    let ghost mid = out@;
    out.extend_from_slice(data);
    assert(out@ == mid + data@);
}

} // verus!
