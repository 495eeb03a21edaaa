//! Reading the byte-level encodings back: a cursor over a byte slice whose
//! every step follows a spec-level decoder, and the facts that decoding an
//! encoding gives back what was encoded.

use vstd::prelude::*;
use vstd::arithmetic::power2::{pow2, lemma_pow2_pos, lemma_pow2_adds, lemma2_to64, lemma2_to64_rest, lemma_pow2_strictly_increases};
use vstd::string::StringExecFns;
use crate::ieee::{f32_to_f64_bits, pow2_u64};
use crate::wire::{enc_varuint, enc_u32, enc_string, zigzag};

verus! {

/// Why a drawing-rules blob could not be read.
pub enum DecodeError {
    Truncated,
    LongVarint,
    BadMagic,
    BadVersion(u8),
    TruncatedSection,
    SectionOverrun,
    BadStringTable,
    BadStringIndex,
    BadColorIndex,
}

/// The message reported for a decoding error.
pub open spec fn error_text(e: DecodeError) -> Seq<char> {
    match e {
        DecodeError::Truncated => "Truncated drules data"@,
        DecodeError::LongVarint => "Malformed varint in drules data"@,
        DecodeError::BadMagic => "Not a drules file (bad magic)"@,
        DecodeError::BadVersion(v) => "Unsupported drules format version "@ + crate::text::dec_digits(v as nat),
        DecodeError::TruncatedSection => "Truncated drules section"@,
        DecodeError::SectionOverrun => "Drules section overrun"@,
        DecodeError::BadStringTable => "String table must start with the empty string"@,
        DecodeError::BadStringIndex => "String index out of range in drules data"@,
        DecodeError::BadColorIndex => "Color index out of range in drules data"@,
    }
}

/// The message of a decoding error, as a string.
pub fn error_string(e: &DecodeError) -> (r: String)
    ensures
        r@ == error_text(*e),
{
    match e {
        DecodeError::Truncated => String::from_str("Truncated drules data"),
        DecodeError::LongVarint => String::from_str("Malformed varint in drules data"),
        DecodeError::BadMagic => String::from_str("Not a drules file (bad magic)"),
        DecodeError::BadVersion(v) => {
            let mut s = String::from_str("Unsupported drules format version ");
            crate::text::push_u64(&mut s, *v as u64);
            s
        },
        DecodeError::TruncatedSection => String::from_str("Truncated drules section"),
        DecodeError::SectionOverrun => String::from_str("Drules section overrun"),
        DecodeError::BadStringTable => String::from_str("String table must start with the empty string"),
        DecodeError::BadStringIndex => String::from_str("String index out of range in drules data"),
        DecodeError::BadColorIndex => String::from_str("Color index out of range in drules data"),
    }
}

/// A decoding step: the value read and the position after it.
pub type Step<T> = Result<(T, int), DecodeError>;

pub open spec fn dec_u8(d: Seq<u8>, p: int) -> Step<u8> {
    if 0 <= p < d.len() {
        Ok((d[p], p + 1))
    } else {
        Err(DecodeError::Truncated)
    }
}

/// Base-128 decoding from `p`, with `acc` holding the groups below `shift`.
/// Bits beyond 64 are dropped; an eleventh byte is refused.
pub open spec fn dec_varuint_from(d: Seq<u8>, p: int, shift: nat, acc: nat) -> Step<u64>
    decreases d.len() - p,
{
    if !(0 <= p < d.len()) {
        Err(DecodeError::Truncated)
    } else if shift >= 64 {
        Err(DecodeError::LongVarint)
    } else {
        let b = d[p];
        let acc2: nat = ((acc + (b % 128) * pow2(shift)) as nat) % pow2(64);
        if b < 128 {
            Ok((acc2 as u64, p + 1))
        } else {
            dec_varuint_from(d, p + 1, shift + 7, acc2)
        }
    }
}

pub open spec fn dec_varuint(d: Seq<u8>, p: int) -> Step<u64> {
    dec_varuint_from(d, p, 0, 0)
}

/// Inverse of the ZigZag mapping on 64 bits.
pub open spec fn unzigzag(u: u64) -> i64 {
    if u % 2 == 0 {
        (u / 2) as i64
    } else {
        (-((u / 2) as int) - 1) as i64
    }
}

pub open spec fn dec_varint(d: Seq<u8>, p: int) -> Step<i64> {
    match dec_varuint(d, p) {
        Ok((u, q)) => Ok((unzigzag(u), q)),
        Err(e) => Err(e),
    }
}

pub open spec fn dec_u32(d: Seq<u8>, p: int) -> Step<u32> {
    if 0 <= p && p + 4 <= d.len() {
        Ok(((d[p] + d[p + 1] * 256 + d[p + 2] * 65536 + d[p + 3] * 16777216) as u32, p + 4))
    } else {
        Err(DecodeError::Truncated)
    }
}

/// A binary32 field, widened to a binary64 bit pattern.
pub open spec fn dec_f32(d: Seq<u8>, p: int) -> Step<u64> {
    match dec_u32(d, p) {
        Ok((w, q)) => Ok((f32_to_f64_bits(w), q)),
        Err(e) => Err(e),
    }
}

/// What `String::from_utf8_lossy` makes of some bytes.
pub uninterp spec fn utf8_lossy(bytes: Seq<u8>) -> Seq<char>;

/// The text of some bytes: their UTF-8 decoding when they are valid UTF-8,
/// else what `String::from_utf8_lossy` makes of them.
pub open spec fn bytes_text(bytes: Seq<u8>) -> Seq<char> {
    if vstd::utf8::valid_utf8(bytes) {
        vstd::utf8::decode_utf8(bytes)
    } else {
        utf8_lossy(bytes)
    }
}

/// Calls `String::from_utf8_lossy`, which decodes UTF-8 and replaces invalid
/// sequences; the documentation promises that valid UTF-8 is decoded unchanged.
#[verifier::external_body]
fn string_from_utf8_lossy(bytes: &[u8]) -> (r: String)
    ensures
        r@ == bytes_text(bytes@),
        !vstd::utf8::valid_utf8(bytes@) ==> r@ == utf8_lossy(bytes@),
{
    String::from_utf8_lossy(bytes).into_owned()
}

pub open spec fn dec_string(d: Seq<u8>, p: int) -> Step<Seq<char>> {
    match dec_varuint(d, p) {
        Ok((n, q)) => if n <= d.len() - q {
            Ok((bytes_text(d.subrange(q, q + n)), q + n))
        } else {
            Err(DecodeError::Truncated)
        },
        Err(e) => Err(e),
    }
}

/// A cursor over the bytes of a drawing-rules blob.
pub struct Reader<'a> {
    pub data: &'a [u8],
    pub pos: usize,
}

impl<'a> Reader<'a> {
    pub fn u8(&mut self) -> (r: Result<u8, DecodeError>)
        requires
            old(self).pos <= old(self).data@.len(),
        ensures
            final(self).pos <= final(self).data@.len(),
            final(self).data@ == old(self).data@,
            match dec_u8(old(self).data@, old(self).pos as int) {
                Ok((v, q)) => r == Ok::<u8, DecodeError>(v) && final(self).pos == q,
                Err(e) => r == Err::<u8, DecodeError>(e),
            },
    {
        if self.pos < self.data.len() {
            let b = self.data[self.pos];
            self.pos = self.pos + 1;
            Ok(b)
        } else {
            Err(DecodeError::Truncated)
        }
    }

    pub fn varuint(&mut self) -> (r: Result<u64, DecodeError>)
        requires
            old(self).pos <= old(self).data@.len(),
        ensures
            final(self).pos <= final(self).data@.len(),
            final(self).data@ == old(self).data@,
            match dec_varuint(old(self).data@, old(self).pos as int) {
                Ok((v, q)) => r == Ok::<u64, DecodeError>(v) && final(self).pos == q,
                Err(e) => r == Err::<u64, DecodeError>(e),
            },
    {
        let mut shift: u64 = 0;
        let mut result: u64 = 0;
        proof {
            lemma2_to64();
            lemma2_to64_rest();
        }
        loop
            invariant
                self.data@ == old(self).data@,
                self.pos <= self.data@.len(),
                shift <= 70,
                shift % 7 == 0,
                shift < 64 ==> result < pow2(shift as nat),
                dec_varuint(self.data@, old(self).pos as int) == dec_varuint_from(
                    self.data@,
                    self.pos as int,
                    shift as nat,
                    result as nat,
                ),
            decreases self.data@.len() - self.pos,
        {
            let b = match self.u8() {
                Ok(b) => b,
                Err(e) => return Err(e),
            };
            if shift >= 64 {
                return Err(DecodeError::LongVarint);
            }
            let low = (b % 128) as u64;
            let p = pow2_u64(shift);
            proof {
                lemma2_to64();
                lemma2_to64_rest();
                lemma_pow2_pos(shift as nat);
                if shift < 63 {
                    assert(shift <= 56);
                    lemma_pow2_adds(shift as nat, 7);
                    let pp: int = p as int;
                    let l: int = low as int;
                    assert(l * pp <= 127 * pp) by (nonlinear_arith)
                        requires l <= 127, pp > 0;
                    assert(pow2((shift + 7) as nat) == 128 * pp);
                    lemma_pow2_strictly_increases((shift + 7) as nat, 64);
                    assert(result + low * p < pow2((shift + 7) as nat));
                    vstd::arithmetic::div_mod::lemma_small_mod((result + low * p) as nat, pow2(64));
                } else {
                    let l: int = low as int;
                    assert(l * pow2(63) == (l % 2) * pow2(63) + (l / 2) * pow2(64)) by (nonlinear_arith)
                        requires pow2(64) == 2 * pow2(63), l >= 0;
                    vstd::arithmetic::div_mod::lemma_mod_multiples_vanish((l / 2) as int, (result + (l % 2) * pow2(63)) as int, pow2(64) as int);
                    vstd::arithmetic::div_mod::lemma_small_mod((result + (l % 2) * pow2(63)) as nat, pow2(64));
                }
            }
            let add: u64 = if shift == 63 { (low % 2) * p } else { low * p };
            result = result + add;
            if b < 128 {
                return Ok(result);
            }
            shift = shift + 7;
        }
    }

    pub fn varint(&mut self) -> (r: Result<i64, DecodeError>)
        requires
            old(self).pos <= old(self).data@.len(),
        ensures
            final(self).pos <= final(self).data@.len(),
            final(self).data@ == old(self).data@,
            match dec_varint(old(self).data@, old(self).pos as int) {
                Ok((v, q)) => r == Ok::<i64, DecodeError>(v) && final(self).pos == q,
                Err(e) => r == Err::<i64, DecodeError>(e),
            },
    {
        let u = match self.varuint() {
            Ok(u) => u,
            Err(e) => return Err(e),
        };
        if u % 2 == 0 {
            Ok((u / 2) as i64)
        } else {
            Ok(-((u / 2) as i64) - 1)
        }
    }

    pub fn u32(&mut self) -> (r: Result<u32, DecodeError>)
        requires
            old(self).pos <= old(self).data@.len(),
        ensures
            final(self).pos <= final(self).data@.len(),
            final(self).data@ == old(self).data@,
            match dec_u32(old(self).data@, old(self).pos as int) {
                Ok((v, q)) => r == Ok::<u32, DecodeError>(v) && final(self).pos == q,
                Err(e) => r == Err::<u32, DecodeError>(e),
            },
    {
        if self.pos < self.data.len() && self.data.len() - self.pos >= 4 {
            let p = self.pos;
            let v = self.data[p] as u32 + self.data[p + 1] as u32 * 256 + self.data[p + 2] as u32
                * 65536 + self.data[p + 3] as u32 * 16777216;
            self.pos = p + 4;
            Ok(v)
        } else {
            Err(DecodeError::Truncated)
        }
    }

    pub fn real32(&mut self) -> (r: Result<u64, DecodeError>)
        requires
            old(self).pos <= old(self).data@.len(),
        ensures
            final(self).pos <= final(self).data@.len(),
            final(self).data@ == old(self).data@,
            match dec_f32(old(self).data@, old(self).pos as int) {
                Ok((v, q)) => r == Ok::<u64, DecodeError>(v) && final(self).pos == q,
                Err(e) => r == Err::<u64, DecodeError>(e),
            },
    {
        match self.u32() {
            Ok(w) => Ok(crate::ieee::f32_bits_to_f64_bits(w)),
            Err(e) => Err(e),
        }
    }

    pub fn string(&mut self) -> (r: Result<String, DecodeError>)
        requires
            old(self).pos <= old(self).data@.len(),
        ensures
            final(self).pos <= final(self).data@.len(),
            final(self).data@ == old(self).data@,
            match dec_string(old(self).data@, old(self).pos as int) {
                Ok((v, q)) => r is Ok && r->Ok_0@ == v && final(self).pos == q,
                Err(e) => r == Err::<String, DecodeError>(e),
            },
    {
        let n = match self.varuint() {
            Ok(n) => n,
            Err(e) => return Err(e),
        };
        if n > (self.data.len() - self.pos) as u64 {
            return Err(DecodeError::Truncated);
        }
        let start = self.pos;
        let end = start + n as usize;
        let bytes = &self.data[start..end];
        self.pos = end;
        Ok(string_from_utf8_lossy(bytes))
    }
}

// ------------------------------------------------ decoding an encoding

/// Decoding the base-128 encoding of `n` (placed at `p`, above `shift` bits
/// already read into `acc`) reads exactly that encoding.
pub proof fn lemma_dec_enc_varuint(d: Seq<u8>, p: int, n: nat, shift: nat, acc: nat)
    requires
        0 <= p,
        p + enc_varuint(n).len() <= d.len(),
        d.subrange(p, p + enc_varuint(n).len()) == enc_varuint(n),
        shift <= 63,
        acc < pow2(shift),
        acc + n * pow2(shift) < pow2(64),
    ensures
        dec_varuint_from(d, p, shift, acc) == Ok::<(u64, int), DecodeError>(
            ((acc + n * pow2(shift)) as u64, p + enc_varuint(n).len()),
        ),
    decreases n,
{
    lemma2_to64();
    lemma2_to64_rest();
    lemma_pow2_pos(shift);
    let e = enc_varuint(n);
    assert(d[p] == e[0]);
    if n <= 127 {
        vstd::arithmetic::div_mod::lemma_small_mod((acc + n * pow2(shift)) as nat, pow2(64));
    } else {
        let b = e[0];
        assert(b == n % 128 + 128);
        let rest = enc_varuint(n / 128);
        assert(e == seq![b] + rest);
        let acc2 = acc + (n % 128) * pow2(shift);
        lemma_pow2_adds(shift, 7);
        assert(n * pow2(shift) == (n / 128) * (128 * pow2(shift)) + (n % 128) * pow2(shift)) by (nonlinear_arith)
            requires
                n == (n / 128) * 128 + n % 128;
        assert((n / 128) * (128 * pow2(shift)) >= 128 * pow2(shift)) by (nonlinear_arith)
            requires
                n / 128 >= 1,
                pow2(shift) > 0;
        assert(pow2(shift + 7) == 128 * pow2(shift));
        assert(shift + 7 <= 63) by {
            if shift + 7 > 63 {
                lemma_pow2_strictly_increases(63, shift + 7);
                assert(pow2(64) == 2 * pow2(63));
            }
        }
        assert((n % 128) * pow2(shift) <= 127 * pow2(shift)) by (nonlinear_arith)
            requires
                n % 128 <= 127,
                pow2(shift) > 0;
        vstd::arithmetic::div_mod::lemma_small_mod(acc2, pow2(64));
        assert(d.subrange(p + 1, p + 1 + rest.len()) == rest) by {
            assert(d.subrange(p + 1, p + 1 + rest.len()) == d.subrange(p, p + e.len()).subrange(1, e.len() as int));
        }
        lemma_dec_enc_varuint(d, p + 1, n / 128, shift + 7, acc2);
        assert(acc2 + (n / 128) * pow2(shift + 7) == acc + n * pow2(shift));
    }
}

} // verus!
