//! A position-tracked view over a byte slice with primitive decoding.

use vstd::prelude::*;
use vstd::slice::slice_index_get;
use crate::dlt::payload::ByteConverter;
use crate::dlt::DltError;

verus! {

/// The value of a byte sequence read most significant byte first.
pub open spec fn be_nat(s: Seq<u8>) -> nat
    decreases s.len(),
{
    if s.len() == 0 {
        0
    } else {
        be_nat(s.drop_last()) * 256 + s.last() as nat
    }
}

/// The value of a byte sequence read least significant byte first.
pub open spec fn le_nat(s: Seq<u8>) -> nat
    decreases s.len(),
{
    if s.len() == 0 {
        0
    } else {
        s.first() as nat + 256 * le_nat(s.drop_first())
    }
}

/// 256 raised to the power `n`: the number of values `n` bytes can hold.
pub open spec fn pow256(n: nat) -> nat
    decreases n,
{
    if n == 0 {
        1
    } else {
        256 * pow256((n - 1) as nat)
    }
}

/// The value selected by a byte order: big- or little-endian.
pub open spec fn num_of(conv: ByteConverter, s: Seq<u8>) -> nat {
    if conv.spec_is_be() {
        be_nat(s)
    } else {
        le_nat(s)
    }
}

pub proof fn lemma_be_nat_bound(s: Seq<u8>)
    ensures
        be_nat(s) < pow256(s.len()),
    decreases s.len(),
{
    if s.len() > 0 {
        lemma_be_nat_bound(s.drop_last());
    }
}

pub proof fn lemma_le_nat_bound(s: Seq<u8>)
    ensures
        le_nat(s) < pow256(s.len()),
    decreases s.len(),
{
    if s.len() > 0 {
        lemma_le_nat_bound(s.drop_first());
    }
}

pub proof fn lemma_num_of_bound(conv: ByteConverter, s: Seq<u8>)
    ensures
        num_of(conv, s) < pow256(s.len()),
{
    lemma_be_nat_bound(s);
    lemma_le_nat_bound(s);
}

/// The byte sequence with its trailing NUL bytes removed.
pub open spec fn trim_zeros(s: Seq<u8>) -> Seq<u8>
    decreases s.len(),
{
    if s.len() > 0 && s.last() == 0 {
        trim_zeros(s.drop_last())
    } else {
        s
    }
}

/// Whether the NUL-trimmed bytes form valid UTF-8.
pub open spec fn ident_ok(bytes: Seq<u8>) -> bool {
    vstd::utf8::valid_utf8(trim_zeros(bytes))
}

/// The characters of the NUL-trimmed bytes, decoded as UTF-8.
pub open spec fn decoded_ident(bytes: Seq<u8>) -> Seq<char> {
    vstd::utf8::decode_utf8(trim_zeros(bytes))
}

/// Relies on `String::from_utf8`: it returns `Ok` exactly when the bytes are
/// valid UTF-8, and the returned string holds the characters those bytes
/// encode (`vstd::utf8` formalizes that encoding).
#[verifier::external_body]
pub(crate) fn bytes_to_string(bytes: Vec<u8>) -> (r: Option<String>)
    ensures
        r is Some <==> vstd::utf8::valid_utf8(bytes@),
        r matches Some(s) ==> s@ == vstd::utf8::decode_utf8(bytes@),
{
    String::from_utf8(bytes).ok()
}

/// A read position over an externally owned byte buffer.
pub struct Cursor<'a> {
    pub data: &'a [u8],
    pub pos: usize,
}

impl<'a> Cursor<'a> {
    pub fn new(data: &'a [u8], pos: usize) -> (c: Cursor<'a>)
        ensures
            c.data@ == data@,
            c.pos == pos,
    {
        Cursor { data, pos }
    }

    pub fn pos(&self) -> (p: usize)
        ensures
            p == self.pos,
    {
        self.pos
    }

    pub fn set_pos(&mut self, p: usize)
        ensures
            final(self).pos == p,
            final(self).data@ == old(self).data@,
    {
        self.pos = p;
    }

    /// Advances past `n` bytes without decoding them.
    pub fn skip(&mut self, n: usize) -> (r: Result<(), DltError>)
        ensures
            final(self).data@ == old(self).data@,
            match r {
                Ok(()) => old(self).pos + n <= old(self).data@.len() && final(self).pos
                    == old(self).pos + n,
                Err(e) => e == DltError::Truncated && final(self).pos == old(self).pos && old(
                    self,
                ).pos + n > old(self).data@.len(),
            },
    {
        let len = self.data.len();
        if n > len || self.pos > len - n {
            Err(DltError::Truncated)
        } else {
            self.pos = self.pos + n;
            Ok(())
        }
    }

    pub fn peek_u8(&self) -> (r: Result<u8, DltError>)
        ensures
            match r {
                Ok(v) => self.pos < self.data@.len() && v == self.data@[self.pos as int],
                Err(e) => e == DltError::Truncated && self.pos >= self.data@.len(),
            },
    {
        if self.pos < self.data.len() {
            Ok(*slice_index_get(self.data, self.pos))
        } else {
            Err(DltError::Truncated)
        }
    }

    pub fn read_u8(&mut self) -> (r: Result<u8, DltError>)
        ensures
            final(self).data@ == old(self).data@,
            match r {
                Ok(v) => old(self).pos < old(self).data@.len() && v == old(self).data@[old(
                    self,
                ).pos as int] && final(self).pos == old(self).pos + 1,
                Err(e) => e == DltError::Truncated && final(self).pos == old(self).pos && old(
                    self,
                ).pos >= old(self).data@.len(),
            },
    {
        if self.pos < self.data.len() {
            let b = *slice_index_get(self.data, self.pos);
            self.pos = self.pos + 1;
            Ok(b)
        } else {
            Err(DltError::Truncated)
        }
    }

    /// Reads `n` bytes (at most 16) as an unsigned value in the given order.
    fn read_unsigned(&mut self, n: usize, conv: &ByteConverter) -> (r: Result<u128, DltError>)
        requires
            n <= 16,
        ensures
            final(self).data@ == old(self).data@,
            match r {
                Ok(v) => old(self).pos + n <= old(self).data@.len() && final(self).pos == old(
                    self,
                ).pos + n && v == num_of(
                    *conv,
                    old(self).data@.subrange(old(self).pos as int, old(self).pos + n),
                ),
                Err(e) => e == DltError::Truncated && final(self).pos == old(self).pos && old(
                    self,
                ).pos + n > old(self).data@.len(),
            },
    {
        let len = self.data.len();
        if n > len || self.pos > len - n {
            return Err(DltError::Truncated);
        }
        let ghost s = self.data@.subrange(self.pos as int, self.pos + n as int);
        proof {
            lemma_pow256_le_max(n as nat);
        }
        let mut acc: u128 = 0;
        if conv.is_be() {
            let mut i: usize = 0;
            while i < n
                invariant
                    i <= n,
                    n <= 16,
                    self.pos + n <= self.data@.len(),
                    self.pos + n <= usize::MAX,
                    s == self.data@.subrange(self.pos as int, self.pos + n),
                    acc == be_nat(s.take(i as int)),
                    acc < pow256(i as nat),
                decreases n - i,
            {
                proof {
                    assert(s.take(i + 1).drop_last() =~= s.take(i as int));
                    lemma_pow256_le_max((i + 1) as nat);
                }
                let b = *slice_index_get(self.data, self.pos + i);
                assert(s.take(i + 1).last() == b);
                acc = acc * 256 + (b as u128);
                i = i + 1;
            }
            proof {
                assert(s.take(n as int) =~= s);
            }
        } else {
            let mut i: usize = n;
            while i > 0
                invariant
                    i <= n,
                    n <= 16,
                    self.pos + n <= self.data@.len(),
                    self.pos + n <= usize::MAX,
                    s == self.data@.subrange(self.pos as int, self.pos + n),
                    acc == le_nat(s.subrange(i as int, n as int)),
                    acc < pow256((n - i) as nat),
                decreases i,
            {
                proof {
                    assert(s.subrange(i - 1, n as int).drop_first() =~= s.subrange(
                        i as int,
                        n as int,
                    ));
                    lemma_pow256_le_max((n - i + 1) as nat);
                }
                i = i - 1;
                let b = *slice_index_get(self.data, self.pos + i);
                assert(s.subrange(i as int, n as int).first() == b);
                acc = acc * 256 + (b as u128);
                assert(acc == le_nat(s.subrange(i as int, n as int))) by {
                    assert(le_nat(s.subrange(i as int, n as int)) == b + 256 * le_nat(
                        s.subrange(i + 1, n as int),
                    ));
                };
            }
            proof {
                assert(s.subrange(0, n as int) =~= s);
            }
        }
        self.pos = self.pos + n;
        Ok(acc)
    }

    pub fn read_u16(&mut self, conv: &ByteConverter) -> (r: Result<u16, DltError>)
        ensures
            final(self).data@ == old(self).data@,
            match r {
                Ok(v) => old(self).pos + 2 <= old(self).data@.len() && final(self).pos == old(
                    self,
                ).pos + 2 && v == num_of(
                    *conv,
                    old(self).data@.subrange(old(self).pos as int, old(self).pos + 2),
                ),
                Err(e) => e == DltError::Truncated && final(self).pos == old(self).pos && old(
                    self,
                ).pos + 2 > old(self).data@.len(),
            },
    {
        let v = self.read_unsigned(2, conv)?;
        proof {
            lemma_num_of_bound(*conv, old(self).data@.subrange(old(self).pos as int, old(self).pos + 2));
            reveal_with_fuel(pow256, 3);
        }
        Ok(v as u16)
    }

    pub fn read_u32(&mut self, conv: &ByteConverter) -> (r: Result<u32, DltError>)
        ensures
            final(self).data@ == old(self).data@,
            match r {
                Ok(v) => old(self).pos + 4 <= old(self).data@.len() && final(self).pos == old(
                    self,
                ).pos + 4 && v == num_of(
                    *conv,
                    old(self).data@.subrange(old(self).pos as int, old(self).pos + 4),
                ),
                Err(e) => e == DltError::Truncated && final(self).pos == old(self).pos && old(
                    self,
                ).pos + 4 > old(self).data@.len(),
            },
    {
        let v = self.read_unsigned(4, conv)?;
        proof {
            lemma_num_of_bound(*conv, old(self).data@.subrange(old(self).pos as int, old(self).pos + 4));
            reveal_with_fuel(pow256, 5);
        }
        Ok(v as u32)
    }

    pub fn read_u64(&mut self, conv: &ByteConverter) -> (r: Result<u64, DltError>)
        ensures
            final(self).data@ == old(self).data@,
            match r {
                Ok(v) => old(self).pos + 8 <= old(self).data@.len() && final(self).pos == old(
                    self,
                ).pos + 8 && v == num_of(
                    *conv,
                    old(self).data@.subrange(old(self).pos as int, old(self).pos + 8),
                ),
                Err(e) => e == DltError::Truncated && final(self).pos == old(self).pos && old(
                    self,
                ).pos + 8 > old(self).data@.len(),
            },
    {
        let v = self.read_unsigned(8, conv)?;
        proof {
            lemma_num_of_bound(*conv, old(self).data@.subrange(old(self).pos as int, old(self).pos + 8));
            reveal_with_fuel(pow256, 9);
        }
        Ok(v as u64)
    }

    /// Reads `n` bytes, strips trailing NUL bytes, and decodes the rest as
    /// UTF-8. The position advances past all `n` bytes even when the bytes
    /// are not valid UTF-8, so that decoding can continue behind the field.
    pub(crate) fn read_trimmed(&mut self, n: usize) -> (r: Result<String, DltError>)
        ensures
            final(self).data@ == old(self).data@,
            ({
                let d = old(self).data@;
                let p = old(self).pos as int;
                match r {
                    Ok(s) => p + n <= d.len() && final(self).pos == p + n && ident_ok(
                        d.subrange(p, p + n),
                    ) && s@ == decoded_ident(d.subrange(p, p + n)),
                    Err(e) => if e == DltError::Truncated {
                        final(self).pos == p && p + n > d.len()
                    } else {
                        e == DltError::InvalidUtf8 && p + n <= d.len() && final(self).pos == p + n
                            && !ident_ok(d.subrange(p, p + n))
                    },
                }
            }),
    {
        let len = self.data.len();
        if n > len || self.pos > len - n {
            return Err(DltError::Truncated);
        }
        let ghost w = self.data@.subrange(self.pos as int, self.pos + n);
        proof {
            assert(w.take(n as int) =~= w);
        }
        let mut end: usize = n;
        while end > 0 && *slice_index_get(self.data, self.pos + end - 1) == 0
            invariant
                end <= n,
                self.pos + n <= self.data@.len(),
                self.pos + n <= usize::MAX,
                w == self.data@.subrange(self.pos as int, self.pos + n),
                trim_zeros(w) == trim_zeros(w.take(end as int)),
            decreases end,
        {
            proof {
                assert(w.take(end as int).drop_last() =~= w.take(end - 1));
            }
            end = end - 1;
        }
        proof {
            if end == 0 {
                assert(w.take(0) =~= Seq::<u8>::empty());
            }
            assert(trim_zeros(w.take(end as int)) == w.take(end as int));
        }
        let mut v: Vec<u8> = Vec::new();
        let mut i: usize = 0;
        while i < end
            invariant
                i <= end,
                end <= n,
                self.pos + n <= self.data@.len(),
                self.pos + n <= usize::MAX,
                w == self.data@.subrange(self.pos as int, self.pos + n),
                v@ == w.take(i as int),
            decreases end - i,
        {
            let b = *slice_index_get(self.data, self.pos + i);
            v.push(b);
            proof {
                assert(v@ =~= w.take(i + 1));
            }
            i = i + 1;
        }
        assert(v@ == trim_zeros(w));
        self.pos = self.pos + n;
        match bytes_to_string(v) {
            Some(s) => Ok(s),
            None => Err(DltError::InvalidUtf8),
        }
    }

    /// Reads `n` bytes as a NUL-padded identifier and decodes them.
    pub fn read_fixed_ascii(&mut self, n: usize) -> (r: Result<String, DltError>)
        ensures
            final(self).data@ == old(self).data@,
            ({
                let d = old(self).data@;
                let p = old(self).pos as int;
                match r {
                    Ok(s) => p + n <= d.len() && final(self).pos == p + n && ident_ok(
                        d.subrange(p, p + n),
                    ) && s@ == decoded_ident(d.subrange(p, p + n)),
                    Err(e) => if e == DltError::Truncated {
                        final(self).pos == p && p + n > d.len()
                    } else {
                        e == DltError::InvalidUtf8 && p + n <= d.len() && final(self).pos == p + n
                            && !ident_ok(d.subrange(p, p + n))
                    },
                }
            }),
    {
        self.read_trimmed(n)
    }

    /// Reads a 16-bit length `L` in the given order, then exactly `L` bytes,
    /// trimming trailing NUL bytes and decoding the rest as UTF-8.
    pub fn read_length_prefixed_string(&mut self, conv: &ByteConverter) -> (r: Result<
        String,
        DltError,
    >)
        ensures
            final(self).data@ == old(self).data@,
            ({
                let d = old(self).data@;
                let p = old(self).pos as int;
                let l = num_of(*conv, d.subrange(p, p + 2)) as int;
                match r {
                    Ok(s) => p + 2 <= d.len() && p + 2 + l <= d.len() && final(self).pos == p + 2
                        + l && ident_ok(d.subrange(p + 2, p + 2 + l)) && s@ == decoded_ident(
                        d.subrange(p + 2, p + 2 + l),
                    ),
                    Err(e) => if e == DltError::Truncated {
                        final(self).pos == p && (p + 2 > d.len() || p + 2 + l > d.len())
                    } else {
                        e == DltError::InvalidUtf8 && p + 2 <= d.len() && p + 2 + l <= d.len()
                            && final(self).pos == p + 2 + l && !ident_ok(
                            d.subrange(p + 2, p + 2 + l),
                        )
                    },
                }
            }),
    {
        let start = self.pos;
        let l = match self.read_u16(conv) {
            Ok(l) => l,
            Err(e) => {
                return Err(e);
            },
        };
        match self.read_trimmed(l as usize) {
            Ok(s) => Ok(s),
            Err(DltError::Truncated) => {
                self.set_pos(start);
                Err(DltError::Truncated)
            },
            Err(e) => Err(e),
        }
    }

    pub fn read_u128(&mut self, conv: &ByteConverter) -> (r: Result<u128, DltError>)
        ensures
            final(self).data@ == old(self).data@,
            match r {
                Ok(v) => old(self).pos + 16 <= old(self).data@.len() && final(self).pos == old(
                    self,
                ).pos + 16 && v == num_of(
                    *conv,
                    old(self).data@.subrange(old(self).pos as int, old(self).pos + 16),
                ),
                Err(e) => e == DltError::Truncated && final(self).pos == old(self).pos && old(
                    self,
                ).pos + 16 > old(self).data@.len(),
            },
    {
        self.read_unsigned(16, conv)
    }
}

/// The two's-complement reading of an 8-bit unsigned value.
pub open spec fn as_signed8(u: nat) -> int {
    if u < 0x80 {
        u as int
    } else {
        u - 0x100
    }
}

/// The two's-complement reading of a 16-bit unsigned value.
pub open spec fn as_signed16(u: nat) -> int {
    if u < 0x8000 {
        u as int
    } else {
        u - 0x10000
    }
}

/// The two's-complement reading of a 32-bit unsigned value.
pub open spec fn as_signed32(u: nat) -> int {
    if u < 0x80000000 {
        u as int
    } else {
        u - 0x100000000
    }
}

/// The two's-complement reading of a 64-bit unsigned value.
pub open spec fn as_signed64(u: nat) -> int {
    if u < 0x8000000000000000 {
        u as int
    } else {
        u - 0x10000000000000000
    }
}

/// The two's-complement reading of a 128-bit unsigned value.
pub open spec fn as_signed128(u: nat) -> int {
    if u < 0x80000000000000000000000000000000 {
        u as int
    } else {
        u - 0x100000000000000000000000000000000
    }
}

pub fn to_i8(u: u8) -> (r: i8)
    ensures
        r as int == as_signed8(u as nat),
{
    if u < 0x80 {
        u as i8
    } else {
        i8::MIN + ((u - 0x80) as i8)
    }
}

pub fn to_i16(u: u16) -> (r: i16)
    ensures
        r as int == as_signed16(u as nat),
{
    if u < 0x8000 {
        u as i16
    } else {
        i16::MIN + ((u - 0x8000) as i16)
    }
}

pub fn to_i32(u: u32) -> (r: i32)
    ensures
        r as int == as_signed32(u as nat),
{
    if u < 0x80000000 {
        u as i32
    } else {
        i32::MIN + ((u - 0x80000000) as i32)
    }
}

pub fn to_i64(u: u64) -> (r: i64)
    ensures
        r as int == as_signed64(u as nat),
{
    if u < 0x8000000000000000 {
        u as i64
    } else {
        i64::MIN + ((u - 0x8000000000000000) as i64)
    }
}

pub fn to_i128(u: u128) -> (r: i128)
    ensures
        r as int == as_signed128(u as nat),
{
    if u < 0x80000000000000000000000000000000 {
        u as i128
    } else {
        i128::MIN + ((u - 0x80000000000000000000000000000000) as i128)
    }
}

/// Every byte count up to 16 stays within the range of `u128`.
proof fn lemma_pow256_le_max(n: nat)
    requires
        n <= 16,
    ensures
        pow256(n) <= 0x100000000000000000000000000000000,
    decreases n,
{
    reveal_with_fuel(pow256, 17);
}

/// The `n`-byte little-endian encoding of `x`: least significant byte
/// first.
pub open spec fn le_bytes_of(x: nat, n: nat) -> Seq<u8>
    decreases n,
{
    if n == 0 {
        Seq::empty()
    } else {
        seq![(x % 256) as u8] + le_bytes_of(x / 256, (n - 1) as nat)
    }
}

/// The `n`-byte big-endian encoding of `x`: most significant byte first.
pub open spec fn be_bytes_of(x: nat, n: nat) -> Seq<u8>
    decreases n,
{
    if n == 0 {
        Seq::empty()
    } else {
        be_bytes_of(x / 256, (n - 1) as nat) + seq![(x % 256) as u8]
    }
}

/// Round trip: encoding a value as `n` little-endian bytes and reading
/// them back yields the value, for every value the bytes can hold.
pub proof fn lemma_le_round_trip(x: nat, n: nat)
    requires
        x < pow256(n),
    ensures
        le_bytes_of(x, n).len() == n,
        le_nat(le_bytes_of(x, n)) == x,
    decreases n,
{
    if n == 0 {
    } else {
        lemma_pow256_div(x, n);
        lemma_le_round_trip(x / 256, (n - 1) as nat);
        let s = le_bytes_of(x, n);
        assert(s.drop_first() =~= le_bytes_of(x / 256, (n - 1) as nat));
        assert(s.first() == (x % 256) as u8);
    }
}

/// Round trip: encoding a value as `n` big-endian bytes and reading them
/// back yields the value, for every value the bytes can hold.
pub proof fn lemma_be_round_trip(x: nat, n: nat)
    requires
        x < pow256(n),
    ensures
        be_bytes_of(x, n).len() == n,
        be_nat(be_bytes_of(x, n)) == x,
    decreases n,
{
    if n == 0 {
    } else {
        lemma_pow256_div(x, n);
        lemma_be_round_trip(x / 256, (n - 1) as nat);
        let s = be_bytes_of(x, n);
        assert(s.drop_last() =~= be_bytes_of(x / 256, (n - 1) as nat));
        assert(s.last() == (x % 256) as u8);
    }
}

proof fn lemma_pow256_div(x: nat, n: nat)
    requires
        n > 0,
        x < pow256(n),
    ensures
        x / 256 < pow256((n - 1) as nat),
{
    assert(pow256(n) == 256 * pow256((n - 1) as nat));
    assert(x / 256 < pow256((n - 1) as nat)) by (nonlinear_arith)
        requires
            x < 256 * pow256((n - 1) as nat),
    ;
}

} // verus!
