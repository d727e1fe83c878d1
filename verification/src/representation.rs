//! The packed 4-byte representation of a single UTF-8 encoded codepoint.
//!
//! The mathematical model is built on `vstd::utf8`: a value is well formed
//! when its four bytes start with the UTF-8 encoding of exactly one Unicode
//! scalar value and every remaining position holds the continuation-byte tag
//! `0x80` as a padding sentinel.

use vstd::prelude::*;
use vstd::utf8::{
    codepoint_width_2, codepoint_width_3, codepoint_width_4, decode_first_scalar, encode_scalar,
    has_width_1_encoding, has_width_2_encoding, has_width_3_encoding, has_width_4_encoding,
    is_continuation_byte, is_leading_byte_width_1, is_leading_byte_width_2,
    is_leading_byte_width_3, is_leading_byte_width_4, is_scalar, last_continuation_byte,
    leading_byte_width_1, leading_byte_width_2, leading_byte_width_3, leading_byte_width_4,
    length_of_first_scalar, not_surrogate, second_last_continuation_byte,
    third_last_continuation_byte, valid_first_scalar,
};

verus! {

/// The UTF-8 continuation-byte tag, `0b1000_0000`, also used as the padding
/// sentinel in unused trailing byte positions.
pub const TAG_CONTINUATION: u8 = 0x80;

/// The number of bytes in the UTF-8 encoding of the scalar value `v`.
pub open spec fn scalar_utf8_len(v: u32) -> int {
    if v < 0x80 {
        1
    } else if v < 0x800 {
        2
    } else if v < 0x10000 {
        3
    } else {
        4
    }
}

/// The packed 4-byte form of the scalar value `v`: its UTF-8 encoding
/// followed by sentinel padding.
pub open spec fn packed_of_scalar(v: u32) -> Seq<u8> {
    encode_scalar(v) + Seq::new((4 - encode_scalar(v).len()) as nat, |i: int| TAG_CONTINUATION)
}

/// True when `b` is a well-formed packed representation: four bytes that
/// begin with the UTF-8 encoding of exactly one Unicode scalar value and
/// carry the sentinel in every position past that encoding.
pub open spec fn is_packed(b: Seq<u8>) -> bool {
    &&& b.len() == 4
    &&& valid_first_scalar(b)
    &&& forall|i: int| length_of_first_scalar(b) <= i < 4 ==> b[i] == TAG_CONTINUATION
}

/// Encoding a width-1 scalar produces a valid lead byte that decodes back to
/// the same value.
proof fn lemma_encode_width_1(v: u32)
    by (bit_vector)
    requires
        has_width_1_encoding(v),
    ensures
        is_leading_byte_width_1(leading_byte_width_1(v)),
        leading_byte_width_1(v) == v,
{
}

/// Encoding a width-2 scalar produces a valid lead byte (never an overlong
/// lead) and continuation byte that decode back to the same value.
proof fn lemma_encode_width_2(v: u32)
    by (bit_vector)
    requires
        has_width_2_encoding(v),
    ensures
        is_leading_byte_width_2(leading_byte_width_2(v)),
        0xc2 <= leading_byte_width_2(v),
        is_continuation_byte(last_continuation_byte(v)),
        codepoint_width_2(leading_byte_width_2(v), last_continuation_byte(v)) == v,
{
}

/// Encoding a width-3 scalar produces a valid lead byte and continuation
/// bytes that decode back to the same value.
proof fn lemma_encode_width_3(v: u32)
    by (bit_vector)
    requires
        has_width_3_encoding(v),
    ensures
        is_leading_byte_width_3(leading_byte_width_3(v)),
        is_continuation_byte(second_last_continuation_byte(v)),
        is_continuation_byte(last_continuation_byte(v)),
        codepoint_width_3(
            leading_byte_width_3(v),
            second_last_continuation_byte(v),
            last_continuation_byte(v),
        ) == v,
{
}

/// Encoding a width-4 scalar produces a valid lead byte and continuation
/// bytes that decode back to the same value.
proof fn lemma_encode_width_4(v: u32)
    by (bit_vector)
    requires
        has_width_4_encoding(v),
    ensures
        is_leading_byte_width_4(leading_byte_width_4(v)),
        leading_byte_width_4(v) <= 0xf4,
        is_continuation_byte(third_last_continuation_byte(v)),
        is_continuation_byte(second_last_continuation_byte(v)),
        is_continuation_byte(last_continuation_byte(v)),
        codepoint_width_4(
            leading_byte_width_4(v),
            third_last_continuation_byte(v),
            second_last_continuation_byte(v),
            last_continuation_byte(v),
        ) == v,
{
}

/// A decoded width-1 byte is its own scalar value and re-encodes to itself.
proof fn lemma_decode_width_1(b1: u8)
    by (bit_vector)
    requires
        is_leading_byte_width_1(b1),
    ensures
        has_width_1_encoding(b1 as u32),
        b1 as u32 == vstd::utf8::codepoint_width_1(b1),
        leading_byte_width_1(vstd::utf8::codepoint_width_1(b1)) == b1,
{
}

/// A decoded width-2 pair that is not overlong yields a width-2 scalar that
/// re-encodes to the same two bytes.
proof fn lemma_decode_width_2(b1: u8, b2: u8)
    by (bit_vector)
    requires
        is_leading_byte_width_2(b1),
        is_continuation_byte(b2),
        0x80 <= codepoint_width_2(b1, b2),
    ensures
        has_width_2_encoding(codepoint_width_2(b1, b2)),
        leading_byte_width_2(codepoint_width_2(b1, b2)) == b1,
        last_continuation_byte(codepoint_width_2(b1, b2)) == b2,
{
}

/// A decoded width-3 triple that is not overlong and not a surrogate yields
/// a width-3 scalar that re-encodes to the same three bytes.
proof fn lemma_decode_width_3(b1: u8, b2: u8, b3: u8)
    by (bit_vector)
    requires
        is_leading_byte_width_3(b1),
        is_continuation_byte(b2),
        is_continuation_byte(b3),
        0x800 <= codepoint_width_3(b1, b2, b3),
        not_surrogate(codepoint_width_3(b1, b2, b3)),
    ensures
        has_width_3_encoding(codepoint_width_3(b1, b2, b3)),
        leading_byte_width_3(codepoint_width_3(b1, b2, b3)) == b1,
        second_last_continuation_byte(codepoint_width_3(b1, b2, b3)) == b2,
        last_continuation_byte(codepoint_width_3(b1, b2, b3)) == b3,
{
}

/// A decoded width-4 quadruple that is not overlong and not out of range
/// yields a width-4 scalar that re-encodes to the same four bytes.
proof fn lemma_decode_width_4(b1: u8, b2: u8, b3: u8, b4: u8)
    by (bit_vector)
    requires
        is_leading_byte_width_4(b1),
        is_continuation_byte(b2),
        is_continuation_byte(b3),
        is_continuation_byte(b4),
        0x10000 <= codepoint_width_4(b1, b2, b3, b4) <= 0x10ffff,
    ensures
        has_width_4_encoding(codepoint_width_4(b1, b2, b3, b4)),
        leading_byte_width_4(codepoint_width_4(b1, b2, b3, b4)) == b1,
        third_last_continuation_byte(codepoint_width_4(b1, b2, b3, b4)) == b2,
        second_last_continuation_byte(codepoint_width_4(b1, b2, b3, b4)) == b3,
        last_continuation_byte(codepoint_width_4(b1, b2, b3, b4)) == b4,
{
}

/// The first scalar of a well-formed byte sequence is a Unicode scalar value
/// whose encoded width matches its numeric range, and the sequence's first
/// bytes re-encode it exactly.
pub proof fn lemma_first_scalar_facts(b: Seq<u8>)
    requires
        valid_first_scalar(b),
    ensures
        is_scalar(decode_first_scalar(b)),
        length_of_first_scalar(b) == scalar_utf8_len(decode_first_scalar(b)),
        length_of_first_scalar(b) == encode_scalar(decode_first_scalar(b)).len(),
        encode_scalar(decode_first_scalar(b)) == b.subrange(0, length_of_first_scalar(b)),
{
    let v = decode_first_scalar(b);
    let w = length_of_first_scalar(b);
    if is_leading_byte_width_1(b[0]) {
        lemma_decode_width_1(b[0]);
        assert(encode_scalar(v) =~= b.subrange(0, 1));
    } else if is_leading_byte_width_2(b[0]) {
        lemma_decode_width_2(b[0], b[1]);
        assert(encode_scalar(v) =~= b.subrange(0, 2));
    } else if is_leading_byte_width_3(b[0]) {
        lemma_decode_width_3(b[0], b[1], b[2]);
        assert(encode_scalar(v) =~= b.subrange(0, 3));
    } else {
        lemma_decode_width_4(b[0], b[1], b[2], b[3]);
        assert(encode_scalar(v) =~= b.subrange(0, 4));
    }
}

/// Encoding a Unicode scalar value yields a well-formed single-scalar prefix
/// of the matching width that decodes back to the same value.
pub proof fn lemma_encode_scalar_facts(v: u32)
    requires
        is_scalar(v),
    ensures
        encode_scalar(v).len() == scalar_utf8_len(v),
        valid_first_scalar(encode_scalar(v)),
        length_of_first_scalar(encode_scalar(v)) == encode_scalar(v).len(),
        decode_first_scalar(encode_scalar(v)) == v,
{
    if has_width_1_encoding(v) {
        lemma_encode_width_1(v);
    } else if has_width_2_encoding(v) {
        lemma_encode_width_2(v);
    } else if has_width_3_encoding(v) {
        lemma_encode_width_3(v);
    } else {
        lemma_encode_width_4(v);
    }
}

/// The validity, width and value of a sequence's first scalar depend only on
/// the bytes inside that scalar's encoding: any longer sequence that agrees
/// on them carries the same first scalar.
pub proof fn lemma_first_scalar_prefix(s: Seq<u8>, t: Seq<u8>)
    requires
        valid_first_scalar(s),
        t.len() >= length_of_first_scalar(s),
        forall|i: int| 0 <= i < length_of_first_scalar(s) ==> t[i] == s[i],
    ensures
        valid_first_scalar(t),
        length_of_first_scalar(t) == length_of_first_scalar(s),
        decode_first_scalar(t) == decode_first_scalar(s),
{
    assert(t[0] == s[0]);
}

/// The packed form of a Unicode scalar value is well formed and decodes back
/// to that value.
pub proof fn lemma_packed_of_scalar(v: u32)
    requires
        is_scalar(v),
    ensures
        is_packed(packed_of_scalar(v)),
        decode_first_scalar(packed_of_scalar(v)) == v,
        length_of_first_scalar(packed_of_scalar(v)) == scalar_utf8_len(v),
        packed_of_scalar(v).subrange(0, scalar_utf8_len(v)) == encode_scalar(v),
{
    lemma_encode_scalar_facts(v);
    lemma_first_scalar_prefix(encode_scalar(v), packed_of_scalar(v));
    assert(packed_of_scalar(v).subrange(0, scalar_utf8_len(v)) =~= encode_scalar(v));
}

/// A well-formed packed value is determined by the scalar it holds: its four
/// bytes are exactly the packed form of its first scalar.
pub proof fn lemma_packed_canonical(b: Seq<u8>)
    requires
        is_packed(b),
    ensures
        b == packed_of_scalar(decode_first_scalar(b)),
{
    lemma_first_scalar_facts(b);
    let v = decode_first_scalar(b);
    assert(b =~= packed_of_scalar(v));
}

/// Two well-formed packed values holding the same scalar are byte-for-byte
/// equal, so packed equality coincides with scalar equality.
pub proof fn lemma_packed_injective(a: Seq<u8>, b: Seq<u8>)
    requires
        is_packed(a),
        is_packed(b),
        decode_first_scalar(a) == decode_first_scalar(b),
    ensures
        a == b,
{
    lemma_packed_canonical(a);
    lemma_packed_canonical(b);
}

/// Length of a UTF-8 encoded codepoint from its lead byte, computed by
/// counting the byte's leading one bits.
pub fn codepoint_len_bmi(byte: u8) -> (r: u8)
    ensures
        is_leading_byte_width_1(byte) ==> r == 1,
        is_leading_byte_width_2(byte) ==> r == 2,
        is_leading_byte_width_3(byte) ==> r == 3,
        is_leading_byte_width_4(byte) ==> r == 4,
{
    proof {
        vstd::std_specs::bits::axiom_u8_leading_ones(byte);
        let l = vstd::std_specs::bits::u8_leading_ones(byte) as u8;
        assert((byte <= 0x7f ==> l == 0) && (0xc0 <= byte <= 0xdf ==> l == 2) && (0xe0 <= byte
            <= 0xef ==> l == 3) && (0xf0 <= byte <= 0xf7 ==> l == 4)) by (bit_vector)
            requires
                l <= 8,
                l < 8 ==> (byte >> vstd::prelude::sub(7u8, l)) & 1u8 == 0u8,
                (!byte) >> vstd::prelude::sub(8u8, l) == 0,
        ;
    }
    (byte.leading_ones().saturating_sub(1) + 1) as u8
}

/// Length of a UTF-8 encoded codepoint from its lead byte, read out of a
/// 16-entry table keyed by the byte's high nibble.
pub fn codepoint_len_lut(byte: u8) -> (r: u8)
    ensures
        1 <= r <= 4,
        is_leading_byte_width_1(byte) ==> r == 1,
        is_leading_byte_width_2(byte) ==> r == 2,
        is_leading_byte_width_3(byte) ==> r == 3,
        is_leading_byte_width_4(byte) ==> r == 4,
{
    let lut: [u8; 16] = [1, 1, 1, 1, 1, 1, 1, 1, 1, 1, 1, 1, 2, 2, 3, 4];
    let idx = (byte >> 4) as usize;
    proof {
        assert(byte >> 4 < 16 && (byte <= 0x7f ==> byte >> 4 < 8) && (0xc0 <= byte <= 0xdf
            ==> (byte >> 4 == 12 || byte >> 4 == 13)) && (0xe0 <= byte <= 0xef ==> byte >> 4
            == 14) && (0xf0 <= byte <= 0xf7 ==> byte >> 4 == 15)) by (bit_vector);
    }
    lut[idx]
}

/// The packed 4-byte container: a UTF-8 encoded codepoint in bytes
/// `0..len`, sentinel padding in bytes `len..4`.  Every value of this type
/// is well formed; the invariant is established by the constructors and
/// preserved by the mutation primitive.
#[derive(Clone, Copy, Debug, Hash, PartialEq, Eq, PartialOrd, Ord)]
pub struct Utf8CharInner {
    pub(crate) repr: [u8; 4],
}

impl Utf8CharInner {
    /// The four raw bytes.
    pub open(crate) spec fn bytes(self) -> Seq<u8> {
        self.repr@
    }

    /// The representation invariant of the packed container.
    #[verifier::type_invariant]
    pub open(crate) spec fn wf(self) -> bool {
        is_packed(self.repr@)
    }

    /// The Unicode scalar value held in the data bytes.
    pub open(crate) spec fn scalar(self) -> u32 {
        decode_first_scalar(self.repr@)
    }

    /// The held codepoint as a character.
    pub open(crate) spec fn char_view(self) -> char {
        self.scalar() as char
    }

    /// The number of data bytes, in `1..=4`.
    pub open(crate) spec fn spec_len(self) -> int {
        length_of_first_scalar(self.repr@)
    }

    /// The single validated entry point: wraps a 4-byte array that the
    /// caller has shown to satisfy the packed-representation invariant.
    pub fn from_utf8char_array(arr: [u8; 4]) -> (r: Self)
        requires
            is_packed(arr@),
        ensures
            r.bytes() == arr@,
    {
        Utf8CharInner { repr: arr }
    }

    /// Read the raw 4-byte view.
    pub fn as_array(&self) -> (r: &[u8; 4])
        ensures
            r@ == self.bytes(),
    {
        &self.repr
    }

    /// Read the lead byte, which is always a data byte.
    pub fn first_byte(self) -> (r: u8)
        ensures
            r == self.bytes()[0],
    {
        self.repr[0]
    }

    /// The byte length of the held codepoint, derived from the lead byte.
    pub fn len_utf8(self) -> (r: u8)
        ensures
            r as int == self.spec_len(),
            1 <= r <= 4,
    {
        proof {
            use_type_invariant(self);
        }
        codepoint_len_lut(self.repr[0])
    }

    /// Whole-array equality; agrees with scalar equality because padding is
    /// always sentinel-normalized.
    pub fn const_eq(self, other: Self) -> (r: bool)
        ensures
            r == (self.bytes() == other.bytes()),
            r == (self.scalar() == other.scalar()),
    {
        proof {
            use_type_invariant(self);
            use_type_invariant(other);
            if self.scalar() == other.scalar() {
                lemma_packed_injective(self.bytes(), other.bytes());
            }
            assert(self.bytes() == other.bytes() ==> self.repr =~= other.repr);
            assert(self.repr == other.repr ==> self.bytes() =~= other.bytes());
        }
        self.repr[0] == other.repr[0] && self.repr[1] == other.repr[1] && self.repr[2]
            == other.repr[2] && self.repr[3] == other.repr[3]
    }

    /// Replace the lead byte only; the caller shows that the replacement
    /// keeps the whole array a well-formed packed value.
    pub fn set_first_byte(&mut self, b: u8)
        requires
            is_packed(old(self).bytes().update(0, b)),
        ensures
            final(self).bytes() == old(self).bytes().update(0, b),
    {
        let arr: [u8; 4] = [b, self.repr[1], self.repr[2], self.repr[3]];
        proof {
            assert(arr@ =~= self.bytes().update(0, b));
        }
        self.repr = arr;
    }

    /// Decode the held codepoint back to its scalar value, reading only the
    /// `codepoint_len` first bytes.
    pub fn to_scalar(self) -> (r: u32)
        ensures
            r == self.scalar(),
            is_scalar(r),
    {
        proof {
            use_type_invariant(self);
            lemma_first_scalar_facts(self.repr@);
        }
        let x = self.repr[0];
        if x < 0x80 {
            proof {
                assert(x < 0x80 ==> (x & 0x7f) as u32 == x as u32) by (bit_vector);
            }
            x as u32
        } else if x < 0xe0 {
            (((x & 0x1f) as u32) << 6) | ((self.repr[1] & 0x3f) as u32)
        } else if x < 0xf0 {
            (((x & 0x0f) as u32) << 12) | (((self.repr[1] & 0x3f) as u32) << 6) | ((self.repr[2]
                & 0x3f) as u32)
        } else {
            (((x & 0x07) as u32) << 18) | (((self.repr[1] & 0x3f) as u32) << 12) | (((self.repr[2]
                & 0x3f) as u32) << 6) | ((self.repr[3] & 0x3f) as u32)
        }
    }
}

/// Lexicographic order on two packed 4-byte values.
pub open spec fn packed_lt(a: Seq<u8>, b: Seq<u8>) -> bool {
    ||| a[0] < b[0]
    ||| (a[0] == b[0] && (a[1] < b[1] || (a[1] == b[1] && (a[2] < b[2] || (a[2] == b[2] && a[3]
        < b[3])))))
}

/// Within one width class, a larger scalar encodes to lexicographically
/// larger bytes.
proof fn lemma_encode_mono_width_2(v: u32, u: u32)
    by (bit_vector)
    requires
        has_width_2_encoding(v),
        has_width_2_encoding(u),
        v < u,
    ensures
        leading_byte_width_2(v) < leading_byte_width_2(u) || (leading_byte_width_2(v)
            == leading_byte_width_2(u) && last_continuation_byte(v) < last_continuation_byte(u)),
{
}

/// Within one width class, a larger scalar encodes to lexicographically
/// larger bytes.
proof fn lemma_encode_mono_width_3(v: u32, u: u32)
    by (bit_vector)
    requires
        has_width_3_encoding(v),
        has_width_3_encoding(u),
        v < u,
    ensures
        leading_byte_width_3(v) < leading_byte_width_3(u) || (leading_byte_width_3(v)
            == leading_byte_width_3(u) && (second_last_continuation_byte(v)
            < second_last_continuation_byte(u) || (second_last_continuation_byte(v)
            == second_last_continuation_byte(u) && last_continuation_byte(v)
            < last_continuation_byte(u)))),
{
}

/// Within one width class, a larger scalar encodes to lexicographically
/// larger bytes.
proof fn lemma_encode_mono_width_4(v: u32, u: u32)
    by (bit_vector)
    requires
        has_width_4_encoding(v),
        has_width_4_encoding(u),
        v < u,
    ensures
        leading_byte_width_4(v) < leading_byte_width_4(u) || (leading_byte_width_4(v)
            == leading_byte_width_4(u) && (third_last_continuation_byte(v)
            < third_last_continuation_byte(u) || (third_last_continuation_byte(v)
            == third_last_continuation_byte(u) && (second_last_continuation_byte(v)
            < second_last_continuation_byte(u) || (second_last_continuation_byte(v)
            == second_last_continuation_byte(u) && last_continuation_byte(v)
            < last_continuation_byte(u)))))),
{
}

/// A strictly smaller scalar gives strictly lexicographically smaller
/// packed bytes.
proof fn lemma_packed_lt_of_scalar_lt(a: Seq<u8>, b: Seq<u8>)
    requires
        is_packed(a),
        is_packed(b),
        decode_first_scalar(a) < decode_first_scalar(b),
    ensures
        packed_lt(a, b),
{
    let va = decode_first_scalar(a);
    let vb = decode_first_scalar(b);
    lemma_packed_canonical(a);
    lemma_packed_canonical(b);
    lemma_first_scalar_facts(a);
    lemma_first_scalar_facts(b);
    let wa = scalar_utf8_len(va);
    let wb = scalar_utf8_len(vb);
    assert(a.subrange(0, wa) == encode_scalar(va));
    assert(b.subrange(0, wb) == encode_scalar(vb));
    assert(a[0] == encode_scalar(va)[0]);
    assert(b[0] == encode_scalar(vb)[0]);
    if has_width_1_encoding(va) {
        lemma_encode_width_1(va);
    } else if has_width_2_encoding(va) {
        lemma_encode_width_2(va);
    } else if has_width_3_encoding(va) {
        lemma_encode_width_3(va);
    } else {
        lemma_encode_width_4(va);
    }
    if has_width_1_encoding(vb) {
        lemma_encode_width_1(vb);
    } else if has_width_2_encoding(vb) {
        lemma_encode_width_2(vb);
    } else if has_width_3_encoding(vb) {
        lemma_encode_width_3(vb);
    } else {
        lemma_encode_width_4(vb);
    }
    if wa == wb {
        if wa == 1 {
        } else if wa == 2 {
            lemma_encode_mono_width_2(va, vb);
            assert(a[1] == encode_scalar(va)[1]);
            assert(b[1] == encode_scalar(vb)[1]);
        } else if wa == 3 {
            lemma_encode_mono_width_3(va, vb);
            assert(a[1] == encode_scalar(va)[1] && a[2] == encode_scalar(va)[2]);
            assert(b[1] == encode_scalar(vb)[1] && b[2] == encode_scalar(vb)[2]);
        } else {
            lemma_encode_mono_width_4(va, vb);
            assert(a[1] == encode_scalar(va)[1] && a[2] == encode_scalar(va)[2] && a[3]
                == encode_scalar(va)[3]);
            assert(b[1] == encode_scalar(vb)[1] && b[2] == encode_scalar(vb)[2] && b[3]
                == encode_scalar(vb)[3]);
        }
    } else {
        assert(wa < wb);
        assert(a[0] < b[0]);
    }
}

/// Lexicographic order of well-formed packed values coincides with the
/// numeric order of the scalars they hold; this is why whole-array
/// comparison of packed values agrees with string comparison.
pub proof fn lemma_packed_order_matches_scalar(a: Seq<u8>, b: Seq<u8>)
    requires
        is_packed(a),
        is_packed(b),
    ensures
        packed_lt(a, b) <==> decode_first_scalar(a) < decode_first_scalar(b),
{
    let va = decode_first_scalar(a);
    let vb = decode_first_scalar(b);
    if va < vb {
        lemma_packed_lt_of_scalar_lt(a, b);
    } else if vb < va {
        lemma_packed_lt_of_scalar_lt(b, a);
    } else {
        lemma_packed_injective(a, b);
    }
}

/// An ASCII packed value is its own lead byte with full sentinel padding,
/// and only ASCII scalars have an ASCII lead byte.
pub proof fn lemma_ascii_packed(b: Seq<u8>)
    requires
        is_packed(b),
    ensures
        b[0] < 0x80 <==> decode_first_scalar(b) < 0x80,
        b[0] < 0x80 ==> decode_first_scalar(b) == b[0] && b[1] == TAG_CONTINUATION && b[2]
            == TAG_CONTINUATION && b[3] == TAG_CONTINUATION,
{
    lemma_first_scalar_facts(b);
    if is_leading_byte_width_1(b[0]) {
        lemma_decode_width_1(b[0]);
        assert(decode_first_scalar(b) == vstd::utf8::codepoint_width_1(b[0]));
    }
}

/// Replacing the lead byte of an ASCII packed value by another ASCII byte
/// keeps the value well formed, leaves the padding untouched, and the new
/// value decodes to the new byte.
pub proof fn lemma_ascii_update(b: Seq<u8>, nb: u8)
    requires
        is_packed(b),
        b[0] < 0x80,
        nb < 0x80,
    ensures
        is_packed(b.update(0, nb)),
        decode_first_scalar(b.update(0, nb)) == nb,
{
    let u = b.update(0, nb);
    lemma_ascii_packed(b);
    lemma_decode_width_1(nb);
    assert(is_leading_byte_width_1(u[0]));
    assert(length_of_first_scalar(u) == 1);
    assert(decode_first_scalar(u) == vstd::utf8::codepoint_width_1(nb));
}

/// Casting a Unicode scalar value to a character and back returns the same
/// value.
pub proof fn lemma_scalar_char_cast(v: u32)
    requires
        is_scalar(v),
    ensures
        (v as char) as u32 == v,
{
}

/// The lead byte of a scalar's encoding never has the continuation-byte
/// form, whatever its width class.
pub proof fn lemma_lead_byte_not_continuation(s: Seq<u8>)
    requires
        valid_first_scalar(s),
    ensures
        !is_continuation_byte(s[0]),
{
}

/// Decoding yields at most one character per byte, because every scalar's
/// encoding takes at least one byte.
pub proof fn lemma_decode_utf8_len(s: Seq<u8>)
    requires
        vstd::utf8::valid_utf8(s),
    ensures
        vstd::utf8::decode_utf8(s).len() <= s.len(),
    decreases s.len(),
{
    if s.len() != 0 {
        lemma_decode_utf8_len(vstd::utf8::pop_first_scalar(s));
    }
}

/// Decoding yields at least one character per four bytes, because no
/// scalar's encoding takes more than four bytes.
pub proof fn lemma_decode_utf8_len_lower(s: Seq<u8>)
    requires
        vstd::utf8::valid_utf8(s),
    ensures
        4 * vstd::utf8::decode_utf8(s).len() >= s.len(),
    decreases s.len(),
{
    if s.len() != 0 {
        lemma_decode_utf8_len_lower(vstd::utf8::pop_first_scalar(s));
    }
}

/// In a non-empty valid UTF-8 sequence the final scalar's encoding occupies
/// the last `w` bytes for some `w` in `1..=4`: `w` bytes from the end
/// stands a lead byte, and only continuation bytes follow it.  This is what
/// lets a backward scan find the final codepoint within four reads.
pub proof fn lemma_last_scalar_width(s: Seq<u8>)
    requires
        vstd::utf8::valid_utf8(s),
        s.len() > 0,
    ensures
        ({
            let n = s.len() as int;
            exists|p: int|
                0 <= p < n && n - 4 <= p && !is_continuation_byte(#[trigger] s[p]) && (forall|
                    i: int,
                |
                    p < i < n ==> is_continuation_byte(s[i]))
        }),
    decreases s.len(),
{
    let n = s.len() as int;
    let w0 = length_of_first_scalar(s);
    let rest = vstd::utf8::pop_first_scalar(s);
    lemma_lead_byte_not_continuation(s);
    if rest.len() == 0 {
        assert(n == w0);
        let p = 0;
        assert(0 <= p < n && n - 4 <= p && !is_continuation_byte(s[p]) && (forall|i: int|
            p < i < n ==> is_continuation_byte(s[i])));
    } else {
        lemma_last_scalar_width(rest);
        let m = rest.len() as int;
        let q = choose|q: int|
            0 <= q < m && m - 4 <= q && !is_continuation_byte(#[trigger] rest[q]) && (forall|
                i: int,
            |
                q < i < m ==> is_continuation_byte(rest[i]));
        let p = w0 + q;
        assert(forall|i: int| 0 <= i < m ==> rest[i] == s[w0 + i]);
        assert(!is_continuation_byte(s[p]));
        assert forall|i: int| p < i < n implies is_continuation_byte(s[i]) by {
            let j = i - w0;
            assert(rest[j] == s[i]);
            assert(is_continuation_byte(rest[j]));
        };
        assert(0 <= p < n && n - 4 <= p && !is_continuation_byte(s[p]) && (forall|i: int|
            p < i < n ==> is_continuation_byte(s[i])));
    }
}

/// A byte sequence holding exactly one scalar's encoding and nothing else is
/// valid UTF-8 as a whole and decodes to the one-character sequence of that
/// scalar.
pub proof fn lemma_single_scalar_utf8(s: Seq<u8>)
    requires
        valid_first_scalar(s),
        s.len() == length_of_first_scalar(s),
    ensures
        vstd::utf8::valid_utf8(s),
        vstd::utf8::decode_utf8(s) == seq![decode_first_scalar(s) as char],
{
    reveal_with_fuel(vstd::utf8::valid_utf8, 2);
    reveal_with_fuel(vstd::utf8::decode_utf8, 2);
    assert(vstd::utf8::pop_first_scalar(s) =~= Seq::<u8>::empty());
    assert(vstd::utf8::valid_utf8(s));
    assert(vstd::utf8::decode_utf8(s) =~= seq![decode_first_scalar(s) as char]);
}

} // verus!
