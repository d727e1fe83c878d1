//! A single Unicode codepoint stored in its native UTF-8 encoding.
//!
//! A [`Utf8Char`] packs the 1 to 4 bytes of a codepoint's UTF-8 encoding into
//! a fixed 4-byte value, padding the unused trailing positions with the
//! continuation-byte tag `0x80`.  Because the padding is fixed, whole-value
//! equality and lexicographic ordering of the packed bytes agree with
//! equality and ordering of the corresponding one-codepoint strings, and a
//! borrowed string view of the data bytes can be handed out without copying
//! or re-validating UTF-8.

use vstd::prelude::*;

mod charapi;
pub mod iter;
mod representation;

pub use iter::{IntoUtf8Chars, Utf8CharIter};
pub use representation::{codepoint_len_bmi, codepoint_len_lut};

verus! {

use representation::{
    is_packed, lemma_encode_scalar_facts, lemma_first_scalar_prefix, lemma_packed_of_scalar,
    packed_of_scalar, scalar_utf8_len, Utf8CharInner, TAG_CONTINUATION,
};
use vstd::string::StringSliceAdditionalSpecFns;
use vstd::utf8::{
    char_is_scalar, char_u32_cast, decode_first_scalar, encode_scalar, encode_utf8_first_scalar,
    is_scalar, length_of_first_scalar, valid_utf8,
};

/// Relies on `char::from_u32`: for every value up to `0x10FFFF` that is not
/// a UTF-16 surrogate it returns `Some` of the character with exactly that
/// scalar value.
#[verifier::external_body]
pub(crate) fn char_from_u32(v: u32) -> (r: char)
    requires
        is_scalar(v),
    ensures
        r as u32 == v,
{
    char::from_u32(v).unwrap()
}

/// Relies on `core::str::from_utf8`: for bytes that are valid UTF-8 it
/// returns `Ok` with the string slice viewing exactly those bytes.
#[verifier::external_body]
pub(crate) fn str_from_utf8(b: &[u8]) -> (r: &str)
    requires
        valid_utf8(b@),
    ensures
        r.spec_bytes() == b@,
{
    core::str::from_utf8(b).unwrap()
}

/// A single Unicode codepoint encoded in UTF-8.
///
/// The value is 4 bytes wide like `char`, but holds the codepoint's UTF-8
/// bytes directly, so a string view of it costs nothing.  Equality, ordering
/// and hashing go by the packed bytes, which agree with the one-codepoint
/// string thanks to the sentinel padding.
#[derive(Clone, Copy, Debug, Hash, PartialEq, Eq, Ord)]
pub struct Utf8Char(pub(crate) Utf8CharInner);

impl View for Utf8Char {
    type V = char;

    open(crate) spec fn view(&self) -> char {
        self.0.char_view()
    }
}

impl Utf8Char {
    /// The packed 4-byte form: data bytes followed by sentinel padding.
    pub open(crate) spec fn bytes(self) -> Seq<u8> {
        self.0.bytes()
    }

    /// The held Unicode scalar value.
    pub open(crate) spec fn scalar(self) -> u32 {
        self.0.scalar()
    }

    /// Well-formedness of the packed bytes; every constructed value has it.
    pub open(crate) spec fn wf(self) -> bool {
        self.0.wf()
    }

    /// Returns the length of a UTF-8 encoded codepoint based on the first
    /// byte's encoding (returns `1..=4`).
    ///
    /// Meaningful only when `byte` is a valid UTF-8 lead byte; for other
    /// bytes the result is still in range but carries no promise.
    #[must_use]
    pub fn codepoint_len(byte: u8) -> (r: u8)
        ensures
            1 <= r <= 4,
            vstd::utf8::is_leading_byte_width_1(byte) ==> r == 1,
            vstd::utf8::is_leading_byte_width_2(byte) ==> r == 2,
            vstd::utf8::is_leading_byte_width_3(byte) ==> r == 3,
            vstd::utf8::is_leading_byte_width_4(byte) ==> r == 4,
    {
        codepoint_len_lut(byte)
    }

    /// Returns the number of bytes this codepoint takes up when encoded as
    /// UTF-8.
    #[must_use]
    pub fn len_utf8(self) -> (r: u8)
        ensures
            r as int == scalar_utf8_len(self@ as u32),
            1 <= r <= 4,
    {
        proof {
            use_type_invariant(self.0);
            self.lemma_view_facts();
        }
        self.0.len_utf8()
    }

    /// Creates a `Utf8Char` from a `char`, packing its UTF-8 bytes and
    /// padding the rest with the continuation-byte sentinel.
    #[must_use]
    pub fn from_char(code: char) -> (r: Self)
        ensures
            r@ == code,
            r.bytes() == packed_of_scalar(code as u32),
    {
        let c = code as u32;
        proof {
            char_is_scalar(code);
            lemma_packed_of_scalar(c);
            lemma_encode_scalar_facts(c);
            char_u32_cast(code, c);
        }
        let arr: [u8; 4] = if c < 0x80 {
            proof {
                assert(c < 0x80 ==> (c & 0x7f) as u8 == c as u8) by (bit_vector);
            }
            [c as u8, TAG_CONTINUATION, TAG_CONTINUATION, TAG_CONTINUATION]
        } else if c < 0x800 {
            [
                0xc0 | ((c >> 6) & 0x1f) as u8,
                0x80 | (c & 0x3f) as u8,
                TAG_CONTINUATION,
                TAG_CONTINUATION,
            ]
        } else if c < 0x10000 {
            [
                0xe0 | ((c >> 12) & 0x0f) as u8,
                0x80 | ((c >> 6) & 0x3f) as u8,
                0x80 | (c & 0x3f) as u8,
                TAG_CONTINUATION,
            ]
        } else {
            [
                0xf0 | ((c >> 18) & 0x07) as u8,
                0x80 | ((c >> 12) & 0x3f) as u8,
                0x80 | ((c >> 6) & 0x3f) as u8,
                0x80 | (c & 0x3f) as u8,
            ]
        };
        proof {
            assert(arr@ =~= packed_of_scalar(c));
        }
        Utf8Char(Utf8CharInner::from_utf8char_array(arr))
    }

    /// Returns a `Utf8Char` from the first char of a passed `&str`, or
    /// `None` if the string is empty.
    ///
    /// This copies the first codepoint's bytes directly, with no decoding
    /// to a scalar value and back.
    #[must_use]
    pub fn from_first_char(s: &str) -> (r: Option<Self>)
        ensures
            r is Some <==> s@.len() > 0,
            r matches Some(c) ==> c@ == s@[0],
    {
        if s.is_empty() {
            None
        } else {
            Some(Self::from_first_char_unchecked(s))
        }
    }

    /// Returns a `Utf8Char` from the first char of a passed non-empty
    /// string; the caller shows that the string is not empty.
    #[must_use]
    pub fn from_first_char_unchecked(s: &str) -> (r: Self)
        requires
            s@.len() > 0,
        ensures
            r@ == s@[0],
    {
        let b = s.as_bytes();
        proof {
            encode_utf8_first_scalar(s@);
            char_is_scalar(s@[0]);
            lemma_encode_scalar_facts(s@[0] as u32);
        }
        let first = *vstd::slice::slice_index_get(b, 0);
        let len = Self::codepoint_len(first);
        let a1 = if len > 1 {
            *vstd::slice::slice_index_get(b, 1)
        } else {
            TAG_CONTINUATION
        };
        let a2 = if len > 2 {
            *vstd::slice::slice_index_get(b, 2)
        } else {
            TAG_CONTINUATION
        };
        let a3 = if len > 3 {
            *vstd::slice::slice_index_get(b, 3)
        } else {
            TAG_CONTINUATION
        };
        let arr: [u8; 4] = [first, a1, a2, a3];
        proof {
            lemma_first_scalar_prefix(b@, arr@);
            char_u32_cast(s@[0], decode_first_scalar(arr@));
        }
        Utf8Char(Utf8CharInner::from_utf8char_array(arr))
    }

    /// Converts a `Utf8Char` back to a `char` by decoding the data bytes.
    #[must_use]
    pub fn to_char(self) -> (r: char)
        ensures
            r == self@,
    {
        let v = self.0.to_scalar();
        let r = char_from_u32(v);
        proof {
            char_u32_cast(r, v);
        }
        r
    }

    /// Returns the packed 4-byte form: the UTF-8 data bytes of the
    /// codepoint followed by sentinel padding up to 4 bytes.
    #[must_use]
    pub fn as_array(self) -> (r: [u8; 4])
        ensures
            r@ == self.bytes(),
            r@ == packed_of_scalar(self@ as u32),
    {
        proof {
            use_type_invariant(self.0);
            self.lemma_view_facts();
        }
        *self.0.as_array()
    }

    /// Returns a borrowed string view of exactly the data bytes, with zero
    /// copying; the view is the one-character string of this codepoint.
    #[must_use]
    pub fn as_str(&self) -> (r: &str)
        ensures
            r@ == seq![self@],
            r.spec_bytes() == encode_scalar(self@ as u32),
    {
        proof {
            use_type_invariant(self.0);
            self.lemma_view_facts();
            lemma_packed_of_scalar(self@ as u32);
            lemma_encode_scalar_facts(self@ as u32);
        }
        let len = self.0.len_utf8() as usize;
        let sl = self.0.as_array().as_slice();
        let data = vstd::slice::slice_subrange(sl, 0, len);
        proof {
            assert(data@ =~= encode_scalar(self@ as u32));
            representation::lemma_single_scalar_utf8(data@);
        }
        let r = str_from_utf8(data);
        proof {
            vstd::utf8::encode_utf8_decode_utf8(r@);
            char_u32_cast(self@, self@ as u32);
            assert(r@ =~= seq![self@]);
        }
        r
    }

    /// The well-formedness facts every `Utf8Char` enjoys, lifted to its
    /// character view: the view's scalar is the decoded scalar, and the
    /// packed bytes are canonical for it.
    pub proof fn lemma_view_facts(self)
        requires
            self.wf(),
        ensures
            is_scalar(self.scalar()),
            self@ as u32 == self.scalar(),
            self.bytes() == packed_of_scalar(self@ as u32),
            is_packed(self.bytes()),
            length_of_first_scalar(self.bytes()) == scalar_utf8_len(self@ as u32),
    {
        representation::lemma_first_scalar_facts(self.0.bytes());
        representation::lemma_packed_canonical(self.0.bytes());
        representation::lemma_scalar_char_cast(self.0.scalar());
    }
}

impl PartialOrd for Utf8Char {
    /// Lexicographic comparison of the packed bytes; thanks to the sentinel
    /// padding this agrees with comparison of the held characters.
    fn partial_cmp(&self, other: &Self) -> (r: Option<core::cmp::Ordering>) {
        proof {
            use_type_invariant(self.0);
            use_type_invariant(other.0);
            self.lemma_view_facts();
            other.lemma_view_facts();
            representation::lemma_packed_order_matches_scalar(self.bytes(), other.bytes());
            representation::lemma_packed_order_matches_scalar(other.bytes(), self.bytes());
            if self.scalar() == other.scalar() {
                representation::lemma_packed_injective(self.bytes(), other.bytes());
            }
        }
        let a = self.0.as_array();
        let b = other.0.as_array();
        let r = if a[0] != b[0] {
            if a[0] < b[0] {
                core::cmp::Ordering::Less
            } else {
                core::cmp::Ordering::Greater
            }
        } else if a[1] != b[1] {
            if a[1] < b[1] {
                core::cmp::Ordering::Less
            } else {
                core::cmp::Ordering::Greater
            }
        } else if a[2] != b[2] {
            if a[2] < b[2] {
                core::cmp::Ordering::Less
            } else {
                core::cmp::Ordering::Greater
            }
        } else if a[3] != b[3] {
            if a[3] < b[3] {
                core::cmp::Ordering::Less
            } else {
                core::cmp::Ordering::Greater
            }
        } else {
            proof {
                assert(self.bytes() =~= other.bytes());
            }
            core::cmp::Ordering::Equal
        };
        Some(r)
    }
}

impl vstd::std_specs::cmp::PartialOrdSpecImpl for Utf8Char {
    open spec fn obeys_partial_cmp_spec() -> bool {
        true
    }

    open spec fn partial_cmp_spec(&self, other: &Self) -> Option<core::cmp::Ordering> {
        if self@ == other@ {
            Some(core::cmp::Ordering::Equal)
        } else if self@ < other@ {
            Some(core::cmp::Ordering::Less)
        } else {
            Some(core::cmp::Ordering::Greater)
        }
    }
}

/// Ordering consistency: for any two codepoints, lexicographic order of the
/// packed byte forms coincides with the order of the characters they hold,
/// which is the order of the one-codepoint strings.
pub proof fn lemma_byte_order_matches_char_order(a: Utf8Char, b: Utf8Char)
    requires
        a.wf(),
        b.wf(),
    ensures
        representation::packed_lt(a.bytes(), b.bytes()) <==> a@ < b@,
{
    a.lemma_view_facts();
    b.lemma_view_facts();
    representation::lemma_packed_order_matches_scalar(a.bytes(), b.bytes());
}

/// Equality consistency: two codepoint values are equal exactly when they
/// hold the same character, because the packed form is canonical.
pub proof fn lemma_eq_matches_char_eq(a: Utf8Char, b: Utf8Char)
    requires
        a.wf(),
        b.wf(),
    ensures
        a.bytes() == b.bytes() <==> a@ == b@,
        a == b <==> a@ == b@,
{
    a.lemma_view_facts();
    b.lemma_view_facts();
    if a@ == b@ {
        representation::lemma_packed_injective(a.bytes(), b.bytes());
        assert(a.0.repr =~= b.0.repr);
    }
}

/// Round trip: every character's packed form is well formed, decodes back
/// to the same character, and its data bytes are the reference UTF-8
/// encoding of the character's scalar value.
pub proof fn lemma_round_trip(c: char)
    ensures
        is_packed(packed_of_scalar(c as u32)),
        decode_first_scalar(packed_of_scalar(c as u32)) == c as u32,
        decode_first_scalar(packed_of_scalar(c as u32)) as char == c,
        packed_of_scalar(c as u32).subrange(0, scalar_utf8_len(c as u32)) == encode_scalar(
            c as u32,
        ),
{
    char_is_scalar(c);
    lemma_packed_of_scalar(c as u32);
    char_u32_cast(c, c as u32);
}

/// Length agreement: the packed form of a character carries exactly the
/// standard UTF-8 length of its scalar value, by the standard ranges.
pub proof fn lemma_length_agreement(c: char)
    ensures
        encode_scalar(c as u32).len() == scalar_utf8_len(c as u32),
        length_of_first_scalar(packed_of_scalar(c as u32)) == scalar_utf8_len(c as u32),
{
    char_is_scalar(c);
    lemma_encode_scalar_facts(c as u32);
    lemma_packed_of_scalar(c as u32);
}

} // verus!
