//! A double-ended iterator over a string that yields `Utf8Char`s.
//!
//! The iterator is a cursor over the string's bytes, a pair of positions
//! shrinking towards each other.  Both ends always sit on codepoint
//! boundaries, so the unconsumed region stays valid UTF-8 throughout and can
//! be handed out as a borrowed string at any time.  Forward steps read the
//! lead byte's length tag; backward steps scan over at most three
//! continuation bytes to find the previous lead byte.

use vstd::prelude::*;

use crate::representation;
use crate::Utf8Char;

verus! {

use crate::representation::{
    is_packed, lemma_first_scalar_prefix, Utf8CharInner, TAG_CONTINUATION,
};
use crate::str_from_utf8;
use vstd::string::StringSliceAdditionalSpecFns;
use vstd::utf8::{
    decode_first_scalar, decode_utf8, is_continuation_byte, length_of_first_scalar, valid_utf8,
};

/// Returns whether a given UTF-8 byte is a continuation byte, by its two
/// high bits.
fn is_continuation(b: u8) -> (r: bool)
    ensures
        r == is_continuation_byte(b),
{
    proof {
        assert(((b & 0xc0) == 0x80) <==> (0x80 <= b <= 0xbf)) by (bit_vector);
    }
    (b & 0xc0) == 0x80
}

/// An iterator over a string that yields `Utf8Char`s from either end.
///
/// It borrows the string's bytes and owns no data; cloning duplicates the
/// cursor, not the buffer.  Once the cursor is empty, both directions keep
/// yielding nothing.
#[derive(Clone, Copy)]
pub struct Utf8CharIter<'slice> {
    pub(crate) bytes: &'slice [u8],
    pub(crate) start: usize,
    pub(crate) end: usize,
}

impl<'slice> Utf8CharIter<'slice> {
    /// The unconsumed region of the borrowed bytes.
    pub open(crate) spec fn remaining_bytes(self) -> Seq<u8> {
        self.bytes@.subrange(self.start as int, self.end as int)
    }

    /// The cursor invariant: both ends sit on codepoint boundaries, so the
    /// unconsumed region is valid UTF-8.
    #[verifier::type_invariant]
    pub open(crate) spec fn wf(self) -> bool {
        self.start <= self.end <= self.bytes@.len() && valid_utf8(self.remaining_bytes())
    }

    /// The characters not yet produced, in forward order.
    pub open(crate) spec fn chars(self) -> Seq<char> {
        decode_utf8(self.remaining_bytes())
    }

    /// Constructs a new `Utf8CharIter` from a string slice, borrowing the
    /// slice; it will yield exactly the string's characters.
    pub fn new(s: &'slice str) -> (r: Self)
        ensures
            r.chars() == s@,
    {
        let b = s.as_bytes();
        proof {
            vstd::utf8::encode_utf8_valid_utf8(s@);
            vstd::utf8::encode_utf8_decode_utf8(s@);
            assert(b@.subrange(0, b@.len() as int) =~= b@);
        }
        let r = Utf8CharIter { bytes: b, start: 0, end: b.len() };
        proof {
            assert(r.remaining_bytes() =~= b@);
        }
        r
    }

    /// True when no codepoints remain in either direction.
    pub fn is_empty(&self) -> (r: bool)
        ensures
            r == (self.chars().len() == 0),
    {
        proof {
            use_type_invariant(&*self);
        }
        self.start == self.end
    }

    /// Borrowed string view of the unconsumed region; valid because the
    /// cursor only ever sits at codepoint boundaries.
    pub fn as_str(&self) -> (r: &'slice str)
        ensures
            r@ == self.chars(),
            r.spec_bytes() == self.remaining_bytes(),
    {
        proof {
            use_type_invariant(&*self);
        }
        let sl = vstd::slice::slice_subrange(self.bytes, self.start, self.end);
        let r = str_from_utf8(sl);
        proof {
            vstd::utf8::encode_utf8_decode_utf8(r@);
        }
        r
    }

    /// Produces the first remaining codepoint and advances past it, or
    /// nothing when the cursor is empty.
    pub fn next(&mut self) -> (r: Option<Utf8Char>)
        ensures
            old(self).chars().len() == 0 ==> r is None && *final (self) == *old(self),
            old(self).chars().len() > 0 ==> (r matches Some(c) && c@ == old(self).chars()[0])
                && final (self).chars() == old(self).chars().drop_first(),
    {
        proof {
            use_type_invariant(&*self);
        }
        if self.start == self.end {
            proof {
                assert(self.remaining_bytes().len() == 0);
            }
            None
        } else {
            Some(self.next_unchecked())
        }
    }

    /// Produces the last remaining codepoint and retracts the cursor's end
    /// before it, or nothing when the cursor is empty.
    pub fn next_back(&mut self) -> (r: Option<Utf8Char>)
        ensures
            old(self).chars().len() == 0 ==> r is None && *final (self) == *old(self),
            old(self).chars().len() > 0 ==> (r matches Some(c) && c@ == old(self).chars().last())
                && final (self).chars() == old(self).chars().drop_last(),
    {
        proof {
            use_type_invariant(&*self);
        }
        if self.start == self.end {
            proof {
                assert(self.remaining_bytes().len() == 0);
            }
            None
        } else {
            Some(self.next_back_unchecked())
        }
    }

    /// Bounds on the number of codepoints left, in the manner of the
    /// standard iterator protocol: at least one codepoint per four
    /// unconsumed bytes, at most one per byte.
    pub fn size_hint(&self) -> (r: (usize, Option<usize>))
        ensures
            r.0 <= self.chars().len(),
            r.1 matches Some(hi) && self.chars().len() <= hi,
    {
        proof {
            use_type_invariant(&*self);
            representation::lemma_decode_utf8_len(self.remaining_bytes());
            representation::lemma_decode_utf8_len_lower(self.remaining_bytes());
        }
        let len = self.end - self.start;
        let lower = len / 4 + if len % 4 == 0 {
            0
        } else {
            1
        };
        (lower, Some(len))
    }

    /// The last codepoint, if any; consumes the iterator.
    pub fn last(self) -> (r: Option<Utf8Char>)
        ensures
            self.chars().len() == 0 ==> r is None,
            self.chars().len() > 0 ==> (r matches Some(c) && c@ == self.chars().last()),
    {
        let mut it = self;
        it.next_back()
    }

    /// The number of codepoints left; consumes the iterator.
    pub fn count(self) -> (r: usize)
        ensures
            r == self.chars().len(),
    {
        proof {
            use_type_invariant(&self);
            representation::lemma_decode_utf8_len(self.remaining_bytes());
        }
        let ghost orig = self.chars();
        let mut it = self;
        let mut n: usize = 0;
        while it.start != it.end
            invariant
                n + it.chars().len() == orig.len(),
                n <= orig.len() <= usize::MAX,
            decreases it.chars().len(),
        {
            proof {
                use_type_invariant(&it);
            }
            let _ = it.next();
            n = n + 1;
        }
        proof {
            use_type_invariant(&it);
            assert(it.remaining_bytes().len() == 0);
        }
        n
    }

    /// Reads the first remaining codepoint's bytes into a sentinel-padded
    /// packed value and advances the cursor past them; the caller shows
    /// that a codepoint remains.
    fn next_unchecked(&mut self) -> (r: Utf8Char)
        requires
            old(self).chars().len() > 0,
        ensures
            r@ == old(self).chars()[0],
            final (self).chars() == old(self).chars().drop_first(),
    {
        proof {
            use_type_invariant(&*self);
        }
        let ghost rem = self.remaining_bytes();
        proof {
            representation::lemma_first_scalar_facts(rem);
        }
        let first = *vstd::slice::slice_index_get(self.bytes, self.start);
        let len = Utf8Char::codepoint_len(first) as usize;
        proof {
            assert(rem[0] == first);
            assert(len == length_of_first_scalar(rem));
            assert(rem.len() >= len);
        }
        let a1 = if len > 1 {
            *vstd::slice::slice_index_get(self.bytes, self.start + 1)
        } else {
            TAG_CONTINUATION
        };
        let a2 = if len > 2 {
            *vstd::slice::slice_index_get(self.bytes, self.start + 2)
        } else {
            TAG_CONTINUATION
        };
        let a3 = if len > 3 {
            *vstd::slice::slice_index_get(self.bytes, self.start + 3)
        } else {
            TAG_CONTINUATION
        };
        let arr: [u8; 4] = [first, a1, a2, a3];
        proof {
            assert(forall|i: int| 0 <= i < len ==> arr@[i] == rem[i]);
            lemma_first_scalar_prefix(rem, arr@);
            representation::lemma_scalar_char_cast(decode_first_scalar(rem));
        }
        let ch = Utf8Char(Utf8CharInner::from_utf8char_array(arr));
        let new_start = self.start + len;
        proof {
            let pop = vstd::utf8::pop_first_scalar(rem);
            assert(self.bytes@.subrange(new_start as int, self.end as int) =~= pop);
        }
        *self = Utf8CharIter { bytes: self.bytes, start: new_start, end: self.end };
        proof {
            assert(final (self).chars() =~= old(self).chars().drop_first());
        }
        ch
    }

    /// Reads the last remaining codepoint by scanning backward over at most
    /// three continuation bytes, realigns its bytes to the front of a
    /// sentinel-padded packed value, and retracts the cursor's end; the
    /// caller shows that a codepoint remains.
    fn next_back_unchecked(&mut self) -> (r: Utf8Char)
        requires
            old(self).chars().len() > 0,
        ensures
            r@ == old(self).chars().last(),
            final (self).chars() == old(self).chars().drop_last(),
    {
        proof {
            use_type_invariant(&*self);
        }
        let ghost rem = self.remaining_bytes();
        let ghost n = rem.len() as int;
        proof {
            representation::lemma_last_scalar_width(rem);
            representation::lemma_first_scalar_facts(rem);
        }
        let b3 = *vstd::slice::slice_index_get(self.bytes, self.end - 1);
        let (len, arr): (usize, [u8; 4]) = if !is_continuation(b3) {
            (1, [b3, TAG_CONTINUATION, TAG_CONTINUATION, TAG_CONTINUATION])
        } else {
            let b2 = *vstd::slice::slice_index_get(self.bytes, self.end - 2);
            if !is_continuation(b2) {
                (2, [b2, b3, TAG_CONTINUATION, TAG_CONTINUATION])
            } else {
                let b1 = *vstd::slice::slice_index_get(self.bytes, self.end - 3);
                if !is_continuation(b1) {
                    (3, [b1, b2, b3, TAG_CONTINUATION])
                } else {
                    let b0 = *vstd::slice::slice_index_get(self.bytes, self.end - 4);
                    (4, [b0, b1, b2, b3])
                }
            }
        };
        proof {
            self.lemma_take_last(rem, len as int, arr@);
            representation::lemma_first_scalar_facts(arr@);
            representation::lemma_scalar_char_cast(decode_first_scalar(arr@));
        }
        let ch = Utf8Char(Utf8CharInner::from_utf8char_array(arr));
        let new_end = self.end - len;
        *self = Utf8CharIter { bytes: self.bytes, start: self.start, end: new_end };
        ch
    }

    /// The splitting argument behind the backward scan: when the `len`
    /// bytes before the cursor's end start with a lead byte and continue
    /// with continuation bytes, they are exactly the encoding of the last
    /// remaining codepoint, `arr` is its packed form, and dropping them
    /// from the region drops exactly the last character.
    proof fn lemma_take_last(self, rem: Seq<u8>, len: int, arr: Seq<u8>)
        requires
            self.wf(),
            rem == self.remaining_bytes(),
            rem.len() > 0,
            1 <= len <= rem.len(),
            arr.len() == 4,
            !is_continuation_byte(rem[rem.len() - len]),
            forall|i: int| rem.len() - len < i < rem.len() ==> is_continuation_byte(rem[i]),
            forall|i: int| 0 <= i < len ==> arr[i] == rem[rem.len() - len + i],
            forall|i: int| len <= i < 4 ==> arr[i] == TAG_CONTINUATION,
        ensures
            is_packed(arr),
            decode_first_scalar(arr) as char == self.chars().last(),
            decode_utf8(self.bytes@.subrange(self.start as int, self.end - len)) == self.chars(
            ).drop_last(),
            valid_utf8(self.bytes@.subrange(self.start as int, self.end - len)),
    {
        let n = rem.len() as int;
        let p = n - len;
        vstd::utf8::is_char_boundary_iff_not_is_continuation_byte(rem, p);
        vstd::utf8::valid_utf8_split(rem, p);
        vstd::utf8::decode_utf8_split(rem, p);
        let prefix = rem.subrange(0, p);
        let suffix = rem.subrange(p, n);
        let w = length_of_first_scalar(suffix);
        representation::lemma_first_scalar_facts(suffix);
        if w < len {
            let pop = vstd::utf8::pop_first_scalar(suffix);
            assert(valid_utf8(pop));
            assert(pop.len() > 0);
            representation::lemma_lead_byte_not_continuation(pop);
            assert(pop[0] == suffix[w]);
            assert(suffix[w] == rem[p + w]);
            assert(is_continuation_byte(rem[p + w]));
            assert(false);
        }
        assert(w == len);
        assert(forall|i: int| 0 <= i < len ==> arr[i] == suffix[i]);
        lemma_first_scalar_prefix(suffix, arr);
        representation::lemma_single_scalar_utf8(suffix);
        assert(decode_utf8(rem) == decode_utf8(prefix) + seq![decode_first_scalar(suffix) as char]);
        assert(self.chars().last() == decode_first_scalar(suffix) as char);
        assert(self.chars().drop_last() =~= decode_utf8(prefix));
        assert(self.bytes@.subrange(self.start as int, self.end - len) =~= prefix);
    }
}

/// The ability to call `.utf8_chars()` on a string, just like `.chars()`.
pub trait IntoUtf8Chars: View<V = Seq<char>> {
    /// Returns a `Utf8CharIter` over the string's codepoints.
    fn utf8_chars<'s>(&'s self) -> (r: Utf8CharIter<'s>)
        ensures
            r.chars() == self@,
    ;
}

impl IntoUtf8Chars for str {
    fn utf8_chars<'s>(&'s self) -> (r: Utf8CharIter<'s>) {
        Utf8CharIter::new(self)
    }
}

} // verus!
