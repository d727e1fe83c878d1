//! Character-style classification and ASCII transforms for `Utf8Char`.
//!
//! Each operation is a pure function of the lead byte: an ASCII codepoint is
//! exactly one whose lead byte is below `0x80`, and for such a value the
//! lead byte equals the scalar value, so the byte-level tests below agree
//! with the character-level specifications in their contracts.

use vstd::prelude::*;

use crate::representation;
use crate::Utf8Char;

verus! {

/// The character that `c` lowercases to under ASCII case conversion:
/// `'A'..='Z'` maps 32 codepoints up, everything else is unchanged.
pub open spec fn to_ascii_lower_spec(c: char) -> char {
    if 'A' <= c <= 'Z' {
        ((c as u32) + 32) as char
    } else {
        c
    }
}

/// The character that `c` uppercases to under ASCII case conversion:
/// `'a'..='z'` maps 32 codepoints down, everything else is unchanged.
pub open spec fn to_ascii_upper_spec(c: char) -> char {
    if 'a' <= c <= 'z' {
        ((c as u32) - 32) as char
    } else {
        c
    }
}

/// The digit value of `c` in the given radix: decimal digits count from 0,
/// letters of either case count from 10, and the value must be below the
/// radix.
pub open spec fn to_digit_spec(c: char, radix: u8) -> Option<u8> {
    let v = c as u32;
    if '0' <= c <= '9' && v - 48 < radix {
        Some((v - 48) as u8)
    } else if 'a' <= c <= 'z' && v - 87 < radix {
        Some((v - 87) as u8)
    } else if 'A' <= c <= 'Z' && v - 55 < radix {
        Some((v - 55) as u8)
    } else {
        None
    }
}

/// ASCII case idempotence: lowering a character twice gives the same result
/// as lowering it once.
pub proof fn lemma_to_ascii_lowercase_idempotent(c: char)
    ensures
        to_ascii_lower_spec(to_ascii_lower_spec(c)) == to_ascii_lower_spec(c),
{
    if 'A' <= c <= 'Z' {
        vstd::utf8::char_is_scalar(c);
        representation::lemma_scalar_char_cast((c as u32 + 32) as u32);
    }
}

/// ASCII case inversion: uppercasing an ASCII-lowered letter restores it,
/// and the two transforms agree on which codepoints they move.
pub proof fn lemma_ascii_case_inverse(c: char)
    ensures
        'A' <= c <= 'Z' ==> to_ascii_upper_spec(to_ascii_lower_spec(c)) == c,
        'a' <= c <= 'z' ==> to_ascii_lower_spec(to_ascii_upper_spec(c)) == c,
{
    vstd::utf8::char_is_scalar(c);
    if 'A' <= c <= 'Z' {
        representation::lemma_scalar_char_cast((c as u32 + 32) as u32);
        vstd::utf8::char_u32_cast(c, c as u32);
    }
    if 'a' <= c <= 'z' {
        representation::lemma_scalar_char_cast((c as u32 - 32) as u32);
        vstd::utf8::char_u32_cast(c, c as u32);
    }
}

impl Utf8Char {
    /// Returns the lead byte of the packed form, which for an ASCII
    /// codepoint is the codepoint itself.
    #[must_use]
    pub(crate) fn ascii(self) -> (r: u8)
        ensures
            r == self.bytes()[0],
            (r < 0x80) <==> ((self@ as u32) < 0x80),
            (r < 0x80) ==> r == self@ as u32,
    {
        proof {
            use_type_invariant(self.0);
            self.lemma_view_facts();
            representation::lemma_ascii_packed(self.bytes());
        }
        self.0.first_byte()
    }

    /// Compares two codepoints for equality by their packed bytes, which
    /// agrees with equality of the characters they hold.
    #[must_use]
    pub(crate) fn const_eq(self, other: Self) -> (r: bool)
        ensures
            r == (self@ == other@),
    {
        proof {
            use_type_invariant(self.0);
            use_type_invariant(other.0);
            crate::lemma_eq_matches_char_eq(self, other);
        }
        self.0.const_eq(other.0)
    }

    /// Like `char::is_ascii`: the codepoint is in the ASCII range.
    #[must_use]
    pub fn is_ascii(self) -> (r: bool)
        ensures
            r == (self@ <= '\u{7f}'),
    {
        self.ascii() < 0x80
    }

    /// Like `char::is_ascii_alphabetic`: an ASCII letter of either case.
    #[must_use]
    pub fn is_ascii_alphabetic(self) -> (r: bool)
        ensures
            r == ('A' <= self@ <= 'Z' || 'a' <= self@ <= 'z'),
    {
        let b = self.ascii();
        (b >= 0x41 && b <= 0x5a) || (b >= 0x61 && b <= 0x7a)
    }

    /// Like `char::is_ascii_alphanumeric`: an ASCII letter or digit.
    #[must_use]
    pub fn is_ascii_alphanumeric(self) -> (r: bool)
        ensures
            r == ('0' <= self@ <= '9' || 'A' <= self@ <= 'Z' || 'a' <= self@ <= 'z'),
    {
        let b = self.ascii();
        (b >= 0x30 && b <= 0x39) || (b >= 0x41 && b <= 0x5a) || (b >= 0x61 && b <= 0x7a)
    }

    /// Like `char::is_ascii_control`: a C0 control character or delete.
    #[must_use]
    pub fn is_ascii_control(self) -> (r: bool)
        ensures
            r == (self@ <= '\u{1f}' || self@ == '\u{7f}'),
    {
        let b = self.ascii();
        b <= 0x1f || b == 0x7f
    }

    /// Like `char::is_ascii_digit`: a decimal digit.
    #[must_use]
    pub fn is_ascii_digit(self) -> (r: bool)
        ensures
            r == ('0' <= self@ <= '9'),
    {
        let b = self.ascii();
        b >= 0x30 && b <= 0x39
    }

    /// Like `char::is_ascii_graphic`: a printable ASCII character other
    /// than space.
    #[must_use]
    pub fn is_ascii_graphic(self) -> (r: bool)
        ensures
            r == ('!' <= self@ <= '~'),
    {
        let b = self.ascii();
        b >= 0x21 && b <= 0x7e
    }

    /// Like `char::is_ascii_hexdigit`: a decimal digit or a hex letter of
    /// either case.
    #[must_use]
    pub fn is_ascii_hexdigit(self) -> (r: bool)
        ensures
            r == ('0' <= self@ <= '9' || 'A' <= self@ <= 'F' || 'a' <= self@ <= 'f'),
    {
        let b = self.ascii();
        (b >= 0x30 && b <= 0x39) || (b >= 0x41 && b <= 0x46) || (b >= 0x61 && b <= 0x66)
    }

    /// Like `char::is_ascii_lowercase`: an ASCII lowercase letter.
    #[must_use]
    pub fn is_ascii_lowercase(self) -> (r: bool)
        ensures
            r == ('a' <= self@ <= 'z'),
    {
        let b = self.ascii();
        b >= 0x61 && b <= 0x7a
    }

    /// Like `char::is_ascii_punctuation`: ASCII punctuation or a symbol.
    #[must_use]
    pub fn is_ascii_punctuation(self) -> (r: bool)
        ensures
            r == ('!' <= self@ <= '/' || ':' <= self@ <= '@' || '[' <= self@ <= '`' || '{'
                <= self@ <= '~'),
    {
        let b = self.ascii();
        (b >= 0x21 && b <= 0x2f) || (b >= 0x3a && b <= 0x40) || (b >= 0x5b && b <= 0x60) || (b
            >= 0x7b && b <= 0x7e)
    }

    /// Like `char::is_ascii_uppercase`: an ASCII uppercase letter.
    #[must_use]
    pub fn is_ascii_uppercase(self) -> (r: bool)
        ensures
            r == ('A' <= self@ <= 'Z'),
    {
        let b = self.ascii();
        b >= 0x41 && b <= 0x5a
    }

    /// Like `char::is_ascii_whitespace`: space, tab, newline, form feed or
    /// carriage return.
    #[must_use]
    pub fn is_ascii_whitespace(self) -> (r: bool)
        ensures
            r == (self@ == ' ' || self@ == '\t' || self@ == '\n' || self@ == '\u{c}' || self@
                == '\r'),
    {
        let b = self.ascii();
        b == 0x20 || b == 0x09 || b == 0x0a || b == 0x0c || b == 0x0d
    }

    /// Like `char::eq_ignore_ascii_case`: equality after ASCII lowering of
    /// both sides.
    #[must_use]
    pub fn eq_ignore_ascii_case(self, other: Self) -> (r: bool)
        ensures
            r == (to_ascii_lower_spec(self@) == to_ascii_lower_spec(other@)),
    {
        self.to_ascii_lowercase().const_eq(other.to_ascii_lowercase())
    }

    /// Like `char::make_ascii_lowercase`: replaces the value with its ASCII
    /// lowercase form in place.
    pub fn make_ascii_lowercase(&mut self)
        ensures
            final(self)@ == to_ascii_lower_spec(old(self)@),
    {
        *self = self.to_ascii_lowercase();
    }

    /// Like `char::make_ascii_uppercase`: replaces the value with its ASCII
    /// uppercase form in place.
    pub fn make_ascii_uppercase(&mut self)
        ensures
            final(self)@ == to_ascii_upper_spec(old(self)@),
    {
        *self = self.to_ascii_uppercase();
    }

    /// Like `char::to_ascii_lowercase`: an ASCII uppercase letter's lead
    /// byte moves 32 up, inside the length-1 class, so only the lead byte
    /// changes; everything else is returned unchanged.
    #[must_use]
    pub fn to_ascii_lowercase(self) -> (r: Self)
        ensures
            r@ == to_ascii_lower_spec(self@),
    {
        proof {
            use_type_invariant(self.0);
            self.lemma_view_facts();
            representation::lemma_ascii_packed(self.bytes());
        }
        let b = self.ascii();
        if b >= 0x41 && b <= 0x5a {
            let mut inner = self.0;
            proof {
                representation::lemma_ascii_update(self.bytes(), (b + 32) as u8);
            }
            inner.set_first_byte(b + 32);
            Utf8Char(inner)
        } else {
            self
        }
    }

    /// Like `char::to_ascii_uppercase`: an ASCII lowercase letter's lead
    /// byte moves 32 down, inside the length-1 class, so only the lead byte
    /// changes; everything else is returned unchanged.
    #[must_use]
    pub fn to_ascii_uppercase(self) -> (r: Self)
        ensures
            r@ == to_ascii_upper_spec(self@),
    {
        proof {
            use_type_invariant(self.0);
            self.lemma_view_facts();
            representation::lemma_ascii_packed(self.bytes());
        }
        let b = self.ascii();
        if b >= 0x61 && b <= 0x7a {
            let mut inner = self.0;
            proof {
                representation::lemma_ascii_update(self.bytes(), (b - 32) as u8);
            }
            inner.set_first_byte(b - 32);
            Utf8Char(inner)
        } else {
            self
        }
    }

    /// Like `char::is_digit` with a byte-sized radix: true when the
    /// codepoint has a digit value in the given radix.
    ///
    /// The radix must be in `2..=36`; anything else is a contract
    /// violation on the caller's side.
    #[must_use]
    pub fn is_digit(self, radix: u8) -> (r: bool)
        requires
            2 <= radix <= 36,
        ensures
            r == (to_digit_spec(self@, radix) is Some),
    {
        self.to_digit(radix).is_some()
    }

    /// Like `char::to_digit` with a byte-sized radix: the digit value of
    /// the codepoint in the given radix, if it has one.
    ///
    /// The radix must be in `2..=36`; anything else is a contract
    /// violation on the caller's side.
    #[must_use]
    pub fn to_digit(self, radix: u8) -> (r: Option<u8>)
        requires
            2 <= radix <= 36,
        ensures
            r == to_digit_spec(self@, radix),
    {
        let b = self.ascii();
        let digit: Option<u8> = if b >= 0x30 && b <= 0x39 {
            Some(b - 0x30)
        } else if b >= 0x61 && b <= 0x7a {
            Some(b - 0x61 + 10)
        } else if b >= 0x41 && b <= 0x5a {
            Some(b - 0x41 + 10)
        } else {
            None
        };
        match digit {
            Some(d) if d < radix => Some(d),
            _ => None,
        }
    }
}

} // verus!
