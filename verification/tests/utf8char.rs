use utf8char::{codepoint_len_bmi, codepoint_len_lut, IntoUtf8Chars, Utf8Char, Utf8CharIter};

/// Every Unicode scalar value, in order.
fn all_chars() -> impl Iterator<Item = char> {
    '\0'..=char::MAX
}

/// A sparse sample of scalar values, for pairwise properties.
fn sampled_chars() -> impl Iterator<Item = char> {
    ('\0'..=char::MAX).step_by(10_007)
}

#[test]
fn roundtrip() {
    all_chars().for_each(|ch| {
        let mut buf = [0x80u8; 4];

        let s = ch.encode_utf8(&mut buf);

        let utf8_alt = Utf8Char::from_first_char(s).unwrap();

        let utf8 = Utf8Char::from_char(ch);

        let codelen = Utf8Char::codepoint_len(utf8.as_array()[0]);

        assert!(matches!(codelen, 1..=4));

        assert_eq!(codelen as usize, ch.len_utf8());
        assert_eq!(utf8.len_utf8() as usize, ch.len_utf8());

        assert_eq!(s, utf8.as_str());
        assert_eq!(utf8_alt.as_str(), s);
        // ensure internal repr is consistent
        assert_eq!(buf, utf8.as_array());
        assert_eq!(buf, utf8_alt.as_array());

        assert_eq!(utf8.to_char(), ch);
        assert_eq!(utf8_alt.to_char(), ch);
    });
}

#[test]
fn empty_string() {
    assert!(Utf8Char::from_first_char("").is_none());
}

#[test]
fn total_ordering() {
    sampled_chars().for_each(|a| {
        sampled_chars().for_each(|b| {
            let a_utf8 = Utf8Char::from_char(a);
            let b_utf8 = Utf8Char::from_char(b);

            assert_eq!(a_utf8.cmp(&b_utf8), a.cmp(&b));
            assert_eq!(
                a_utf8.eq_ignore_ascii_case(b_utf8),
                a.eq_ignore_ascii_case(&b)
            );
        });
    });
}

#[test]
fn identical_codepoint_len() {
    all_chars().for_each(|c| {
        let u8c = Utf8Char::from_char(c);
        let first = u8c.as_array()[0];

        let control = u8::try_from(c.len_utf8()).expect("within 1..=4");

        assert_eq!(codepoint_len_bmi(first), control);
        assert_eq!(codepoint_len_lut(first), control);
        assert_eq!(u8c.len_utf8(), control);
    });
}

#[test]
fn charapi_matches() {
    all_chars().for_each(|c| {
        let utf8 = Utf8Char::from_char(c);

        assert_eq!(utf8.is_ascii(), c.is_ascii(), "{utf8:?}:{c:?}");
        assert_eq!(
            utf8.is_ascii_alphabetic(),
            c.is_ascii_alphabetic(),
            "{utf8:?}:{c:?}"
        );
        assert_eq!(
            utf8.is_ascii_alphanumeric(),
            c.is_ascii_alphanumeric(),
            "{utf8:?}:{c:?}"
        );
        assert_eq!(utf8.is_ascii_control(), c.is_ascii_control(), "{utf8:?}:{c:?}");
        assert_eq!(utf8.is_ascii_digit(), c.is_ascii_digit(), "{utf8:?}:{c:?}");
        assert_eq!(utf8.is_ascii_graphic(), c.is_ascii_graphic(), "{utf8:?}:{c:?}");
        assert_eq!(
            utf8.is_ascii_hexdigit(),
            c.is_ascii_hexdigit(),
            "{utf8:?}:{c:?}"
        );
        assert_eq!(
            utf8.is_ascii_lowercase(),
            c.is_ascii_lowercase(),
            "{utf8:?}:{c:?}"
        );
        assert_eq!(
            utf8.is_ascii_punctuation(),
            c.is_ascii_punctuation(),
            "{utf8:?}:{c:?}"
        );
        assert_eq!(
            utf8.is_ascii_uppercase(),
            c.is_ascii_uppercase(),
            "{utf8:?}:{c:?}"
        );
        assert_eq!(
            utf8.is_ascii_whitespace(),
            c.is_ascii_whitespace(),
            "{utf8:?}:{c:?}"
        );

        assert_eq!(utf8.to_ascii_lowercase().to_char(), c.to_ascii_lowercase());
        assert_eq!(utf8.to_ascii_uppercase().to_char(), c.to_ascii_uppercase());

        let mut newch = utf8;
        newch.make_ascii_lowercase();
        assert_eq!(newch, utf8.to_ascii_lowercase());

        let mut newch = utf8;
        newch.make_ascii_uppercase();
        assert_eq!(newch, utf8.to_ascii_uppercase());

        for radix in 2..=36 {
            assert_eq!(utf8.is_digit(radix), c.is_digit(radix as u32));
            assert_eq!(
                utf8.to_digit(radix),
                c.to_digit(radix as u32).map(|n| n as u8)
            );
        }
    })
}

#[test]
fn allstring() {
    let allchars = all_chars().collect::<String>();

    assert_eq!(Utf8CharIter::new(&allchars).count(), allchars.chars().count());

    let mut utf8chars = Utf8CharIter::new(&allchars);
    let mut chars = allchars.chars();

    loop {
        match (utf8chars.next(), chars.next()) {
            (Some(u8c), Some(c)) => {
                assert_eq!(u8c.to_char(), c);

                // ensures bitrepr compatibility is upheld
                assert_eq!(Utf8Char::from_char(u8c.to_char()), u8c);
            }
            (None, None) => break,
            _ => panic!("iterators disagree in length"),
        }
    }

    let mut utf8chars = Utf8CharIter::new(&allchars);
    let mut chars = allchars.chars();

    loop {
        match (utf8chars.next_back(), chars.next_back()) {
            (Some(u8c), Some(c)) => {
                assert_eq!(u8c.to_char(), c);

                // ensures bitrepr compatibility is upheld
                assert_eq!(Utf8Char::from_char(u8c.to_char()), u8c);
            }
            (None, None) => break,
            _ => panic!("iterators disagree in length"),
        }
    }
}

#[test]
fn scenario_ascii_capital_a() {
    let utf8 = Utf8Char::from_char('A');
    assert_eq!(utf8.as_array(), [0x41, 0x80, 0x80, 0x80]);
    assert_eq!(utf8.len_utf8(), 1);
    assert_eq!(utf8.to_ascii_lowercase().to_char(), '\u{61}');
}

#[test]
fn scenario_two_byte_e_acute() {
    let utf8 = Utf8Char::from_char('\u{e9}');
    assert_eq!(utf8.as_array(), [0xc3, 0xa9, 0x80, 0x80]);
    assert_eq!(utf8.len_utf8(), 2);
}

#[test]
fn scenario_three_byte_cjk() {
    let utf8 = Utf8Char::from_char('\u{4e2d}');
    assert_eq!(utf8.as_array(), [0xe4, 0xb8, 0xad, 0x80]);
    assert_eq!(utf8.len_utf8(), 3);
}

#[test]
fn scenario_four_byte_emoji() {
    let utf8 = Utf8Char::from_char('\u{1f600}');
    assert_eq!(utf8.as_array(), [0xf0, 0x9f, 0x98, 0x80]);
    assert_eq!(utf8.len_utf8(), 4);
}

#[test]
fn scenario_forward_backward_cjk_ascii() {
    let mut iter = "\u{4e2d}A".utf8_chars();
    assert_eq!(iter.next().map(Utf8Char::to_char), Some('\u{4e2d}'));
    assert_eq!(iter.next().map(Utf8Char::to_char), Some('A'));
    assert_eq!(iter.next(), None);

    let mut iter = "\u{4e2d}A".utf8_chars();
    assert_eq!(iter.next_back().map(Utf8Char::to_char), Some('A'));
    assert_eq!(iter.next_back().map(Utf8Char::to_char), Some('\u{4e2d}'));
    assert_eq!(iter.next_back(), None);
}

#[test]
fn scenario_empty_iterator() {
    let mut iter = "".utf8_chars();
    assert!(iter.is_empty());
    assert_eq!(iter.next(), None);
    assert_eq!(iter.next_back(), None);
    assert_eq!("".utf8_chars().count(), 0);
}

#[test]
fn first_char_decodes_like_chars() {
    for s in ["hello", "\u{e9}tude", "\u{4e2d}\u{6587}", "\u{1f600}!", "x"] {
        let first = Utf8Char::from_first_char(s).unwrap();
        assert_eq!(first.to_char(), s.chars().next().unwrap());
        let first_unchecked = Utf8Char::from_first_char_unchecked(s);
        assert_eq!(first_unchecked, first);
    }
}

#[test]
fn string_view_matches_char_string() {
    for c in ['A', '\u{e9}', '\u{4e2d}', '\u{1f600}', '\0', '\u{10ffff}'] {
        let utf8 = Utf8Char::from_char(c);
        assert_eq!(utf8.as_str(), c.to_string());
        assert_eq!(utf8.as_str().len(), c.len_utf8());
    }
}

#[test]
fn ordering_matches_scalar_order() {
    let cases = ['\0', 'A', 'z', '\u{7f}', '\u{80}', '\u{7ff}', '\u{800}', '\u{ffff}', '\u{10000}', '\u{10ffff}'];
    for a in cases {
        for b in cases {
            let a_utf8 = Utf8Char::from_char(a);
            let b_utf8 = Utf8Char::from_char(b);
            assert_eq!(a_utf8 < b_utf8, a < b);
            assert_eq!(a_utf8 == b_utf8, a == b);
            assert_eq!(a_utf8.partial_cmp(&b_utf8), a.partial_cmp(&b));
        }
    }
}

#[test]
fn ascii_case_idempotent() {
    all_chars().step_by(97).for_each(|c| {
        let utf8 = Utf8Char::from_char(c);
        let once = utf8.to_ascii_lowercase();
        assert_eq!(once.to_ascii_lowercase(), once);
        let upper_once = utf8.to_ascii_uppercase();
        assert_eq!(upper_once.to_ascii_uppercase(), upper_once);
    });
    let a = Utf8Char::from_char('A');
    assert_eq!(a.to_ascii_lowercase().to_ascii_lowercase(), a.to_ascii_lowercase());
}

#[test]
fn digits_follow_radix() {
    let zero = Utf8Char::from_char('0');
    let nine = Utf8Char::from_char('9');
    let small_f = Utf8Char::from_char('f');
    let big_z = Utf8Char::from_char('Z');
    let middle_dot = Utf8Char::from_char('\u{b7}');

    assert_eq!(zero.to_digit(10), Some(0));
    assert_eq!(nine.to_digit(10), Some(9));
    assert_eq!(nine.to_digit(8), None);
    assert_eq!(small_f.to_digit(16), Some(15));
    assert_eq!(small_f.to_digit(10), None);
    assert_eq!(big_z.to_digit(36), Some(35));
    assert_eq!(middle_dot.to_digit(36), None);
    assert!(zero.is_digit(2));
    assert!(!small_f.is_digit(15));
}

#[test]
fn mixed_direction_consumption() {
    let s = "a\u{e9}\u{4e2d}\u{1f600}";
    let mut iter = s.utf8_chars();
    assert_eq!(iter.as_str(), s);
    assert_eq!(iter.next().map(Utf8Char::to_char), Some('a'));
    assert_eq!(iter.next_back().map(Utf8Char::to_char), Some('\u{1f600}'));
    assert_eq!(iter.as_str(), "\u{e9}\u{4e2d}");
    assert_eq!(iter.count(), 2);

    let mut iter = s.utf8_chars();
    assert_eq!(iter.last().map(Utf8Char::to_char), Some('\u{1f600}'));

    let mut iter = s.utf8_chars();
    while iter.next().is_some() {}
    assert!(iter.is_empty());
    assert_eq!(iter.next_back(), None);
}

#[test]
fn size_hint_brackets_count() {
    for s in ["", "abc", "\u{e9}\u{4e2d}\u{1f600}", "a\u{1f600}"] {
        let iter = s.utf8_chars();
        let (lo, hi) = iter.size_hint();
        let n = s.chars().count();
        assert!(lo <= n);
        assert_eq!(hi, Some(s.len()));
        assert!(n <= s.len());
    }
}

#[test]
fn eq_ignore_ascii_case_pairs() {
    let upper = Utf8Char::from_char('G');
    let lower = Utf8Char::from_char('g');
    let other = Utf8Char::from_char('h');
    let wide = Utf8Char::from_char('\u{4e2d}');
    assert!(upper.eq_ignore_ascii_case(lower));
    assert!(lower.eq_ignore_ascii_case(upper));
    assert!(!upper.eq_ignore_ascii_case(other));
    assert!(wide.eq_ignore_ascii_case(wide));
    assert!(!wide.eq_ignore_ascii_case(upper));
}
