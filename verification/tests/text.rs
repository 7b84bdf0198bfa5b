use netutils::octets::{common_prefix_len, lexical_compare};
use netutils::text::{
    chars_of, dec_octet, hex_digit, hex_octet, push_dec, push_hex_pair, split,
};
use std::cmp::Ordering;

fn chars(s: &str) -> Vec<char> {
    s.chars().collect()
}

fn pieces(s: &str, d: char) -> Vec<String> {
    split(&chars(s), d).into_iter().map(|p| p.into_iter().collect()).collect()
}

#[test]
fn chars_of_gives_the_characters_in_order() {
    assert_eq!(chars_of(""), Vec::<char>::new());
    assert_eq!(chars_of("a:b"), vec!['a', ':', 'b']);
    assert_eq!(chars_of("\u{e9}\u{1F600}z"), vec!['\u{e9}', '\u{1F600}', 'z']);
}

#[test]
fn split_gives_one_piece_more_than_there_are_delimiters() {
    assert_eq!(pieces("", ':'), vec![""]);
    assert_eq!(pieces("abc", ':'), vec!["abc"]);
    assert_eq!(pieces("a:b", ':'), vec!["a", "b"]);
    assert_eq!(pieces(":", ':'), vec!["", ""]);
    assert_eq!(pieces("a::b:", ':'), vec!["a", "", "b", ""]);
    assert_eq!(pieces(":a", ':'), vec!["", "a"]);
    assert_eq!(pieces("1.2.3.4", '.'), vec!["1", "2", "3", "4"]);
    assert_eq!(pieces("1.2.3.4", '-'), vec!["1.2.3.4"]);
}

#[test]
fn split_agrees_with_the_standard_library() {
    for text in ["", "a", "--", "01-23-45", "-x-", "a-b-c-d-e-f-g", "\u{e9}-\u{e8}"] {
        let expected: Vec<String> = text.split('-').map(|p| p.to_string()).collect();
        assert_eq!(pieces(text, '-'), expected);
    }
}

#[test]
fn hex_digit_reads_both_cases() {
    assert_eq!(hex_digit('0'), Some(0));
    assert_eq!(hex_digit('9'), Some(9));
    assert_eq!(hex_digit('a'), Some(10));
    assert_eq!(hex_digit('f'), Some(15));
    assert_eq!(hex_digit('A'), Some(10));
    assert_eq!(hex_digit('F'), Some(15));
    for c in ['g', 'G', '/', ':', '@', '`', ' ', '+', '-', '\u{ff11}'] {
        assert_eq!(hex_digit(c), None);
    }
}

#[test]
fn hex_octet_takes_one_or_two_digits() {
    assert_eq!(hex_octet(&chars("0")), Some(0));
    assert_eq!(hex_octet(&chars("f")), Some(15));
    assert_eq!(hex_octet(&chars("10")), Some(16));
    assert_eq!(hex_octet(&chars("aB")), Some(0xAB));
    assert_eq!(hex_octet(&chars("FF")), Some(255));
    for text in ["", "000", "1g", "g1", "+1", "-1", " 1", "0x1"] {
        assert_eq!(hex_octet(&chars(text)), None);
    }
}

#[test]
fn dec_octet_reads_what_an_octet_parses_from() {
    for text in
        ["", "0", "7", "10", "99", "100", "255", "256", "300", "0255", "00000", "+", "+0", "+255", "+256", "++1", "-1", "1+", "12a", " 1", "1 ", "99999999999999999999999"]
    {
        assert_eq!(dec_octet(&chars(text)), text.parse::<u8>().ok());
    }
    for v in 0..=255u8 {
        assert_eq!(dec_octet(&chars(&v.to_string())), Some(v));
    }
    assert_eq!(dec_octet(&chars("255")), Some(255));
    assert_eq!(dec_octet(&chars("256")), None);
}

#[test]
fn push_hex_pair_writes_two_upper_case_digits() {
    let mut out = String::from("x");
    push_hex_pair(&mut out, 0x0a);
    push_hex_pair(&mut out, 0xF0);
    assert_eq!(out, "x0AF0");
    for v in 0..=255u8 {
        let mut out = String::new();
        push_hex_pair(&mut out, v);
        assert_eq!(out, format!("{:02X}", v));
    }
}

#[test]
fn push_dec_writes_no_leading_zeros() {
    for v in 0..=255u8 {
        let mut out = String::from("<");
        push_dec(&mut out, v);
        assert_eq!(out, format!("<{}", v));
    }
}

#[test]
fn octet_strings_compare_place_by_place() {
    assert_eq!(lexical_compare(&[], &[]), Ordering::Equal);
    assert_eq!(lexical_compare(&[1, 2, 3], &[1, 2, 3]), Ordering::Equal);
    assert_eq!(lexical_compare(&[1, 2, 3], &[1, 3, 0]), Ordering::Less);
    assert_eq!(lexical_compare(&[2, 0, 0], &[1, 255, 255]), Ordering::Greater);
    assert_eq!(lexical_compare(&[1, 2], &[1, 2, 0]), Ordering::Less);
    assert_eq!(lexical_compare(&[1, 2, 0], &[1, 2]), Ordering::Greater);
    assert_eq!(lexical_compare(&[], &[0]), Ordering::Less);
    assert_eq!(common_prefix_len(&[1, 2, 3], &[1, 2, 4]), 2);
    assert_eq!(common_prefix_len(&[1, 2], &[1, 2, 4]), 2);
    assert_eq!(common_prefix_len(&[9], &[1]), 0);
}

#[test]
fn octet_strings_compare_as_slices_do() {
    let samples: [&[u8]; 6] = [&[], &[0], &[0, 0], &[0, 1], &[1], &[255, 0, 3]];
    for a in samples {
        for b in samples {
            assert_eq!(lexical_compare(a, b), a.cmp(b));
        }
    }
}
