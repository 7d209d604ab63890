use souls_client::sorting::{key_order, sort_numbers};
use souls_client::text::{
    begins_with, contains_text, join, push_decimal, push_four_hex, push_signed_decimal,
    push_two_digits, replace_all, split_words, text_len, trim_end_spaces,
};
use souls_client::wide::{encode_wide, encode_wide_terminated, until_zero};

fn strings(list: &[&str]) -> Vec<String> {
    list.iter().map(|s| s.to_string()).collect()
}

#[test]
fn numbers_are_written_like_display() {
    for n in [0u64, 9, 10, 99, 100, 12345, u64::MAX] {
        let mut out = String::from("x");
        push_decimal(&mut out, n);
        assert_eq!(out, format!("x{}", n));
    }
    for n in [0i64, -1, 42, -10104137, i64::MIN, i64::MAX] {
        let mut out = String::new();
        push_signed_decimal(&mut out, n);
        assert_eq!(out, format!("{}", n));
    }
    for n in [0u64, 5, 10, 59, 100] {
        let mut out = String::new();
        push_two_digits(&mut out, n);
        assert_eq!(out, format!("{:02}", n));
    }
    for n in [0u64, 0xF, 0xABCD, 0x10001] {
        let mut out = String::new();
        push_four_hex(&mut out, n);
        assert_eq!(out, format!("{:04x}", n & 0xFFFF));
    }
}

#[test]
fn replacing_and_searching_match_std() {
    for (text, pat, with) in [
        ("$1, Goddess of Rot", "$1", "Malenia"),
        ("$1$1", "$1", "$1x"),
        ("aaaa", "aa", "b"),
        ("aaa", "aa", "b"),
        ("", "x", "y"),
        ("Crab (Regular)", " (Regular)", ""),
        ("é™é", "é", "e"),
    ] {
        assert_eq!(replace_all(text, pat, with), text.replace(pat, with));
        assert_eq!(contains_text(text, pat), text.contains(pat));
        assert_eq!(begins_with(text, pat), text.starts_with(pat));
    }
}

#[test]
fn joining_and_splitting_match_std() {
    assert_eq!(join(&strings(&["a", "b", "c"]), ", "), "a, b, c");
    assert_eq!(join(&strings(&["a"]), ", "), "a");
    assert_eq!(join(&strings(&[]), ", "), "");
    for text in ["", "one", "one two", " lead", "double  space ", "ü ö"] {
        let expected: Vec<String> = text.split_inclusive(' ').map(|s| s.to_string()).collect();
        assert_eq!(split_words(text), expected);
        assert_eq!(trim_end_spaces(text), text.trim_end_matches(' '));
        assert_eq!(text_len(text), text.len());
    }
}

#[test]
fn wide_text_matches_std() {
    for text in ["", "c4351", "™", "𝄞a𝄞", "\u{d7ff}\u{e000}\u{10ffff}"] {
        let expected: Vec<u16> = text.encode_utf16().collect();
        assert_eq!(encode_wide(text), expected);
        let mut ended = expected.clone();
        ended.push(0);
        assert_eq!(encode_wide_terminated(text), ended);
        assert_eq!(until_zero(&ended), expected);
        assert_eq!(until_zero(&expected), expected);
    }
}

#[test]
fn sorting_matches_std() {
    let numbers = vec![5u32, 1, 5, 0, u32::MAX, 3];
    let mut expected = numbers.clone();
    expected.sort();
    assert_eq!(sort_numbers(&numbers), expected);
    assert_eq!(sort_numbers(&vec![]), Vec::<u32>::new());
}

#[test]
fn key_order_is_stable() {
    let keys = vec![3u64, 1, 3, 0, 1];
    let mut expected: Vec<usize> = (0..keys.len()).collect();
    expected.sort_by_key(|&i| keys[i]);
    assert_eq!(key_order(&keys), expected);
    assert_eq!(key_order(&keys), vec![3, 1, 4, 0, 2]);
}
