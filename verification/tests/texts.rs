use wealthfolio::entries::put_entry;
use wealthfolio::listing::sorted_distinct;
use wealthfolio::text::{
    characters, char_is_whitespace, chain, is_text_below, join, lines, prefix_of_bytes,
    print_number, replace_char, same_text, spell, text_ends_with, text_starts_with,
    to_ascii_upper, trim, words,
};

fn owned(list: &[&str]) -> Vec<String> {
    list.iter().map(|text| text.to_string()).collect()
}

#[test]
fn texts_are_ordered_as_strings_are() {
    for a in ["", "a", "ab", "b", "é", "\u{ffff}", "\u{10000}", "Z"] {
        for b in ["", "a", "ab", "b", "é", "\u{ffff}", "\u{10000}", "Z"] {
            assert_eq!(is_text_below(a, b), a < b, "{a} {b}");
            assert_eq!(same_text(a, b), a == b);
        }
    }
}

#[test]
fn white_space_is_what_unicode_says() {
    for code in 0..0x11_0000u32 {
        if let Some(c) = char::from_u32(code) {
            assert_eq!(char_is_whitespace(c), c.is_whitespace(), "{code:x}");
        }
    }
}

#[test]
fn trimming_takes_white_space_off_both_ends() {
    for text in ["", " ", "a", " a b\t\r\n", "\u{a0}x\u{3000}", "x "] {
        assert_eq!(trim(text), text.trim());
    }
}

#[test]
fn lines_end_with_a_feed_or_the_text() {
    for text in [
        "",
        "\n",
        "a",
        "a\n",
        "a\r\nb",
        "a\r\n\r\nb\r",
        "\r\n",
        "a\rb\n",
        "\n\n",
    ] {
        let expected: Vec<&str> = text.lines().collect();
        assert_eq!(lines(text), expected);
    }
}

#[test]
fn words_are_between_white_space() {
    for text in ["", "  ", "a", " a  bc\td\n", "x\u{a0}y"] {
        let expected: Vec<&str> = text.split_whitespace().collect();
        assert_eq!(words(text), expected);
    }
}

#[test]
fn a_prefix_is_counted_in_bytes() {
    for text in ["", "2024-01-02T03", "2024-01-02", "2024-01-0", "ééééé", "aééééé", "\u{10000}\u{10000}ab"] {
        assert_eq!(prefix_of_bytes(text, 10).as_deref(), text.get(..10), "{text}");
    }
}

#[test]
fn starts_and_ends_are_compared() {
    assert!(text_starts_with("WOOB-1", "WOOB-"));
    assert!(!text_starts_with("WOOB", "WOOB-"));
    assert!(text_ends_with("/usr/bin/env", "env"));
    assert!(!text_ends_with("nv", "env"));
}

#[test]
fn characters_are_replaced_and_raised() {
    assert_eq!(replace_char("1,2,3", ',', '.'), "1.2.3");
    assert_eq!(to_ascii_upper("gBp-é"), "GBP-é");
}

#[test]
fn numbers_are_printed_in_digits() {
    for n in [0, 7, 10, 200, 600, 1800, 5000, u64::MAX] {
        assert_eq!(print_number(n), n.to_string());
    }
}

#[test]
fn texts_are_put_together_and_taken_apart() {
    assert_eq!(chain("ab", "cd"), "abcd");
    assert_eq!(join(&owned(&["a", "b", "c"]), ">"), "a>b>c");
    assert_eq!(join(&owned(&["a"]), ">"), "a");
    assert_eq!(join(&vec![], ">"), "");
    let chars = characters("héllo");
    assert_eq!(chars.len(), 5);
    assert_eq!(spell(&chars, 1, 3), "él");
}

#[test]
fn texts_are_listed_once_in_order() {
    assert_eq!(
        sorted_distinct(&owned(&["b", "a", "c", "a", "b"])),
        owned(&["a", "b", "c"])
    );
    assert!(sorted_distinct(&vec![]).is_empty());
}

#[test]
fn an_entry_replaces_the_one_under_its_key() {
    let mut entries = vec![("a".to_string(), 1), ("b".to_string(), 2)];
    put_entry(&mut entries, "a".to_string(), 3);
    put_entry(&mut entries, "c".to_string(), 4);
    assert_eq!(
        entries,
        vec![
            ("a".to_string(), 3),
            ("b".to_string(), 2),
            ("c".to_string(), 4)
        ]
    );
}
