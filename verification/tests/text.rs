use peek_codex::text::{compare_text, contains_chars, is_control, is_whitespace, push_decimal, TextOrder};

#[test]
fn character_classes_agree_with_the_standard_library() {
    for code in 0..=0x10FFFFu32 {
        if let Some(c) = char::from_u32(code) {
            assert_eq!(is_whitespace(c), c.is_whitespace(), "white space at {code:#x}");
            assert_eq!(is_control(c), c.is_control(), "control at {code:#x}");
        }
    }
}

#[test]
fn text_order_agrees_with_string_order() {
    let samples = ["", "a", "ab", "b", "B", "é", "e\u{301}", "界", "z", "aa", "a\u{10000}", "a\u{ffff}"];
    for left in samples {
        for right in samples {
            let expected = match left.cmp(right) {
                std::cmp::Ordering::Less => TextOrder::Less,
                std::cmp::Ordering::Equal => TextOrder::Equal,
                std::cmp::Ordering::Greater => TextOrder::Greater,
            };
            assert_eq!(compare_text(left, right), expected, "{left:?} vs {right:?}");
        }
    }
}

#[test]
fn substring_search_agrees_with_str_contains() {
    let samples = ["", "a", "ab", "ba", "abab", "bab", "界x", "x界", "aaa"];
    for hay in samples {
        for needle in samples {
            let hay_chars: Vec<char> = hay.chars().collect();
            let needle_chars: Vec<char> = needle.chars().collect();
            assert_eq!(
                contains_chars(&hay_chars, &needle_chars),
                hay.contains(needle),
                "{hay:?} contains {needle:?}"
            );
        }
    }
}

#[test]
fn decimal_rendering_agrees_with_display() {
    for n in [0u64, 7, 9, 10, 42, 100, 999, 1_000_000, u64::MAX] {
        let mut out = String::from("n=");
        push_decimal(&mut out, n);
        assert_eq!(out, format!("n={n}"));
    }
}
