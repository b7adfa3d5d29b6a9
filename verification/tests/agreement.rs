//! The library's texts, paths and numbers behave as those of the standard
//! library do.
use std::path::{Component, Path};

use loggle::path::{join_path, names_one_thing};
use loggle::text::bytes::{char_width, str_len, truncate_chars};
use loggle::text::number::{decimal_string, signed_string};
use loggle::text::order::str_before;
use loggle::text::split::{chars_lines, chars_words, join_strings};
use loggle::text::{
    char_is_ascii_alnum, char_is_control, char_is_digit, char_is_space, char_lower,
    chars_contains, chars_contains_ignore_case, chars_of, chars_same_ignore_case, chars_trim,
    chars_trim_end, chars_trim_start, string_of,
};
use loggle::ui::row::{push_message_spans, SpanRole};

const TEXTS: [&str; 10] = [
    "",
    " ",
    "plain",
    "\u{2003}wide space\u{3000}",
    "one\ntwo\r\nthree\n",
    "\n\n",
    "Stra\u{df}e \u{1F600} end ",
    "a\tb\u{85}c",
    "ABC abc",
    "\r\nlast",
];

fn texts(parts: Vec<&[char]>) -> Vec<String> {
    parts.into_iter().map(string_of).collect()
}

#[test]
fn characters_are_classed_alike() {
    for code in 0..=u32::from(char::MAX) {
        let Some(c) = char::from_u32(code) else {
            continue;
        };
        assert_eq!(char_is_space(c), c.is_whitespace(), "{code:x}");
        assert_eq!(char_is_control(c), c.is_control(), "{code:x}");
        assert_eq!(char_is_digit(c), c.is_ascii_digit(), "{code:x}");
        assert_eq!(char_is_ascii_alnum(c), c.is_ascii_alphanumeric(), "{code:x}");
        assert_eq!(char_lower(c), c.to_ascii_lowercase(), "{code:x}");
        assert_eq!(char_width(c), c.len_utf8(), "{code:x}");
    }
}

#[test]
fn texts_are_cut_alike() {
    for text in TEXTS {
        let chars = chars_of(text);
        assert_eq!(string_of(&chars), text);
        assert_eq!(str_len(text), text.len());
        assert_eq!(string_of(chars_trim(&chars)), text.trim());
        assert_eq!(string_of(chars_trim_start(&chars)), text.trim_start());
        assert_eq!(string_of(chars_trim_end(&chars)), text.trim_end());
        assert_eq!(
            texts(chars_words(&chars)),
            text.split_whitespace().collect::<Vec<_>>()
        );
        assert_eq!(
            texts(chars_lines(&chars)),
            text.lines().collect::<Vec<_>>()
        );
        for max in 0..=text.len() {
            let kept = string_of(truncate_chars(&chars, max));
            assert!(kept.len() <= max);
            assert!(text.starts_with(&kept));
        }
    }
}

#[test]
fn texts_are_compared_alike() {
    for left in TEXTS {
        for right in TEXTS {
            assert_eq!(str_before(left, right), left < right);
            let (a, b) = (chars_of(left), chars_of(right));
            assert_eq!(chars_contains(&a, &b), left.contains(right));
            assert_eq!(
                chars_contains_ignore_case(&a, &b),
                left.to_ascii_lowercase()
                    .contains(&right.to_ascii_lowercase())
            );
            assert_eq!(
                chars_same_ignore_case(&a, &b),
                left.eq_ignore_ascii_case(right)
            );
        }
    }
    let parts: Vec<String> = TEXTS.iter().map(|text| text.to_string()).collect();
    assert_eq!(join_strings(&parts, ", "), parts.join(", "));
    assert_eq!(join_strings(&Vec::new(), ", "), "");
}

#[test]
fn numbers_are_written_alike() {
    for n in [0, 1, 9, 10, 42, 100, 99_999, u128::from(u64::MAX), u128::MAX] {
        assert_eq!(decimal_string(n), n.to_string());
    }
    for n in [0, 1, -1, 127, i32::MIN, i32::MAX] {
        assert_eq!(signed_string(n), n.to_string());
    }
}

#[test]
fn paths_are_joined_alike() {
    for base in ["", "/", "/work", "/work/", "work", ".", "a//"] {
        for part in ["", "x.toml", "/x.toml", "a/b", "..", "./y"] {
            assert_eq!(
                join_path(base, part),
                Path::new(base).join(part).display().to_string()
            );
        }
    }
}

#[test]
fn names_are_told_from_paths_alike() {
    for path in [
        "", "libre", "libre/", "libre//", "libre/.", "libre/./", "libre/..", ".", "..", "/libre",
        "a/b", "./libre", "libre/./.", "...", "a b",
    ] {
        let mut components = Path::new(path).components();
        let one = matches!(components.next(), Some(Component::Normal(_)))
            && components.next().is_none();
        assert_eq!(names_one_thing(path), one, "{path:?}");
    }
}

#[test]
fn letters_of_any_script_keep_marks_from_being_highlighted() {
    for (message, lit) in [
        ("x-y", false),
        ("\u{e9}-\u{e9}", false),
        ("\u{4e2d}-\u{6587}", false),
        ("x - y", true),
        ("\u{2026}-\u{2026}", true),
    ] {
        let mut spans = Vec::new();
        push_message_spans(&mut spans, message, &["-"]);
        let whole: String = spans.iter().map(|span| span.text.as_str()).collect();
        assert_eq!(whole, message);
        assert_eq!(
            spans.iter().any(|span| span.role == SpanRole::Highlight),
            lit,
            "{message}"
        );
    }
}
