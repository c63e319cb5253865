use avcscope::number::parse_at_most;
use avcscope::number::to_decimal;
use avcscope::order::add_text;
use avcscope::order::sort_texts;
use avcscope::order::text_before;
use avcscope::text::begins_with;
use avcscope::text::chars_of;
use avcscope::text::cut;
use avcscope::text::has_text;
use avcscope::text::is_whitespace;
use avcscope::text::join;
use avcscope::text::pad_right;
use avcscope::text::split_lines;
use avcscope::text::split_whitespace;
use avcscope::text::strip_colons;
use avcscope::text::text_of;
use avcscope::text::text_position;
use avcscope::text::trim;

const SAMPLES: [&str; 12] = [
    "",
    " ",
    "a",
    "  a b\t\u{2003}c \r",
    "a\nb",
    "a\r\nb\r\n",
    "\n\n",
    "a\r",
    "a\rb\r\r\n",
    "::a:b:",
    "äöü ×→ \u{85}x",
    "avc: avc avc:",
];

#[test]
fn white_space_is_that_of_unicode() {
    for n in 0..=0x10ffffu32 {
        if let Some(c) = char::from_u32(n) {
            assert_eq!(is_whitespace(c), c.is_whitespace(), "{n:x}");
        }
    }
}

#[test]
fn characters_and_back() {
    for s in SAMPLES {
        assert_eq!(chars_of(s), s.chars().collect::<Vec<char>>());
        assert_eq!(text_of(&chars_of(s)), s);
    }
}

#[test]
fn texts_are_taken_apart() {
    for s in SAMPLES {
        let chars = chars_of(s);
        assert_eq!(split_whitespace(&chars), s.split_whitespace().collect::<Vec<_>>(), "{s:?}");
        let lines: Vec<String> = split_lines(&chars).iter().map(|l| text_of(l)).collect();
        assert_eq!(lines, s.lines().collect::<Vec<_>>(), "{s:?}");
        assert_eq!(text_of(trim(&chars)), s.trim(), "{s:?}");
        assert_eq!(text_of(strip_colons(&chars)), s.trim_start_matches(':'), "{s:?}");
        let (before, after) = cut(&chars, ':');
        let (b, a) = s.split_once(':').unwrap_or((s, ""));
        assert_eq!((text_of(before).as_str(), text_of(after).as_str()), (b, a), "{s:?}");
    }
}

#[test]
fn texts_are_searched() {
    for s in SAMPLES {
        let chars = chars_of(s);
        for pat in ["", "a", "avc:", "avc avc", "\r\n", "x"] {
            assert_eq!(has_text(&chars, pat), s.contains(pat), "{s:?} {pat:?}");
            assert_eq!(begins_with(&chars, pat), s.starts_with(pat), "{s:?} {pat:?}");
            let place = s.find(pat).map(|b| s[..b].chars().count());
            assert_eq!(text_position(&chars, pat), place, "{s:?} {pat:?}");
        }
    }
}

#[test]
fn texts_are_joined_and_padded() {
    let parts = vec!["a".to_string(), "".to_string(), "b".to_string()];
    assert_eq!(join(&parts, ", "), "a, , b");
    assert_eq!(join(&[], ", "), "");
    assert_eq!(pad_right("×1", 4), "×1  ");
    assert_eq!(pad_right("distinct pids", 12), "distinct pids");
}

#[test]
fn texts_are_ordered() {
    let words = ["", "a", "ab", "b", "B", "é", "z", "\u{10000}", "\u{ffff}"];
    for a in words {
        for b in words {
            assert_eq!(text_before(a, b), a < b, "{a:?} {b:?}");
        }
    }
    let mut expected: Vec<String> = words.iter().map(|w| w.to_string()).collect();
    let sorted = sort_texts(expected.clone());
    expected.sort();
    assert_eq!(sorted, expected);
    let mut set = Vec::new();
    for w in ["b", "a", "c", "a", "b"] {
        add_text(&mut set, w.to_string());
    }
    assert_eq!(set, vec!["a", "b", "c"]);
}

#[test]
fn numerals_are_read_and_written() {
    for n in [0, 7, 10, 999, 1000, u64::MAX] {
        assert_eq!(to_decimal(n), n.to_string());
        assert_eq!(parse_at_most(&chars_of(&n.to_string()), u64::MAX), Some(n));
    }
    for s in ["", "+", "-", "-1", "1 ", "0x1", "+12", "00012", "255", "256", "99999999999999999999999"] {
        assert_eq!(
            parse_at_most(&chars_of(s), 255),
            s.parse::<u8>().ok().map(|n| n as u64),
            "{s:?}"
        );
    }
}
