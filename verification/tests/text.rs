use claude_tmux::bytes::{byte_slice_of, char_at_byte_of, has_bytes, width_of};
use claude_tmux::datetime::{read_fields_of, Civil, Fields};
use claude_tmux::names::{is_pid, stem};
use claude_tmux::number::{decimal_of, padded_of, parse_i32, parse_u64};
use claude_tmux::opencode::message_time_of;
use claude_tmux::clock::Timestamp;
use claude_tmux::text::{
    chars_of, find_last, find_text, is_white_space, lines_of, same_text, string_of, strip,
    trimmed, trimmed_start, words_of,
};

fn lines(s: &str) -> Vec<String> {
    let chars = chars_of(s);
    lines_of(&chars).iter().map(|l| string_of(l)).collect()
}

fn words(s: &str) -> Vec<String> {
    let chars = chars_of(s);
    words_of(&chars).iter().map(|l| string_of(l)).collect()
}

const SAMPLES: [&str; 10] = [
    "", "\n", "a", "a\n", "a\r\nb", "a\r", "\r\n\r\n", " x \u{3000}y\t", "\n\na\n\nb\r\r\n", "é\u{85}ü",
];

#[test]
fn lines_are_those_of_std() {
    for s in SAMPLES {
        assert_eq!(lines(s), s.lines().map(|l| l.to_string()).collect::<Vec<String>>());
    }
}

#[test]
fn words_are_those_of_std() {
    for s in SAMPLES {
        assert_eq!(words(s), s.split_whitespace().map(|l| l.to_string()).collect::<Vec<String>>());
    }
}

#[test]
fn trimming_is_that_of_std() {
    for s in SAMPLES {
        let chars = chars_of(s);
        assert_eq!(string_of(trimmed(&chars)), s.trim());
        assert_eq!(string_of(trimmed_start(&chars)), s.trim_start());
    }
}

#[test]
fn white_space_is_that_of_std() {
    for code in 0u32..=0x10ffff {
        if let Some(c) = char::from_u32(code) {
            assert_eq!(is_white_space(c), c.is_whitespace());
            assert_eq!(width_of(c), c.len_utf8());
        }
    }
}

#[test]
fn searching() {
    let s = chars_of("aXbXc");
    assert_eq!(find_text(&s, &chars_of("X")), Some(1));
    assert_eq!(find_text(&s, &chars_of("Xc")), Some(3));
    assert_eq!(find_text(&s, &chars_of("Xd")), None);
    assert_eq!(find_text(&s, &[]), Some(0));
    assert_eq!(find_last(&s, 'X'), Some(3));
    assert_eq!(find_last(&s, 'q'), None);
    assert!(strip(&s, "aX").is_some());
    assert!(strip(&s, "Xa").is_none());
    assert!(same_text("äb", "äb"));
    assert!(!same_text("äb", "äbc"));
}

#[test]
fn numbers_are_those_of_std() {
    for s in [
        "", "+", "-", "0", "-0", "+7", "-7", "++7", "007", " 7", "7 ", "1_0", "٣",
        "18446744073709551615", "18446744073709551616", "99999999999999999999999",
        "2147483647", "2147483648", "-2147483648", "-2147483649",
    ] {
        assert_eq!(parse_u64(&chars_of(s)), s.parse::<u64>().ok());
        assert_eq!(parse_i32(&chars_of(s)), s.parse::<i32>().ok());
    }
}

#[test]
fn written_numbers_are_those_of_std() {
    for n in [0u64, 9, 10, 99, 100, 12345, u64::MAX] {
        assert_eq!(decimal_of(n), n.to_string());
        assert_eq!(parse_u64(&chars_of(&decimal_of(n))), Some(n));
    }
    for n in [0i64, 5, 42, 2026, 12345, -1, -5, -999, -1000, -12345, i64::MIN, i64::MAX] {
        assert_eq!(padded_of(n, 4), format!("{n:04}"));
        assert_eq!(padded_of(n, 2), format!("{n:02}"));
        assert_eq!(padded_of(n, 0), format!("{n}"));
    }
}

#[test]
fn byte_offsets_are_those_of_std() {
    let s = "aé€😀b";
    let chars = chars_of(s);
    assert!(has_bytes(&chars, s.len()));
    assert!(!has_bytes(&chars, s.len() + 1));
    for a in 0..=s.len() + 1 {
        assert_eq!(char_at_byte_of(&chars, a).is_some(), s.is_char_boundary(a));
        for b in a..=s.len() + 1 {
            let mine = byte_slice_of(&chars, a, b).map(string_of);
            assert_eq!(mine.as_deref(), s.get(a..b));
        }
    }
}

#[test]
fn stems_are_those_of_std() {
    for name in ["a.json", "a.b.json", ".json", "json", "a.", "..json", "..", ".", "", "a.jsonl"] {
        let path = std::path::Path::new(name);
        let expected = if path.extension().and_then(|e| e.to_str()) == Some("json") {
            path.file_stem().and_then(|s| s.to_str()).map(|s| s.to_string())
        } else {
            None
        };
        assert_eq!(stem(&chars_of(name), "json").map(string_of), expected);
    }
}

#[test]
fn process_names_are_numbers() {
    assert!(is_pid("123"));
    assert!(is_pid(""));
    assert!(!is_pid("12a"));
    assert!(!is_pid("self"));
}

#[test]
fn written_dates_read_back() {
    let c = Civil { year: 2026, month: 6, day: 13, hour: 10, min: 30, sec: 44 };
    for s in ["2026-06-13T10:30:44Z", "2026-06-13T10-30-44-x", "2026/06/13 10.30.44"] {
        assert_eq!(read_fields_of(&chars_of(s), false), Fields::Read(c));
        assert_eq!(read_fields_of(&chars_of(s), true), Fields::Read(c));
    }
    assert_eq!(read_fields_of(&chars_of("2026-06-13T10:30"), false), Fields::Broken);
    assert_eq!(read_fields_of(&chars_of("2026-0x-13T10:30"), false), Fields::Invalid);
}

#[test]
fn message_times_are_milliseconds() {
    assert_eq!(message_time_of(None), None);
    assert_eq!(message_time_of(Some(0)), None);
    assert_eq!(message_time_of(Some(-4)), None);
    assert_eq!(
        message_time_of(Some(1_750_000_000_123)),
        Some(Timestamp { secs: 1_750_000_000, nanos: 123_000_000 })
    );
}
