use claude_tmux::clock::Timestamp;
use claude_tmux::text::chars_of;
use claude_tmux::transcript::{
    last_api_call_in, last_api_call_time, last_timestamp_in, last_timestamp_in_file,
    parse_timestamp, read_stamp, tail_offset, Scan, Stamp, CLAUDE_TAIL, CODEX_TAIL,
};

fn at(secs: i64) -> Timestamp {
    Timestamp { secs, nanos: 0 }
}

fn stamp(line: &str) -> Stamp {
    read_stamp(&chars_of(line))
}

#[test]
fn timestamp_parse() {
    let line = r#"{"type":"assistant","timestamp":"2026-06-21T03:27:38.361Z"}"#;
    let t = parse_timestamp(line).expect("should parse");
    // Should be roughly 2026 (seconds since epoch ≈ 1.75 billion)
    let unix = t.secs;
    assert!(unix > 1_700_000_000, "parsed timestamp too old: {unix}");
    assert!(unix < 2_000_000_000, "parsed timestamp too far: {unix}");
}

#[test]
fn timestamps_are_exact_to_the_second() {
    let line = r#"{"type":"assistant","timestamp":"2026-06-21T03:27:38.361Z"}"#;
    assert_eq!(parse_timestamp(line), Some(at(1_782_012_458)));
}

#[test]
fn the_first_timestamp_of_a_line_counts() {
    let line = r#"{"timestamp":"1970-01-01T00:00:07Z","x":{"timestamp":"1970-01-01T00:00:09Z"}}"#;
    assert_eq!(parse_timestamp(line), Some(at(7)));
}

#[test]
fn a_mark_at_the_closing_quote_hides_the_value() {
    let line = r#""timestamp":"1970-01-01T00:00:07Z"timestamp":"1970-01-01T00:00:09Z""#;
    assert_eq!(parse_timestamp(line), None);
}

#[test]
fn lines_without_a_timestamp() {
    assert_eq!(parse_timestamp(""), None);
    assert_eq!(parse_timestamp(r#"{"timestamp": "2026-06-21T03:27:38Z"}"#), None);
    assert_eq!(parse_timestamp(r#"{"timestamp":"2026-06-21T03:27"}"#), None);
    assert_eq!(parse_timestamp(r#"{"timestamp":"2026-06-21T03:27:38"#), None);
    assert_eq!(parse_timestamp(r#"{"timestamp":"yyyy-06-21T03:27:38Z"}"#), None);
    assert_eq!(parse_timestamp(r#"{"timestamp":"2026-13-21T03:27:38Z"}"#), None);
    assert_eq!(parse_timestamp(r#"{"timestamp":"1969-12-31T03:27:38Z"}"#), None);
    assert_eq!(parse_timestamp(r#"{"timestamp":"2026-06--1T03:27:38Z"}"#), None);
}

#[test]
fn parts_may_have_a_plus_sign() {
    assert_eq!(parse_timestamp(r#""timestamp":"1970-+1-+1T+0:+0:+7Z""#), Some(at(7)));
}

#[test]
fn timestamps_that_cannot_be_read() {
    // The year ends inside a character.
    assert_eq!(stamp(r#""timestamp":"202€-06-21T03:27:38Z""#), Stamp::Broken);
    // The month begins inside a character, or ends there.
    assert_eq!(stamp(r#""timestamp":"2026é6-21T03:27:38Z""#), Stamp::Broken);
    assert_eq!(stamp(r#""timestamp":"2026-0€-21T03:27:38Z""#), Stamp::Broken);
    // The year can be cut out, but is no number, so the rest is not looked at.
    assert_eq!(stamp(r#""timestamp":"20é€06-21T03:27:38Z""#), Stamp::Absent);
    // The day before the first one.
    assert_eq!(stamp(r#""timestamp":"1970-01-00T03:27:38Z""#), Stamp::Broken);
    assert_eq!(stamp(r#""timestamp":"1970-02-00T00:00:00Z""#), Stamp::At(at(30 * 86400)));
}

#[test]
fn the_newest_turn_is_found() {
    let text = "{\"type\":\"user\",\"timestamp\":\"1970-01-01T00:00:01Z\"}\n\
                {\"type\":\"assistant\",\"timestamp\":\"1970-01-01T00:00:02Z\"}\n\
                {\"type\":\"assistant\"}\n";
    assert_eq!(last_api_call_in(text), Scan::Found(at(2)));
    assert_eq!(last_timestamp_in(text), Scan::Found(at(2)));
}

#[test]
fn background_entries_do_not_count_as_turns() {
    let turn = "{\"type\":\"user\",\"timestamp\":\"1970-01-01T00:00:01Z\"}\n";
    for kind in ["system", "mode", "last-prompt", "custom-title", "agent-name"] {
        let text = format!(
            "{}{{\"type\":\"{}\",\"timestamp\":\"1970-01-01T01:00:00Z\"}}\n",
            turn, kind
        );
        assert_eq!(last_api_call_in(&text), Scan::Found(at(1)));
        assert_eq!(last_timestamp_in(&text), Scan::Found(at(3600)));
    }
}

#[test]
fn only_user_and_assistant_lines_are_turns() {
    let turn = r#"{"type":"assistant","timestamp":"2026-06-21T03:27:38Z"}"#;
    let other = r#"{"type":"queue-operation","timestamp":"2026-06-21T04:27:38Z"}"#;
    let text = format!("{turn}\n{other}");
    assert_eq!(last_api_call_time(text.as_bytes()), Scan::Found(at(1_782_012_458)));
    assert_eq!(last_timestamp_in_file(text.as_bytes()), Scan::Found(at(1_782_016_058)));
    assert_eq!(last_api_call_in(other), Scan::NotFound);
    assert_eq!(last_api_call_in(r#"{"timestamp":"2026-06-21T04:27:38Z"}"#), Scan::NotFound);
}

#[test]
fn a_turn_cut_off_at_its_start_counts() {
    let stamp = r#""timestamp":"1970-01-01T00:00:05Z"}"#;
    for start in [
        // Inside a string, behind one, and at the brace of a nested object.
        r#"of a long prompt"},"#,
        r#","#,
        r#"{"type":"text","text":"x"}]},"#,
        r#"{ in a string","x":"y","#,
    ] {
        assert_eq!(last_api_call_in(&format!("{start}{stamp}")), Scan::Found(at(5)));
        let mode = format!("{start}\"type\":\"mode\",{stamp}");
        assert_eq!(last_api_call_in(&mode), Scan::NotFound);
    }
}

#[test]
fn the_type_of_the_entry_itself_decides() {
    let stamp = r#""timestamp":"1970-01-01T00:00:05Z""#;
    for turn in [
        format!(r#"{{"type": "user",{stamp}}}"#),
        format!(r#"{{"type":"assistant","input":{{"type":"system"}},{stamp}}}"#),
        format!(r#"{{"message":{{"type":"mode"}},{stamp},"type":"assistant"}}"#),
        format!(r#"  {{"type" :"user",{stamp}}}  "#),
        format!(r#"{{"type":"user",{stamp},"text":"not finish"#),
    ] {
        assert_eq!(last_api_call_in(&turn), Scan::Found(at(5)));
    }
    for other in [
        format!(r#"{{"type":"progress","data":{{"type":"assistant"}},{stamp}}}"#),
        format!(r#"{{"type": "system",{stamp}}}"#),
        format!(r#"{{"type":"queue-operation",{stamp},"text":"not finish"#),
        format!(r#"{{"data":{{"type":"user"}},{stamp}}}"#),
    ] {
        assert_eq!(last_api_call_in(&other), Scan::NotFound);
    }
}

#[test]
fn nothing_is_found_without_timestamps() {
    assert_eq!(last_api_call_in(""), Scan::NotFound);
    assert_eq!(last_api_call_in("{\"type\":\"user\"}\n"), Scan::NotFound);
    let only_background = "{\"type\":\"system\",\"timestamp\":\"1970-01-01T00:00:01Z\"}";
    assert_eq!(last_api_call_in(only_background), Scan::NotFound);
    assert_eq!(last_timestamp_in("\"timestamp\" is missing\n"), Scan::NotFound);
}

#[test]
fn an_unreadable_timestamp_stops_the_search_only_where_it_is_reached() {
    let bad = "{\"timestamp\":\"202€-06-21T03:27:38Z\"}\n";
    let good = "{\"timestamp\":\"1970-01-01T00:00:05Z\"}\n";
    assert_eq!(last_timestamp_in(&format!("{}{}", good, bad)), Scan::Broken);
    assert_eq!(last_timestamp_in(&format!("{}{}", bad, good)), Scan::Found(at(5)));
}

#[test]
fn lines_may_end_with_carriage_returns() {
    let text = "{\"timestamp\":\"1970-01-01T00:00:05Z\"}\r\n\r\n";
    assert_eq!(last_timestamp_in(text), Scan::Found(at(5)));
}

#[test]
fn a_tail_may_begin_inside_a_character() {
    let mut tail: Vec<u8> = vec![0xac, 0x22, 0x0a];
    tail.extend_from_slice(b"{\"type\":\"user\",\"timestamp\":\"1970-01-01T00:00:05Z\"}\n");
    assert_eq!(last_api_call_time(&tail), Scan::Found(at(5)));
    assert_eq!(last_timestamp_in_file(&tail), Scan::Found(at(5)));
}

#[test]
fn an_invalid_byte_becomes_one_character_of_three_bytes() {
    // Decoded, the year begins with a replacement character that ends at byte 3, so
    // the year can be cut out but is no number.
    let mut absent: Vec<u8> = b"\"timestamp\":\"".to_vec();
    absent.push(0xff);
    absent.extend_from_slice(b"6-06-21T03:27:38Z0000\"");
    assert_eq!(last_timestamp_in_file(&absent), Scan::NotFound);
    // Here it begins at byte 2, and byte 4 lies inside it.
    let mut broken: Vec<u8> = b"\"timestamp\":\"20".to_vec();
    broken.push(0xff);
    broken.extend_from_slice(b"6-06-21T03:27:38Z\"");
    assert_eq!(last_timestamp_in_file(&broken), Scan::Broken);
}

#[test]
fn tails_begin_where_the_window_does() {
    assert_eq!(CLAUDE_TAIL, 16384);
    assert_eq!(CODEX_TAIL, 8192);
    assert_eq!(tail_offset(100, CLAUDE_TAIL), 0);
    assert_eq!(tail_offset(16384, CLAUDE_TAIL), 0);
    assert_eq!(tail_offset(16385, CLAUDE_TAIL), 1);
    assert_eq!(tail_offset(10_000, CODEX_TAIL), 1808);
}
