use claude_tmux::json::{extent_of, json_str, Extent};
use claude_tmux::text::chars_of;

#[test]
fn extract() {
    let t = r#"{"pid":123,"sessionId":"ab-cd","cwd":"/home/www","status":"busy"}"#;
    assert_eq!(json_str(t, "sessionId").as_deref(), Some("ab-cd"));
    assert_eq!(json_str(t, "cwd").as_deref(), Some("/home/www"));
    assert_eq!(json_str(t, "missing"), None);
}

#[test]
fn pairs_with_blanks_read_back() {
    let t = "{ \"cwd\" : \"/tmp/ä b\" ,\n \"sessionId\":\n\"x\" }";
    assert_eq!(json_str(t, "cwd").as_deref(), Some("/tmp/ä b"));
    assert_eq!(json_str(t, "sessionId").as_deref(), Some("x"));
}

#[test]
fn an_empty_value_is_a_value() {
    assert_eq!(json_str(r#"{"cwd":""}"#, "cwd").as_deref(), Some(""));
}

#[test]
fn unfinished_pairs_have_no_value() {
    assert_eq!(json_str(r#"{"cwd"}"#, "cwd"), None);
    assert_eq!(json_str(r#"{"cwd":12}"#, "cwd"), None);
    assert_eq!(json_str(r#"{"cwd":"/tmp"#, "cwd"), None);
    assert_eq!(json_str("", "cwd"), None);
}

#[test]
fn nested_pairs_do_not_count() {
    let t = r#"{"a":{"cwd":"/inner"},"cwd":"/outer"}"#;
    assert_eq!(json_str(t, "cwd").as_deref(), Some("/outer"));
    let t = r#"{"meta":{"cwd":"/x"},"cwd":"/home"}"#;
    assert_eq!(json_str(t, "cwd").as_deref(), Some("/home"));
    let t = r#"{"a":[{"cwd":"/inner"}],"cwd":"/outer"}"#;
    assert_eq!(json_str(t, "cwd").as_deref(), Some("/outer"));
    assert_eq!(json_str(r#"{"a":{"cwd":"/inner"}}"#, "cwd"), None);
    assert_eq!(json_str(r#"[{"cwd":"/inner"}]"#, "cwd"), None);
}

#[test]
fn values_are_not_taken_for_keys() {
    let t = r#"{"status":"sessionId","x":"y","sessionId":"ab"}"#;
    assert_eq!(json_str(t, "sessionId").as_deref(), Some("ab"));
    let t = r#"{"status":"{","cwd":"/home"}"#;
    assert_eq!(json_str(t, "cwd").as_deref(), Some("/home"));
    let t = r#"{"title":"a \"cwd\": b","cwd":"/home"}"#;
    assert_eq!(json_str(t, "cwd").as_deref(), Some("/home"));
    let t = r#"{"title":"a\\","cwd":"/home"}"#;
    assert_eq!(json_str(t, "cwd").as_deref(), Some("/home"));
}

#[test]
fn the_first_pair_counts() {
    let t = r#"{"cwd":"/one","cwd":"/two"}"#;
    assert_eq!(json_str(t, "cwd").as_deref(), Some("/one"));
}

#[test]
fn a_value_that_is_no_string_is_none() {
    assert_eq!(json_str(r#"{"cwd":null,"x":"y"}"#, "cwd"), None);
    assert_eq!(json_str(r#"{"cwd":{"x":"y"}}"#, "cwd"), None);
}

#[test]
fn pairs_need_no_brace_around_them() {
    assert_eq!(json_str(r#""cwd":"/bare""#, "cwd").as_deref(), Some("/bare"));
    let t = r#"{"a":{"b":1}} "cwd": "/behind""#;
    assert_eq!(json_str(t, "cwd").as_deref(), Some("/behind"));
}

#[test]
fn objects_are_told_from_parts_of_objects() {
    let extent = |s: &str| extent_of(&chars_of(s));
    assert_eq!(extent("{}"), Extent::Whole);
    assert_eq!(extent(r#"{"a":{"b":"}"},"c":["{"]}"#), Extent::Whole);
    assert_eq!(extent(r#"{"a":{"b":1}"#), Extent::Opened);
    assert_eq!(extent(r#"{"a":"}"#), Extent::Opened);
    assert_eq!(extent("{"), Extent::Opened);
    assert_eq!(extent(r#"{"b":1},"c":2}"#), Extent::Other);
    assert_eq!(extent(r#""c":2}"#), Extent::Other);
    assert_eq!(extent(""), Extent::Other);
}
