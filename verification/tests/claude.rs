use claude_tmux::claude::{munge_path, session_pid_of};

#[test]
fn munge() {
    assert_eq!(munge_path("/home/www"), "-home-www");
    assert_eq!(munge_path("/home/www/pms-dev"), "-home-www-pms-dev");
}

#[test]
fn munging_keeps_length_and_is_done_once() {
    let munged = munge_path("/srv/Ünïcode/v1.2");
    assert_eq!(munged, "-srv-Ünïcode-v1-2");
    assert_eq!(munge_path(&munged), munged);
    assert_eq!(munge_path(""), "");
}

#[test]
fn records_are_named_by_process() {
    assert_eq!(session_pid_of("4711.json").as_deref(), Some("4711"));
    assert_eq!(session_pid_of("4711.jsonl"), None);
    assert_eq!(session_pid_of("47a1.json"), None);
    assert_eq!(session_pid_of("4711"), None);
    assert_eq!(session_pid_of(".json"), None);
    assert_eq!(session_pid_of("1.2.json"), None);
    assert_eq!(session_pid_of(""), None);
}
