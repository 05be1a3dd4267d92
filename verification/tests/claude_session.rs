use claude_tmux::claude_session::{
    begin_probe, last_activity_for_tty, Candidate, ClaudeTail, CodexClock, CodexDay, CodexDir,
    CodexTail, Probe,
};
use claude_tmux::clock::Timestamp;
use claude_tmux::codex::LocalDate;
use claude_tmux::session::ToolType;
use claude_tmux::transcript::Scan;

fn at(secs: i64) -> Timestamp {
    Timestamp { secs, nanos: 0 }
}

fn text(s: &str) -> Option<String> {
    Some(s.to_string())
}

fn names(v: &[&str]) -> Option<Vec<String>> {
    Some(v.iter().map(|s| s.to_string()).collect())
}

/// A machine with answers for every question.
struct Machine {
    tail: Option<Vec<u8>>,
    mtime: Option<Timestamp>,
}

const STAT: &str = "9 (codex) S 1 2 3 4 5 6 7 8 9 10 11 12 13 14 15 16 17 18 5050 20";
const DAY: i64 = 86400;

fn terminal(pid: &str) -> Option<String> {
    match pid {
        "11" => text("/dev/pts/1"),
        "7" | "42" | "300" => text("/dev/pts/3"),
        _ => None,
    }
}

impl Machine {
    fn run(&self, start: Probe) -> Option<Option<Timestamp>> {
        let mut probe = start;
        for _ in 0..1000 {
            probe = match probe {
                Probe::Done(r) => return Some(r),
                Probe::Abort => return None,
                Probe::ClaudeNames(p) => {
                    p.reply(names(&["x.json", "11.json", "note.txt", "42.json", "7.json"]))
                }
                Probe::ClaudeOwner(p) => {
                    let link = terminal(&p.pid);
                    p.reply(link)
                }
                Probe::ClaudeRecord(p) => {
                    assert_eq!(p.pid, "42");
                    p.reply(text(r#"{"pid":42,"sessionId":"ab-cd","cwd":"/home/www.x"}"#))
                }
                Probe::ClaudeTail(p) => {
                    assert_eq!(p.project, "-home-www-x");
                    assert_eq!(p.file, "ab-cd.jsonl");
                    p.reply(self.tail.clone())
                }
                Probe::ClaudeMtime(p) => p.reply(self.mtime),
                Probe::CodexProcs(p) => p.reply(names(&["self", "42", "300", "11", "7", "stat"])),
                Probe::CodexOwner(p) => {
                    let link = terminal(&p.pid);
                    p.reply(link)
                }
                Probe::CodexStat(p) => {
                    assert_eq!(p.pid, "300");
                    p.reply(text(STAT))
                }
                Probe::CodexClock(p) => p.reply(100, text("cpu 1\nbtime 1000000\n")),
                Probe::CodexDay(p) => {
                    let day = (p.unix() / DAY) as u32;
                    p.reply(Some(LocalDate { year: 1970, month: 1, day: day + 1 }))
                }
                Probe::CodexDir(p) => {
                    // The process started at 1000050.5, on day 11 of the epoch.
                    let listing = match p.dir.as_str() {
                        "1970/01/12" => names(&[
                            "rollout-1970-01-12T13-47-30-a.jsonl",
                            "readme.md",
                            "rollout-1970-01-12T13-47-32-b.jsonl",
                            "rollout-1970-01-12T13-47-31-c.jsonl",
                        ]),
                        "1970/01/11" => None,
                        "1970/01/13" => names(&["rollout-1970-01-13T00-00-00-d.jsonl"]),
                        other => panic!("unexpected directory {other}"),
                    };
                    p.reply(listing)
                }
                Probe::CodexName(p) => {
                    let f = p.fields;
                    assert_eq!((f.tm_year, f.tm_mon), (70, 0));
                    let unix = (f.tm_mday as i64 - 1) * DAY
                        + f.tm_hour as i64 * 3600
                        + f.tm_min as i64 * 60
                        + f.tm_sec as i64;
                    p.reply(unix)
                }
                Probe::CodexTail(p) => {
                    assert_eq!((p.day, p.entry), (0, 3));
                    p.reply(self.tail.clone())
                }
                Probe::CodexMtime(p) => {
                    assert_eq!((p.day, p.entry), (0, 3));
                    p.reply(self.mtime)
                }
                Probe::OpenCodeQuery(p) => {
                    assert_eq!(p.cwd, "/home/www");
                    p.reply(Some(1500))
                }
            };
        }
        panic!("the search does not end");
    }
}

fn machine(tail: Option<&str>, mtime: Option<Timestamp>) -> Machine {
    Machine { tail: tail.map(|s| s.as_bytes().to_vec()), mtime }
}

fn search(tool: ToolType, m: &Machine) -> Option<Option<Timestamp>> {
    m.run(begin_probe("/dev/pts/3", tool, "/home/www", true))
}

const TURN: &str = "{\"type\":\"user\",\"timestamp\":\"1970-01-01T00:00:05Z\"}\n";
const BACKGROUND: &str = "{\"type\":\"system\",\"timestamp\":\"1970-01-01T01:00:00Z\"}\n";
const BROKEN: &str = "{\"type\":\"user\",\"timestamp\":\"202€-06-21T03:27:38Z\"}\n";

#[test]
fn opencode_full_path() {
    let result = last_activity_for_tty("/dev/pts/10", ToolType::OpenCode, "/home/www");
    let asked = match &result.probe {
        Probe::OpenCodeQuery(p) => Some(p.cwd.clone()),
        _ => None,
    };
    println!("last_activity_for_tty(opencode, /home/www): {:?}", asked);
    assert_eq!(asked.is_some(), result.home.is_some());
    let direct = begin_probe("/dev/pts/10", ToolType::OpenCode, "/home/www", result.home.is_some());
    assert_eq!(matches!(direct, Probe::OpenCodeQuery(_)), result.home.is_some());
}

#[test]
fn the_home_directory_is_the_one_of_the_user() {
    let result = last_activity_for_tty("/dev/pts/1", ToolType::Claude, "");
    assert_eq!(result.home, dirs::home_dir());
    match result.probe {
        Probe::ClaudeNames(p) => assert_eq!(p.tty, "/dev/pts/1"),
        Probe::Done(None) => assert!(result.home.is_none()),
        _ => panic!("unexpected search"),
    }
}

#[test]
fn opencode_without_directory_has_no_session() {
    let result = last_activity_for_tty("/dev/pts/10", ToolType::OpenCode, "");
    assert!(result.home.is_none());
    assert!(matches!(result.probe, Probe::Done(None)));
}

#[test]
fn nothing_is_searched_without_a_home() {
    for tool in [ToolType::Claude, ToolType::Codex, ToolType::OpenCode] {
        assert!(matches!(begin_probe("/dev/pts/3", tool, "/x", false), Probe::Done(None)));
    }
}

#[test]
fn claude_newest_turn() {
    let m = machine(Some(&format!("{TURN}{BACKGROUND}")), Some(at(9000)));
    assert_eq!(search(ToolType::Claude, &m), Some(Some(at(5))));
}

#[test]
fn claude_falls_back_to_the_time_of_the_file() {
    let m = machine(Some(BACKGROUND), Some(at(9000)));
    assert_eq!(search(ToolType::Claude, &m), Some(Some(at(9000))));
    let m = machine(Some(BACKGROUND), None);
    assert_eq!(search(ToolType::Claude, &m), Some(None));
}

#[test]
fn claude_without_a_transcript_tells_nothing() {
    let m = machine(None, Some(at(9000)));
    assert_eq!(search(ToolType::Claude, &m), Some(None));
}

#[test]
fn claude_gives_up_on_an_unreadable_timestamp() {
    let m = machine(Some(BROKEN), Some(at(9000)));
    assert_eq!(search(ToolType::Claude, &m), None);
}

#[test]
fn codex_newest_timestamp() {
    let m = machine(Some(&format!("{TURN}{BACKGROUND}")), Some(at(9000)));
    assert_eq!(search(ToolType::Codex, &m), Some(Some(at(3600))));
}

#[test]
fn codex_falls_back_to_the_time_of_the_file() {
    let m = machine(Some("no time"), Some(at(9000)));
    assert_eq!(search(ToolType::Codex, &m), Some(Some(at(9000))));
    let m = machine(None, Some(at(9000)));
    assert_eq!(search(ToolType::Codex, &m), Some(Some(at(9000))));
}

#[test]
fn codex_gives_up_on_an_unreadable_timestamp() {
    let m = machine(Some(BROKEN), Some(at(9000)));
    assert_eq!(search(ToolType::Codex, &m), None);
}

#[test]
fn opencode_newest_message() {
    let m = machine(None, None);
    let expected = Timestamp { secs: 1, nanos: 500_000_000 };
    assert_eq!(search(ToolType::OpenCode, &m), Some(Some(expected)));
}

#[test]
fn unknown_terminals_have_no_session() {
    let m = machine(Some(TURN), None);
    for tool in [ToolType::Claude, ToolType::Codex] {
        assert_eq!(m.run(begin_probe("/dev/pts/77", tool, "", true)), Some(None));
    }
}

#[test]
fn what_cannot_be_listed_has_no_session() {
    match begin_probe("t", ToolType::Claude, "", true) {
        Probe::ClaudeNames(p) => assert!(matches!(p.reply(None), Probe::Done(None))),
        _ => panic!("unexpected search"),
    }
    match begin_probe("t", ToolType::Codex, "", true) {
        Probe::CodexProcs(p) => assert!(matches!(p.reply(None), Probe::Done(None))),
        _ => panic!("unexpected search"),
    }
}

#[test]
fn records_without_both_values_tell_nothing() {
    for record in [None, text("{}"), text(r#"{"sessionId":"a"}"#), text(r#"{"cwd":"a"}"#)] {
        let probe = match begin_probe("/dev/pts/1", ToolType::Claude, "", true) {
            Probe::ClaudeNames(p) => p.reply(names(&["11.json"])),
            _ => panic!("unexpected search"),
        };
        let probe = match probe {
            Probe::ClaudeOwner(p) => p.reply(text("/dev/pts/1")),
            _ => panic!("unexpected search"),
        };
        match probe {
            Probe::ClaudeRecord(p) => assert!(matches!(p.reply(record), Probe::Done(None))),
            _ => panic!("unexpected search"),
        }
    }
}

#[test]
fn searches_go_on_from_what_a_tail_came_to() {
    let tail = || ClaudeTail { project: "p".to_string(), file: "f".to_string() };
    assert!(matches!(tail().scanned(Some(Scan::Found(at(3)))), Probe::Done(Some(_))));
    assert!(matches!(tail().scanned(Some(Scan::NotFound)), Probe::ClaudeMtime(_)));
    assert!(matches!(tail().scanned(Some(Scan::Broken)), Probe::Abort));
    assert!(matches!(tail().scanned(None), Probe::Done(None)));
    let tail = || CodexTail { day: 1, entry: 2 };
    assert!(matches!(tail().scanned(Some(Scan::Found(at(3)))), Probe::Done(Some(_))));
    assert!(matches!(tail().scanned(Some(Scan::NotFound)), Probe::CodexMtime(_)));
    assert!(matches!(tail().scanned(Some(Scan::Broken)), Probe::Abort));
    assert!(matches!(tail().scanned(None), Probe::CodexMtime(_)));
}

#[test]
fn a_start_without_a_local_date_ends_the_search() {
    let day = |n: usize| CodexDay { start: at(1_000_000), day: n, found: vec![] };
    assert!(matches!(day(0).reply(None), Probe::Done(None)));
    match day(1).reply(None) {
        Probe::CodexDay(p) => assert_eq!(p.day, 2),
        _ => panic!("unexpected search"),
    }
    assert!(matches!(day(2).reply(None), Probe::Done(None)));
    let clock = || CodexClock { ticks: u64::MAX };
    assert!(matches!(clock().reply(100, None), Probe::Done(None)));
    assert!(matches!(clock().reply(i64::MAX, text("btime 1\n")), Probe::CodexDay(_)));
    let clock = || CodexClock { ticks: 1 << 62 };
    assert!(matches!(clock().reply(i64::MAX, text("btime 1\n")), Probe::Abort));
    assert!(matches!(clock().reply(i64::MAX, text("cpu\n")), Probe::Done(None)));
}

#[test]
fn a_start_before_the_epoch_ends_the_search() {
    let date = LocalDate { year: 1969, month: 12, day: 31 };
    let day = |n: usize| CodexDay { start: at(-5), day: n, found: vec![] };
    for n in 0..3 {
        assert!(matches!(day(n).reply(Some(date)), Probe::Done(None)));
        assert!(matches!(day(n).reply(None), Probe::Done(None)));
    }
    let found = vec![Candidate { time: at(7), day: 0, entry: 0 }];
    let dir = CodexDir { start: at(-5), day: 2, found, dir: "1970/01/01".to_string() };
    assert!(matches!(dir.reply(None), Probe::Done(None)));
}

#[test]
fn tails_are_as_long_as_their_windows() {
    let transcript = ClaudeTail { project: "p".to_string(), file: "f".to_string() };
    assert_eq!(transcript.offset(0), 0);
    assert_eq!(transcript.offset(16384), 0);
    assert_eq!(transcript.offset(16385), 1);
    assert_eq!(transcript.offset(1_000_000), 1_000_000 - 16384);
    let session = CodexTail { day: 0, entry: 0 };
    assert_eq!(session.offset(8192), 0);
    assert_eq!(session.offset(16384), 8192);
}

#[test]
fn names_that_cannot_be_cut_end_the_search() {
    let dir = CodexDir {
        start: at(5),
        day: 0,
        found: vec![],
        dir: "1970/01/01".to_string(),
    };
    let listing = names(&["rollout-202€-06-13T10-30-44.jsonl"]);
    assert!(matches!(dir.reply(listing), Probe::Abort));
}
