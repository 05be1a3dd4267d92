use claude_tmux::clock::{civil_to_unix, Timestamp};
use claude_tmux::codex::{
    codex_filename_fields, day_dir_of, find_codex_session, local_date, mktime_moment_of,
    probe_unix, process_start, start_ticks_of, system_boot_time, ticks_per_second, tm_of,
    LocalDate, Rollout,
};
use claude_tmux::datetime::Civil;

fn at(secs: i64) -> Timestamp {
    Timestamp { secs, nanos: 0 }
}

#[test]
fn codex_filename_parse() {
    let path = std::path::PathBuf::from(
        "/home/www/.codex/sessions/2026/06/13/rollout-2026-06-13T10-30-44-019ebed1-3ca3-7473-a240-c5d4b167d342.jsonl",
    );
    let name = path.file_name().unwrap().to_str().unwrap();
    let fields = codex_filename_fields(name);
    assert!(matches!(fields, Rollout::At(_)), "should parse codex filename datetime");
    if let Rollout::At(c) = fields {
        // With UTC as local time, the moment is the one of the calendar.
        let utc = civil_to_unix(
            c.year as u64,
            c.month as u64,
            c.day as u64,
            c.hour as u64,
            c.min as u64,
            c.sec as u64,
        )
        .unwrap();
        let t = mktime_moment_of(utc as i64);
        assert!(t.is_some(), "should parse codex filename datetime");
        let unix = t.unwrap().secs;
        assert!(unix > 1_700_000_000, "parsed time too old: {unix}");
        assert!(unix < 2_000_000_000, "parsed time too far: {unix}");
        assert_eq!(unix, 1_781_346_644);
    }
}

#[test]
fn file_names_give_their_parts() {
    let c = Civil { year: 2026, month: 6, day: 13, hour: 10, min: 30, sec: 44 };
    assert_eq!(
        codex_filename_fields("rollout-2026-06-13T10-30-44-abc.jsonl"),
        Rollout::At(c)
    );
    let tm = tm_of(c);
    assert_eq!((tm.tm_year, tm.tm_mon, tm.tm_mday), (126, 5, 13));
    assert_eq!((tm.tm_hour, tm.tm_min, tm.tm_sec), (10, 30, 44));
}

#[test]
fn other_files_are_no_sessions() {
    for name in [
        "rollout-2026-06-13T10-30-44.json",
        "rollout-2026-06-13T10-30.jsonl",
        "session-2026-06-13T10-30-44.jsonl",
        "rollout-2026-06-13Txx-30-44.jsonl",
        ".jsonl",
        "",
    ] {
        assert_eq!(codex_filename_fields(name), Rollout::Other);
    }
}

#[test]
fn parts_of_a_name_may_be_negative() {
    let name = "rollout--999-06-13T10-30-44.jsonl";
    assert_eq!(
        codex_filename_fields(name),
        Rollout::At(Civil { year: -999, month: 6, day: 13, hour: 10, min: 30, sec: 44 })
    );
}

#[test]
fn names_that_cannot_be_cut() {
    assert_eq!(codex_filename_fields("rollout-202€-06-13T10-30-44.jsonl"), Rollout::Broken);
}

#[test]
fn mktime_errors_tell_no_moment() {
    assert_eq!(mktime_moment_of(-1), None);
    assert_eq!(mktime_moment_of(0), Some(at(0)));
}

#[test]
fn start_ticks_are_field_twenty_two() {
    let stat = "77 (codex) S 1 2 3 4 5 6 7 8 9 10 11 12 13 14 15 16 17 18 123456 20 21";
    assert_eq!(start_ticks_of(stat), Some(123456));
}

#[test]
fn program_names_do_not_mislead() {
    let stat = "77 (a) b (c d) S 1 2 3 4 5 6 7 8 9 10 11 12 13 14 15 16 17 18 99 20";
    assert_eq!(start_ticks_of(stat), Some(99));
}

#[test]
fn short_or_wrong_stat_has_no_start() {
    assert_eq!(start_ticks_of(""), None);
    assert_eq!(start_ticks_of("77 (x) S 1 2 3"), None);
    let stat = "77 (x) S 1 2 3 4 5 6 7 8 9 10 11 12 13 14 15 16 17 18 -5 20";
    assert_eq!(start_ticks_of(stat), None);
}

#[test]
fn boot_time_is_on_the_btime_line() {
    let stat = "cpu 1 2 3\nctxt 9\nbtime 1750000000 \nprocesses 4\nbtime 5\n";
    assert_eq!(system_boot_time(stat), Some(at(1_750_000_000)));
    assert_eq!(system_boot_time("cpu 1\n"), None);
    assert_eq!(system_boot_time("btime x\nbtime 5\n"), None);
    assert_eq!(system_boot_time("btime 18446744073709551615\n"), None);
    assert_eq!(system_boot_time(" btime 5\n"), None);
}

#[test]
fn clock_ticks_fall_back_to_a_hundred() {
    assert_eq!(ticks_per_second(250), 250);
    assert_eq!(ticks_per_second(0), 100);
    assert_eq!(ticks_per_second(-1), 100);
}

#[test]
fn processes_start_after_boot() {
    assert_eq!(
        process_start(at(1000), 12345, 100),
        Some(Timestamp { secs: 1123, nanos: 450_000_000 })
    );
    assert_eq!(
        process_start(at(0), 1, 3),
        Some(Timestamp { secs: 0, nanos: 333_000_000 })
    );
    assert_eq!(process_start(at(i64::MAX), 100, 100), None);
}

#[test]
fn dates_of_struct_tm() {
    assert_eq!(local_date(126, 5, 13), LocalDate { year: 2026, month: 6, day: 13 });
}

#[test]
fn three_days_are_looked_at() {
    assert_eq!(probe_unix(1_000_000, 0), 1_000_000);
    assert_eq!(probe_unix(1_000_000, 1), 913_600);
    assert_eq!(probe_unix(1_000_000, 2), 1_086_400);
    assert_eq!(probe_unix(i64::MAX, 2), i64::MAX);
    assert_eq!(probe_unix(i64::MIN, 1), i64::MIN);
}

#[test]
fn directories_of_days() {
    assert_eq!(day_dir_of(LocalDate { year: 2026, month: 6, day: 3 }), "2026/06/03");
    assert_eq!(day_dir_of(LocalDate { year: 12026, month: 12, day: 31 }), "12026/12/31");
    assert_eq!(day_dir_of(LocalDate { year: -5, month: 1, day: 1 }), "-005/01/01");
    assert_eq!(day_dir_of(LocalDate { year: 7, month: 100, day: 0 }), "0007/100/00");
}

#[test]
fn the_earliest_session_after_the_start() {
    let times = [at(50), at(10), at(30), at(20), at(30)];
    assert_eq!(find_codex_session(&times, at(15)), Some(3));
    assert_eq!(find_codex_session(&times, at(20)), Some(3));
    assert_eq!(find_codex_session(&times, at(21)), Some(2));
    assert_eq!(find_codex_session(&times, Timestamp { secs: 30, nanos: 1 }), Some(0));
}

#[test]
fn the_latest_session_where_none_is_after_the_start() {
    let times = [at(50), at(10), at(50), at(20)];
    assert_eq!(find_codex_session(&times, at(51)), Some(2));
    assert_eq!(find_codex_session(&[], at(51)), None);
}

#[test]
fn a_start_before_the_epoch_has_no_session() {
    let times = [at(50), at(10)];
    assert_eq!(find_codex_session(&times, at(-1)), None);
    assert_eq!(find_codex_session(&times, Timestamp { secs: -1, nanos: 999_999_999 }), None);
    assert_eq!(find_codex_session(&times, at(0)), Some(1));
}

#[test]
fn sorting_picks_the_same_session() {
    let mut seed: u64 = 7;
    for round in 0..200u64 {
        let mut times: Vec<Timestamp> = Vec::new();
        for _ in 0..(round % 9 + 1) {
            seed = seed.wrapping_mul(6364136223846793005).wrapping_add(1442695040888963407);
            times.push(at(((seed >> 33) % 6) as i64));
        }
        let start = at((round % 7) as i64);
        let mut order: Vec<usize> = (0..times.len()).collect();
        order.sort_by_key(|i| times[*i].secs);
        let expected = match order.iter().find(|i| times[**i].secs >= start.secs) {
            Some(i) => *i,
            None => order[order.len() - 1],
        };
        assert_eq!(find_codex_session(&times, start), Some(expected));
    }
}
