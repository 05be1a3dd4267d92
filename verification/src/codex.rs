//! The files of Codex: which process runs it, when that process started, and which
//! session file belongs to it.

use vstd::prelude::*;

use crate::bytes::has_bytes;
use crate::clock::Timestamp;
use crate::datetime::{read_fields_of, Civil, Fields};
use crate::names::stem;
use crate::number::{padded_of, parse_u64};
use crate::text::{chars_of, find_last, lines_of, strip, trimmed, words_of};

verus! {

/// Under the home directory: one directory of session files per day, `YYYY/MM/DD`.
pub const CODEX_SESSIONS: &'static str = ".codex/sessions";

// ---------------------------------------------------------------------------
// When a process started
// ---------------------------------------------------------------------------

/// The start time in `/proc/<pid>/stat`, in clock ticks since boot: the twentieth
/// word behind the last closing parenthesis. That is field 22; the name of the
/// program, which may hold blanks, ends with that parenthesis.
pub open spec fn start_ticks(stat: Seq<char>) -> Option<int> {
    let fields = crate::text::words(crate::text::after_last(stat, ')'));
    if fields.len() <= 19 {
        None
    } else {
        crate::number::parse_int(fields[19], 0, u64::MAX as int)
    }
}

/// The start time in the text of `/proc/<pid>/stat`, in clock ticks since boot.
pub fn start_ticks_of(stat: &str) -> (r: Option<u64>)
    ensures
        match r {
            Some(v) => start_ticks(stat@) == Some(v as int),
            None => start_ticks(stat@) is None,
        },
{
    let chars: Vec<char> = chars_of(stat);
    let s: &[char] = chars.as_slice();
    proof {
        crate::text::lemma_last_index(stat@, ')');
    }
    let from: usize = match find_last(s, ')') {
        Some(i) => i + 1,
        None => 0,
    };
    let after: &[char] = &s[from..s.len()];
    assert(after@ == crate::text::after_last(stat@, ')'));
    let fields: Vec<&[char]> = words_of(after);
    let ghost all = crate::text::words(after@);
    assert(crate::text::slices(fields@) == all);
    if fields.len() <= 19 {
        None
    } else {
        assert(all[19] == fields@[19]@);
        parse_u64(fields[19])
    }
}

/// The line of `/proc/stat` begins with the mark of the boot time.
pub open spec fn is_boot_line(line: Seq<char>) -> bool {
    crate::text::after_prefix(line, "btime "@) is Some
}

/// The boot time that such a line gives.
pub open spec fn boot_line_time(line: Seq<char>) -> Option<Timestamp> {
    match crate::number::parse_int(
        crate::text::trim(crate::text::after_prefix(line, "btime "@)->0),
        0,
        u64::MAX as int,
    ) {
        Some(secs) => Timestamp::epoch().plus(secs, 0),
        None => None,
    }
}

/// The boot time that the first line with the mark gives.
pub open spec fn boot_time_in(lines: Seq<Seq<char>>) -> Option<Timestamp>
    decreases lines.len(),
{
    if lines.len() == 0 {
        None
    } else if is_boot_line(lines[0]) {
        boot_line_time(lines[0])
    } else {
        boot_time_in(lines.skip(1))
    }
}

/// The boot time in the text of `/proc/stat`.
pub open spec fn boot_time(stat: Seq<char>) -> Option<Timestamp> {
    boot_time_in(crate::text::lines(stat))
}

/// Read the system boot time from the text of `/proc/stat` (the `btime` line).
pub fn system_boot_time(stat: &str) -> (r: Option<Timestamp>)
    ensures
        r == boot_time(stat@),
        r matches Some(t) ==> t.wf(),
{
    let chars: Vec<char> = chars_of(stat);
    let lines: Vec<&[char]> = lines_of(chars.as_slice());
    let ghost all = crate::text::lines(stat@);
    assert(crate::text::slices(lines@) == all);
    let mut i: usize = 0;
    assert(all.skip(0) == all);
    while i < lines.len()
        invariant
            i <= lines@.len(),
            all == crate::text::lines(stat@),
            crate::text::slices(lines@) == all,
            boot_time_in(all) == boot_time_in(all.skip(i as int)),
        decreases lines@.len() - i,
    {
        assert(all[i as int] == lines@[i as int]@);
        assert(all.skip(i as int)[0] == all[i as int]);
        assert(all.skip(i as int).skip(1) == all.skip(i + 1));
        match strip(lines[i], "btime ") {
            Some(rest) => {
                return match parse_u64(trimmed(rest)) {
                    Some(secs) => Timestamp::from_unix(secs),
                    None => None,
                };
            },
            None => {},
        }
        i = i + 1;
    }
    None
}

/// The number of clock ticks per second, from what `sysconf(_SC_CLK_TCK)` returned;
/// 100 where that is no count.
pub fn ticks_per_second(raw: i64) -> (r: u64)
    ensures
        r > 0,
        raw > 0 ==> r == raw,
        raw <= 0 ==> r == 100,
{
    if raw > 0 {
        raw as u64
    } else {
        100
    }
}

/// The milliseconds in a number of ticks below `hz`.
pub open spec fn tick_millis(ticks: int, hz: int) -> int {
    ticks * 1000 / hz
}

/// The moment `ticks` clock ticks after `boot`, to the millisecond.
pub open spec fn moment_after_boot(boot: Timestamp, ticks: int, hz: int) -> Option<Timestamp> {
    match boot.plus(ticks / hz, 0) {
        Some(t) => t.plus(0, tick_millis(ticks % hz, hz) * 1_000_000),
        None => None,
    }
}

proof fn lemma_tick_millis(ticks: int, hz: int)
    requires
        0 <= ticks < hz,
    ensures
        0 <= tick_millis(ticks, hz) < 1000,
{
    assert(0 <= ticks * 1000 / hz) by (nonlinear_arith)
        requires
            0 <= ticks,
            0 < hz,
    ;
    assert(ticks * 1000 / hz < 1000) by (nonlinear_arith)
        requires
            0 <= ticks < hz,
    ;
}

/// The wall-clock time of a moment `ticks` clock ticks after `boot`; `None` where
/// 64-bit seconds do not reach it.
pub fn process_start(boot: Timestamp, ticks: u64, hz: u64) -> (r: Option<Timestamp>)
    requires
        boot.wf(),
        0 < hz,
        (ticks % hz) * 1000 <= u64::MAX,
    ensures
        r == moment_after_boot(boot, ticks as int, hz as int),
        r matches Some(t) ==> {
            &&& t.wf()
            &&& t.at_or_after(boot)
            &&& t.since_epoch() == boot.since_epoch() + (ticks / hz) * 1_000_000_000 + tick_millis(
                (ticks % hz) as int,
                hz as int,
            ) * 1_000_000
        },
{
    let secs: u64 = ticks / hz;
    let millis: u64 = (ticks % hz) * 1000 / hz;
    proof {
        lemma_tick_millis((ticks % hz) as int, hz as int);
    }
    match boot.checked_add(secs, 0) {
        Some(t) => t.checked_add(0, (millis as u32) * 1_000_000),
        None => None,
    }
}

// ---------------------------------------------------------------------------
// The days to look at
// ---------------------------------------------------------------------------

/// A date in local time.
#[derive(Debug, Clone, Copy, PartialEq, Eq, Structural)]
pub struct LocalDate {
    pub year: i32,
    pub month: u32,
    pub day: u32,
}

/// The date in the fields of a C `struct tm`, which counts years from 1900 and months
/// from zero.
pub fn local_date(tm_year: i32, tm_mon: i32, tm_mday: i32) -> (r: LocalDate)
    requires
        tm_year <= i32::MAX - 1900,
        -1 <= tm_mon < i32::MAX,
        0 <= tm_mday,
    ensures
        r.year == tm_year + 1900,
        r.month == tm_mon + 1,
        r.day == tm_mday,
{
    LocalDate { year: tm_year + 1900, month: (tm_mon + 1) as u32, day: tm_mday as u32 }
}

/// A moment of each day whose sessions are looked at: the day of the start itself,
/// the day before it, and the day after it. Seconds that run over stay at their limit.
pub open spec fn probe_time(unix: int, day: int) -> int {
    let t = if day == 0 {
        unix
    } else if day == 1 {
        unix - 86_400
    } else {
        unix + 86_400
    };
    if t > i64::MAX {
        i64::MAX as int
    } else if t < i64::MIN {
        i64::MIN as int
    } else {
        t
    }
}

/// How many days are looked at.
pub const CODEX_DAYS: usize = 3;

/// A moment of the day to look at in place `day`.
pub fn probe_unix(unix: i64, day: usize) -> (r: i64)
    ensures
        r == probe_time(unix as int, day as int),
{
    if day == 0 {
        unix
    } else if day == 1 {
        if unix < i64::MIN + 86_400 {
            i64::MIN
        } else {
            unix - 86_400
        }
    } else if unix > i64::MAX - 86_400 {
        i64::MAX
    } else {
        unix + 86_400
    }
}

/// The directory of a day, `YYYY/MM/DD`.
pub open spec fn day_dir(date: LocalDate) -> Seq<char> {
    crate::number::padded(date.year as int, 4) + seq!['/'] + crate::number::padded(
        date.month as int,
        2,
    ) + seq!['/'] + crate::number::padded(date.day as int, 2)
}

/// The directory of a day under [`CODEX_SESSIONS`].
pub fn day_dir_of(date: LocalDate) -> (r: String)
    ensures
        r@ == day_dir(date),
{
    let month: String = padded_of(date.month as i64, 2);
    let day: String = padded_of(date.day as i64, 2);
    let mut out: String = padded_of(date.year as i64, 4);
    out.push('/');
    out.append(month.as_str());
    out.push('/');
    out.append(day.as_str());
    assert(out@ == day_dir(date));
    out
}

// ---------------------------------------------------------------------------
// Session files
// ---------------------------------------------------------------------------

/// What the name of a file in the directory of a day says.
#[derive(Debug, Clone, Copy, PartialEq, Eq, Structural)]
pub enum Rollout {
    /// The file is not a session file.
    Other,
    /// The date in the name cannot be read: a part begins or ends inside a character.
    Broken,
    /// The session began at this local date and time.
    At(Civil),
}

/// What a file name says: `rollout-YYYY-MM-DDTHH-MM-SS-<uuid>.jsonl` is a session file.
pub open spec fn rollout(name: Seq<char>) -> Rollout {
    match crate::names::stem_of(name, "jsonl"@) {
        None => Rollout::Other,
        Some(stem) => match crate::text::after_prefix(stem, "rollout-"@) {
            None => Rollout::Other,
            Some(rest) => if crate::bytes::byte_len(rest) < 19 {
                Rollout::Other
            } else {
                match crate::datetime::read_fields(rest, true) {
                    Fields::Broken => Rollout::Broken,
                    Fields::Invalid => Rollout::Other,
                    Fields::Read(c) => Rollout::At(c),
                }
            },
        },
    }
}

/// Parse `YYYY-MM-DDTHH-MM-SS` out of the name of a Codex session file.
pub fn codex_filename_fields(name: &str) -> (r: Rollout)
    ensures
        r == rollout(name@),
        r matches Rollout::At(c) ==> crate::datetime::parts_within(c, -9999),
{
    let chars: Vec<char> = chars_of(name);
    match stem(chars.as_slice(), "jsonl") {
        None => Rollout::Other,
        Some(s) => match strip(s, "rollout-") {
            None => Rollout::Other,
            Some(rest) => if !has_bytes(rest, 19) {
                Rollout::Other
            } else {
                match read_fields_of(rest, true) {
                    Fields::Broken => Rollout::Broken,
                    Fields::Invalid => Rollout::Other,
                    Fields::Read(c) => Rollout::At(c),
                }
            },
        },
    }
}

/// The date and time fields of a C `struct tm`, which counts years from 1900 and
/// months from zero.
#[derive(Debug, Clone, Copy, PartialEq, Eq, Structural)]
pub struct TmFields {
    pub tm_year: i32,
    pub tm_mon: i32,
    pub tm_mday: i32,
    pub tm_hour: i32,
    pub tm_min: i32,
    pub tm_sec: i32,
}

/// `c` as the fields of a C `struct tm`.
pub open spec fn tm(c: Civil) -> TmFields {
    TmFields {
        tm_year: (c.year - 1900) as i32,
        tm_mon: (c.month - 1) as i32,
        tm_mday: c.day,
        tm_hour: c.hour,
        tm_min: c.min,
        tm_sec: c.sec,
    }
}

/// `c` as the fields of a C `struct tm`.
pub fn tm_of(c: Civil) -> (r: TmFields)
    requires
        i32::MIN + 1900 <= c.year,
        i32::MIN < c.month,
    ensures
        r == tm(c),
        r.tm_year == c.year - 1900,
        r.tm_mon == c.month - 1,
{
    TmFields {
        tm_year: c.year - 1900,
        tm_mon: c.month - 1,
        tm_mday: c.day,
        tm_hour: c.hour,
        tm_min: c.min,
        tm_sec: c.sec,
    }
}

/// The moment that `mktime` found; `None` for its error value and before the epoch.
pub open spec fn mktime_moment(unix: int) -> Option<Timestamp> {
    if unix < 0 {
        None
    } else {
        Some(Timestamp { secs: unix as i64, nanos: 0 })
    }
}

/// The moment that `mktime` found, given the seconds it returned.
pub fn mktime_moment_of(unix: i64) -> (r: Option<Timestamp>)
    ensures
        r == mktime_moment(unix as int),
{
    if unix < 0 {
        None
    } else {
        Timestamp::from_unix(unix as u64)
    }
}

// ---------------------------------------------------------------------------
// The session of a process
// ---------------------------------------------------------------------------

/// Some session began at `start` or after it.
pub open spec fn any_after(times: Seq<Timestamp>, start: Timestamp) -> bool {
    exists|k: int| 0 <= k < times.len() && (#[trigger] times[k]).at_or_after(start)
}

/// Session `i` is the one of a process that began at `start`: the earliest of those
/// that began at `start` or after it, the first listed where several began together;
/// and where none did, the latest of all, the last listed where several began together.
pub open spec fn is_session_of(times: Seq<Timestamp>, start: Timestamp, i: int) -> bool {
    &&& 0 <= i < times.len()
    &&& if any_after(times, start) {
        &&& times[i].at_or_after(start)
        &&& forall|k: int|
            0 <= k < times.len() && (#[trigger] times[k]).at_or_after(start)
                ==> times[k].at_or_after(times[i]) && (times[k] == times[i] ==> i <= k)
    } else {
        forall|k: int|
            0 <= k < times.len() ==> times[i].at_or_after(#[trigger] times[k]) && (times[k]
                == times[i] ==> k <= i)
    }
}

/// Which session is the one of a process that began at `start`. A process that began
/// before the epoch has none.
pub open spec fn session_of(times: Seq<Timestamp>, start: Timestamp) -> Option<int> {
    if times.len() == 0 || start.secs < 0 {
        None
    } else {
        Some(choose|i: int| is_session_of(times, start, i))
    }
}

proof fn lemma_session_unique(times: Seq<Timestamp>, start: Timestamp, i: int, j: int)
    requires
        is_session_of(times, start, i),
        is_session_of(times, start, j),
    ensures
        i == j,
{
    assert(times[i].at_or_after(times[j]));
    assert(times[j].at_or_after(times[i]));
    assert(times[i] == times[j]);
}

/// Find the session of a process that began at `start` among sessions that began at
/// `times`. A process that began before the epoch has none.
pub fn find_codex_session(times: &[Timestamp], start: Timestamp) -> (r: Option<usize>)
    ensures
        crate::text::position(r) == session_of(times@, start),
        r is Some <==> times@.len() > 0 && 0 <= start.secs,
        r matches Some(i) ==> {
            &&& i < times@.len()
            &&& (exists|k: int|
                0 <= k < times@.len() && (#[trigger] times@[k]).at_or_after(start)) ==> {
                &&& times@[i as int].at_or_after(start)
                &&& forall|k: int|
                    0 <= k < times@.len() && (#[trigger] times@[k]).at_or_after(start)
                        ==> times@[k].at_or_after(times@[i as int])
            }
        },
        r matches Some(i) ==> is_session_of(times@, start, i as int),
{
    if times.len() == 0 || start.secs < 0 {
        return None;
    }
    let mut earliest: Option<usize> = None;
    let mut latest: usize = 0;
    let mut i: usize = 0;
    while i < times.len()
        invariant
            0 < times@.len(),
            i <= times@.len(),
            latest < times@.len(),
            latest == 0 || latest < i,
            forall|k: int|
                0 <= k < i ==> times@[latest as int].at_or_after(#[trigger] times@[k]) && (times@[k]
                    == times@[latest as int] ==> k <= latest),
            match earliest {
                None => forall|k: int| 0 <= k < i ==> !(#[trigger] times@[k]).at_or_after(start),
                Some(e) => {
                    &&& e < i
                    &&& times@[e as int].at_or_after(start)
                    &&& forall|k: int|
                        0 <= k < i && (#[trigger] times@[k]).at_or_after(start)
                            ==> times@[k].at_or_after(times@[e as int]) && (times@[k]
                            == times@[e as int] ==> e <= k)
                },
            },
        decreases times@.len() - i,
    {
        let t: Timestamp = times[i];
        if t.is_at_or_after(start) {
            earliest = match earliest {
                None => Some(i),
                Some(e) => if times[e].is_at_or_after(t) && !t.is_at_or_after(times[e]) {
                    Some(i)
                } else {
                    Some(e)
                },
            };
        }
        if t.is_at_or_after(times[latest]) {
            latest = i;
        }
        i = i + 1;
    }
    let found: usize = match earliest {
        Some(e) => e,
        None => latest,
    };
    proof {
        if let Some(e) = earliest {
            assert(any_after(times@, start));
        } else {
            assert(!any_after(times@, start));
        }
        assert(is_session_of(times@, start, found as int));
        let c = choose|i: int| is_session_of(times@, start, i);
        lemma_session_unique(times@, start, found as int, c);
    }
    Some(found)
}

// ---------------------------------------------------------------------------
// Laws
// ---------------------------------------------------------------------------

/// The first line with the mark gives the boot time, whatever the other lines hold.
pub proof fn law_first_boot_line_counts(lines: Seq<Seq<char>>, i: int)
    requires
        0 <= i < lines.len(),
        is_boot_line(lines[i]),
        forall|j: int| 0 <= j < i ==> !is_boot_line(#[trigger] lines[j]),
    ensures
        boot_time_in(lines) == boot_line_time(lines[i]),
    decreases i,
{
    if i > 0 {
        assert(!is_boot_line(lines[0]));
        let rest = lines.skip(1);
        assert(rest[i - 1] == lines[i]);
        assert forall|j: int| 0 <= j < i - 1 implies !is_boot_line(#[trigger] rest[j]) by {
            assert(rest[j] == lines[j + 1]);
        }
        law_first_boot_line_counts(rest, i - 1);
    }
}

/// The name of a program cannot mislead the reader of its start time: whatever it
/// holds, blanks and parentheses too, only what follows its closing one counts.
pub proof fn law_program_name_is_skipped(head: Seq<char>, name: Seq<char>, tail: Seq<char>)
    requires
        !tail.contains(')'),
    ensures
        start_ticks(head + seq!['('] + name + seq![')'] + tail) == start_ticks(tail),
{
    let stat = head + seq!['('] + name + seq![')'] + tail;
    let i = (head.len() + 1 + name.len()) as int;
    assert(stat.skip(i + 1) == tail);
    crate::text::lemma_last_index_unique(stat, ')', i);
    crate::text::lemma_last_index(tail, ')');
}

/// A name in the documented form reads back as the date and time it was made of.
pub proof fn law_documented_name_is_read(c: Civil, rest: Seq<char>)
    requires
        crate::datetime::is_writable(c),
    ensures
        rollout("rollout-"@ + crate::datetime::written(c, '-') + rest + ".jsonl"@) == Rollout::At(
            c,
        ),
{
    reveal_strlit("jsonl");
    reveal_strlit(".jsonl");
    reveal_strlit("rollout-");
    let w = crate::datetime::written(c, '-');
    let stem = "rollout-"@ + w + rest;
    let name = "rollout-"@ + w + rest + ".jsonl"@;
    assert(name == stem + seq!['.'] + "jsonl"@);
    crate::names::law_stem_and_extension(stem, "jsonl"@, name);
    assert(stem.subrange(0, 8) == "rollout-"@);
    assert(stem.skip(8) == w + rest);
    crate::datetime::law_written_reads_back(c, '-', rest, true);
}

/// With the sessions put in the order in which they began, those that began together
/// in the order in which they are listed, the session of a process is the first one
/// that began at its start or after it, and the last one of all where none did. That is
/// the session that is found for a process that began at the epoch or after it.
pub proof fn law_session_is_first_in_order(
    times: Seq<Timestamp>,
    start: Timestamp,
    order: Seq<int>,
    p: int,
)
    requires
        forall|q: int| 0 <= q < order.len() ==> 0 <= #[trigger] order[q] < times.len(),
        forall|i: int| 0 <= i < times.len() ==> #[trigger] order.contains(i),
        forall|q: int, r: int|
            0 <= q < r < order.len() ==> times[#[trigger] order[r]].at_or_after(
                times[#[trigger] order[q]],
            ) && (times[order[q]] == times[order[r]] ==> order[q] < order[r]),
        0 <= p < order.len(),
        if any_after(times, start) {
            &&& times[order[p]].at_or_after(start)
            &&& forall|q: int| 0 <= q < p ==> !times[#[trigger] order[q]].at_or_after(start)
        } else {
            p == order.len() - 1
        },
    ensures
        is_session_of(times, start, order[p]),
        0 <= start.secs ==> session_of(times, start) == Some(order[p]),
{
    let i = order[p];
    assert forall|k: int| 0 <= k < times.len() implies (if any_after(times, start) {
        (#[trigger] times[k]).at_or_after(start) ==> times[k].at_or_after(times[i]) && (times[k]
            == times[i] ==> i <= k)
    } else {
        times[i].at_or_after(times[k]) && (times[k] == times[i] ==> k <= i)
    }) by {
        assert(order.contains(k));
        let q = choose|q: int| 0 <= q < order.len() && order[q] == k;
        assert(order[q] == k);
    }
    assert(is_session_of(times, start, i));
    lemma_session_unique(times, start, i, choose|j: int| is_session_of(times, start, j));
}

/// If any session began at the start of a process or after it, by however much, the one
/// that is found began at the start or after it, none that did so is earlier, and of those
/// that began together it is the first listed. If none did, no session at all is later
/// than the one that is found, and of those that began together it is the last listed.
/// There is one exactly if there are sessions and the process did not begin before 1970.
pub proof fn law_session_began_next(times: Seq<Timestamp>, start: Timestamp)
    ensures
        session_of(times, start) is Some <==> times.len() > 0 && 0 <= start.secs,
        session_of(times, start) matches Some(i) ==> {
            &&& 0 <= i < times.len()
            &&& (exists|k: int| 0 <= k < times.len() && (#[trigger] times[k]).at_or_after(start))
                ==> {
                &&& times[i].at_or_after(start)
                &&& forall|k: int|
                    0 <= k < times.len() && (#[trigger] times[k]).at_or_after(start)
                        ==> times[k].at_or_after(times[i]) && (times[i].at_or_after(times[k]) ==> i
                        <= k)
            }
            &&& !(exists|k: int| 0 <= k < times.len() && (#[trigger] times[k]).at_or_after(start))
                ==> forall|k: int|
                0 <= k < times.len() ==> times[i].at_or_after(#[trigger] times[k]) && (
                times[k].at_or_after(times[i]) ==> k <= i)
        },
{
    if times.len() > 0 && 0 <= start.secs {
        lemma_some_session(times, start);
        let i = choose|i: int| is_session_of(times, start, i);
        assert forall|k: int|
            0 <= k < times.len() && (#[trigger] times[k]).at_or_after(times[i])
                && times[i].at_or_after(times[k]) implies times[k] == times[i] by {}
    }
}

proof fn lemma_some_session(times: Seq<Timestamp>, start: Timestamp)
    requires
        times.len() > 0,
    ensures
        exists|i: int| is_session_of(times, start, i),
    decreases times.len(),
{
    let n = times.len() - 1;
    let init = times.drop_last();
    if n == 0 {
        assert(is_session_of(times, start, 0)) by {
            assert(any_after(times, start) ==> times[0].at_or_after(start));
        }
    } else {
        lemma_some_session(init, start);
        let i = choose|i: int| is_session_of(init, start, i);
        assert forall|k: int| 0 <= k < n implies #[trigger] times[k] == init[k] by {}
        if any_after(init, start) {
            let k = choose|k: int| 0 <= k < init.len() && (#[trigger] init[k]).at_or_after(start);
            assert(times[k].at_or_after(start));
            if times[n].at_or_after(start) && !times[n].at_or_after(times[i]) {
                assert(is_session_of(times, start, n));
            } else {
                assert(is_session_of(times, start, i));
            }
        } else if times[n].at_or_after(start) {
            assert(any_after(times, start));
            assert forall|k: int| 0 <= k < n implies !(#[trigger] times[k]).at_or_after(start) by {
                assert(!init[k].at_or_after(start));
            }
            assert(is_session_of(times, start, n));
        } else {
            assert(!any_after(times, start)) by {
                assert forall|k: int| 0 <= k < times.len() implies !(
                #[trigger] times[k]).at_or_after(start) by {
                    if k < n {
                        assert(!init[k].at_or_after(start));
                    }
                }
            }
            if times[n].at_or_after(times[i]) {
                assert(is_session_of(times, start, n));
            } else {
                assert(is_session_of(times, start, i));
            }
        }
    }
}

/// A session that began before the process, or after the one that is its own, takes
/// nothing from it: where the own one began at the start or after it, it stays the one.
pub proof fn law_other_sessions_take_nothing(
    times: Seq<Timestamp>,
    start: Timestamp,
    i: int,
    other: Timestamp,
)
    requires
        session_of(times, start) == Some(i),
        times[i].at_or_after(start),
        !other.at_or_after(start) || other.at_or_after(times[i]),
    ensures
        session_of(times.push(other), start) == Some(i),
{
    lemma_some_session(times, start);
    let more = times.push(other);
    assert(any_after(times, start));
    assert(more[i].at_or_after(start));
    assert forall|k: int| 0 <= k < more.len() && (#[trigger] more[k]).at_or_after(
        start,
    ) implies more[k].at_or_after(more[i]) && (more[k] == more[i] ==> i <= k) by {
        if k < times.len() {
            assert(more[k] == times[k]);
        }
    }
    assert(is_session_of(more, start, i));
    lemma_session_unique(more, start, i, choose|j: int| is_session_of(more, start, j));
}

/// The start time of a process is the twentieth word behind the last closing parenthesis,
/// read as an unsigned 64-bit number; without twenty words there is none.
pub proof fn law_start_is_the_twentieth_word(head: Seq<char>, tail: Seq<char>)
    requires
        !tail.contains(')'),
    ensures
        crate::text::words(tail).len() >= 20 ==> start_ticks(head + seq![')'] + tail)
            == crate::number::parse_int(crate::text::words(tail)[19], 0, u64::MAX as int),
        crate::text::words(tail).len() < 20 ==> start_ticks(head + seq![')'] + tail) is None,
        start_ticks(head + seq![')'] + tail) == start_ticks(tail),
{
    crate::text::law_last_char_parts_text(head, ')', tail);
}

/// The boot time is the number of seconds on the first line that begins with `btime `,
/// blanks around it aside, and no other line tells it.
pub proof fn law_boot_time_is_on_its_line(stat: Seq<char>, i: int, rest: Seq<char>)
    requires
        0 <= i < crate::text::lines(stat).len(),
        crate::text::lines(stat)[i] == "btime "@ + rest,
        forall|j: int|
            0 <= j < i ==> crate::text::after_prefix(
                #[trigger] crate::text::lines(stat)[j],
                "btime "@,
            ) is None,
    ensures
        boot_time(stat) == (match crate::number::parse_int(
            crate::text::trim(rest),
            0,
            u64::MAX as int,
        ) {
            Some(v) => if v <= i64::MAX {
                Some(Timestamp { secs: v as i64, nanos: 0 })
            } else {
                None
            },
            None => None,
        }),
{
    let lines = crate::text::lines(stat);
    crate::text::law_prefix_comes_off(lines[i], "btime "@, rest);
    assert forall|j: int| 0 <= j < i implies !is_boot_line(#[trigger] lines[j]) by {}
    law_first_boot_line_counts(lines, i);
    let read = crate::number::parse_int(crate::text::trim(rest), 0, u64::MAX as int);
    if let Some(v) = read {
        assert(v * 1_000_000_000 / 1_000_000_000 == v);
        assert((v * 1_000_000_000) % 1_000_000_000 == 0);
    }
}

/// Without a line that begins with `btime ` there is no boot time.
pub proof fn law_no_boot_line_no_boot_time(lines: Seq<Seq<char>>)
    requires
        forall|j: int|
            0 <= j < lines.len() ==> crate::text::after_prefix(
                #[trigger] lines[j],
                "btime "@,
            ) is None,
    ensures
        boot_time_in(lines) is None,
        forall|stat: Seq<char>| #[trigger]
            boot_time(stat) == boot_time_in(crate::text::lines(stat)),
    decreases lines.len(),
{
    if lines.len() > 0 {
        assert(crate::text::after_prefix(lines[0], "btime "@) is None);
        assert forall|j: int| 0 <= j < lines.skip(1).len() implies crate::text::after_prefix(
            #[trigger] lines.skip(1)[j],
            "btime "@,
        ) is None by {
            assert(lines.skip(1)[j] == lines[j + 1]);
        }
        law_no_boot_line_no_boot_time(lines.skip(1));
    }
}

/// A process started as long after boot as its ticks take: whole seconds, and of the
/// ticks left over the whole milliseconds. Wherever 64-bit seconds reach that moment, it
/// is told.
pub proof fn law_start_is_boot_and_ticks(boot: Timestamp, ticks: int, hz: int)
    requires
        boot.nanos < 1_000_000_000,
        0 <= ticks,
        0 < hz,
    ensures
        moment_after_boot(boot, ticks, hz) matches Some(t) ==> t.nanos < 1_000_000_000 && t.secs
            * 1_000_000_000 + t.nanos == boot.secs * 1_000_000_000 + boot.nanos + (ticks / hz)
            * 1_000_000_000 + ((ticks % hz) * 1000 / hz) * 1_000_000,
        moment_after_boot(boot, ticks, hz) is Some <==> boot.secs * 1_000_000_000 + boot.nanos + (
        ticks / hz) * 1_000_000_000 + ((ticks % hz) * 1000 / hz) * 1_000_000 < (i64::MAX + 1)
            * 1_000_000_000,
{
    assert(0 <= ticks % hz < hz) by (nonlinear_arith)
        requires
            0 < hz,
    ;
    assert(0 <= ticks / hz) by (nonlinear_arith)
        requires
            0 <= ticks,
            0 < hz,
    ;
    lemma_tick_millis(ticks % hz, hz);
    let millis = tick_millis(ticks % hz, hz);
    crate::clock::law_adding_moves_a_moment(boot, ticks / hz, 0);
    if let Some(t) = boot.plus(ticks / hz, 0) {
        crate::clock::law_adding_moves_a_moment(t, 0, millis * 1_000_000);
    }
}

/// The days looked at are the one of the start, then the one before it, then the one
/// after it, a day being 86400 seconds.
pub proof fn law_days_looked_at(unix: int)
    requires
        i64::MIN <= unix <= i64::MAX,
    ensures
        probe_time(unix, 0) == unix,
        unix - 86_400 >= i64::MIN ==> probe_time(unix, 1) == unix - 86_400,
        unix - 86_400 < i64::MIN ==> probe_time(unix, 1) == i64::MIN,
        unix + 86_400 <= i64::MAX ==> probe_time(unix, 2) == unix + 86_400,
        unix + 86_400 > i64::MAX ==> probe_time(unix, 2) == i64::MAX,
        CODEX_DAYS == 3,
{
}

/// The directory of a day is the year in four digits or more, the month in two or more
/// and the day in two or more, with a slash between them.
pub proof fn law_day_has_its_directory(date: LocalDate)
    ensures
        day_dir(date) == crate::number::padded(date.year as int, 4) + seq!['/']
            + crate::number::padded(date.month as int, 2) + seq!['/'] + crate::number::padded(
            date.day as int,
            2,
        ),
        0 <= date.year < 10000 && date.month < 100 && date.day < 100 ==> {
            &&& day_dir(date).len() == 10
            &&& day_dir(date)[4] == '/'
            &&& day_dir(date)[7] == '/'
            &&& crate::number::parse_int(day_dir(date).subrange(0, 4), 0, 9999) == Some(
                date.year as int,
            )
            &&& crate::number::parse_int(day_dir(date).subrange(5, 7), 0, 9999) == Some(
                date.month as int,
            )
            &&& crate::number::parse_int(day_dir(date).subrange(8, 10), 0, 9999) == Some(
                date.day as int,
            )
        },
{
    if 0 <= date.year < 10000 && date.month < 100 && date.day < 100 {
        crate::number::law_padded_reads_back(date.year as int, 4, 0, 9999);
        crate::number::law_padded_reads_back(date.month as int, 2, 0, 9999);
        crate::number::law_padded_reads_back(date.day as int, 2, 0, 9999);
        assert(day_dir(date).subrange(0, 4) == crate::number::padded(date.year as int, 4));
        assert(day_dir(date).subrange(5, 7) == crate::number::padded(date.month as int, 2));
        assert(day_dir(date).subrange(8, 10) == crate::number::padded(date.day as int, 2));
    }
}

/// A file is a session file exactly if its name is `rollout-`, a date and time that can
/// be read, whatever follows it, and `.jsonl`; it began at the date and time that is read.
pub proof fn law_session_file_is_told_by_its_name(name: Seq<char>, rest: Seq<char>)
    ensures
        name == "rollout-"@ + rest + ".jsonl"@ ==> rollout(name) == (if vstd::utf8::encode_utf8(
            rest,
        ).len() < 19 {
            Rollout::Other
        } else {
            match crate::datetime::read_fields(rest, true) {
                Fields::Broken => Rollout::Broken,
                Fields::Invalid => Rollout::Other,
                Fields::Read(c) => Rollout::At(c),
            }
        }),
        !(rollout(name) is Other) ==> name.len() >= 14 && name == "rollout-"@ + name.subrange(
            8,
            name.len() - 6,
        ) + ".jsonl"@,
{
    reveal_strlit("jsonl");
    reveal_strlit(".jsonl");
    reveal_strlit("rollout-");
    crate::bytes::law_byte_len_is_encoded_len(rest);
    if name == "rollout-"@ + rest + ".jsonl"@ {
        let stem = "rollout-"@ + rest;
        assert(name == stem + seq!['.'] + "jsonl"@);
        crate::names::law_stem_and_extension(stem, "jsonl"@, name);
        crate::text::law_prefix_comes_off(stem, "rollout-"@, rest);
    }
    if !(rollout(name) is Other) {
        crate::names::law_stem_is_not_empty(name, "jsonl"@);
        let stem = crate::names::stem_of(name, "jsonl"@)->0;
        let body = crate::text::after_prefix(stem, "rollout-"@)->0;
        crate::text::law_prefix_comes_off(stem, "rollout-"@, body);
        assert(name.subrange(8, name.len() - 6) == body);
        assert(name == "rollout-"@ + body + ".jsonl"@);
    }
}

/// The fields of a `struct tm` are those of the date and time, with years counted from
/// 1900 and months from zero. What `mktime` returns is a moment exactly if it is not
/// negative, and then that many seconds after the epoch.
pub proof fn law_local_time_goes_through_mktime(c: Civil, unix: i64)
    requires
        i32::MIN + 1900 <= c.year,
        i32::MIN < c.month,
    ensures
        tm(c).tm_year == c.year - 1900,
        tm(c).tm_mon == c.month - 1,
        tm(c).tm_mday == c.day,
        tm(c).tm_hour == c.hour,
        tm(c).tm_min == c.min,
        tm(c).tm_sec == c.sec,
        mktime_moment(unix as int) is Some <==> unix >= 0,
        mktime_moment(unix as int) matches Some(t) ==> t.secs == unix && t.nanos == 0,
{
}

/// The sessions stand under the home directory in `.codex/sessions`.
pub proof fn law_sessions_have_their_place()
    ensures
        CODEX_SESSIONS@ == ".codex/sessions"@,
{
}

} // verus!
