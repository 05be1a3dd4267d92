//! Whole searches: what a search comes to on a machine that gives the same answer to
//! the same question.
//!
//! The executable functions each take one step. Here the steps are put together, and
//! the end of every search is stated without them.

use vstd::prelude::*;

use crate::claude_session::{Candidate, ProbeView};
use crate::clock::Timestamp;
use crate::codex::{LocalDate, Rollout, TmFields, CODEX_DAYS};
use crate::session::ToolType;
use crate::transcript::{Scan, CLAUDE_TAIL, CODEX_TAIL};

verus! {

/// All the answers of a machine.
pub struct Host {
    /// The names of the session records.
    pub records: Option<Seq<Seq<char>>>,
    /// The text of a record, by process.
    pub record: spec_fn(Seq<char>) -> Option<Seq<char>>,
    /// The bytes of a transcript, by project directory and file.
    pub transcript: spec_fn(Seq<char>, Seq<char>) -> Option<Seq<u8>>,
    /// When a transcript was last written to.
    pub transcript_mtime: spec_fn(Seq<char>, Seq<char>) -> Option<Timestamp>,
    /// The terminal of a process.
    pub terminal: spec_fn(Seq<char>) -> Option<Seq<char>>,
    /// The names in `/proc`.
    pub procs: Option<Seq<Seq<char>>>,
    /// The text of `/proc/<pid>/stat`.
    pub stat: spec_fn(Seq<char>) -> Option<Seq<char>>,
    /// What `sysconf(_SC_CLK_TCK)` returns.
    pub clock_ticks: i64,
    /// The text of `/proc/stat`.
    pub kernel_stat: Option<Seq<char>>,
    /// The local date of a moment.
    pub local_date: spec_fn(int) -> Option<LocalDate>,
    /// The names in the directory of a day.
    pub day_files: spec_fn(Seq<char>) -> Option<Seq<Seq<char>>>,
    /// What `mktime` returns.
    pub mktime: spec_fn(TmFields) -> i64,
    /// The bytes of a session file, by day and place in the directory of the day.
    pub session_file: spec_fn(int, int) -> Option<Seq<u8>>,
    /// When a session file was last written to.
    pub session_mtime: spec_fn(int, int) -> Option<Timestamp>,
    /// The newest message in a working directory.
    pub newest_message: spec_fn(Seq<char>) -> Option<i64>,
}

/// The search is over.
pub open spec fn is_over(p: ProbeView) -> bool {
    p is Done || p is Abort
}

/// The search that follows on the answer of the machine.
pub open spec fn step(p: ProbeView, h: Host) -> ProbeView {
    match p {
        ProbeView::ClaudeNames { tty } => crate::claude_session::after_claude_names(
            tty,
            h.records,
        ),
        ProbeView::ClaudeOwner {
            tty,
            names,
            next,
            pid,
        } => crate::claude_session::after_claude_owner(
            tty,
            names,
            next,
            pid,
            (h.terminal)(pid),
        ),
        ProbeView::ClaudeRecord { pid } => crate::claude_session::after_claude_record(
            (h.record)(pid),
        ),
        ProbeView::ClaudeTail { project, file } => crate::claude_session::after_claude_scan(
            project,
            file,
            crate::claude_session::scan_bytes(
                crate::claude_session::file_tail(
                    (h.transcript)(project, file),
                    CLAUDE_TAIL as int,
                ),
                true,
            ),
        ),
        ProbeView::ClaudeMtime { project, file } => ProbeView::Done(
            (h.transcript_mtime)(project, file),
        ),
        ProbeView::CodexProcs { tty } => crate::claude_session::after_codex_procs(tty, h.procs),
        ProbeView::CodexOwner {
            tty,
            names,
            next,
            best,
            pid,
        } => crate::claude_session::after_codex_owner(
            tty,
            names,
            next,
            best,
            pid,
            (h.terminal)(pid),
        ),
        ProbeView::CodexStat { pid } => crate::claude_session::after_codex_stat((h.stat)(pid)),
        ProbeView::CodexClock { ticks } => crate::claude_session::after_codex_clock(
            ticks,
            h.clock_ticks,
            h.kernel_stat,
        ),
        ProbeView::CodexDay { start, day, found } => crate::claude_session::after_codex_day(
            start,
            day,
            found,
            (h.local_date)(crate::codex::probe_time(start.secs as int, day)),
        ),
        ProbeView::CodexDir { start, day, found, dir } => crate::claude_session::after_codex_dir(
            start,
            day,
            found,
            (h.day_files)(dir),
        ),
        ProbeView::CodexName {
            start,
            day,
            found,
            names,
            entry,
            fields,
        } => crate::claude_session::after_codex_name(
            start,
            day,
            found,
            names,
            entry,
            (h.mktime)(fields),
        ),
        ProbeView::CodexTail { day, entry } => crate::claude_session::after_codex_scan(
            day,
            entry,
            crate::claude_session::scan_bytes(
                crate::claude_session::file_tail((h.session_file)(day, entry), CODEX_TAIL as int),
                false,
            ),
        ),
        ProbeView::CodexMtime { day, entry } => ProbeView::Done((h.session_mtime)(day, entry)),
        ProbeView::OpenCodeQuery { cwd } => ProbeView::Done(
            crate::opencode::message_time((h.newest_message)(cwd)),
        ),
        ProbeView::Done(_) => p,
        ProbeView::Abort => p,
    }
}

// ---------------------------------------------------------------------------
// Every search ends
// ---------------------------------------------------------------------------

/// How far a search is from its end: its stage, the days left, the stage within a
/// day, and the names left.
pub open spec fn distance(p: ProbeView) -> (int, int, int, int) {
    match p {
        ProbeView::CodexProcs { .. } => (10, 0, 0, 0),
        ProbeView::CodexOwner { names, next, .. } => (9, 0, 0, left(names, next)),
        ProbeView::CodexStat { .. } => (8, 0, 0, 0),
        ProbeView::CodexClock { .. } => (7, 0, 0, 0),
        ProbeView::CodexDay { day, .. } => (6, days_left(day), 2, 0),
        ProbeView::CodexDir { day, .. } => (6, days_left(day), 1, 0),
        ProbeView::CodexName { day, names, entry, .. } => (
            6,
            days_left(day),
            0,
            left(names, entry),
        ),
        ProbeView::ClaudeNames { .. } => (5, 0, 0, 0),
        ProbeView::ClaudeOwner { names, next, .. } => (4, 0, 0, left(names, next)),
        ProbeView::ClaudeRecord { .. } => (3, 0, 0, 0),
        ProbeView::ClaudeTail { .. } => (2, 0, 0, 0),
        ProbeView::CodexTail { .. } => (2, 0, 0, 0),
        ProbeView::ClaudeMtime { .. } => (1, 0, 0, 0),
        ProbeView::CodexMtime { .. } => (1, 0, 0, 0),
        ProbeView::OpenCodeQuery { .. } => (1, 0, 0, 0),
        ProbeView::Done(_) => (0, 0, 0, 0),
        ProbeView::Abort => (0, 0, 0, 0),
    }
}

/// How many names are left from place `i` on.
pub open spec fn left(names: Seq<Seq<char>>, i: int) -> int {
    if i < names.len() {
        names.len() - i
    } else {
        0
    }
}

/// How many days are left behind `day`.
pub open spec fn days_left(day: int) -> int {
    if day + 1 < CODEX_DAYS {
        CODEX_DAYS - 1 - day
    } else {
        0
    }
}

/// The first distance is the smaller one.
pub open spec fn nearer(a: (int, int, int, int), b: (int, int, int, int)) -> bool {
    &&& 0 <= a.0
    &&& 0 <= a.1
    &&& 0 <= a.2
    &&& 0 <= a.3
    &&& a.0 < b.0 || (a.0 == b.0 && (a.1 < b.1 || (a.1 == b.1 && (a.2 < b.2 || (a.2 == b.2 && a.3
        < b.3)))))
}

proof fn lemma_claude_candidate(tty: Seq<char>, names: Seq<Seq<char>>, i: int)
    ensures
        match crate::claude_session::claude_candidate(tty, names, i) {
            ProbeView::Done(r) => r is None,
            ProbeView::ClaudeOwner { tty: t, names: ns, next, pid } => {
                &&& t == tty
                &&& ns == names
                &&& 0 <= i < next <= names.len()
                &&& crate::claude::session_pid(names[next - 1]) == Some(pid)
            },
            _ => false,
        },
    decreases names.len() - i,
{
    if 0 <= i < names.len() && crate::claude::session_pid(names[i]) is None {
        lemma_claude_candidate(tty, names, i + 1);
    }
}

proof fn lemma_codex_candidate(tty: Seq<char>, names: Seq<Seq<char>>, i: int, best: Option<u64>)
    ensures
        match crate::claude_session::codex_candidate(tty, names, i, best) {
            ProbeView::Done(r) => r is None && best is None,
            ProbeView::CodexStat { pid } => best is Some && pid == crate::number::decimal(
                best->0 as nat,
            ),
            ProbeView::CodexOwner { tty: t, names: ns, next, best: b, pid } => {
                &&& t == tty
                &&& ns == names
                &&& b == best
                &&& 0 <= i < next <= names.len()
                &&& pid == names[next - 1]
            },
            _ => false,
        },
    decreases names.len() - i,
{
    if 0 <= i < names.len() && !crate::number::all_digits(names[i]) {
        lemma_codex_candidate(tty, names, i + 1, best);
    }
}

proof fn lemma_codex_file(
    start: Timestamp,
    day: int,
    found: Seq<Candidate>,
    names: Seq<Seq<char>>,
    i: int,
)
    ensures
        ({
            let p = crate::claude_session::codex_file(start, day, found, names, i);
            ||| p == crate::claude_session::next_day(start, day, found)
            ||| p is Abort
            ||| match p {
                ProbeView::CodexName { start: s, day: d, found: f, names: ns, entry, fields } => {
                    &&& s == start
                    &&& d == day
                    &&& f == found
                    &&& ns == names
                    &&& 0 <= i <= entry < names.len()
                },
                _ => false,
            }
        }),
    decreases names.len() - i,
{
    if 0 <= i < names.len() {
        lemma_codex_file(start, day, found, names, i + 1);
    }
}

proof fn lemma_next_day(start: Timestamp, day: int, found: Seq<Candidate>)
    ensures
        nearer(
            distance(crate::claude_session::next_day(start, day, found)),
            (6, days_left(day), 0, 0),
        ),
{
}

/// Every answer brings a search nearer to its end.
pub proof fn law_every_step_advances(p: ProbeView, h: Host)
    requires
        !is_over(p),
    ensures
        nearer(distance(step(p, h)), distance(p)),
{
    match p {
        ProbeView::ClaudeNames { tty } => {
            if let Some(names) = h.records {
                lemma_claude_candidate(tty, names, 0);
            }
        },
        ProbeView::ClaudeOwner { tty, names, next, pid } => {
            lemma_claude_candidate(tty, names, next);
        },
        ProbeView::CodexProcs { tty } => {
            if let Some(names) = h.procs {
                lemma_codex_candidate(tty, names, 0, None);
            }
        },
        ProbeView::CodexOwner { tty, names, next, best, pid } => {
            let b = crate::claude_session::best_after(tty, best, pid, (h.terminal)(pid));
            lemma_codex_candidate(tty, names, next, b);
        },
        ProbeView::CodexDay { start, day, found } => {
            lemma_next_day(start, day, found);
        },
        ProbeView::CodexDir { start, day, found, dir } => {
            lemma_next_day(start, day, found);
            if let Some(names) = (h.day_files)(dir) {
                lemma_codex_file(start, day, found, names, 0);
            }
        },
        ProbeView::CodexName { start, day, found, names, entry, fields } => {
            let f = crate::claude_session::found_after(day, found, entry, (h.mktime)(fields));
            lemma_next_day(start, day, f);
            lemma_codex_file(start, day, f, names, entry + 1);
        },
        _ => {},
    }
}

/// The end of a search.
pub open spec fn outcome(p: ProbeView, h: Host) -> ProbeView
    decreases distance(p).0, distance(p).1, distance(p).2, distance(p).3,
{
    if is_over(p) {
        p
    } else {
        proof {
            law_every_step_advances(p, h);
        }
        outcome(step(p, h), h)
    }
}

// ---------------------------------------------------------------------------
// What a search finds: the assistant itself
// ---------------------------------------------------------------------------

/// The record `name` belongs to a process with terminal `tty`.
pub open spec fn owns_record(h: Host, tty: Seq<char>, name: Seq<char>) -> bool {
    match crate::claude::session_pid(name) {
        Some(pid) => (h.terminal)(pid) == Some(tty),
        None => false,
    }
}

/// Record `i` is the first that belongs to a process with terminal `tty`.
pub open spec fn is_first_owner(h: Host, tty: Seq<char>, names: Seq<Seq<char>>, i: int) -> bool {
    &&& 0 <= i < names.len()
    &&& owns_record(h, tty, names[i])
    &&& forall|j: int| 0 <= j < i ==> !#[trigger] owns_record(h, tty, names[j])
}

/// The last activity in a transcript: the newest API turn in its last 16 KB, or the time
/// of the file where there is none; nothing where the transcript cannot be read.
pub open spec fn transcript_activity(h: Host, project: Seq<char>, file: Seq<char>) -> ProbeView {
    match (h.transcript)(project, file) {
        None => ProbeView::Done(None),
        Some(bytes) => match crate::transcript::scan_text(
            crate::transcript::utf8_lossy(
                crate::transcript::tail_of(bytes, CLAUDE_TAIL as int),
            ),
            true,
        ) {
            Scan::Found(t) => ProbeView::Done(Some(t)),
            Scan::NotFound => ProbeView::Done((h.transcript_mtime)(project, file)),
            Scan::Broken => ProbeView::Abort,
        },
    }
}

/// The last activity of the session in the record of process `pid`.
pub open spec fn record_activity(h: Host, pid: Seq<char>) -> ProbeView {
    match (h.record)(pid) {
        None => ProbeView::Done(None),
        Some(text) => match (
            crate::json::json_value(text, "sessionId"@),
            crate::json::json_value(text, "cwd"@),
        ) {
            (Some(id), Some(cwd)) => transcript_activity(
                h,
                crate::claude::munge(cwd),
                id + ".jsonl"@,
            ),
            _ => ProbeView::Done(None),
        },
    }
}

/// The last activity of the assistant among the records `names`: that of the first one
/// that belongs to a process with terminal `tty`.
pub open spec fn owner_activity(h: Host, tty: Seq<char>, names: Seq<Seq<char>>) -> ProbeView {
    if exists|i: int| is_first_owner(h, tty, names, i) {
        let i = choose|i: int| is_first_owner(h, tty, names, i);
        record_activity(h, crate::claude::session_pid(names[i])->0)
    } else {
        ProbeView::Done(None)
    }
}

/// The last activity of the assistant on terminal `tty`.
pub open spec fn claude_activity(h: Host, tty: Seq<char>) -> ProbeView {
    match h.records {
        None => ProbeView::Done(None),
        Some(names) => owner_activity(h, tty, names),
    }
}

proof fn lemma_record(h: Host, pid: Seq<char>)
    ensures
        outcome(ProbeView::ClaudeRecord { pid }, h) == record_activity(h, pid),
{
    reveal_with_fuel(outcome, 4);
}

proof fn lemma_first_owner_unique(h: Host, tty: Seq<char>, names: Seq<Seq<char>>, i: int, j: int)
    requires
        is_first_owner(h, tty, names, i),
        is_first_owner(h, tty, names, j),
    ensures
        i == j,
{
    if i < j {
        assert(!owns_record(h, tty, names[i]));
    }
    if j < i {
        assert(!owns_record(h, tty, names[j]));
    }
}

proof fn lemma_claude_from(h: Host, tty: Seq<char>, names: Seq<Seq<char>>, i: int)
    requires
        0 <= i <= names.len(),
        forall|j: int| 0 <= j < i ==> !#[trigger] owns_record(h, tty, names[j]),
    ensures
        outcome(crate::claude_session::claude_candidate(tty, names, i), h) == owner_activity(
            h,
            tty,
            names,
        ),
    decreases names.len() - i,
{
    let p = crate::claude_session::claude_candidate(tty, names, i);
    if i == names.len() {
        assert(!exists|k: int| is_first_owner(h, tty, names, k));
    } else if owns_record(h, tty, names[i]) {
        let pid = crate::claude::session_pid(names[i])->0;
        assert(is_first_owner(h, tty, names, i));
        let k = choose|k: int| is_first_owner(h, tty, names, k);
        lemma_first_owner_unique(h, tty, names, i, k);
        assert(p == (ProbeView::ClaudeOwner { tty, names, next: i + 1, pid }));
        assert(step(p, h) == (ProbeView::ClaudeRecord { pid }));
        assert(outcome(p, h) == outcome(step(p, h), h));
        lemma_record(h, pid);
    } else {
        lemma_claude_from(h, tty, names, i + 1);
        if let Some(pid) = crate::claude::session_pid(names[i]) {
            assert(p == (ProbeView::ClaudeOwner { tty, names, next: i + 1, pid }));
            assert(step(p, h) == crate::claude_session::claude_candidate(tty, names, i + 1));
            assert(outcome(p, h) == outcome(step(p, h), h));
        }
    }
}

// ---------------------------------------------------------------------------
// What a search finds: Codex
// ---------------------------------------------------------------------------

/// The number of the process `name`, if it has terminal `tty`.
pub open spec fn owner_number(h: Host, tty: Seq<char>, name: Seq<char>) -> Option<int> {
    if crate::number::all_digits(name) && (h.terminal)(name) == Some(tty) {
        crate::number::parse_int(name, 0, u64::MAX as int)
    } else {
        None
    }
}

/// Process `p` has terminal `tty`, and no process with a higher number has it.
pub open spec fn is_highest(h: Host, tty: Seq<char>, names: Seq<Seq<char>>, p: int) -> bool {
    &&& exists|i: int| 0 <= i < names.len() && #[trigger] owner_number(h, tty, names[i]) == Some(p)
    &&& forall|i: int|
        0 <= i < names.len() ==> (#[trigger] owner_number(h, tty, names[i]) matches Some(q) ==> q
            <= p)
}

/// The last activity in a session file: the newest timestamp in its last 8 KB, or the
/// time of the file where there is none or the file cannot be read.
pub open spec fn file_activity(h: Host, day: int, entry: int) -> ProbeView {
    match crate::claude_session::scan_bytes(
        crate::claude_session::file_tail((h.session_file)(day, entry), CODEX_TAIL as int),
        false,
    ) {
        Some(Scan::Found(t)) => ProbeView::Done(Some(t)),
        Some(Scan::Broken) => ProbeView::Abort,
        _ => ProbeView::Done((h.session_mtime)(day, entry)),
    }
}

/// The session files of a day from place `i` on, in the order of the directory, each
/// with the moment at which it began; `None` where a name cannot be read.
pub open spec fn files_from(
    h: Host,
    day: int,
    names: Seq<Seq<char>>,
    i: int,
) -> Option<Seq<Candidate>>
    decreases names.len() - i,
{
    if i < 0 || i >= names.len() {
        Some(seq![])
    } else {
        match (crate::codex::rollout(names[i]), files_from(h, day, names, i + 1)) {
            (Rollout::Other, rest) => rest,
            (Rollout::At(c), Some(rest)) => Some(
                crate::claude_session::found_after(
                    day,
                    seq![],
                    i,
                    (h.mktime)(crate::codex::tm(c)),
                ) + rest,
            ),
            _ => None,
        }
    }
}

/// The session files of day `day` around `start`. A day without a date or a directory
/// has none.
pub open spec fn day_sessions(h: Host, start: Timestamp, day: int) -> Option<Seq<Candidate>> {
    match (h.local_date)(crate::codex::probe_time(start.secs as int, day)) {
        None => Some(seq![]),
        Some(date) => match (h.day_files)(crate::codex::day_dir(date)) {
            None => Some(seq![]),
            Some(names) => files_from(h, day, names, 0),
        },
    }
}

/// The last activity of the session, among those found, of a process that began at
/// `start`.
pub open spec fn pick_activity(h: Host, start: Timestamp, found: Seq<Candidate>) -> ProbeView {
    match crate::codex::session_of(crate::claude_session::times(found), start) {
        None => ProbeView::Done(None),
        Some(i) => file_activity(h, found[i].day as int, found[i].entry as int),
    }
}

/// The last activity of the session of a process that began at `start`: the session
/// files of that day, of the day before and of the day after are looked at. A process
/// that began before the epoch has no session.
pub open spec fn session_activity(h: Host, start: Timestamp) -> ProbeView {
    if start.secs < 0 || (h.local_date)(crate::codex::probe_time(start.secs as int, 0)) is None {
        ProbeView::Done(None)
    } else {
        match (day_sessions(h, start, 0), day_sessions(h, start, 1), day_sessions(h, start, 2)) {
            (Some(a), Some(b), Some(c)) => pick_activity(h, start, a + b + c),
            _ => ProbeView::Abort,
        }
    }
}

/// The last activity of the Codex session of process `pid`: the one that began when
/// the process started.
pub open spec fn process_activity(h: Host, pid: Seq<char>) -> ProbeView {
    match crate::claude_session::after_codex_stat((h.stat)(pid)) {
        ProbeView::CodexClock { ticks } => match crate::claude_session::after_codex_clock(
            ticks,
            h.clock_ticks,
            h.kernel_stat,
        ) {
            ProbeView::CodexDay { start, .. } => session_activity(h, start),
            over => over,
        },
        over => over,
    }
}

/// The last activity of Codex among the processes `names`: that of the newest one
/// with terminal `tty`, which is the one with the highest number.
pub open spec fn newest_activity(h: Host, tty: Seq<char>, names: Seq<Seq<char>>) -> ProbeView {
    if exists|p: int| is_highest(h, tty, names, p) {
        let p = choose|p: int| is_highest(h, tty, names, p);
        process_activity(h, crate::number::decimal(p as nat))
    } else {
        ProbeView::Done(None)
    }
}

/// The last activity of Codex on terminal `tty`.
pub open spec fn codex_activity(h: Host, tty: Seq<char>) -> ProbeView {
    match h.procs {
        None => ProbeView::Done(None),
        Some(names) => newest_activity(h, tty, names),
    }
}

proof fn lemma_files(
    h: Host,
    start: Timestamp,
    day: int,
    found: Seq<Candidate>,
    names: Seq<Seq<char>>,
    i: int,
)
    requires
        0 <= i <= names.len(),
    ensures
        outcome(crate::claude_session::codex_file(start, day, found, names, i), h) == (
        match files_from(h, day, names, i) {
            None => ProbeView::Abort,
            Some(rest) => outcome(
                crate::claude_session::next_day(start, day, found + rest),
                h,
            ),
        }),
    decreases names.len() - i,
{
    let p = crate::claude_session::codex_file(start, day, found, names, i);
    if i == names.len() {
        assert(found + seq![] == found);
    } else {
        match crate::codex::rollout(names[i]) {
            Rollout::Other => {
                lemma_files(h, start, day, found, names, i + 1);
            },
            Rollout::Broken => {},
            Rollout::At(c) => {
                let unix = (h.mktime)(crate::codex::tm(c));
                let more = crate::claude_session::found_after(day, found, i, unix);
                let one = crate::claude_session::found_after(day, seq![], i, unix);
                assert(more == found + one);
                assert(outcome(p, h) == outcome(step(p, h), h));
                assert(step(p, h) == crate::claude_session::codex_file(
                    start,
                    day,
                    more,
                    names,
                    i + 1,
                ));
                lemma_files(h, start, day, more, names, i + 1);
                if let Some(rest) = files_from(h, day, names, i + 1) {
                    assert(more + rest == found + (one + rest));
                }
            },
        }
    }
}

proof fn lemma_day(h: Host, start: Timestamp, day: int, found: Seq<Candidate>)
    requires
        0 <= start.secs,
        day != 0 || (h.local_date)(crate::codex::probe_time(start.secs as int, 0)) is Some,
    ensures
        outcome(ProbeView::CodexDay { start, day, found }, h) == (match day_sessions(
            h,
            start,
            day,
        ) {
            None => ProbeView::Abort,
            Some(more) => outcome(crate::claude_session::next_day(start, day, found + more), h),
        }),
{
    let p = ProbeView::CodexDay { start, day, found };
    assert(outcome(p, h) == outcome(step(p, h), h));
    assert(found + seq![] == found);
    if let Some(date) = (h.local_date)(crate::codex::probe_time(start.secs as int, day)) {
        let dir = crate::codex::day_dir(date);
        let q = ProbeView::CodexDir { start, day, found, dir };
        assert(step(p, h) == q);
        assert(outcome(q, h) == outcome(step(q, h), h));
        if let Some(names) = (h.day_files)(dir) {
            lemma_files(h, start, day, found, names, 0);
        }
    }
}

proof fn lemma_pick(h: Host, start: Timestamp, found: Seq<Candidate>)
    ensures
        outcome(crate::claude_session::next_day(start, 2, found), h) == pick_activity(
            h,
            start,
            found,
        ),
{
    reveal_with_fuel(outcome, 3);
}

proof fn lemma_session(h: Host, start: Timestamp)
    ensures
        outcome(ProbeView::CodexDay { start, day: 0, found: seq![] }, h) == session_activity(
            h,
            start,
        ),
{
    let none: Seq<Candidate> = seq![];
    let p = ProbeView::CodexDay { start, day: 0, found: none };
    assert(outcome(p, h) == outcome(step(p, h), h));
    if 0 <= start.secs && (h.local_date)(crate::codex::probe_time(start.secs as int, 0)) is Some {
        lemma_day(h, start, 0, none);
        if let Some(a) = day_sessions(h, start, 0) {
            assert(none + a == a);
            lemma_day(h, start, 1, a);
            if let Some(b) = day_sessions(h, start, 1) {
                lemma_day(h, start, 2, a + b);
                if let Some(c) = day_sessions(h, start, 2) {
                    lemma_pick(h, start, a + b + c);
                }
            }
        }
    }
}

proof fn lemma_process(h: Host, pid: Seq<char>)
    ensures
        outcome(ProbeView::CodexStat { pid }, h) == process_activity(h, pid),
{
    let p = ProbeView::CodexStat { pid };
    let q = step(p, h);
    assert(outcome(p, h) == outcome(q, h));
    if q is CodexClock {
        let r = step(q, h);
        assert(outcome(q, h) == outcome(r, h));
        if let ProbeView::CodexDay { start, day, found } = r {
            assert(found == Seq::<Candidate>::empty());
            lemma_session(h, start);
        }
    }
}

/// `best` is the highest number of a process with terminal `tty` before place `i`.
spec fn is_best(
    h: Host,
    tty: Seq<char>,
    names: Seq<Seq<char>>,
    i: int,
    best: Option<u64>,
) -> bool {
    match best {
        None => forall|j: int|
            0 <= j < i ==> #[trigger] owner_number(h, tty, names[j]) is None,
        Some(b) => {
            &&& exists|j: int|
                0 <= j < i && #[trigger] owner_number(h, tty, names[j]) == Some(b as int)
            &&& forall|j: int|
                0 <= j < i ==> (#[trigger] owner_number(h, tty, names[j]) matches Some(q) ==> q
                    <= b)
        },
    }
}

proof fn lemma_best_next(
    h: Host,
    tty: Seq<char>,
    names: Seq<Seq<char>>,
    i: int,
    best: Option<u64>,
    after: Option<u64>,
)
    requires
        0 <= i < names.len(),
        is_best(h, tty, names, i, best),
        after == (match owner_number(h, tty, names[i]) {
            Some(p) => crate::claude_session::higher(best, p),
            None => best,
        }),
    ensures
        is_best(h, tty, names, i + 1, after),
{
    if let Some(q) = owner_number(h, tty, names[i]) {
        assert(0 <= q <= u64::MAX);
    }
    if let Some(b) = best {
        let j = choose|j: int|
            0 <= j < i && #[trigger] owner_number(h, tty, names[j]) == Some(b as int);
        assert(owner_number(h, tty, names[j]) == Some(b as int));
    }
}

proof fn lemma_best_of_all(h: Host, tty: Seq<char>, names: Seq<Seq<char>>, best: Option<u64>)
    requires
        is_best(h, tty, names, names.len() as int, best),
    ensures
        newest_activity(h, tty, names) == (match best {
            Some(b) => process_activity(h, crate::number::decimal(b as nat)),
            None => ProbeView::Done(None),
        }),
{
    assert forall|q: int| #[trigger] is_highest(h, tty, names, q) implies best == Some(
        q as u64,
    ) && 0 <= q <= u64::MAX by {
        let j = choose|j: int|
            0 <= j < names.len() && #[trigger] owner_number(h, tty, names[j]) == Some(q);
        assert(owner_number(h, tty, names[j]) == Some(q));
        let b = best->0;
        let k = choose|k: int|
            0 <= k < names.len() && #[trigger] owner_number(h, tty, names[k]) == Some(b as int);
        assert(owner_number(h, tty, names[k]) == Some(b as int));
    }
    if let Some(b) = best {
        assert(is_highest(h, tty, names, b as int));
    }
}

proof fn lemma_codex_from(
    h: Host,
    tty: Seq<char>,
    names: Seq<Seq<char>>,
    i: int,
    best: Option<u64>,
)
    requires
        0 <= i <= names.len(),
        is_best(h, tty, names, i, best),
    ensures
        outcome(crate::claude_session::codex_candidate(tty, names, i, best), h)
            == newest_activity(h, tty, names),
    decreases names.len() - i,
{
    let p = crate::claude_session::codex_candidate(tty, names, i, best);
    if i == names.len() {
        lemma_best_of_all(h, tty, names, best);
        if let Some(b) = best {
            lemma_process(h, crate::number::decimal(b as nat));
        }
    } else if crate::number::all_digits(names[i]) {
        let pid = names[i];
        let after = crate::claude_session::best_after(tty, best, pid, (h.terminal)(pid));
        assert(p == (ProbeView::CodexOwner { tty, names, next: i + 1, best, pid }));
        assert(step(p, h) == crate::claude_session::codex_candidate(tty, names, i + 1, after));
        assert(outcome(p, h) == outcome(step(p, h), h));
        lemma_best_next(h, tty, names, i, best, after);
        lemma_codex_from(h, tty, names, i + 1, after);
    } else {
        lemma_best_next(h, tty, names, i, best, best);
        lemma_codex_from(h, tty, names, i + 1, best);
    }
}

// ---------------------------------------------------------------------------
// What a search finds
// ---------------------------------------------------------------------------

/// The last activity of `tool` on terminal `tty` and in working directory `cwd`.
pub open spec fn activity(
    h: Host,
    tty: Seq<char>,
    tool: ToolType,
    cwd: Seq<char>,
    home: bool,
) -> ProbeView {
    if !home {
        ProbeView::Done(None)
    } else {
        match tool {
            ToolType::Claude => claude_activity(h, tty),
            ToolType::Codex => codex_activity(h, tty),
            ToolType::OpenCode => if cwd.len() == 0 {
                ProbeView::Done(None)
            } else {
                ProbeView::Done(crate::opencode::message_time((h.newest_message)(cwd)))
            },
        }
    }
}

/// A search that is answered step by step ends with the last activity.
pub proof fn law_search_finds_last_activity(
    h: Host,
    tty: Seq<char>,
    tool: ToolType,
    cwd: Seq<char>,
    home: bool,
)
    ensures
        outcome(crate::claude_session::begin(tty, tool, cwd, home), h) == activity(
            h,
            tty,
            tool,
            cwd,
            home,
        ),
{
    let p = crate::claude_session::begin(tty, tool, cwd, home);
    if !is_over(p) {
        assert(outcome(p, h) == outcome(step(p, h), h));
        match tool {
            ToolType::Claude => {
                if let Some(names) = h.records {
                    lemma_claude_from(h, tty, names, 0);
                }
            },
            ToolType::Codex => {
                if let Some(names) = h.procs {
                    lemma_codex_from(h, tty, names, 0, None);
                }
            },
            ToolType::OpenCode => {},
        }
    }
}

/// Where the machine tells proper times for files, what a search finds is a proper time.
pub proof fn law_last_activity_is_well_formed(
    h: Host,
    tty: Seq<char>,
    tool: ToolType,
    cwd: Seq<char>,
    home: bool,
)
    requires
        forall|project: Seq<char>, file: Seq<char>|
            #[trigger] (h.transcript_mtime)(project, file) matches Some(t) ==> t.wf(),
        forall|day: int, entry: int|
            #[trigger] (h.session_mtime)(day, entry) matches Some(t) ==> t.wf(),
    ensures
        activity(h, tty, tool, cwd, home) matches ProbeView::Done(Some(t)) ==> t.wf(),
{
    assert forall|project: Seq<char>, file: Seq<char>|
        #[trigger] transcript_activity(h, project, file) matches ProbeView::Done(
        Some(t),
    ) ==> t.wf() by {
        if let Some(bytes) = (h.transcript)(project, file) {
            crate::transcript::law_found_time_has_no_fraction(
                crate::transcript::utf8_lossy(
                    crate::transcript::tail_of(bytes, CLAUDE_TAIL as int),
                ),
                true,
            );
        }
    }
    assert forall|day: int, entry: int| #[trigger]
        file_activity(h, day, entry) matches ProbeView::Done(Some(t)) ==> t.wf() by {
        if let Some(bytes) = (h.session_file)(day, entry) {
            crate::transcript::law_found_time_has_no_fraction(
                crate::transcript::utf8_lossy(
                    crate::transcript::tail_of(bytes, CODEX_TAIL as int),
                ),
                false,
            );
        }
    }
}

// ---------------------------------------------------------------------------
// What a search finds, from the answers of the machine alone
// ---------------------------------------------------------------------------

/// Without a home directory nothing is found. OpenCode without a working directory has
/// no session; with one, its newest message tells the time.
pub proof fn law_newest_message_is_last_activity(
    h: Host,
    tty: Seq<char>,
    tool: ToolType,
    cwd: Seq<char>,
)
    ensures
        outcome(crate::claude_session::begin(tty, tool, cwd, false), h) == ProbeView::Done(None),
        cwd.len() == 0 ==> outcome(
            crate::claude_session::begin(tty, ToolType::OpenCode, cwd, true),
            h,
        ) == ProbeView::Done(None),
        cwd.len() > 0 ==> (outcome(
            crate::claude_session::begin(tty, ToolType::OpenCode, cwd, true),
            h,
        ) matches ProbeView::Done(r) && {
            &&& r is Some <==> ((h.newest_message)(cwd) matches Some(ms) && ms > 0)
            &&& r matches Some(t) ==> t.nanos < 1_000_000_000 && t.secs * 1_000_000_000 + t.nanos
                == (h.newest_message)(cwd)->0 * 1_000_000
        }),
{
    law_search_finds_last_activity(h, tty, tool, cwd, false);
    law_search_finds_last_activity(h, tty, ToolType::OpenCode, cwd, true);
    crate::opencode::law_message_tells_its_time((h.newest_message)(cwd));
}

/// The last activity of the assistant on a terminal comes from the first record
/// `<pid>.json` whose process has that terminal. The session and the working directory
/// in it name the transcript: the directory with `-` for each `/` and `.`, and the session
/// with `.jsonl`. The newest turn in its last 16384 bytes is the last activity; the time
/// of the file stands in where there is none. What cannot be read tells nothing.
pub proof fn law_first_owned_record_leads_to_the_transcript(
    h: Host,
    tty: Seq<char>,
    cwd: Seq<char>,
    names: Seq<Seq<char>>,
    i: int,
    pid: Seq<char>,
    dir: Seq<char>,
    project: Seq<char>,
)
    requires
        h.records == Some(names),
        0 <= i < names.len(),
        names[i] == pid + ".json"@,
        pid.len() > 0,
        forall|k: int| 0 <= k < pid.len() ==> '0' <= #[trigger] pid[k] <= '9',
        (h.terminal)(pid) == Some(tty),
        forall|j: int, p: Seq<char>|
            0 <= j < i && #[trigger] names[j] == #[trigger] (p + ".json"@) && p.len() > 0 && (
            forall|k: int| 0 <= k < p.len() ==> '0' <= #[trigger] p[k] <= '9') ==> (h.terminal)(p)
                != Some(tty),
        project.len() == dir.len(),
        forall|k: int|
            0 <= k < dir.len() ==> #[trigger] project[k] == (if dir[k] == '/' || dir[k] == '.' {
                '-'
            } else {
                dir[k]
            }),
    ensures
        ({
            let end = outcome(crate::claude_session::begin(tty, ToolType::Claude, cwd, true), h);
            match (h.record)(pid) {
                None => end == ProbeView::Done(None),
                Some(text) => {
                    &&& crate::json::json_value(text, "sessionId"@) is None
                        || crate::json::json_value(text, "cwd"@) is None ==> end
                        == ProbeView::Done(None)
                    &&& crate::json::json_value(text, "sessionId"@) matches Some(id) ==> (
                    crate::json::json_value(text, "cwd"@) == Some(dir) ==> match (h.transcript)(
                        project,
                        id + ".jsonl"@,
                    ) {
                        None => end == ProbeView::Done(None),
                        Some(bytes) => {
                            let tail = if bytes.len() > 16384 {
                                bytes.skip(bytes.len() - 16384)
                            } else {
                                bytes
                            };
                            match crate::transcript::scan_text(
                                crate::transcript::utf8_lossy(tail),
                                true,
                            ) {
                                Scan::Found(t) => end == ProbeView::Done(Some(t)),
                                Scan::NotFound => end == ProbeView::Done(
                                    (h.transcript_mtime)(project, id + ".jsonl"@),
                                ),
                                Scan::Broken => end == ProbeView::Abort,
                            }
                        },
                    })
                },
            }
        }),
{
    law_search_finds_last_activity(h, tty, ToolType::Claude, cwd, true);
    crate::claude::law_only_numbers_name_records(names[i]);
    assert(names[i] == pid + ".json"@);
    assert(crate::claude::session_pid(names[i]) == Some(pid));
    assert forall|j: int| 0 <= j < i implies !#[trigger] owns_record(h, tty, names[j]) by {
        crate::claude::law_only_numbers_name_records(names[j]);
        if let Some(p) = crate::claude::session_pid(names[j]) {
            assert(names[j] == p + ".json"@);
        }
    }
    assert(is_first_owner(h, tty, names, i));
    lemma_first_owner_unique(
        h,
        tty,
        names,
        i,
        choose|k: int| is_first_owner(h, tty, names, k),
    );
    crate::claude::law_slashes_and_dots_become_dashes(dir);
    assert(crate::claude::munge(dir) == project);
    assert forall|bytes: Seq<u8>| #[trigger]
        crate::transcript::tail_of(bytes, 16384) == (if bytes.len() > 16384 {
            bytes.skip(bytes.len() - 16384)
        } else {
            bytes
        }) by {
        assert(bytes.skip(0) == bytes);
    }
}

/// Without a record whose process has the terminal there is no last activity of the
/// assistant, nor where the records cannot be listed.
pub proof fn law_no_owned_record_no_activity(h: Host, tty: Seq<char>, cwd: Seq<char>)
    requires
        h.records matches Some(names) ==> forall|j: int, p: Seq<char>|
            0 <= j < names.len() && #[trigger] names[j] == #[trigger] (p + ".json"@) && p.len() > 0
                && (forall|k: int| 0 <= k < p.len() ==> '0' <= #[trigger] p[k] <= '9') ==> (
            h.terminal)(p) != Some(tty),
    ensures
        outcome(crate::claude_session::begin(tty, ToolType::Claude, cwd, true), h)
            == ProbeView::Done(None),
{
    law_search_finds_last_activity(h, tty, ToolType::Claude, cwd, true);
    if let Some(names) = h.records {
        assert forall|i: int| !#[trigger] is_first_owner(h, tty, names, i) by {
            if is_first_owner(h, tty, names, i) {
                crate::claude::law_only_numbers_name_records(names[i]);
                let p = crate::claude::session_pid(names[i])->0;
                assert(names[i] == p + ".json"@);
            }
        }
    }
}

/// The Codex process on a terminal is the one with the highest number among those in
/// `/proc` that have it, wherever it is listed.
pub proof fn law_highest_process_is_searched(
    h: Host,
    tty: Seq<char>,
    cwd: Seq<char>,
    names: Seq<Seq<char>>,
    i: int,
    p: int,
)
    requires
        h.procs == Some(names),
        0 <= i < names.len(),
        forall|k: int| 0 <= k < names[i].len() ==> '0' <= #[trigger] names[i][k] <= '9',
        crate::number::parse_int(names[i], 0, u64::MAX as int) == Some(p),
        (h.terminal)(names[i]) == Some(tty),
        forall|j: int|
            0 <= j < names.len() && (h.terminal)(#[trigger] names[j]) == Some(tty) && (forall|k: int|
                0 <= k < names[j].len() ==> '0' <= #[trigger] names[j][k] <= '9') ==> (
            crate::number::parse_int(names[j], 0, u64::MAX as int) matches Some(q) ==> q <= p),
    ensures
        outcome(crate::claude_session::begin(tty, ToolType::Codex, cwd, true), h) == outcome(
            ProbeView::CodexStat { pid: crate::number::decimal(p as nat) },
            h,
        ),
{
    law_search_finds_last_activity(h, tty, ToolType::Codex, cwd, true);
    crate::number::law_digits_are_zero_to_nine(names[i]);
    assert(owner_number(h, tty, names[i]) == Some(p));
    assert forall|j: int| 0 <= j < names.len() implies (#[trigger] owner_number(
        h,
        tty,
        names[j],
    ) matches Some(q) ==> q <= p) by {
        crate::number::law_digits_are_zero_to_nine(names[j]);
    }
    assert(is_highest(h, tty, names, p));
    let q = choose|q: int| is_highest(h, tty, names, q);
    let j = choose|j: int|
        0 <= j < names.len() && #[trigger] owner_number(h, tty, names[j]) == Some(q);
    assert(owner_number(h, tty, names[j]) == Some(q));
    assert(p == q);
    lemma_process(h, crate::number::decimal(p as nat));
}

/// Without a process that has the terminal there is no last activity of Codex, nor where
/// the processes cannot be listed.
pub proof fn law_no_process_no_activity(h: Host, tty: Seq<char>, cwd: Seq<char>)
    requires
        h.procs matches Some(names) ==> forall|j: int|
            0 <= j < names.len() && (h.terminal)(#[trigger] names[j]) == Some(tty) && (forall|k: int|
                0 <= k < names[j].len() ==> '0' <= #[trigger] names[j][k] <= '9')
                ==> crate::number::parse_int(names[j], 0, u64::MAX as int) is None,
    ensures
        outcome(crate::claude_session::begin(tty, ToolType::Codex, cwd, true), h)
            == ProbeView::Done(None),
{
    law_search_finds_last_activity(h, tty, ToolType::Codex, cwd, true);
    if let Some(names) = h.procs {
        assert forall|q: int| !#[trigger] is_highest(h, tty, names, q) by {
            if is_highest(h, tty, names, q) {
                let j = choose|j: int|
                    0 <= j < names.len() && #[trigger] owner_number(h, tty, names[j]) == Some(q);
                crate::number::law_digits_are_zero_to_nine(names[j]);
            }
        }
    }
}

/// The search goes on from the start of the process: its ticks after boot, with a hundred
/// ticks per second where the machine tells none. Where one of these is not told there is
/// nothing to find.
pub proof fn law_search_goes_on_from_the_start(h: Host, pid: Seq<char>)
    ensures
        ({
            let end = outcome(ProbeView::CodexStat { pid }, h);
            let hz: int = if h.clock_ticks > 0 {
                h.clock_ticks as int
            } else {
                100
            };
            match (h.stat)(pid) {
                None => end == ProbeView::Done(None),
                Some(stat) => match crate::codex::start_ticks(stat) {
                    None => end == ProbeView::Done(None),
                    Some(ticks) => match h.kernel_stat {
                        None => end == ProbeView::Done(None),
                        Some(kernel) => match crate::codex::boot_time(kernel) {
                            None => end == ProbeView::Done(None),
                            Some(boot) => if (ticks % hz) * 1000 > u64::MAX {
                                end == ProbeView::Abort
                            } else {
                                match crate::codex::moment_after_boot(boot, ticks, hz) {
                                    None => end == ProbeView::Done(None),
                                    Some(start) => end == outcome(
                                        ProbeView::CodexDay { start, day: 0, found: seq![] },
                                        h,
                                    ),
                                }
                            },
                        },
                    },
                },
            }
        }),
{
    lemma_process(h, pid);
    if let Some(stat) = (h.stat)(pid) {
        if let Some(ticks) = crate::codex::start_ticks(stat) {
            assert(0 <= ticks <= u64::MAX);
            assert((ticks as u64) as int == ticks);
            if let ProbeView::CodexDay { start, day, found } =
                crate::claude_session::after_codex_clock(
                ticks as u64,
                h.clock_ticks,
                h.kernel_stat,
            ) {
                lemma_session(h, start);
            }
        }
    }
}

/// When the session of a listed file began: the date and time in its name, as the machine
/// counts local time.
pub open spec fn name_time(h: Host, names: Seq<Seq<char>>, entry: int) -> Option<Timestamp> {
    if 0 <= entry < names.len() {
        match crate::codex::rollout(names[entry]) {
            Rollout::At(c) => if (h.mktime)(crate::codex::tm(c)) >= 0 {
                Some(Timestamp { secs: (h.mktime)(crate::codex::tm(c)), nanos: 0 })
            } else {
                None
            },
            _ => None,
        }
    } else {
        None
    }
}

/// The names in the directory of day `day` around `start`.
pub open spec fn day_names(h: Host, start: Timestamp, day: int) -> Option<Seq<Seq<char>>> {
    match (h.local_date)(crate::codex::probe_time(start.secs as int, day)) {
        Some(date) => (h.day_files)(crate::codex::day_dir(date)),
        None => None,
    }
}

/// When the session in entry `entry` of the directory of day `day` began.
pub open spec fn began(h: Host, start: Timestamp, day: int, entry: int) -> Option<Timestamp> {
    match day_names(h, start, day) {
        Some(names) => name_time(h, names, entry),
        None => None,
    }
}

/// The names in the directories of the three days can be read and counted.
pub open spec fn names_readable(h: Host, start: Timestamp) -> bool {
    forall|day: int|
        0 <= day < 3 ==> (#[trigger] day_names(h, start, day) matches Some(names) ==> names.len()
            <= usize::MAX && forall|e: int|
            0 <= e < names.len() ==> !(crate::codex::rollout(#[trigger] names[e]) is Broken))
}

/// The first place is listed before the second one.
pub open spec fn listed_before(d1: int, e1: int, d2: int, e2: int) -> bool {
    d1 < d2 || (d1 == d2 && e1 < e2)
}

proof fn lemma_files_listed(h: Host, day: int, names: Seq<Seq<char>>, i: int)
    requires
        0 <= i <= names.len() <= usize::MAX,
        0 <= day < 3,
        forall|e: int|
            0 <= e < names.len() ==> !(crate::codex::rollout(#[trigger] names[e]) is Broken),
    ensures
        files_from(h, day, names, i) matches Some(f) && {
            &&& forall|k: int|
                0 <= k < f.len() ==> {
                    &&& (#[trigger] f[k]).day == day
                    &&& i <= f[k].entry < names.len()
                    &&& name_time(h, names, f[k].entry as int) == Some(f[k].time)
                }
            &&& forall|e: int|
                i <= e && #[trigger] name_time(h, names, e) is Some ==> exists|k: int|
                    0 <= k < f.len() && (#[trigger] f[k]).entry == e
            &&& forall|k: int, l: int|
                0 <= k < l < f.len() ==> (#[trigger] f[k]).entry < (#[trigger] f[l]).entry
        },
    decreases names.len() - i,
{
    if i < names.len() {
        lemma_files_listed(h, day, names, i + 1);
        let rest = files_from(h, day, names, i + 1)->0;
        let f = files_from(h, day, names, i)->0;
        assert(!(crate::codex::rollout(names[i]) is Broken));
        if name_time(h, names, i) is Some {
            let one = Candidate {
                time: name_time(h, names, i)->0,
                day: day as usize,
                entry: i as usize,
            };
            assert(f =~= seq![one] + rest);
            assert forall|k: int| 0 <= k < f.len() implies {
                &&& (#[trigger] f[k]).day == day
                &&& i <= f[k].entry < names.len()
                &&& name_time(h, names, f[k].entry as int) == Some(f[k].time)
            } by {
                if k > 0 {
                    assert(f[k] == rest[k - 1]);
                }
            }
            assert forall|e: int|
                i <= e && #[trigger] name_time(h, names, e) is Some implies exists|k: int|
                0 <= k < f.len() && (#[trigger] f[k]).entry == e by {
                if e == i {
                    assert(f[0].entry == e);
                } else {
                    let k = choose|k: int| 0 <= k < rest.len() && (#[trigger] rest[k]).entry == e;
                    assert(f[k + 1].entry == e);
                }
            }
            assert forall|k: int, l: int| 0 <= k < l < f.len() implies (#[trigger] f[k]).entry < (
            #[trigger] f[l]).entry by {
                assert(f[l] == rest[l - 1]);
                if k > 0 {
                    assert(f[k] == rest[k - 1]);
                }
            }
        } else {
            assert(f =~= rest);
            assert forall|e: int|
                i <= e && #[trigger] name_time(h, names, e) is Some implies exists|k: int|
                0 <= k < f.len() && (#[trigger] f[k]).entry == e by {
                assert(e != i);
            }
        }
    }
}

/// The sessions of a day are listed: each that began is there, in the order of the names.
spec fn lists_day(h: Host, start: Timestamp, day: int, f: Seq<Candidate>) -> bool {
    &&& forall|k: int|
        0 <= k < f.len() ==> {
            &&& (#[trigger] f[k]).day == day
            &&& began(h, start, day, f[k].entry as int) == Some(f[k].time)
        }
    &&& forall|e: int| #[trigger]
        began(h, start, day, e) is Some ==> exists|k: int|
            0 <= k < f.len() && (#[trigger] f[k]).entry == e
    &&& forall|k: int, l: int|
        0 <= k < l < f.len() ==> (#[trigger] f[k]).entry < (#[trigger] f[l]).entry
}

proof fn lemma_day_listed(h: Host, start: Timestamp, day: int)
    requires
        0 <= day < 3,
        names_readable(h, start),
    ensures
        day_sessions(h, start, day) matches Some(f) && lists_day(h, start, day, f),
{
    if let Some(names) = day_names(h, start, day) {
        lemma_files_listed(h, day, names, 0);
        let f = day_sessions(h, start, day)->0;
        assert forall|e: int| #[trigger] began(h, start, day, e) is Some implies exists|k: int|
            0 <= k < f.len() && (#[trigger] f[k]).entry == e by {
            assert(name_time(h, names, e) is Some);
        }
    }
}

/// The sessions of the three days in a row.
spec fn all_sessions(h: Host, start: Timestamp) -> Seq<Candidate> {
    day_sessions(h, start, 0)->0 + day_sessions(h, start, 1)->0 + day_sessions(h, start, 2)->0
}

proof fn lemma_all_listed(h: Host, start: Timestamp)
    requires
        names_readable(h, start),
    ensures
        ({
            let f = all_sessions(h, start);
            &&& day_sessions(h, start, 0) is Some
            &&& day_sessions(h, start, 1) is Some
            &&& day_sessions(h, start, 2) is Some
            &&& forall|k: int|
                0 <= k < f.len() ==> {
                    &&& 0 <= (#[trigger] f[k]).day < 3
                    &&& began(h, start, f[k].day as int, f[k].entry as int) == Some(f[k].time)
                }
            &&& forall|d: int, e: int|
                0 <= d < 3 && #[trigger] began(h, start, d, e) is Some ==> exists|k: int|
                    0 <= k < f.len() && (#[trigger] f[k]).day == d && f[k].entry == e
            &&& forall|k: int, l: int|
                0 <= k < l < f.len() ==> listed_before(
                    (#[trigger] f[k]).day as int,
                    f[k].entry as int,
                    (#[trigger] f[l]).day as int,
                    f[l].entry as int,
                )
        }),
{
    lemma_day_listed(h, start, 0);
    lemma_day_listed(h, start, 1);
    lemma_day_listed(h, start, 2);
    let a = day_sessions(h, start, 0)->0;
    let b = day_sessions(h, start, 1)->0;
    let c = day_sessions(h, start, 2)->0;
    let f = all_sessions(h, start);
    assert(f == a + b + c);
    assert forall|k: int| 0 <= k < a.len() implies f[k] == #[trigger] a[k] by {}
    assert forall|k: int| 0 <= k < b.len() implies f[a.len() + k] == #[trigger] b[k] by {}
    assert forall|k: int| 0 <= k < c.len() implies f[a.len() + b.len() + k] == #[trigger] c[k] by {}
    assert forall|k: int| 0 <= k < f.len() implies {
        &&& 0 <= (#[trigger] f[k]).day < 3
        &&& began(h, start, f[k].day as int, f[k].entry as int) == Some(f[k].time)
    } by {
        if k < a.len() {
            assert(f[k] == a[k]);
        } else if k < a.len() + b.len() {
            assert(f[k] == b[k - a.len()]);
        } else {
            assert(f[k] == c[k - a.len() - b.len()]);
        }
    }
    assert forall|d: int, e: int|
        0 <= d < 3 && #[trigger] began(h, start, d, e) is Some implies exists|k: int|
        0 <= k < f.len() && (#[trigger] f[k]).day == d && f[k].entry == e by {
        if d == 0 {
            let k = choose|k: int| 0 <= k < a.len() && (#[trigger] a[k]).entry == e;
            assert(f[k].day == d && f[k].entry == e);
        } else if d == 1 {
            let k = choose|k: int| 0 <= k < b.len() && (#[trigger] b[k]).entry == e;
            assert(f[a.len() + k].day == d && f[a.len() + k].entry == e);
        } else {
            let k = choose|k: int| 0 <= k < c.len() && (#[trigger] c[k]).entry == e;
            let m = a.len() + b.len() + k;
            assert(f[m].day == d && f[m].entry == e);
        }
    }
    assert forall|k: int, l: int| 0 <= k < l < f.len() implies listed_before(
        (#[trigger] f[k]).day as int,
        f[k].entry as int,
        (#[trigger] f[l]).day as int,
        f[l].entry as int,
    ) by {
        if l < a.len() {
            assert(f[k] == a[k] && f[l] == a[l]);
        } else if l < a.len() + b.len() {
            assert(f[l] == b[l - a.len()]);
            if k < a.len() {
                assert(f[k] == a[k]);
            } else {
                assert(f[k] == b[k - a.len()]);
            }
        } else {
            assert(f[l] == c[l - a.len() - b.len()]);
            if k < a.len() {
                assert(f[k] == a[k]);
            } else if k < a.len() + b.len() {
                assert(f[k] == b[k - a.len()]);
            } else {
                assert(f[k] == c[k - a.len() - b.len()]);
            }
        }
    }
}

/// The session file of a process is looked for in the directories of three days: the one
/// of its start, the one before and the one after. If any session there began at the start
/// or after it, the last activity is in the file of the earliest of these, the first
/// listed where several began together; and where none did, in the file of the latest of
/// all, the last listed where several began together. The newest timestamp in the last
/// 8192 bytes of that file is the last activity; the time of the file stands in where there
/// is none.
pub proof fn law_next_session_holds_the_activity(
    h: Host,
    start: Timestamp,
    day: int,
    entry: int,
    time: Timestamp,
)
    requires
        0 <= start.secs,
        (h.local_date)(start.secs as int) is Some,
        names_readable(h, start),
        0 <= day < 3,
        began(h, start, day, entry) == Some(time),
        time.at_or_after(start) ==> forall|d: int, e: int|
            0 <= d < 3 ==> (#[trigger] began(h, start, d, e) matches Some(t) ==> (t.at_or_after(
                start,
            ) ==> t.at_or_after(time) && (time.at_or_after(t) ==> !listed_before(
                d,
                e,
                day,
                entry,
            )))),
        !time.at_or_after(start) ==> forall|d: int, e: int|
            0 <= d < 3 ==> (#[trigger] began(h, start, d, e) matches Some(t) ==> !t.at_or_after(
                start,
            ) && time.at_or_after(t) && (t.at_or_after(time) ==> !listed_before(
                day,
                entry,
                d,
                e,
            ))),
    ensures
        ({
            let end = outcome(ProbeView::CodexDay { start, day: 0, found: seq![] }, h);
            match (h.session_file)(day, entry) {
                None => end == ProbeView::Done((h.session_mtime)(day, entry)),
                Some(bytes) => {
                    let tail = if bytes.len() > 8192 {
                        bytes.skip(bytes.len() - 8192)
                    } else {
                        bytes
                    };
                    match crate::transcript::scan_text(
                        crate::transcript::utf8_lossy(tail),
                        false,
                    ) {
                        Scan::Found(t) => end == ProbeView::Done(Some(t)),
                        Scan::NotFound => end == ProbeView::Done((h.session_mtime)(day, entry)),
                        Scan::Broken => end == ProbeView::Abort,
                    }
                },
            }
        }),
{
    lemma_session(h, start);
    lemma_all_listed(h, start);
    crate::codex::law_days_looked_at(start.secs as int);
    let f = all_sessions(h, start);
    let times = crate::claude_session::times(f);
    let i = choose|k: int| 0 <= k < f.len() && (#[trigger] f[k]).day == day && f[k].entry == entry;
    assert(began(h, start, day, entry) is Some);
    assert(f[i].day == day && f[i].entry == entry);
    assert(times[i] == time);
    crate::codex::law_session_began_next(times, start);
    let s = crate::codex::session_of(times, start)->0;
    assert(times[s] == f[s].time);
    assert(began(h, start, f[s].day as int, f[s].entry as int) == Some(f[s].time));
    if time.at_or_after(start) {
        assert(times[i].at_or_after(start));
        assert(times[s].at_or_after(start));
        assert(times[i].at_or_after(times[s]));
        assert(times[s].at_or_after(time));
        assert(s <= i);
        if s < i {
            assert(listed_before(f[s].day as int, f[s].entry as int, day, entry));
        }
    } else {
        assert forall|k: int| 0 <= k < times.len() implies !(#[trigger] times[k]).at_or_after(
            start,
        ) by {
            assert(times[k] == f[k].time);
            assert(began(h, start, f[k].day as int, f[k].entry as int) == Some(f[k].time));
        }
        assert(times[s].at_or_after(times[i]));
        assert(time.at_or_after(times[s]));
        assert(i <= s);
        if i < s {
            assert(listed_before(day, entry, f[s].day as int, f[s].entry as int));
        }
    }
    assert(s == i);
    if let Some(bytes) = (h.session_file)(day, entry) {
        assert(bytes.skip(0) == bytes);
    }
}

/// Without a session in the three days there is nothing to find, nor for a process that
/// began before 1970 or at a moment without a local date.
pub proof fn law_no_session_no_activity(h: Host, start: Timestamp)
    ensures
        start.secs < 0 || (h.local_date)(start.secs as int) is None ==> outcome(
            ProbeView::CodexDay { start, day: 0, found: seq![] },
            h,
        ) == ProbeView::Done(None),
        names_readable(h, start) && (forall|d: int, e: int|
            0 <= d < 3 ==> #[trigger] began(h, start, d, e) is None) ==> outcome(
            ProbeView::CodexDay { start, day: 0, found: seq![] },
            h,
        ) == ProbeView::Done(None),
{
    lemma_session(h, start);
    crate::codex::law_days_looked_at(start.secs as int);
    if names_readable(h, start) && (forall|d: int, e: int|
        0 <= d < 3 ==> #[trigger] began(h, start, d, e) is None) {
        lemma_all_listed(h, start);
        let f = all_sessions(h, start);
        if f.len() > 0 {
            assert(began(h, start, f[0].day as int, f[0].entry as int) == Some(f[0].time));
        }
        crate::codex::law_session_began_next(crate::claude_session::times(f), start);
    }
}

proof fn lemma_broken_name(h: Host, day: int, names: Seq<Seq<char>>, i: int, e: int)
    requires
        0 <= i <= e < names.len(),
        crate::codex::rollout(names[e]) is Broken,
    ensures
        files_from(h, day, names, i) is None,
    decreases e - i,
{
    if i < e {
        lemma_broken_name(h, day, names, i + 1, e);
    }
}

/// A name in the directory of one of the three days that has to be cut inside a character
/// ends the search for good.
pub proof fn law_broken_name_ends_the_search(
    h: Host,
    start: Timestamp,
    day: int,
    names: Seq<Seq<char>>,
    e: int,
)
    requires
        0 <= start.secs,
        (h.local_date)(start.secs as int) is Some,
        0 <= day < 3,
        day_names(h, start, day) == Some(names),
        0 <= e < names.len(),
        crate::codex::rollout(names[e]) is Broken,
    ensures
        outcome(ProbeView::CodexDay { start, day: 0, found: seq![] }, h) == ProbeView::Abort,
{
    lemma_session(h, start);
    crate::codex::law_days_looked_at(start.secs as int);
    lemma_broken_name(h, day, names, 0, e);
    assert(day_sessions(h, start, day) is None);
}

} // verus!
