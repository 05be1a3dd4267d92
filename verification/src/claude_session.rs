//! From a tmux pane to the last activity of the AI session in it.
//!
//! What has to be read lies in files, in `/proc`, in a database and with the clock of
//! the machine. This module asks for the home directory and does no other reading. A
//! [`Probe`] is a search that waits for one answer: it says what it needs to know
//! next, and its `reply` takes the answer and gives the search that follows, until the
//! search is over.
//!
//! - The assistant itself: the session record whose process has the pane's terminal
//!   names a session and a working directory; they name a transcript, and its newest
//!   API turn is the last activity. The time of the file itself would not do: entries
//!   are also appended in the background.
//! - Codex: the newest process with the pane's terminal started at some time; the
//!   session file that began next is its own, and the newest timestamp in it is the
//!   last activity.
//! - OpenCode: the newest message of the sessions in the working directory.

use vstd::prelude::*;

use std::path::PathBuf;

use crate::claude::{munge_path, session_pid_of};
use crate::clock::Timestamp;
use crate::codex::{
    codex_filename_fields, day_dir_of, find_codex_session, mktime_moment_of, probe_unix,
    process_start, start_ticks_of, system_boot_time, ticks_per_second, tm_of, LocalDate, Rollout,
    TmFields, CODEX_DAYS,
};
use crate::json::json_str;
use crate::names::is_pid;
use crate::number::{decimal_of, parse_u64};
use crate::opencode::message_time_of;
use crate::session::ToolType;
use crate::text::{chars_of, same_text};
use crate::transcript::{
    last_api_call_time, last_timestamp_in_file, tail_offset, Scan, CLAUDE_TAIL, CODEX_TAIL,
};

verus! {

// ---------------------------------------------------------------------------
// Searches
// ---------------------------------------------------------------------------

/// A Codex session file: entry `entry` of the directory of day `day`, and when the
/// session began.
#[derive(Debug, Clone, Copy, PartialEq, Eq, Structural)]
pub struct Candidate {
    pub time: Timestamp,
    pub day: usize,
    pub entry: usize,
}

/// Needs the names of the session records.
pub struct ClaudeNames {
    pub tty: String,
}

/// Needs the terminal of process `pid`, whose record is the one before `next`.
pub struct ClaudeOwner {
    pub tty: String,
    pub names: Vec<String>,
    pub next: usize,
    pub pid: String,
}

/// Needs the text of the session record `<pid>.json`.
pub struct ClaudeRecord {
    pub pid: String,
}

/// Needs the last bytes of the transcript `<project>/<file>` among the projects.
pub struct ClaudeTail {
    pub project: String,
    pub file: String,
}

/// Needs the time at which that transcript was last written to.
pub struct ClaudeMtime {
    pub project: String,
    pub file: String,
}

/// Needs the names of the files in `/proc`.
pub struct CodexProcs {
    pub tty: String,
}

/// Needs the terminal of process `pid`, which is the entry before `next`. Process
/// `best` is the newest one so far that has the terminal.
pub struct CodexOwner {
    pub tty: String,
    pub names: Vec<String>,
    pub next: usize,
    pub best: Option<u64>,
    pub pid: String,
}

/// Needs the text of `/proc/<pid>/stat`.
pub struct CodexStat {
    pub pid: String,
}

/// Needs the clock ticks per second and the text of `/proc/stat`. The process started
/// `ticks` ticks after boot.
pub struct CodexClock {
    pub ticks: u64,
}

/// Needs the local date of a moment of day `day`.
pub struct CodexDay {
    pub start: Timestamp,
    pub day: usize,
    pub found: Vec<Candidate>,
}

/// Needs the names of the files in `~/.codex/sessions/<dir>`, the directory of day `day`.
pub struct CodexDir {
    pub start: Timestamp,
    pub day: usize,
    pub found: Vec<Candidate>,
    pub dir: String,
}

/// Needs the moment of a local date and time, the one in the name of entry `entry`.
pub struct CodexName {
    pub start: Timestamp,
    pub day: usize,
    pub found: Vec<Candidate>,
    pub names: Vec<String>,
    pub entry: usize,
    pub fields: TmFields,
}

/// Needs the last bytes of entry `entry` of the directory of day `day`.
pub struct CodexTail {
    pub day: usize,
    pub entry: usize,
}

/// Needs the time at which that entry was last written to.
pub struct CodexMtime {
    pub day: usize,
    pub entry: usize,
}

/// Needs the newest `time_updated` of the messages whose session has the directory `cwd`.
pub struct OpenCodeQuery {
    pub cwd: String,
}

/// A search for the last activity of a session.
pub enum Probe {
    ClaudeNames(ClaudeNames),
    ClaudeOwner(ClaudeOwner),
    ClaudeRecord(ClaudeRecord),
    ClaudeTail(ClaudeTail),
    ClaudeMtime(ClaudeMtime),
    CodexProcs(CodexProcs),
    CodexOwner(CodexOwner),
    CodexStat(CodexStat),
    CodexClock(CodexClock),
    CodexDay(CodexDay),
    CodexDir(CodexDir),
    CodexName(CodexName),
    CodexTail(CodexTail),
    CodexMtime(CodexMtime),
    OpenCodeQuery(OpenCodeQuery),
    /// The search is over, with the last activity if there is one to tell.
    Done(Option<Timestamp>),
    /// The search ran into a text that cannot be read, and gives up for good.
    Abort,
}

/// What a [`Probe`] stands for.
#[verifier::ext_equal]
pub enum ProbeView {
    ClaudeNames { tty: Seq<char> },
    ClaudeOwner { tty: Seq<char>, names: Seq<Seq<char>>, next: int, pid: Seq<char> },
    ClaudeRecord { pid: Seq<char> },
    ClaudeTail { project: Seq<char>, file: Seq<char> },
    ClaudeMtime { project: Seq<char>, file: Seq<char> },
    CodexProcs { tty: Seq<char> },
    CodexOwner {
        tty: Seq<char>,
        names: Seq<Seq<char>>,
        next: int,
        best: Option<u64>,
        pid: Seq<char>,
    },
    CodexStat { pid: Seq<char> },
    CodexClock { ticks: u64 },
    CodexDay { start: Timestamp, day: int, found: Seq<Candidate> },
    CodexDir { start: Timestamp, day: int, found: Seq<Candidate>, dir: Seq<char> },
    CodexName {
        start: Timestamp,
        day: int,
        found: Seq<Candidate>,
        names: Seq<Seq<char>>,
        entry: int,
        fields: TmFields,
    },
    CodexTail { day: int, entry: int },
    CodexMtime { day: int, entry: int },
    OpenCodeQuery { cwd: Seq<char> },
    Done(Option<Timestamp>),
    Abort,
}

impl View for Probe {
    type V = ProbeView;

    open spec fn view(&self) -> ProbeView {
        match *self {
            Probe::ClaudeNames(p) => ProbeView::ClaudeNames { tty: p.tty@ },
            Probe::ClaudeOwner(p) => ProbeView::ClaudeOwner {
                tty: p.tty@,
                names: crate::text::texts(p.names@),
                next: p.next as int,
                pid: p.pid@,
            },
            Probe::ClaudeRecord(p) => ProbeView::ClaudeRecord { pid: p.pid@ },
            Probe::ClaudeTail(p) => ProbeView::ClaudeTail { project: p.project@, file: p.file@ },
            Probe::ClaudeMtime(p) => ProbeView::ClaudeMtime { project: p.project@, file: p.file@ },
            Probe::CodexProcs(p) => ProbeView::CodexProcs { tty: p.tty@ },
            Probe::CodexOwner(p) => ProbeView::CodexOwner {
                tty: p.tty@,
                names: crate::text::texts(p.names@),
                next: p.next as int,
                best: p.best,
                pid: p.pid@,
            },
            Probe::CodexStat(p) => ProbeView::CodexStat { pid: p.pid@ },
            Probe::CodexClock(p) => ProbeView::CodexClock { ticks: p.ticks },
            Probe::CodexDay(p) => ProbeView::CodexDay {
                start: p.start,
                day: p.day as int,
                found: p.found@,
            },
            Probe::CodexDir(p) => ProbeView::CodexDir {
                start: p.start,
                day: p.day as int,
                found: p.found@,
                dir: p.dir@,
            },
            Probe::CodexName(p) => ProbeView::CodexName {
                start: p.start,
                day: p.day as int,
                found: p.found@,
                names: crate::text::texts(p.names@),
                entry: p.entry as int,
                fields: p.fields,
            },
            Probe::CodexTail(p) => ProbeView::CodexTail {
                day: p.day as int,
                entry: p.entry as int,
            },
            Probe::CodexMtime(p) => ProbeView::CodexMtime {
                day: p.day as int,
                entry: p.entry as int,
            },
            Probe::OpenCodeQuery(p) => ProbeView::OpenCodeQuery { cwd: p.cwd@ },
            Probe::Done(r) => ProbeView::Done(r),
            Probe::Abort => ProbeView::Abort,
        }
    }
}

/// The views of optional names.
pub open spec fn names_view(names: Option<Vec<String>>) -> Option<Seq<Seq<char>>> {
    match names {
        Some(v) => Some(crate::text::texts(v@)),
        None => None,
    }
}

/// The view of an optional text.
pub open spec fn text_view(text: Option<String>) -> Option<Seq<char>> {
    match text {
        Some(s) => Some(s@),
        None => None,
    }
}

/// The view of optional bytes.
pub open spec fn bytes_view(bytes: Option<Vec<u8>>) -> Option<Seq<u8>> {
    match bytes {
        Some(b) => Some(b@),
        None => None,
    }
}

/// Whether `link` is the terminal `tty`.
fn is_tty(link: &Option<String>, tty: &String) -> (r: bool)
    ensures
        r == (text_view(*link) == Some(tty@)),
{
    match link {
        Some(l) => same_text(l.as_str(), tty.as_str()),
        None => false,
    }
}

// ---------------------------------------------------------------------------
// The start
// ---------------------------------------------------------------------------

/// The search for the last activity of `tool` on terminal `tty`, where `home` says
/// whether there is a home directory.
pub open spec fn begin(tty: Seq<char>, tool: ToolType, cwd: Seq<char>, home: bool) -> ProbeView {
    match tool {
        ToolType::Claude => if home {
            ProbeView::ClaudeNames { tty }
        } else {
            ProbeView::Done(None)
        },
        ToolType::Codex => if home {
            ProbeView::CodexProcs { tty }
        } else {
            ProbeView::Done(None)
        },
        ToolType::OpenCode => if cwd.len() > 0 && home {
            ProbeView::OpenCodeQuery { cwd }
        } else {
            ProbeView::Done(None)
        },
    }
}

/// Begin the search for the last activity of `tool_type` on terminal `tty`, given
/// whether there is a home directory.
pub fn begin_probe(tty: &str, tool_type: ToolType, cwd: &str, home: bool) -> (r: Probe)
    ensures
        r@ == begin(tty@, tool_type, cwd@, home),
{
    if !home {
        return Probe::Done(None);
    }
    match tool_type {
        ToolType::Claude => Probe::ClaudeNames(ClaudeNames { tty: tty.to_owned() }),
        ToolType::Codex => Probe::CodexProcs(CodexProcs { tty: tty.to_owned() }),
        ToolType::OpenCode => if cwd.is_empty() {
            Probe::Done(None)
        } else {
            Probe::OpenCodeQuery(OpenCodeQuery { cwd: cwd.to_owned() })
        },
    }
}

/// A path of `std`, carried as it is.
#[verifier::external_type_specification]
#[verifier::external_body]
pub struct ExPathBuf(PathBuf);

/// `dirs::home_dir`: the home directory of the user, if there is one. It reads the
/// environment and the user database, so nothing is claimed of what it returns.
pub assume_specification[ dirs::home_dir ]() -> (home: Option<PathBuf>);

/// A search, and the home directory it is about.
pub struct Lookup {
    pub home: Option<PathBuf>,
    pub probe: Probe,
}

/// Begin the search for the last activity of the AI session on `tty`, by tool.
///
/// `cwd` is used for OpenCode: it is the working directory of the process. For the
/// other tools the search finds its own way from the terminal. OpenCode without a working
/// directory has no session, and the home directory is not asked for; else it is the one
/// that `dirs::home_dir` returns, and without one there is nothing to search.
pub fn last_activity_for_tty(tty: &str, tool_type: ToolType, cwd: &str) -> (r: Lookup)
    ensures
        r.probe@ == begin(tty@, tool_type, cwd@, r.home is Some),
        tool_type == ToolType::OpenCode && cwd@.len() == 0 ==> r.home is None,
        !(tool_type == ToolType::OpenCode && cwd@.len() == 0) ==> call_ensures(
            dirs::home_dir,
            (),
            r.home,
        ),
{
    let needs_home: bool = match tool_type {
        ToolType::OpenCode => !cwd.is_empty(),
        _ => true,
    };
    let home: Option<PathBuf> = if needs_home {
        dirs::home_dir()
    } else {
        None
    };
    let probe: Probe = begin_probe(tty, tool_type, cwd, home.is_some());
    Lookup { home, probe }
}

// ---------------------------------------------------------------------------
// The assistant itself
// ---------------------------------------------------------------------------

/// The search goes on with the first session record from place `i` on.
pub open spec fn claude_candidate(tty: Seq<char>, names: Seq<Seq<char>>, i: int) -> ProbeView
    decreases names.len() - i,
{
    if i < 0 || i >= names.len() {
        ProbeView::Done(None)
    } else {
        match crate::claude::session_pid(names[i]) {
            Some(pid) => ProbeView::ClaudeOwner { tty, names, next: i + 1, pid },
            None => claude_candidate(tty, names, i + 1),
        }
    }
}

/// What follows on the names of the records.
pub open spec fn after_claude_names(
    tty: Seq<char>,
    names: Option<Seq<Seq<char>>>,
) -> ProbeView {
    match names {
        Some(names) => claude_candidate(tty, names, 0),
        None => ProbeView::Done(None),
    }
}

/// What follows on the terminal of a record's process: its record if it is the one
/// asked for, and else the next record.
pub open spec fn after_claude_owner(
    tty: Seq<char>,
    names: Seq<Seq<char>>,
    next: int,
    pid: Seq<char>,
    link: Option<Seq<char>>,
) -> ProbeView {
    if link == Some(tty) {
        ProbeView::ClaudeRecord { pid }
    } else {
        claude_candidate(tty, names, next)
    }
}

/// What follows on the text of a record: the transcript that its session and its
/// working directory name.
pub open spec fn after_claude_record(text: Option<Seq<char>>) -> ProbeView {
    match text {
        None => ProbeView::Done(None),
        Some(text) => match (
            crate::json::json_value(text, "sessionId"@),
            crate::json::json_value(text, "cwd"@),
        ) {
            (Some(id), Some(cwd)) => ProbeView::ClaudeTail {
                project: crate::claude::munge(cwd),
                file: id + ".jsonl"@,
            },
            _ => ProbeView::Done(None),
        },
    }
}

/// What follows on the search through the end of a transcript. The time of the file
/// stands in where no turn is found.
pub open spec fn after_claude_scan(
    project: Seq<char>,
    file: Seq<char>,
    scan: Option<Scan>,
) -> ProbeView {
    match scan {
        None => ProbeView::Done(None),
        Some(Scan::Found(t)) => ProbeView::Done(Some(t)),
        Some(Scan::NotFound) => ProbeView::ClaudeMtime { project, file },
        Some(Scan::Broken) => ProbeView::Abort,
    }
}

/// The last `window` bytes of a file that can be read.
pub open spec fn file_tail(file: Option<Seq<u8>>, window: int) -> Option<Seq<u8>> {
    match file {
        Some(b) => Some(crate::transcript::tail_of(b, window)),
        None => None,
    }
}

/// What a search through bytes at the end of a file comes to.
pub open spec fn scan_bytes(tail: Option<Seq<u8>>, turns_only: bool) -> Option<Scan> {
    match tail {
        Some(b) => Some(
            crate::transcript::scan_text(crate::transcript::utf8_lossy(b), turns_only),
        ),
        None => None,
    }
}

/// Go on with the first session record from place `from` on.
fn next_claude(tty: String, names: Vec<String>, from: usize) -> (r: Probe)
    ensures
        r@ == claude_candidate(tty@, crate::text::texts(names@), from as int),
{
    let mut i: usize = from;
    let ghost all = crate::text::texts(names@);
    while i < names.len()
        invariant
            all == crate::text::texts(names@),
            claude_candidate(tty@, all, from as int) == claude_candidate(tty@, all, i as int),
        decreases names@.len() - i,
    {
        assert(all[i as int] == names@[i as int]@);
        match session_pid_of(names[i].as_str()) {
            Some(pid) => {
                return Probe::ClaudeOwner(ClaudeOwner { tty, names, next: i + 1, pid });
            },
            None => {},
        }
        i = i + 1;
    }
    Probe::Done(None)
}

impl ClaudeNames {
    /// Take the names of the records, `None` if they cannot be listed.
    pub fn reply(self, names: Option<Vec<String>>) -> (r: Probe)
        ensures
            r@ == after_claude_names(self.tty@, names_view(names)),
    {
        match names {
            Some(names) => next_claude(self.tty, names, 0),
            None => Probe::Done(None),
        }
    }
}

impl ClaudeOwner {
    /// Take the terminal of the process, `None` if it cannot be read.
    pub fn reply(self, link: Option<String>) -> (r: Probe)
        ensures
            r@ == after_claude_owner(
                self.tty@,
                crate::text::texts(self.names@),
                self.next as int,
                self.pid@,
                text_view(link),
            ),
    {
        if is_tty(&link, &self.tty) {
            Probe::ClaudeRecord(ClaudeRecord { pid: self.pid })
        } else {
            next_claude(self.tty, self.names, self.next)
        }
    }
}

impl ClaudeRecord {
    /// Take the text of the record, `None` if it cannot be read.
    pub fn reply(self, text: Option<String>) -> (r: Probe)
        ensures
            r@ == after_claude_record(text_view(text)),
    {
        let text: String = match text {
            Some(text) => text,
            None => return Probe::Done(None),
        };
        let id: String = match json_str(text.as_str(), "sessionId") {
            Some(id) => id,
            None => return Probe::Done(None),
        };
        let cwd: String = match json_str(text.as_str(), "cwd") {
            Some(cwd) => cwd,
            None => return Probe::Done(None),
        };
        let mut file: String = id;
        file.append(".jsonl");
        Probe::ClaudeTail(ClaudeTail { project: munge_path(cwd.as_str()), file })
    }
}

impl ClaudeTail {
    /// Where the bytes that are needed begin in a transcript of `size` bytes: they are
    /// its last 16 KB.
    pub fn offset(&self, size: u64) -> (r: u64)
        ensures
            r == crate::transcript::tail_start(size as int, CLAUDE_TAIL as int),
            size - r == (if size < 16384 {
                size as int
            } else {
                16384
            }),
    {
        tail_offset(size, CLAUDE_TAIL)
    }

    /// Take the last bytes of the transcript, `None` if they cannot be read.
    pub fn reply(self, tail: Option<Vec<u8>>) -> (r: Probe)
        ensures
            r@ == after_claude_scan(self.project@, self.file@, scan_bytes(bytes_view(tail), true)),
    {
        let scan: Option<Scan> = match tail {
            Some(bytes) => Some(last_api_call_time(bytes.as_slice())),
            None => None,
        };
        self.scanned(scan)
    }

    /// Take what the search through the last bytes of the transcript came to, `None`
    /// if they cannot be read.
    pub fn scanned(self, scan: Option<Scan>) -> (r: Probe)
        ensures
            r@ == after_claude_scan(self.project@, self.file@, scan),
    {
        match scan {
            None => Probe::Done(None),
            Some(Scan::Found(t)) => Probe::Done(Some(t)),
            Some(Scan::NotFound) => Probe::ClaudeMtime(
                ClaudeMtime { project: self.project, file: self.file },
            ),
            Some(Scan::Broken) => Probe::Abort,
        }
    }
}

impl ClaudeMtime {
    /// Take the time at which the transcript was last written to.
    pub fn reply(self, mtime: Option<Timestamp>) -> (r: Probe)
        ensures
            r@ == ProbeView::Done(mtime),
    {
        Probe::Done(mtime)
    }
}

// ---------------------------------------------------------------------------
// Codex
// ---------------------------------------------------------------------------

/// The search goes on with the first process from place `i` on; behind the last one
/// it goes on with the newest process that has the terminal.
pub open spec fn codex_candidate(
    tty: Seq<char>,
    names: Seq<Seq<char>>,
    i: int,
    best: Option<u64>,
) -> ProbeView
    decreases names.len() - i,
{
    if i < 0 || i >= names.len() {
        match best {
            Some(p) => ProbeView::CodexStat { pid: crate::number::decimal(p as nat) },
            None => ProbeView::Done(None),
        }
    } else if crate::number::all_digits(names[i]) {
        ProbeView::CodexOwner { tty, names, next: i + 1, best, pid: names[i] }
    } else {
        codex_candidate(tty, names, i + 1, best)
    }
}

/// What follows on the names in `/proc`.
pub open spec fn after_codex_procs(tty: Seq<char>, names: Option<Seq<Seq<char>>>) -> ProbeView {
    match names {
        Some(names) => codex_candidate(tty, names, 0, None),
        None => ProbeView::Done(None),
    }
}

/// The higher of a process number so far and another one.
pub open spec fn higher(best: Option<u64>, p: int) -> Option<u64> {
    match best {
        Some(b) => if p > b {
            Some(p as u64)
        } else {
            best
        },
        None => Some(p as u64),
    }
}

/// The newest process so far, once the terminal of process `pid` is known.
pub open spec fn best_after(
    tty: Seq<char>,
    best: Option<u64>,
    pid: Seq<char>,
    link: Option<Seq<char>>,
) -> Option<u64> {
    match crate::number::parse_int(pid, 0, u64::MAX as int) {
        Some(p) => if link == Some(tty) {
            higher(best, p)
        } else {
            best
        },
        None => best,
    }
}

/// What follows on the terminal of a process.
pub open spec fn after_codex_owner(
    tty: Seq<char>,
    names: Seq<Seq<char>>,
    next: int,
    best: Option<u64>,
    pid: Seq<char>,
    link: Option<Seq<char>>,
) -> ProbeView {
    codex_candidate(tty, names, next, best_after(tty, best, pid, link))
}

/// What follows on the text of `/proc/<pid>/stat`.
pub open spec fn after_codex_stat(stat: Option<Seq<char>>) -> ProbeView {
    match stat {
        None => ProbeView::Done(None),
        Some(stat) => match crate::codex::start_ticks(stat) {
            Some(ticks) => ProbeView::CodexClock { ticks: ticks as u64 },
            None => ProbeView::Done(None),
        },
    }
}

/// The clock ticks per second, from what `sysconf` returned.
pub open spec fn hz_of(raw: i64) -> int {
    if raw > 0 {
        raw as int
    } else {
        100
    }
}

/// What follows on the clock and the text of `/proc/stat`: the search for the session
/// of a process that started then. With so many ticks per second that milliseconds
/// cannot be counted in 64 bits, the start cannot be told.
pub open spec fn after_codex_clock(
    ticks: u64,
    raw: i64,
    stat: Option<Seq<char>>,
) -> ProbeView {
    match stat {
        None => ProbeView::Done(None),
        Some(stat) => match crate::codex::boot_time(stat) {
            None => ProbeView::Done(None),
            Some(boot) => if (ticks as int % hz_of(raw)) * 1000 > u64::MAX {
                ProbeView::Abort
            } else {
                match crate::codex::moment_after_boot(boot, ticks as int, hz_of(raw)) {
                    Some(start) => ProbeView::CodexDay { start, day: 0, found: seq![] },
                    None => ProbeView::Done(None),
                }
            },
        },
    }
}

/// When the found sessions began.
pub open spec fn times(found: Seq<Candidate>) -> Seq<Timestamp> {
    Seq::new(found.len(), |i: int| found[i].time)
}

/// The search goes on with the next day; behind the last one it goes on with the
/// session of the process.
pub open spec fn next_day(start: Timestamp, day: int, found: Seq<Candidate>) -> ProbeView {
    if day + 1 < CODEX_DAYS {
        ProbeView::CodexDay { start, day: day + 1, found }
    } else {
        match crate::codex::session_of(times(found), start) {
            Some(i) => ProbeView::CodexTail {
                day: found[i].day as int,
                entry: found[i].entry as int,
            },
            None => ProbeView::Done(None),
        }
    }
}

/// What follows on the local date of a day. Without the date of the start itself the
/// search is over; another day is left out. A process that began before the epoch has no
/// session.
pub open spec fn after_codex_day(
    start: Timestamp,
    day: int,
    found: Seq<Candidate>,
    date: Option<LocalDate>,
) -> ProbeView {
    if start.secs < 0 {
        ProbeView::Done(None)
    } else {
        match date {
            Some(date) => ProbeView::CodexDir {
                start,
                day,
                found,
                dir: crate::codex::day_dir(date),
            },
            None => if day == 0 {
                ProbeView::Done(None)
            } else {
                next_day(start, day, found)
            },
        }
    }
}

/// The search goes on with the first session file from place `i` on.
pub open spec fn codex_file(
    start: Timestamp,
    day: int,
    found: Seq<Candidate>,
    names: Seq<Seq<char>>,
    i: int,
) -> ProbeView
    decreases names.len() - i,
{
    if i < 0 || i >= names.len() {
        next_day(start, day, found)
    } else {
        match crate::codex::rollout(names[i]) {
            Rollout::Other => codex_file(start, day, found, names, i + 1),
            Rollout::Broken => ProbeView::Abort,
            Rollout::At(c) => ProbeView::CodexName {
                start,
                day,
                found,
                names,
                entry: i,
                fields: crate::codex::tm(c),
            },
        }
    }
}

/// What follows on the names of the files of a day.
pub open spec fn after_codex_dir(
    start: Timestamp,
    day: int,
    found: Seq<Candidate>,
    names: Option<Seq<Seq<char>>>,
) -> ProbeView {
    match names {
        Some(names) => codex_file(start, day, found, names, 0),
        None => next_day(start, day, found),
    }
}

/// The sessions found, once the moment of the date in a name is known.
pub open spec fn found_after(
    day: int,
    found: Seq<Candidate>,
    entry: int,
    unix: i64,
) -> Seq<Candidate> {
    match crate::codex::mktime_moment(unix as int) {
        Some(time) => found.push(Candidate { time, day: day as usize, entry: entry as usize }),
        None => found,
    }
}

/// What follows on the moment of the date in a name.
pub open spec fn after_codex_name(
    start: Timestamp,
    day: int,
    found: Seq<Candidate>,
    names: Seq<Seq<char>>,
    entry: int,
    unix: i64,
) -> ProbeView {
    codex_file(start, day, found_after(day, found, entry, unix), names, entry + 1)
}

/// What follows on the search through the end of a session file. The time of the file
/// stands in where no timestamp is found, and where the file cannot be read.
pub open spec fn after_codex_scan(day: int, entry: int, scan: Option<Scan>) -> ProbeView {
    match scan {
        Some(Scan::Found(t)) => ProbeView::Done(Some(t)),
        Some(Scan::Broken) => ProbeView::Abort,
        _ => ProbeView::CodexMtime { day, entry },
    }
}

/// Go on with the first process from place `from` on.
fn next_codex(tty: String, names: Vec<String>, from: usize, best: Option<u64>) -> (r: Probe)
    ensures
        r@ == codex_candidate(tty@, crate::text::texts(names@), from as int, best),
{
    let mut i: usize = from;
    let ghost all = crate::text::texts(names@);
    while i < names.len()
        invariant
            all == crate::text::texts(names@),
            codex_candidate(tty@, all, from as int, best) == codex_candidate(
                tty@,
                all,
                i as int,
                best,
            ),
        decreases names@.len() - i,
    {
        assert(all[i as int] == names@[i as int]@);
        if is_pid(names[i].as_str()) {
            let pid: String = names[i].clone();
            return Probe::CodexOwner(CodexOwner { tty, names, next: i + 1, best, pid });
        }
        i = i + 1;
    }
    match best {
        Some(p) => Probe::CodexStat(CodexStat { pid: decimal_of(p) }),
        None => Probe::Done(None),
    }
}

impl CodexProcs {
    /// Take the names in `/proc`, `None` if they cannot be listed.
    pub fn reply(self, names: Option<Vec<String>>) -> (r: Probe)
        ensures
            r@ == after_codex_procs(self.tty@, names_view(names)),
    {
        match names {
            Some(names) => next_codex(self.tty, names, 0, None),
            None => Probe::Done(None),
        }
    }
}

impl CodexOwner {
    /// Take the terminal of the process, `None` if it cannot be read.
    pub fn reply(self, link: Option<String>) -> (r: Probe)
        ensures
            r@ == after_codex_owner(
                self.tty@,
                crate::text::texts(self.names@),
                self.next as int,
                self.best,
                self.pid@,
                text_view(link),
            ),
    {
        let mut best: Option<u64> = self.best;
        if is_tty(&link, &self.tty) {
            let digits: Vec<char> = chars_of(self.pid.as_str());
            match parse_u64(digits.as_slice()) {
                Some(p) => {
                    best = match best {
                        Some(b) => if p > b {
                            Some(p)
                        } else {
                            Some(b)
                        },
                        None => Some(p),
                    };
                },
                None => {},
            }
        }
        assert(best == best_after(self.tty@, self.best, self.pid@, text_view(link)));
        next_codex(self.tty, self.names, self.next, best)
    }
}

impl CodexStat {
    /// Take the text of `/proc/<pid>/stat`, `None` if it cannot be read.
    pub fn reply(self, stat: Option<String>) -> (r: Probe)
        ensures
            r@ == after_codex_stat(text_view(stat)),
    {
        match stat {
            None => Probe::Done(None),
            Some(stat) => match start_ticks_of(stat.as_str()) {
                Some(ticks) => Probe::CodexClock(CodexClock { ticks }),
                None => Probe::Done(None),
            },
        }
    }
}

impl CodexClock {
    /// Take what `sysconf(_SC_CLK_TCK)` returned and the text of `/proc/stat`, `None`
    /// if it cannot be read.
    pub fn reply(self, raw: i64, stat: Option<String>) -> (r: Probe)
        ensures
            r@ == after_codex_clock(self.ticks, raw, text_view(stat)),
    {
        let hz: u64 = ticks_per_second(raw);
        assert(hz == hz_of(raw));
        let boot: Timestamp = match stat {
            None => return Probe::Done(None),
            Some(stat) => match system_boot_time(stat.as_str()) {
                Some(boot) => boot,
                None => return Probe::Done(None),
            },
        };
        if self.ticks % hz > u64::MAX / 1000 {
            return Probe::Abort;
        }
        match process_start(boot, self.ticks, hz) {
            Some(start) => {
                let found: Vec<Candidate> = Vec::new();
                Probe::CodexDay(CodexDay { start, day: 0, found })
            },
            None => Probe::Done(None),
        }
    }
}

/// Go on with the day after `day`, or with the session of the process.
fn go_to_next_day(start: Timestamp, day: usize, found: Vec<Candidate>) -> (r: Probe)
    ensures
        r@ == next_day(start, day as int, found@),
{
    if day < CODEX_DAYS - 1 {
        return Probe::CodexDay(CodexDay { start, day: day + 1, found });
    }
    let mut began: Vec<Timestamp> = Vec::new();
    let mut i: usize = 0;
    while i < found.len()
        invariant
            i <= found@.len(),
            began@ == times(found@).take(i as int),
        decreases found@.len() - i,
    {
        began.push(found[i].time);
        i = i + 1;
        assert(times(found@).take(i as int) == times(found@).take(i - 1).push(
            times(found@)[i - 1],
        ));
    }
    assert(times(found@).take(i as int) == times(found@));
    match find_codex_session(began.as_slice(), start) {
        Some(k) => Probe::CodexTail(CodexTail { day: found[k].day, entry: found[k].entry }),
        None => Probe::Done(None),
    }
}

/// Go on with the first session file from place `from` on.
fn next_file(
    start: Timestamp,
    day: usize,
    found: Vec<Candidate>,
    names: Vec<String>,
    from: usize,
) -> (r: Probe)
    ensures
        r@ == codex_file(
            start,
            day as int,
            found@,
            crate::text::texts(names@),
            from as int,
        ),
{
    let mut i: usize = from;
    let ghost all = crate::text::texts(names@);
    while i < names.len()
        invariant
            all == crate::text::texts(names@),
            codex_file(start, day as int, found@, all, from as int) == codex_file(
                start,
                day as int,
                found@,
                all,
                i as int,
            ),
        decreases names@.len() - i,
    {
        assert(all[i as int] == names@[i as int]@);
        match codex_filename_fields(names[i].as_str()) {
            Rollout::Other => {},
            Rollout::Broken => return Probe::Abort,
            Rollout::At(c) => {
                return Probe::CodexName(
                    CodexName { start, day, found, names, entry: i, fields: tm_of(c) },
                );
            },
        }
        i = i + 1;
    }
    go_to_next_day(start, day, found)
}

impl CodexDay {
    /// The moment whose local date is needed, in seconds since the epoch.
    pub fn unix(&self) -> (r: i64)
        ensures
            r == crate::codex::probe_time(self.start.secs as int, self.day as int),
    {
        probe_unix(self.start.secs, self.day)
    }

    /// Take the local date of that moment, `None` if it has none.
    pub fn reply(self, date: Option<LocalDate>) -> (r: Probe)
        ensures
            r@ == after_codex_day(self.start, self.day as int, self.found@, date),
    {
        if self.start.secs < 0 {
            return Probe::Done(None);
        }
        match date {
            Some(date) => Probe::CodexDir(
                CodexDir {
                    start: self.start,
                    day: self.day,
                    found: self.found,
                    dir: day_dir_of(date),
                },
            ),
            None => if self.day == 0 {
                Probe::Done(None)
            } else {
                go_to_next_day(self.start, self.day, self.found)
            },
        }
    }
}

impl CodexDir {
    /// Take the names of the files of the day, `None` if they cannot be listed.
    pub fn reply(self, names: Option<Vec<String>>) -> (r: Probe)
        ensures
            r@ == after_codex_dir(self.start, self.day as int, self.found@, names_view(names)),
    {
        match names {
            Some(names) => next_file(self.start, self.day, self.found, names, 0),
            None => go_to_next_day(self.start, self.day, self.found),
        }
    }
}

impl CodexName {
    /// Take what `mktime` returned for the date and time in the name.
    pub fn reply(self, unix: i64) -> (r: Probe)
        ensures
            r@ == after_codex_name(
                self.start,
                self.day as int,
                self.found@,
                crate::text::texts(self.names@),
                self.entry as int,
                unix,
            ),
    {
        let mut found: Vec<Candidate> = self.found;
        match mktime_moment_of(unix) {
            Some(time) => {
                found.push(Candidate { time, day: self.day, entry: self.entry });
            },
            None => {},
        }
        if self.entry < self.names.len() {
            next_file(self.start, self.day, found, self.names, self.entry + 1)
        } else {
            go_to_next_day(self.start, self.day, found)
        }
    }
}

impl CodexTail {
    /// Where the bytes that are needed begin in a session file of `size` bytes: they are
    /// its last 8 KB.
    pub fn offset(&self, size: u64) -> (r: u64)
        ensures
            r == crate::transcript::tail_start(size as int, CODEX_TAIL as int),
            size - r == (if size < 8192 {
                size as int
            } else {
                8192
            }),
    {
        tail_offset(size, CODEX_TAIL)
    }

    /// Take the last bytes of the session file, `None` if they cannot be read.
    pub fn reply(self, tail: Option<Vec<u8>>) -> (r: Probe)
        ensures
            r@ == after_codex_scan(
                self.day as int,
                self.entry as int,
                scan_bytes(bytes_view(tail), false),
            ),
    {
        let scan: Option<Scan> = match tail {
            Some(bytes) => Some(last_timestamp_in_file(bytes.as_slice())),
            None => None,
        };
        self.scanned(scan)
    }

    /// Take what the search through the last bytes of the session file came to, `None`
    /// if they cannot be read.
    pub fn scanned(self, scan: Option<Scan>) -> (r: Probe)
        ensures
            r@ == after_codex_scan(self.day as int, self.entry as int, scan),
    {
        match scan {
            Some(Scan::Found(t)) => Probe::Done(Some(t)),
            Some(Scan::Broken) => Probe::Abort,
            _ => Probe::CodexMtime(CodexMtime { day: self.day, entry: self.entry }),
        }
    }
}

impl CodexMtime {
    /// Take the time at which the session file was last written to.
    pub fn reply(self, mtime: Option<Timestamp>) -> (r: Probe)
        ensures
            r@ == ProbeView::Done(mtime),
    {
        Probe::Done(mtime)
    }
}

// ---------------------------------------------------------------------------
// OpenCode
// ---------------------------------------------------------------------------

impl OpenCodeQuery {
    /// Take the newest `time_updated`, in milliseconds since the epoch; `None` if there
    /// is no message, or no database to ask.
    pub fn reply(self, ms: Option<i64>) -> (r: Probe)
        ensures
            r@ == ProbeView::Done(crate::opencode::message_time(ms)),
    {
        Probe::Done(message_time_of(ms))
    }
}

} // verus!
