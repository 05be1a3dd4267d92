//! The last activity in a transcript: the newest timestamp among the lines at the
//! end of a `.jsonl` file.

use vstd::prelude::*;

use crate::bytes::has_bytes;
use crate::clock::{civil_to_unix, Timestamp};
use crate::datetime::{read_fields_of, Fields};
use crate::json::{extent_of, value_of, Extent};
use crate::text::{
    chars_of, find_char_in, find_text, has_text, lines_of, same_text, trimmed,
};

verus! {

/// How many bytes at the end of an assistant's transcript are looked at.
pub const CLAUDE_TAIL: u64 = 16384;

/// How many bytes at the end of a Codex session file are looked at.
pub const CODEX_TAIL: u64 = 8192;

/// What a line says of its own time.
#[derive(Debug, Clone, Copy, PartialEq, Eq, Structural)]
pub enum Stamp {
    /// The timestamp cannot be read: one of its parts begins or ends inside a
    /// character, or it names the day before 1970-01-01, which has no number.
    Broken,
    /// The line bears no timestamp.
    Absent,
    /// The line was written at this time.
    At(Timestamp),
}

/// What a search through the lines of a file comes to.
#[derive(Debug, Clone, Copy, PartialEq, Eq, Structural)]
pub enum Scan {
    /// The search ran into a timestamp that cannot be read.
    Broken,
    /// No line that counts bears a timestamp.
    NotFound,
    /// The newest timestamp.
    Found(Timestamp),
}

// ---------------------------------------------------------------------------
// One line
// ---------------------------------------------------------------------------

/// The mark in front of the value of a timestamp.
pub open spec fn stamp_mark() -> Seq<char> {
    "\"timestamp\":\""@
}

/// The value of the first timestamp on a line: what stands between the first mark
/// and the next quote. A second mark ends the search for that quote.
pub open spec fn stamp_text(line: Seq<char>) -> Option<Seq<char>> {
    match crate::text::find(line, stamp_mark()) {
        None => None,
        Some(i) => {
            let rest = line.skip(i + stamp_mark().len());
            let after = match crate::text::find(rest, stamp_mark()) {
                Some(j) => rest.take(j),
                None => rest,
            };
            match crate::text::find_char(after, '"') {
                None => None,
                Some(k) => Some(after.take(k)),
            }
        },
    }
}

/// What a line says of its own time: the UTC date and time `YYYY-MM-DDTHH:MM:SS` at
/// the start of the timestamp's value, in whole seconds.
pub open spec fn stamp_of(line: Seq<char>) -> Stamp {
    match stamp_text(line) {
        None => Stamp::Absent,
        Some(ts) => if crate::bytes::byte_len(ts) < 19 {
            Stamp::Absent
        } else {
            match crate::datetime::read_fields(ts, false) {
                Fields::Broken => Stamp::Broken,
                Fields::Invalid => Stamp::Absent,
                Fields::Read(c) => if c.year < 1970 || c.month > 12 {
                    Stamp::Absent
                } else if crate::clock::civil_days(c.year as int, c.month as int, c.day as int) < 0 {
                    Stamp::Broken
                } else {
                    Stamp::At(
                        Timestamp {
                            secs: crate::clock::civil_seconds(
                                c.year as int,
                                c.month as int,
                                c.day as int,
                                c.hour as int,
                                c.min as int,
                                c.sec as int,
                            ) as i64,
                            nanos: 0,
                        },
                    )
                },
            }
        },
    }
}

proof fn lemma_civil_range(y: int, m: int, d: int)
    requires
        1970 <= y <= 9999,
        0 <= m <= 12,
        0 <= d <= 9999,
    ensures
        -1 <= crate::clock::civil_days(y, m, d) <= 5_000_000,
        y == 1970 && m <= 1 && d == 0 <==> crate::clock::civil_days(y, m, d) < 0,
{
    lemma_years_range(y);
    lemma_months_range(y, m);
    if y > 1970 {
        assert(crate::clock::days_before_year(y) == crate::clock::days_before_year(y - 1)
            + crate::clock::year_days(y - 1));
        lemma_years_range(y - 1);
    }
    if m > 1 {
        lemma_months_range(y, m - 1);
    }
}

proof fn lemma_years_range(y: int)
    requires
        1970 <= y,
    ensures
        0 <= crate::clock::days_before_year(y) <= 366 * (y - 1970),
    decreases y,
{
    if y > 1970 {
        lemma_years_range(y - 1);
    }
}

proof fn lemma_months_range(y: int, m: int)
    requires
        0 <= m,
    ensures
        0 <= crate::clock::days_before_month(y, m) <= 31 * m,
    decreases m,
{
    if m > 1 {
        lemma_months_range(y, m - 1);
    }
}

/// The value of the first timestamp on `line`.
fn stamp_text_of<'a>(line: &'a [char]) -> (r: Option<&'a [char]>)
    ensures
        r is Some <==> stamp_text(line@) is Some,
        r matches Some(t) ==> stamp_text(line@) == Some(t@),
{
    let mark: Vec<char> = chars_of("\"timestamp\":\"");
    proof {
        crate::text::lemma_find(line@, stamp_mark());
    }
    let end: usize = line.len();
    match find_text(line, mark.as_slice()) {
        None => None,
        Some(i) => {
            let rest: &'a [char] = &line[i + mark.len()..end];
            assert(rest@ == line@.skip(i + stamp_mark().len()));
            proof {
                crate::text::lemma_find(rest@, stamp_mark());
            }
            let after: &'a [char] = match find_text(rest, mark.as_slice()) {
                Some(j) => &rest[0..j],
                None => rest,
            };
            proof {
                crate::text::lemma_find_char(after@, '"');
            }
            match find_char_in(after, '"') {
                None => None,
                Some(k) => {
                    let ts: &'a [char] = &after[0..k];
                    assert(ts@ == after@.take(k as int));
                    Some(ts)
                },
            }
        },
    }
}

/// What `line` says of its own time.
pub fn read_stamp(line: &[char]) -> (r: Stamp)
    ensures
        r == stamp_of(line@),
{
    match stamp_text_of(line) {
        None => Stamp::Absent,
        Some(ts) => if !has_bytes(ts, 19) {
            Stamp::Absent
        } else {
            match read_fields_of(ts, false) {
                Fields::Broken => Stamp::Broken,
                Fields::Invalid => Stamp::Absent,
                Fields::Read(c) => {
                    if c.year < 1970 || c.month > 12 {
                        return Stamp::Absent;
                    }
                    proof {
                        lemma_civil_range(c.year as int, c.month as int, c.day as int);
                    }
                    if c.year == 1970 && c.month <= 1 && c.day == 0 {
                        return Stamp::Broken;
                    }
                    match civil_to_unix(
                        c.year as u64,
                        c.month as u64,
                        c.day as u64,
                        c.hour as u64,
                        c.min as u64,
                        c.sec as u64,
                    ) {
                        None => Stamp::Absent,
                        Some(unix) => match Timestamp::from_unix(unix) {
                            None => Stamp::Absent,
                            Some(t) => Stamp::At(t),
                        },
                    }
                },
            }
        },
    }
}

/// Parse the `"timestamp":"YYYY-MM-DDTHH:MM:SS[.mmm]Z"` field of a `.jsonl` line.
/// The fraction of a second is dropped. Handles UTC ISO-8601 only.
///
/// A line whose timestamp cannot be read ([`Stamp::Broken`]) is not for this
/// function; [`read_stamp`] tells such a line.
pub fn parse_timestamp(line: &str) -> (r: Option<Timestamp>)
    requires
        !(stamp_of(line@) is Broken),
    ensures
        r == (match stamp_of(line@) {
            Stamp::At(t) => Some(t),
            _ => None,
        }),
{
    let chars: Vec<char> = chars_of(line);
    match read_stamp(chars.as_slice()) {
        Stamp::At(t) => Some(t),
        _ => None,
    }
}

// ---------------------------------------------------------------------------
// The lines of a file
// ---------------------------------------------------------------------------

/// The type is one of an API turn.
pub open spec fn is_turn_type(kind: Seq<char>) -> bool {
    kind == "user"@ || kind == "assistant"@
}

/// The type is one of the entries that the assistant writes in the background, without
/// a call of the API.
pub open spec fn is_background_type(kind: Seq<char>) -> bool {
    ||| kind == "system"@
    ||| kind == "mode"@
    ||| kind == "last-prompt"@
    ||| kind == "custom-title"@
    ||| kind == "agent-name"@
}

/// The type that an entry shows: that of the object which the line is or begins. A
/// line that was cut off at its start may hold a type, but not for sure its own.
pub open spec fn own_type(line: Seq<char>) -> Option<Seq<char>> {
    let entry = crate::text::trim(line);
    if crate::json::opens_object(entry) {
        crate::json::json_value(entry, "type"@)
    } else {
        None
    }
}

/// The line is an entry from its opening brace to its closing one.
pub open spec fn is_whole(line: Seq<char>) -> bool {
    crate::json::is_object(crate::text::trim(line))
}

/// The line bears the mark of a type of background entries.
pub open spec fn has_background_mark(line: Seq<char>) -> bool {
    ||| crate::text::has(line, "\"type\":\"system\""@)
    ||| crate::text::has(line, "\"type\":\"mode\""@)
    ||| crate::text::has(line, "\"type\":\"last-prompt\""@)
    ||| crate::text::has(line, "\"type\":\"custom-title\""@)
    ||| crate::text::has(line, "\"type\":\"agent-name\""@)
}

/// The line is an API turn: the type that it shows is that of one. A line that is only
/// a part of an entry, and shows no type of its own, is taken for a turn unless it bears
/// the mark of a background entry.
pub open spec fn is_turn(line: Seq<char>) -> bool {
    match own_type(line) {
        Some(kind) => is_turn_type(kind),
        None => !is_whole(line) && !has_background_mark(line),
    }
}

/// The line counts in a search: it mentions a timestamp and, where only turns
/// count, is one.
pub open spec fn counts(line: Seq<char>, turns_only: bool) -> bool {
    crate::text::has(line, "\"timestamp\""@) && (turns_only ==> is_turn(line))
}

/// What a line adds to a search: its time, if it counts.
pub open spec fn stamp_if_counts(line: Seq<char>, turns_only: bool) -> Stamp {
    if counts(line, turns_only) {
        stamp_of(line)
    } else {
        Stamp::Absent
    }
}

/// What each of the lines adds to a search.
pub open spec fn stamps(lines: Seq<Seq<char>>, turns_only: bool) -> Seq<Stamp> {
    Seq::new(lines.len(), |i: int| stamp_if_counts(lines[i], turns_only))
}

/// The lowest stamp that is not absent.
pub open spec fn lowest(stamps: Seq<Stamp>) -> Scan
    decreases stamps.len(),
{
    if stamps.len() == 0 {
        Scan::NotFound
    } else {
        match stamps.last() {
            Stamp::Broken => Scan::Broken,
            Stamp::Absent => lowest(stamps.drop_last()),
            Stamp::At(t) => Scan::Found(t),
        }
    }
}

/// What a search through the lines, from the last one upwards, comes to.
pub open spec fn scan_lines(lines: Seq<Seq<char>>, turns_only: bool) -> Scan {
    lowest(stamps(lines, turns_only))
}

/// What a search through a text comes to.
pub open spec fn scan_text(text: Seq<char>, turns_only: bool) -> Scan {
    scan_lines(crate::text::lines(text), turns_only)
}

/// Whether `line` bears the mark of a type of background entries.
fn bears_background_mark(line: &[char]) -> (r: bool)
    ensures
        r == has_background_mark(line@),
{
    has_text(line, "\"type\":\"system\"") || has_text(line, "\"type\":\"mode\"") || has_text(
        line,
        "\"type\":\"last-prompt\"",
    ) || has_text(line, "\"type\":\"custom-title\"") || has_text(line, "\"type\":\"agent-name\"")
}

/// Whether `line` is an API turn.
fn is_turn_line(line: &[char]) -> (r: bool)
    ensures
        r == is_turn(line@),
{
    let entry: &[char] = trimmed(line);
    let extent: Extent = extent_of(entry);
    if extent != Extent::Other {
        match value_of(entry, "type") {
            Some(kind) => {
                return same_text(kind.as_str(), "user") || same_text(kind.as_str(), "assistant");
            },
            None => {},
        }
    }
    extent != Extent::Whole && !bears_background_mark(line)
}

/// Search `text` for its newest timestamp, from the last line upwards.
fn scan(text: &str, turns_only: bool) -> (r: Scan)
    ensures
        r == scan_text(text@, turns_only),
{
    let chars: Vec<char> = chars_of(text);
    let lines: Vec<&[char]> = lines_of(chars.as_slice());
    let ghost all = crate::text::lines(text@);
    assert(crate::text::slices(lines@) == all);
    let mut i: usize = lines.len();
    let ghost marks = stamps(all, turns_only);
    assert(marks.take(i as int) == marks);
    while i > 0
        invariant
            i <= lines@.len(),
            all == crate::text::lines(text@),
            crate::text::slices(lines@) == all,
            marks == stamps(all, turns_only),
            lowest(marks) == lowest(marks.take(i as int)),
        decreases i,
    {
        i = i - 1;
        let line: &[char] = lines[i];
        assert(all[i as int] == lines@[i as int]@);
        assert(marks.take(i + 1).drop_last() == marks.take(i as int));
        assert(marks.take(i + 1).last() == stamp_if_counts(line@, turns_only));
        if has_text(line, "\"timestamp\"") && (!turns_only || is_turn_line(line)) {
            match read_stamp(line) {
                Stamp::Broken => return Scan::Broken,
                Stamp::Absent => {},
                Stamp::At(t) => return Scan::Found(t),
            }
        }
    }
    Scan::NotFound
}

/// The time of the most recent API turn in the text of a transcript's tail: an entry of
/// type `user` or `assistant`. The entries that are written in the background, and those
/// of any other type, do not count. The first entry may be cut off at its start and lack
/// its type; it counts unless it bears the mark of a background entry.
pub fn last_api_call_in(text: &str) -> (r: Scan)
    ensures
        r == scan_text(text@, true),
{
    scan(text, true)
}

/// The most recent timestamp in the text of a session file's tail.
pub fn last_timestamp_in(text: &str) -> (r: Scan)
    ensures
        r == scan_text(text@, false),
{
    scan(text, false)
}

// ---------------------------------------------------------------------------
// The end of a file
// ---------------------------------------------------------------------------

/// What `String::from_utf8_lossy` makes of bytes.
pub uninterp spec fn utf8_lossy(bytes: Seq<u8>) -> Seq<char>;

/// Calls `String::from_utf8_lossy`. Its result depends on the bytes alone, and bytes
/// that are valid UTF-8 are decoded as they stand. How invalid bytes are replaced is
/// left to the name.
#[verifier::external_body]
fn decode_lossy(bytes: &[u8]) -> (text: String)
    ensures
        text@ == utf8_lossy(bytes@),
        vstd::utf8::valid_utf8(bytes@) ==> text@ == vstd::utf8::decode_utf8(bytes@),
{
    String::from_utf8_lossy(bytes).into_owned()
}

/// Where the last `window` bytes of a file of `size` bytes begin: at its start where
/// the whole file fits the window, and else so that the window is filled.
pub open spec fn tail_start(size: int, window: int) -> int {
    if size > window {
        size - window
    } else {
        0
    }
}

/// The last `window` bytes of a file.
pub open spec fn tail_of(file: Seq<u8>, window: int) -> Seq<u8> {
    file.skip(tail_start(file.len() as int, window))
}

/// Where the last `window` bytes of a file of `size` bytes begin.
pub fn tail_offset(size: u64, window: u64) -> (r: u64)
    ensures
        r == tail_start(size as int, window as int),
        size <= window ==> r == 0,
        size > window ==> size - r == window,
{
    if size > window {
        size - window
    } else {
        0
    }
}

/// The time of the most recent API turn in the last bytes of a transcript.
pub fn last_api_call_time(tail: &[u8]) -> (r: Scan)
    ensures
        r == scan_text(utf8_lossy(tail@), true),
        vstd::utf8::valid_utf8(tail@) ==> r == scan_text(vstd::utf8::decode_utf8(tail@), true),
{
    let text: String = decode_lossy(tail);
    last_api_call_in(text.as_str())
}

/// The most recent timestamp in the last bytes of a session file.
pub fn last_timestamp_in_file(tail: &[u8]) -> (r: Scan)
    ensures
        r == scan_text(utf8_lossy(tail@), false),
        vstd::utf8::valid_utf8(tail@) ==> r == scan_text(vstd::utf8::decode_utf8(tail@), false),
{
    let text: String = decode_lossy(tail);
    last_timestamp_in(text.as_str())
}

// ---------------------------------------------------------------------------
// Laws
// ---------------------------------------------------------------------------

/// Stamp `i` decides a search: it is not absent, and all below it are.
pub open spec fn decides(stamps: Seq<Stamp>, i: int) -> bool {
    &&& 0 <= i < stamps.len()
    &&& !(stamps[i] is Absent)
    &&& forall|j: int| i < j < stamps.len() ==> #[trigger] stamps[j] is Absent
}

proof fn lemma_lowest(stamps: Seq<Stamp>)
    ensures
        lowest(stamps) is NotFound ==> forall|i: int|
            0 <= i < stamps.len() ==> #[trigger] stamps[i] is Absent,
        !(lowest(stamps) is NotFound) ==> exists|i: int| decides(stamps, i),
        forall|i: int| #[trigger]
            decides(stamps, i) ==> lowest(stamps) == (match stamps[i] {
                Stamp::At(t) => Scan::Found(t),
                _ => Scan::Broken,
            }),
    decreases stamps.len(),
{
    if stamps.len() > 0 {
        let last = stamps.len() - 1;
        let init = stamps.drop_last();
        lemma_lowest(init);
        if stamps[last] is Absent {
            assert forall|i: int| 0 <= i < init.len() implies #[trigger] stamps[i] == init[i] by {}
            if exists|i: int| decides(init, i) {
                let i = choose|i: int| decides(init, i);
                assert forall|j: int| i < j < stamps.len() implies #[trigger] stamps[j] is Absent by {
                    if j < last {
                        assert(init[j] is Absent);
                    }
                }
                assert(decides(stamps, i));
            }
            assert forall|i: int| #[trigger] decides(stamps, i) implies lowest(stamps) == (
            match stamps[i] {
                Stamp::At(t) => Scan::Found(t),
                _ => Scan::Broken,
            }) by {
                assert forall|j: int| i < j < init.len() implies #[trigger] init[j] is Absent by {
                    assert(stamps[j] is Absent);
                }
                assert(decides(init, i));
            }
            if lowest(stamps) is NotFound {
                assert forall|i: int| 0 <= i < stamps.len() implies #[trigger] stamps[i]
                    is Absent by {
                    if i < last {
                        assert(init[i] is Absent);
                    }
                }
            }
        } else {
            assert(decides(stamps, last));
            assert forall|i: int| #[trigger] decides(stamps, i) implies i == last by {
                if i < last {
                    assert(stamps[last] is Absent);
                }
            }
        }
    }
}

/// A search finds the timestamp of the lowest line that counts and bears one; it
/// finds nothing exactly if no line does.
pub proof fn law_newest_line_wins(lines: Seq<Seq<char>>, turns_only: bool)
    ensures
        forall|i: int| #[trigger]
            decides(stamps(lines, turns_only), i) ==> scan_lines(lines, turns_only) == (
            match stamp_of(lines[i]) {
                Stamp::At(t) => Scan::Found(t),
                _ => Scan::Broken,
            }),
        scan_lines(lines, turns_only) is NotFound <==> forall|i: int|
            0 <= i < lines.len() ==> #[trigger] stamps(lines, turns_only)[i] is Absent,
        !(scan_lines(lines, turns_only) is NotFound) ==> exists|i: int|
            decides(stamps(lines, turns_only), i),
{
    lemma_lowest(stamps(lines, turns_only));
    if !(scan_lines(lines, turns_only) is NotFound) {
        let i = choose|i: int| decides(stamps(lines, turns_only), i);
        assert(!(stamps(lines, turns_only)[i] is Absent));
    }
}

proof fn lemma_lowest_member(marks: Seq<Stamp>)
    ensures
        lowest(marks) matches Scan::Found(t) ==> exists|i: int|
            0 <= i < marks.len() && #[trigger] marks[i] == Stamp::At(t),
    decreases marks.len(),
{
    if marks.len() > 0 {
        let init = marks.drop_last();
        lemma_lowest_member(init);
        if let Scan::Found(t) = lowest(marks) {
            if marks.last() is Absent {
                let i = choose|i: int| 0 <= i < init.len() && #[trigger] init[i] == Stamp::At(t);
                assert(marks[i] == Stamp::At(t));
            } else {
                assert(marks[marks.len() - 1] == Stamp::At(t));
            }
        }
    }
}

/// A timestamp that is found tells whole seconds.
pub proof fn law_found_time_has_no_fraction(text: Seq<char>, turns_only: bool)
    ensures
        scan_text(text, turns_only) matches Scan::Found(t) ==> t.wf() && t.nanos == 0,
{
    lemma_lowest_member(stamps(crate::text::lines(text), turns_only));
}

proof fn lemma_no_turn(text: Seq<char>, entry: Seq<char>)
    requires
        text.len() == 0 || text.last() == '\n',
        !entry.contains('\n'),
        !is_turn(crate::text::without_cr(entry)),
    ensures
        scan_text(text + entry + seq!['\n'], true) == scan_text(text, true),
{
    crate::text::lemma_lines_push(text, entry);
    let all = crate::text::lines(text).push(crate::text::without_cr(entry));
    assert(stamps(all, true).drop_last() == stamps(crate::text::lines(text), true));
}

/// Background entries never move the time of the last API turn: a transcript with
/// such a line appended is searched to the same end as without it.
pub proof fn law_background_entries_do_not_count(text: Seq<char>, entry: Seq<char>)
    requires
        text.len() == 0 || text.last() == '\n',
        !entry.contains('\n'),
        match own_type(crate::text::without_cr(entry)) {
            Some(kind) => is_background_type(kind),
            None => has_background_mark(crate::text::without_cr(entry)),
        },
    ensures
        scan_text(text + entry + seq!['\n'], true) == scan_text(text, true),
{
    reveal_strlit("user");
    reveal_strlit("assistant");
    reveal_strlit("system");
    reveal_strlit("mode");
    reveal_strlit("last-prompt");
    reveal_strlit("custom-title");
    reveal_strlit("agent-name");
    if let Some(kind) = own_type(crate::text::without_cr(entry)) {
        if is_turn_type(kind) {
            assert(kind[0] == 'u' || kind[1] == 's');
        }
    }
    lemma_no_turn(text, entry);
}

/// Entries of other types never move the time of the last API turn either: a whole entry
/// that is neither of type `user` nor of type `assistant` leaves the search as it was,
/// and so does the beginning of one that shows its type.
pub proof fn law_other_types_do_not_count(text: Seq<char>, entry: Seq<char>)
    requires
        text.len() == 0 || text.last() == '\n',
        !entry.contains('\n'),
        match own_type(crate::text::without_cr(entry)) {
            Some(kind) => kind != "user"@ && kind != "assistant"@,
            None => is_whole(crate::text::without_cr(entry)),
        },
    ensures
        scan_text(text + entry + seq!['\n'], true) == scan_text(text, true),
{
    lemma_no_turn(text, entry);
}

/// An entry without nested objects that begins with its type shows that type, with any
/// blanks around the colon.
pub proof fn law_flat_entry_shows_its_type(
    gap: Seq<char>,
    space: Seq<char>,
    kind: Seq<char>,
    rest: Seq<char>,
)
    requires
        forall|i: int| 0 <= i < gap.len() ==> crate::text::is_white(#[trigger] gap[i]),
        forall|i: int| 0 <= i < space.len() ==> crate::text::is_white(#[trigger] space[i]),
        !kind.contains('"'),
        !kind.contains('{'),
        !kind.contains('}'),
        !rest.contains('{'),
        !rest.contains('}'),
    ensures
        own_type(
            seq!['{'] + crate::json::quoted("type"@) + gap + seq![':'] + space
                + crate::json::quoted(kind) + rest + seq!['}'],
        ) == Some(kind),
{
    reveal_strlit("type");
    let key = crate::json::quoted("type"@);
    let value = crate::json::quoted(kind);
    let line = seq!['{'] + key + gap + seq![':'] + space + value + rest + seq!['}'];
    let body = key + gap + seq![':'] + space + value + rest;
    assert(line == seq!['{'] + body + seq!['}']);
    lemma_no_braces(gap);
    lemma_no_braces(space);
    assert(key == seq!['"', 't', 'y', 'p', 'e', '"']);
    assert forall|c: char| c == '{' || c == '}' implies !#[trigger] body.contains(c) by {
        assert(!key.contains(c));
        assert(!value.contains(c)) by {
            assert forall|i: int| 0 <= i < value.len() implies value[i] != c by {
                if 0 < i < value.len() - 1 {
                    assert(value[i] == kind[i - 1]);
                }
            }
        }
        assert forall|i: int| 0 <= i < body.len() implies body[i] != c by {
            let a = key.len() as int;
            let b = a + gap.len();
            let d = b + 1 + space.len();
            let e = d + value.len();
            if i < a {
                assert(body[i] == key[i]);
            } else if i < b {
                assert(body[i] == gap[i - a]);
            } else if i == b {
                assert(body[i] == ':');
            } else if i < d {
                assert(body[i] == space[i - b - 1]);
            } else if i < e {
                assert(body[i] == value[i - d]);
            } else {
                assert(body[i] == rest[i - e]);
            }
        }
    }
    crate::json::law_flat_object_is_whole(body);
    assert(line.last() == '}');
    assert(crate::text::trim(line) == line);
    let before = seq!['{'];
    let after = rest + seq!['}'];
    assert(line == before + key + gap + seq![':'] + space + value + after);
    reveal_with_fuel(crate::json::nesting, 2);
    assert(crate::json::nesting(before, 1).braces == 1);
    assert(!crate::text::occurs_at(line, key, 0)) by {
        if crate::text::occurs_at(line, key, 0) {
            assert(line.subrange(0, key.len() as int)[0] == key[0]);
        }
    }
    crate::json::law_written_pair_reads_back(before, "type"@, gap, space, kind, after);
}

proof fn lemma_no_braces(blanks: Seq<char>)
    requires
        forall|i: int| 0 <= i < blanks.len() ==> crate::text::is_white(#[trigger] blanks[i]),
    ensures
        !blanks.contains('{'),
        !blanks.contains('}'),
{
}

/// A turn appended to a transcript becomes its last activity.
pub proof fn law_appended_turn_is_found(
    text: Seq<char>,
    entry: Seq<char>,
    t: Timestamp,
    turns_only: bool,
)
    requires
        text.len() == 0 || text.last() == '\n',
        !entry.contains('\n'),
        counts(crate::text::without_cr(entry), turns_only),
        stamp_of(crate::text::without_cr(entry)) == Stamp::At(t),
    ensures
        scan_text(text + entry + seq!['\n'], turns_only) == Scan::Found(t),
{
    crate::text::lemma_lines_push(text, entry);
}

/// A line with a timestamp in the documented form, `"timestamp":"` followed by
/// `YYYY-MM-DDTHH:MM:SS` and anything up to the closing quote, was written at that time.
pub proof fn law_documented_timestamp_is_read(
    before: Seq<char>,
    c: crate::datetime::Civil,
    fraction: Seq<char>,
    after: Seq<char>,
)
    requires
        crate::datetime::is_writable(c),
        1970 <= c.year,
        c.month <= 12,
        1 <= c.day,
        !fraction.contains('"'),
        crate::text::first_at(
            before + stamp_mark() + crate::datetime::written(c, ':') + fraction + seq!['"']
                + after,
            stamp_mark(),
            before.len() as int,
        ),
        !crate::text::occurs_at(seq!['"'] + after, stamp_mark(), 0),
    ensures
        stamp_mark() == "\"timestamp\":\""@,
        stamp_of(
            before + stamp_mark() + crate::datetime::written(c, ':') + fraction + seq!['"']
                + after,
        ) == Stamp::At(
            Timestamp {
                secs: crate::clock::civil_seconds(
                    c.year as int,
                    c.month as int,
                    c.day as int,
                    c.hour as int,
                    c.min as int,
                    c.sec as int,
                ) as i64,
                nanos: 0,
            },
        ),
{
    let mark = stamp_mark();
    reveal_strlit("\"timestamp\":\"");
    let w = crate::datetime::written(c, ':');
    let ts = w + fraction;
    let line = before + mark + w + fraction + seq!['"'] + after;
    crate::datetime::law_written_reads_back(c, ':', fraction, false);
    crate::text::lemma_find(line, mark);
    let rest = line.skip((before.len() + mark.len()) as int);
    assert(rest == ts + seq!['"'] + after);
    lemma_no_quote(c, fraction);
    assert forall|j: int| 0 <= j < ts.len() implies !#[trigger] crate::text::occurs_at(
        rest,
        mark,
        j,
    ) by {
        if crate::text::occurs_at(rest, mark, j) {
            assert(rest.subrange(j, j + mark.len())[0] == mark[0]);
            assert(ts[j] == '"');
        }
    }
    let k = ts.len() as int;
    if crate::text::occurs_at(rest, mark, k) {
        assert((seq!['"'] + after).subrange(0, mark.len() as int) == rest.subrange(
            k,
            k + mark.len(),
        ));
    }
    crate::text::lemma_find(rest, mark);
    let shown = match crate::text::find(rest, mark) {
        Some(j) => rest.take(j),
        None => rest,
    };
    if let Some(j) = crate::text::find(rest, mark) {
        assert(crate::text::occurs_at(rest, mark, j));
        assert(j > k);
    }
    assert(shown[k] == '"');
    assert(shown.take(k) == ts);
    crate::text::lemma_find_char(shown, '"');
    lemma_civil_range(c.year as int, c.month as int, c.day as int);
}

proof fn lemma_no_quote(c: crate::datetime::Civil, fraction: Seq<char>)
    requires
        crate::datetime::is_writable(c),
        !fraction.contains('"'),
    ensures
        !(crate::datetime::written(c, ':') + fraction).contains('"'),
{
    let w = crate::datetime::written(c, ':');
    crate::datetime::lemma_written_chars(c, ':');
    assert forall|i: int| 0 <= i < (w + fraction).len() implies (w + fraction)[i] != '"' by {
        if i < w.len() {
            assert(crate::datetime::is_written_char(w[i], ':'));
        } else {
            assert((w + fraction)[i] == fraction[i - w.len()]);
        }
    }
}

/// The value of a timestamp is what stands between the first `"timestamp":"` of a line
/// and the next quote. Where that quote itself begins a second such mark, and where there
/// is no such quote, there is no value.
pub proof fn law_first_timestamp_is_read(before: Seq<char>, ts: Seq<char>, after: Seq<char>)
    requires
        !ts.contains('"'),
    ensures
        ({
            let mark = "\"timestamp\":\""@;
            let line = before + mark + ts + seq!['"'] + after;
            crate::text::find(line, mark) == Some(before.len() as int) ==> stamp_text(line) == (
            if crate::text::find(ts + seq!['"'] + after, mark) == Some(ts.len() as int) {
                None
            } else {
                Some(ts)
            })
        }),
        crate::text::find(before + "\"timestamp\":\""@ + ts, "\"timestamp\":\""@) == Some(before.len() as int) ==> stamp_text(
            before + "\"timestamp\":\""@ + ts,
        ) is None,
        crate::text::find(before, "\"timestamp\":\""@) is None ==> stamp_text(before) is None,
{
    reveal_strlit("\"timestamp\":\"");
    let mark = stamp_mark();
    let line = before + mark + ts + seq!['"'] + after;
    let n = (before.len() + mark.len()) as int;
    let rest = line.skip(n);
    assert(rest == ts + seq!['"'] + after);
    let k = ts.len() as int;
    crate::text::lemma_find(rest, mark);
    if let Some(j) = crate::text::find(rest, mark) {
        assert(crate::text::occurs_at(rest, mark, j));
        assert(rest.subrange(j, j + mark.len())[0] == '"');
        assert(rest[j] == '"');
        if j < k {
            assert(ts[j] == '"');
        }
        if j == k {
            assert(rest.take(j) == ts);
            crate::text::lemma_find_char(ts, '"');
        } else {
            let shown = rest.take(j);
            assert(shown[k] == '"');
            assert(shown.take(k) == ts);
            crate::text::lemma_find_char(shown, '"');
        }
    } else {
        assert(rest[k] == '"');
        assert(rest.take(k) == ts);
        crate::text::lemma_find_char(rest, '"');
    }
    let open = before + mark + ts;
    assert(open.skip(n) == ts);
    crate::text::lemma_find(ts, mark);
    if let Some(j) = crate::text::find(ts, mark) {
        assert(ts.subrange(j, j + mark.len())[0] == '"');
        assert(ts[j] == '"');
    }
    crate::text::lemma_find_char(ts, '"');
}

/// A line was written at the UTC date and time in its timestamp, in whole seconds, if it
/// has nineteen bytes or more, can be read, and names a year from 1970 on and a month up
/// to December. The day before 1970-01-01 cannot be told, and a text that has to be cut
/// inside a character cannot be read.
pub proof fn law_line_was_written_at_its_timestamp(line: Seq<char>)
    ensures
        stamp_text(line) is None ==> stamp_of(line) is Absent,
        stamp_text(line) matches Some(ts) ==> {
            &&& vstd::utf8::encode_utf8(ts).len() < 19 ==> stamp_of(line) is Absent
            &&& vstd::utf8::encode_utf8(ts).len() >= 19 ==> match crate::datetime::read_fields(
                ts,
                false,
            ) {
                Fields::Broken => stamp_of(line) is Broken,
                Fields::Invalid => stamp_of(line) is Absent,
                Fields::Read(c) => {
                    &&& c.year < 1970 || c.month > 12 ==> stamp_of(line) is Absent
                    &&& c.year == 1970 && c.month <= 1 && c.day == 0 ==> stamp_of(line) is Broken
                    &&& c.year >= 1970 && c.month <= 12 && !(c.year == 1970 && c.month <= 1 && c.day
                        == 0) ==> (stamp_of(line) matches Stamp::At(t) && t.nanos == 0 && t.secs
                        == crate::clock::civil_seconds(
                        c.year as int,
                        c.month as int,
                        c.day as int,
                        c.hour as int,
                        c.min as int,
                        c.sec as int,
                    ))
                },
            }
        },
{
    if let Some(ts) = stamp_text(line) {
        crate::bytes::law_byte_len_is_encoded_len(ts);
        if let Fields::Read(c) = crate::datetime::read_fields(ts, false) {
            crate::datetime::lemma_read_bounds(ts, false);
            if c.year >= 1970 && c.month <= 12 {
                lemma_civil_range(c.year as int, c.month as int, c.day as int);
            }
        }
    }
}

/// An entry that shows its type is a turn exactly if that is `user` or `assistant`. A
/// whole entry without a type is none. Any other line was cut off, and is a turn unless
/// it holds the mark of a background type.
pub proof fn law_type_tells_turn(line: Seq<char>)
    ensures
        ({
            let entry = crate::text::trim(line);
            let opened = entry.len() > 0 && entry[0] == '{' && forall|i: int|
                0 < i < entry.len() ==> (#[trigger] crate::json::nesting(entry, i)).braces > 0;
            let closed = crate::json::nesting(entry, entry.len() as int).braces == 0;
            match crate::json::json_value(entry, "type"@) {
                Some(kind) => opened ==> (is_turn(line) <==> kind == "user"@ || kind
                    == "assistant"@),
                None => opened && closed ==> !is_turn(line),
            }
        }),
        ({
            let entry = crate::text::trim(line);
            let opened = entry.len() > 0 && entry[0] == '{' && forall|i: int|
                0 < i < entry.len() ==> (#[trigger] crate::json::nesting(entry, i)).braces > 0;
            let closed = crate::json::nesting(entry, entry.len() as int).braces == 0;
            !opened || (!closed && crate::json::json_value(entry, "type"@) is None) ==> (is_turn(
                line,
            ) <==> {
                &&& !crate::text::has(line, "\"type\":\"system\""@)
                &&& !crate::text::has(line, "\"type\":\"mode\""@)
                &&& !crate::text::has(line, "\"type\":\"last-prompt\""@)
                &&& !crate::text::has(line, "\"type\":\"custom-title\""@)
                &&& !crate::text::has(line, "\"type\":\"agent-name\""@)
            })
        }),
{
    crate::json::law_object_closes_at_its_end(crate::text::trim(line));
}

/// An object with a top-level `"type"` pair that says `user` or `assistant` is a turn,
/// whatever comes before that pair, at any length, and whatever nested marks it holds;
/// appended to a transcript with a timestamp, it becomes the last activity.
pub proof fn law_turn_is_found_wherever_its_type_stands(
    before: Seq<char>,
    gap: Seq<char>,
    space: Seq<char>,
    kind: Seq<char>,
    after: Seq<char>,
    text: Seq<char>,
)
    requires
        kind == "user"@ || kind == "assistant"@,
        before.len() > 0 && before[0] == '{',
        after.len() > 0 && after.last() == '}',
        !crate::json::nesting(before, before.len() as int).in_string,
        crate::json::nesting(before, before.len() as int).braces == 1,
        crate::json::nesting(before, before.len() as int).brackets == 0,
        forall|i: int| 0 <= i < gap.len() ==> crate::text::is_white(#[trigger] gap[i]),
        forall|i: int| 0 <= i < space.len() ==> crate::text::is_white(#[trigger] space[i]),
        ({
            let line = before + (seq!['"'] + "type"@ + seq!['"']) + gap + seq![':'] + space + (
            seq!['"'] + kind + seq!['"']) + after;
            &&& forall|i: int|
                0 < i < line.len() ==> (#[trigger] crate::json::nesting(line, i)).braces > 0
            &&& forall|j: int|
                0 <= j < before.len() ==> {
                    ||| (#[trigger] crate::json::nesting(line, j)).in_string
                    ||| crate::json::nesting(line, j).braces + crate::json::nesting(line, j).brackets
                        > 1
                    ||| line.subrange(j, j + "type"@.len() + 2) != seq!['"'] + "type"@ + seq!['"']
                    ||| crate::text::trim_start(line.skip(j + "type"@.len() + 2)).len() == 0
                    ||| crate::text::trim_start(line.skip(j + "type"@.len() + 2))[0] != ':'
                }
        }),
        text.len() == 0 || text.last() == '\n',
    ensures
        ({
            let line = before + (seq!['"'] + "type"@ + seq!['"']) + gap + seq![':'] + space + (
            seq!['"'] + kind + seq!['"']) + after;
            &&& is_turn(line)
            &&& stamp_of(line) matches Stamp::At(t) ==> crate::text::has(line, "\"timestamp\""@)
                && !line.contains('\n') ==> scan_text(text + line + seq!['\n'], true)
                == Scan::Found(t)
        }),
{
    let line = before + (seq!['"'] + "type"@ + seq!['"']) + gap + seq![':'] + space + (seq!['"']
        + kind + seq!['"']) + after;
    reveal_strlit("user");
    reveal_strlit("assistant");
    assert(!kind.contains('"'));
    crate::json::law_pair_is_found_wherever_it_stands(before, "type"@, gap, space, kind, after);
    assert(line[0] == '{');
    assert(line.last() == '}');
    let none = Seq::<char>::empty();
    assert(none + line + none == line);
    crate::text::law_trimming_takes_off_blanks(none, line, none);
    law_type_tells_turn(line);
    if let Stamp::At(t) = stamp_of(line) {
        if crate::text::has(line, "\"timestamp\""@) && !line.contains('\n') {
            assert(crate::text::without_cr(line) == line);
            law_appended_turn_is_found(text, line, t, true);
        }
    }
}

/// The lowest line that mentions a timestamp, is a turn where only turns count, and says
/// something of its time decides a search: it finds that time.
pub proof fn law_lowest_telling_line_decides(text: Seq<char>, turns_only: bool, i: int)
    requires
        0 <= i < crate::text::lines(text).len(),
        crate::text::has(crate::text::lines(text)[i], "\"timestamp\""@),
        turns_only ==> is_turn(crate::text::lines(text)[i]),
        !(stamp_of(crate::text::lines(text)[i]) is Absent),
        forall|j: int|
            i < j < crate::text::lines(text).len() ==> {
                ||| !crate::text::has(#[trigger] crate::text::lines(text)[j], "\"timestamp\""@)
                ||| turns_only && !is_turn(crate::text::lines(text)[j])
                ||| stamp_of(crate::text::lines(text)[j]) is Absent
            },
    ensures
        stamp_of(crate::text::lines(text)[i]) matches Stamp::At(t) ==> scan_text(text, turns_only)
            == Scan::Found(t),
        stamp_of(crate::text::lines(text)[i]) is Broken ==> scan_text(text, turns_only) is Broken,
{
    let lines = crate::text::lines(text);
    let marks = stamps(lines, turns_only);
    assert forall|j: int| i < j < marks.len() implies #[trigger] marks[j] is Absent by {
        assert(lines[j] == lines[j]);
    }
    assert(decides(marks, i));
    law_newest_line_wins(lines, turns_only);
}

/// Where no line is a telling one, nothing is found.
pub proof fn law_nothing_told_nothing_found(text: Seq<char>, turns_only: bool)
    requires
        forall|j: int|
            0 <= j < crate::text::lines(text).len() ==> {
                ||| !crate::text::has(#[trigger] crate::text::lines(text)[j], "\"timestamp\""@)
                ||| turns_only && !is_turn(crate::text::lines(text)[j])
                ||| stamp_of(crate::text::lines(text)[j]) is Absent
            },
    ensures
        scan_text(text, turns_only) is NotFound,
{
    let lines = crate::text::lines(text);
    let marks = stamps(lines, turns_only);
    assert forall|j: int| 0 <= j < lines.len() implies #[trigger] marks[j] is Absent by {
        assert(lines[j] == lines[j]);
    }
    law_newest_line_wins(lines, turns_only);
}

/// The tail of a file is its last bytes: all of it where it is no longer than the window,
/// and else as many as the window holds, with nothing behind them.
pub proof fn law_tail_ends_the_file(head: Seq<u8>, last: Seq<u8>, window: int)
    requires
        0 <= window,
    ensures
        last.len() == window ==> tail_of(head + last, window) == last,
        last.len() <= window ==> tail_of(last, window) == last,
{
    assert((head + last).skip(head.len() as int) == last);
    assert(last.skip(0) == last);
}

} // verus!
