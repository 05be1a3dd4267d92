//! The files of the assistant: session records and the names of project directories.

use vstd::prelude::*;

use crate::names::stem;
use crate::number::is_all_digits;
use crate::text::{chars_of, string_of};

verus! {

/// Under the assistant's hidden directory: one record per running session, `<pid>.json`.
pub const RECORDS: &'static str = "sessions";

/// Under the assistant's hidden directory: one directory of transcripts per project.
pub const PROJECTS: &'static str = "projects";

// ---------------------------------------------------------------------------
// Project directories
// ---------------------------------------------------------------------------

/// The character that stands for `c` in the name of a project directory.
pub open spec fn munge_char(c: char) -> char {
    if c == '/' || c == '.' {
        '-'
    } else {
        c
    }
}

/// The name of the project directory for a working directory.
pub open spec fn munge(cwd: Seq<char>) -> Seq<char> {
    Seq::new(cwd.len(), |i: int| munge_char(cwd[i]))
}

/// The assistant names a project directory by replacing `/` and `.` in the working
/// directory with `-`.
pub fn munge_path(cwd: &str) -> (r: String)
    ensures
        r@ == munge(cwd@),
        r@.len() == cwd@.len(),
        forall|i: int|
            0 <= i < cwd@.len() ==> #[trigger] r@[i] == (if cwd@[i] == '/' || cwd@[i] == '.' {
                '-'
            } else {
                cwd@[i]
            }),
{
    let chars: Vec<char> = chars_of(cwd);
    let mut out: String = String::new();
    let mut i: usize = 0;
    while i < chars.len()
        invariant
            i <= chars@.len(),
            chars@ == cwd@,
            out@ == munge(cwd@).take(i as int),
        decreases chars@.len() - i,
    {
        let c: char = chars[i];
        if c == '/' || c == '.' {
            out.push('-');
        } else {
            out.push(c);
        }
        i = i + 1;
        assert(munge(cwd@).take(i as int) == munge(cwd@).take(i - 1).push(munge(cwd@)[i - 1]));
    }
    assert(munge(cwd@).take(i as int) == munge(cwd@));
    out
}

// ---------------------------------------------------------------------------
// Session records
// ---------------------------------------------------------------------------

/// The process that a session record belongs to: the record is named by its number.
pub open spec fn session_pid(name: Seq<char>) -> Option<Seq<char>> {
    match crate::names::stem_of(name, "json"@) {
        Some(pid) => if crate::number::all_digits(pid) {
            Some(pid)
        } else {
            None
        },
        None => None,
    }
}

/// The process that the session record `name` belongs to.
pub fn session_pid_of(name: &str) -> (r: Option<String>)
    ensures
        r is Some <==> session_pid(name@) is Some,
        r matches Some(pid) ==> session_pid(name@) == Some(pid@),
{
    let chars: Vec<char> = chars_of(name);
    match stem(chars.as_slice(), "json") {
        None => None,
        Some(pid) => if is_all_digits(pid) {
            Some(string_of(pid))
        } else {
            None
        },
    }
}

// ---------------------------------------------------------------------------
// Laws
// ---------------------------------------------------------------------------

/// A project directory is a single path component that keeps every other character
/// of the working directory in its place, and munging it again changes nothing.
pub proof fn law_munge_makes_one_component(cwd: Seq<char>)
    ensures
        munge(cwd).len() == cwd.len(),
        !munge(cwd).contains('/'),
        !munge(cwd).contains('.'),
        forall|i: int|
            0 <= i < cwd.len() && #[trigger] cwd[i] != '/' && cwd[i] != '.' ==> munge(cwd)[i]
                == cwd[i],
        munge(munge(cwd)) == munge(cwd),
{
}

/// The records that count are `<pid>.json` with a number for `<pid>`.
pub proof fn law_records_are_named_by_pid(pid: Seq<char>, name: Seq<char>)
    requires
        pid.len() > 0,
        crate::number::all_digits(pid),
    ensures
        session_pid(name) == Some(pid) <==> name == pid + ".json"@,
{
    reveal_strlit("json");
    reveal_strlit(".json");
    crate::names::law_stem_and_extension(pid, "json"@, name);
    assert(pid + ".json"@ == pid + seq!['.'] + "json"@);
}

/// Every `/` and every `.` of the working directory becomes a `-`, wherever it stands,
/// and every other character stays as it is.
pub proof fn law_slashes_and_dots_become_dashes(cwd: Seq<char>)
    ensures
        munge(cwd).len() == cwd.len(),
        forall|i: int|
            0 <= i < cwd.len() && (#[trigger] cwd[i] == '/' || cwd[i] == '.') ==> munge(cwd)[i]
                == '-',
        forall|i: int|
            0 <= i < cwd.len() && #[trigger] cwd[i] != '/' && cwd[i] != '.' ==> munge(cwd)[i]
                == cwd[i],
{
}

/// The project directory of a path is made of those of its parts.
pub proof fn law_parts_are_munged_alone(a: Seq<char>, b: Seq<char>)
    ensures
        munge(a + b) == munge(a) + munge(b),
        munge(seq!['/']) == seq!['-'],
        munge(seq!['.']) == seq!['-'],
{
    assert(munge(a + b) =~= munge(a) + munge(b));
}

/// A record belongs to a process exactly if its name is a number, `.json` and nothing
/// else: no other name gives one, and what it gives is that number.
pub proof fn law_only_numbers_name_records(name: Seq<char>)
    ensures
        session_pid(name) matches Some(pid) ==> {
            &&& pid.len() > 0
            &&& forall|i: int| 0 <= i < pid.len() ==> '0' <= #[trigger] pid[i] <= '9'
            &&& name == pid + ".json"@
        },
        forall|pid: Seq<char>|
            pid.len() > 0 && (forall|i: int| 0 <= i < pid.len() ==> '0' <= #[trigger] pid[i] <= '9')
                && name == #[trigger] (pid + ".json"@) ==> session_pid(name) == Some(pid),
{
    reveal_strlit("json");
    reveal_strlit(".json");
    crate::names::law_stem_is_not_empty(name, "json"@);
    if let Some(pid) = session_pid(name) {
        crate::number::law_digits_are_zero_to_nine(pid);
        assert(pid + ".json"@ == pid + seq!['.'] + "json"@);
    }
    assert forall|pid: Seq<char>|
        pid.len() > 0 && (forall|i: int| 0 <= i < pid.len() ==> '0' <= #[trigger] pid[i] <= '9')
            && name == #[trigger] (pid + ".json"@) implies session_pid(name) == Some(pid) by {
        crate::number::law_digits_are_zero_to_nine(pid);
        law_records_are_named_by_pid(pid, name);
    }
}

/// The records and the projects stand in directories of these names.
pub proof fn law_records_and_projects_have_their_places()
    ensures
        RECORDS@ == "sessions"@,
        PROJECTS@ == "projects"@,
{
}

} // verus!
