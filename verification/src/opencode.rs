//! The messages of OpenCode.

use vstd::prelude::*;

use crate::clock::Timestamp;

verus! {

/// Under the home directory: the database of sessions and messages.
pub const OPENCODE_DB: &'static str = ".local/share/opencode/opencode.db";

/// The time of the newest message, from its `time_updated` in milliseconds since the
/// epoch. No message, and a time that is not positive, tell nothing.
pub open spec fn message_time(ms: Option<i64>) -> Option<Timestamp> {
    match ms {
        Some(ms) => if ms <= 0 {
            None
        } else {
            Some(
                Timestamp {
                    secs: (ms as int / 1000) as i64,
                    nanos: ((ms as int % 1000) * 1_000_000) as u32,
                },
            )
        },
        None => None,
    }
}

/// The time of the newest message, from its `time_updated`.
pub fn message_time_of(ms: Option<i64>) -> (r: Option<Timestamp>)
    ensures
        r == message_time(ms),
        r is Some <==> (ms matches Some(v) && v > 0),
        r matches Some(t) ==> t.wf() && t.since_epoch() == ms->0 * 1_000_000,
{
    match ms {
        None => None,
        Some(ms) => {
            if ms <= 0 {
                return None;
            }
            let secs: u64 = (ms / 1000) as u64;
            let nanos: u32 = ((ms % 1000) as u32) * 1_000_000;
            Timestamp { secs: 0, nanos: 0 }.checked_add(secs, nanos)
        },
    }
}

// ---------------------------------------------------------------------------
// Laws
// ---------------------------------------------------------------------------

/// A message tells a time exactly if it has a positive one, however large, and it is that
/// many milliseconds after the epoch.
pub proof fn law_message_tells_its_time(ms: Option<i64>)
    ensures
        message_time(ms) is Some <==> (ms matches Some(v) && v > 0),
        message_time(ms) matches Some(t) ==> t.nanos < 1_000_000_000 && t.secs * 1_000_000_000
            + t.nanos == ms->0 * 1_000_000,
{
}

/// A later message tells a later time.
pub proof fn law_later_message_is_later(a: i64, b: i64)
    requires
        0 < a < b,
    ensures
        message_time(Some(a)) matches Some(t) && message_time(Some(b)) matches Some(u)
            && t.secs * 1_000_000_000 + t.nanos < u.secs * 1_000_000_000 + u.nanos,
{
}

/// The database stands under the home directory in `.local/share/opencode/opencode.db`.
pub proof fn law_database_has_its_place()
    ensures
        OPENCODE_DB@ == ".local/share/opencode/opencode.db"@,
{
}

} // verus!
