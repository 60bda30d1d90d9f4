//! Names and texts used by the machine-readable (`--json`) form of a
//! report: statuses by name, timestamps as RFC 3339 strings.

use vstd::prelude::*;
use crate::aggregate::Status;
use crate::timestamp::{Timestamp, rfc3339_text, format_rfc3339};

verus! {

/// The JSON name of a status.
pub open spec fn status_str_spec(s: Status) -> Seq<char> {
    match s {
        Status::Completed => "ok"@,
        Status::Cancelled => "cancelled"@,
        Status::Error => "error"@,
    }
}

/// The JSON name of a status: `ok`, `cancelled` or `error`.
pub fn status_str(s: Status) -> (res: &'static str)
    ensures
        res@ == status_str_spec(s),
{
    match s {
        Status::Completed => "ok",
        Status::Cancelled => "cancelled",
        Status::Error => "error",
    }
}

/// The RFC 3339 text of a recent session's timestamp, when it has one and
/// `time` can write it.
pub open spec fn when_text_spec(when: Option<Timestamp>) -> Option<Seq<char>> {
    match when {
        Some(t) => rfc3339_text(t.unix_nanos, t.offset_seconds),
        None => None,
    }
}

/// The RFC 3339 form of a timestamp, in the offset it was written with;
/// nothing for an absent timestamp or one `time` cannot write.
pub fn when_text(when: Option<Timestamp>) -> (res: Option<String>)
    ensures
        res is Some <==> when_text_spec(when) is Some,
        res matches Some(s) ==> when_text_spec(when) == Some(s@),
{
    match when {
        Some(t) => format_rfc3339(t),
        None => None,
    }
}

} // verus!
