//! Wall-clock time.

use crate::text;
use vstd::prelude::*;

verus! {

/// A text has the form in which UTC times are written: a date and a time with a
/// `T` between them, and the offset at the end.
pub open spec fn is_utc_text(s: Seq<char>) -> bool {
    s.contains('T') && text::finishes_with(s, "+00:00"@)
}

/// `chrono::Utc::now` rendered by `to_rfc3339`. The time is whatever the
/// machine's clock says; only the form of its text is claimed.
#[verifier::external_body]
pub(crate) fn now_rfc3339() -> (r: String)
    ensures
        is_utc_text(r@),
{
    chrono::Utc::now().to_rfc3339()
}

/// A point in time: seconds since the epoch, and nanoseconds beside them. A
/// leap second has a billion nanoseconds or more.
#[derive(Debug, Clone, Copy, PartialEq, Eq, Structural)]
pub struct Instant {
    pub secs: i64,
    pub nanos: u32,
}

/// The point in time that an RFC 3339 text stands for.
pub uninterp spec fn rfc3339_instant(text: Seq<char>) -> Option<Instant>;

/// `chrono::DateTime::parse_from_rfc3339`. The result is a function of the
/// text, named [`rfc3339_instant`]; there is none where `chrono` reports an error.
#[verifier::external_body]
pub(crate) fn parse_rfc3339(s: &str) -> (r: Option<Instant>)
    ensures
        r == rfc3339_instant(s@),
{
    chrono::DateTime::parse_from_rfc3339(s).ok().map(|t| Instant {
        secs: t.timestamp(),
        nanos: t.timestamp_subsec_nanos(),
    })
}

/// `chrono::Utc::now` as a point in time. It is whatever the machine's clock
/// says, so nothing is claimed of it.
#[verifier::external_body]
pub(crate) fn now() -> (r: Instant) {
    let t = chrono::Utc::now();
    Instant { secs: t.timestamp(), nanos: t.timestamp_subsec_nanos() }
}

} // verus!
