//! Moments in time, read from text and from the clock.
use chrono::{NaiveDateTime, Utc};
use vstd::prelude::*;

use crate::types::Timestamp;

verus! {

/// What `NaiveDateTime::parse_from_str` makes of `text` under `format`: the moment, or the
/// debug representation of the error.
pub uninterp spec fn naive_datetime(text: Seq<char>, format: Seq<char>) -> Result<Timestamp, Seq<char>>;

/// Calls `NaiveDateTime::parse_from_str`. Trusted: what comes out depends on the text and the
/// format alone. The moment is handed out as seconds since the epoch and nanoseconds, the
/// error as it shows itself under `{:?}`.
#[verifier::external_body]
pub(crate) fn parse_datetime(text: &str, format: &str) -> (parsed: Result<Timestamp, String>)
    ensures
        naive_datetime(text@, format@) == (match parsed {
            Ok(moment) => Ok::<Timestamp, Seq<char>>(moment),
            Err(detail) => Err(detail@),
        }),
{
    NaiveDateTime::parse_from_str(text, format)
        .map(|moment| moment.and_utc())
        .map(|moment| Timestamp { seconds: moment.timestamp(), nanoseconds: moment.timestamp_subsec_nanos() })
        .map_err(|err| format!("{:?}", err))
}

/// Calls `Utc::now`. Nothing is promised of the moment: it is whatever the clock says.
#[verifier::external_body]
pub(crate) fn now() -> (moment: Timestamp) {
    let moment = Utc::now();
    Timestamp { seconds: moment.timestamp(), nanoseconds: moment.timestamp_subsec_nanos() }
}

} // verus!
