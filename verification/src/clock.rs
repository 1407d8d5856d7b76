use vstd::prelude::*;

use crate::records::{Meeting, Session};

verus! {

/// The instant (milliseconds since the Unix epoch) that an RFC 3339 text names, or `None`
/// when chrono rejects the text.
pub uninterp spec fn spec_rfc3339_millis(text: Seq<char>) -> Option<i64>;

/// The earliest instant an RFC 3339 text can name: the year has four digits and the offset
/// is at most 23:59, so nothing before 0000-01-01T00:00:00+23:59.
pub const EARLIEST_RFC3339_MILLIS: i64 = -62_200_000_000_000;

/// The latest instant an RFC 3339 text can name: nothing after 9999-12-31T23:59:60.999-23:59.
pub const LATEST_RFC3339_MILLIS: i64 = 253_500_000_000_000;

/// `chrono::DateTime::parse_from_rfc3339`, read as milliseconds since the epoch. The result is
/// named by `spec_rfc3339_millis`; the one fact claimed of it is the range above, which
/// follows from chrono's parser reading exactly four year digits and offsets within ±23:59.
#[verifier::external_body]
fn parse_rfc3339_millis(value: &str) -> (r: Option<i64>)
    ensures
        r == spec_rfc3339_millis(value@),
        r matches Some(t) ==> EARLIEST_RFC3339_MILLIS <= t <= LATEST_RFC3339_MILLIS,
{
    chrono::DateTime::parse_from_rfc3339(value).ok().map(|dt| dt.timestamp_millis())
}

/// `chrono::Utc::now`, in milliseconds since the epoch. It reads the system clock, so which instant
/// comes back is not claimed; chrono takes the time since the Unix epoch (and panics on a clock set
/// before it), so the instant it returns is never negative.
#[verifier::external_body]
fn now_millis() -> (r: i64)
    ensures
        0 <= r,
{
    chrono::Utc::now().timestamp_millis()
}

/// `instant` is what the text `value` stands for: the parsed instant, which lies in the range an
/// RFC 3339 text can name, when the text parses; when it does not, the current time was taken,
/// which no contract can name beyond its not being before the epoch.
pub open spec fn resolves(value: Seq<char>, instant: i64) -> bool {
    match spec_rfc3339_millis(value) {
        Some(t) => instant == t && EARLIEST_RFC3339_MILLIS <= t <= LATEST_RFC3339_MILLIS,
        None => 0 <= instant,
    }
}

/// The instant of an RFC 3339 text, or the current time when the text does not parse.
pub fn instant_or_now(value: &str) -> (r: i64)
    ensures
        resolves(value@, r),
{
    match parse_rfc3339_millis(value) {
        Some(t) => t,
        None => now_millis(),
    }
}

/// The current instant, in milliseconds since the epoch, from the system clock: never before the
/// epoch.
pub fn current_instant() -> (r: i64)
    ensures
        0 <= r,
{
    now_millis()
}

/// The instant of an RFC 3339 text, or `None` when it does not parse.
pub fn instant(value: &str) -> (r: Option<i64>)
    ensures
        r == spec_rfc3339_millis(value@),
        r matches Some(t) ==> EARLIEST_RFC3339_MILLIS <= t <= LATEST_RFC3339_MILLIS,
{
    parse_rfc3339_millis(value)
}

pub open spec fn meeting_starts_resolve(meetings: Seq<Meeting>, starts: Seq<i64>) -> bool {
    starts.len() == meetings.len() && forall|i: int|
        0 <= i < meetings.len() ==> resolves(#[trigger] meetings[i].date_start@, starts[i])
}

pub open spec fn meeting_ends_resolve(meetings: Seq<Meeting>, ends: Seq<i64>) -> bool {
    ends.len() == meetings.len() && forall|i: int|
        0 <= i < meetings.len() ==> resolves(#[trigger] meetings[i].date_end@, ends[i])
}

pub open spec fn session_starts_resolve(sessions: Seq<Session>, starts: Seq<i64>) -> bool {
    starts.len() == sessions.len() && forall|i: int|
        0 <= i < sessions.len() ==> resolves(#[trigger] sessions[i].date_start@, starts[i])
}

pub open spec fn session_ends_resolve(sessions: Seq<Session>, ends: Seq<i64>) -> bool {
    ends.len() == sessions.len() && forall|i: int|
        0 <= i < sessions.len() ==> resolves(#[trigger] sessions[i].date_end@, ends[i])
}

pub fn meeting_starts(meetings: &Vec<Meeting>) -> (r: Vec<i64>)
    ensures
        meeting_starts_resolve(meetings@, r@),
{
    let mut r: Vec<i64> = Vec::new();
    let mut i: usize = 0;
    while i < meetings.len()
        invariant
            i <= meetings@.len(),
            r@.len() == i,
            forall|j: int| 0 <= j < i ==> resolves(#[trigger] meetings@[j].date_start@, r@[j]),
        decreases meetings.len() - i,
    {
        r.push(instant_or_now(meetings[i].date_start.as_str()));
        i = i + 1;
    }
    r
}

pub fn meeting_ends(meetings: &Vec<Meeting>) -> (r: Vec<i64>)
    ensures
        meeting_ends_resolve(meetings@, r@),
{
    let mut r: Vec<i64> = Vec::new();
    let mut i: usize = 0;
    while i < meetings.len()
        invariant
            i <= meetings@.len(),
            r@.len() == i,
            forall|j: int| 0 <= j < i ==> resolves(#[trigger] meetings@[j].date_end@, r@[j]),
        decreases meetings.len() - i,
    {
        r.push(instant_or_now(meetings[i].date_end.as_str()));
        i = i + 1;
    }
    r
}

pub fn session_starts(sessions: &Vec<Session>) -> (r: Vec<i64>)
    ensures
        session_starts_resolve(sessions@, r@),
{
    let mut r: Vec<i64> = Vec::new();
    let mut i: usize = 0;
    while i < sessions.len()
        invariant
            i <= sessions@.len(),
            r@.len() == i,
            forall|j: int| 0 <= j < i ==> resolves(#[trigger] sessions@[j].date_start@, r@[j]),
        decreases sessions.len() - i,
    {
        r.push(instant_or_now(sessions[i].date_start.as_str()));
        i = i + 1;
    }
    r
}

pub fn session_ends(sessions: &Vec<Session>) -> (r: Vec<i64>)
    ensures
        session_ends_resolve(sessions@, r@),
{
    let mut r: Vec<i64> = Vec::new();
    let mut i: usize = 0;
    while i < sessions.len()
        invariant
            i <= sessions@.len(),
            r@.len() == i,
            forall|j: int| 0 <= j < i ==> resolves(#[trigger] sessions@[j].date_end@, r@[j]),
        decreases sessions.len() - i,
    {
        r.push(instant_or_now(sessions[i].date_end.as_str()));
        i = i + 1;
    }
    r
}

} // verus!
