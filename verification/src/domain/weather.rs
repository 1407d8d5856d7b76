use vstd::prelude::*;

use crate::clock::{instant_or_now, resolves, session_ends, session_ends_resolve};
use crate::records::{Meeting, Session};
use crate::text::{append_text, new_text};

verus! {

/// What the choice of a track weather sample reads of it: its session and its RFC 3339 date.
#[derive(Debug, Clone, PartialEq, Eq)]
pub struct WeatherStamp {
    pub session_key: i64,
    pub date: String,
}

pub open spec fn location_text(m: Meeting) -> Seq<char> {
    m.location@ + ", "@ + m.country_name@
}

/// The place to look the forecast up by: `location, country`.
pub fn location_query(meeting: &Meeting) -> (r: String)
    ensures
        r@ == location_text(*meeting),
{
    let mut r = new_text(meeting.location.as_str());
    append_text(&mut r, ", ");
    append_text(&mut r, meeting.country_name.as_str());
    r
}

/// Session `i` belongs to the meeting, was not cancelled and had ended by `now`.
pub open spec fn completed_at(sessions: Seq<Session>, ends: Seq<i64>, meeting_key: i64, now: i64, i: int) -> bool {
    0 <= i < sessions.len() && sessions[i].meeting_key == meeting_key && !sessions[i].is_cancelled
        && ends[i] <= now
}

/// Session `i` is the completed session that ended last; of several that ended at the same
/// instant, the one listed last.
pub open spec fn latest_completed(sessions: Seq<Session>, ends: Seq<i64>, meeting_key: i64, now: i64, i: int) -> bool {
    completed_at(sessions, ends, meeting_key, now, i) && forall|j: int|
        #![trigger completed_at(sessions, ends, meeting_key, now, j)]
        completed_at(sessions, ends, meeting_key, now, j) ==> (ends[j] < ends[i] || (ends[j]
            == ends[i] && j <= i))
}

/// The index of the completed session that ended last, by the given end instants.
pub fn latest_completed_index(sessions: &Vec<Session>, ends: &Vec<i64>, meeting_key: i64, now: i64) -> (r:
    Option<usize>)
    requires
        ends@.len() == sessions@.len(),
    ensures
        match r {
            Some(i) => latest_completed(sessions@, ends@, meeting_key, now, i as int),
            None => forall|j: int| !completed_at(sessions@, ends@, meeting_key, now, j),
        },
{
    let mut best: Option<usize> = None;
    let mut i: usize = 0;
    while i < sessions.len()
        invariant
            ends@.len() == sessions@.len(),
            i <= sessions@.len(),
            match best {
                Some(b) => b < i && completed_at(sessions@, ends@, meeting_key, now, b as int)
                    && forall|j: int|
                    #![trigger completed_at(sessions@, ends@, meeting_key, now, j)]
                    0 <= j < i && completed_at(sessions@, ends@, meeting_key, now, j) ==> (ends@[j]
                        < ends@[b as int] || (ends@[j] == ends@[b as int] && j <= b)),
                None => forall|j: int|
                    0 <= j < i ==> !completed_at(sessions@, ends@, meeting_key, now, j),
            },
        decreases sessions.len() - i,
    {
        let s = &sessions[i];
        if s.meeting_key == meeting_key && !s.is_cancelled && ends[i] <= now {
            match best {
                Some(b) => {
                    if ends[i] >= ends[b] {
                        best = Some(i);
                    }
                },
                None => {
                    best = Some(i);
                },
            }
        }
        i = i + 1;
    }
    best
}

/// The end instants resolve the session dates and `r` is the session they make the latest
/// completed one.
pub open spec fn latest_completed_is(
    sessions: Seq<Session>,
    meeting_key: i64,
    now: i64,
    r: Option<Session>,
) -> bool {
    exists|ends: Seq<i64>|
        #[trigger] session_ends_resolve(sessions, ends) && match r {
            Some(s) => exists|i: int|
                latest_completed(sessions, ends, meeting_key, now, i) && sessions[i] == s,
            None => forall|j: int| !completed_at(sessions, ends, meeting_key, now, j),
        }
}

pub open spec fn deref_session(r: Option<&Session>) -> Option<Session> {
    match r {
        Some(s) => Some(*s),
        None => None,
    }
}

/// The session of the meeting that ended last by `now`, cancelled ones aside. A session whose
/// end date does not parse counts as ending at the moment it is read.
pub fn most_recent_completed_session<'a>(sessions: &'a Vec<Session>, meeting_key: i64, now: i64) -> (r:
    Option<&'a Session>)
    ensures
        latest_completed_is(sessions@, meeting_key, now, deref_session(r)),
{
    let ends = session_ends(sessions);
    match latest_completed_index(sessions, &ends, meeting_key, now) {
        Some(i) => {
            let r = Some(&sessions[i]);
            assert(session_ends_resolve(sessions@, ends@));
            r
        },
        None => {
            assert(session_ends_resolve(sessions@, ends@));
            None
        },
    }
}

/// Sample `i` was taken in the session and has the latest date; of several with that date,
/// the one listed last.
pub open spec fn of_session(samples: Seq<WeatherStamp>, session_key: i64, i: int) -> bool {
    0 <= i < samples.len() && samples[i].session_key == session_key
}

pub open spec fn latest_sample(samples: Seq<WeatherStamp>, dates: Seq<i64>, session_key: i64, i: int) -> bool {
    of_session(samples, session_key, i) && forall|j: int|
        #![trigger of_session(samples, session_key, j)]
        of_session(samples, session_key, j) ==> (dates[j] < dates[i] || (dates[j] == dates[i] && j
            <= i))
}

/// `dates` are instants that the sample dates stand for.
pub open spec fn sample_dates_resolve(samples: Seq<WeatherStamp>, dates: Seq<i64>) -> bool {
    dates.len() == samples.len() && forall|k: int|
        0 <= k < samples.len() ==> resolves(#[trigger] samples[k].date@, dates[k])
}

pub open spec fn latest_sample_is(samples: Seq<WeatherStamp>, session_key: i64, r: Option<usize>) -> bool {
    exists|dates: Seq<i64>|
        #[trigger] sample_dates_resolve(samples, dates) && match r {
            Some(i) => latest_sample(samples, dates, session_key, i as int),
            None => forall|j: int| !of_session(samples, session_key, j),
        }
}

/// The newest weather sample of a session (by its date; a date that does not parse counts as
/// the moment it is read), as an index into `samples`.
pub fn latest_weather_sample(session_key: i64, samples: &Vec<WeatherStamp>) -> (r: Option<usize>)
    ensures
        latest_sample_is(samples@, session_key, r),
{
    let mut dates: Vec<i64> = Vec::new();
    let mut best: Option<usize> = None;
    let mut i: usize = 0;
    while i < samples.len()
        invariant
            i <= samples@.len(),
            dates@.len() == i,
            forall|k: int| 0 <= k < i ==> resolves(#[trigger] samples@[k].date@, dates@[k]),
            match best {
                Some(b) => b < i && of_session(samples@, session_key, b as int) && forall|j: int|
                    #![trigger of_session(samples@, session_key, j)]
                    0 <= j < i && of_session(samples@, session_key, j) ==> (dates@[j]
                        < dates@[b as int] || (dates@[j] == dates@[b as int] && j <= b)),
                None => forall|j: int| 0 <= j < i ==> !of_session(samples@, session_key, j),
            },
        decreases samples.len() - i,
    {
        let d = instant_or_now(samples[i].date.as_str());
        dates.push(d);
        if samples[i].session_key == session_key {
            match best {
                Some(b) => {
                    if d >= dates[b] {
                        best = Some(i);
                    }
                },
                None => {
                    best = Some(i);
                },
            }
        }
        i = i + 1;
    }
    assert(sample_dates_resolve(samples@, dates@));
    best
}

} // verus!
