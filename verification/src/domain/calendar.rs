use vstd::prelude::*;

use crate::clock::{EARLIEST_RFC3339_MILLIS, LATEST_RFC3339_MILLIS, 
    instant, instant_or_now, meeting_ends, meeting_ends_resolve, meeting_starts,
    meeting_starts_resolve, resolves, spec_rfc3339_millis,
};
use crate::domain::countdown::{
    arrange, countdown_of, next_season_countdown, single_key_vec, single_keys,
    CountdownTarget,
};
use crate::order::{keys_view, stable_order, stable_sort_indices};
use crate::records::{pick_meetings, Meeting, Session};
use crate::text::{ascii_lower, contains, has_substring, to_ascii_lowercase};

verus! {

#[derive(Debug, Clone, Copy, PartialEq, Eq, Structural)]
pub enum RaceTripletSlot {
    Previous,
    Current,
    Upcoming,
}

/// The meeting in focus (the first one not yet over), the one before it, and whether its
/// weekend is on right now.
#[derive(Debug, Clone)]
pub struct RaceTriplet {
    pub previous: Option<Meeting>,
    pub current: Meeting,
    pub upcoming: Meeting,
    pub current_is_weekend: bool,
}

/// Start instant of a meeting (the current time when its date does not parse).
pub fn parse_start(meeting: &Meeting) -> (r: i64)
    ensures
        resolves(meeting.date_start@, r),
{
    instant_or_now(meeting.date_start.as_str())
}

/// End instant of a meeting (the current time when its date does not parse).
pub fn parse_end(meeting: &Meeting) -> (r: i64)
    ensures
        resolves(meeting.date_end@, r),
{
    instant_or_now(meeting.date_end.as_str())
}

pub open spec fn not_cancelled() -> spec_fn(Meeting) -> bool {
    |m: Meeting| !m.is_cancelled
}

/// `k` is the first meeting that ends after `now`.
pub open spec fn first_unfinished(ends: Seq<i64>, now: i64, k: int) -> bool {
    0 <= k < ends.len() && ends[k] > now && forall|j: int| 0 <= j < k ==> ends[j] <= now
}

/// The meeting in focus: the first one not over yet, or the last one when all are over.
pub open spec fn focus_index(ends: Seq<i64>, now: i64) -> int {
    if exists|k: int| first_unfinished(ends, now, k) {
        choose|k: int| first_unfinished(ends, now, k)
    } else {
        ends.len() - 1
    }
}

/// The triplet for the season calendar `cal` (uncancelled meetings), when its meetings start at
/// `starts` and, once sorted by start, end at `ends`.
pub open spec fn triplet_is(
    cal: Seq<Meeting>,
    starts: Seq<i64>,
    ends: Seq<i64>,
    now: i64,
    t: RaceTriplet,
) -> bool {
    let order = stable_order(single_keys(starts), false, cal.len());
    let sorted = arrange(cal, order);
    let k = focus_index(ends, now);
    &&& meeting_starts_resolve(cal, starts)
    &&& meeting_ends_resolve(sorted, ends)
    &&& t.upcoming == sorted[k]
    &&& t.current == sorted[k]
    &&& t.previous == (if k > 0 {
        Some(sorted[k - 1])
    } else {
        None
    })
    &&& t.current_is_weekend == (starts[order[k] as int] <= now && now <= ends[k])
}

/// `t` is the triplet of `meetings` at `now`, for the instants their dates stand for.
pub open spec fn triplet_of(meetings: Seq<Meeting>, now: i64, t: RaceTriplet) -> bool {
    exists|starts: Seq<i64>, ends: Seq<i64>|
        #[trigger] triplet_is(meetings.filter(not_cancelled()), starts, ends, now, t)
}

pub(crate) fn uncancelled_meetings(meetings: &Vec<Meeting>) -> (r: Vec<Meeting>)
    ensures
        r@ == meetings@.filter(not_cancelled()),
{
    let mut r: Vec<Meeting> = Vec::new();
    let mut i: usize = 0;
    while i < meetings.len()
        invariant
            i <= meetings@.len(),
            r@ == meetings@.subrange(0, i as int).filter(not_cancelled()),
        decreases meetings.len() - i,
    {
        proof {
            reveal(Seq::filter);
            assert(meetings@.subrange(0, (i + 1) as int).drop_last() =~= meetings@.subrange(
                0,
                i as int,
            ));
        }
        if !meetings[i].is_cancelled {
            r.push(meetings[i].duplicate());
        }
        i = i + 1;
    }
    assert(meetings@.subrange(0, meetings@.len() as int) =~= meetings@);
    r
}

/// Previous, current and upcoming meeting of the season: uncancelled meetings sorted by start
/// (stable), the first one not over yet (or the last one) in focus. `None` when no meeting is
/// left after dropping the cancelled ones.
pub fn compute_race_triplet(meetings: &Vec<Meeting>, now: i64) -> (r: Option<RaceTriplet>)
    ensures
        r is None <==> meetings@.filter(not_cancelled()).len() == 0,
        r matches Some(t) ==> triplet_of(meetings@, now, t),
{
    let cal = uncancelled_meetings(meetings);
    if cal.len() == 0 {
        return None;
    }
    let starts = meeting_starts(&cal);
    let keys = single_key_vec(&starts);
    let order = stable_sort_indices(&keys, false);
    assert(keys_view(keys@).len() == keys@.len());
    assert(keys@.len() == cal@.len());
    let sorted = pick_meetings(&cal, &order);
    assert(sorted@ =~= arrange(cal@, order@));
    let ends = meeting_ends(&sorted);
    let n = sorted.len();
    let mut k: usize = 0;
    while k < n && ends[k] <= now
        invariant
            n == sorted@.len(),
            ends@.len() == n,
            k <= n,
            forall|j: int| 0 <= j < k ==> ends@[j] <= now,
        decreases n - k,
    {
        k = k + 1;
    }
    let idx = if k < n {
        assert(first_unfinished(ends@, now, k as int));
        assert forall|m: int| first_unfinished(ends@, now, m) implies m == k by {
            if m < k {
            } else if m > k {
                assert(ends@[k as int] > now);
            }
        }
        k
    } else {
        assert(!exists|m: int| first_unfinished(ends@, now, m));
        n - 1
    };
    assert(idx as int == focus_index(ends@, now));
    let previous = if idx > 0 {
        Some(sorted[idx - 1].duplicate())
    } else {
        None
    };
    let start = starts[order[idx]];
    let end = ends[idx];
    let t = RaceTriplet {
        previous,
        current: sorted[idx].duplicate(),
        upcoming: sorted[idx].duplicate(),
        current_is_weekend: start <= now && now <= end,
    };
    assert(triplet_is(cal@, starts@, ends@, now, t));
    Some(t)
}

pub open spec fn weather_meetings(t: RaceTriplet) -> Seq<Meeting> {
    let head = match t.previous {
        Some(p) => seq![p],
        None => seq![],
    };
    if t.upcoming.meeting_key != t.current.meeting_key {
        head.push(t.current).push(t.upcoming)
    } else {
        head.push(t.current)
    }
}

/// The meetings whose weather is shown: the previous one (if any), the current one, and the
/// upcoming one when it differs from the current one.
pub fn meetings_for_weather(triplet: &RaceTriplet) -> (r: Vec<Meeting>)
    ensures
        r@ == weather_meetings(*triplet),
{
    let mut meetings: Vec<Meeting> = Vec::new();
    if let Some(previous) = &triplet.previous {
        meetings.push(previous.duplicate());
    }
    meetings.push(triplet.current.duplicate());
    if triplet.upcoming.meeting_key != triplet.current.meeting_key {
        meetings.push(triplet.upcoming.duplicate());
    }
    assert(meetings@ =~= weather_meetings(*triplet));
    meetings
}

pub open spec fn testing_meeting(m: Meeting) -> bool {
    has_substring(ascii_lower(m.meeting_name@), "test"@) || has_substring(
        ascii_lower(m.meeting_official_name@),
        "test"@,
    )
}

/// Pre-season testing: the name or the official name says "test" (any case).
pub fn is_testing_meeting(meeting: &Meeting) -> (r: bool)
    ensures
        r == testing_meeting(*meeting),
{
    let name = to_ascii_lowercase(meeting.meeting_name.as_str());
    let official = to_ascii_lowercase(meeting.meeting_official_name.as_str());
    contains(name.as_str(), "test") || contains(official.as_str(), "test")
}

/// The session has not been cancelled and its start parses and lies after `now`.
pub open spec fn reminder_eligible(s: Session, now: i64) -> bool {
    !s.is_cancelled && match spec_rfc3339_millis(s.date_start@) {
        Some(t) => t > now,
        None => false,
    }
}

pub open spec fn parsed_start(s: Session) -> i64 {
    spec_rfc3339_millis(s.date_start@)->0
}

/// `i` is the first upcoming session whose start parses, with the earliest start.
pub open spec fn earliest_reminder(sessions: Seq<Session>, now: i64, i: int) -> bool {
    &&& 0 <= i < sessions.len()
    &&& reminder_eligible(sessions[i], now)
    &&& forall|j: int|
        0 <= j < sessions.len() && #[trigger] reminder_eligible(sessions[j], now) ==> parsed_start(
            sessions[i],
        ) <= parsed_start(sessions[j])
    &&& forall|j: int|
        0 <= j < i && #[trigger] reminder_eligible(sessions[j], now) ==> parsed_start(sessions[i])
            < parsed_start(sessions[j])
}

pub open spec fn reminder_is(
    sessions: Seq<Session>,
    now: i64,
    lead_minutes: i64,
    r: Option<(i64, String)>,
) -> bool {
    if exists|i: int| earliest_reminder(sessions, now, i) {
        let i = choose|i: int| earliest_reminder(sessions, now, i);
        r matches Some(p) && p.0 == parsed_start(sessions[i]) - lead_minutes
            * 60_000 && p.1@ == sessions[i].session_name@
    } else {
        r is None
    }
}

/// Bound on the reminder lead time: every session start an RFC 3339 text can name, moved back
/// by the lead, stays inside chrono's range (-262143-01-01 to the end of 262142), where the
/// subtraction does not panic.
pub open spec fn lead_in_range(lead_minutes: i64) -> bool {
    MIN_LEAD_MINUTES <= lead_minutes <= MAX_LEAD_MINUTES
}

/// The earliest reminder lead (a reminder after the session) that `lead_in_range` admits.
pub const MIN_LEAD_MINUTES: i64 = -132_612_781_279;

/// The longest reminder lead that `lead_in_range` admits.
pub const MAX_LEAD_MINUTES: i64 = 137_873_353_813;

/// When to remind of the next session (its start minus `lead_minutes`) and its name. Sessions
/// whose start does not parse are skipped.
pub fn next_session_reminder_at(sessions: &Vec<Session>, now: i64, lead_minutes: i64) -> (r:
    Option<(i64, String)>)
    requires
        lead_in_range(lead_minutes),
    ensures
        reminder_is(sessions@, now, lead_minutes, r),
{
    let mut best: Option<(usize, i64)> = None;
    let mut i: usize = 0;
    while i < sessions.len()
        invariant
            i <= sessions@.len(),
            match best {
                Some(b) => earliest_reminder(sessions@.subrange(0, i as int), now, b.0 as int)
                    && spec_rfc3339_millis(sessions@[b.0 as int].date_start@) == Some(b.1)
                    && b.0 < i && EARLIEST_RFC3339_MILLIS <= b.1 <= LATEST_RFC3339_MILLIS,
                None => forall|j: int|
                    0 <= j < i ==> !reminder_eligible(#[trigger] sessions@[j], now),
            },
        decreases sessions.len() - i,
    {
        let ghost ss = sessions@.subrange(0, (i + 1) as int);
        let ghost prev = sessions@.subrange(0, i as int);
        assert forall|j: int| 0 <= j < i implies ss[j] == prev[j] && ss[j] == sessions@[j] by {}
        assert(ss[i as int] == sessions@[i as int]);
        if !sessions[i].is_cancelled {
            match instant(sessions[i].date_start.as_str()) {
                Some(t) => {
                    if t > now {
                        match best {
                            Some(b) => {
                                if t < b.1 {
                                    best = Some((i, t));
                                }
                            },
                            None => {
                                best = Some((i, t));
                            },
                        }
                    }
                },
                None => {},
            }
        }
        i = i + 1;
    }
    assert(sessions@.subrange(0, sessions@.len() as int) =~= sessions@);
    match best {
        Some(b) => {
            assert forall|k: int| earliest_reminder(sessions@, now, k) implies k == b.0 by {
                if k < b.0 {
                } else if k > b.0 {
                }
            }
            Some((b.1 - lead_minutes * 60_000, sessions[b.0].session_name.clone()))
        },
        None => None,
    }
}

pub open spec fn not_testing() -> spec_fn(Meeting) -> bool {
    |m: Meeting| !testing_meeting(m)
}

pub open spec fn keys_of(meetings: Seq<Meeting>) -> Seq<i64> {
    meetings.map_values(|m: Meeting| m.meeting_key)
}

pub open spec fn in_meetings(keys: Seq<i64>) -> spec_fn(Session) -> bool {
    |s: Session| keys.contains(s.meeting_key)
}

fn drop_testing(meetings: &Vec<Meeting>) -> (r: Vec<Meeting>)
    ensures
        r@ == meetings@.filter(not_testing()),
{
    let mut r: Vec<Meeting> = Vec::new();
    let mut i: usize = 0;
    while i < meetings.len()
        invariant
            i <= meetings@.len(),
            r@ == meetings@.subrange(0, i as int).filter(not_testing()),
        decreases meetings.len() - i,
    {
        proof {
            reveal(Seq::filter);
            assert(meetings@.subrange(0, (i + 1) as int).drop_last() =~= meetings@.subrange(
                0,
                i as int,
            ));
        }
        if !is_testing_meeting(&meetings[i]) {
            r.push(meetings[i].duplicate());
        }
        i = i + 1;
    }
    assert(meetings@.subrange(0, meetings@.len() as int) =~= meetings@);
    r
}

fn has_meeting_key(meetings: &Vec<Meeting>, key: i64) -> (r: bool)
    ensures
        r == keys_of(meetings@).contains(key),
{
    let mut i: usize = 0;
    while i < meetings.len()
        invariant
            i <= meetings@.len(),
            forall|j: int| 0 <= j < i ==> #[trigger] meetings@[j].meeting_key != key,
        decreases meetings.len() - i,
    {
        if meetings[i].meeting_key == key {
            assert(keys_of(meetings@)[i as int] == key);
            return true;
        }
        i = i + 1;
    }
    assert forall|j: int| 0 <= j < keys_of(meetings@).len() implies keys_of(meetings@)[j] != key by {
        assert(meetings@[j].meeting_key != key);
    }
    false
}

fn sessions_of_meetings(sessions: &Vec<Session>, meetings: &Vec<Meeting>) -> (r: Vec<Session>)
    ensures
        r@ == sessions@.filter(in_meetings(keys_of(meetings@))),
{
    let mut r: Vec<Session> = Vec::new();
    let mut i: usize = 0;
    while i < sessions.len()
        invariant
            i <= sessions@.len(),
            r@ == sessions@.subrange(0, i as int).filter(in_meetings(keys_of(meetings@))),
        decreases sessions.len() - i,
    {
        proof {
            reveal(Seq::filter);
            assert(sessions@.subrange(0, (i + 1) as int).drop_last() =~= sessions@.subrange(
                0,
                i as int,
            ));
        }
        if has_meeting_key(meetings, sessions[i].meeting_key) {
            r.push(sessions[i].duplicate());
        }
        i = i + 1;
    }
    assert(sessions@.subrange(0, sessions@.len() as int) =~= sessions@);
    r
}

/// Applies the "include testing" preference (dropping testing meetings and their sessions) and
/// computes the triplet and countdown of what is left.
pub fn apply_calendar_preferences(
    meetings: &mut Vec<Meeting>,
    sessions: &mut Vec<Session>,
    include_testing: bool,
    now: i64,
) -> (r: Option<(RaceTriplet, CountdownTarget)>)
    ensures
        include_testing ==> final(meetings)@ == old(meetings)@ && final(sessions)@ == old(
            sessions,
        )@,
        !include_testing ==> final(meetings)@ == old(meetings)@.filter(not_testing())
            && final(sessions)@ == old(sessions)@.filter(
            in_meetings(keys_of(old(meetings)@.filter(not_testing()))),
        ),
        r is None <==> final(meetings)@.filter(not_cancelled()).len() == 0,
        r matches Some(p) ==> triplet_of(final(meetings)@, now, p.0),
        r matches Some(p) ==> countdown_of(final(meetings)@, final(sessions)@, now, p.1),
{
    if !include_testing {
        let kept = drop_testing(meetings);
        let kept_sessions = sessions_of_meetings(sessions, &kept);
        *meetings = kept;
        *sessions = kept_sessions;
    }
    let triplet = match compute_race_triplet(meetings, now) {
        Some(t) => t,
        None => return None,
    };
    let countdown = next_season_countdown(meetings, sessions, now);
    Some((triplet, countdown))
}

} // verus!
