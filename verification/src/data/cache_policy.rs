use vstd::prelude::*;

use crate::clock::resolves;
use crate::data::championship::{has_session, round_views, RoundView};
use crate::domain::calendar::{compute_race_triplet, not_cancelled, triplet_of, RaceTriplet};
use crate::domain::championship::{
    completed_race_sessions, completed_races_are, ChampionshipRoundSnapshot,
};
use crate::domain::countdown::{countdown_of, next_season_countdown, CountdownTarget};
use crate::domain::grid::{find_gp_qualifying, first_gp_qualifying, is_gp_qualifying, quali_has_ended, GridSlot};
use crate::records::{Meeting, Session};

verus! {

/// When a cached payload was fetched (milliseconds since the epoch) and how long it stays good.
#[derive(Debug, Clone, Copy, PartialEq, Eq, Structural)]
pub struct CacheEntry {
    pub fetched_at: i64,
    pub ttl_secs: i64,
}

/// Whole seconds in a span of milliseconds, rounded toward zero.
pub open spec fn whole_seconds(ms: int) -> int {
    if ms >= 0 {
        ms / 1000
    } else {
        -((-ms) / 1000)
    }
}

/// The entry is older than its time to live at `now`.
pub open spec fn expired(e: CacheEntry, now: i64) -> bool {
    whole_seconds(now - e.fetched_at) > e.ttl_secs
}

impl CacheEntry {
    pub fn is_expired(&self, now: i64) -> (r: bool)
        ensures
            r == expired(*self, now),
    {
        let span: i128 = now as i128 - self.fetched_at as i128;
        let secs: i128 = if span >= 0 {
            span / 1000
        } else {
            -((-span) / 1000)
        };
        secs > self.ttl_secs as i128
    }
}

pub fn cache_is_fresh(entry: &CacheEntry, now: i64) -> (r: bool)
    ensures
        r == !expired(*entry, now),
{
    !entry.is_expired(now)
}

/// The championship as fetched for a season: its rounds and when they were fetched.
pub struct ChampionshipData {
    pub season: i32,
    pub rounds: Vec<ChampionshipRoundSnapshot>,
    pub fetched_at: i64,
}

/// The season's calendar with what is worked out from it.
pub struct CalendarData {
    pub season: i32,
    pub meetings: Vec<Meeting>,
    pub sessions: Vec<Session>,
    pub triplet: RaceTriplet,
    pub countdown: CountdownTarget,
    pub fetched_at: i64,
}

/// The pinned drivers' slots on a meeting's qualifying grid.
pub struct QualiGridData {
    pub meeting_key: i64,
    pub slots: Vec<GridSlot>,
    pub fetched_at: i64,
}

/// Why a cached calendar cannot be used.
#[derive(Debug, Clone, Copy, PartialEq, Eq, Structural)]
pub enum CacheError {
    EmptySeason,
}

impl CacheError {
    pub fn message(&self) -> (r: &'static str)
        ensures
            r@ == "empty season calendar"@,
    {
        "empty season calendar"
    }
}

/// The calendar read back from the cache: the triplet and the countdown are worked out anew
/// at `now`; an error when no meeting is left once cancelled ones are set aside.
pub fn calendar_from_cache(
    season: i32,
    meetings: Vec<Meeting>,
    sessions: Vec<Session>,
    fetched_at: i64,
    now: i64,
) -> (r: Result<CalendarData, CacheError>)
    ensures
        r is Err <==> meetings@.filter(not_cancelled()).len() == 0,
        r matches Err(e) ==> e == CacheError::EmptySeason,
        r matches Ok(d) ==> {
            &&& d.season == season
            &&& d.meetings@ == meetings@
            &&& d.sessions@ == sessions@
            &&& d.fetched_at == fetched_at
            &&& triplet_of(meetings@, now, d.triplet)
            &&& countdown_of(meetings@, sessions@, now, d.countdown)
        },
{
    let triplet = match compute_race_triplet(&meetings, now) {
        Some(t) => t,
        None => return Err(CacheError::EmptySeason),
    };
    let countdown = next_season_countdown(&meetings, &sessions, now);
    Ok(CalendarData { season, meetings, sessions, triplet, countdown, fetched_at })
}

// ---------------------------------------------------------------------------------------------
// When to fetch again
/// The championship must be fetched again when a completed race has no cached round, or a
/// cached round has no race results.
pub open spec fn rounds_stale(completed: Seq<(u32, Session)>, cached: Option<Seq<RoundView>>) -> bool {
    (exists|k: int| 0 <= k < completed.len() && !covered(cached, #[trigger] completed[k].1.session_key))
        || some_round_empty(cached)
}

/// The cached rounds hold the session.
pub open spec fn covered(cached: Option<Seq<RoundView>>, key: i64) -> bool {
    match cached {
        Some(rs) => has_session(rs, key),
        None => false,
    }
}

pub open spec fn empty_results(r: RoundView) -> bool {
    r.5.len() == 0
}

/// A cached round has no race results.
pub open spec fn some_round_empty(cached: Option<Seq<RoundView>>) -> bool {
    cached is Some && exists|k: int| 0 <= k < cached->0.len() && empty_results(#[trigger] cached->0[k])
}

proof fn lemma_some_round_empty(views: Seq<RoundView>, j: int)
    requires
        0 <= j < views.len(),
        views[j].5.len() == 0,
    ensures
        some_round_empty(Some(views)),
{
    assert(empty_results(views[j]));
    assert(exists|k: int| 0 <= k < views.len() && empty_results(#[trigger] views[k]));
    let c: Option<Seq<RoundView>> = Some(views);
    assert(c->0 == views);
    assert(c is Some);
}

pub open spec fn cached_views(cached: Option<&ChampionshipData>) -> Option<Seq<RoundView>> {
    match cached {
        Some(d) => Some(round_views(d.rounds@)),
        None => None,
    }
}

/// See `rounds_stale`, for a given list of completed races.
pub fn rounds_need_refresh(completed: &Vec<(u32, Session)>, cached: Option<&ChampionshipData>) -> (r:
    bool)
    ensures
        r == rounds_stale(completed@, cached_views(cached)),
{
    let ghost cv = cached_views(cached);
    let mut k: usize = 0;
    while k < completed.len()
        invariant
            cv == cached_views(cached),
            k <= completed@.len(),
            forall|j: int| 0 <= j < k ==> covered(cv, #[trigger] completed@[j].1.session_key),
        decreases completed.len() - k,
    {
        let key = completed[k].1.session_key;
        let mut found = false;
        match cached {
            Some(data) => {
                let ghost views = round_views(data.rounds@);
                let mut j: usize = 0;
                while j < data.rounds.len()
                    invariant
                        views == round_views(data.rounds@),
                        j <= data.rounds@.len(),
                        found == exists|x: int| 0 <= x < j && views[x].1 == key,
                    decreases data.rounds.len() - j,
                {
                    assert(views[j as int] == crate::data::championship::round_view(
                        data.rounds@[j as int],
                    ));
                    if data.rounds[j].session_key == key {
                        found = true;
                    }
                    j = j + 1;
                }
            },
            None => {},
        }
        if !found {
            assert(!covered(cv, completed@[k as int].1.session_key));
            return true;
        }
        k = k + 1;
    }
    match cached {
        Some(data) => {
            let ghost views = round_views(data.rounds@);
            let mut j: usize = 0;
            assert(cv == Some(views));
            while j < data.rounds.len()
                invariant
                    cv == Some(views),
                    cv == cached_views(cached),
                    views == round_views(data.rounds@),
                    j <= data.rounds@.len(),
                    forall|x: int| 0 <= x < j ==> (#[trigger] views[x]).5.len() > 0,
                    forall|x: int|
                        0 <= x < completed@.len() ==> covered(cv, #[trigger] completed@[x].1.session_key),
                decreases data.rounds.len() - j,
            {
                assert(views[j as int] == crate::data::championship::round_view(
                    data.rounds@[j as int],
                ));
                if data.rounds[j].race_results.len() == 0 {
                    assert(views[j as int].5.len() == 0);
                    assert(exists|x: int| 0 <= x < views.len() && (#[trigger] views[x]).5.len() == 0);
                    proof {
                        lemma_some_round_empty(views, j as int);
                    }
                    assert(some_round_empty(cv));
                    return true;
                }
                j = j + 1;
            }
            assert(!exists|x: int| 0 <= x < views.len() && (#[trigger] views[x]).5.len() == 0);
            false
        },
        None => false,
    }
}

/// The completed races at `now` (for the instants the session dates stand for) and whether
/// the cached championship falls short of them (see `rounds_stale`).
pub open spec fn championship_stale_at(
    cached: Option<&ChampionshipData>,
    sessions: Seq<Session>,
    now: i64,
    r: bool,
) -> bool {
    exists|ends: Seq<i64>, starts: Seq<i64>, completed: Seq<(u32, Session)>|
        #[trigger] completed_races_are(sessions, ends, starts, now, completed) && r == rounds_stale(
            completed,
            cached_views(cached),
        )
}

pub fn championship_needs_refresh(cached: Option<&ChampionshipData>, sessions: &Vec<Session>, now: i64) -> (r:
    bool)
    ensures
        championship_stale_at(cached, sessions@, now, r),
{
    let completed = completed_race_sessions(sessions, now);
    let r = rounds_need_refresh(&completed, cached);
    assert(exists|ends: Seq<i64>, starts: Seq<i64>|
        #[trigger] completed_races_are(sessions@, ends, starts, now, completed@));
    let ghost pair = choose|ends: Seq<i64>, starts: Seq<i64>|
        #[trigger] completed_races_are(sessions@, ends, starts, now, completed@);
    assert(completed_races_are(sessions@, pair.0, pair.1, now, completed@));
    r
}

/// Weather must be fetched again when any meeting's forecast or track weather is no longer
/// fresh (and there is a meeting at all); freshness is given meeting by meeting.
pub fn weekend_weather_needs_refresh(
    meetings: &Vec<Meeting>,
    forecast_fresh: &Vec<bool>,
    track_fresh: &Vec<bool>,
) -> (r: bool)
    requires
        forecast_fresh@.len() == meetings@.len(),
        track_fresh@.len() == meetings@.len(),
    ensures
        r == (meetings@.len() > 0 && exists|i: int|
            0 <= i < meetings@.len() && (!forecast_fresh@[i] || !track_fresh@[i])),
{
    let mut i: usize = 0;
    while i < meetings.len()
        invariant
            forecast_fresh@.len() == meetings@.len(),
            track_fresh@.len() == meetings@.len(),
            i <= meetings@.len(),
            forall|j: int| 0 <= j < i ==> forecast_fresh@[j] && track_fresh@[j],
        decreases meetings.len() - i,
    {
        if !forecast_fresh[i] || !track_fresh[i] {
            return true;
        }
        i = i + 1;
    }
    false
}

/// The qualifying grid must be fetched again once the meeting's qualifying is over and no
/// grid (or an empty one) is cached.
pub open spec fn grid_stale(
    sessions: Seq<Session>,
    meeting_key: i64,
    cached: Option<&QualiGridData>,
    now: i64,
    r: bool,
) -> bool {
    if forall|i: int| 0 <= i < sessions.len() ==> !is_gp_qualifying(#[trigger] sessions[i], meeting_key) {
        !r
    } else {
        exists|i: int, end: i64|
            first_gp_qualifying(sessions, meeting_key, i) && #[trigger] resolves(
                sessions[i].date_end@,
                end,
            ) && r == (end <= now && match cached {
                Some(d) => d.slots@.len() == 0,
                None => true,
            })
    }
}

pub fn quali_grid_needs_refresh(
    focus_meeting: &Meeting,
    sessions: &Vec<Session>,
    cached: Option<&QualiGridData>,
    now: i64,
) -> (r: bool)
    ensures
        grid_stale(sessions@, focus_meeting.meeting_key, cached, now, r),
{
    let quali = match find_gp_qualifying(sessions, focus_meeting.meeting_key) {
        Some(q) => q,
        None => return false,
    };
    let ghost i = choose|i: int|
        first_gp_qualifying(sessions@, focus_meeting.meeting_key, i) && sessions@[i] == *quali;
    assert(is_gp_qualifying(sessions@[i], focus_meeting.meeting_key));
    let ended = quali_has_ended(quali, now);
    let ghost end = choose|end: i64| #[trigger] resolves(quali.date_end@, end) && ended == (end <= now);
    let r = if !ended {
        false
    } else {
        match cached {
            Some(d) => d.slots.len() == 0,
            None => true,
        }
    };
    assert(resolves(sessions@[i].date_end@, end));
    r
}

} // verus!

verus! {

/// Once a cache entry has expired it stays expired: at any later instant it is expired too,
/// and an entry is fresh at least until its time to live has passed.
pub proof fn law_expiry_is_final(e: CacheEntry, now: i64, later: i64)
    requires
        now <= later,
    ensures
        expired(e, now) ==> expired(e, later),
        e.ttl_secs >= 0 && now >= e.fetched_at && now - e.fetched_at <= e.ttl_secs * 1000 ==> !expired(
            e,
            now,
        ),
{
    let a = now - e.fetched_at;
    let b = later - e.fetched_at;
    assert(a <= b);
    if a >= 0 {
        assert(a / 1000 <= b / 1000) by (nonlinear_arith)
            requires
                0 <= a <= b,
        ;
    } else if b >= 0 {
        assert(-((-a) / 1000) <= 0) by (nonlinear_arith)
            requires
                a < 0,
        ;
        assert(b / 1000 >= 0) by (nonlinear_arith)
            requires
                b >= 0,
        ;
    } else {
        assert((-b) / 1000 <= (-a) / 1000) by (nonlinear_arith)
            requires
                0 < -b <= -a,
        ;
    }
    if e.ttl_secs >= 0 && a >= 0 && a <= e.ttl_secs * 1000 {
        assert(a / 1000 <= e.ttl_secs) by (nonlinear_arith)
            requires
                0 <= a <= e.ttl_secs * 1000,
                e.ttl_secs >= 0,
        ;
    }
}

} // verus!
