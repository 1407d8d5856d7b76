use vstd::prelude::*;

use crate::clock::current_instant;
use crate::data::cache_policy::QualiGridData;
use crate::domain::grid::{
    find_gp_qualifying, first_gp_qualifying, is_gp_qualifying, quali_grid_visibility,
    visibility_for, QualiGridVisibility,
};
use crate::records::{Meeting, Session};
use std::collections::{HashMap, HashSet};

verus! {

/// What becomes of the pinned drivers' qualifying grid before a weekend is shown.
#[derive(Debug, Clone, Copy, PartialEq, Eq, Structural)]
pub enum GridStep {
    /// No grid: nothing is pinned, or the meeting has no qualifying session.
    Skip,
    /// The cached grid has slots and is used as it is.
    UseCached,
    /// The grid is fetched (the cached one, if any, stands in when that fails).
    Fetch,
}

/// The forecast panel of a meeting. `Ready` means the forecast is at hand (cached or just
/// fetched); its values stay with the caller, keyed by the meeting.
#[derive(Debug, Clone, PartialEq, Eq)]
pub enum ForecastPanel {
    Loading,
    Ready,
    Error(String),
}

/// The track-conditions panel of a meeting.
#[derive(Debug, Clone, Copy, PartialEq, Eq, Structural)]
pub enum TrackPanel {
    NoSessionData,
    Loading,
    Ready,
}

/// The weather shown for one meeting of the weekend.
#[derive(Debug, Clone, PartialEq, Eq)]
pub struct WeatherPanel {
    pub meeting_key: i64,
    pub forecast: ForecastPanel,
    pub track: TrackPanel,
}

/// What the weekend view shows besides the calendar, at the instant `fetched_at`.
pub struct WeekendDetail {
    pub quali_grid: Option<QualiGridData>,
    pub quali_visibility: QualiGridVisibility,
    pub panels: Vec<WeatherPanel>,
    pub fetched_at: i64,
}

/// Which remote calls the weather of one meeting needs: those whose answer is not cached.
#[derive(Debug, Clone, Copy, PartialEq, Eq, Structural)]
pub struct MeetingFetch {
    pub meeting_key: i64,
    pub fetch_track: bool,
    pub fetch_forecast: bool,
}

pub open spec fn grid_has_slots(grid: Option<QualiGridData>) -> bool {
    grid matches Some(g) && g.slots@.len() > 0
}

pub open spec fn grid_step_of(has_pins: bool, cached_has_slots: bool, has_quali: bool) -> GridStep {
    if !has_pins {
        GridStep::Skip
    } else if cached_has_slots {
        GridStep::UseCached
    } else if has_quali {
        GridStep::Fetch
    } else {
        GridStep::Skip
    }
}

/// Whether the meeting `focus` has a Grand Prix qualifying session.
pub open spec fn has_gp_qualifying(sessions: Seq<Session>, focus: i64) -> bool {
    exists|i: int| 0 <= i < sessions.len() && #[trigger] is_gp_qualifying(sessions[i], focus)
}

/// What to do about the qualifying grid: skip it without pins; use the cached grid when it
/// has slots; else fetch it when the meeting has a Grand Prix qualifying session.
pub fn weekend_grid_step(
    pinned_numbers: &Vec<i64>,
    cached_grid: &Option<QualiGridData>,
    sessions: &Vec<Session>,
    focus_meeting_key: i64,
) -> (r: GridStep)
    ensures
        r == grid_step_of(
            pinned_numbers@.len() > 0,
            grid_has_slots(*cached_grid),
            has_gp_qualifying(sessions@, focus_meeting_key),
        ),
{
    let has_pins = pinned_numbers.len() > 0;
    let cached_has_slots = match cached_grid {
        Some(g) => g.slots.len() > 0,
        None => false,
    };
    let quali = find_gp_qualifying(sessions, focus_meeting_key);
    let has_quali = quali.is_some();
    proof {
        if let Some(q) = quali {
            let i = choose|i: int| first_gp_qualifying(sessions@, focus_meeting_key, i)
                && sessions@[i] == *q;
            assert(0 <= i < sessions@.len() && is_gp_qualifying(sessions@[i], focus_meeting_key));
        }
    }
    if !has_pins {
        GridStep::Skip
    } else if cached_has_slots {
        GridStep::UseCached
    } else if has_quali {
        GridStep::Fetch
    } else {
        GridStep::Skip
    }
}

pub open spec fn grid_after(fetched: Option<QualiGridData>, cached: Option<QualiGridData>) -> Option<
    QualiGridData,
> {
    if grid_has_slots(fetched) {
        fetched
    } else {
        cached
    }
}

/// The grid after a fetch: the fetched grid when it has slots; the cached one (if any) when the
/// fetch failed (`None`) or came back empty.
pub fn grid_after_fetch(fetched: Option<QualiGridData>, cached: Option<QualiGridData>) -> (r: Option<
    QualiGridData,
>)
    ensures
        r == grid_after(fetched, cached),
{
    let has_slots = match &fetched {
        Some(g) => g.slots.len() > 0,
        None => false,
    };
    if has_slots {
        fetched
    } else {
        cached
    }
}

pub open spec fn fetch_of(m: Meeting, cached_tracks: Map<i64, bool>, cached_forecasts: Set<i64>) -> MeetingFetch {
    MeetingFetch {
        meeting_key: m.meeting_key,
        fetch_track: !cached_tracks.contains_key(m.meeting_key),
        fetch_forecast: !cached_forecasts.contains(m.meeting_key),
    }
}

/// The remote calls that the weather of the weekend's meetings needs, meeting by meeting:
/// track conditions unless cached (by meeting key), and the forecast unless cached.
pub fn weekend_fetch_plan(
    meetings: &Vec<Meeting>,
    cached_tracks: &HashMap<i64, bool>,
    cached_forecasts: &HashSet<i64>,
) -> (r: Vec<MeetingFetch>)
    ensures
        r@ == meetings@.map_values(|m: Meeting| fetch_of(m, cached_tracks@, cached_forecasts@)),
{
    broadcast use vstd::std_specs::hash::group_hash_axioms;

    let mut r: Vec<MeetingFetch> = Vec::new();
    let mut i: usize = 0;
    while i < meetings.len()
        invariant
            i <= meetings@.len(),
            r@ == meetings@.subrange(0, i as int).map_values(
                |m: Meeting| fetch_of(m, cached_tracks@, cached_forecasts@),
            ),
        decreases meetings.len() - i,
    {
        let key = meetings[i].meeting_key;
        let track_cached = cached_tracks.contains_key(&key);
        let forecast_cached = cached_forecasts.contains(&key);
        r.push(MeetingFetch { meeting_key: key, fetch_track: !track_cached, fetch_forecast: !forecast_cached });
        assert(meetings@.subrange(0, i + 1) =~= meetings@.subrange(0, i as int).push(meetings@[i as int]));
        i = i + 1;
    }
    assert(meetings@.subrange(0, meetings@.len() as int) =~= meetings@);
    r
}

/// The track panel of a meeting from the cache: ready when its cached entry has conditions,
/// "no session data" when it has none, loading when nothing is cached.
pub open spec fn cached_track_panel(cached: Map<i64, bool>, key: i64) -> TrackPanel {
    if cached.contains_key(key) {
        if cached[key] {
            TrackPanel::Ready
        } else {
            TrackPanel::NoSessionData
        }
    } else {
        TrackPanel::Loading
    }
}

pub open spec fn cached_panel(m: Meeting, cached_tracks: Map<i64, bool>, cached_forecasts: Set<i64>) -> WeatherPanel {
    WeatherPanel {
        meeting_key: m.meeting_key,
        forecast: if cached_forecasts.contains(m.meeting_key) {
            ForecastPanel::Ready
        } else {
            ForecastPanel::Loading
        },
        track: cached_track_panel(cached_tracks, m.meeting_key),
    }
}

/// The panels of the weekend's meetings from what is cached: a cached forecast is ready and a
/// missing one loading; a cached track entry is ready with conditions, "no session data"
/// without, and loading when missing.
fn panels_from_cache(
    meetings: &Vec<Meeting>,
    cached_tracks: &HashMap<i64, bool>,
    cached_forecasts: &HashSet<i64>,
) -> (r: Vec<WeatherPanel>)
    ensures
        r@ == meetings@.map_values(|m: Meeting| cached_panel(m, cached_tracks@, cached_forecasts@)),
{
    broadcast use vstd::std_specs::hash::group_hash_axioms;

    let mut r: Vec<WeatherPanel> = Vec::new();
    let mut i: usize = 0;
    while i < meetings.len()
        invariant
            i <= meetings@.len(),
            r@ == meetings@.subrange(0, i as int).map_values(
                |m: Meeting| cached_panel(m, cached_tracks@, cached_forecasts@),
            ),
        decreases meetings.len() - i,
    {
        let key = meetings[i].meeting_key;
        let forecast = if cached_forecasts.contains(&key) {
            ForecastPanel::Ready
        } else {
            ForecastPanel::Loading
        };
        let track = match cached_tracks.get(&key) {
            Some(has_conditions) => if *has_conditions {
                TrackPanel::Ready
            } else {
                TrackPanel::NoSessionData
            },
            None => TrackPanel::Loading,
        };
        assert(track == cached_track_panel(cached_tracks@, key));
        r.push(WeatherPanel { meeting_key: key, forecast, track });
        assert(meetings@.subrange(0, i + 1) =~= meetings@.subrange(0, i as int).push(meetings@[i as int]));
        i = i + 1;
    }
    assert(meetings@.subrange(0, meetings@.len() as int) =~= meetings@);
    r
}

/// The weekend as far as the cache has it, at the instant `now`: `None` without meetings; else
/// the cached grid, its visibility, and one panel per meeting in meeting order.
pub fn assemble_weekend_at(
    focus_meeting_key: i64,
    meetings: &Vec<Meeting>,
    sessions: &Vec<Session>,
    pinned_numbers: &Vec<i64>,
    cached_grid: Option<QualiGridData>,
    cached_tracks: &HashMap<i64, bool>,
    cached_forecasts: &HashSet<i64>,
    now: i64,
) -> (r: Option<WeekendDetail>)
    ensures
        meetings@.len() == 0 <==> r is None,
        r matches Some(d) ==> {
            &&& d.quali_grid == cached_grid
            &&& d.fetched_at == now
            &&& d.panels@ == meetings@.map_values(
                |m: Meeting| cached_panel(m, cached_tracks@, cached_forecasts@),
            )
            &&& visibility_shown(sessions@, focus_meeting_key, pinned_numbers@.len() > 0, now, grid_has_slots(cached_grid), d.quali_visibility)
        },
{
    if meetings.len() == 0 {
        return None;
    }
    let quali = find_gp_qualifying(sessions, focus_meeting_key);
    let grid_available = match &cached_grid {
        Some(g) => g.slots.len() > 0,
        None => false,
    };
    let quali_visibility = quali_grid_visibility(pinned_numbers.len() > 0, quali, now, grid_available);
    proof {
        lemma_visibility_shown(
            sessions@,
            focus_meeting_key,
            match quali { Some(q) => Some(*q), None => None },
            pinned_numbers@.len() > 0,
            now,
            grid_available,
            quali_visibility,
        );
    }
    let panels = panels_from_cache(meetings, cached_tracks, cached_forecasts);
    Some(WeekendDetail { quali_grid: cached_grid, quali_visibility, panels, fetched_at: now })
}

/// How the grid shows for the meeting `focus`, going by its first Grand Prix qualifying session
/// (none when it has none).
pub open spec fn visibility_shown(
    sessions: Seq<Session>,
    focus: i64,
    has_pins: bool,
    now: i64,
    grid_available: bool,
    r: QualiGridVisibility,
) -> bool {
    if exists|i: int| first_gp_qualifying(sessions, focus, i) {
        visibility_for(has_pins, Some(sessions[choose|i: int| first_gp_qualifying(sessions, focus, i)]), now, grid_available, r)
    } else {
        visibility_for(has_pins, None, now, grid_available, r)
    }
}

proof fn lemma_visibility_shown(
    sessions: Seq<Session>,
    focus: i64,
    quali: Option<Session>,
    has_pins: bool,
    now: i64,
    grid_available: bool,
    r: QualiGridVisibility,
)
    requires
        match quali {
            Some(s) => exists|i: int| first_gp_qualifying(sessions, focus, i) && sessions[i] == s,
            None => forall|i: int|
                0 <= i < sessions.len() ==> !is_gp_qualifying(#[trigger] sessions[i], focus),
        },
        visibility_for(has_pins, quali, now, grid_available, r),
    ensures
        visibility_shown(sessions, focus, has_pins, now, grid_available, r),
{
    match quali {
        Some(s) => {
            let i = choose|i: int| first_gp_qualifying(sessions, focus, i) && sessions[i] == s;
            let w = choose|w: int| first_gp_qualifying(sessions, focus, w);
            if i < w {
                assert(!is_gp_qualifying(sessions[i], focus));
            } else if w < i {
                assert(!is_gp_qualifying(sessions[w], focus));
            }
        },
        None => {
            if exists|w: int| first_gp_qualifying(sessions, focus, w) {
                let w = choose|w: int| first_gp_qualifying(sessions, focus, w);
                assert(is_gp_qualifying(sessions[w], focus));
            }
        },
    }
}

/// The weekend as far as the cache has it, now (see `assemble_weekend_at`; the instant comes
/// from the system clock).
pub fn assemble_weekend_from_cache(
    focus_meeting_key: i64,
    meetings: &Vec<Meeting>,
    sessions: &Vec<Session>,
    pinned_numbers: &Vec<i64>,
    cached_grid: Option<QualiGridData>,
    cached_tracks: &HashMap<i64, bool>,
    cached_forecasts: &HashSet<i64>,
) -> (r: Option<WeekendDetail>)
    ensures
        meetings@.len() == 0 <==> r is None,
        r matches Some(d) ==> {
            &&& d.quali_grid == cached_grid
            &&& d.panels@ == meetings@.map_values(
                |m: Meeting| cached_panel(m, cached_tracks@, cached_forecasts@),
            )
            &&& visibility_shown(sessions@, focus_meeting_key, pinned_numbers@.len() > 0, d.fetched_at, grid_has_slots(cached_grid), d.quali_visibility)
        },
{
    let now = current_instant();
    assemble_weekend_at(
        focus_meeting_key,
        meetings,
        sessions,
        pinned_numbers,
        cached_grid,
        cached_tracks,
        cached_forecasts,
        now,
    )
}

pub open spec fn fetched_panel(key: i64, forecast: Result<(), String>, track_has_conditions: bool) -> WeatherPanel {
    WeatherPanel {
        meeting_key: key,
        forecast: match forecast {
            Ok(_) => ForecastPanel::Ready,
            Err(e) => ForecastPanel::Error(e),
        },
        track: if track_has_conditions {
            TrackPanel::Ready
        } else {
            TrackPanel::NoSessionData
        },
    }
}

/// The panel of a meeting once its weather is in: the forecast is ready, or shows the error
/// that fetching it gave; the track is ready when the track data has conditions.
pub fn panel_after_fetch(key: i64, forecast: Result<(), String>, track_has_conditions: bool) -> (r: WeatherPanel)
    ensures
        r == fetched_panel(key, forecast, track_has_conditions),
{
    let forecast = match forecast {
        Ok(_) => ForecastPanel::Ready,
        Err(e) => ForecastPanel::Error(e),
    };
    let track = if track_has_conditions {
        TrackPanel::Ready
    } else {
        TrackPanel::NoSessionData
    };
    WeatherPanel { meeting_key: key, forecast, track }
}

/// The weekend once everything was fetched, at the instant `now`: the grid the grid step gave,
/// its visibility, and the panels as they came.
pub fn weekend_details_at(
    focus_meeting_key: i64,
    sessions: &Vec<Session>,
    pinned_numbers: &Vec<i64>,
    quali_grid: Option<QualiGridData>,
    panels: Vec<WeatherPanel>,
    now: i64,
) -> (r: WeekendDetail)
    ensures
        r.quali_grid == quali_grid,
        r.panels@ == panels@,
        r.fetched_at == now,
        visibility_shown(sessions@, focus_meeting_key, pinned_numbers@.len() > 0, now, grid_has_slots(quali_grid), r.quali_visibility),
{
    let quali = find_gp_qualifying(sessions, focus_meeting_key);
    let grid_available = match &quali_grid {
        Some(g) => g.slots.len() > 0,
        None => false,
    };
    let quali_visibility = quali_grid_visibility(pinned_numbers.len() > 0, quali, now, grid_available);
    proof {
        lemma_visibility_shown(
            sessions@,
            focus_meeting_key,
            match quali { Some(q) => Some(*q), None => None },
            pinned_numbers@.len() > 0,
            now,
            grid_available,
            quali_visibility,
        );
    }
    WeekendDetail { quali_grid, quali_visibility, panels, fetched_at: now }
}

} // verus!
