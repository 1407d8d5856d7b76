use vstd::prelude::*;

use crate::data::cache_blobs::DriversData;
use crate::data::cache_policy::{CalendarData, ChampionshipData};
use crate::data::weekend::WeekendDetail;
use crate::domain::grid::QualiGridVisibility;
use crate::records::Driver;

verus! {

/// Data on screen, and whether it is older than its time to live.
pub struct Loaded<T> {
    pub data: T,
    pub stale: bool,
}

/// Where the loading of one kind of data stands: under way, done, or failed with a message
/// (keeping what the cache had, if anything).
pub enum LoadState<T> {
    Loading,
    Ready(Loaded<T>),
    Error { message: String, cached: Option<Loaded<T>> },
}

impl<T> LoadState<T> {
    /// The data shown: the loaded data, or what the cache had when loading failed.
    pub open spec fn shown(&self) -> Option<&Loaded<T>> {
        match self {
            LoadState::Ready(l) => Some(l),
            LoadState::Error { cached: Some(l), .. } => Some(l),
            _ => None,
        }
    }

    pub open spec fn stale_spec(&self) -> bool {
        match self.shown() {
            Some(l) => l.stale,
            None => false,
        }
    }

    /// Whether the data shown is stale (no data shown is not stale).
    pub fn is_stale(&self) -> (r: bool)
        ensures
            r == self.stale_spec(),
    {
        match self {
            LoadState::Ready(l) => l.stale,
            LoadState::Error { cached: Some(l), .. } => l.stale,
            _ => false,
        }
    }
}

impl<T> LoadState<T> {
    pub open spec fn refreshing_spec(self) -> LoadState<T> {
        match self {
            LoadState::Ready(l) => LoadState::Ready(Loaded { data: l.data, stale: true }),
            LoadState::Error { message, cached: Some(l) } => LoadState::Error {
                message,
                cached: Some(l),
            },
            _ => LoadState::Loading,
        }
    }

    /// The state while a refresh runs: data on screen stays, marked stale; a failure that kept
    /// cached data stays as it is; otherwise loading.
    pub fn refreshing(self) -> (r: LoadState<T>)
        ensures
            r == self.refreshing_spec(),
    {
        match self {
            LoadState::Ready(l) => LoadState::Ready(Loaded { data: l.data, stale: true }),
            LoadState::Error { message, cached: Some(l) } => LoadState::Error {
                message,
                cached: Some(l),
            },
            _ => LoadState::Loading,
        }
    }

    pub open spec fn after_fetch_spec(self, result: Result<T, String>, cached: Option<T>) -> LoadState<T> {
        match result {
            Ok(data) => LoadState::Ready(Loaded { data, stale: false }),
            Err(message) => match self {
                LoadState::Ready(l) => LoadState::Ready(Loaded { data: l.data, stale: true }),
                _ => match cached {
                    Some(data) => LoadState::Ready(Loaded { data, stale: true }),
                    None => LoadState::Error { message, cached: None },
                },
            },
        }
    }

    /// The state once a fetch is over: the fetched data, fresh; on failure the data on screen,
    /// marked stale, else the cached data (`cached`), marked stale, else the error.
    pub fn after_fetch(self, result: Result<T, String>, cached: Option<T>) -> (r: LoadState<T>)
        ensures
            r == self.after_fetch_spec(result, cached),
    {
        match result {
            Ok(data) => LoadState::Ready(Loaded { data, stale: false }),
            Err(message) => match self {
                LoadState::Ready(l) => LoadState::Ready(Loaded { data: l.data, stale: true }),
                _ => match cached {
                    Some(data) => LoadState::Ready(Loaded { data, stale: true }),
                    None => LoadState::Error { message, cached: None },
                },
            },
        }
    }
}

/// A refresh does not take loaded data off the screen: while it runs what was shown is still
/// shown, and when it fails loaded data stays, marked stale; after it succeeds the fetched data
/// is shown and is not stale.
pub proof fn law_refresh_keeps_data_shown<T>(state: LoadState<T>, result: Result<T, String>, cached: Option<T>)
    ensures
        state.shown() matches Some(l) ==> state.refreshing_spec().shown() matches Some(k) && k.data == l.data,
        result is Err ==> (state matches LoadState::Ready(l) ==> state.refreshing_spec().after_fetch_spec(
            result,
            cached,
        ) == LoadState::Ready(Loaded { data: l.data, stale: true })),
        result matches Ok(data) ==> state.after_fetch_spec(result, cached) == LoadState::Ready(
            Loaded { data, stale: false },
        ),
{
}

/// The four loads of the dashboard: calendar, drivers, championship and weekend.
pub struct AppLoads {
    pub load: LoadState<CalendarData>,
    pub drivers: LoadState<DriversData>,
    pub championship: LoadState<ChampionshipData>,
    pub weekend: LoadState<WeekendDetail>,
}

/// The latest of the instants given.
pub open spec fn latest_of(times: Seq<Option<i64>>) -> Option<i64>
    decreases times.len(),
{
    if times.len() == 0 {
        None
    } else {
        match (latest_of(times.drop_last()), times.last()) {
            (None, t) => t,
            (Some(a), None) => Some(a),
            (Some(a), Some(b)) => Some(if b > a { b } else { a }),
        }
    }
}

impl AppLoads {
    pub open spec fn fetch_times(&self) -> Seq<Option<i64>> {
        seq![
            match self.load.shown() { Some(l) => Some(l.data.fetched_at), None => None },
            match self.drivers.shown() { Some(l) => Some(l.data.fetched_at), None => None },
            match self.championship.shown() { Some(l) => Some(l.data.fetched_at), None => None },
            match self.weekend.shown() { Some(l) => Some(l.data.fetched_at), None => None },
        ]
    }

    /// The calendar shown, if any.
    pub fn calendar(&self) -> (r: Option<&CalendarData>)
        ensures
            r == (match self.load.shown() { Some(l) => Some(&l.data), None => None }),
    {
        match &self.load {
            LoadState::Ready(l) => Some(&l.data),
            LoadState::Error { cached: Some(l), .. } => Some(&l.data),
            _ => None,
        }
    }

    /// The driver roster shown, if any.
    pub fn drivers_roster(&self) -> (r: Option<&Vec<Driver>>)
        ensures
            r == (match self.drivers.shown() { Some(l) => Some(&l.data.drivers), None => None }),
    {
        match &self.drivers {
            LoadState::Ready(l) => Some(&l.data.drivers),
            LoadState::Error { cached: Some(l), .. } => Some(&l.data.drivers),
            _ => None,
        }
    }

    /// The championship shown, if any.
    pub fn championship_data(&self) -> (r: Option<&ChampionshipData>)
        ensures
            r == (match self.championship.shown() { Some(l) => Some(&l.data), None => None }),
    {
        match &self.championship {
            LoadState::Ready(l) => Some(&l.data),
            LoadState::Error { cached: Some(l), .. } => Some(&l.data),
            _ => None,
        }
    }

    /// The weekend shown, if any.
    pub fn weekend_data(&self) -> (r: Option<&WeekendDetail>)
        ensures
            r == (match self.weekend.shown() { Some(l) => Some(&l.data), None => None }),
    {
        match &self.weekend {
            LoadState::Ready(l) => Some(&l.data),
            LoadState::Error { cached: Some(l), .. } => Some(&l.data),
            _ => None,
        }
    }

    /// How the qualifying grid shows: as the weekend shown says, hidden without one.
    pub fn quali_visibility(&self) -> (r: QualiGridVisibility)
        ensures
            r == (match self.weekend.shown() {
                Some(l) => l.data.quali_visibility,
                None => QualiGridVisibility::Hidden,
            }),
    {
        match &self.weekend {
            LoadState::Ready(l) => l.data.quali_visibility,
            LoadState::Error { cached: Some(l), .. } => l.data.quali_visibility,
            _ => QualiGridVisibility::Hidden,
        }
    }

    /// Whether any of the data shown is stale.
    pub fn is_any_stale(&self) -> (r: bool)
        ensures
            r == (self.load.stale_spec() || self.drivers.stale_spec() || self.championship.stale_spec()
                || self.weekend.stale_spec()),
    {
        self.load.is_stale() || self.drivers.is_stale() || self.championship.is_stale()
            || self.weekend.is_stale()
    }

    /// Same as `is_any_stale`.
    pub fn is_stale(&self) -> (r: bool)
        ensures
            r == (self.load.stale_spec() || self.drivers.stale_spec() || self.championship.stale_spec()
                || self.weekend.stale_spec()),
    {
        self.is_any_stale()
    }

    /// When the newest of the data shown was fetched; `None` when nothing is shown.
    pub fn last_fetched_at(&self) -> (r: Option<i64>)
        ensures
            r == latest_of(self.fetch_times()),
    {
        let calendar = match &self.load {
            LoadState::Ready(l) => Some(l.data.fetched_at),
            LoadState::Error { cached: Some(l), .. } => Some(l.data.fetched_at),
            _ => None,
        };
        let drivers = match &self.drivers {
            LoadState::Ready(l) => Some(l.data.fetched_at),
            LoadState::Error { cached: Some(l), .. } => Some(l.data.fetched_at),
            _ => None,
        };
        let championship = match &self.championship {
            LoadState::Ready(l) => Some(l.data.fetched_at),
            LoadState::Error { cached: Some(l), .. } => Some(l.data.fetched_at),
            _ => None,
        };
        let weekend = match &self.weekend {
            LoadState::Ready(l) => Some(l.data.fetched_at),
            LoadState::Error { cached: Some(l), .. } => Some(l.data.fetched_at),
            _ => None,
        };
        let times = vec![calendar, drivers, championship, weekend];
        assert(times@ == self.fetch_times());
        let mut latest: Option<i64> = None;
        let mut i: usize = 0;
        while i < times.len()
            invariant
                i <= times@.len(),
                latest == latest_of(times@.subrange(0, i as int)),
            decreases times.len() - i,
        {
            assert(times@.subrange(0, (i + 1) as int).drop_last() =~= times@.subrange(0, i as int));
            latest = match (latest, times[i]) {
                (None, t) => t,
                (Some(a), None) => Some(a),
                (Some(a), Some(b)) => Some(if b > a { b } else { a }),
            };
            i = i + 1;
        }
        assert(times@.subrange(0, times@.len() as int) =~= times@);
        latest
    }
}

} // verus!
