use vstd::prelude::*;

use crate::data::cache_policy::{CalendarData, ChampionshipData, QualiGridData};
use crate::domain::calendar::triplet_of;
use crate::domain::countdown::countdown_of;
use crate::domain::grid::GridSlot;
use crate::records::{copy_drivers, copy_meetings, copy_sessions, Driver, Meeting, Session};
use crate::data::championship::{round_view, round_views, RoundView};
use crate::domain::championship::{
    ChampionshipRoundSnapshot, DriverStandingSnapshot, RaceResultSnapshot, TeamStandingSnapshot,
};

verus! {

/// A driver's standing as the cache stores it.
#[derive(Debug, Clone, Copy, PartialEq, Eq, Structural)]
pub struct DriverStandingBlob {
    pub driver_number: i64,
    pub position: i64,
    pub points: i64,
    pub race_points: i64,
}

/// A constructor's standing as the cache stores it.
#[derive(Debug, Clone, PartialEq, Eq)]
pub struct TeamStandingBlob {
    pub team_name: String,
    pub position: i64,
    pub points: i64,
    pub race_points: i64,
}

/// A race result as the cache stores it.
#[derive(Debug, Clone, Copy, PartialEq, Eq, Structural)]
pub struct RaceResultBlob {
    pub driver_number: i64,
    pub classified_position: i64,
    pub dnf: bool,
    pub dns: bool,
    pub dsq: bool,
    pub points: i64,
}

/// A round as the cache stores it (the starting grid is not kept).
#[derive(Debug, Clone)]
pub struct ChampionshipRoundBlob {
    pub round: u32,
    pub session_key: i64,
    pub meeting_key: i64,
    pub drivers: Vec<DriverStandingBlob>,
    pub teams: Vec<TeamStandingBlob>,
    pub race_results: Vec<RaceResultBlob>,
}

/// The championship as the cache stores it.
#[derive(Debug, Clone)]
pub struct ChampionshipCacheBlob {
    pub season: i32,
    pub rounds: Vec<ChampionshipRoundBlob>,
    pub fetched_at: i64,
}

pub open spec fn driver_blob(d: DriverStandingSnapshot) -> DriverStandingBlob {
    DriverStandingBlob {
        driver_number: d.driver_number,
        position: d.position,
        points: d.points,
        race_points: d.race_points,
    }
}

pub open spec fn driver_from_blob(d: DriverStandingBlob) -> DriverStandingSnapshot {
    DriverStandingSnapshot {
        driver_number: d.driver_number,
        position: d.position,
        points: d.points,
        race_points: d.race_points,
    }
}

pub open spec fn team_blob_view(t: TeamStandingBlob) -> (Seq<char>, i64, i64, i64) {
    (t.team_name@, t.position, t.points, t.race_points)
}

pub open spec fn team_blob_views(v: Seq<TeamStandingBlob>) -> Seq<(Seq<char>, i64, i64, i64)> {
    v.map_values(|t: TeamStandingBlob| team_blob_view(t))
}

pub open spec fn team_views(v: Seq<TeamStandingSnapshot>) -> Seq<(Seq<char>, i64, i64, i64)> {
    v.map_values(|t: TeamStandingSnapshot| team_view(t))
}

pub open spec fn team_view(t: TeamStandingSnapshot) -> (Seq<char>, i64, i64, i64) {
    (t.team_name@, t.position, t.points, t.race_points)
}

pub open spec fn result_blob(r: RaceResultSnapshot) -> RaceResultBlob {
    RaceResultBlob {
        driver_number: r.driver_number,
        classified_position: r.classified_position,
        dnf: r.dnf,
        dns: r.dns,
        dsq: r.dsq,
        points: r.points,
    }
}

pub open spec fn result_from_blob(r: RaceResultBlob) -> RaceResultSnapshot {
    RaceResultSnapshot {
        driver_number: r.driver_number,
        classified_position: r.classified_position,
        dnf: r.dnf,
        dns: r.dns,
        dsq: r.dsq,
        points: r.points,
    }
}

/// Round, session, meeting, drivers, constructors and results of a stored round.
pub type RoundBlobView = (
    u32,
    i64,
    i64,
    Seq<DriverStandingBlob>,
    Seq<(Seq<char>, i64, i64, i64)>,
    Seq<RaceResultBlob>,
);

pub open spec fn round_blob_view(b: ChampionshipRoundBlob) -> RoundBlobView {
    (
        b.round,
        b.session_key,
        b.meeting_key,
        b.drivers@,
        team_blob_views(b.teams@),
        b.race_results@,
    )
}

/// How a round is stored: every field kept but the starting grid.
pub open spec fn stored_round(r: RoundView) -> RoundBlobView {
    (
        r.0,
        r.1,
        r.2,
        r.3.map_values(|d: DriverStandingSnapshot| driver_blob(d)),
        team_views(r.4),
        r.5.map_values(|x: RaceResultSnapshot| result_blob(x)),
    )
}

/// A stored round read back: the fields as stored and no starting grid.
pub open spec fn restored_round(b: ChampionshipRoundBlob) -> RoundView {
    (
        b.round,
        b.session_key,
        b.meeting_key,
        b.drivers@.map_values(|d: DriverStandingBlob| driver_from_blob(d)),
        b.teams@.map_values(
            |t: TeamStandingBlob|
                TeamStandingSnapshot {
                    team_name: t.team_name,
                    position: t.position,
                    points: t.points,
                    race_points: t.race_points,
                },
        ),
        b.race_results@.map_values(|x: RaceResultBlob| result_from_blob(x)),
        Seq::empty(),
    )
}

fn round_to_blob(r: &ChampionshipRoundSnapshot) -> (b: ChampionshipRoundBlob)
    ensures
        round_blob_view(b) == stored_round(round_view(*r)),
{
    let mut drivers: Vec<DriverStandingBlob> = Vec::new();
    let mut i: usize = 0;
    while i < r.drivers.len()
        invariant
            i <= r.drivers@.len(),
            drivers@ == r.drivers@.subrange(0, i as int).map_values(
                |d: DriverStandingSnapshot| driver_blob(d),
            ),
        decreases r.drivers.len() - i,
    {
        let d = r.drivers[i];
        drivers.push(
            DriverStandingBlob {
                driver_number: d.driver_number,
                position: d.position,
                points: d.points,
                race_points: d.race_points,
            },
        );
        assert(drivers@ =~= r.drivers@.subrange(0, (i + 1) as int).map_values(
            |d: DriverStandingSnapshot| driver_blob(d),
        ));
        i = i + 1;
    }
    let mut teams: Vec<TeamStandingBlob> = Vec::new();
    let mut j: usize = 0;
    while j < r.teams.len()
        invariant
            j <= r.teams@.len(),
            teams@.len() == j,
            team_blob_views(teams@) == team_views(r.teams@.subrange(0, j as int)),
        decreases r.teams.len() - j,
    {
        let t = &r.teams[j];
        let ghost before = teams@;
        let blob = TeamStandingBlob {
            team_name: t.team_name.clone(),
            position: t.position,
            points: t.points,
            race_points: t.race_points,
        };
        teams.push(blob);
        assert(teams@ == before.push(blob));
        assert(team_blob_view(blob) == team_view(r.teams@[j as int]));
        assert forall|k: int| 0 <= k < j + 1 implies #[trigger] team_blob_views(teams@)[k]
            == team_views(r.teams@.subrange(0, (j + 1) as int))[k] by {
            if k < j {
                assert(teams@[k] == before[k]);
                assert(team_blob_views(before)[k] == team_views(r.teams@.subrange(0, j as int))[k]);
                assert(r.teams@.subrange(0, j as int)[k] == r.teams@.subrange(0, (j + 1) as int)[k]);
            }
        }
        assert(team_blob_views(teams@) =~= team_views(r.teams@.subrange(0, (j + 1) as int)));
        j = j + 1;
    }
    let mut results: Vec<RaceResultBlob> = Vec::new();
    let mut k: usize = 0;
    while k < r.race_results.len()
        invariant
            k <= r.race_results@.len(),
            results@ == r.race_results@.subrange(0, k as int).map_values(
                |x: RaceResultSnapshot| result_blob(x),
            ),
        decreases r.race_results.len() - k,
    {
        let x = r.race_results[k];
        results.push(
            RaceResultBlob {
                driver_number: x.driver_number,
                classified_position: x.classified_position,
                dnf: x.dnf,
                dns: x.dns,
                dsq: x.dsq,
                points: x.points,
            },
        );
        assert(results@ =~= r.race_results@.subrange(0, (k + 1) as int).map_values(
            |x: RaceResultSnapshot| result_blob(x),
        ));
        k = k + 1;
    }
    assert(r.drivers@.subrange(0, r.drivers@.len() as int) =~= r.drivers@);
    assert(r.teams@.subrange(0, r.teams@.len() as int) =~= r.teams@);
    assert(r.race_results@.subrange(0, r.race_results@.len() as int) =~= r.race_results@);
    ChampionshipRoundBlob {
        round: r.round,
        session_key: r.session_key,
        meeting_key: r.meeting_key,
        drivers,
        teams,
        race_results: results,
    }
}

fn round_from_blob(b: ChampionshipRoundBlob) -> (r: ChampionshipRoundSnapshot)
    ensures
        round_view(r) == restored_round(b),
{
    let mut drivers: Vec<DriverStandingSnapshot> = Vec::new();
    let mut i: usize = 0;
    while i < b.drivers.len()
        invariant
            i <= b.drivers@.len(),
            drivers@ == b.drivers@.subrange(0, i as int).map_values(
                |d: DriverStandingBlob| driver_from_blob(d),
            ),
        decreases b.drivers.len() - i,
    {
        let d = b.drivers[i];
        drivers.push(
            DriverStandingSnapshot {
                driver_number: d.driver_number,
                position: d.position,
                points: d.points,
                race_points: d.race_points,
            },
        );
        assert(drivers@ =~= b.drivers@.subrange(0, (i + 1) as int).map_values(
            |d: DriverStandingBlob| driver_from_blob(d),
        ));
        i = i + 1;
    }
    let ghost target_teams = b.teams@.map_values(
        |t: TeamStandingBlob|
            TeamStandingSnapshot {
                team_name: t.team_name,
                position: t.position,
                points: t.points,
                race_points: t.race_points,
            },
    );
    let mut teams: Vec<TeamStandingSnapshot> = Vec::new();
    let mut j: usize = 0;
    while j < b.teams.len()
        invariant
            j <= b.teams@.len(),
            target_teams == b.teams@.map_values(
                |t: TeamStandingBlob|
                    TeamStandingSnapshot {
                        team_name: t.team_name,
                        position: t.position,
                        points: t.points,
                        race_points: t.race_points,
                    },
            ),
            teams@ == target_teams.subrange(0, j as int),
        decreases b.teams.len() - j,
    {
        let t = &b.teams[j];
        teams.push(
            TeamStandingSnapshot {
                team_name: t.team_name.clone(),
                position: t.position,
                points: t.points,
                race_points: t.race_points,
            },
        );
        assert(teams@ =~= target_teams.subrange(0, (j + 1) as int));
        j = j + 1;
    }
    let mut results: Vec<RaceResultSnapshot> = Vec::new();
    let mut k: usize = 0;
    while k < b.race_results.len()
        invariant
            k <= b.race_results@.len(),
            results@ == b.race_results@.subrange(0, k as int).map_values(
                |x: RaceResultBlob| result_from_blob(x),
            ),
        decreases b.race_results.len() - k,
    {
        let x = b.race_results[k];
        results.push(
            RaceResultSnapshot {
                driver_number: x.driver_number,
                classified_position: x.classified_position,
                dnf: x.dnf,
                dns: x.dns,
                dsq: x.dsq,
                points: x.points,
            },
        );
        assert(results@ =~= b.race_results@.subrange(0, (k + 1) as int).map_values(
            |x: RaceResultBlob| result_from_blob(x),
        ));
        k = k + 1;
    }
    assert(b.drivers@.subrange(0, b.drivers@.len() as int) =~= b.drivers@);
    assert(target_teams.subrange(0, target_teams.len() as int) =~= target_teams);
    assert(b.race_results@.subrange(0, b.race_results@.len() as int) =~= b.race_results@);
    let r = ChampionshipRoundSnapshot {
        round: b.round,
        session_key: b.session_key,
        meeting_key: b.meeting_key,
        drivers,
        teams,
        race_results: results,
        starting_grid: Vec::new(),
    };
    assert(r.starting_grid@ =~= Seq::empty());
    r
}

impl ChampionshipCacheBlob {
    /// The championship in the form the cache stores.
    pub fn from_data(data: &ChampionshipData) -> (r: Self)
        ensures
            r.season == data.season,
            r.fetched_at == data.fetched_at,
            r.rounds@.map_values(|b: ChampionshipRoundBlob| round_blob_view(b))
                == round_views(data.rounds@).map_values(|x: RoundView| stored_round(x)),
    {
        let mut rounds: Vec<ChampionshipRoundBlob> = Vec::new();
        let ghost target = round_views(data.rounds@).map_values(|x: RoundView| stored_round(x));
        let mut i: usize = 0;
        while i < data.rounds.len()
            invariant
                i <= data.rounds@.len(),
                target == round_views(data.rounds@).map_values(|x: RoundView| stored_round(x)),
                rounds@.len() == i,
                rounds@.map_values(|b: ChampionshipRoundBlob| round_blob_view(b))
                    == target.subrange(0, i as int),
            decreases data.rounds.len() - i,
        {
            let ghost before = rounds@;
            let blob = round_to_blob(&data.rounds[i]);
            rounds.push(blob);
            assert(rounds@ == before.push(blob));
            assert(rounds@.map_values(|b: ChampionshipRoundBlob| round_blob_view(b))
                =~= target.subrange(0, (i + 1) as int));
            i = i + 1;
        }
        assert(target.subrange(0, target.len() as int) =~= target);
        ChampionshipCacheBlob { season: data.season, rounds, fetched_at: data.fetched_at }
    }
}

/// The championship read back from the cache.
pub fn championship_from_cache(blob: ChampionshipCacheBlob) -> (r: ChampionshipData)
    ensures
        r.season == blob.season,
        r.fetched_at == blob.fetched_at,
        round_views(r.rounds@) == blob.rounds@.map_values(
            |b: ChampionshipRoundBlob| restored_round(b),
        ),
{
    let ghost target = blob.rounds@.map_values(|b: ChampionshipRoundBlob| restored_round(b));
    let mut rounds: Vec<ChampionshipRoundSnapshot> = Vec::new();
    let mut i: usize = 0;
    while i < blob.rounds.len()
        invariant
            i <= blob.rounds@.len(),
            target == blob.rounds@.map_values(|b: ChampionshipRoundBlob| restored_round(b)),
            rounds@.len() == i,
            round_views(rounds@) == target.subrange(0, i as int),
        decreases blob.rounds.len() - i,
    {
        let ghost before = rounds@;
        let copy = ChampionshipRoundBlob {
            round: blob.rounds[i].round,
            session_key: blob.rounds[i].session_key,
            meeting_key: blob.rounds[i].meeting_key,
            drivers: crate::data::championship::copy_vec(&blob.rounds[i].drivers),
            teams: copy_team_blobs(&blob.rounds[i].teams),
            race_results: crate::data::championship::copy_vec(&blob.rounds[i].race_results),
        };
        assert(restored_round(copy) == restored_round(blob.rounds@[i as int]));
        let r = round_from_blob(copy);
        rounds.push(r);
        assert(rounds@ == before.push(r));
        assert(round_views(rounds@) =~= target.subrange(0, (i + 1) as int));
        i = i + 1;
    }
    assert(target.subrange(0, target.len() as int) =~= target);
    ChampionshipData { season: blob.season, rounds, fetched_at: blob.fetched_at }
}

fn copy_team_blobs(v: &Vec<TeamStandingBlob>) -> (r: Vec<TeamStandingBlob>)
    ensures
        r@ == v@,
{
    let mut r: Vec<TeamStandingBlob> = Vec::new();
    let mut i: usize = 0;
    while i < v.len()
        invariant
            i <= v@.len(),
            r@ == v@.subrange(0, i as int),
        decreases v.len() - i,
    {
        let t = &v[i];
        r.push(
            TeamStandingBlob {
                team_name: t.team_name.clone(),
                position: t.position,
                points: t.points,
                race_points: t.race_points,
            },
        );
        assert(r@ =~= v@.subrange(0, (i + 1) as int));
        i = i + 1;
    }
    assert(v@.subrange(0, v@.len() as int) =~= v@);
    r
}

} // verus!

verus! {

/// A round written to the cache and read back keeps its number, session, meeting, driver
/// standings, constructor standings (by name and numbers) and race results; the starting
/// grid, which the cache does not keep, comes back empty.
pub proof fn law_round_cache_round_trip(r: RoundView, b: ChampionshipRoundBlob)
    requires
        round_blob_view(b) == stored_round(r),
    ensures
        restored_round(b).0 == r.0,
        restored_round(b).1 == r.1,
        restored_round(b).2 == r.2,
        restored_round(b).3 == r.3,
        team_views(restored_round(b).4) == team_views(r.4),
        restored_round(b).5 == r.5,
        restored_round(b).6.len() == 0,
{
    let back = restored_round(b);
    assert(b.drivers@ == r.3.map_values(|d: DriverStandingSnapshot| driver_blob(d)));
    assert(back.3 =~= r.3);
    assert(b.race_results@ == r.5.map_values(|x: RaceResultSnapshot| result_blob(x)));
    assert(back.5 =~= r.5);
    assert(team_blob_views(b.teams@) == team_views(r.4));
    assert(team_views(back.4) =~= team_blob_views(b.teams@));
}

} // verus!

verus! {

/// The season's calendar as the cache stores it.
pub struct CalendarCacheBlob {
    pub season: i32,
    pub meetings: Vec<Meeting>,
    pub sessions: Vec<Session>,
    pub fetched_at: i64,
}

impl CalendarCacheBlob {
    /// The calendar in the form the cache stores: season, meetings, sessions and fetch time.
    pub fn from_calendar(data: &CalendarData) -> (r: Self)
        ensures
            r.season == data.season,
            r.meetings@ == data.meetings@,
            r.sessions@ == data.sessions@,
            r.fetched_at == data.fetched_at,
    {
        CalendarCacheBlob {
            season: data.season,
            meetings: copy_meetings(&data.meetings),
            sessions: copy_sessions(&data.sessions),
            fetched_at: data.fetched_at,
        }
    }
}

/// The season's driver roster, as fetched at `fetched_at`.
pub struct DriversData {
    pub season: i32,
    pub drivers: Vec<Driver>,
    pub fetched_at: i64,
}

/// The roster as the cache stores it.
pub struct DriversCacheBlob {
    pub season: i32,
    pub drivers: Vec<Driver>,
    pub fetched_at: i64,
}

impl DriversCacheBlob {
    /// The roster in the form the cache stores.
    pub fn from_drivers(data: &DriversData) -> (r: Self)
        ensures
            r.season == data.season,
            r.drivers@ == data.drivers@,
            r.fetched_at == data.fetched_at,
    {
        DriversCacheBlob {
            season: data.season,
            drivers: copy_drivers(&data.drivers),
            fetched_at: data.fetched_at,
        }
    }
}

/// The roster read back from the cache, as stored.
pub fn drivers_from_cache(blob: DriversCacheBlob) -> (r: DriversData)
    ensures
        r.season == blob.season,
        r.drivers@ == blob.drivers@,
        r.fetched_at == blob.fetched_at,
{
    DriversData { season: blob.season, drivers: blob.drivers, fetched_at: blob.fetched_at }
}

/// A grid slot as the cache stores it.
#[derive(Debug, Clone, Copy, PartialEq, Eq, Structural)]
pub struct GridSlotBlob {
    pub driver_number: i64,
    pub position: i64,
    pub gap_to_pole_ms: Option<i64>,
}

/// The qualifying grid of the pinned drivers as the cache stores it.
pub struct QualiGridCacheBlob {
    pub meeting_key: i64,
    pub slots: Vec<GridSlotBlob>,
    pub fetched_at: i64,
}

pub open spec fn slot_blob(s: GridSlot) -> GridSlotBlob {
    GridSlotBlob { driver_number: s.driver_number, position: s.position, gap_to_pole_ms: s.gap_to_pole_ms }
}

pub open spec fn slot_from_blob(s: GridSlotBlob) -> GridSlot {
    GridSlot { driver_number: s.driver_number, position: s.position, gap_to_pole_ms: s.gap_to_pole_ms }
}

impl QualiGridCacheBlob {
    /// The grid in the form the cache stores: every slot as it is.
    pub fn from_data(data: &QualiGridData) -> (r: Self)
        ensures
            r.meeting_key == data.meeting_key,
            r.slots@ == data.slots@.map_values(|s: GridSlot| slot_blob(s)),
            r.fetched_at == data.fetched_at,
    {
        let mut slots: Vec<GridSlotBlob> = Vec::new();
        let mut i: usize = 0;
        while i < data.slots.len()
            invariant
                i <= data.slots@.len(),
                slots@ == data.slots@.subrange(0, i as int).map_values(|s: GridSlot| slot_blob(s)),
            decreases data.slots.len() - i,
        {
            let s = data.slots[i];
            slots.push(GridSlotBlob { driver_number: s.driver_number, position: s.position, gap_to_pole_ms: s.gap_to_pole_ms });
            assert(slots@ =~= data.slots@.subrange(0, (i + 1) as int).map_values(|s: GridSlot| slot_blob(s)));
            i = i + 1;
        }
        assert(data.slots@.subrange(0, data.slots@.len() as int) =~= data.slots@);
        QualiGridCacheBlob { meeting_key: data.meeting_key, slots, fetched_at: data.fetched_at }
    }
}

/// The grid read back from the cache: every slot as stored.
pub fn quali_grid_from_cache(blob: QualiGridCacheBlob) -> (r: QualiGridData)
    ensures
        r.meeting_key == blob.meeting_key,
        r.slots@ == blob.slots@.map_values(|s: GridSlotBlob| slot_from_blob(s)),
        r.fetched_at == blob.fetched_at,
{
    let mut slots: Vec<GridSlot> = Vec::new();
    let mut i: usize = 0;
    while i < blob.slots.len()
        invariant
            i <= blob.slots@.len(),
            slots@ == blob.slots@.subrange(0, i as int).map_values(|s: GridSlotBlob| slot_from_blob(s)),
        decreases blob.slots.len() - i,
    {
        let s = blob.slots[i];
        slots.push(GridSlot { driver_number: s.driver_number, position: s.position, gap_to_pole_ms: s.gap_to_pole_ms });
        assert(slots@ =~= blob.slots@.subrange(0, (i + 1) as int).map_values(|s: GridSlotBlob| slot_from_blob(s)));
        i = i + 1;
    }
    assert(blob.slots@.subrange(0, blob.slots@.len() as int) =~= blob.slots@);
    QualiGridData { meeting_key: blob.meeting_key, slots, fetched_at: blob.fetched_at }
}

/// A qualifying grid written to the cache and read back is the grid it was.
pub proof fn law_grid_cache_round_trip(slots: Seq<GridSlot>)
    ensures
        slots.map_values(|s: GridSlot| slot_blob(s)).map_values(|s: GridSlotBlob| slot_from_blob(s))
            == slots,
{
    assert(slots.map_values(|s: GridSlot| slot_blob(s)).map_values(|s: GridSlotBlob| slot_from_blob(s))
        =~= slots);
}

} // verus!

verus! {

/// The roster written to the cache and read back is the roster it was: same season, drivers
/// and fetch time.
pub proof fn law_drivers_cache_round_trip(data: DriversData, blob: DriversCacheBlob, back: DriversData)
    requires
        blob.season == data.season,
        blob.drivers@ == data.drivers@,
        blob.fetched_at == data.fetched_at,
        back.season == blob.season,
        back.drivers@ == blob.drivers@,
        back.fetched_at == blob.fetched_at,
    ensures
        back.season == data.season,
        back.drivers@ == data.drivers@,
        back.fetched_at == data.fetched_at,
{
}

/// The calendar written to the cache keeps the season, the meetings, the sessions and the
/// fetch time; read back, the focus and the countdown are worked out again for the time of
/// reading from those same meetings and sessions.
pub proof fn law_calendar_cache_round_trip(
    data: CalendarData,
    blob: CalendarCacheBlob,
    back: CalendarData,
    now: i64,
)
    requires
        blob.season == data.season,
        blob.meetings@ == data.meetings@,
        blob.sessions@ == data.sessions@,
        blob.fetched_at == data.fetched_at,
        back.season == blob.season,
        back.meetings@ == blob.meetings@,
        back.sessions@ == blob.sessions@,
        back.fetched_at == blob.fetched_at,
        triplet_of(blob.meetings@, now, back.triplet),
        countdown_of(blob.meetings@, blob.sessions@, now, back.countdown),
    ensures
        back.season == data.season,
        back.meetings@ == data.meetings@,
        back.sessions@ == data.sessions@,
        back.fetched_at == data.fetched_at,
        triplet_of(data.meetings@, now, back.triplet),
        countdown_of(data.meetings@, data.sessions@, now, back.countdown),
{
}

} // verus!
