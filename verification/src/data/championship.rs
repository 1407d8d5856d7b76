use vstd::prelude::*;

use crate::domain::championship::{
    classification, classify_race_results, ChampionshipRoundSnapshot, DriverStandingSnapshot,
    RaceResultInput, RaceResultSnapshot, TeamStandingSnapshot,
};
use crate::domain::countdown::{arrange, single_key_vec, single_keys};
use crate::domain::grid::GridSlot;
use crate::order::{keys_view, stable_order, stable_sort_indices};
use crate::records::Session;

verus! {

/// A row of the drivers' championship as the timing service lists it after a session.
#[derive(Debug, Clone, Copy, PartialEq, Eq, Structural)]
pub struct ChampionshipDriverRow {
    pub driver_number: i64,
    pub position_current: i64,
    pub points_current: i64,
    pub points_start: i64,
}

/// A row of the constructors' championship as the timing service lists it after a session.
#[derive(Debug, Clone, PartialEq, Eq)]
pub struct ChampionshipTeamRow {
    pub team_name: String,
    pub position_current: i64,
    pub points_current: i64,
    pub points_start: i64,
}

/// A driver's result in a session as the timing service lists it (what the championship reads
/// of it).
#[derive(Debug, Clone, Copy, PartialEq, Eq, Structural)]
pub struct SessionResultRow {
    pub driver_number: i64,
    pub position: Option<i64>,
    pub number_of_laps: i64,
    pub dnf: bool,
    pub dns: bool,
    pub dsq: bool,
    pub points: Option<i64>,
}

pub open spec fn result_input_of(row: SessionResultRow) -> RaceResultInput {
    RaceResultInput {
        driver_number: row.driver_number,
        position: row.position,
        number_of_laps: row.number_of_laps,
        dnf: row.dnf,
        dns: row.dns,
        dsq: row.dsq,
        points: match row.points {
            Some(p) => p,
            None => 0,
        },
    }
}

/// The race results of a session: each row read as a race result (no points counts as 0), then
/// classified (see `classify_race_results`).
pub fn map_race_results(results: &Vec<SessionResultRow>) -> (r: Vec<RaceResultSnapshot>)
    requires
        results@.len() < i64::MAX,
        forall|k: int|
            0 <= k < results@.len() ==> ((#[trigger] results@[k]).position matches Some(p) ==> p
                <= i64::MAX - results@.len()),
    ensures
        r@ == classification(results@.map_values(|row: SessionResultRow| result_input_of(row))),
{
    let mut inputs: Vec<RaceResultInput> = Vec::new();
    let mut i: usize = 0;
    while i < results.len()
        invariant
            i <= results@.len(),
            inputs@ == results@.subrange(0, i as int).map_values(
                |row: SessionResultRow| result_input_of(row),
            ),
        decreases results.len() - i,
    {
        let row = results[i];
        let points = match row.points {
            Some(p) => p,
            None => 0,
        };
        inputs.push(
            RaceResultInput {
                driver_number: row.driver_number,
                position: row.position,
                number_of_laps: row.number_of_laps,
                dnf: row.dnf,
                dns: row.dns,
                dsq: row.dsq,
                points,
            },
        );
        assert(inputs@ =~= results@.subrange(0, (i + 1) as int).map_values(
            |row: SessionResultRow| result_input_of(row),
        ));
        i = i + 1;
    }
    assert(results@.subrange(0, results@.len() as int) =~= results@);
    assert(inputs@.len() == results@.len());
    assert forall|k: int| 0 <= k < inputs@.len() implies ((#[trigger] inputs@[k]).position matches Some(p)
        ==> p <= i64::MAX - inputs@.len()) by {
        assert(inputs@[k].position == results@[k].position);
    }
    classify_race_results(&inputs)
}

/// `a - b` held to the range of `i64` (`i64::saturating_sub`).
pub open spec fn saturating_minus(a: i64, b: i64) -> i64 {
    let d = a - b;
    if d > i64::MAX {
        i64::MAX
    } else if d < i64::MIN {
        i64::MIN
    } else {
        d as i64
    }
}

fn saturating_minus_exec(a: i64, b: i64) -> (r: i64)
    ensures
        r == saturating_minus(a, b),
{
    let d: i128 = a as i128 - b as i128;
    if d > i64::MAX as i128 {
        i64::MAX
    } else if d < i64::MIN as i128 {
        i64::MIN
    } else {
        d as i64
    }
}

/// A driver's standing after the session; the race's points are those gained in it.
pub open spec fn driver_standing_of(row: ChampionshipDriverRow) -> DriverStandingSnapshot {
    DriverStandingSnapshot {
        driver_number: row.driver_number,
        position: row.position_current,
        points: row.points_current,
        race_points: saturating_minus(row.points_current, row.points_start),
    }
}

pub open spec fn team_standing_of(row: ChampionshipTeamRow) -> TeamStandingSnapshot {
    TeamStandingSnapshot {
        team_name: row.team_name,
        position: row.position_current,
        points: row.points_current,
        race_points: saturating_minus(row.points_current, row.points_start),
    }
}

pub fn map_driver_standings(rows: &Vec<ChampionshipDriverRow>) -> (r: Vec<DriverStandingSnapshot>)
    ensures
        r@ == rows@.map_values(|row: ChampionshipDriverRow| driver_standing_of(row)),
{
    let mut r: Vec<DriverStandingSnapshot> = Vec::new();
    let mut i: usize = 0;
    while i < rows.len()
        invariant
            i <= rows@.len(),
            r@ == rows@.subrange(0, i as int).map_values(
                |row: ChampionshipDriverRow| driver_standing_of(row),
            ),
        decreases rows.len() - i,
    {
        let row = rows[i];
        r.push(
            DriverStandingSnapshot {
                driver_number: row.driver_number,
                position: row.position_current,
                points: row.points_current,
                race_points: saturating_minus_exec(row.points_current, row.points_start),
            },
        );
        assert(r@ =~= rows@.subrange(0, (i + 1) as int).map_values(
            |row: ChampionshipDriverRow| driver_standing_of(row),
        ));
        i = i + 1;
    }
    assert(rows@.subrange(0, rows@.len() as int) =~= rows@);
    r
}

pub fn map_team_standings(rows: &Vec<ChampionshipTeamRow>) -> (r: Vec<TeamStandingSnapshot>)
    ensures
        r@ == rows@.map_values(|row: ChampionshipTeamRow| team_standing_of(row)),
{
    let mut r: Vec<TeamStandingSnapshot> = Vec::new();
    let mut i: usize = 0;
    while i < rows.len()
        invariant
            i <= rows@.len(),
            r@ == rows@.subrange(0, i as int).map_values(
                |row: ChampionshipTeamRow| team_standing_of(row),
            ),
        decreases rows.len() - i,
    {
        let row = &rows[i];
        r.push(
            TeamStandingSnapshot {
                team_name: row.team_name.clone(),
                position: row.position_current,
                points: row.points_current,
                race_points: saturating_minus_exec(row.points_current, row.points_start),
            },
        );
        assert(r@ =~= rows@.subrange(0, (i + 1) as int).map_values(
            |row: ChampionshipTeamRow| team_standing_of(row),
        ));
        i = i + 1;
    }
    assert(rows@.subrange(0, rows@.len() as int) =~= rows@);
    r
}

// ---------------------------------------------------------------------------------------------
// Rounds
/// Round number, session, meeting, drivers' and constructors' standings, race results and
/// starting grid of a round.
pub type RoundView = (
    u32,
    i64,
    i64,
    Seq<DriverStandingSnapshot>,
    Seq<TeamStandingSnapshot>,
    Seq<RaceResultSnapshot>,
    Seq<GridSlot>,
);

pub open spec fn round_view(r: ChampionshipRoundSnapshot) -> RoundView {
    (
        r.round,
        r.session_key,
        r.meeting_key,
        r.drivers@,
        r.teams@,
        r.race_results@,
        r.starting_grid@,
    )
}

pub open spec fn round_views(rs: Seq<ChampionshipRoundSnapshot>) -> Seq<RoundView> {
    rs.map_values(|r: ChampionshipRoundSnapshot| round_view(r))
}

/// The same round under another number.
pub open spec fn renumbered(round: u32, c: RoundView) -> RoundView {
    (round, c.1, c.2, c.3, c.4, c.5, c.6)
}

pub fn copy_vec<T: Copy>(v: &Vec<T>) -> (r: Vec<T>)
    ensures
        r@ == v@,
{
    let mut r: Vec<T> = Vec::new();
    let mut i: usize = 0;
    while i < v.len()
        invariant
            i <= v@.len(),
            r@ == v@.subrange(0, i as int),
        decreases v.len() - i,
    {
        r.push(v[i]);
        assert(r@ =~= v@.subrange(0, (i + 1) as int));
        i = i + 1;
    }
    assert(v@.subrange(0, v@.len() as int) =~= v@);
    r
}

pub fn copy_teams(v: &Vec<TeamStandingSnapshot>) -> (r: Vec<TeamStandingSnapshot>)
    ensures
        r@ == v@,
{
    let mut r: Vec<TeamStandingSnapshot> = Vec::new();
    let mut i: usize = 0;
    while i < v.len()
        invariant
            i <= v@.len(),
            r@ == v@.subrange(0, i as int),
        decreases v.len() - i,
    {
        r.push(v[i].duplicate());
        assert(r@ =~= v@.subrange(0, (i + 1) as int));
        i = i + 1;
    }
    assert(v@.subrange(0, v@.len() as int) =~= v@);
    r
}

pub fn round_has_race_results(round: &ChampionshipRoundSnapshot) -> (r: bool)
    ensures
        r == (round.race_results@.len() > 0),
{
    round.race_results.len() > 0
}

pub fn round_has_championship_data(round: &ChampionshipRoundSnapshot) -> (r: bool)
    ensures
        r == (round.drivers@.len() > 0),
{
    round.drivers.len() > 0
}

/// A copy of the cached round under the given round number.
pub fn snapshot_with_round(round: u32, cached: &ChampionshipRoundSnapshot) -> (r:
    ChampionshipRoundSnapshot)
    ensures
        round_view(r) == renumbered(round, round_view(*cached)),
{
    ChampionshipRoundSnapshot {
        round,
        session_key: cached.session_key,
        meeting_key: cached.meeting_key,
        drivers: copy_vec(&cached.drivers),
        teams: copy_teams(&cached.teams),
        race_results: copy_vec(&cached.race_results),
        starting_grid: copy_vec(&cached.starting_grid),
    }
}

/// The cached round of a session: of several with the key, the last listed (as a map
/// built from the list keeps it).
pub open spec fn cached_round(cached: Seq<ChampionshipRoundSnapshot>, key: i64) -> Option<
    ChampionshipRoundSnapshot,
>
    decreases cached.len(),
{
    if cached.len() == 0 {
        None
    } else if cached.last().session_key == key {
        Some(cached.last())
    } else {
        cached_round(cached.drop_last(), key)
    }
}

pub fn find_cached_round(cached: &Vec<ChampionshipRoundSnapshot>, key: i64) -> (r: Option<usize>)
    ensures
        match r {
            Some(i) => i < cached@.len() && cached_round(cached@, key) == Some(cached@[i as int]),
            None => cached_round(cached@, key) is None,
        },
{
    let mut i: usize = cached.len();
    assert(cached@.subrange(0, cached@.len() as int) =~= cached@);
    while i > 0
        invariant
            i <= cached@.len(),
            cached_round(cached@, key) == cached_round(cached@.subrange(0, i as int), key),
        decreases i,
    {
        let ghost prefix = cached@.subrange(0, i as int);
        assert(prefix.last() == cached@[i - 1]);
        if cached[i - 1].session_key == key {
            return Some(i - 1);
        }
        assert(prefix.drop_last() =~= cached@.subrange(0, i - 1));
        i = i - 1;
    }
    None
}

pub open spec fn has_session(acc: Seq<RoundView>, key: i64) -> bool {
    exists|k: int| 0 <= k < acc.len() && acc[k].1 == key
}

/// Adds the cached round of a completed session that the list lacks.
pub open spec fn merge_step(
    acc: Seq<RoundView>,
    entry: (u32, Session),
    cached: Seq<ChampionshipRoundSnapshot>,
) -> Seq<RoundView> {
    if has_session(acc, entry.1.session_key) {
        acc
    } else {
        match cached_round(cached, entry.1.session_key) {
            Some(c) => acc.push(renumbered(entry.0, round_view(c))),
            None => acc,
        }
    }
}

pub open spec fn merged(
    acc: Seq<RoundView>,
    completed: Seq<(u32, Session)>,
    cached: Seq<ChampionshipRoundSnapshot>,
) -> Seq<RoundView>
    decreases completed.len(),
{
    if completed.len() == 0 {
        acc
    } else {
        merge_step(merged(acc, completed.drop_last(), cached), completed.last(), cached)
    }
}

/// Rounds in order of round number; rounds with the same number keep their order.
pub open spec fn by_round(rs: Seq<RoundView>) -> Seq<RoundView> {
    arrange(rs, stable_order(single_keys(rs.map_values(|r: RoundView| r.0 as i64)), false, rs.len()))
}

impl ChampionshipRoundSnapshot {
    pub fn duplicate(&self) -> (r: Self)
        ensures
            round_view(r) == round_view(*self),
    {
        snapshot_with_round(self.round, self)
    }
}

/// Sorts rounds by round number (stable).
pub fn sort_rounds(rounds: Vec<ChampionshipRoundSnapshot>) -> (r: Vec<ChampionshipRoundSnapshot>)
    ensures
        round_views(r@) == by_round(round_views(rounds@)),
{
    let ghost views = round_views(rounds@);
    let mut numbers: Vec<i64> = Vec::new();
    let mut i: usize = 0;
    while i < rounds.len()
        invariant
            views == round_views(rounds@),
            i <= rounds@.len(),
            numbers@ == views.subrange(0, i as int).map_values(|r: RoundView| r.0 as i64),
        decreases rounds.len() - i,
    {
        numbers.push(rounds[i].round as i64);
        assert(numbers@ =~= views.subrange(0, (i + 1) as int).map_values(|r: RoundView| r.0 as i64));
        i = i + 1;
    }
    assert(views.subrange(0, views.len() as int) =~= views);
    let keys = single_key_vec(&numbers);
    let order = stable_sort_indices(&keys, false);
    assert(numbers@.len() == rounds@.len());
    assert(keys_view(keys@).len() == keys@.len());
    assert(single_keys(numbers@).len() == numbers@.len());
    let mut r: Vec<ChampionshipRoundSnapshot> = Vec::new();
    let mut m: usize = 0;
    while m < order.len()
        invariant
            views == round_views(rounds@),
            m <= order@.len(),
            r@.len() == m,
            order@.len() == rounds@.len(),
            forall|x: int| 0 <= x < order@.len() ==> (order@[x] as int) < rounds@.len(),
            round_views(r@) == arrange(views, order@).subrange(0, m as int),
        decreases order.len() - m,
    {
        let ghost before = r@;
        let copy = rounds[order[m]].duplicate();
        r.push(copy);
        assert(round_views(r@) =~= arrange(views, order@).subrange(0, (m + 1) as int)) by {
            assert(r@ == before.push(copy));
            assert(round_views(r@)[m as int] == round_view(copy));
        }
        m = m + 1;
    }
    assert(arrange(views, order@).subrange(0, order@.len() as int) =~= arrange(views, order@));
    r
}

/// Puts back the cached rounds of completed sessions that the list lacks (a fetch that failed
/// part way), then orders the rounds by number.
pub fn merge_missing_cached_rounds(
    rounds: &mut Vec<ChampionshipRoundSnapshot>,
    completed: &Vec<(u32, Session)>,
    cached: &Vec<ChampionshipRoundSnapshot>,
)
    ensures
        round_views(final(rounds)@) == by_round(
            merged(round_views(old(rounds)@), completed@, cached@),
        ),
{
    let ghost start = round_views(rounds@);
    let mut i: usize = 0;
    while i < completed.len()
        invariant
            i <= completed@.len(),
            round_views(rounds@) == merged(start, completed@.subrange(0, i as int), cached@),
        decreases completed.len() - i,
    {
        assert(completed@.subrange(0, (i + 1) as int).drop_last() =~= completed@.subrange(0, i as int));
        assert(completed@.subrange(0, (i + 1) as int).last() == completed@[i as int]);
        let key = completed[i].1.session_key;
        let ghost acc = round_views(rounds@);
        let mut present = false;
        let mut j: usize = 0;
        while j < rounds.len()
            invariant
                acc == round_views(rounds@),
                j <= rounds@.len(),
                present == exists|k: int| 0 <= k < j && acc[k].1 == key,
            decreases rounds.len() - j,
        {
            assert(acc[j as int] == round_view(rounds@[j as int]));
            if rounds[j].session_key == key {
                present = true;
            }
            j = j + 1;
        }
        if !present {
            if let Some(c) = find_cached_round(cached, key) {
                let snap = snapshot_with_round(completed[i].0, &cached[c]);
                rounds.push(snap);
                assert(round_views(rounds@) =~= acc.push(round_view(snap)));
            }
        }
        i = i + 1;
    }
    assert(completed@.subrange(0, completed@.len() as int) =~= completed@);
    let mut taken: Vec<ChampionshipRoundSnapshot> = Vec::new();
    std::mem::swap(&mut taken, rounds);
    *rounds = sort_rounds(taken);
}

// ---------------------------------------------------------------------------------------------
// Fetching a season, round by round
/// What the fetch of a season needs next from outside.
#[derive(Debug, Clone, Copy, PartialEq, Eq, Structural)]
pub enum Awaiting {
    Nothing,
    RaceResults,
    Round,
}

/// What to do next: fetch the race results of a round whose standings are cached, fetch a whole
/// round (after a pause when something was fetched already), or stop.
#[derive(Debug, Clone, Copy, PartialEq, Eq, Structural)]
pub enum ChampionshipStep {
    FetchRaceResults { round: u32, session_key: i64 },
    FetchRound { round: u32, session_key: i64, meeting_key: i64, pause_first: bool },
    /// Every completed session has been dealt with: the rounds are final.
    Finished,
    /// The first round could not be fetched and nothing stands in for it.
    Failed,
}

/// What came back from outside: race results or a whole round, `None` when the fetch failed.
pub enum ChampionshipEvent {
    RaceResults(Option<Vec<RaceResultSnapshot>>),
    Round(Option<ChampionshipRoundSnapshot>),
}

/// The fetch of a season's championship, one completed race session after the other, reusing
/// the cached rounds where it can.
pub struct ChampionshipFetch {
    pub completed: Vec<(u32, Session)>,
    pub cached: Vec<ChampionshipRoundSnapshot>,
    pub next: usize,
    pub rounds: Vec<ChampionshipRoundSnapshot>,
    pub fetched_any: bool,
    pub awaiting: Awaiting,
}

/// Progress of a fetch: the next session, the rounds so far, whether anything was fetched,
/// and what it waits for.
pub type FetchView = (int, Seq<RoundView>, bool, Awaiting);

pub open spec fn fetch_view(f: ChampionshipFetch) -> FetchView {
    (f.next as int, round_views(f.rounds@), f.fetched_any, f.awaiting)
}

pub open spec fn has_results(c: Option<ChampionshipRoundSnapshot>) -> bool {
    c matches Some(r) && r.race_results@.len() > 0
}

pub open spec fn has_standings(c: Option<ChampionshipRoundSnapshot>) -> bool {
    c matches Some(r) && r.drivers@.len() > 0
}

/// Takes the cached rounds that already have race results, from `next` on, until a session
/// needs a fetch or none is left.
pub open spec fn skip_cached(
    completed: Seq<(u32, Session)>,
    cached: Seq<ChampionshipRoundSnapshot>,
    next: int,
    rounds: Seq<RoundView>,
) -> (int, Seq<RoundView>)
    decreases completed.len() - next,
{
    if next < 0 || next >= completed.len() {
        (next, rounds)
    } else {
        let e = completed[next];
        let c = cached_round(cached, e.1.session_key);
        if has_results(c) {
            skip_cached(
                completed,
                cached,
                next + 1,
                rounds.push(renumbered(e.0, round_view(c->0))),
            )
        } else {
            (next, rounds)
        }
    }
}

/// The state after moving on from `s` (see `skip_cached`); at the end the cached rounds that
/// are still missing are put back and the rounds ordered by number.
pub open spec fn advanced(
    completed: Seq<(u32, Session)>,
    cached: Seq<ChampionshipRoundSnapshot>,
    s: FetchView,
) -> FetchView {
    let (n, rs) = skip_cached(completed, cached, s.0, s.1);
    if n >= completed.len() {
        (n, by_round(merged(rs, completed, cached)), s.2, Awaiting::Nothing)
    } else if has_standings(cached_round(cached, completed[n].1.session_key)) {
        (n, rs, s.2, Awaiting::RaceResults)
    } else {
        (n, rs, s.2, Awaiting::Round)
    }
}

/// What a state asks for.
pub open spec fn step_of(completed: Seq<(u32, Session)>, s: FetchView) -> ChampionshipStep {
    if s.0 < 0 || s.0 >= completed.len() {
        ChampionshipStep::Finished
    } else if s.3 == Awaiting::RaceResults {
        ChampionshipStep::FetchRaceResults {
            round: completed[s.0].0,
            session_key: completed[s.0].1.session_key,
        }
    } else {
        ChampionshipStep::FetchRound {
            round: completed[s.0].0,
            session_key: completed[s.0].1.session_key,
            meeting_key: completed[s.0].1.meeting_key,
            pause_first: s.2,
        }
    }
}

pub open spec fn results_view(r: Option<Vec<RaceResultSnapshot>>) -> Option<Seq<RaceResultSnapshot>> {
    match r {
        Some(v) => Some(v@),
        None => None,
    }
}

pub open spec fn fetched_round_view(r: Option<ChampionshipRoundSnapshot>) -> Option<RoundView> {
    match r {
        Some(x) => Some(round_view(x)),
        None => None,
    }
}

/// The state after race results came back for the session at `s.0`: when there are some, the
/// cached standings with these results; else the cached round as it was.
pub open spec fn after_results(
    completed: Seq<(u32, Session)>,
    cached: Seq<ChampionshipRoundSnapshot>,
    s: FetchView,
    results: Option<Seq<RaceResultSnapshot>>,
) -> FetchView {
    let e = completed[s.0];
    let c = round_view(cached_round(cached, e.1.session_key)->0);
    match results {
        Some(v) => if v.len() > 0 {
            (s.0 + 1, s.1.push((e.0, c.1, c.2, c.3, c.4, v, c.6)), true, Awaiting::Nothing)
        } else {
            (s.0 + 1, s.1.push(renumbered(e.0, c)), s.2, Awaiting::Nothing)
        },
        None => (s.0 + 1, s.1.push(renumbered(e.0, c)), s.2, Awaiting::Nothing),
    }
}

/// The state after a whole round came back (or failed) for the session at `s.0`: a failure
/// falls back on the cached round, or skips the session when rounds were gathered already.
pub open spec fn after_round(
    completed: Seq<(u32, Session)>,
    cached: Seq<ChampionshipRoundSnapshot>,
    s: FetchView,
    fetched: Option<RoundView>,
) -> FetchView {
    let e = completed[s.0];
    match fetched {
        Some(r) => (s.0 + 1, s.1.push(r), true, Awaiting::Nothing),
        None => match cached_round(cached, e.1.session_key) {
            Some(c) => (s.0 + 1, s.1.push(renumbered(e.0, round_view(c))), s.2, Awaiting::Nothing),
            None => (s.0 + 1, s.1, s.2, Awaiting::Nothing),
        },
    }
}

/// A failed round fetch ends the whole fetch: nothing was gathered and no cached round stands in.
pub open spec fn round_failure_fatal(
    completed: Seq<(u32, Session)>,
    cached: Seq<ChampionshipRoundSnapshot>,
    s: FetchView,
) -> bool {
    cached_round(cached, completed[s.0].1.session_key) is None && s.1.len() == 0
}

impl ChampionshipFetch {
    /// The next session is in range, and a fetch of race results is only awaited for a session
    /// whose standings are cached.
    pub open spec fn wf(&self) -> bool {
        &&& 0 <= self.next <= self.completed@.len()
        &&& self.awaiting != Awaiting::Nothing ==> self.next < self.completed@.len()
        &&& self.awaiting == Awaiting::RaceResults ==> has_standings(
            cached_round(self.cached@, self.completed@[self.next as int].1.session_key),
        )
    }

    pub open spec fn fixed_parts(&self, other: &ChampionshipFetch) -> bool {
        self.completed@ == other.completed@ && self.cached@ == other.cached@
    }

    /// A fetch over the completed race sessions that reuses the rounds of `existing`.
    pub fn new(completed: Vec<(u32, Session)>, existing: Vec<ChampionshipRoundSnapshot>) -> (r: Self)
        ensures
            r.completed@ == completed@,
            r.cached@ == existing@,
            fetch_view(r) == (0int, Seq::<RoundView>::empty(), false, Awaiting::Nothing),
            r.wf(),
    {
        let r = ChampionshipFetch {
            completed,
            cached: existing,
            next: 0,
            rounds: Vec::new(),
            fetched_any: false,
            awaiting: Awaiting::Nothing,
        };
        assert(round_views(r.rounds@) =~= Seq::<RoundView>::empty());
        r
    }

    /// Moves on through the sessions whose cached rounds are complete; says what to fetch next,
    /// or that the fetch is over.
    pub fn advance(&mut self) -> (step: ChampionshipStep)
        requires
            0 <= old(self).next <= old(self).completed@.len(),
        ensures
            final(self).fixed_parts(old(self)),
            fetch_view(*final(self)) == advanced(
                old(self).completed@,
                old(self).cached@,
                fetch_view(*old(self)),
            ),
            step == step_of(final(self).completed@, fetch_view(*final(self))),
            final(self).wf(),
    {
        let ghost start = fetch_view(*self);
        let ghost completed = self.completed@;
        let ghost cached = self.cached@;
        while self.next < self.completed.len()
            invariant_except_break
                self.completed@ == completed,
                self.cached@ == cached,
                self.fetched_any == start.2,
                0 <= self.next <= completed.len(),
                skip_cached(completed, cached, start.0, start.1) == skip_cached(
                    completed,
                    cached,
                    self.next as int,
                    round_views(self.rounds@),
                ),
            ensures
                self.completed@ == completed,
                self.cached@ == cached,
                self.fetched_any == start.2,
                0 <= self.next <= completed.len(),
                skip_cached(completed, cached, start.0, start.1) == (
                    self.next as int,
                    round_views(self.rounds@),
                ),
            decreases self.completed.len() - self.next,
        {
            let key = self.completed[self.next].1.session_key;
            let found = find_cached_round(&self.cached, key);
            match found {
                Some(c) => {
                    if self.cached[c].race_results.len() > 0 {
                        let snap = snapshot_with_round(self.completed[self.next].0, &self.cached[c]);
                        let ghost before = round_views(self.rounds@);
                        self.rounds.push(snap);
                        assert(round_views(self.rounds@) =~= before.push(round_view(snap)));
                        self.next = self.next + 1;
                    } else {
                        break;
                    }
                },
                None => {
                    break;
                },
            }
        }
        if self.next == self.completed.len() {
            let cached_copy = &self.cached;
            let completed_copy = &self.completed;
            let mut rounds: Vec<ChampionshipRoundSnapshot> = Vec::new();
            std::mem::swap(&mut rounds, &mut self.rounds);
            merge_missing_cached_rounds(&mut rounds, completed_copy, cached_copy);
            self.rounds = rounds;
            self.awaiting = Awaiting::Nothing;
            return ChampionshipStep::Finished;
        }
        let entry_round = self.completed[self.next].0;
        let key = self.completed[self.next].1.session_key;
        let meeting_key = self.completed[self.next].1.meeting_key;
        let standings = match find_cached_round(&self.cached, key) {
            Some(c) => self.cached[c].drivers.len() > 0,
            None => false,
        };
        assert(standings == has_standings(cached_round(self.cached@, key)));
        if standings {
            self.awaiting = Awaiting::RaceResults;
            ChampionshipStep::FetchRaceResults { round: entry_round, session_key: key }
        } else {
            self.awaiting = Awaiting::Round;
            ChampionshipStep::FetchRound {
                round: entry_round,
                session_key: key,
                meeting_key,
                pause_first: self.fetched_any,
            }
        }
    }

    /// Takes what came back from outside and says what to do next. An answer that was not
    /// asked for is ignored.
    pub fn resume(&mut self, event: ChampionshipEvent) -> (step: ChampionshipStep)
        requires
            old(self).wf(),
        ensures
            final(self).fixed_parts(old(self)),
            final(self).wf(),
            match (old(self).awaiting, event) {
                (Awaiting::RaceResults, ChampionshipEvent::RaceResults(r)) => fetch_view(
                    *final(self),
                ) == advanced(
                    old(self).completed@,
                    old(self).cached@,
                    after_results(
                        old(self).completed@,
                        old(self).cached@,
                        fetch_view(*old(self)),
                        results_view(r),
                    ),
                ) && step == step_of(final(self).completed@, fetch_view(*final(self))),
                (Awaiting::Round, ChampionshipEvent::Round(r)) => if r is None
                    && round_failure_fatal(
                    old(self).completed@,
                    old(self).cached@,
                    fetch_view(*old(self)),
                ) {
                    step == ChampionshipStep::Failed && fetch_view(*final(self)) == (
                        old(self).next as int,
                        round_views(old(self).rounds@),
                        old(self).fetched_any,
                        Awaiting::Nothing,
                    )
                } else {
                    fetch_view(*final(self)) == advanced(
                        old(self).completed@,
                        old(self).cached@,
                        after_round(
                            old(self).completed@,
                            old(self).cached@,
                            fetch_view(*old(self)),
                            fetched_round_view(r),
                        ),
                    ) && step == step_of(final(self).completed@, fetch_view(*final(self)))
                },
                _ => fetch_view(*final(self)) == advanced(
                    old(self).completed@,
                    old(self).cached@,
                    fetch_view(*old(self)),
                ) && step == step_of(final(self).completed@, fetch_view(*final(self))),
            },
    {
        let ghost s0 = fetch_view(*self);
        let total = self.completed.len();
        let current = self.next;
        match (self.awaiting, event) {
            (Awaiting::RaceResults, ChampionshipEvent::RaceResults(r)) => {
                let entry_round = self.completed[self.next].0;
                let key = self.completed[self.next].1.session_key;
                let c = match find_cached_round(&self.cached, key) {
                    Some(c) => c,
                    None => {
                        assert(false);
                        0
                    },
                };
                let ghost cv = round_view(self.cached@[c as int]);
                let ghost before = round_views(self.rounds@);
                let ghost rv = results_view(r);
                match r {
                    Some(results) => {
                        if results.len() > 0 {
                            let cached_round_ref = &self.cached[c];
                            let snap = ChampionshipRoundSnapshot {
                                round: entry_round,
                                session_key: cached_round_ref.session_key,
                                meeting_key: cached_round_ref.meeting_key,
                                drivers: copy_vec(&cached_round_ref.drivers),
                                teams: copy_teams(&cached_round_ref.teams),
                                race_results: results,
                                starting_grid: copy_vec(&cached_round_ref.starting_grid),
                            };
                            self.rounds.push(snap);
                            self.fetched_any = true;
                            assert(round_views(self.rounds@) =~= before.push(round_view(snap)));
                        } else {
                            let snap = snapshot_with_round(entry_round, &self.cached[c]);
                            self.rounds.push(snap);
                            assert(round_views(self.rounds@) =~= before.push(round_view(snap)));
                        }
                    },
                    None => {
                        let snap = snapshot_with_round(entry_round, &self.cached[c]);
                        self.rounds.push(snap);
                        assert(round_views(self.rounds@) =~= before.push(round_view(snap)));
                    },
                }
                assert(current < total);
                self.next = current + 1;
                self.awaiting = Awaiting::Nothing;
                assert(fetch_view(*self) == after_results(self.completed@, self.cached@, s0, rv));
                self.advance()
            },
            (Awaiting::Round, ChampionshipEvent::Round(r)) => {
                let entry_round = self.completed[self.next].0;
                let key = self.completed[self.next].1.session_key;
                let ghost before = round_views(self.rounds@);
                let ghost fv = fetched_round_view(r);
                match r {
                    Some(snap) => {
                        self.rounds.push(snap);
                        self.fetched_any = true;
                        assert(round_views(self.rounds@) =~= before.push(round_view(snap)));
                    },
                    None => match find_cached_round(&self.cached, key) {
                        Some(c) => {
                            let snap = snapshot_with_round(entry_round, &self.cached[c]);
                            self.rounds.push(snap);
                            assert(round_views(self.rounds@) =~= before.push(round_view(snap)));
                        },
                        None => {
                            if self.rounds.len() == 0 {
                                self.awaiting = Awaiting::Nothing;
                                assert(round_views(self.rounds@) =~= before);
                                return ChampionshipStep::Failed;
                            }
                        },
                    },
                }
                assert(current < total);
                self.next = current + 1;
                self.awaiting = Awaiting::Nothing;
                assert(fetch_view(*self) == after_round(self.completed@, self.cached@, s0, fv));
                self.advance()
            },
            _ => {
                self.awaiting = Awaiting::Nothing;
                self.advance()
            },
        }
    }
}

} // verus!

verus! {

proof fn lemma_cached_round_key(cached: Seq<ChampionshipRoundSnapshot>, key: i64)
    ensures
        cached_round(cached, key) matches Some(c) ==> c.session_key == key,
    decreases cached.len(),
{
    if cached.len() > 0 && cached.last().session_key != key {
        lemma_cached_round_key(cached.drop_last(), key);
    }
}

pub open spec fn session_keys_distinct(rs: Seq<RoundView>) -> bool {
    forall|a: int, b: int| 0 <= a < b < rs.len() ==> rs[a].1 != rs[b].1
}

/// Merging cached rounds keeps the rounds already there (in front, as they were), gives every
/// completed session whose round is cached a round, and adds no second round for a session:
/// the sessions of the result are distinct when those of the rounds already there were.
pub proof fn law_merge_restores_cached_rounds(
    acc: Seq<RoundView>,
    completed: Seq<(u32, Session)>,
    cached: Seq<ChampionshipRoundSnapshot>,
)
    ensures
        merged(acc, completed, cached).len() >= acc.len(),
        merged(acc, completed, cached).subrange(0, acc.len() as int) == acc,
        forall|j: int|
            0 <= j < completed.len() && #[trigger] cached_round(cached, completed[j].1.session_key)
                is Some ==> has_session(merged(acc, completed, cached), completed[j].1.session_key),
        forall|key: i64|
            #[trigger] has_session(acc, key) ==> has_session(merged(acc, completed, cached), key),
        session_keys_distinct(acc) ==> session_keys_distinct(merged(acc, completed, cached)),
    decreases completed.len(),
{
    if completed.len() > 0 {
        let init = completed.drop_last();
        law_merge_restores_cached_rounds(acc, init, cached);
        let prev = merged(acc, init, cached);
        let e = completed.last();
        let m = merged(acc, completed, cached);
        assert(m == merge_step(prev, e, cached));
        lemma_cached_round_key(cached, e.1.session_key);
        if !has_session(prev, e.1.session_key) {
            if let Some(c) = cached_round(cached, e.1.session_key) {
                assert(m == prev.push(renumbered(e.0, round_view(c))));
                assert(m.subrange(0, acc.len() as int) =~= prev.subrange(0, acc.len() as int));
                assert(m[prev.len() as int].1 == e.1.session_key);
                assert forall|key: i64| #[trigger] has_session(prev, key) implies has_session(m, key) by {
                    let k = choose|k: int| 0 <= k < prev.len() && prev[k].1 == key;
                    assert(m[k] == prev[k]);
                }
                if session_keys_distinct(acc) {
                    assert forall|a: int, b: int| 0 <= a < b < m.len() implies m[a].1 != m[b].1 by {
                        if b == prev.len() {
                            assert(m[a] == prev[a]);
                        } else {
                            assert(m[a] == prev[a] && m[b] == prev[b]);
                        }
                    }
                }
            }
        }
        assert forall|j: int|
            0 <= j < completed.len() && #[trigger] cached_round(cached, completed[j].1.session_key)
                is Some implies has_session(m, completed[j].1.session_key) by {
            if j < init.len() {
                assert(init[j] == completed[j]);
                assert(has_session(prev, init[j].1.session_key));
            } else {
                assert(completed[j] == e);
                if has_session(prev, e.1.session_key) {
                    assert(has_session(prev, e.1.session_key));
                } else {
                    assert(m[prev.len() as int].1 == e.1.session_key);
                }
            }
        }
    } else {
        assert(merged(acc, completed, cached).subrange(0, acc.len() as int) =~= acc);
    }
}

/// Sorting rounds by round number keeps every round and puts the numbers in order.
pub proof fn law_rounds_by_number(rs: Seq<RoundView>)
    requires
        rs.len() <= usize::MAX,
    ensures
        by_round(rs).len() == rs.len(),
        forall|a: int, b: int| 0 <= a < b < rs.len() ==> by_round(rs)[a].0 <= by_round(rs)[b].0,
        forall|i: int|
            #![trigger rs[i]]
            0 <= i < rs.len() ==> exists|k: int| 0 <= k < rs.len() && by_round(rs)[k] == rs[i],
        forall|k: int| 0 <= k < rs.len() ==> rs.contains(#[trigger] by_round(rs)[k]),
{
    let numbers = rs.map_values(|r: RoundView| r.0 as i64);
    let o = stable_order(single_keys(numbers), false, rs.len());
    crate::domain::countdown::lemma_single_keys_sorted(numbers, false);
    crate::order::lemma_stable_order_permutes(single_keys(numbers), false, rs.len());
    let s = by_round(rs);
    assert(s == arrange(rs, o));
    assert forall|a: int, b: int| 0 <= a < b < rs.len() implies s[a].0 <= s[b].0 by {
        assert(numbers[o[a] as int] <= numbers[o[b] as int]);
    }
    assert forall|i: int| #![trigger rs[i]] 0 <= i < rs.len() implies exists|k: int|
        0 <= k < rs.len() && s[k] == rs[i] by {
        assert(o.contains(i as usize));
        let k = choose|k: int| 0 <= k < o.len() && o[k] == i as usize;
        assert(s[k] == rs[i]);
    }
    assert forall|k: int| 0 <= k < rs.len() implies rs.contains(#[trigger] s[k]) by {
        assert(s[k] == rs[o[k] as int]);
    }
}

} // verus!
