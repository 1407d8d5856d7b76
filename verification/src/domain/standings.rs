use vstd::prelude::*;

use crate::domain::championship::{
    constructor_code, constructor_code_text, constructor_colour, driver_entry, find_driver_entry,
    find_team_entry, race_ranking, rank_teams_by_race, team_accent, team_entry,
    ChampionshipRoundSnapshot, ChampionshipTab, ChartMode, DriverStandingSnapshot,
    RaceResultSnapshot, TeamStandingSnapshot,
};
use crate::domain::countdown::{arrange, single_key_vec, single_keys};
use crate::domain::drivers::{
    colour_of, colour_text_ok, display_name_text, driver_display_name, find_driver_index,
    roster_colours_ok, roster_lookup, roster_match, team_colour, Rgb8,
};
use crate::domain::grid::GridSlot;
use crate::order::{keys_view, lemma_stable_order_permutes, stable_order, stable_sort_indices};
use crate::records::Driver;
use crate::text::{
    ascii_upper, i64_text, int_text, new_text, push_char, trimmed, to_ascii_uppercase, trim,
    append_text,
};

verus! {

#[derive(Debug, Clone, Copy, PartialEq, Eq, Structural)]
pub enum PositionChange {
    Improved,
    Worsened,
    Unchanged,
}

/// One line of the standings table.
#[derive(Debug)]
pub struct StandingRow {
    pub position: i64,
    pub position_label: String,
    pub label: String,
    pub code: String,
    pub accent: Option<Rgb8>,
    pub grid_position: Option<i64>,
    pub position_change: Option<PositionChange>,
}

impl StandingRow {
    pub fn duplicate(&self) -> (r: Self)
        ensures
            r == *self,
    {
        StandingRow {
            position: self.position,
            position_label: self.position_label.clone(),
            label: self.label.clone(),
            code: self.code.clone(),
            accent: self.accent,
            grid_position: self.grid_position,
            position_change: self.position_change,
        }
    }
}

/// What a standings row shows: position, position label, label, code, accent, grid slot and
/// change of position.
pub type RowView = (
    i64,
    Seq<char>,
    Seq<char>,
    Seq<char>,
    Option<Rgb8>,
    Option<i64>,
    Option<PositionChange>,
);

pub open spec fn row_view(r: StandingRow) -> RowView {
    (r.position, r.position_label@, r.label@, r.code@, r.accent, r.grid_position, r.position_change)
}

pub open spec fn row_views(rows: Seq<StandingRow>) -> Seq<RowView> {
    rows.map_values(|r: StandingRow| row_view(r))
}

/// Rows in order of position; rows with equal positions keep their order (stable sort).
pub open spec fn by_position(rows: Seq<RowView>) -> Seq<RowView> {
    arrange(rows, stable_order(single_keys(rows.map_values(|r: RowView| r.0)), false, rows.len()))
}

/// How a position compares with an earlier one: a smaller number is an improvement.
pub open spec fn change_between(from: Option<i64>, to: i64) -> Option<PositionChange> {
    match from {
        None => None,
        Some(f) => if f == to {
            Some(PositionChange::Unchanged)
        } else if to < f {
            Some(PositionChange::Improved)
        } else {
            Some(PositionChange::Worsened)
        },
    }
}

pub fn position_change(from: Option<i64>, to: i64) -> (r: Option<PositionChange>)
    ensures
        r == change_between(from, to),
{
    match from {
        None => None,
        Some(f) => if f == to {
            Some(PositionChange::Unchanged)
        } else if to < f {
            Some(PositionChange::Improved)
        } else {
            Some(PositionChange::Worsened)
        },
    }
}

/// Position markers compare the new position with the earlier one: no earlier position gives
/// no marker; the same position is unchanged; a smaller number is an improvement and a larger
/// one a worsening.
pub proof fn law_position_change_compares(from: i64, to: i64)
    ensures
        change_between(None, to) is None,
        change_between(Some(from), to) is Some,
        (change_between(Some(from), to) == Some(PositionChange::Unchanged)) == (from == to),
        (change_between(Some(from), to) == Some(PositionChange::Improved)) == (to < from),
        (change_between(Some(from), to) == Some(PositionChange::Worsened)) == (to > from),
{
}

/// The label of a race result: DSQ, DNS or DNF (in that precedence), else the position.
pub open spec fn result_label(r: RaceResultSnapshot) -> Seq<char> {
    if r.dsq {
        "DSQ"@
    } else if r.dns {
        "DNS"@
    } else if r.dnf {
        "DNF"@
    } else {
        int_text(r.classified_position as int)
    }
}

pub fn race_result_position_label(result: &RaceResultSnapshot) -> (r: String)
    ensures
        r@ == result_label(*result),
{
    if result.dsq {
        new_text("DSQ")
    } else if result.dns {
        new_text("DNS")
    } else if result.dnf {
        new_text("DNF")
    } else {
        i64_text(result.classified_position)
    }
}

/// The grid slot of a driver: the first slot with its number.
pub open spec fn slot_position(grid: Seq<GridSlot>, n: i64) -> Option<i64>
    decreases grid.len(),
{
    if grid.len() == 0 {
        None
    } else if grid[0].driver_number == n {
        Some(grid[0].position)
    } else {
        slot_position(grid.drop_first(), n)
    }
}

pub fn grid_position_for_driver(round: &ChampionshipRoundSnapshot, driver_number: i64) -> (r:
    Option<i64>)
    ensures
        r == slot_position(round.starting_grid@, driver_number),
{
    let grid = &round.starting_grid;
    let mut i: usize = 0;
    assert(grid@.subrange(0, grid@.len() as int) =~= grid@);
    while i < grid.len()
        invariant
            grid@ == round.starting_grid@,
            i <= grid@.len(),
            slot_position(grid@, driver_number) == slot_position(
                grid@.subrange(i as int, grid@.len() as int),
                driver_number,
            ),
        decreases grid.len() - i,
    {
        let ghost rest = grid@.subrange(i as int, grid@.len() as int);
        assert(rest[0] == grid@[i as int]);
        if grid[i].driver_number == driver_number {
            assert(slot_position(rest, driver_number) == Some(grid@[i as int].position));
            return Some(grid[i].position);
        }
        assert(rest.drop_first() =~= grid@.subrange(i + 1, grid@.len() as int));
        i = i + 1;
    }
    None
}

/// `#` and the number: the label of a driver the roster does not know.
pub open spec fn number_label(n: i64) -> Seq<char> {
    seq!['#'] + int_text(n as int)
}

pub open spec fn row_label(driver: Option<Driver>, n: i64) -> Seq<char> {
    match driver {
        Some(d) => if d.full_name@.len() > 0 {
            d.full_name@
        } else {
            number_label(n)
        },
        None => number_label(n),
    }
}

/// The trimmed acronym in upper case; the display name when the acronym is blank.
pub open spec fn row_code(driver: Option<Driver>, n: i64) -> Seq<char> {
    match driver {
        Some(d) => if trimmed(d.name_acronym@).len() == 0 {
            display_name_text(d)
        } else {
            ascii_upper(trimmed(d.name_acronym@))
        },
        None => number_label(n),
    }
}

pub open spec fn grey() -> Option<Rgb8> {
    Some(Rgb8 { r: 128, g: 128, b: 128 })
}

pub open spec fn row_accent(driver: Option<Driver>) -> Option<Rgb8> {
    match driver {
        Some(d) => colour_of(d.team_colour@),
        None => grey(),
    }
}

/// The row of a driver at `position`, the other columns given.
pub open spec fn driver_row_view(
    n: i64,
    position: i64,
    roster: Seq<Driver>,
    position_label: Seq<char>,
    grid: Option<i64>,
    change: Option<PositionChange>,
) -> RowView {
    let d = roster_lookup(roster, n);
    (position, position_label, row_label(d, n), row_code(d, n), row_accent(d), grid, change)
}

fn number_text(n: i64) -> (r: String)
    ensures
        r@ == number_label(n),
{
    let mut s = String::new();
    push_char(&mut s, '#');
    let digits = i64_text(n);
    append_text(&mut s, digits.as_str());
    s
}

/// The row of driver `driver_number` at `position`, with no grid slot and no change.
pub fn driver_row(driver_number: i64, position: i64, roster: &Vec<Driver>) -> (r: StandingRow)
    requires
        roster_colours_ok(roster@),
    ensures
        row_view(r) == driver_row_view(
            driver_number,
            position,
            roster@,
            int_text(position as int),
            None,
            None,
        ),
{
    let found = find_driver_index(roster, driver_number);
    let ghost d = roster_lookup(roster@, driver_number);
    match found {
        Some(i) => {
            proof {
                assert(roster_match(roster@, driver_number, i as int));
                assert forall|x: int| roster_match(roster@, driver_number, x) implies x == i by {
                    if x < i {
                    } else if x > i {
                        assert(roster@[i as int].driver_number == driver_number);
                    }
                }
                assert(d == Some(roster@[i as int]));
                assert(colour_text_ok(roster@[i as int].team_colour@));
            }
            let driver = &roster[i];
            let label = if driver.full_name.unicode_len() > 0 {
                driver.full_name.clone()
            } else {
                number_text(driver_number)
            };
            let acronym = trim(driver.name_acronym.as_str());
            let code = if acronym.unicode_len() == 0 {
                new_text(driver_display_name(driver))
            } else {
                to_ascii_uppercase(acronym)
            };
            let accent = team_colour(driver.team_colour.as_str());
            StandingRow {
                position,
                position_label: i64_text(position),
                label,
                code,
                accent,
                grid_position: None,
                position_change: None,
            }
        },
        None => {
            assert(d is None);
            StandingRow {
                position,
                position_label: i64_text(position),
                label: number_text(driver_number),
                code: number_text(driver_number),
                accent: Some(Rgb8 { r: 128, g: 128, b: 128 }),
                grid_position: None,
                position_change: None,
            }
        },
    }
}

/// Sorts rows by position, keeping the order of rows with equal positions.
pub fn sort_rows_by_position(rows: Vec<StandingRow>) -> (r: Vec<StandingRow>)
    ensures
        row_views(r@) == by_position(row_views(rows@)),
{
    let mut positions: Vec<i64> = Vec::new();
    let mut i: usize = 0;
    while i < rows.len()
        invariant
            i <= rows@.len(),
            positions@ == row_views(rows@).subrange(0, i as int).map_values(|r: RowView| r.0),
        decreases rows.len() - i,
    {
        positions.push(rows[i].position);
        assert(positions@ =~= row_views(rows@).subrange(0, (i + 1) as int).map_values(
            |r: RowView| r.0,
        ));
        i = i + 1;
    }
    assert(row_views(rows@).subrange(0, rows@.len() as int) =~= row_views(rows@));
    let keys = single_key_vec(&positions);
    let order = stable_sort_indices(&keys, false);
    assert(positions@.len() == rows@.len());
    assert(keys_view(keys@).len() == keys@.len());
    assert(single_keys(positions@).len() == positions@.len());
    let mut r: Vec<StandingRow> = Vec::new();
    let mut m: usize = 0;
    while m < order.len()
        invariant
            m <= order@.len(),
            r@.len() == m,
            order@.len() == rows@.len(),
            forall|x: int| 0 <= x < order@.len() ==> (order@[x] as int) < rows@.len(),
            row_views(r@) == arrange(row_views(rows@), order@).subrange(0, m as int),
        decreases order.len() - m,
    {
        let ghost before = r@;
        r.push(rows[order[m]].duplicate());
        assert(r@ == before.push(rows@[order@[m as int] as int]));
        assert(row_view(r@[m as int]) == row_view(rows@[order@[m as int] as int]));
        assert(row_views(r@)[m as int] == row_view(r@[m as int]));
        assert(row_views(rows@)[order@[m as int] as int] == row_view(rows@[order@[m as int] as int]));
        assert(row_views(r@) =~= arrange(row_views(rows@), order@).subrange(0, (m + 1) as int));
        m = m + 1;
    }
    assert(arrange(row_views(rows@), order@).subrange(0, order@.len() as int) =~= arrange(
        row_views(rows@),
        order@,
    ));
    assert(keys_view(keys@) == single_keys(row_views(rows@).map_values(|r: RowView| r.0)));
    r
}


/// The round before the latest one, when there is one.
pub open spec fn previous_round(rounds: Seq<ChampionshipRoundSnapshot>) -> Option<
    ChampionshipRoundSnapshot,
> {
    if rounds.len() >= 2 {
        Some(rounds[rounds.len() - 2])
    } else {
        None
    }
}

pub open spec fn previous_driver_position(previous: Option<ChampionshipRoundSnapshot>, n: i64) -> Option<
    i64,
> {
    match previous {
        Some(p) => match driver_entry(p.drivers@, n) {
            Some(e) => Some(e.position),
            None => None,
        },
        None => None,
    }
}

pub open spec fn previous_team_position(
    previous: Option<ChampionshipRoundSnapshot>,
    name: Seq<char>,
) -> Option<i64> {
    match previous {
        Some(p) => match team_entry(p.teams@, name) {
            Some(e) => Some(e.position),
            None => None,
        },
        None => None,
    }
}

/// Drivers' championship rows of the latest round, before sorting.
pub open spec fn driver_championship_views(
    rounds: Seq<ChampionshipRoundSnapshot>,
    roster: Seq<Driver>,
) -> Seq<RowView> {
    let previous = previous_round(rounds);
    rounds.last().drivers@.map_values(
        |e: DriverStandingSnapshot|
            driver_row_view(
                e.driver_number,
                e.position,
                roster,
                int_text(e.position as int),
                None,
                change_between(previous_driver_position(previous, e.driver_number), e.position),
            ),
    )
}

/// Race rows of a round, before sorting: each result against the driver's grid slot.
pub open spec fn driver_race_views(round: ChampionshipRoundSnapshot, roster: Seq<Driver>) -> Seq<
    RowView,
> {
    round.race_results@.map_values(
        |res: RaceResultSnapshot|
            driver_row_view(
                res.driver_number,
                res.classified_position,
                roster,
                result_label(res),
                slot_position(round.starting_grid@, res.driver_number),
                change_between(
                    slot_position(round.starting_grid@, res.driver_number),
                    res.classified_position,
                ),
            ),
    )
}

pub open spec fn team_row_view(
    t: TeamStandingSnapshot,
    roster: Seq<Driver>,
    position: i64,
    change: Option<PositionChange>,
) -> RowView {
    (
        position,
        int_text(position as int),
        t.team_name@,
        constructor_code_text(t.team_name@),
        team_accent(roster, t.team_name@),
        None,
        change,
    )
}

/// Constructors' championship rows of the latest round, before sorting.
pub open spec fn constructor_championship_views(
    rounds: Seq<ChampionshipRoundSnapshot>,
    roster: Seq<Driver>,
) -> Seq<RowView> {
    let previous = previous_round(rounds);
    rounds.last().teams@.map_values(
        |t: TeamStandingSnapshot|
            team_row_view(
                t,
                roster,
                t.position,
                change_between(previous_team_position(previous, t.team_name@), t.position),
            ),
    )
}

/// Constructors of a round in race order, numbered from 1.
pub open spec fn constructor_race_views(round: ChampionshipRoundSnapshot, roster: Seq<Driver>) -> Seq<
    RowView,
> {
    let ranking = race_ranking(round.teams@);
    Seq::new(ranking.len(), |k: int| team_row_view(ranking[k], roster, (k + 1) as i64, None))
}

/// The standings table for a tab and a chart mode, from the latest round; empty when there
/// is no round.
pub open spec fn standings_views(
    rounds: Seq<ChampionshipRoundSnapshot>,
    roster: Seq<Driver>,
    tab: ChampionshipTab,
    mode: ChartMode,
) -> Seq<RowView> {
    if rounds.len() == 0 {
        seq![]
    } else {
        match tab {
            ChampionshipTab::Drivers => match mode {
                ChartMode::Championship => by_position(driver_championship_views(rounds, roster)),
                ChartMode::RaceStanding => by_position(driver_race_views(rounds.last(), roster)),
            },
            ChampionshipTab::Constructors => match mode {
                ChartMode::Championship => by_position(
                    constructor_championship_views(rounds, roster),
                ),
                ChartMode::RaceStanding => constructor_race_views(rounds.last(), roster),
            },
        }
    }
}

fn driver_championship_rows(rounds: &Vec<ChampionshipRoundSnapshot>, roster: &Vec<Driver>) -> (r:
    Vec<StandingRow>)
    requires
        rounds@.len() > 0,
        roster_colours_ok(roster@),
    ensures
        row_views(r@) == by_position(driver_championship_views(rounds@, roster@)),
{
    let latest = &rounds[rounds.len() - 1];
    let standings = &latest.drivers;
    let ghost previous = previous_round(rounds@);
    let ghost target = driver_championship_views(rounds@, roster@);
    let mut rows: Vec<StandingRow> = Vec::new();
    let mut i: usize = 0;
    while i < standings.len()
        invariant
            rounds@.len() > 0,
            *latest == rounds@.last(),
            standings@ == latest.drivers@,
            roster_colours_ok(roster@),
            previous == previous_round(rounds@),
            target == driver_championship_views(rounds@, roster@),
            target.len() == standings@.len(),
            i <= standings@.len(),
            row_views(rows@) == target.subrange(0, i as int),
            rows@.len() == i,
        decreases standings.len() - i,
    {
        let entry = standings[i];
        let previous_position = if rounds.len() >= 2 {
            match find_driver_entry(&rounds[rounds.len() - 2].drivers, entry.driver_number) {
                Some(e) => Some(e.position),
                None => None,
            }
        } else {
            None
        };
        assert(previous_position == previous_driver_position(previous, entry.driver_number));
        let mut row = driver_row(entry.driver_number, entry.position, roster);
        row.position_change = position_change(previous_position, entry.position);
        let ghost before = rows@;
        rows.push(row);
        assert(row_views(rows@) =~= target.subrange(0, (i + 1) as int)) by {
            assert(rows@ == before.push(row));
            assert(row_views(rows@)[i as int] == row_view(row));
            assert(target[i as int] == row_view(row));
        }
        i = i + 1;
    }
    assert(target.subrange(0, target.len() as int) =~= target);
    sort_rows_by_position(rows)
}

fn driver_race_rows(round: &ChampionshipRoundSnapshot, roster: &Vec<Driver>) -> (r: Vec<StandingRow>)
    requires
        roster_colours_ok(roster@),
    ensures
        row_views(r@) == by_position(driver_race_views(*round, roster@)),
{
    let results = &round.race_results;
    let ghost target = driver_race_views(*round, roster@);
    let mut rows: Vec<StandingRow> = Vec::new();
    let mut i: usize = 0;
    while i < results.len()
        invariant
            results@ == round.race_results@,
            roster_colours_ok(roster@),
            target == driver_race_views(*round, roster@),
            target.len() == results@.len(),
            i <= results@.len(),
            row_views(rows@) == target.subrange(0, i as int),
            rows@.len() == i,
        decreases results.len() - i,
    {
        let result = results[i];
        let position = result.classified_position;
        let grid_position = grid_position_for_driver(round, result.driver_number);
        let mut row = driver_row(result.driver_number, position, roster);
        row.position_label = race_result_position_label(&result);
        row.grid_position = grid_position;
        row.position_change = position_change(grid_position, position);
        let ghost before = rows@;
        rows.push(row);
        assert(row_views(rows@) =~= target.subrange(0, (i + 1) as int)) by {
            assert(rows@ == before.push(row));
            assert(row_views(rows@)[i as int] == row_view(row));
            assert(target[i as int] == row_view(row));
        }
        i = i + 1;
    }
    assert(target.subrange(0, target.len() as int) =~= target);
    sort_rows_by_position(rows)
}

fn team_row(t: &TeamStandingSnapshot, roster: &Vec<Driver>, position: i64, change: Option<PositionChange>) -> (r: StandingRow)
    requires
        roster_colours_ok(roster@),
    ensures
        row_view(r) == team_row_view(*t, roster@, position, change),
{
    StandingRow {
        position,
        position_label: i64_text(position),
        label: t.team_name.clone(),
        code: constructor_code(t.team_name.as_str()),
        accent: constructor_colour(&t.team_name, roster),
        grid_position: None,
        position_change: change,
    }
}

fn constructor_championship_rows(rounds: &Vec<ChampionshipRoundSnapshot>, roster: &Vec<Driver>) -> (r:
    Vec<StandingRow>)
    requires
        rounds@.len() > 0,
        roster_colours_ok(roster@),
    ensures
        row_views(r@) == by_position(constructor_championship_views(rounds@, roster@)),
{
    let latest = &rounds[rounds.len() - 1];
    let teams = &latest.teams;
    let ghost previous = previous_round(rounds@);
    let ghost target = constructor_championship_views(rounds@, roster@);
    let mut rows: Vec<StandingRow> = Vec::new();
    let mut i: usize = 0;
    while i < teams.len()
        invariant
            rounds@.len() > 0,
            *latest == rounds@.last(),
            teams@ == latest.teams@,
            roster_colours_ok(roster@),
            previous == previous_round(rounds@),
            target == constructor_championship_views(rounds@, roster@),
            target.len() == teams@.len(),
            i <= teams@.len(),
            row_views(rows@) == target.subrange(0, i as int),
            rows@.len() == i,
        decreases teams.len() - i,
    {
        let team = &teams[i];
        let previous_position = if rounds.len() >= 2 {
            let before_teams = &rounds[rounds.len() - 2].teams;
            match find_team_entry(before_teams, &team.team_name) {
                Some(k) => Some(before_teams[k].position),
                None => None,
            }
        } else {
            None
        };
        assert(previous_position == previous_team_position(previous, team.team_name@));
        let row = team_row(team, roster, team.position, position_change(previous_position, team.position));
        let ghost before = rows@;
        rows.push(row);
        assert(row_views(rows@) =~= target.subrange(0, (i + 1) as int)) by {
            assert(rows@ == before.push(row));
            assert(row_views(rows@)[i as int] == row_view(row));
            assert(target[i as int] == row_view(row));
        }
        i = i + 1;
    }
    assert(target.subrange(0, target.len() as int) =~= target);
    sort_rows_by_position(rows)
}

fn constructor_race_rows(round: &ChampionshipRoundSnapshot, roster: &Vec<Driver>) -> (r: Vec<
    StandingRow,
>)
    requires
        roster_colours_ok(roster@),
        round.teams@.len() < i64::MAX,
    ensures
        row_views(r@) == constructor_race_views(*round, roster@),
{
    let total = round.teams.len();
    let ranked = rank_teams_by_race(&round.teams);
    let ghost target = constructor_race_views(*round, roster@);
    assert(ranked@.len() <= round.teams@.len()) by {
        crate::domain::championship::lemma_filter_subset(round.teams@, crate::domain::championship::scoring());
        assert(round.teams@.len() == total);
        assert(crate::domain::championship::rank_pool(round.teams@).len() <= round.teams@.len());
        lemma_stable_order_permutes(
            crate::domain::championship::race_rank_keys(
                crate::domain::championship::rank_pool(round.teams@),
            ),
            false,
            crate::domain::championship::rank_pool(round.teams@).len(),
        );
    }
    let mut rows: Vec<StandingRow> = Vec::new();
    let mut k: usize = 0;
    while k < ranked.len()
        invariant
            roster_colours_ok(roster@),
            ranked@ == race_ranking(round.teams@),
            ranked@.len() < i64::MAX,
            target == constructor_race_views(*round, roster@),
            target.len() == ranked@.len(),
            k <= ranked@.len(),
            row_views(rows@) == target.subrange(0, k as int),
            rows@.len() == k,
        decreases ranked.len() - k,
    {
        let row = team_row(&ranked[k], roster, k as i64 + 1, None);
        let ghost before = rows@;
        rows.push(row);
        assert(row_views(rows@) =~= target.subrange(0, (k + 1) as int)) by {
            assert(rows@ == before.push(row));
            assert(row_views(rows@)[k as int] == row_view(row));
            assert(target[k as int] == row_view(row));
        }
        k = k + 1;
    }
    assert(target.subrange(0, target.len() as int) =~= target);
    rows
}

/// The standings table of the latest round for a tab and a chart mode (see `standings_views`).
pub fn build_standings(
    rounds: &Vec<ChampionshipRoundSnapshot>,
    roster: &Vec<Driver>,
    tab: ChampionshipTab,
    mode: ChartMode,
) -> (r: Vec<StandingRow>)
    requires
        roster_colours_ok(roster@),
        rounds@.len() > 0 ==> rounds@.last().teams@.len() < i64::MAX,
    ensures
        row_views(r@) == standings_views(rounds@, roster@, tab, mode),
{
    if rounds.len() == 0 {
        let r: Vec<StandingRow> = Vec::new();
        assert(row_views(r@) =~= seq![]);
        return r;
    }
    let latest = &rounds[rounds.len() - 1];
    match tab {
        ChampionshipTab::Drivers => match mode {
            ChartMode::Championship => driver_championship_rows(rounds, roster),
            ChartMode::RaceStanding => driver_race_rows(latest, roster),
        },
        ChampionshipTab::Constructors => match mode {
            ChartMode::Championship => constructor_championship_rows(rounds, roster),
            ChartMode::RaceStanding => constructor_race_rows(latest, roster),
        },
    }
}

} // verus!

verus! {

/// Sorting rows by position keeps every row and puts the positions in order, the smallest
/// first.
pub proof fn law_rows_by_position(rows: Seq<RowView>)
    requires
        rows.len() <= usize::MAX,
    ensures
        by_position(rows).len() == rows.len(),
        forall|a: int, b: int|
            0 <= a < b < rows.len() ==> by_position(rows)[a].0 <= by_position(rows)[b].0,
        forall|i: int|
            #![trigger rows[i]]
            0 <= i < rows.len() ==> exists|k: int| 0 <= k < rows.len() && by_position(rows)[k] == rows[i],
        forall|k: int| 0 <= k < rows.len() ==> rows.contains(#[trigger] by_position(rows)[k]),
{
    let positions = rows.map_values(|r: RowView| r.0);
    let o = stable_order(single_keys(positions), false, rows.len());
    crate::domain::countdown::lemma_single_keys_sorted(positions, false);
    crate::order::lemma_stable_order_permutes(single_keys(positions), false, rows.len());
    let s = by_position(rows);
    assert(s == arrange(rows, o));
    assert forall|a: int, b: int| 0 <= a < b < rows.len() implies s[a].0 <= s[b].0 by {
        assert(positions[o[a] as int] <= positions[o[b] as int]);
    }
    assert forall|i: int| #![trigger rows[i]] 0 <= i < rows.len() implies exists|k: int|
        0 <= k < rows.len() && s[k] == rows[i] by {
        assert(o.contains(i as usize));
        let k = choose|k: int| 0 <= k < o.len() && o[k] == i as usize;
        assert(s[k] == rows[i]);
    }
    assert forall|k: int| 0 <= k < rows.len() implies rows.contains(#[trigger] s[k]) by {
        assert(s[k] == rows[o[k] as int]);
    }
}

/// Every standings table, whatever the tab and the chart mode, lists its rows by position,
/// the smallest first.
pub proof fn law_standings_in_position_order(
    rounds: Seq<ChampionshipRoundSnapshot>,
    roster: Seq<Driver>,
    tab: ChampionshipTab,
    mode: ChartMode,
)
    requires
        rounds.len() > 0 ==> rounds.last().teams@.len() < i64::MAX,
        rounds.len() > 0 ==> rounds.last().teams@.len() <= usize::MAX,
        rounds.len() > 0 ==> rounds.last().drivers@.len() <= usize::MAX,
        rounds.len() > 0 ==> rounds.last().race_results@.len() <= usize::MAX,
    ensures
        forall|a: int, b: int|
            0 <= a < b < standings_views(rounds, roster, tab, mode).len() ==> standings_views(
                rounds,
                roster,
                tab,
                mode,
            )[a].0 <= standings_views(rounds, roster, tab, mode)[b].0,
{
    if rounds.len() > 0 {
        match tab {
            ChampionshipTab::Drivers => match mode {
                ChartMode::Championship => law_rows_by_position(driver_championship_views(rounds, roster)),
                ChartMode::RaceStanding => law_rows_by_position(driver_race_views(rounds.last(), roster)),
            },
            ChampionshipTab::Constructors => match mode {
                ChartMode::Championship => law_rows_by_position(
                    constructor_championship_views(rounds, roster),
                ),
                ChartMode::RaceStanding => {
                    let teams = rounds.last().teams@;
                    let pool = crate::domain::championship::rank_pool(teams);
                    teams.lemma_filter_len(crate::domain::championship::scoring());
                    assert(pool.len() <= teams.len());
                    crate::order::lemma_stable_order_permutes(
                        crate::domain::championship::race_rank_keys(pool),
                        false,
                        pool.len(),
                    );
                    let v = constructor_race_views(rounds.last(), roster);
                    assert(v.len() <= teams.len());
                    assert forall|a: int, b: int| 0 <= a < b < v.len() implies v[a].0 <= v[b].0 by {
                        assert(v[a].0 == (a + 1) as i64);
                        assert(v[b].0 == (b + 1) as i64);
                    }
                },
            },
        }
    }
}

} // verus!
