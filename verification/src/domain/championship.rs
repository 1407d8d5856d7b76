use vstd::prelude::*;

use crate::clock::{session_ends, session_ends_resolve, session_starts, session_starts_resolve};
use crate::domain::countdown::arrange;
use crate::domain::drivers::{
    colour_from_hex, colour_of, colour_text_ok, display_name_text, driver_display_name,
    find_driver_index, roster_colours_ok, roster_lookup,
    team_colour, PinnedDriver, Rgb8,
};
use crate::domain::grid::GridSlot;
use crate::order::{keys_view, lemma_stable_order_permutes, stable_order, stable_sort_indices};
use crate::records::{Driver, Meeting, Session};
use crate::text::{
    append_text, ascii_lower, has_suffix, int_text, nat_digits, new_text, push_char,
    spec_to_uppercase, trimmed, spec_words, split_whitespace, strip_suffix, text_eq,
    to_ascii_lowercase, to_uppercase, trim, u64_text,
};
use vstd::string::StringSliceAdditionalSpecFns;

verus! {

#[derive(Debug, Clone, Copy, PartialEq, Eq, Structural, Default)]
pub enum ChampionshipTab {
    #[default]
    Drivers,
    Constructors,
}

#[derive(Debug, Clone, Copy, PartialEq, Eq, Structural, Default)]
pub enum ChartMode {
    #[default]
    Championship,
    RaceStanding,
}

impl ChampionshipTab {
    /// Reads a stored tab key; anything but `constructors` (trimmed, any ASCII case) is the
    /// drivers tab.
    pub fn from_key(value: &str) -> (r: Self)
        ensures
            r == (if ascii_lower(trimmed(value@)) == "constructors"@ {
                ChampionshipTab::Constructors
            } else {
                ChampionshipTab::Drivers
            }),
    {
        let key = to_ascii_lowercase(trim(value));
        if text_eq(key.as_str(), "constructors") {
            ChampionshipTab::Constructors
        } else {
            ChampionshipTab::Drivers
        }
    }

    pub fn key(self) -> (r: &'static str)
        ensures
            r@ == (match self {
                ChampionshipTab::Drivers => "drivers"@,
                ChampionshipTab::Constructors => "constructors"@,
            }),
    {
        match self {
            ChampionshipTab::Drivers => "drivers",
            ChampionshipTab::Constructors => "constructors",
        }
    }
}

impl ChartMode {
    /// Reads a stored chart-mode key: `race_standing` or `race` (trimmed, any ASCII case) is the
    /// race-standing mode, anything else the championship mode.
    pub fn from_key(value: &str) -> (r: Self)
        ensures
            r == (if ascii_lower(trimmed(value@)) == "race_standing"@ || ascii_lower(
                trimmed(value@),
            ) == "race"@ {
                ChartMode::RaceStanding
            } else {
                ChartMode::Championship
            }),
    {
        let key = to_ascii_lowercase(trim(value));
        if text_eq(key.as_str(), "race_standing") || text_eq(key.as_str(), "race") {
            ChartMode::RaceStanding
        } else {
            ChartMode::Championship
        }
    }

    pub fn key(self) -> (r: &'static str)
        ensures
            r@ == (match self {
                ChartMode::Championship => "championship"@,
                ChartMode::RaceStanding => "race_standing"@,
            }),
    {
        match self {
            ChartMode::Championship => "championship",
            ChartMode::RaceStanding => "race_standing",
        }
    }
}

#[derive(Debug, Clone, Copy, PartialEq, Eq, Structural)]
pub struct StandingPoint {
    pub round: u32,
    pub position: i64,
    pub points: i64,
}

/// One line of a chart. `color` is `None` where the theme's muted colour is used.
#[derive(Debug, Clone)]
pub struct ChartSeries {
    pub label: String,
    pub code: String,
    pub color: Option<Rgb8>,
    pub points: Vec<StandingPoint>,
}

/// Standings after one race of the season.
#[derive(Debug, Clone)]
pub struct ChampionshipRoundSnapshot {
    pub round: u32,
    pub session_key: i64,
    pub meeting_key: i64,
    pub drivers: Vec<DriverStandingSnapshot>,
    pub teams: Vec<TeamStandingSnapshot>,
    pub race_results: Vec<RaceResultSnapshot>,
    pub starting_grid: Vec<GridSlot>,
}

#[derive(Debug, Clone, Copy, PartialEq, Eq, Structural)]
pub struct RaceResultSnapshot {
    pub driver_number: i64,
    pub classified_position: i64,
    pub dnf: bool,
    pub dns: bool,
    pub dsq: bool,
    pub points: i64,
}

#[derive(Debug, Clone, Copy, PartialEq, Eq, Structural)]
pub struct DriverStandingSnapshot {
    pub driver_number: i64,
    pub position: i64,
    pub points: i64,
    pub race_points: i64,
}

#[derive(Debug, Clone, PartialEq, Eq)]
pub struct TeamStandingSnapshot {
    pub team_name: String,
    pub position: i64,
    pub points: i64,
    pub race_points: i64,
}

impl TeamStandingSnapshot {
    pub fn duplicate(&self) -> (r: Self)
        ensures
            r == *self,
    {
        TeamStandingSnapshot {
            team_name: self.team_name.clone(),
            position: self.position,
            points: self.points,
            race_points: self.race_points,
        }
    }
}

#[derive(Debug, Clone, Copy, PartialEq, Eq, Structural)]
pub struct PositionAxis {
    pub min: u32,
    pub max: u32,
}

/// A race result as the results endpoint gives it (`position` is `None` for non-finishers).
#[derive(Debug, Clone, Copy, PartialEq, Eq, Structural)]
pub struct RaceResultInput {
    pub driver_number: i64,
    pub position: Option<i64>,
    pub number_of_laps: i64,
    pub dnf: bool,
    pub dns: bool,
    pub dsq: bool,
    pub points: i64,
}

// ---------------------------------------------------------------------------------------------
// Race classification
pub open spec fn finished(r: RaceResultInput) -> bool {
    match r.position {
        Some(p) => p > 0,
        None => false,
    }
}

pub open spec fn is_finisher() -> spec_fn(RaceResultInput) -> bool {
    |r: RaceResultInput| finished(r)
}

pub open spec fn is_non_finisher() -> spec_fn(RaceResultInput) -> bool {
    |r: RaceResultInput| !finished(r)
}

/// Finishers are ordered by their position.
pub open spec fn finisher_keys(f: Seq<RaceResultInput>) -> Seq<Seq<i64>> {
    f.map_values(|r: RaceResultInput| seq![r.position->0])
}

/// Non-finishers are ordered by laps completed (more first), then by car number.
pub open spec fn non_finisher_keys(o: Seq<RaceResultInput>) -> Seq<Seq<i64>> {
    o.map_values(|r: RaceResultInput| seq![(-1 - r.number_of_laps) as i64, r.driver_number])
}

pub open spec fn max_position(f: Seq<RaceResultInput>) -> int
    decreases f.len(),
{
    if f.len() == 0 {
        0
    } else {
        let rest = max_position(f.drop_last());
        let p = f.last().position->0 as int;
        if p > rest {
            p
        } else {
            rest
        }
    }
}

pub open spec fn snapshot_of(r: RaceResultInput, position: int) -> RaceResultSnapshot {
    RaceResultSnapshot {
        driver_number: r.driver_number,
        classified_position: position as i64,
        dnf: r.dnf,
        dns: r.dns,
        dsq: r.dsq,
        points: r.points,
    }
}

/// Finishers in position order keep their position; the others follow in order of laps
/// completed, numbered on from the last finishing position.
pub open spec fn classification(rows: Seq<RaceResultInput>) -> Seq<RaceResultSnapshot> {
    let f = rows.filter(is_finisher());
    let o = rows.filter(is_non_finisher());
    let fo = arrange(f, stable_order(finisher_keys(f), false, f.len()));
    let oo = arrange(o, stable_order(non_finisher_keys(o), false, o.len()));
    let top = max_position(f);
    fo.map_values(|r: RaceResultInput| snapshot_of(r, r.position->0 as int)) + Seq::new(
        oo.len(),
        |k: int| snapshot_of(oo[k], top + 1 + k),
    )
}

fn split_finishers(rows: &Vec<RaceResultInput>) -> (r: (Vec<RaceResultInput>, Vec<RaceResultInput>))
    ensures
        r.0@ == rows@.filter(is_finisher()),
        r.1@ == rows@.filter(is_non_finisher()),
{
    let mut f: Vec<RaceResultInput> = Vec::new();
    let mut o: Vec<RaceResultInput> = Vec::new();
    let mut i: usize = 0;
    while i < rows.len()
        invariant
            i <= rows@.len(),
            f@ == rows@.subrange(0, i as int).filter(is_finisher()),
            o@ == rows@.subrange(0, i as int).filter(is_non_finisher()),
        decreases rows.len() - i,
    {
        proof {
            reveal(Seq::filter);
            assert(rows@.subrange(0, (i + 1) as int).drop_last() =~= rows@.subrange(0, i as int));
        }
        let row = rows[i];
        let fin = match row.position {
            Some(p) => p > 0,
            None => false,
        };
        if fin {
            f.push(row);
        } else {
            o.push(row);
        }
        i = i + 1;
    }
    assert(rows@.subrange(0, rows@.len() as int) =~= rows@);
    (f, o)
}

pub(crate) proof fn lemma_filter_subset<A>(s: Seq<A>, p: spec_fn(A) -> bool)
    ensures
        forall|k: int| 0 <= k < s.filter(p).len() ==> s.contains(#[trigger] s.filter(p)[k]),
        s.filter(p).len() <= s.len(),
    decreases s.len(),
{
    reveal(Seq::filter);
    if s.len() > 0 {
        lemma_filter_subset(s.drop_last(), p);
        assert forall|k: int| 0 <= k < s.filter(p).len() implies s.contains(#[trigger] s.filter(p)[k]) by {
            let sub = s.drop_last().filter(p);
            if k < sub.len() {
                assert(s.drop_last().contains(sub[k]));
                let m = choose|m: int| 0 <= m < s.drop_last().len() && s.drop_last()[m] == sub[k];
                assert(s[m] == sub[k]);
            } else {
                assert(s[s.len() - 1] == s.last());
            }
        }
    }
}

proof fn lemma_max_position_bound(f: Seq<RaceResultInput>, bound: int)
    requires
        bound >= 0,
        forall|k: int| 0 <= k < f.len() ==> (#[trigger] f[k]).position->0 <= bound,
    ensures
        0 <= max_position(f) <= bound,
    decreases f.len(),
{
    if f.len() > 0 {
        assert forall|k: int| 0 <= k < f.drop_last().len() implies (#[trigger] f.drop_last()[k]).position->0 <= bound by {
            assert(f.drop_last()[k] == f[k]);
        }
        lemma_max_position_bound(f.drop_last(), bound);
        assert(f[f.len() - 1] == f.last());
    }
}

fn position_keys(f: &Vec<RaceResultInput>) -> (r: Vec<Vec<i64>>)
    requires
        forall|k: int| 0 <= k < f@.len() ==> finished(#[trigger] f@[k]),
    ensures
        keys_view(r@) == finisher_keys(f@),
{
    let mut r: Vec<Vec<i64>> = Vec::new();
    let mut i: usize = 0;
    while i < f.len()
        invariant
            i <= f@.len(),
            r@.len() == i,
            forall|j: int| 0 <= j < i ==> (#[trigger] r@[j])@ == seq![f@[j].position->0],
            forall|k: int| 0 <= k < f@.len() ==> finished(#[trigger] f@[k]),
        decreases f.len() - i,
    {
        let mut k: Vec<i64> = Vec::new();
        assert(finished(f@[i as int]));
        let p = match f[i].position {
            Some(p) => p,
            None => 0,
        };
        k.push(p);
        assert(k@ =~= seq![f@[i as int].position->0]);
        r.push(k);
        i = i + 1;
    }
    assert(keys_view(r@) =~= finisher_keys(f@));
    r
}

fn laps_keys(o: &Vec<RaceResultInput>) -> (r: Vec<Vec<i64>>)
    ensures
        keys_view(r@) == non_finisher_keys(o@),
{
    let mut r: Vec<Vec<i64>> = Vec::new();
    let mut i: usize = 0;
    while i < o.len()
        invariant
            i <= o@.len(),
            r@.len() == i,
            forall|j: int|
                0 <= j < i ==> (#[trigger] r@[j])@ == seq![
                    (-1 - o@[j].number_of_laps) as i64,
                    o@[j].driver_number,
                ],
        decreases o.len() - i,
    {
        let mut k: Vec<i64> = Vec::new();
        k.push(-1 - o[i].number_of_laps);
        k.push(o[i].driver_number);
        assert(k@ =~= seq![(-1 - o@[i as int].number_of_laps) as i64, o@[i as int].driver_number]);
        r.push(k);
        i = i + 1;
    }
    assert(keys_view(r@) =~= non_finisher_keys(o@));
    r
}

/// Final classification of a race: finishers by position, then non-finishers by laps completed
/// (ties by car number), numbered on after the last finishing position.
pub fn classify_race_results(rows: &Vec<RaceResultInput>) -> (r: Vec<RaceResultSnapshot>)
    requires
        rows@.len() < i64::MAX,
        forall|k: int|
            0 <= k < rows@.len() ==> ((#[trigger] rows@[k]).position matches Some(p) ==> p <= i64::MAX
                - rows@.len()),
    ensures
        r@ == classification(rows@),
{
    let (f, o) = split_finishers(rows);
    proof {
        broadcast use vstd::seq_lib::group_filter_ensures;

        assert forall|k: int| 0 <= k < f@.len() implies finished(#[trigger] f@[k]) by {
            assert(is_finisher()(rows@.filter(is_finisher())[k]));
        }
        lemma_filter_subset(rows@, is_finisher());
        lemma_filter_subset(rows@, is_non_finisher());
        assert forall|k: int| 0 <= k < f@.len() implies (#[trigger] f@[k]).position->0 <= i64::MAX
            - rows@.len() by {
            assert(rows@.contains(f@[k]));
            let j = choose|j: int| 0 <= j < rows@.len() && rows@[j] == f@[k];
            assert(rows@[j].position matches Some(p) ==> p <= i64::MAX - rows@.len());
        }
        lemma_max_position_bound(f@, i64::MAX - rows@.len());
    }
    let fkeys = position_keys(&f);
    let okeys = laps_keys(&o);
    let forder = stable_sort_indices(&fkeys, false);
    let oorder = stable_sort_indices(&okeys, false);
    assert(keys_view(fkeys@).len() == fkeys@.len());
    assert(keys_view(okeys@).len() == okeys@.len());
    let ghost fo = arrange(f@, forder@);
    let ghost oo = arrange(o@, oorder@);
    let mut top: i64 = 0;
    let mut i: usize = 0;
    while i < f.len()
        invariant
            i <= f@.len(),
            top == max_position(f@.subrange(0, i as int)),
            forall|k: int| 0 <= k < f@.len() ==> (#[trigger] f@[k]).position->0 <= i64::MAX
                - rows@.len(),
            forall|k: int| 0 <= k < f@.len() ==> finished(#[trigger] f@[k]),
        decreases f.len() - i,
    {
        assert(f@.subrange(0, (i + 1) as int).drop_last() =~= f@.subrange(0, i as int));
        assert(finished(f@[i as int]));
        let p = match f[i].position {
            Some(p) => p,
            None => 0,
        };
        if p > top {
            top = p;
        }
        i = i + 1;
    }
    assert(f@.subrange(0, f@.len() as int) =~= f@);
    let mut classified: Vec<RaceResultSnapshot> = Vec::new();
    let mut k: usize = 0;
    while k < forder.len()
        invariant
            k <= forder@.len(),
            forder@.len() == f@.len(),
            forall|m: int| 0 <= m < forder@.len() ==> (forder@[m] as int) < f@.len(),
            fo == arrange(f@, forder@),
            forall|x: int| 0 <= x < f@.len() ==> finished(#[trigger] f@[x]),
            classified@ == fo.subrange(0, k as int).map_values(
                |r: RaceResultInput| snapshot_of(r, r.position->0 as int),
            ),
        decreases forder.len() - k,
    {
        let row = f[forder[k]];
        assert(finished(f@[forder@[k as int] as int]));
        let position = match row.position {
            Some(p) => p,
            None => 0,
        };
        classified.push(
            RaceResultSnapshot {
                driver_number: row.driver_number,
                classified_position: position,
                dnf: row.dnf,
                dns: row.dns,
                dsq: row.dsq,
                points: row.points,
            },
        );
        assert(classified@ =~= fo.subrange(0, (k + 1) as int).map_values(
            |r: RaceResultInput| snapshot_of(r, r.position->0 as int),
        ));
        k = k + 1;
    }
    assert(fo.subrange(0, forder@.len() as int) =~= fo);
    let ghost head = classified@;
    proof {
        lemma_filter_subset(rows@, is_non_finisher());
    }
    let mut m: usize = 0;
    while m < oorder.len()
        invariant
            m <= oorder@.len(),
            oorder@.len() == o@.len(),
            o@.len() <= rows@.len(),
            0 <= top <= i64::MAX - rows@.len(),
            forall|j: int| 0 <= j < oorder@.len() ==> (oorder@[j] as int) < o@.len(),
            oo == arrange(o@, oorder@),
            classified@ == head + Seq::new(m as nat, |j: int| snapshot_of(oo[j], top + 1 + j)),
        decreases oorder.len() - m,
    {
        let row = o[oorder[m]];
        let next_position: i64 = top + 1 + (m as i64);
        classified.push(
            RaceResultSnapshot {
                driver_number: row.driver_number,
                classified_position: next_position,
                dnf: row.dnf,
                dns: row.dns,
                dsq: row.dsq,
                points: row.points,
            },
        );
        assert(classified@ =~= head + Seq::new((m + 1) as nat, |j: int| snapshot_of(oo[j], top + 1 + j)));
        m = m + 1;
    }
    assert(classified@ =~= classification(rows@));
    classified
}

/// Every driver of a race appears once in its classification: it has as many rows as the input.
pub proof fn law_classification_keeps_every_row(rows: Seq<RaceResultInput>)
    requires
        rows.len() <= usize::MAX,
    ensures
        classification(rows).len() == rows.len(),
{
    let f = rows.filter(is_finisher());
    let o = rows.filter(is_non_finisher());
    lemma_filter_partition_len(rows);
    lemma_filter_subset(rows, is_finisher());
    lemma_filter_subset(rows, is_non_finisher());
    lemma_stable_order_permutes(finisher_keys(f), false, f.len());
    lemma_stable_order_permutes(non_finisher_keys(o), false, o.len());
}

proof fn lemma_filter_partition_len(rows: Seq<RaceResultInput>)
    ensures
        rows.filter(is_finisher()).len() + rows.filter(is_non_finisher()).len() == rows.len(),
    decreases rows.len(),
{
    reveal(Seq::filter);
    if rows.len() > 0 {
        lemma_filter_partition_len(rows.drop_last());
    }
}

// ---------------------------------------------------------------------------------------------
// Round labels
pub open spec fn gp_short_text(m: Meeting) -> Seq<char> {
    let name = trimmed(m.meeting_name@);
    if name.len() == 0 {
        m.location@
    } else if has_suffix(name, " Grand Prix"@) {
        name.subrange(0, name.len() - " Grand Prix"@.len())
    } else {
        name
    }
}

/// Short name of a Grand Prix: the meeting name without " Grand Prix" (the location when the
/// name is blank).
pub fn gp_short_name(meeting: &Meeting) -> (r: String)
    ensures
        r@ == gp_short_text(*meeting),
{
    let name = trim(meeting.meeting_name.as_str());
    if name.unicode_len() == 0 {
        return meeting.location.clone();
    }
    match strip_suffix(name, " Grand Prix") {
        Some(stripped) => stripped,
        None => new_text(name),
    }
}

pub open spec fn axis_label_text(meeting: Option<Meeting>, session: Option<Session>, round: u32) -> Seq<
    char,
> {
    let session_name = match session {
        Some(s) => s.session_name@,
        None => "Race"@,
    };
    if session_name == "Sprint"@ {
        match meeting {
            Some(m) => gp_short_text(m) + " Sprint"@,
            None => "Sprint"@,
        }
    } else {
        match meeting {
            Some(m) => gp_short_text(m),
            None => match session {
                Some(s) => s.location@,
                None => nat_digits(round as nat),
            },
        }
    }
}

/// Label under a round of the chart: the Grand Prix's short name ("… Sprint" for sprints),
/// else the session's location, else the round number.
pub fn round_axis_label(meeting: Option<&Meeting>, session: Option<&Session>, round: u32) -> (r:
    String)
    ensures
        r@ == axis_label_text(
            match meeting {
                Some(m) => Some(*m),
                None => None,
            },
            match session {
                Some(s) => Some(*s),
                None => None,
            },
            round,
        ),
{
    let is_sprint = match session {
        Some(s) => text_eq(s.session_name.as_str(), "Sprint"),
        None => text_eq("Race", "Sprint"),
    };
    if is_sprint {
        return match meeting {
            Some(m) => {
                let mut label = gp_short_name(m);
                append_text(&mut label, " Sprint");
                label
            },
            None => new_text("Sprint"),
        };
    }
    match meeting {
        Some(m) => gp_short_name(m),
        None => match session {
            Some(s) => s.location.clone(),
            None => u64_text(round as u64),
        },
    }
}

pub open spec fn session_with_key(sessions: Seq<Session>, key: i64, i: int) -> bool {
    0 <= i < sessions.len() && sessions[i].session_key == key && forall|j: int|
        0 <= j < i ==> sessions[j].session_key != key
}

pub open spec fn session_lookup(sessions: Seq<Session>, key: i64) -> Option<Session> {
    if exists|i: int| session_with_key(sessions, key, i) {
        Some(sessions[choose|i: int| session_with_key(sessions, key, i)])
    } else {
        None
    }
}

pub open spec fn meeting_with_key(meetings: Seq<Meeting>, key: i64, i: int) -> bool {
    0 <= i < meetings.len() && meetings[i].meeting_key == key && forall|j: int|
        0 <= j < i ==> meetings[j].meeting_key != key
}

pub open spec fn meeting_lookup(meetings: Seq<Meeting>, key: i64) -> Option<Meeting> {
    if exists|i: int| meeting_with_key(meetings, key, i) {
        Some(meetings[choose|i: int| meeting_with_key(meetings, key, i)])
    } else {
        None
    }
}

pub fn find_session(sessions: &Vec<Session>, key: i64) -> (r: Option<&Session>)
    ensures
        match r {
            Some(s) => session_lookup(sessions@, key) == Some(*s),
            None => session_lookup(sessions@, key) is None,
        },
{
    let mut i: usize = 0;
    while i < sessions.len()
        invariant
            i <= sessions@.len(),
            forall|j: int| 0 <= j < i ==> #[trigger] sessions@[j].session_key != key,
        decreases sessions.len() - i,
    {
        if sessions[i].session_key == key {
            assert(session_with_key(sessions@, key, i as int));
            assert forall|k: int| session_with_key(sessions@, key, k) implies k == i by {
                if k < i {
                } else if k > i {
                    assert(sessions@[i as int].session_key == key);
                }
            }
            return Some(&sessions[i]);
        }
        i = i + 1;
    }
    None
}

pub fn find_meeting(meetings: &Vec<Meeting>, key: i64) -> (r: Option<&Meeting>)
    ensures
        match r {
            Some(m) => meeting_lookup(meetings@, key) == Some(*m),
            None => meeting_lookup(meetings@, key) is None,
        },
{
    let mut i: usize = 0;
    while i < meetings.len()
        invariant
            i <= meetings@.len(),
            forall|j: int| 0 <= j < i ==> #[trigger] meetings@[j].meeting_key != key,
        decreases meetings.len() - i,
    {
        if meetings[i].meeting_key == key {
            assert(meeting_with_key(meetings@, key, i as int));
            assert forall|k: int| meeting_with_key(meetings@, key, k) implies k == i by {
                if k < i {
                } else if k > i {
                    assert(meetings@[i as int].meeting_key == key);
                }
            }
            return Some(&meetings[i]);
        }
        i = i + 1;
    }
    None
}

/// Labels of all rounds, each from the round's meeting and race session.
pub fn round_axis_labels(
    rounds: &Vec<ChampionshipRoundSnapshot>,
    meetings: &Vec<Meeting>,
    sessions: &Vec<Session>,
) -> (r: Vec<String>)
    ensures
        r@.len() == rounds@.len(),
        forall|k: int|
            0 <= k < rounds@.len() ==> (#[trigger] r@[k])@ == axis_label_text(
                meeting_lookup(meetings@, rounds@[k].meeting_key),
                session_lookup(sessions@, rounds@[k].session_key),
                rounds@[k].round,
            ),
{
    let mut labels: Vec<String> = Vec::new();
    let mut k: usize = 0;
    while k < rounds.len()
        invariant
            k <= rounds@.len(),
            labels@.len() == k,
            forall|j: int|
                0 <= j < k ==> (#[trigger] labels@[j])@ == axis_label_text(
                    meeting_lookup(meetings@, rounds@[j].meeting_key),
                    session_lookup(sessions@, rounds@[j].session_key),
                    rounds@[j].round,
                ),
        decreases rounds.len() - k,
    {
        let round = &rounds[k];
        let session = find_session(sessions, round.session_key);
        let meeting = find_meeting(meetings, round.meeting_key);
        labels.push(round_axis_label(meeting, session, round.round));
        k = k + 1;
    }
    labels
}

// ---------------------------------------------------------------------------------------------
// Constructor codes
pub open spec fn initials(words: Seq<Seq<char>>) -> Seq<char>
    decreases words.len(),
{
    if words.len() == 0 {
        seq![]
    } else {
        initials(words.drop_last()).push(words.last()[0])
    }
}

pub open spec fn constructor_code_text(team_name: Seq<char>) -> Seq<char> {
    spec_to_uppercase(initials(spec_words(team_name)))
}

/// Initials of the words of a team name, uppercased ("Red Bull Racing" gives "RBR").
pub fn constructor_code(team_name: &str) -> (r: String)
    ensures
        r@ == constructor_code_text(team_name@),
{
    let words = split_whitespace(team_name);
    let ghost ws = spec_words(team_name@);
    let mut letters = String::new();
    let mut i: usize = 0;
    while i < words.len()
        invariant
            i <= words@.len(),
            words@.len() == ws.len(),
            forall|j: int| 0 <= j < words@.len() ==> (#[trigger] words@[j])@ == ws[j],
            forall|j: int| 0 <= j < ws.len() ==> (#[trigger] ws[j]).len() > 0,
            letters@ == initials(ws.subrange(0, i as int)),
        decreases words.len() - i,
    {
        assert(ws[i as int].len() > 0);
        let c = words[i].as_str().get_char(0);
        push_char(&mut letters, c);
        assert(ws.subrange(0, (i + 1) as int).drop_last() =~= ws.subrange(0, i as int));
        i = i + 1;
    }
    assert(ws.subrange(0, ws.len() as int) =~= ws);
    to_uppercase(letters.as_str())
}

// ---------------------------------------------------------------------------------------------
// Completed races
pub open spec fn is_race_session(s: Session) -> bool {
    !s.is_cancelled && s.session_type@ == "Race"@
}

pub open spec fn race_pick(sessions: Seq<Session>, ends: Seq<i64>, now: i64) -> spec_fn(int) -> bool {
    |i: int| is_race_session(sessions[i]) && ends[i] < now
}

/// The completed races of the season at `now`, numbered from 1 in start order (ties by session
/// key), for the instants the session dates stand for.
pub open spec fn completed_races_are(
    sessions: Seq<Session>,
    ends: Seq<i64>,
    starts: Seq<i64>,
    now: i64,
    r: Seq<(u32, Session)>,
) -> bool {
    let races = Seq::new(sessions.len(), |i: int| i).filter(race_pick(sessions, ends, now)).map_values(
        |i: int| sessions[i],
    );
    let keys = Seq::new(races.len(), |k: int| seq![starts[k], races[k].session_key]);
    let sorted = arrange(races, stable_order(keys, false, races.len()));
    &&& session_ends_resolve(sessions, ends)
    &&& session_starts_resolve(races, starts)
    &&& r.len() == sorted.len()
    &&& forall|k: int| 0 <= k < r.len() ==> #[trigger] r[k] == ((k + 1) as u32, sorted[k])
}

/// Completed race sessions at `now` (uncancelled, type "Race", ended before `now`) in start
/// order, ties by session key, numbered from 1.
pub fn completed_race_sessions(sessions: &Vec<Session>, now: i64) -> (r: Vec<(u32, Session)>)
    ensures
        exists|ends: Seq<i64>, starts: Seq<i64>|
            #[trigger] completed_races_are(sessions@, ends, starts, now, r@),
{
    let ends = session_ends(sessions);
    let ghost pick = race_pick(sessions@, ends@, now);
    let ghost idx = Seq::new(sessions@.len(), |i: int| i);
    let mut races: Vec<Session> = Vec::new();
    let mut i: usize = 0;
    while i < sessions.len()
        invariant
            i <= sessions@.len(),
            ends@.len() == sessions@.len(),
            idx == Seq::new(sessions@.len(), |i: int| i),
            pick == race_pick(sessions@, ends@, now),
            races@ == idx.subrange(0, i as int).filter(pick).map_values(|i: int| sessions@[i]),
        decreases sessions.len() - i,
    {
        proof {
            reveal(Seq::filter);
            assert(idx.subrange(0, (i + 1) as int).drop_last() =~= idx.subrange(0, i as int));
            assert(idx.subrange(0, (i + 1) as int).last() == i);
        }
        let ghost before = races@;
        if !sessions[i].is_cancelled && text_eq(sessions[i].session_type.as_str(), "Race")
            && ends[i] < now {
            races.push(sessions[i].duplicate());
            assert(races@ =~= idx.subrange(0, (i + 1) as int).filter(pick).map_values(
                |i: int| sessions@[i],
            ));
        } else {
            assert(races@ =~= idx.subrange(0, (i + 1) as int).filter(pick).map_values(
                |i: int| sessions@[i],
            ));
        }
        i = i + 1;
    }
    assert(idx.subrange(0, sessions@.len() as int) =~= idx);
    let starts = session_starts(&races);
    let mut keys: Vec<Vec<i64>> = Vec::new();
    let mut k: usize = 0;
    while k < races.len()
        invariant
            k <= races@.len(),
            starts@.len() == races@.len(),
            keys@.len() == k,
            forall|j: int|
                0 <= j < k ==> (#[trigger] keys@[j])@ == seq![starts@[j], races@[j].session_key],
        decreases races.len() - k,
    {
        let mut key: Vec<i64> = Vec::new();
        key.push(starts[k]);
        key.push(races[k].session_key);
        assert(key@ =~= seq![starts@[k as int], races@[k as int].session_key]);
        keys.push(key);
        k = k + 1;
    }
    let ghost kv = Seq::new(races@.len(), |k: int| seq![starts@[k], races@[k].session_key]);
    assert(keys_view(keys@) =~= kv);
    let order = stable_sort_indices(&keys, false);
    let mut r: Vec<(u32, Session)> = Vec::new();
    let mut m: usize = 0;
    let ghost sorted = arrange(races@, order@);
    while m < order.len()
        invariant
            m <= order@.len(),
            order@.len() == races@.len(),
            races@.len() <= sessions@.len(),
            forall|j: int| 0 <= j < order@.len() ==> (order@[j] as int) < races@.len(),
            sorted == arrange(races@, order@),
            r@.len() == m,
            forall|j: int| 0 <= j < m ==> #[trigger] r@[j] == ((j + 1) as u32, sorted[j]),
        decreases order.len() - m,
    {
        assert(sorted[m as int] == races@[order@[m as int] as int]);
        r.push((((m + 1) as u32), races[order[m]].duplicate()));
        m = m + 1;
    }
    assert(completed_races_are(sessions@, ends@, starts@, now, r@));
    r
}

} // verus!

verus! {

// ---------------------------------------------------------------------------------------------
// Lookups inside a round
pub open spec fn driver_entry(entries: Seq<DriverStandingSnapshot>, n: i64) -> Option<DriverStandingSnapshot>
    decreases entries.len(),
{
    if entries.len() == 0 {
        None
    } else if entries[0].driver_number == n {
        Some(entries[0])
    } else {
        driver_entry(entries.drop_first(), n)
    }
}

pub open spec fn result_entry(entries: Seq<RaceResultSnapshot>, n: i64) -> Option<RaceResultSnapshot>
    decreases entries.len(),
{
    if entries.len() == 0 {
        None
    } else if entries[0].driver_number == n {
        Some(entries[0])
    } else {
        result_entry(entries.drop_first(), n)
    }
}

pub open spec fn team_entry(entries: Seq<TeamStandingSnapshot>, name: Seq<char>) -> Option<TeamStandingSnapshot>
    decreases entries.len(),
{
    if entries.len() == 0 {
        None
    } else if entries[0].team_name@ == name {
        Some(entries[0])
    } else {
        team_entry(entries.drop_first(), name)
    }
}

pub fn find_driver_entry(entries: &Vec<DriverStandingSnapshot>, n: i64) -> (r: Option<DriverStandingSnapshot>)
    ensures
        r == driver_entry(entries@, n),
{
    let mut i: usize = 0;
    assert(entries@.subrange(0, entries@.len() as int) =~= entries@);
    while i < entries.len()
        invariant
            i <= entries@.len(),
            driver_entry(entries@, n) == driver_entry(entries@.subrange(i as int, entries@.len() as int), n),
        decreases entries.len() - i,
    {
        let ghost rest = entries@.subrange(i as int, entries@.len() as int);
        assert(rest[0] == entries@[i as int]);
        if entries[i].driver_number == n {
            return Some(entries[i]);
        }
        assert(rest.drop_first() =~= entries@.subrange(i + 1, entries@.len() as int));
        i = i + 1;
    }
    None
}

pub fn find_result_entry(entries: &Vec<RaceResultSnapshot>, n: i64) -> (r: Option<RaceResultSnapshot>)
    ensures
        r == result_entry(entries@, n),
{
    let mut i: usize = 0;
    assert(entries@.subrange(0, entries@.len() as int) =~= entries@);
    while i < entries.len()
        invariant
            i <= entries@.len(),
            result_entry(entries@, n) == result_entry(entries@.subrange(i as int, entries@.len() as int), n),
        decreases entries.len() - i,
    {
        let ghost rest = entries@.subrange(i as int, entries@.len() as int);
        assert(rest[0] == entries@[i as int]);
        if entries[i].driver_number == n {
            return Some(entries[i]);
        }
        assert(rest.drop_first() =~= entries@.subrange(i + 1, entries@.len() as int));
        i = i + 1;
    }
    None
}

pub fn find_team_entry(entries: &Vec<TeamStandingSnapshot>, name: &String) -> (r: Option<usize>)
    ensures
        match r {
            Some(i) => i < entries@.len() && team_entry(entries@, name@) == Some(entries@[i as int]),
            None => team_entry(entries@, name@) is None,
        },
{
    let mut i: usize = 0;
    assert(entries@.subrange(0, entries@.len() as int) =~= entries@);
    while i < entries.len()
        invariant
            i <= entries@.len(),
            team_entry(entries@, name@) == team_entry(entries@.subrange(i as int, entries@.len() as int), name@),
        decreases entries.len() - i,
    {
        let ghost rest = entries@.subrange(i as int, entries@.len() as int);
        assert(rest[0] == entries@[i as int]);
        if entries[i].team_name == *name {
            return Some(i);
        }
        assert(rest.drop_first() =~= entries@.subrange(i + 1, entries@.len() as int));
        i = i + 1;
    }
    None
}

// ---------------------------------------------------------------------------------------------
// Race rank of a constructor
pub open spec fn scoring() -> spec_fn(TeamStandingSnapshot) -> bool {
    |t: TeamStandingSnapshot| t.race_points > 0
}

/// Teams that scored in the race, or all teams when none did.
pub open spec fn rank_pool(teams: Seq<TeamStandingSnapshot>) -> Seq<TeamStandingSnapshot> {
    if teams.filter(scoring()).len() > 0 {
        teams.filter(scoring())
    } else {
        teams
    }
}

/// Race points (more first), then championship position.
pub open spec fn race_rank_keys(pool: Seq<TeamStandingSnapshot>) -> Seq<Seq<i64>> {
    pool.map_values(|t: TeamStandingSnapshot| seq![(-1 - t.race_points) as i64, t.position])
}

pub open spec fn race_ranking(teams: Seq<TeamStandingSnapshot>) -> Seq<TeamStandingSnapshot> {
    let pool = rank_pool(teams);
    arrange(pool, stable_order(race_rank_keys(pool), false, pool.len()))
}

pub open spec fn ranked_at(ranking: Seq<TeamStandingSnapshot>, name: Seq<char>, k: int) -> bool {
    0 <= k < ranking.len() && ranking[k].team_name@ == name && forall|j: int|
        0 <= j < k ==> ranking[j].team_name@ != name
}

pub open spec fn team_rank(teams: Seq<TeamStandingSnapshot>, name: Seq<char>) -> Option<i64> {
    let ranking = race_ranking(teams);
    if exists|k: int| ranked_at(ranking, name, k) {
        Some(((choose|k: int| ranked_at(ranking, name, k)) + 1) as i64)
    } else {
        None
    }
}

/// Teams of a round in race order (see `race_ranking`).
pub fn rank_teams_by_race(teams: &Vec<TeamStandingSnapshot>) -> (r: Vec<TeamStandingSnapshot>)
    ensures
        r@ == race_ranking(teams@),
{
    let mut scored: Vec<TeamStandingSnapshot> = Vec::new();
    let mut i: usize = 0;
    while i < teams.len()
        invariant
            i <= teams@.len(),
            scored@ == teams@.subrange(0, i as int).filter(scoring()),
        decreases teams.len() - i,
    {
        proof {
            reveal(Seq::filter);
            assert(teams@.subrange(0, (i + 1) as int).drop_last() =~= teams@.subrange(0, i as int));
        }
        if teams[i].race_points > 0 {
            scored.push(teams[i].duplicate());
        }
        i = i + 1;
    }
    assert(teams@.subrange(0, teams@.len() as int) =~= teams@);
    let pool = if scored.len() > 0 {
        scored
    } else {
        let mut all: Vec<TeamStandingSnapshot> = Vec::new();
        let mut j: usize = 0;
        while j < teams.len()
            invariant
                j <= teams@.len(),
                all@ == teams@.subrange(0, j as int),
            decreases teams.len() - j,
        {
            all.push(teams[j].duplicate());
            assert(all@ =~= teams@.subrange(0, (j + 1) as int));
            j = j + 1;
        }
        all
    };
    assert(pool@ == rank_pool(teams@));
    let mut keys: Vec<Vec<i64>> = Vec::new();
    let mut k: usize = 0;
    while k < pool.len()
        invariant
            k <= pool@.len(),
            keys@.len() == k,
            forall|j: int|
                0 <= j < k ==> (#[trigger] keys@[j])@ == seq![
                    (-1 - pool@[j].race_points) as i64,
                    pool@[j].position,
                ],
        decreases pool.len() - k,
    {
        let mut key: Vec<i64> = Vec::new();
        key.push(-1 - pool[k].race_points);
        key.push(pool[k].position);
        assert(key@ =~= seq![(-1 - pool@[k as int].race_points) as i64, pool@[k as int].position]);
        keys.push(key);
        k = k + 1;
    }
    assert(keys_view(keys@) =~= race_rank_keys(pool@));
    let order = stable_sort_indices(&keys, false);
    let mut r: Vec<TeamStandingSnapshot> = Vec::new();
    let mut m: usize = 0;
    while m < order.len()
        invariant
            m <= order@.len(),
            order@.len() == pool@.len(),
            forall|x: int| 0 <= x < order@.len() ==> (order@[x] as int) < pool@.len(),
            r@ == arrange(pool@, order@).subrange(0, m as int),
        decreases order.len() - m,
    {
        r.push(pool[order[m]].duplicate());
        assert(r@ =~= arrange(pool@, order@).subrange(0, (m + 1) as int));
        m = m + 1;
    }
    assert(arrange(pool@, order@).subrange(0, order@.len() as int) =~= arrange(pool@, order@));
    r
}

/// The race ranking of a round puts a team with more race points before a team with fewer;
/// teams level on race points come in championship order; when any team scored, only teams
/// that scored are ranked; and every ranked team is a team of the round.
pub proof fn law_race_ranking_by_race_points(teams: Seq<TeamStandingSnapshot>)
    requires
        teams.len() <= usize::MAX,
    ensures
        forall|a: int, b: int|
            #![trigger race_ranking(teams)[a], race_ranking(teams)[b]]
            0 <= a < b < race_ranking(teams).len() ==> race_ranking(teams)[a].race_points
                >= race_ranking(teams)[b].race_points,
        forall|a: int, b: int|
            #![trigger race_ranking(teams)[a], race_ranking(teams)[b]]
            0 <= a < b < race_ranking(teams).len() && race_ranking(teams)[a].race_points
                == race_ranking(teams)[b].race_points ==> race_ranking(teams)[a].position
                <= race_ranking(teams)[b].position,
        (exists|i: int| 0 <= i < teams.len() && #[trigger] teams[i].race_points > 0) ==> forall|k: int|
            0 <= k < race_ranking(teams).len() ==> #[trigger] race_ranking(teams)[k].race_points > 0,
        forall|k: int| 0 <= k < race_ranking(teams).len() ==> teams.contains(#[trigger] race_ranking(teams)[k]),
{
    let pool = rank_pool(teams);
    let keys = race_rank_keys(pool);
    let o = stable_order(keys, false, pool.len());
    lemma_filter_subset(teams, scoring());
    crate::order::lemma_stable_order_sorted(keys, false, pool.len());
    lemma_stable_order_permutes(keys, false, pool.len());
    let r = race_ranking(teams);
    assert(r == arrange(pool, o));
    assert forall|a: int, b: int| 0 <= a < b < r.len() implies r[a].race_points >= r[b].race_points
        && (r[a].race_points == r[b].race_points ==> r[a].position <= r[b].position) by {
        let ta = pool[o[a] as int];
        let tb = pool[o[b] as int];
        assert(r[a] == ta && r[b] == tb);
        assert(keys[o[a] as int] == seq![(-1 - ta.race_points) as i64, ta.position]);
        assert(keys[o[b] as int] == seq![(-1 - tb.race_points) as i64, tb.position]);
        assert(!crate::order::goes_before(keys[o[b] as int], keys[o[a] as int], false));
        crate::order::lemma_pair_key_lt(
            (-1 - tb.race_points) as i64,
            tb.position,
            (-1 - ta.race_points) as i64,
            ta.position,
        );
    }
    if exists|i: int| 0 <= i < teams.len() && #[trigger] teams[i].race_points > 0 {
        let i = choose|i: int| 0 <= i < teams.len() && #[trigger] teams[i].race_points > 0;
        teams.lemma_filter_contains(scoring(), i);
        assert(teams.filter(scoring()).len() > 0);
        assert forall|k: int| 0 <= k < r.len() implies #[trigger] r[k].race_points > 0 by {
            teams.lemma_filter_pred(scoring(), o[k] as int);
        }
    }
    assert forall|k: int| 0 <= k < r.len() implies teams.contains(#[trigger] r[k]) by {
        assert(r[k] == pool[o[k] as int]);
        if teams.filter(scoring()).len() > 0 {
            assert(teams.contains(teams.filter(scoring())[o[k] as int]));
        } else {
            assert(teams[o[k] as int] == r[k]);
        }
    }
}

/// Place of a team among the teams of a round by race points (see `race_ranking`), from 1.
pub fn team_race_rank(round: &ChampionshipRoundSnapshot, team_name: &String) -> (r: Option<i64>)
    requires
        round.teams@.len() < i64::MAX,
    ensures
        r == team_rank(round.teams@, team_name@),
{
    let total = round.teams.len();
    let ranked = rank_teams_by_race(&round.teams);
    assert(ranked@.len() <= round.teams@.len()) by {
        lemma_filter_subset(round.teams@, scoring());
        lemma_stable_order_permutes(race_rank_keys(rank_pool(round.teams@)), false, rank_pool(round.teams@).len());
    }
    let mut k: usize = 0;
    while k < ranked.len()
        invariant
            k <= ranked@.len(),
            ranked@.len() < i64::MAX,
            ranked@ == race_ranking(round.teams@),
            forall|j: int| 0 <= j < k ==> (#[trigger] ranked@[j]).team_name@ != team_name@,
        decreases ranked.len() - k,
    {
        if ranked[k].team_name == *team_name {
            assert(ranked_at(ranked@, team_name@, k as int));
            assert forall|x: int| ranked_at(ranked@, team_name@, x) implies x == k by {
                if x < k {
                } else if x > k {
                    assert(ranked@[k as int].team_name@ == team_name@);
                }
            }
            return Some(k as i64 + 1);
        }
        k = k + 1;
    }
    None
}

pub open spec fn team_driver(roster: Seq<Driver>, name: Seq<char>, i: int) -> bool {
    0 <= i < roster.len() && roster[i].team_name@ == name && forall|j: int|
        0 <= j < i ==> roster[j].team_name@ != name
}

/// Colour of a team: that of its first driver on the roster, grey when none is there.
pub open spec fn team_accent(roster: Seq<Driver>, name: Seq<char>) -> Option<Rgb8> {
    if exists|i: int| team_driver(roster, name, i) {
        colour_of(roster[choose|i: int| team_driver(roster, name, i)].team_colour@)
    } else {
        Some(Rgb8 { r: 128, g: 128, b: 128 })
    }
}

pub fn constructor_colour(team_name: &String, roster: &Vec<Driver>) -> (r: Option<Rgb8>)
    requires
        roster_colours_ok(roster@),
    ensures
        r == team_accent(roster@, team_name@),
{
    let mut i: usize = 0;
    while i < roster.len()
        invariant
            i <= roster@.len(),
            roster_colours_ok(roster@),
            forall|j: int| 0 <= j < i ==> (#[trigger] roster@[j]).team_name@ != team_name@,
        decreases roster.len() - i,
    {
        if roster[i].team_name == *team_name {
            assert(team_driver(roster@, team_name@, i as int));
            assert forall|x: int| team_driver(roster@, team_name@, x) implies x == i by {
                if x < i {
                } else if x > i {
                    assert(roster@[i as int].team_name@ == team_name@);
                }
            }
            assert(colour_text_ok(roster@[i as int].team_colour@));
            return team_colour(roster[i].team_colour.as_str());
        }
        i = i + 1;
    }
    let r = Some(Rgb8 { r: 128, g: 128, b: 128 });
    r
}

} // verus!

verus! {

// ---------------------------------------------------------------------------------------------
// Chart series
pub open spec fn point(round: u32, position: i64, points: i64) -> StandingPoint {
    StandingPoint { round, position, points }
}

/// Championship position and points of a driver after each round it appears in.
pub open spec fn driver_points(rounds: Seq<ChampionshipRoundSnapshot>, n: i64) -> Seq<StandingPoint>
    decreases rounds.len(),
{
    if rounds.len() == 0 {
        seq![]
    } else {
        let rest = driver_points(rounds.drop_last(), n);
        let r = rounds.last();
        match driver_entry(r.drivers@, n) {
            Some(e) => rest.push(point(r.round, e.position, e.points)),
            None => rest,
        }
    }
}

/// Finishing position and race points of a driver in each round it has a result in.
pub open spec fn driver_race_points(rounds: Seq<ChampionshipRoundSnapshot>, n: i64) -> Seq<StandingPoint>
    decreases rounds.len(),
{
    if rounds.len() == 0 {
        seq![]
    } else {
        let rest = driver_race_points(rounds.drop_last(), n);
        let r = rounds.last();
        match result_entry(r.race_results@, n) {
            Some(e) => rest.push(point(r.round, e.classified_position, e.points)),
            None => rest,
        }
    }
}

/// Championship position and points of a team after each round it appears in.
pub open spec fn team_points(rounds: Seq<ChampionshipRoundSnapshot>, name: Seq<char>) -> Seq<StandingPoint>
    decreases rounds.len(),
{
    if rounds.len() == 0 {
        seq![]
    } else {
        let rest = team_points(rounds.drop_last(), name);
        let r = rounds.last();
        match team_entry(r.teams@, name) {
            Some(e) => rest.push(point(r.round, e.position, e.points)),
            None => rest,
        }
    }
}

/// Race rank and race points of a team in each round where it is ranked.
pub open spec fn team_race_points(rounds: Seq<ChampionshipRoundSnapshot>, name: Seq<char>) -> Seq<StandingPoint>
    decreases rounds.len(),
{
    if rounds.len() == 0 {
        seq![]
    } else {
        let rest = team_race_points(rounds.drop_last(), name);
        let r = rounds.last();
        match team_rank(r.teams@, name) {
            Some(pos) => rest.push(
                point(
                    r.round,
                    pos,
                    match team_entry(r.teams@, name) {
                        Some(e) => e.race_points,
                        None => 0,
                    },
                ),
            ),
            None => rest,
        }
    }
}

/// What a chart line shows: label, code, colour and points.
pub type SeriesView = (Seq<char>, Seq<char>, Option<Rgb8>, Seq<StandingPoint>);

pub open spec fn series_view(s: ChartSeries) -> SeriesView {
    (s.label@, s.code@, s.color, s.points@)
}

pub open spec fn series_views(s: Seq<ChartSeries>) -> Seq<SeriesView> {
    s.map_values(|c: ChartSeries| series_view(c))
}

/// Lines of the drivers in `numbers` that the roster knows, in that order.
pub open spec fn driver_lines(
    numbers: Seq<i64>,
    roster: Seq<Driver>,
    rounds: Seq<ChampionshipRoundSnapshot>,
    race: bool,
) -> Seq<SeriesView>
    decreases numbers.len(),
{
    if numbers.len() == 0 {
        seq![]
    } else {
        let rest = driver_lines(numbers.drop_last(), roster, rounds, race);
        let n = numbers.last();
        match roster_lookup(roster, n) {
            Some(d) => rest.push(
                (
                    display_name_text(d),
                    d.name_acronym@,
                    colour_of(d.team_colour@),
                    if race {
                        driver_race_points(rounds, n)
                    } else {
                        driver_points(rounds, n)
                    },
                ),
            ),
            None => rest,
        }
    }
}

/// Teams of the given drivers, first appearance first, without repeats.
pub open spec fn pinned_team_names(numbers: Seq<i64>, roster: Seq<Driver>) -> Seq<Seq<char>>
    decreases numbers.len(),
{
    if numbers.len() == 0 {
        seq![]
    } else {
        let rest = pinned_team_names(numbers.drop_last(), roster);
        match roster_lookup(roster, numbers.last()) {
            Some(d) => if rest.contains(d.team_name@) {
                rest
            } else {
                rest.push(d.team_name@)
            },
            None => rest,
        }
    }
}

pub open spec fn named_in(names: Seq<Seq<char>>) -> spec_fn(TeamStandingSnapshot) -> bool {
    |t: TeamStandingSnapshot| names.contains(t.team_name@)
}

pub open spec fn position_keys_of(teams: Seq<TeamStandingSnapshot>) -> Seq<Seq<i64>> {
    teams.map_values(|t: TeamStandingSnapshot| seq![t.position])
}

/// Teams of the pinned drivers as the latest round lists them, by championship position.
pub open spec fn chart_teams(
    rounds: Seq<ChampionshipRoundSnapshot>,
    numbers: Seq<i64>,
    roster: Seq<Driver>,
) -> Seq<TeamStandingSnapshot> {
    let names = pinned_team_names(numbers, roster);
    if rounds.len() == 0 || names.len() == 0 {
        seq![]
    } else {
        let pool = rounds.last().teams@.filter(named_in(names));
        arrange(pool, stable_order(position_keys_of(pool), false, pool.len()))
    }
}

pub open spec fn team_line(
    t: TeamStandingSnapshot,
    roster: Seq<Driver>,
    rounds: Seq<ChampionshipRoundSnapshot>,
    race: bool,
) -> SeriesView {
    (
        t.team_name@,
        constructor_code_text(t.team_name@),
        team_accent(roster, t.team_name@),
        if race {
            team_race_points(rounds, t.team_name@)
        } else {
            team_points(rounds, t.team_name@)
        },
    )
}

pub open spec fn team_lines(
    rounds: Seq<ChampionshipRoundSnapshot>,
    numbers: Seq<i64>,
    roster: Seq<Driver>,
    race: bool,
) -> Seq<SeriesView> {
    chart_teams(rounds, numbers, roster).map_values(
        |t: TeamStandingSnapshot| team_line(t, roster, rounds, race),
    )
}

/// The rounds fit the machine: each lists fewer teams than `i64::MAX`.
pub open spec fn rounds_ok(rounds: Seq<ChampionshipRoundSnapshot>) -> bool {
    forall|k: int| 0 <= k < rounds.len() ==> (#[trigger] rounds[k]).teams@.len() < i64::MAX
}

fn points_of_driver(rounds: &Vec<ChampionshipRoundSnapshot>, n: i64, race: bool) -> (r: Vec<StandingPoint>)
    ensures
        r@ == if race {
            driver_race_points(rounds@, n)
        } else {
            driver_points(rounds@, n)
        },
{
    let mut points: Vec<StandingPoint> = Vec::new();
    let mut k: usize = 0;
    while k < rounds.len()
        invariant
            k <= rounds@.len(),
            points@ == if race {
                driver_race_points(rounds@.subrange(0, k as int), n)
            } else {
                driver_points(rounds@.subrange(0, k as int), n)
            },
        decreases rounds.len() - k,
    {
        let round = &rounds[k];
        assert(rounds@.subrange(0, (k + 1) as int).drop_last() =~= rounds@.subrange(0, k as int));
        assert(rounds@.subrange(0, (k + 1) as int).last() == rounds@[k as int]);
        if race {
            if let Some(e) = find_result_entry(&round.race_results, n) {
                points.push(StandingPoint { round: round.round, position: e.classified_position, points: e.points });
            }
        } else {
            if let Some(e) = find_driver_entry(&round.drivers, n) {
                points.push(StandingPoint { round: round.round, position: e.position, points: e.points });
            }
        }
        k = k + 1;
    }
    assert(rounds@.subrange(0, rounds@.len() as int) =~= rounds@);
    points
}

fn points_of_team(rounds: &Vec<ChampionshipRoundSnapshot>, name: &String, race: bool) -> (r: Vec<StandingPoint>)
    requires
        rounds_ok(rounds@),
    ensures
        r@ == if race {
            team_race_points(rounds@, name@)
        } else {
            team_points(rounds@, name@)
        },
{
    let mut points: Vec<StandingPoint> = Vec::new();
    let mut k: usize = 0;
    while k < rounds.len()
        invariant
            k <= rounds@.len(),
            rounds_ok(rounds@),
            points@ == if race {
                team_race_points(rounds@.subrange(0, k as int), name@)
            } else {
                team_points(rounds@.subrange(0, k as int), name@)
            },
        decreases rounds.len() - k,
    {
        let round = &rounds[k];
        assert(rounds@.subrange(0, (k + 1) as int).drop_last() =~= rounds@.subrange(0, k as int));
        assert(rounds@.subrange(0, (k + 1) as int).last() == rounds@[k as int]);
        if race {
            assert(round.teams@.len() < i64::MAX);
            if let Some(position) = team_race_rank(round, name) {
                let race_points = match find_team_entry(&round.teams, name) {
                    Some(i) => round.teams[i].race_points,
                    None => 0,
                };
                points.push(StandingPoint { round: round.round, position, points: race_points });
            }
        } else {
            if let Some(i) = find_team_entry(&round.teams, name) {
                points.push(
                    StandingPoint {
                        round: round.round,
                        position: round.teams[i].position,
                        points: round.teams[i].points,
                    },
                );
            }
        }
        k = k + 1;
    }
    assert(rounds@.subrange(0, rounds@.len() as int) =~= rounds@);
    points
}

fn driver_series(
    numbers: &Vec<i64>,
    roster: &Vec<Driver>,
    rounds: &Vec<ChampionshipRoundSnapshot>,
    race: bool,
) -> (r: Vec<ChartSeries>)
    requires
        roster_colours_ok(roster@),
    ensures
        series_views(r@) == driver_lines(numbers@, roster@, rounds@, race),
{
    let mut series: Vec<ChartSeries> = Vec::new();
    let mut i: usize = 0;
    while i < numbers.len()
        invariant
            i <= numbers@.len(),
            roster_colours_ok(roster@),
            series_views(series@) == driver_lines(numbers@.subrange(0, i as int), roster@, rounds@, race),
        decreases numbers.len() - i,
    {
        let n = numbers[i];
        assert(numbers@.subrange(0, (i + 1) as int).drop_last() =~= numbers@.subrange(0, i as int));
        if let Some(k) = find_driver_index(roster, n) {
            let driver = &roster[k];
            assert(colour_text_ok(roster@[k as int].team_colour@));
            let line = ChartSeries {
                label: new_text(driver_display_name(driver)),
                code: driver.name_acronym.clone(),
                color: team_colour(driver.team_colour.as_str()),
                points: points_of_driver(rounds, n, race),
            };
            let ghost before = series@;
            series.push(line);
            assert(series_views(series@) =~= series_views(before).push(series_view(line)));
        }
        i = i + 1;
    }
    assert(numbers@.subrange(0, numbers@.len() as int) =~= numbers@);
    series
}

fn team_names_of(numbers: &Vec<i64>, roster: &Vec<Driver>) -> (r: Vec<String>)
    ensures
        r@.map_values(|s: String| s@) == pinned_team_names(numbers@, roster@),
{
    let mut names: Vec<String> = Vec::new();
    let mut i: usize = 0;
    while i < numbers.len()
        invariant
            i <= numbers@.len(),
            names@.map_values(|s: String| s@) == pinned_team_names(numbers@.subrange(0, i as int), roster@),
        decreases numbers.len() - i,
    {
        assert(numbers@.subrange(0, (i + 1) as int).drop_last() =~= numbers@.subrange(0, i as int));
        if let Some(k) = find_driver_index(roster, numbers[i]) {
            let name = &roster[k].team_name;
            let ghost views = names@.map_values(|s: String| s@);
            let mut seen = false;
            let mut j: usize = 0;
            while j < names.len()
                invariant
                    j <= names@.len(),
                    views == names@.map_values(|s: String| s@),
                    seen == exists|x: int| 0 <= x < j && views[x] == name@,
                decreases names.len() - j,
            {
                assert(views[j as int] == names@[j as int]@);
                if names[j] == *name {
                    seen = true;
                }
                j = j + 1;
            }
            if !seen {
                names.push(name.clone());
                assert(names@.map_values(|s: String| s@) =~= views.push(name@));
            }
        }
        i = i + 1;
    }
    assert(numbers@.subrange(0, numbers@.len() as int) =~= numbers@);
    names
}

fn chart_team_list(
    rounds: &Vec<ChampionshipRoundSnapshot>,
    numbers: &Vec<i64>,
    roster: &Vec<Driver>,
) -> (r: Vec<TeamStandingSnapshot>)
    ensures
        r@ == chart_teams(rounds@, numbers@, roster@),
{
    if rounds.len() == 0 {
        return Vec::new();
    }
    let names = team_names_of(numbers, roster);
    let ghost nv = names@.map_values(|s: String| s@);
    if names.len() == 0 {
        return Vec::new();
    }
    let latest = &rounds[rounds.len() - 1];
    let mut pool: Vec<TeamStandingSnapshot> = Vec::new();
    let mut i: usize = 0;
    while i < latest.teams.len()
        invariant
            i <= latest.teams@.len(),
            nv == names@.map_values(|s: String| s@),
            pool@ == latest.teams@.subrange(0, i as int).filter(named_in(nv)),
        decreases latest.teams.len() - i,
    {
        proof {
            reveal(Seq::filter);
            assert(latest.teams@.subrange(0, (i + 1) as int).drop_last() =~= latest.teams@.subrange(0, i as int));
        }
        let mut listed = false;
        let mut j: usize = 0;
        while j < names.len()
            invariant
                j <= names@.len(),
                i < latest.teams@.len(),
                nv == names@.map_values(|s: String| s@),
                listed == exists|x: int| 0 <= x < j && nv[x] == latest.teams@[i as int].team_name@,
            decreases names.len() - j,
        {
            assert(nv[j as int] == names@[j as int]@);
            if names[j] == latest.teams[i].team_name {
                listed = true;
            }
            j = j + 1;
        }
        if listed {
            pool.push(latest.teams[i].duplicate());
        }
        i = i + 1;
    }
    assert(latest.teams@.subrange(0, latest.teams@.len() as int) =~= latest.teams@);
    let mut keys: Vec<Vec<i64>> = Vec::new();
    let mut k: usize = 0;
    while k < pool.len()
        invariant
            k <= pool@.len(),
            keys@.len() == k,
            forall|j: int| 0 <= j < k ==> (#[trigger] keys@[j])@ == seq![pool@[j].position],
        decreases pool.len() - k,
    {
        let mut key: Vec<i64> = Vec::new();
        key.push(pool[k].position);
        assert(key@ =~= seq![pool@[k as int].position]);
        keys.push(key);
        k = k + 1;
    }
    assert(keys_view(keys@) =~= position_keys_of(pool@));
    let order = stable_sort_indices(&keys, false);
    let mut r: Vec<TeamStandingSnapshot> = Vec::new();
    let mut m: usize = 0;
    while m < order.len()
        invariant
            m <= order@.len(),
            order@.len() == pool@.len(),
            forall|x: int| 0 <= x < order@.len() ==> (order@[x] as int) < pool@.len(),
            r@ == arrange(pool@, order@).subrange(0, m as int),
        decreases order.len() - m,
    {
        r.push(pool[order[m]].duplicate());
        assert(r@ =~= arrange(pool@, order@).subrange(0, (m + 1) as int));
        m = m + 1;
    }
    assert(arrange(pool@, order@).subrange(0, order@.len() as int) =~= arrange(pool@, order@));
    r
}

/// Championship and race lines of the pinned drivers' teams, by the latest championship
/// position.
fn constructor_series(
    rounds: &Vec<ChampionshipRoundSnapshot>,
    roster: &Vec<Driver>,
    pinned_driver_numbers: &Vec<i64>,
) -> (r: (Vec<ChartSeries>, Vec<ChartSeries>))
    requires
        roster_colours_ok(roster@),
        rounds_ok(rounds@),
    ensures
        series_views(r.0@) == team_lines(rounds@, pinned_driver_numbers@, roster@, false),
        series_views(r.1@) == team_lines(rounds@, pinned_driver_numbers@, roster@, true),
{
    let teams = chart_team_list(rounds, pinned_driver_numbers, roster);
    let mut championship: Vec<ChartSeries> = Vec::new();
    let mut race: Vec<ChartSeries> = Vec::new();
    let mut i: usize = 0;
    while i < teams.len()
        invariant
            i <= teams@.len(),
            roster_colours_ok(roster@),
            rounds_ok(rounds@),
            teams@ == chart_teams(rounds@, pinned_driver_numbers@, roster@),
            series_views(championship@) == team_lines(rounds@, pinned_driver_numbers@, roster@, false).subrange(0, i as int),
            series_views(race@) == team_lines(rounds@, pinned_driver_numbers@, roster@, true).subrange(0, i as int),
        decreases teams.len() - i,
    {
        let team = &teams[i];
        let c = ChartSeries {
            label: team.team_name.clone(),
            code: constructor_code(team.team_name.as_str()),
            color: constructor_colour(&team.team_name, roster),
            points: points_of_team(rounds, &team.team_name, false),
        };
        let rr = ChartSeries {
            label: team.team_name.clone(),
            code: constructor_code(team.team_name.as_str()),
            color: constructor_colour(&team.team_name, roster),
            points: points_of_team(rounds, &team.team_name, true),
        };
        let ghost c0 = championship@;
        let ghost r0 = race@;
        championship.push(c);
        race.push(rr);
        assert(series_views(championship@) =~= series_views(c0).push(series_view(c)));
        assert(series_views(race@) =~= series_views(r0).push(series_view(rr)));
        assert(team_lines(rounds@, pinned_driver_numbers@, roster@, false).subrange(0, (i + 1) as int)
            =~= team_lines(rounds@, pinned_driver_numbers@, roster@, false).subrange(0, i as int).push(series_view(c)));
        assert(team_lines(rounds@, pinned_driver_numbers@, roster@, true).subrange(0, (i + 1) as int)
            =~= team_lines(rounds@, pinned_driver_numbers@, roster@, true).subrange(0, i as int).push(series_view(rr)));
        i = i + 1;
    }
    assert(team_lines(rounds@, pinned_driver_numbers@, roster@, false).subrange(0, teams@.len() as int)
        =~= team_lines(rounds@, pinned_driver_numbers@, roster@, false));
    assert(team_lines(rounds@, pinned_driver_numbers@, roster@, true).subrange(0, teams@.len() as int)
        =~= team_lines(rounds@, pinned_driver_numbers@, roster@, true));
    (championship, race)
}

} // verus!

verus! {

/// All points of the lines, line after line.
pub open spec fn all_points(lines: Seq<SeriesView>) -> Seq<StandingPoint>
    decreases lines.len(),
{
    if lines.len() == 0 {
        seq![]
    } else {
        all_points(lines.drop_last()) + lines.last().3
    }
}

pub open spec fn lowest_position(points: Seq<StandingPoint>) -> i64
    decreases points.len(),
{
    if points.len() <= 1 {
        points[0].position
    } else {
        let m = lowest_position(points.drop_last());
        if points.last().position < m {
            points.last().position
        } else {
            m
        }
    }
}

pub open spec fn highest_position(points: Seq<StandingPoint>) -> i64
    decreases points.len(),
{
    if points.len() <= 1 {
        points[0].position
    } else {
        let m = highest_position(points.drop_last());
        if points.last().position > m {
            points.last().position
        } else {
            m
        }
    }
}

/// Y axis of a position chart: from the best to the worst position plotted (at least 1),
/// 1..10 when nothing is plotted.
pub open spec fn axis_for(points: Seq<StandingPoint>) -> PositionAxis {
    if points.len() == 0 {
        PositionAxis { min: 1, max: 10 }
    } else {
        let lo = (if lowest_position(points) > 1 { lowest_position(points) } else { 1 }) as u32;
        let hi = (if highest_position(points) > 1 { highest_position(points) } else { 1 }) as u32;
        PositionAxis {
            min: if lo < hi { lo } else { hi },
            max: if hi > lo { hi } else { lo },
        }
    }
}

impl PositionAxis {
    pub fn from_series(series: &Vec<ChartSeries>) -> (r: Self)
        ensures
            r == axis_for(all_points(series_views(series@))),
            r.min <= r.max,
    {
        let ghost lines = series_views(series@);
        let mut min: Option<i64> = None;
        let mut max: Option<i64> = None;
        let mut i: usize = 0;
        while i < series.len()
            invariant
                i <= series@.len(),
                lines == series_views(series@),
                ({
                    let acc = all_points(lines.subrange(0, i as int));
                    &&& (acc.len() == 0 <==> min is None)
                    &&& (acc.len() == 0 <==> max is None)
                    &&& (acc.len() > 0 ==> min == Some(lowest_position(acc)))
                    &&& (acc.len() > 0 ==> max == Some(highest_position(acc)))
                }),
            decreases series.len() - i,
        {
            let ghost prefix = all_points(lines.subrange(0, i as int));
            assert(lines.subrange(0, (i + 1) as int).drop_last() =~= lines.subrange(0, i as int));
            assert(lines.subrange(0, (i + 1) as int).last() == series_view(series@[i as int]));
            let points = &series[i].points;
            let mut j: usize = 0;
            while j < points.len()
                invariant
                    j <= points@.len(),
                    ({
                        let acc = prefix + points@.subrange(0, j as int);
                        &&& (acc.len() == 0 <==> min is None)
                        &&& (acc.len() == 0 <==> max is None)
                        &&& (acc.len() > 0 ==> min == Some(lowest_position(acc)))
                        &&& (acc.len() > 0 ==> max == Some(highest_position(acc)))
                    }),
                decreases points.len() - j,
            {
                let p = points[j].position;
                let ghost acc = prefix + points@.subrange(0, j as int);
                let ghost next = prefix + points@.subrange(0, (j + 1) as int);
                assert(next.drop_last() =~= acc);
                assert(next.last() == points@[j as int]);
                min = Some(match min {
                    Some(v) => if p < v { p } else { v },
                    None => p,
                });
                max = Some(match max {
                    Some(v) => if p > v { p } else { v },
                    None => p,
                });
                j = j + 1;
            }
            assert(prefix + points@.subrange(0, points@.len() as int) =~= all_points(lines.subrange(0, (i + 1) as int)));
            i = i + 1;
        }
        assert(lines.subrange(0, series@.len() as int) =~= lines);
        match (min, max) {
            (Some(lo), Some(hi)) => {
                let lo32 = (if lo > 1 { lo } else { 1 }) as u32;
                let hi32 = (if hi > 1 { hi } else { 1 }) as u32;
                PositionAxis {
                    min: if lo32 < hi32 { lo32 } else { hi32 },
                    max: if hi32 > lo32 { hi32 } else { lo32 },
                }
            },
            _ => PositionAxis { min: 1, max: 10 },
        }
    }
}

/// Everything the championship charts show.
#[derive(Debug, Clone)]
pub struct ChampionshipCharts {
    pub round_count: u32,
    pub driver_championship_axis: PositionAxis,
    pub constructor_championship_axis: PositionAxis,
    pub driver_race_axis: PositionAxis,
    pub constructor_race_axis: PositionAxis,
    pub round_labels: Vec<String>,
    pub driver_championship_series: Vec<ChartSeries>,
    pub constructor_championship_series: Vec<ChartSeries>,
    pub driver_race_series: Vec<ChartSeries>,
    pub constructor_race_series: Vec<ChartSeries>,
}

/// The drivers the charts follow: the focus list when given, else the pinned drivers.
pub open spec fn chart_drivers(focus: Option<Seq<i64>>, pinned: Seq<PinnedDriver>) -> Seq<i64> {
    match focus {
        Some(f) => f,
        None => pinned.map_values(|p: PinnedDriver| p.driver_number),
    }
}

pub open spec fn charts_are(
    c: ChampionshipCharts,
    rounds: Seq<ChampionshipRoundSnapshot>,
    numbers: Seq<i64>,
    roster: Seq<Driver>,
    meetings: Seq<Meeting>,
    sessions: Seq<Session>,
) -> bool {
    &&& c.round_count == rounds.len() as u32
    &&& c.round_labels@.len() == rounds.len()
    &&& forall|k: int|
        0 <= k < rounds.len() ==> (#[trigger] c.round_labels@[k])@ == axis_label_text(
            meeting_lookup(meetings, rounds[k].meeting_key),
            session_lookup(sessions, rounds[k].session_key),
            rounds[k].round,
        )
    &&& series_views(c.driver_championship_series@) == driver_lines(numbers, roster, rounds, false)
    &&& series_views(c.driver_race_series@) == driver_lines(numbers, roster, rounds, true)
    &&& series_views(c.constructor_championship_series@) == team_lines(rounds, numbers, roster, false)
    &&& series_views(c.constructor_race_series@) == team_lines(rounds, numbers, roster, true)
    &&& c.driver_championship_axis == axis_for(all_points(driver_lines(numbers, roster, rounds, false)))
    &&& c.driver_race_axis == axis_for(all_points(driver_lines(numbers, roster, rounds, true)))
    &&& c.constructor_championship_axis == axis_for(all_points(team_lines(rounds, numbers, roster, false)))
    &&& c.constructor_race_axis == axis_for(all_points(team_lines(rounds, numbers, roster, true)))
}

/// Championship and race charts for the focus drivers (or the pinned drivers) and their teams.
pub fn build_championship_charts(
    rounds: &Vec<ChampionshipRoundSnapshot>,
    pinned: &Vec<PinnedDriver>,
    roster: &Vec<Driver>,
    meetings: &Vec<Meeting>,
    sessions: &Vec<Session>,
    focus_drivers: Option<&Vec<i64>>,
) -> (r: ChampionshipCharts)
    requires
        roster_colours_ok(roster@),
        rounds_ok(rounds@),
    ensures
        charts_are(
            r,
            rounds@,
            chart_drivers(
                match focus_drivers {
                    Some(f) => Some(f@),
                    None => None,
                },
                pinned@,
            ),
            roster@,
            meetings@,
            sessions@,
        ),
{
    let mut numbers: Vec<i64> = Vec::new();
    match focus_drivers {
        Some(f) => {
            let mut i: usize = 0;
            while i < f.len()
                invariant
                    i <= f@.len(),
                    numbers@ == f@.subrange(0, i as int),
                decreases f.len() - i,
            {
                numbers.push(f[i]);
                assert(numbers@ =~= f@.subrange(0, (i + 1) as int));
                i = i + 1;
            }
            assert(f@.subrange(0, f@.len() as int) =~= f@);
        },
        None => {
            let mut i: usize = 0;
            while i < pinned.len()
                invariant
                    i <= pinned@.len(),
                    numbers@ == pinned@.subrange(0, i as int).map_values(|p: PinnedDriver| p.driver_number),
                decreases pinned.len() - i,
            {
                numbers.push(pinned[i].driver_number);
                assert(numbers@ =~= pinned@.subrange(0, (i + 1) as int).map_values(|p: PinnedDriver| p.driver_number));
                i = i + 1;
            }
            assert(pinned@.subrange(0, pinned@.len() as int) =~= pinned@);
        },
    }
    let round_count = rounds.len() as u32;
    let round_labels = round_axis_labels(rounds, meetings, sessions);
    let driver_championship_series = driver_series(&numbers, roster, rounds, false);
    let driver_race_series = driver_series(&numbers, roster, rounds, true);
    let (constructor_championship_series, constructor_race_series) = constructor_series(rounds, roster, &numbers);
    ChampionshipCharts {
        round_count,
        driver_championship_axis: PositionAxis::from_series(&driver_championship_series),
        constructor_championship_axis: PositionAxis::from_series(&constructor_championship_series),
        driver_race_axis: PositionAxis::from_series(&driver_race_series),
        constructor_race_axis: PositionAxis::from_series(&constructor_race_series),
        round_labels,
        driver_championship_series,
        constructor_championship_series,
        driver_race_series,
        constructor_race_series,
    }
}

} // verus!
