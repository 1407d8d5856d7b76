use vstd::prelude::*;

use crate::domain::championship::{ChampionshipRoundSnapshot, RaceResultSnapshot};
use crate::domain::countdown::{arrange, single_key_vec, single_keys};
use crate::domain::drivers::{roster_colours_ok, roster_lookup, Rgb8};
use crate::domain::standings::{driver_row, row_accent, row_code};
use crate::order::{keys_view, stable_order, stable_sort_indices};
use crate::records::Driver;

verus! {

/// A driver on the podium of a race.
#[derive(Debug, Clone)]
pub struct PodiumEntry {
    pub position: i64,
    pub driver_number: i64,
    pub code: String,
    pub accent: Option<Rgb8>,
}

/// Position, driver number, code and accent of a podium entry.
pub type PodiumView = (i64, i64, Seq<char>, Option<Rgb8>);

pub open spec fn podium_view(e: PodiumEntry) -> PodiumView {
    (e.position, e.driver_number, e.code@, e.accent)
}

pub open spec fn podium_views(entries: Seq<PodiumEntry>) -> Seq<PodiumView> {
    entries.map_values(|e: PodiumEntry| podium_view(e))
}

/// The first round held at the meeting.
pub open spec fn round_of_meeting(rounds: Seq<ChampionshipRoundSnapshot>, meeting_key: i64) -> Option<
    ChampionshipRoundSnapshot,
>
    decreases rounds.len(),
{
    if rounds.len() == 0 {
        None
    } else if rounds[0].meeting_key == meeting_key {
        Some(rounds[0])
    } else {
        round_of_meeting(rounds.drop_first(), meeting_key)
    }
}

/// A classified finish in the first three places.
pub open spec fn on_podium() -> spec_fn(RaceResultSnapshot) -> bool {
    |r: RaceResultSnapshot|
        !r.dnf && !r.dns && !r.dsq && 1 <= r.classified_position && r.classified_position <= 3
}

/// The podium finishers of a round, by position (results with equal positions keep their
/// order).
pub open spec fn podium_results(round: ChampionshipRoundSnapshot) -> Seq<RaceResultSnapshot> {
    let p = round.race_results@.filter(on_podium());
    arrange(
        p,
        stable_order(
            single_keys(p.map_values(|r: RaceResultSnapshot| r.classified_position)),
            false,
            p.len(),
        ),
    )
}

pub open spec fn podium_entry_view(r: RaceResultSnapshot, roster: Seq<Driver>) -> PodiumView {
    let d = roster_lookup(roster, r.driver_number);
    (r.classified_position, r.driver_number, row_code(d, r.driver_number), row_accent(d))
}

/// The podium of the meeting's round; empty when no round was held there.
pub open spec fn podium_of(
    rounds: Seq<ChampionshipRoundSnapshot>,
    meeting_key: i64,
    roster: Seq<Driver>,
) -> Seq<PodiumView> {
    match round_of_meeting(rounds, meeting_key) {
        None => seq![],
        Some(round) => podium_results(round).map_values(
            |r: RaceResultSnapshot| podium_entry_view(r, roster),
        ),
    }
}

fn find_round(rounds: &Vec<ChampionshipRoundSnapshot>, meeting_key: i64) -> (r: Option<usize>)
    ensures
        match r {
            Some(i) => i < rounds@.len() && round_of_meeting(rounds@, meeting_key) == Some(
                rounds@[i as int],
            ),
            None => round_of_meeting(rounds@, meeting_key) is None,
        },
{
    let mut i: usize = 0;
    assert(rounds@.subrange(0, rounds@.len() as int) =~= rounds@);
    while i < rounds.len()
        invariant
            i <= rounds@.len(),
            round_of_meeting(rounds@, meeting_key) == round_of_meeting(
                rounds@.subrange(i as int, rounds@.len() as int),
                meeting_key,
            ),
        decreases rounds.len() - i,
    {
        let ghost rest = rounds@.subrange(i as int, rounds@.len() as int);
        assert(rest[0] == rounds@[i as int]);
        if rounds[i].meeting_key == meeting_key {
            return Some(i);
        }
        assert(rest.drop_first() =~= rounds@.subrange(i + 1, rounds@.len() as int));
        i = i + 1;
    }
    None
}

/// The first three classified finishers of the race held at the meeting, in order.
pub fn podium_for_meeting(
    rounds: &Vec<ChampionshipRoundSnapshot>,
    meeting_key: i64,
    roster: &Vec<Driver>,
) -> (r: Vec<PodiumEntry>)
    requires
        roster_colours_ok(roster@),
    ensures
        podium_views(r@) == podium_of(rounds@, meeting_key, roster@),
{
    let index = match find_round(rounds, meeting_key) {
        Some(i) => i,
        None => {
            let r: Vec<PodiumEntry> = Vec::new();
            assert(podium_views(r@) =~= seq![]);
            return r;
        },
    };
    let round = &rounds[index];
    let results = &round.race_results;
    let mut podium: Vec<RaceResultSnapshot> = Vec::new();
    let mut i: usize = 0;
    while i < results.len()
        invariant
            results@ == round.race_results@,
            i <= results@.len(),
            podium@ == results@.subrange(0, i as int).filter(on_podium()),
        decreases results.len() - i,
    {
        proof {
            reveal(Seq::filter);
            assert(results@.subrange(0, (i + 1) as int).drop_last() =~= results@.subrange(0, i as int));
        }
        let res = results[i];
        if !res.dnf && !res.dns && !res.dsq && res.classified_position >= 1
            && res.classified_position <= 3 {
            podium.push(res);
        }
        i = i + 1;
    }
    assert(results@.subrange(0, results@.len() as int) =~= results@);
    let mut positions: Vec<i64> = Vec::new();
    let mut k: usize = 0;
    while k < podium.len()
        invariant
            k <= podium@.len(),
            positions@ == podium@.subrange(0, k as int).map_values(
                |r: RaceResultSnapshot| r.classified_position,
            ),
        decreases podium.len() - k,
    {
        positions.push(podium[k].classified_position);
        assert(positions@ =~= podium@.subrange(0, (k + 1) as int).map_values(
            |r: RaceResultSnapshot| r.classified_position,
        ));
        k = k + 1;
    }
    assert(podium@.subrange(0, podium@.len() as int) =~= podium@);
    let keys = single_key_vec(&positions);
    let order = stable_sort_indices(&keys, false);
    assert(positions@.len() == podium@.len());
    assert(keys_view(keys@).len() == keys@.len());
    assert(single_keys(positions@).len() == positions@.len());
    let ghost sorted = podium_results(*round);
    assert(sorted == arrange(podium@, order@));
    let ghost target = podium_of(rounds@, meeting_key, roster@);
    assert(target == sorted.map_values(|r: RaceResultSnapshot| podium_entry_view(r, roster@)));
    let mut entries: Vec<PodiumEntry> = Vec::new();
    let mut m: usize = 0;
    while m < order.len()
        invariant
            roster_colours_ok(roster@),
            m <= order@.len(),
            order@.len() == podium@.len(),
            forall|x: int| 0 <= x < order@.len() ==> (order@[x] as int) < podium@.len(),
            sorted == arrange(podium@, order@),
            target == sorted.map_values(|r: RaceResultSnapshot| podium_entry_view(r, roster@)),
            entries@.len() == m,
            podium_views(entries@) == target.subrange(0, m as int),
        decreases order.len() - m,
    {
        let res = podium[order[m]];
        let row = driver_row(res.driver_number, res.classified_position, roster);
        let entry = PodiumEntry {
            position: res.classified_position,
            driver_number: res.driver_number,
            code: row.code,
            accent: row.accent,
        };
        let ghost before = entries@;
        entries.push(entry);
        assert(podium_views(entries@) =~= target.subrange(0, (m + 1) as int)) by {
            assert(entries@ == before.push(entry));
            assert(podium_views(entries@)[m as int] == podium_view(entry));
            assert(sorted[m as int] == res);
        }
        m = m + 1;
    }
    assert(target.subrange(0, target.len() as int) =~= target);
    entries
}

} // verus!
