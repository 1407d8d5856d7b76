use vstd::prelude::*;

use crate::domain::championship::{
    driver_entry, find_driver_entry, ChampionshipRoundSnapshot, DriverStandingSnapshot,
};
use crate::domain::countdown::{arrange, single_key_vec, single_keys};
use crate::domain::drivers::{
    display_name_text, driver_display_name, find_driver_index, roster_lookup, roster_match,
};
use crate::domain::standings::number_label;
use crate::order::{keys_view, lemma_stable_order_permutes, stable_order, stable_sort_indices};
use crate::records::Driver;
use crate::text::{append_text, i64_text, int_text, nat_digits, new_text, push_char, u64_text};

verus! {

/// Two lines of text about the championship.
#[derive(Debug, Clone)]
pub struct ChampionshipNarrative {
    pub headline: String,
    pub detail: String,
}

pub open spec fn narrative_view(n: ChampionshipNarrative) -> (Seq<char>, Seq<char>) {
    (n.headline@, n.detail@)
}

pub open spec fn narrative_views(n: Option<ChampionshipNarrative>) -> Option<(Seq<char>, Seq<char>)> {
    match n {
        Some(x) => Some(narrative_view(x)),
        None => None,
    }
}

/// The name a narrative uses for a driver: the display name of the first roster entry with
/// the number, else `#` and the number.
pub open spec fn driver_name_text(roster: Seq<Driver>, n: i64) -> Seq<char> {
    match roster_lookup(roster, n) {
        Some(d) => display_name_text(d),
        None => number_label(n),
    }
}

pub fn driver_name(roster: &Vec<Driver>, driver_number: i64) -> (r: String)
    ensures
        r@ == driver_name_text(roster@, driver_number),
{
    match find_driver_index(roster, driver_number) {
        Some(i) => {
            proof {
                assert forall|x: int| roster_match(roster@, driver_number, x) implies x == i by {
                    if x < i {
                    } else if x > i {
                        assert(roster@[i as int].driver_number == driver_number);
                    }
                }
            }
            new_text(driver_display_name(&roster[i]))
        },
        None => {
            let mut s = String::new();
            push_char(&mut s, '#');
            let digits = i64_text(driver_number);
            append_text(&mut s, digits.as_str());
            s
        },
    }
}

/// Standings entries ordered by position; equal positions keep their order.
pub open spec fn by_standing(entries: Seq<DriverStandingSnapshot>) -> Seq<DriverStandingSnapshot> {
    arrange(
        entries,
        stable_order(
            single_keys(entries.map_values(|e: DriverStandingSnapshot| e.position)),
            false,
            entries.len(),
        ),
    )
}

/// Sorts standings entries by position, keeping the order of equal positions.
pub fn sort_by_position(entries: &Vec<DriverStandingSnapshot>) -> (r: Vec<DriverStandingSnapshot>)
    ensures
        r@ == by_standing(entries@),
        r@.len() == entries@.len(),
{
    let mut positions: Vec<i64> = Vec::new();
    let mut i: usize = 0;
    while i < entries.len()
        invariant
            i <= entries@.len(),
            positions@ == entries@.subrange(0, i as int).map_values(
                |e: DriverStandingSnapshot| e.position,
            ),
        decreases entries.len() - i,
    {
        positions.push(entries[i].position);
        assert(positions@ =~= entries@.subrange(0, (i + 1) as int).map_values(
            |e: DriverStandingSnapshot| e.position,
        ));
        i = i + 1;
    }
    assert(entries@.subrange(0, entries@.len() as int) =~= entries@);
    let keys = single_key_vec(&positions);
    let order = stable_sort_indices(&keys, false);
    assert(positions@.len() == entries@.len());
    assert(keys_view(keys@).len() == keys@.len());
    assert(single_keys(positions@).len() == positions@.len());
    let mut r: Vec<DriverStandingSnapshot> = Vec::new();
    let mut m: usize = 0;
    while m < order.len()
        invariant
            m <= order@.len(),
            order@.len() == entries@.len(),
            forall|x: int| 0 <= x < order@.len() ==> (order@[x] as int) < entries@.len(),
            r@ == arrange(entries@, order@).subrange(0, m as int),
        decreases order.len() - m,
    {
        r.push(entries[order[m]]);
        assert(r@ =~= arrange(entries@, order@).subrange(0, (m + 1) as int));
        m = m + 1;
    }
    assert(arrange(entries@, order@).subrange(0, order@.len() as int) =~= arrange(entries@, order@));
    r
}

pub open spec fn leads_text(name: Seq<char>) -> Seq<char> {
    name + " leads the championship"@
}

/// `a - b`, held to the range of `i64` (`i64::saturating_sub`).
pub open spec fn saturating_difference(a: i64, b: i64) -> int {
    let d = a - b;
    if d > i64::MAX {
        i64::MAX as int
    } else if d < i64::MIN {
        i64::MIN as int
    } else {
        d
    }
}

/// The championship as it stands after the latest round: who leads, and by how much.
pub open spec fn championship_narrative(
    rounds: Seq<ChampionshipRoundSnapshot>,
    roster: Seq<Driver>,
) -> Option<(Seq<char>, Seq<char>)> {
    if rounds.len() == 0 || rounds.last().drivers@.len() == 0 {
        None
    } else {
        let standings = by_standing(rounds.last().drivers@);
        let leader = standings[0];
        let headline = leads_text(driver_name_text(roster, leader.driver_number));
        if standings.len() == 1 {
            Some(
                (
                    headline,
                    int_text(leader.points as int) + " points after "@ + nat_digits(rounds.len())
                        + " rounds"@,
                ),
            )
        } else {
            let runner_up = standings[1];
            Some(
                (
                    headline,
                    "P"@ + int_text(leader.position as int) + " with "@ + int_text(
                        leader.points as int,
                    ) + " points · "@ + int_text(
                        saturating_difference(leader.points, runner_up.points),
                    ) + " ahead of "@ + driver_name_text(roster, runner_up.driver_number),
                ),
            )
        }
    }
}

fn saturating_gap(a: i64, b: i64) -> (r: i64)
    ensures
        r == saturating_difference(a, b),
{
    let d: i128 = a as i128 - b as i128;
    if d > i64::MAX as i128 {
        i64::MAX
    } else if d < i64::MIN as i128 {
        i64::MIN
    } else {
        d as i64
    }
}

pub fn build_championship_narrative(rounds: &Vec<ChampionshipRoundSnapshot>, roster: &Vec<Driver>) -> (r:
    Option<ChampionshipNarrative>)
    ensures
        narrative_views(r) == championship_narrative(rounds@, roster@),
{
    if rounds.len() == 0 {
        return None;
    }
    let latest = &rounds[rounds.len() - 1];
    if latest.drivers.len() == 0 {
        return None;
    }
    let standings = sort_by_position(&latest.drivers);
    let leader = standings[0];
    let leader_name = driver_name(roster, leader.driver_number);
    let mut headline = leader_name.clone();
    append_text(&mut headline, " leads the championship");
    let mut detail = String::new();
    if standings.len() == 1 {
        let points = i64_text(leader.points);
        append_text(&mut detail, points.as_str());
        append_text(&mut detail, " points after ");
        let count = u64_text(rounds.len() as u64);
        append_text(&mut detail, count.as_str());
        append_text(&mut detail, " rounds");
    } else {
        let runner_up = standings[1];
        let gap = saturating_gap(leader.points, runner_up.points);
        append_text(&mut detail, "P");
        let position = i64_text(leader.position);
        append_text(&mut detail, position.as_str());
        append_text(&mut detail, " with ");
        let points = i64_text(leader.points);
        append_text(&mut detail, points.as_str());
        append_text(&mut detail, " points · ");
        let gap_text = i64_text(gap);
        append_text(&mut detail, gap_text.as_str());
        append_text(&mut detail, " ahead of ");
        let runner_name = driver_name(roster, runner_up.driver_number);
        append_text(&mut detail, runner_name.as_str());
    }
    Some(ChampionshipNarrative { headline, detail })
}

/// `|a - b|` (`i64::abs_diff`).
pub open spec fn points_gap(a: i64, b: i64) -> nat {
    if a >= b {
        (a - b) as nat
    } else {
        (b - a) as nat
    }
}

/// Two drivers compared after the latest round: who leads whom, by how many points.
pub open spec fn rival_narrative(
    rounds: Seq<ChampionshipRoundSnapshot>,
    roster: Seq<Driver>,
    first: i64,
    second: i64,
) -> Option<(Seq<char>, Seq<char>)> {
    if rounds.len() == 0 {
        None
    } else {
        match driver_entry(rounds.last().drivers@, first) {
            None => None,
            Some(a) => match driver_entry(rounds.last().drivers@, second) {
                None => None,
                Some(b) => {
                    let first_name = driver_name_text(roster, first);
                    let second_name = driver_name_text(roster, second);
                    let gap = points_gap(a.points, b.points);
                    let first_leads = a.points >= b.points;
                    let leader_name = if first_leads {
                        first_name
                    } else {
                        second_name
                    };
                    let trailing_name = if first_leads {
                        second_name
                    } else {
                        first_name
                    };
                    let leader_points = if first_leads {
                        a.points
                    } else {
                        b.points
                    };
                    let trailing_points = if first_leads {
                        b.points
                    } else {
                        a.points
                    };
                    Some(
                        (
                            leader_name + " vs "@ + trailing_name,
                            leader_name + " leads "@ + int_text(leader_points as int) + "–"@
                                + int_text(trailing_points as int) + " · "@ + nat_digits(gap)
                                + " point"@ + (if gap == 1 {
                                ""@
                            } else {
                                "s"@
                            }) + " gap after "@ + nat_digits(rounds.len()) + " rounds"@,
                        ),
                    )
                },
            },
        }
    }
}

fn abs_gap(a: i64, b: i64) -> (r: u64)
    ensures
        r == points_gap(a, b),
{
    if a >= b {
        (a as i128 - b as i128) as u64
    } else {
        (b as i128 - a as i128) as u64
    }
}

pub fn build_rival_narrative(
    rounds: &Vec<ChampionshipRoundSnapshot>,
    roster: &Vec<Driver>,
    first: i64,
    second: i64,
) -> (r: Option<ChampionshipNarrative>)
    ensures
        narrative_views(r) == rival_narrative(rounds@, roster@, first, second),
{
    if rounds.len() == 0 {
        return None;
    }
    let latest = &rounds[rounds.len() - 1];
    let first_entry = match find_driver_entry(&latest.drivers, first) {
        Some(e) => e,
        None => return None,
    };
    let second_entry = match find_driver_entry(&latest.drivers, second) {
        Some(e) => e,
        None => return None,
    };
    let first_name = driver_name(roster, first);
    let second_name = driver_name(roster, second);
    let gap = abs_gap(first_entry.points, second_entry.points);
    let first_leads = first_entry.points >= second_entry.points;
    let (leader_name, leader_pts, trailing_name, trailing_pts) = if first_leads {
        (first_name, first_entry.points, second_name, second_entry.points)
    } else {
        (second_name, second_entry.points, first_name, first_entry.points)
    };
    let mut headline = leader_name.clone();
    append_text(&mut headline, " vs ");
    append_text(&mut headline, trailing_name.as_str());
    let mut detail = leader_name.clone();
    append_text(&mut detail, " leads ");
    let lp = i64_text(leader_pts);
    append_text(&mut detail, lp.as_str());
    append_text(&mut detail, "–");
    let tp = i64_text(trailing_pts);
    append_text(&mut detail, tp.as_str());
    append_text(&mut detail, " · ");
    let gap_text = u64_text(gap);
    append_text(&mut detail, gap_text.as_str());
    append_text(&mut detail, " point");
    if gap == 1 {
        append_text(&mut detail, "");
    } else {
        append_text(&mut detail, "s");
    }
    append_text(&mut detail, " gap after ");
    let count = u64_text(rounds.len() as u64);
    append_text(&mut detail, count.as_str());
    append_text(&mut detail, " rounds");
    Some(ChampionshipNarrative { headline, detail })
}

/// The champion once the season is over: the leader of the latest standings.
pub open spec fn season_complete_narrative(
    rounds: Seq<ChampionshipRoundSnapshot>,
    roster: Seq<Driver>,
) -> Option<(Seq<char>, Seq<char>)> {
    if rounds.len() == 0 || rounds.last().drivers@.len() == 0 {
        None
    } else {
        let champion = by_standing(rounds.last().drivers@)[0];
        Some(
            (
                "World Champion: "@ + driver_name_text(roster, champion.driver_number),
                int_text(champion.points as int) + " points · P"@ + int_text(
                    champion.position as int,
                ),
            ),
        )
    }
}

pub fn build_season_complete_narrative(
    rounds: &Vec<ChampionshipRoundSnapshot>,
    roster: &Vec<Driver>,
) -> (r: Option<ChampionshipNarrative>)
    ensures
        narrative_views(r) == season_complete_narrative(rounds@, roster@),
{
    if rounds.len() == 0 {
        return None;
    }
    let latest = &rounds[rounds.len() - 1];
    let standings = sort_by_position(&latest.drivers);
    if standings.len() == 0 {
        return None;
    }
    let champion = standings[0];
    let mut headline = new_text("World Champion: ");
    let name = driver_name(roster, champion.driver_number);
    append_text(&mut headline, name.as_str());
    let mut detail = i64_text(champion.points);
    append_text(&mut detail, " points · P");
    let position = i64_text(champion.position);
    append_text(&mut detail, position.as_str());
    Some(ChampionshipNarrative { headline, detail })
}

/// Standings entries ordered by driver number; equal numbers keep their order.
pub open spec fn by_number(entries: Seq<DriverStandingSnapshot>) -> Seq<DriverStandingSnapshot> {
    arrange(
        entries,
        stable_order(
            single_keys(entries.map_values(|e: DriverStandingSnapshot| e.driver_number)),
            false,
            entries.len(),
        ),
    )
}

/// `number:position:points` of one entry.
pub open spec fn entry_signature(e: DriverStandingSnapshot) -> Seq<char> {
    int_text(e.driver_number as int) + ":"@ + int_text(e.position as int) + ":"@ + int_text(
        e.points as int,
    )
}

/// The entry signatures joined with `|`.
pub open spec fn joined_signatures(entries: Seq<DriverStandingSnapshot>) -> Seq<char>
    decreases entries.len(),
{
    if entries.len() == 0 {
        seq![]
    } else if entries.len() == 1 {
        entry_signature(entries[0])
    } else {
        joined_signatures(entries.drop_last()) + "|"@ + entry_signature(entries.last())
    }
}

/// A text that tells one set of standings from another: the entries by driver number, each as
/// `number:position:points`, joined with `|`.
pub open spec fn signature_text(standings: Seq<DriverStandingSnapshot>) -> Seq<char> {
    joined_signatures(by_number(standings))
}

pub fn standings_signature(standings: &Vec<DriverStandingSnapshot>) -> (r: String)
    ensures
        r@ == signature_text(standings@),
{
    let mut numbers: Vec<i64> = Vec::new();
    let mut i: usize = 0;
    while i < standings.len()
        invariant
            i <= standings@.len(),
            numbers@ == standings@.subrange(0, i as int).map_values(
                |e: DriverStandingSnapshot| e.driver_number,
            ),
        decreases standings.len() - i,
    {
        numbers.push(standings[i].driver_number);
        assert(numbers@ =~= standings@.subrange(0, (i + 1) as int).map_values(
            |e: DriverStandingSnapshot| e.driver_number,
        ));
        i = i + 1;
    }
    assert(standings@.subrange(0, standings@.len() as int) =~= standings@);
    let keys = single_key_vec(&numbers);
    let order = stable_sort_indices(&keys, false);
    assert(numbers@.len() == standings@.len());
    assert(keys_view(keys@).len() == keys@.len());
    assert(single_keys(numbers@).len() == numbers@.len());
    let ghost sorted = by_number(standings@);
    assert(sorted == arrange(standings@, order@));
    let mut text = String::new();
    let mut m: usize = 0;
    while m < order.len()
        invariant
            m <= order@.len(),
            order@.len() == standings@.len(),
            forall|x: int| 0 <= x < order@.len() ==> (order@[x] as int) < standings@.len(),
            sorted == arrange(standings@, order@),
            text@ == joined_signatures(sorted.subrange(0, m as int)),
        decreases order.len() - m,
    {
        let e = standings[order[m]];
        assert(sorted.subrange(0, (m + 1) as int).drop_last() =~= sorted.subrange(0, m as int));
        assert(sorted.subrange(0, (m + 1) as int).last() == e);
        if m > 0 {
            append_text(&mut text, "|");
        }
        let number = i64_text(e.driver_number);
        append_text(&mut text, number.as_str());
        append_text(&mut text, ":");
        let position = i64_text(e.position);
        append_text(&mut text, position.as_str());
        append_text(&mut text, ":");
        let points = i64_text(e.points);
        append_text(&mut text, points.as_str());
        proof {
            if m == 0 {
                assert(sorted.subrange(0, 1)[0] == e);
            }
        }
        m = m + 1;
    }
    assert(sorted.subrange(0, order@.len() as int) =~= sorted);
    text
}

} // verus!

verus! {

/// The standings the narrative reads are the latest round's entries by position: the first
/// (the leader) holds the best position of all, the second the best of the others.
pub proof fn law_leader_holds_best_position(entries: Seq<DriverStandingSnapshot>)
    requires
        0 < entries.len() <= usize::MAX,
    ensures
        by_standing(entries).len() == entries.len(),
        forall|i: int| 0 <= i < entries.len() ==> by_standing(entries)[0].position <= #[trigger] entries[i].position,
        forall|k: int| 0 <= k < entries.len() ==> entries.contains(#[trigger] by_standing(entries)[k]),
        entries.len() > 1 ==> forall|k: int|
            1 <= k < entries.len() ==> by_standing(entries)[1].position <= #[trigger] by_standing(entries)[k].position,
{
    let positions = entries.map_values(|e: DriverStandingSnapshot| e.position);
    let o = stable_order(single_keys(positions), false, entries.len());
    crate::domain::countdown::lemma_single_keys_sorted(positions, false);
    crate::order::lemma_stable_order_permutes(single_keys(positions), false, entries.len());
    let s = by_standing(entries);
    assert(s == arrange(entries, o));
    assert forall|i: int| 0 <= i < entries.len() implies s[0].position <= #[trigger] entries[i].position by {
        assert(o.contains(i as usize));
        let k = choose|k: int| 0 <= k < o.len() && o[k] == i as usize;
        if k > 0 {
            assert(positions[o[0] as int] <= positions[o[k] as int]);
        }
    }
    assert forall|k: int| 0 <= k < entries.len() implies entries.contains(#[trigger] s[k]) by {
        assert(s[k] == entries[o[k] as int]);
    }
    if entries.len() > 1 {
        assert forall|k: int| 1 <= k < entries.len() implies s[1].position <= #[trigger] s[k].position by {
            if k > 1 {
                assert(positions[o[1] as int] <= positions[o[k] as int]);
            }
        }
    }
}


/// The entries of the latest round.
pub open spec fn latest_entries(rounds: Seq<ChampionshipRoundSnapshot>) -> Seq<DriverStandingSnapshot> {
    rounds.last().drivers@
}

/// With two or more drivers in the latest round, the championship narrative names as leader a
/// driver holding the best position, and gives as the gap to a driver holding the best of the
/// other positions the leader's championship points minus that driver's (when the difference
/// fits in an `i64`, so never negative when the leader has at least as many points).
pub proof fn law_championship_gap(rounds: Seq<ChampionshipRoundSnapshot>, roster: Seq<Driver>)
    requires
        rounds.len() > 0,
        2 <= latest_entries(rounds).len() <= usize::MAX,
        forall|i: int, j: int|
            #![trigger latest_entries(rounds)[i], latest_entries(rounds)[j]]
            0 <= i < latest_entries(rounds).len() && 0 <= j < latest_entries(rounds).len() ==> i64::MIN
                <= latest_entries(rounds)[i].points - latest_entries(rounds)[j].points <= i64::MAX,
    ensures
        exists|l: int, u: int|
            #![trigger latest_entries(rounds)[l], latest_entries(rounds)[u]]
            {
                let e = latest_entries(rounds);
                &&& 0 <= l < e.len()
                &&& 0 <= u < e.len()
                &&& l != u
                &&& forall|k: int| 0 <= k < e.len() ==> e[l].position <= #[trigger] e[k].position
                &&& forall|k: int| 0 <= k < e.len() && k != l ==> e[u].position <= #[trigger] e[k].position
                &&& championship_narrative(rounds, roster) == Some(
                    (
                        leads_text(driver_name_text(roster, e[l].driver_number)),
                        "P"@ + int_text(e[l].position as int) + " with "@ + int_text(e[l].points as int)
                            + " points · "@ + int_text(e[l].points - e[u].points) + " ahead of "@
                            + driver_name_text(roster, e[u].driver_number),
                    ),
                )
            },
{
    let e = latest_entries(rounds);
    let positions = e.map_values(|x: DriverStandingSnapshot| x.position);
    let o = stable_order(single_keys(positions), false, e.len());
    crate::domain::countdown::lemma_single_keys_sorted(positions, false);
    lemma_stable_order_permutes(single_keys(positions), false, e.len());
    let st = by_standing(e);
    assert(st == arrange(e, o));
    let l = o[0] as int;
    let u = o[1] as int;
    assert(st[0] == e[l] && st[1] == e[u]);
    assert(o[0] != o[1]);
    assert forall|k: int| 0 <= k < e.len() implies e[l].position <= #[trigger] e[k].position by {
        assert(o.contains(k as usize));
        let m = choose|m: int| 0 <= m < o.len() && o[m] == k as usize;
        if m > 0 {
            assert(positions[o[0] as int] <= positions[o[m] as int]);
        }
    }
    assert forall|k: int| 0 <= k < e.len() && k != l implies e[u].position <= #[trigger] e[k].position by {
        assert(o.contains(k as usize));
        let m = choose|m: int| 0 <= m < o.len() && o[m] == k as usize;
        if m > 1 {
            assert(positions[o[1] as int] <= positions[o[m] as int]);
        }
    }
    assert(saturating_difference(e[l].points, e[u].points) == e[l].points - e[u].points);
    assert(e[l] == latest_entries(rounds)[l] && e[u] == latest_entries(rounds)[u]);
}

/// No two entries share a driver number.
pub open spec fn numbers_distinct(entries: Seq<DriverStandingSnapshot>) -> bool {
    forall|a: int, b: int|
        #![trigger entries[a], entries[b]]
        0 <= a < b < entries.len() ==> entries[a].driver_number != entries[b].driver_number
}

/// `perm` lists each index below `n` exactly once.
pub open spec fn is_permutation(perm: Seq<usize>, n: int) -> bool {
    &&& perm.len() == n
    &&& forall|m: int| 0 <= m < n ==> (#[trigger] perm[m] as int) < n
    &&& forall|a: int, b: int| #![trigger perm[a], perm[b]] 0 <= a < b < n ==> perm[a] != perm[b]
    &&& forall|i: int| 0 <= i < n ==> #[trigger] index_listed(perm, i)
}

/// Index `i` occurs in `perm`.
pub open spec fn index_listed(perm: Seq<usize>, i: int) -> bool {
    exists|m: int| 0 <= m < perm.len() && perm[m] == i
}

/// `a` and `b` hold the same entries: each entry of one occurs in the other.
pub open spec fn same_entries(a: Seq<DriverStandingSnapshot>, b: Seq<DriverStandingSnapshot>) -> bool {
    &&& forall|k: int| 0 <= k < a.len() ==> b.contains(#[trigger] a[k])
    &&& forall|k: int| 0 <= k < b.len() ==> a.contains(#[trigger] b[k])
}

/// Driver numbers strictly increase along the entries.
pub open spec fn numbers_increase(entries: Seq<DriverStandingSnapshot>) -> bool {
    forall|a: int, b: int|
        #![trigger entries[a], entries[b]]
        0 <= a < b < entries.len() ==> entries[a].driver_number < entries[b].driver_number
}

/// Entries with distinct numbers, ordered by number, hold the same entries with the numbers
/// increasing.
proof fn lemma_by_number_sorted(entries: Seq<DriverStandingSnapshot>)
    requires
        entries.len() <= usize::MAX,
        numbers_distinct(entries),
    ensures
        by_number(entries).len() == entries.len(),
        numbers_increase(by_number(entries)),
        same_entries(by_number(entries), entries),
{
    let nums = entries.map_values(|e: DriverStandingSnapshot| e.driver_number);
    let o = stable_order(single_keys(nums), false, entries.len());
    crate::domain::countdown::lemma_single_keys_sorted(nums, false);
    lemma_stable_order_permutes(single_keys(nums), false, entries.len());
    let a = by_number(entries);
    assert(a == arrange(entries, o));
    assert forall|x: int, y: int| 0 <= x < y < a.len() implies a[x].driver_number
        < a[y].driver_number by {
        assert(nums[o[x] as int] <= nums[o[y] as int]);
        assert(o[x] != o[y]);
        if (o[x] as int) < (o[y] as int) {
            assert(entries[o[x] as int].driver_number != entries[o[y] as int].driver_number);
        } else {
            assert(entries[o[y] as int].driver_number != entries[o[x] as int].driver_number);
        }
    }
    assert forall|k: int| 0 <= k < a.len() implies entries.contains(#[trigger] a[k]) by {
        assert(entries[o[k] as int] == a[k]);
    }
    assert forall|k: int| 0 <= k < entries.len() implies a.contains(#[trigger] entries[k]) by {
        assert(o.contains(k as usize));
        let m = choose|m: int| 0 <= m < o.len() && o[m] == k as usize;
        assert(a[m] == entries[k]);
    }
}

/// Two lists of the same entries, each with the numbers increasing, agree up to index `k`.
proof fn lemma_increasing_prefix_equal(
    a: Seq<DriverStandingSnapshot>,
    b: Seq<DriverStandingSnapshot>,
    k: int,
)
    requires
        a.len() == b.len(),
        0 <= k <= a.len(),
        numbers_increase(a),
        numbers_increase(b),
        same_entries(a, b),
    ensures
        forall|j: int| 0 <= j < k ==> a[j] == b[j],
    decreases k,
{
    if k > 0 {
        lemma_increasing_prefix_equal(a, b, k - 1);
        let j = k - 1;
        assert(b.contains(a[j]));
        let m = choose|m: int| 0 <= m < b.len() && b[m] == a[j];
        assert(a.contains(b[j]));
        let i = choose|i: int| 0 <= i < a.len() && a[i] == b[j];
        if m < j {
            assert(a[m] == b[m]);
            assert(a[m].driver_number < a[j].driver_number);
        }
        if i < j {
            assert(a[i] == b[i]);
            assert(b[i].driver_number < b[j].driver_number);
        }
        if m > j {
            assert(b[j].driver_number < b[m].driver_number);
        }
        if i > j {
            assert(a[j].driver_number < a[i].driver_number);
        }
        assert(m == j);
    }
}

/// The standings signature does not depend on the order of the entries: any rearrangement
/// of standings in which no driver number occurs twice has the same signature.
pub proof fn law_signature_ignores_order(standings: Seq<DriverStandingSnapshot>, perm: Seq<usize>)
    requires
        standings.len() <= usize::MAX,
        numbers_distinct(standings),
        is_permutation(perm, standings.len() as int),
    ensures
        signature_text(arrange(standings, perm)) == signature_text(standings),
{
    let n = standings.len() as int;
    let p = arrange(standings, perm);
    assert forall|x: int, y: int| 0 <= x < y < p.len() implies p[x].driver_number
        != p[y].driver_number by {
        assert(perm[x] != perm[y]);
        if (perm[x] as int) < (perm[y] as int) {
            assert(standings[perm[x] as int].driver_number != standings[perm[y] as int].driver_number);
        } else {
            assert(standings[perm[y] as int].driver_number != standings[perm[x] as int].driver_number);
        }
    }
    lemma_by_number_sorted(standings);
    lemma_by_number_sorted(p);
    let a = by_number(standings);
    let b = by_number(p);
    assert forall|k: int| 0 <= k < a.len() implies b.contains(#[trigger] a[k]) by {
        assert(standings.contains(a[k]));
        let i = choose|i: int| 0 <= i < n && standings[i] == a[k];
        assert(index_listed(perm, i));
        let m = choose|m: int| 0 <= m < perm.len() && perm[m] == i;
        assert(p[m] == a[k]);
        assert(p.contains(a[k]));
    }
    assert forall|k: int| 0 <= k < b.len() implies a.contains(#[trigger] b[k]) by {
        assert(p.contains(b[k]));
        let m = choose|m: int| 0 <= m < n && p[m] == b[k];
        assert(standings[perm[m] as int] == b[k]);
        assert(standings.contains(b[k]));
    }
    lemma_increasing_prefix_equal(a, b, a.len() as int);
    assert(a =~= b);
}

} // verus!
