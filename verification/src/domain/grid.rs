use vstd::prelude::*;

use crate::clock::{instant_or_now, resolves};
use crate::domain::countdown::arrange;
use crate::order::{keys_view, stable_order, stable_sort_indices};
use crate::records::{Session, StartingGrid};
use crate::text::{append_text, nat_digits, new_text, push_padded, text_eq, u64_text, zero_pad};

verus! {

/// A pinned driver's slot on the starting grid; the gap to pole is in milliseconds.
#[derive(Debug, Clone, Copy, PartialEq, Eq, Structural)]
pub struct GridSlot {
    pub driver_number: i64,
    pub position: i64,
    pub gap_to_pole_ms: Option<i64>,
}

#[derive(Debug, Clone, Copy, PartialEq, Eq, Structural)]
pub enum QualiGridVisibility {
    Hidden,
    Pending,
    Ready,
}

pub open spec fn is_gp_qualifying(s: Session, meeting_key: i64) -> bool {
    s.meeting_key == meeting_key && !s.is_cancelled && s.session_name@ == "Qualifying"@
        && s.session_type@ == "Qualifying"@
}

/// `i` is the first Grand Prix qualifying session of the meeting.
pub open spec fn first_gp_qualifying(sessions: Seq<Session>, meeting_key: i64, i: int) -> bool {
    0 <= i < sessions.len() && is_gp_qualifying(sessions[i], meeting_key) && forall|j: int|
        0 <= j < i ==> !is_gp_qualifying(sessions[j], meeting_key)
}

/// The (Grand Prix, not sprint) qualifying session of a meeting.
pub fn find_gp_qualifying(sessions: &Vec<Session>, meeting_key: i64) -> (r: Option<&Session>)
    ensures
        match r {
            Some(s) => exists|i: int|
                first_gp_qualifying(sessions@, meeting_key, i) && sessions@[i] == *s,
            None => forall|i: int|
                0 <= i < sessions@.len() ==> !is_gp_qualifying(#[trigger] sessions@[i], meeting_key),
        },
{
    let mut i: usize = 0;
    while i < sessions.len()
        invariant
            i <= sessions@.len(),
            forall|j: int| 0 <= j < i ==> !is_gp_qualifying(#[trigger] sessions@[j], meeting_key),
        decreases sessions.len() - i,
    {
        let s = &sessions[i];
        if s.meeting_key == meeting_key && !s.is_cancelled && text_eq(
            s.session_name.as_str(),
            "Qualifying",
        ) && text_eq(s.session_type.as_str(), "Qualifying") {
            assert(first_gp_qualifying(sessions@, meeting_key, i as int));
            return Some(s);
        }
        i = i + 1;
    }
    None
}

/// Qualifying is over once its end (the current time when the date does not parse) is not after
/// `now`.
pub fn quali_has_ended(session: &Session, now: i64) -> (r: bool)
    ensures
        exists|end: i64| #[trigger] resolves(session.date_end@, end) && r == (end <= now),
{
    let end = instant_or_now(session.date_end.as_str());
    assert(resolves(session.date_end@, end));
    end <= now
}

/// `r` is how the qualifying grid shows: hidden without pins, without a qualifying session or
/// before it ended (at the instant its end date stands for); then ready when the grid is in,
/// pending otherwise.
pub open spec fn visibility_for(
    has_pins: bool,
    quali: Option<Session>,
    now: i64,
    grid_available: bool,
    r: QualiGridVisibility,
) -> bool {
    &&& !has_pins ==> r == QualiGridVisibility::Hidden
    &&& quali is None ==> r == QualiGridVisibility::Hidden
    &&& has_pins ==> (quali matches Some(q) ==> exists|end: i64|
        #[trigger] resolves(q.date_end@, end) && r == (if end > now {
            QualiGridVisibility::Hidden
        } else if grid_available {
            QualiGridVisibility::Ready
        } else {
            QualiGridVisibility::Pending
        }))
}

/// Whether the qualifying grid of the pinned drivers is shown: hidden without pins, without a
/// qualifying session or before it ended; then ready when the grid is in, pending otherwise.
pub fn quali_grid_visibility(
    has_pins: bool,
    quali: Option<&Session>,
    now: i64,
    grid_available: bool,
) -> (r: QualiGridVisibility)
    ensures
        visibility_for(has_pins, match quali { Some(q) => Some(*q), None => None }, now, grid_available, r),
{
    if !has_pins {
        return QualiGridVisibility::Hidden;
    }
    let q = match quali {
        Some(q) => q,
        None => return QualiGridVisibility::Hidden,
    };
    let end = instant_or_now(q.date_end.as_str());
    let r = if !(end <= now) {
        QualiGridVisibility::Hidden
    } else if grid_available {
        QualiGridVisibility::Ready
    } else {
        QualiGridVisibility::Pending
    };
    proof {
        let qo: Option<Session> = Some(*q);
        assert(qo matches Some(qq) && resolves(qq.date_end@, end) && r == (if end > now {
            QualiGridVisibility::Hidden
        } else if grid_available {
            QualiGridVisibility::Ready
        } else {
            QualiGridVisibility::Pending
        }));
    }
    r
}

pub open spec fn grid_row_of(grid: Seq<StartingGrid>, driver_number: i64, i: int) -> bool {
    0 <= i < grid.len() && grid[i].driver_number == driver_number && forall|j: int|
        0 <= j < i ==> grid[j].driver_number != driver_number
}

pub open spec fn pole_row(grid: Seq<StartingGrid>, i: int) -> bool {
    0 <= i < grid.len() && grid[i].position == 1 && forall|j: int|
        0 <= j < i ==> grid[j].position != 1
}

/// Lap time of the first row on pole, if it has one.
pub open spec fn pole_lap(grid: Seq<StartingGrid>) -> Option<i64> {
    if exists|i: int| pole_row(grid, i) {
        grid[choose|i: int| pole_row(grid, i)].lap_duration_ms
    } else {
        None
    }
}

pub open spec fn gap_to_pole(pole: Option<i64>, row: StartingGrid) -> Option<i64> {
    match (pole, row.lap_duration_ms) {
        (Some(p), Some(l)) => if row.position != 1 {
            Some(if l - p > 0 {
                (l - p) as i64
            } else {
                0
            })
        } else {
            None
        },
        _ => None,
    }
}

/// Slots of the pinned drivers that are on the grid, in pin order (before sorting).
pub open spec fn pinned_slots(grid: Seq<StartingGrid>, pinned: Seq<i64>) -> Seq<GridSlot>
    decreases pinned.len(),
{
    if pinned.len() == 0 {
        seq![]
    } else {
        let rest = pinned_slots(grid, pinned.drop_last());
        let n = pinned.last();
        if exists|i: int| grid_row_of(grid, n, i) {
            let row = grid[choose|i: int| grid_row_of(grid, n, i)];
            rest.push(GridSlot { driver_number: n, position: row.position, gap_to_pole_ms: gap_to_pole(pole_lap(grid), row) })
        } else {
            rest
        }
    }
}

pub open spec fn grid_slots(grid: Seq<StartingGrid>, pinned: Seq<i64>) -> Seq<GridSlot> {
    if grid.len() == 0 || pinned.len() == 0 {
        seq![]
    } else {
        let slots = pinned_slots(grid, pinned);
        let keys = slots.map_values(|s: GridSlot| seq![s.position]);
        arrange(slots, stable_order(keys, false, slots.len()))
    }
}

pub open spec fn laps_non_negative(grid: Seq<StartingGrid>) -> bool {
    forall|i: int|
        0 <= i < grid.len() ==> match (#[trigger] grid[i]).lap_duration_ms {
            Some(l) => l >= 0,
            None => true,
        }
}

fn find_row(grid: &Vec<StartingGrid>, driver_number: i64) -> (r: Option<usize>)
    ensures
        match r {
            Some(i) => grid_row_of(grid@, driver_number, i as int),
            None => !exists|i: int| grid_row_of(grid@, driver_number, i),
        },
{
    let mut i: usize = 0;
    while i < grid.len()
        invariant
            i <= grid@.len(),
            forall|j: int| 0 <= j < i ==> #[trigger] grid@[j].driver_number != driver_number,
        decreases grid.len() - i,
    {
        if grid[i].driver_number == driver_number {
            return Some(i);
        }
        i = i + 1;
    }
    None
}

fn find_pole_lap(grid: &Vec<StartingGrid>) -> (r: Option<i64>)
    ensures
        r == pole_lap(grid@),
{
    let mut i: usize = 0;
    while i < grid.len()
        invariant
            i <= grid@.len(),
            forall|j: int| 0 <= j < i ==> #[trigger] grid@[j].position != 1,
        decreases grid.len() - i,
    {
        if grid[i].position == 1 {
            assert(pole_row(grid@, i as int));
            assert forall|k: int| pole_row(grid@, k) implies k == i by {
                if k < i {
                } else if k > i {
                    assert(grid@[i as int].position == 1);
                }
            }
            return grid[i].lap_duration_ms;
        }
        i = i + 1;
    }
    None
}

/// Each slot before sorting is a pinned driver found on the grid, at its grid position; there
/// are no more slots than pinned drivers.
proof fn lemma_pinned_slots(grid: Seq<StartingGrid>, pinned: Seq<i64>)
    ensures
        pinned_slots(grid, pinned).len() <= pinned.len(),
        forall|k: int|
            0 <= k < pinned_slots(grid, pinned).len() ==> {
                let s = #[trigger] pinned_slots(grid, pinned)[k];
                &&& pinned.contains(s.driver_number)
                &&& exists|i: int| 0 <= i < grid.len() && grid[i].driver_number == s.driver_number
                    && grid[i].position == s.position
            },
    decreases pinned.len(),
{
    if pinned.len() > 0 {
        let rest = pinned.drop_last();
        lemma_pinned_slots(grid, rest);
        let prev = pinned_slots(grid, rest);
        let cur = pinned_slots(grid, pinned);
        assert forall|k: int| 0 <= k < cur.len() implies {
            let s = #[trigger] cur[k];
            &&& pinned.contains(s.driver_number)
            &&& exists|i: int| 0 <= i < grid.len() && grid[i].driver_number == s.driver_number
                && grid[i].position == s.position
        } by {
            if k < prev.len() {
                assert(cur[k] == prev[k]);
                let m = choose|m: int| 0 <= m < rest.len() && rest[m] == prev[k].driver_number;
                assert(pinned[m] == rest[m]);
            } else {
                let n = pinned.last();
                let i = choose|i: int| grid_row_of(grid, n, i);
                assert(pinned[pinned.len() - 1] == n);
                assert(grid[i].driver_number == cur[k].driver_number);
            }
        }
    }
}

/// The pinned drivers' grid slots come out in grid order (a smaller position first), and each
/// is a pinned driver found on the grid, at its grid position.
pub proof fn law_grid_slots_in_grid_order(grid: Seq<StartingGrid>, pinned: Seq<i64>)
    requires
        pinned.len() <= usize::MAX,
    ensures
        grid_slots(grid, pinned).len() <= pinned.len(),
        forall|a: int, b: int|
            #![trigger grid_slots(grid, pinned)[a], grid_slots(grid, pinned)[b]]
            0 <= a < b < grid_slots(grid, pinned).len() ==> grid_slots(grid, pinned)[a].position
                <= grid_slots(grid, pinned)[b].position,
        forall|k: int|
            0 <= k < grid_slots(grid, pinned).len() ==> {
                let s = #[trigger] grid_slots(grid, pinned)[k];
                &&& pinned.contains(s.driver_number)
                &&& exists|i: int| 0 <= i < grid.len() && grid[i].driver_number == s.driver_number
                    && grid[i].position == s.position
            },
{
    if grid.len() > 0 && pinned.len() > 0 {
        let slots = pinned_slots(grid, pinned);
        lemma_pinned_slots(grid, pinned);
        let vals = slots.map_values(|s: GridSlot| s.position);
        let keys = slots.map_values(|s: GridSlot| seq![s.position]);
        assert(keys =~= crate::domain::countdown::single_keys(vals));
        crate::domain::countdown::lemma_single_keys_sorted(vals, false);
        let o = stable_order(keys, false, slots.len());
        let r = grid_slots(grid, pinned);
        assert(r == arrange(slots, o));
        assert forall|a: int, b: int| 0 <= a < b < r.len() implies r[a].position <= r[b].position by {
            assert(vals[o[a] as int] <= vals[o[b] as int]);
        }
        assert forall|k: int| 0 <= k < r.len() implies {
            let s = #[trigger] r[k];
            &&& pinned.contains(s.driver_number)
            &&& exists|i: int| 0 <= i < grid.len() && grid[i].driver_number == s.driver_number
                && grid[i].position == s.position
        } by {
            assert(r[k] == slots[o[k] as int]);
        }
    }
}

/// Grid slots of the pinned drivers found on the starting grid, sorted by position, each with its
/// gap to the pole lap.
pub fn build_grid_slots(grid: &Vec<StartingGrid>, pinned_numbers: &Vec<i64>) -> (r: Vec<GridSlot>)
    requires
        laps_non_negative(grid@),
    ensures
        r@ == grid_slots(grid@, pinned_numbers@),
{
    if grid.len() == 0 || pinned_numbers.len() == 0 {
        return Vec::new();
    }
    let pole = find_pole_lap(grid);
    let mut slots: Vec<GridSlot> = Vec::new();
    let mut k: usize = 0;
    while k < pinned_numbers.len()
        invariant
            k <= pinned_numbers@.len(),
            pole == pole_lap(grid@),
            laps_non_negative(grid@),
            slots@ == pinned_slots(grid@, pinned_numbers@.subrange(0, k as int)),
        decreases pinned_numbers.len() - k,
    {
        let n = pinned_numbers[k];
        assert(pinned_numbers@.subrange(0, (k + 1) as int).drop_last() =~= pinned_numbers@.subrange(
            0,
            k as int,
        ));
        match find_row(grid, n) {
            Some(i) => {
                let row = grid[i];
                assert forall|m: int| grid_row_of(grid@, n, m) implies m == i by {
                    if m < i {
                    } else if m > i {
                        assert(grid@[i as int].driver_number == n);
                    }
                }
                let gap = match (pole, row.lap_duration_ms) {
                    (Some(p), Some(l)) => if row.position != 1 {
                        assert(grid@[i as int].lap_duration_ms == Some(l));
                        Some(if l - p > 0 {
                            l - p
                        } else {
                            0
                        })
                    } else {
                        None
                    },
                    _ => None,
                };
                slots.push(GridSlot { driver_number: n, position: row.position, gap_to_pole_ms: gap });
            },
            None => {},
        }
        k = k + 1;
    }
    assert(pinned_numbers@.subrange(0, pinned_numbers@.len() as int) =~= pinned_numbers@);
    let mut keys: Vec<Vec<i64>> = Vec::new();
    let mut j: usize = 0;
    while j < slots.len()
        invariant
            j <= slots@.len(),
            keys@.len() == j,
            forall|m: int| 0 <= m < j ==> (#[trigger] keys@[m])@ == seq![slots@[m].position],
        decreases slots.len() - j,
    {
        let mut key: Vec<i64> = Vec::new();
        key.push(slots[j].position);
        assert(key@ =~= seq![slots@[j as int].position]);
        keys.push(key);
        j = j + 1;
    }
    assert(keys_view(keys@) =~= slots@.map_values(|s: GridSlot| seq![s.position]));
    let order = stable_sort_indices(&keys, false);
    let mut sorted: Vec<GridSlot> = Vec::new();
    let mut m: usize = 0;
    while m < order.len()
        invariant
            m <= order@.len(),
            order@.len() == slots@.len(),
            forall|x: int| 0 <= x < order@.len() ==> (order@[x] as int) < slots@.len(),
            sorted@ == arrange(slots@, order@).subrange(0, m as int),
        decreases order.len() - m,
    {
        sorted.push(slots[order[m]]);
        assert(sorted@ =~= arrange(slots@, order@).subrange(0, (m + 1) as int));
        m = m + 1;
    }
    assert(arrange(slots@, order@).subrange(0, order@.len() as int) =~= arrange(slots@, order@));
    sorted
}

pub open spec fn grid_position_text(position: i64) -> Seq<char> {
    if position == 1 {
        "Pole"@
    } else {
        "P"@ + crate::text::int_text(position as int)
    }
}

/// "Pole" for P1, otherwise "P" and the position.
pub fn format_grid_position(position: i64) -> (r: String)
    ensures
        r@ == grid_position_text(position),
{
    if position == 1 {
        new_text("Pole")
    } else {
        let mut text = new_text("P");
        append_text(&mut text, crate::text::i64_text(position).as_str());
        text
    }
}

pub open spec fn gap_text(gap_ms: u64) -> Seq<char> {
    "+"@ + nat_digits((gap_ms / 1000) as nat) + "."@ + zero_pad(nat_digits((gap_ms % 1000) as nat), 3)
        + "s"@
}

/// Gap to pole with three decimals of a second ("+0.512s").
pub fn format_gap_to_pole(gap_ms: Option<u64>) -> (r: Option<String>)
    ensures
        match gap_ms {
            Some(g) => r matches Some(t) && t@ == gap_text(g),
            None => r is None,
        },
{
    match gap_ms {
        Some(g) => {
            let mut text = new_text("+");
            append_text(&mut text, u64_text(g / 1000).as_str());
            append_text(&mut text, ".");
            push_padded(&mut text, g % 1000, 3);
            append_text(&mut text, "s");
            Some(text)
        },
        None => None,
    }
}

} // verus!
