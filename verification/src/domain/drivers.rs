use vstd::prelude::*;

use crate::records::Driver;
use vstd::string::StringSliceAdditionalSpecFns;

verus! {

/// A pinned driver and its place in the pin bar.
#[derive(Debug, Clone, Copy, PartialEq, Eq, Structural)]
pub struct PinnedDriver {
    pub driver_number: i64,
    pub sort_order: i32,
}

/// A pinned driver resolved against the roster.
#[derive(Debug, Clone)]
pub struct PinnedDriverView {
    pub driver: Driver,
}

#[derive(Debug, Clone, Copy, PartialEq, Eq, Structural)]
pub enum PinDirection {
    Left,
    Right,
}

/// An RGB colour with 8-bit channels.
#[derive(Debug, Clone, Copy, PartialEq, Eq, Structural)]
pub struct Rgb8 {
    pub r: u8,
    pub g: u8,
    pub b: u8,
}

pub open spec fn display_name_text(d: Driver) -> Seq<char> {
    if d.name_acronym@.len() == 0 {
        d.full_name@
    } else {
        d.name_acronym@
    }
}

/// The short label of a driver: the acronym, or the full name when there is none.
pub fn driver_display_name(driver: &Driver) -> (r: &str)
    ensures
        r@ == display_name_text(*driver),
{
    if driver.name_acronym.unicode_len() == 0 {
        driver.full_name.as_str()
    } else {
        driver.name_acronym.as_str()
    }
}

pub open spec fn hex_digit_value(b: u8) -> Option<u8> {
    if 48 <= b && b <= 57 {
        Some((b - 48) as u8)
    } else if 97 <= b && b <= 102 {
        Some((b - 87) as u8)
    } else if 65 <= b && b <= 70 {
        Some((b - 55) as u8)
    } else {
        None
    }
}

/// `u8::from_str_radix` on two bytes in base 16, or 128 when that fails.
pub open spec fn channel_value(b0: u8, b1: u8) -> u8 {
    match (hex_digit_value(b0), hex_digit_value(b1)) {
        (Some(h), Some(l)) => (16 * h + l) as u8,
        (None, Some(l)) => if b0 == 43 {
            l
        } else {
            128
        },
        _ => 128,
    }
}

/// Bytes of a text without its leading `#` characters.
pub open spec fn strip_hashes(b: Seq<u8>) -> Seq<u8>
    decreases b.len(),
{
    if b.len() > 0 && b[0] == 35 {
        strip_hashes(b.drop_first())
    } else {
        b
    }
}

pub open spec fn colour_from_hex(bytes: Seq<u8>) -> Option<Rgb8> {
    let h = strip_hashes(bytes);
    if h.len() != 6 {
        None
    } else {
        Some(
            Rgb8 {
                r: channel_value(h[0], h[1]),
                g: channel_value(h[2], h[3]),
                b: channel_value(h[4], h[5]),
            },
        )
    }
}

pub(crate) fn hex_digit(b: u8) -> (r: Option<u8>)
    ensures
        r == hex_digit_value(b),
{
    if 48 <= b && b <= 57 {
        Some(b - 48)
    } else if 97 <= b && b <= 102 {
        Some(b - 87)
    } else if 65 <= b && b <= 70 {
        Some(b - 55)
    } else {
        None
    }
}

fn channel(b0: u8, b1: u8) -> (r: u8)
    ensures
        r == channel_value(b0, b1),
{
    match (hex_digit(b0), hex_digit(b1)) {
        (Some(h), Some(l)) => 16 * h + l,
        (None, Some(l)) => if b0 == 43 {
            l
        } else {
            128
        },
        _ => 128,
    }
}

/// The colour text can be cut into its three channels: when it has six bytes (after the `#`s),
/// bytes 2 and 4 start characters. Slicing elsewhere would panic.
pub open spec fn colour_text_ok(text: Seq<char>) -> bool {
    let h = strip_hashes(vstd::utf8::encode_utf8(text));
    h.len() == 6 ==> (vstd::utf8::is_char_boundary(h, 2) && vstd::utf8::is_char_boundary(h, 4))
}

/// The colour a colour text stands for (see `team_colour`).
pub open spec fn colour_of(text: Seq<char>) -> Option<Rgb8> {
    colour_from_hex(vstd::utf8::encode_utf8(text))
}

/// Every driver's team colour text can be read.
pub open spec fn roster_colours_ok(roster: Seq<Driver>) -> bool {
    forall|i: int| 0 <= i < roster.len() ==> colour_text_ok(#[trigger] roster[i].team_colour@)
}

/// Team colour from a `RRGGBB` text (leading `#` ignored); channels that do not parse as hex
/// read as 128. `None` when the text is not six bytes long: the theme's muted colour is used.
pub fn team_colour(hex: &str) -> (r: Option<Rgb8>)
    requires
        colour_text_ok(hex@),
    ensures
        r == colour_of(hex@),
{
    let bytes = hex.as_bytes();
    let mut start: usize = 0;
    assert(bytes@.subrange(0, bytes@.len() as int) =~= bytes@);
    while start < bytes.len() && bytes[start] == 35
        invariant
            start <= bytes@.len(),
            strip_hashes(bytes@) == strip_hashes(bytes@.subrange(start as int, bytes@.len() as int)),
        decreases bytes.len() - start,
    {
        assert(bytes@.subrange(start as int, bytes@.len() as int)[0] == bytes@[start as int]);
        assert(bytes@.subrange(start as int, bytes@.len() as int).drop_first() =~= bytes@.subrange(
            start + 1,
            bytes@.len() as int,
        ));
        start = start + 1;
    }
    let ghost rest = bytes@.subrange(start as int, bytes@.len() as int);
    assert(strip_hashes(rest) == rest);
    if bytes.len() - start != 6 {
        return None;
    }
    Some(
        Rgb8 {
            r: channel(bytes[start], bytes[start + 1]),
            g: channel(bytes[start + 2], bytes[start + 3]),
            b: channel(bytes[start + 4], bytes[start + 5]),
        },
    )
}

// ---------------------------------------------------------------------------------------------
// Pins
pub open spec fn pin_numbers(pins: Seq<PinnedDriver>) -> Seq<i64> {
    pins.map_values(|p: PinnedDriver| p.driver_number)
}

/// Every pin's `sort_order` is its index in the list.
pub open spec fn pins_indexed(pins: Seq<PinnedDriver>) -> bool {
    forall|i: int| 0 <= i < pins.len() ==> #[trigger] pins[i].sort_order == i as i32
}

/// No driver is pinned twice.
pub open spec fn numbers_distinct(numbers: Seq<i64>) -> bool {
    forall|i: int, j: int| 0 <= i < j < numbers.len() ==> numbers[i] != numbers[j]
}

/// Keeps every number but `driver_number`.
pub open spec fn without_number(driver_number: i64) -> spec_fn(i64) -> bool {
    |n: i64| n != driver_number
}

pub open spec fn is_pinned(pins: Seq<PinnedDriver>, driver_number: i64) -> bool {
    exists|i: int| 0 <= i < pins.len() && #[trigger] pins[i].driver_number == driver_number
}

/// The position of `driver_number` in `numbers`, where it occurs first.
pub open spec fn first_position(numbers: Seq<i64>, driver_number: i64, i: int) -> bool {
    0 <= i < numbers.len() && numbers[i] == driver_number && forall|j: int|
        0 <= j < i ==> numbers[j] != driver_number
}

/// Where a pin at `index` moves to, if it can move in `direction` at all.
pub open spec fn move_target(len: int, index: int, direction: PinDirection) -> Option<int> {
    match direction {
        PinDirection::Left => if index > 0 {
            Some(index - 1)
        } else {
            None
        },
        PinDirection::Right => if index + 1 < len {
            Some(index + 1)
        } else {
            None
        },
    }
}

pub open spec fn swapped(numbers: Seq<i64>, i: int, j: int) -> Seq<i64> {
    numbers.update(i, numbers[j]).update(j, numbers[i])
}

/// The pin order after moving `driver_number` one step in `direction`, if it moves.
pub open spec fn moved_numbers(numbers: Seq<i64>, driver_number: i64, direction: PinDirection) -> Option<
    Seq<i64>,
> {
    if exists|i: int| first_position(numbers, driver_number, i) {
        let i = choose|i: int| first_position(numbers, driver_number, i);
        match move_target(numbers.len() as int, i, direction) {
            Some(t) => Some(swapped(numbers, i, t)),
            None => None,
        }
    } else {
        None
    }
}

/// The pinned drivers, in pin order, that the roster knows (the first roster entry with the
/// pin's number).
pub open spec fn roster_match(roster: Seq<Driver>, driver_number: i64, i: int) -> bool {
    0 <= i < roster.len() && roster[i].driver_number == driver_number && forall|j: int|
        0 <= j < i ==> roster[j].driver_number != driver_number
}

pub open spec fn roster_lookup(roster: Seq<Driver>, driver_number: i64) -> Option<Driver> {
    if exists|i: int| roster_match(roster, driver_number, i) {
        Some(roster[choose|i: int| roster_match(roster, driver_number, i)])
    } else {
        None
    }
}

pub open spec fn pinned_views_spec(pins: Seq<PinnedDriver>, roster: Seq<Driver>) -> Seq<Driver>
    decreases pins.len(),
{
    if pins.len() == 0 {
        seq![]
    } else {
        let rest = pinned_views_spec(pins.drop_last(), roster);
        match roster_lookup(roster, pins.last().driver_number) {
            Some(d) => rest.push(d),
            None => rest,
        }
    }
}

/// Index of the first roster entry with `driver_number`.
pub fn find_driver_index(roster: &Vec<Driver>, driver_number: i64) -> (r: Option<usize>)
    ensures
        match r {
            Some(i) => roster_match(roster@, driver_number, i as int),
            None => forall|j: int|
                0 <= j < roster@.len() ==> #[trigger] roster@[j].driver_number != driver_number,
        },
        r is None <==> roster_lookup(roster@, driver_number) is None,
        r matches Some(i) ==> roster_lookup(roster@, driver_number) == Some(roster@[i as int]),
{
    let mut i: usize = 0;
    while i < roster.len()
        invariant
            i <= roster@.len(),
            forall|j: int| 0 <= j < i ==> #[trigger] roster@[j].driver_number != driver_number,
        decreases roster.len() - i,
    {
        if roster[i].driver_number == driver_number {
            assert(roster_match(roster@, driver_number, i as int));
            assert forall|k: int| roster_match(roster@, driver_number, k) implies k == i by {
                if k < i {
                } else if k > i {
                    assert(roster@[i as int].driver_number == driver_number);
                }
            }
            return Some(i);
        }
        i = i + 1;
    }
    None
}

pub fn pinned_driver_views(pins: &Vec<PinnedDriver>, roster: &Vec<Driver>) -> (r: Vec<
    PinnedDriverView,
>)
    ensures
        r@.map_values(|v: PinnedDriverView| v.driver) == pinned_views_spec(pins@, roster@),
{
    let mut r: Vec<PinnedDriverView> = Vec::new();
    let mut i: usize = 0;
    while i < pins.len()
        invariant
            i <= pins@.len(),
            r@.map_values(|v: PinnedDriverView| v.driver) == pinned_views_spec(
                pins@.subrange(0, i as int),
                roster@,
            ),
        decreases pins.len() - i,
    {
        let ghost before = r@;
        assert(pins@.subrange(0, (i + 1) as int).drop_last() =~= pins@.subrange(0, i as int));
        if let Some(k) = find_driver_index(roster, pins[i].driver_number) {
            r.push(PinnedDriverView { driver: roster[k].duplicate() });
            assert(r@.map_values(|v: PinnedDriverView| v.driver) =~= before.map_values(
                |v: PinnedDriverView| v.driver,
            ).push(roster@[k as int]));
        }
        i = i + 1;
    }
    assert(pins@.subrange(0, pins@.len() as int) =~= pins@);
    r
}

/// A driver can be pinned when no pin has its number yet.
pub fn can_pin(pins: &Vec<PinnedDriver>, driver_number: i64) -> (r: bool)
    ensures
        r == !is_pinned(pins@, driver_number),
{
    let mut i: usize = 0;
    while i < pins.len()
        invariant
            i <= pins@.len(),
            forall|j: int| 0 <= j < i ==> #[trigger] pins@[j].driver_number != driver_number,
        decreases pins.len() - i,
    {
        if pins[i].driver_number == driver_number {
            return false;
        }
        i = i + 1;
    }
    true
}

/// Sets every pin's `sort_order` to its index.
pub fn reindex_pins(pins: &mut Vec<PinnedDriver>)
    ensures
        final(pins)@.len() == old(pins)@.len(),
        pin_numbers(final(pins)@) == pin_numbers(old(pins)@),
        pins_indexed(final(pins)@),
{
    let mut i: usize = 0;
    while i < pins.len()
        invariant
            i <= pins@.len(),
            pins@.len() == old(pins)@.len(),
            forall|j: int|
                0 <= j < pins@.len() ==> #[trigger] pins@[j].driver_number == old(
                    pins,
                )@[j].driver_number,
            forall|j: int| 0 <= j < i ==> #[trigger] pins@[j].sort_order == j as i32,
        decreases pins.len() - i,
    {
        let number = pins[i].driver_number;
        pins.set(i, PinnedDriver { driver_number: number, sort_order: i as i32 });
        i = i + 1;
    }
    assert(pin_numbers(pins@) =~= pin_numbers(old(pins)@));
}

/// Pins a driver at the end of the list; refused (`false`, list unchanged) when the driver is
/// already pinned.
pub fn pin_driver(pins: &mut Vec<PinnedDriver>, driver_number: i64) -> (r: bool)
    ensures
        r == !is_pinned(old(pins)@, driver_number),
        r ==> pin_numbers(final(pins)@) == pin_numbers(old(pins)@).push(driver_number),
        r ==> pins_indexed(final(pins)@),
        !r ==> final(pins)@ == old(pins)@,
{
    if !can_pin(pins, driver_number) {
        return false;
    }
    let order = pins.len() as i32;
    pins.push(PinnedDriver { driver_number, sort_order: order });
    let ghost pushed = pins@;
    assert(pin_numbers(pushed) =~= pin_numbers(old(pins)@).push(driver_number));
    reindex_pins(pins);
    true
}

/// Removes every pin of `driver_number`; `false` (list unchanged) when there was none.
pub fn unpin_driver(pins: &mut Vec<PinnedDriver>, driver_number: i64) -> (r: bool)
    ensures
        r == is_pinned(old(pins)@, driver_number),
        r ==> pin_numbers(final(pins)@) == pin_numbers(old(pins)@).filter(without_number(driver_number)),
        r ==> pins_indexed(final(pins)@),
        !r ==> final(pins)@ == old(pins)@,
{
    let mut kept: Vec<PinnedDriver> = Vec::new();
    let mut i: usize = 0;
    let ghost numbers = pin_numbers(pins@);
    while i < pins.len()
        invariant
            i <= pins@.len(),
            numbers == pin_numbers(pins@),
            pin_numbers(kept@) == numbers.subrange(0, i as int).filter(without_number(driver_number)),
            kept@.len() == i ==> kept@ == pins@.subrange(0, i as int),
            kept@.len() <= i,
            kept@.len() == i <==> forall|j: int|
                0 <= j < i ==> #[trigger] pins@[j].driver_number != driver_number,
        decreases pins.len() - i,
    {
        let p = pins[i];
        proof {
            reveal(Seq::filter);
            assert(numbers.subrange(0, (i + 1) as int).drop_last() =~= numbers.subrange(0, i as int));
            assert(numbers.subrange(0, (i + 1) as int).last() == p.driver_number);
        }
        if p.driver_number != driver_number {
            kept.push(p);
            assert(pin_numbers(kept@) =~= pin_numbers(kept@.drop_last()).push(p.driver_number));
            assert(kept@.drop_last() =~= kept@.subrange(0, kept@.len() - 1));
        }
        proof {
            if kept@.len() == i + 1 {
                assert(kept@ =~= pins@.subrange(0, (i + 1) as int));
            }
        }
        i = i + 1;
    }
    assert(numbers.subrange(0, pins@.len() as int) =~= numbers);
    if kept.len() == pins.len() {
        assert(kept@ =~= pins@);
        return false;
    }
    *pins = kept;
    reindex_pins(pins);
    true
}

/// Clears all pins; `false` when there were none.
pub fn unpin_all(pins: &mut Vec<PinnedDriver>) -> (r: bool)
    ensures
        r == (old(pins)@.len() > 0),
        final(pins)@.len() == 0,
{
    if pins.len() == 0 {
        return false;
    }
    pins.clear();
    true
}

fn find_pin(pins: &Vec<PinnedDriver>, driver_number: i64) -> (r: Option<usize>)
    ensures
        match r {
            Some(i) => first_position(pin_numbers(pins@), driver_number, i as int),
            None => forall|i: int| !first_position(pin_numbers(pins@), driver_number, i),
        },
{
    let ghost numbers = pin_numbers(pins@);
    let mut i: usize = 0;
    while i < pins.len()
        invariant
            i <= pins@.len(),
            numbers == pin_numbers(pins@),
            forall|j: int| 0 <= j < i ==> numbers[j] != driver_number,
        decreases pins.len() - i,
    {
        if pins[i].driver_number == driver_number {
            return Some(i);
        }
        i = i + 1;
    }
    None
}

/// Moves a pin one place to the left or right, swapping it with its neighbour; `false` (list
/// unchanged) when the driver is not pinned or is already at that end.
pub fn move_pin(pins: &mut Vec<PinnedDriver>, driver_number: i64, direction: PinDirection) -> (r:
    bool)
    ensures
        r == moved_numbers(pin_numbers(old(pins)@), driver_number, direction) is Some,
        r ==> Some(pin_numbers(final(pins)@)) == moved_numbers(
            pin_numbers(old(pins)@),
            driver_number,
            direction,
        ),
        r ==> pins_indexed(final(pins)@),
        !r ==> final(pins)@ == old(pins)@,
{
    let ghost numbers = pin_numbers(pins@);
    let index = match find_pin(pins, driver_number) {
        Some(i) => i,
        None => {
            return false;
        },
    };
    proof {
        assert forall|k: int| first_position(numbers, driver_number, k) implies k == index by {
            if k < index {
            } else if k > index {
                assert(numbers[index as int] == driver_number);
            }
        }
    }
    assert(index < pins.len());
    let target = match direction {
        PinDirection::Left => if index > 0 {
            index - 1
        } else {
            return false;
        },
        PinDirection::Right => if index + 1 < pins.len() {
            index + 1
        } else {
            return false;
        },
    };
    let a = pins[index];
    let b = pins[target];
    pins.set(index, b);
    pins.set(target, a);
    assert(pin_numbers(pins@) =~= swapped(numbers, index as int, target as int));
    reindex_pins(pins);
    true
}

// ---------------------------------------------------------------------------------------------
// Laws of the pin list

proof fn lemma_filter_keeps_all(numbers: Seq<i64>, driver_number: i64)
    requires
        !numbers.contains(driver_number),
    ensures
        numbers.filter(without_number(driver_number)) == numbers,
    decreases numbers.len(),
{
    reveal(Seq::filter);
    if numbers.len() > 0 {
        let rest = numbers.drop_last();
        assert(!rest.contains(driver_number)) by {
            if rest.contains(driver_number) {
                let k = choose|k: int| 0 <= k < rest.len() && rest[k] == driver_number;
                assert(numbers[k] == driver_number);
            }
        }
        lemma_filter_keeps_all(rest, driver_number);
        assert(numbers[numbers.len() - 1] == numbers.last());
        assert(numbers.filter(without_number(driver_number)) =~= rest.push(numbers.last()));
        assert(rest.push(numbers.last()) =~= numbers);
    }
}

/// Pinning a driver that was not pinned and then unpinning it gives back the pin order.
pub proof fn law_pin_then_unpin(numbers: Seq<i64>, driver_number: i64)
    requires
        !numbers.contains(driver_number),
    ensures
        numbers.push(driver_number).filter(without_number(driver_number)) == numbers,
{
    reveal(Seq::filter);
    assert(numbers.push(driver_number).drop_last() =~= numbers);
    lemma_filter_keeps_all(numbers, driver_number);
}

/// Pinning keeps the pins free of duplicates: a driver already pinned is refused.
pub proof fn law_pin_keeps_distinct(numbers: Seq<i64>, driver_number: i64)
    requires
        numbers_distinct(numbers),
        !numbers.contains(driver_number),
    ensures
        numbers_distinct(numbers.push(driver_number)),
{
    let pushed = numbers.push(driver_number);
    assert forall|i: int, j: int| 0 <= i < j < pushed.len() implies pushed[i] != pushed[j] by {
        if j == numbers.len() {
            assert(pushed[i] == numbers[i]);
        }
    }
}

/// A move that happened can be undone by the move in the other direction.
pub proof fn law_move_round_trip(numbers: Seq<i64>, driver_number: i64)
    requires
        numbers_distinct(numbers),
        moved_numbers(numbers, driver_number, PinDirection::Left) is Some,
    ensures
        moved_numbers(
            moved_numbers(numbers, driver_number, PinDirection::Left)->0,
            driver_number,
            PinDirection::Right,
        ) == Some(numbers),
{
    let i = choose|i: int| first_position(numbers, driver_number, i);
    let moved = swapped(numbers, i, i - 1);
    assert(first_position(moved, driver_number, i - 1)) by {
        assert forall|j: int| 0 <= j < i - 1 implies moved[j] != driver_number by {
            assert(moved[j] == numbers[j]);
        }
    }
    assert forall|k: int| first_position(moved, driver_number, k) implies k == i - 1 by {}
    assert(swapped(moved, i - 1, i) =~= numbers);
}

} // verus!
