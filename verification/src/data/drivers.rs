use vstd::prelude::*;

use crate::domain::countdown::{arrange, single_key_vec, single_keys};
use crate::order::{keys_view, stable_order, stable_sort_indices};
use crate::records::Driver;
use std::collections::HashSet;

verus! {

/// The first entry of each driver number, in the order of those first entries.
pub open spec fn first_per_number(drivers: Seq<Driver>) -> Seq<Driver>
    decreases drivers.len(),
{
    if drivers.len() == 0 {
        seq![]
    } else {
        let rest = first_per_number(drivers.drop_last());
        if exists|k: int| 0 <= k < rest.len() && rest[k].driver_number == drivers.last().driver_number {
            rest
        } else {
            rest.push(drivers.last())
        }
    }
}

pub open spec fn number_keys(drivers: Seq<Driver>) -> Seq<Seq<i64>> {
    single_keys(drivers.map_values(|d: Driver| d.driver_number))
}

/// The roster with one entry per driver number (the first one listed), ordered by number.
pub open spec fn deduped_roster(drivers: Seq<Driver>) -> Seq<Driver> {
    let firsts = first_per_number(drivers);
    arrange(firsts, stable_order(number_keys(firsts), false, firsts.len()))
}

pub fn dedupe_drivers(drivers: Vec<Driver>) -> (r: Vec<Driver>)
    ensures
        r@ == deduped_roster(drivers@),
{
    broadcast use vstd::std_specs::hash::group_hash_axioms;

    let mut firsts: Vec<Driver> = Vec::new();
    let mut seen: HashSet<i64> = HashSet::new();
    let mut i: usize = 0;
    while i < drivers.len()
        invariant
            i <= drivers@.len(),
            firsts@ == first_per_number(drivers@.subrange(0, i as int)),
            forall|x: i64|
                #[trigger] seen@.contains(x) <==> exists|k: int|
                    0 <= k < firsts@.len() && firsts@[k].driver_number == x,
        decreases drivers.len() - i,
    {
        assert(drivers@.subrange(0, (i + 1) as int).drop_last() =~= drivers@.subrange(0, i as int));
        assert(drivers@.subrange(0, (i + 1) as int).last() == drivers@[i as int]);
        let number = drivers[i].driver_number;
        let ghost seen_before = seen@;
        let ghost before = firsts@;
        let fresh = seen.insert(number);
        if fresh {
            firsts.push(drivers[i].duplicate());
            assert forall|x: i64| #[trigger] seen@.contains(x) <==> exists|k: int|
                0 <= k < firsts@.len() && firsts@[k].driver_number == x by {
                if x == number {
                    assert(firsts@[before.len() as int].driver_number == x);
                } else {
                    assert(seen@.contains(x) == seen_before.contains(x));
                    if seen_before.contains(x) {
                        let k = choose|k: int| 0 <= k < before.len() && before[k].driver_number == x;
                        assert(firsts@[k] == before[k]);
                    }
                    if exists|k: int| 0 <= k < firsts@.len() && firsts@[k].driver_number == x {
                        let k = choose|k: int| 0 <= k < firsts@.len() && firsts@[k].driver_number == x;
                        assert(k < before.len());
                        assert(before[k] == firsts@[k]);
                    }
                }
            }
        } else {
            assert(seen@ =~= seen_before);
        }
        i = i + 1;
    }
    assert(drivers@.subrange(0, drivers@.len() as int) =~= drivers@);
    let mut numbers: Vec<i64> = Vec::new();
    let mut k: usize = 0;
    while k < firsts.len()
        invariant
            k <= firsts@.len(),
            numbers@ == firsts@.subrange(0, k as int).map_values(|d: Driver| d.driver_number),
        decreases firsts.len() - k,
    {
        numbers.push(firsts[k].driver_number);
        assert(numbers@ =~= firsts@.subrange(0, (k + 1) as int).map_values(
            |d: Driver| d.driver_number,
        ));
        k = k + 1;
    }
    assert(firsts@.subrange(0, firsts@.len() as int) =~= firsts@);
    let keys = single_key_vec(&numbers);
    let order = stable_sort_indices(&keys, false);
    assert(numbers@.len() == firsts@.len());
    assert(keys_view(keys@).len() == keys@.len());
    assert(single_keys(numbers@).len() == numbers@.len());
    let mut r: Vec<Driver> = Vec::new();
    let mut m: usize = 0;
    while m < order.len()
        invariant
            m <= order@.len(),
            order@.len() == firsts@.len(),
            forall|x: int| 0 <= x < order@.len() ==> (order@[x] as int) < firsts@.len(),
            r@ == arrange(firsts@, order@).subrange(0, m as int),
        decreases order.len() - m,
    {
        r.push(firsts[order[m]].duplicate());
        assert(r@ =~= arrange(firsts@, order@).subrange(0, (m + 1) as int));
        m = m + 1;
    }
    assert(arrange(firsts@, order@).subrange(0, order@.len() as int) =~= arrange(firsts@, order@));
    r
}

} // verus!

verus! {

pub open spec fn numbers_of(drivers: Seq<Driver>) -> Seq<i64> {
    drivers.map_values(|d: Driver| d.driver_number)
}

/// The first entries per number hold distinct numbers, each taken from the input, and every
/// number of the input among them.
proof fn lemma_first_per_number(drivers: Seq<Driver>)
    ensures
        first_per_number(drivers).len() <= drivers.len(),
        forall|a: int, b: int|
            0 <= a < b < first_per_number(drivers).len() ==> first_per_number(drivers)[a].driver_number
                != first_per_number(drivers)[b].driver_number,
        forall|k: int|
            0 <= k < first_per_number(drivers).len() ==> drivers.contains(
                #[trigger] first_per_number(drivers)[k],
            ),
        forall|i: int|
            #![trigger drivers[i]]
            0 <= i < drivers.len() ==> exists|k: int|
                0 <= k < first_per_number(drivers).len() && #[trigger] first_per_number(drivers)[k].driver_number
                    == drivers[i].driver_number,
    decreases drivers.len(),
{
    if drivers.len() > 0 {
        let init = drivers.drop_last();
        lemma_first_per_number(init);
        let rest = first_per_number(init);
        let f = first_per_number(drivers);
        assert forall|k: int| 0 <= k < f.len() implies drivers.contains(#[trigger] f[k]) by {
            if k < rest.len() {
                assert(f[k] == rest[k]);
                let j = choose|j: int| 0 <= j < init.len() && init[j] == rest[k];
                assert(drivers[j] == init[j]);
            } else {
                assert(f[k] == drivers[drivers.len() - 1]);
            }
        }
        assert forall|i: int| #![trigger drivers[i]] 0 <= i < drivers.len() implies exists|k: int|
            0 <= k < f.len() && #[trigger] f[k].driver_number == drivers[i].driver_number by {
            if i < init.len() {
                assert(drivers[i] == init[i]);
                let k = choose|k: int| 0 <= k < rest.len() && #[trigger] rest[k].driver_number == init[i].driver_number;
                assert(f[k] == rest[k]);
            } else if exists|k: int| 0 <= k < rest.len() && rest[k].driver_number == drivers.last().driver_number {
                let k = choose|k: int| 0 <= k < rest.len() && rest[k].driver_number == drivers.last().driver_number;
                assert(f[k] == rest[k]);
            } else {
                assert(f[rest.len() as int] == drivers.last());
            }
        }
    }
}

/// The deduplicated roster lists each driver number of the input exactly once, in increasing
/// order, and every entry of it is an entry of the input.
pub proof fn law_dedupe_one_entry_per_number(drivers: Seq<Driver>)
    requires
        drivers.len() <= usize::MAX,
    ensures
        forall|a: int, b: int|
            0 <= a < b < deduped_roster(drivers).len() ==> deduped_roster(drivers)[a].driver_number
                < deduped_roster(drivers)[b].driver_number,
        forall|i: int|
            #![trigger drivers[i]]
            0 <= i < drivers.len() ==> exists|k: int|
                0 <= k < deduped_roster(drivers).len() && #[trigger] deduped_roster(drivers)[k].driver_number
                    == drivers[i].driver_number,
        forall|k: int|
            0 <= k < deduped_roster(drivers).len() ==> drivers.contains(#[trigger] deduped_roster(drivers)[k]),
{
    let f = first_per_number(drivers);
    let nums = numbers_of(f);
    let o = stable_order(single_keys(nums), false, nums.len());
    let r = deduped_roster(drivers);
    assert(number_keys(f) == single_keys(nums));
    assert(r == arrange(f, o));
    assert forall|a: int, b: int| 0 <= a < b < r.len() implies r[a].driver_number
        < r[b].driver_number by {
        lemma_first_per_number(drivers);
        crate::domain::countdown::lemma_single_keys_sorted(nums, false);
        crate::order::lemma_stable_order_permutes(single_keys(nums), false, nums.len());
        assert(nums[o[a] as int] <= nums[o[b] as int]);
        assert(o[a] != o[b]);
    }
    assert forall|i: int| #![trigger drivers[i]] 0 <= i < drivers.len() implies exists|k: int|
        0 <= k < r.len() && #[trigger] r[k].driver_number == drivers[i].driver_number by {
        lemma_first_per_number(drivers);
        crate::order::lemma_stable_order_permutes(single_keys(nums), false, nums.len());
        let j = choose|j: int| 0 <= j < f.len() && #[trigger] f[j].driver_number == drivers[i].driver_number;
        assert(o.contains(j as usize));
        let k = choose|k: int| 0 <= k < o.len() && o[k] == j as usize;
        assert(r[k] == f[j]);
    }
    assert forall|k: int| 0 <= k < r.len() implies drivers.contains(#[trigger] r[k]) by {
        lemma_first_per_number(drivers);
        crate::order::lemma_stable_order_permutes(single_keys(nums), false, nums.len());
        assert(r[k] == f[o[k] as int]);
    }
}

} // verus!
