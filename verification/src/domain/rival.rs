use vstd::prelude::*;

use crate::domain::championship::ChampionshipRoundSnapshot;
use crate::domain::standings::{grid_position_for_driver, slot_position};

verus! {

/// The driver's grid positions, round by round, for the rounds whose grid lists the driver.
pub open spec fn grid_positions(rounds: Seq<ChampionshipRoundSnapshot>, driver_number: i64) -> Seq<i64>
    decreases rounds.len(),
{
    if rounds.len() == 0 {
        seq![]
    } else {
        let rest = grid_positions(rounds.drop_last(), driver_number);
        match slot_position(rounds.last().starting_grid@, driver_number) {
            Some(p) => rest.push(p),
            None => rest,
        }
    }
}

/// The grid positions that the average qualifying position is taken over.
pub fn quali_grid_positions(rounds: &Vec<ChampionshipRoundSnapshot>, driver_number: i64) -> (r: Vec<
    i64,
>)
    ensures
        r@ == grid_positions(rounds@, driver_number),
{
    let mut r: Vec<i64> = Vec::new();
    let mut k: usize = 0;
    while k < rounds.len()
        invariant
            k <= rounds@.len(),
            r@ == grid_positions(rounds@.subrange(0, k as int), driver_number),
        decreases rounds.len() - k,
    {
        assert(rounds@.subrange(0, (k + 1) as int).drop_last() =~= rounds@.subrange(0, k as int));
        assert(rounds@.subrange(0, (k + 1) as int).last() == rounds@[k as int]);
        if let Some(p) = grid_position_for_driver(&rounds[k], driver_number) {
            r.push(p);
        }
        k = k + 1;
    }
    assert(rounds@.subrange(0, rounds@.len() as int) =~= rounds@);
    r
}

} // verus!
