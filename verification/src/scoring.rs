//! The score of one round of clears: chain power, colour bonus and group
//! bonus add up to a multiplier, kept within 1 and 999.

use crate::board::{Board, BoardView};
use crate::rules::clip_i32;
use vstd::prelude::*;

verus! {

/// Last position of the chain power table.
pub const MAX_CHAIN_INDEX: u32 = 19;

/// Last position of the colour bonus table.
pub const MAX_COLOR_INDEX: usize = 5;

/// Smallest group that clears.
pub const MIN_GROUP_SIZE: usize = 4;

/// Last position of the group bonus table.
pub const MAX_GROUP_INDEX: usize = 7;

/// Smallest multiplier.
pub const MIN_MULTIPLIER: u32 = 1;

/// Largest multiplier.
pub const MAX_MULTIPLIER: u32 = 999;

/// The chain power table: 0, 0, 8, 16, 32, then 32 more with each link up to
/// 512 at the last position.
pub open spec fn chain_power_at(i: int) -> nat {
    if i <= 1 {
        0
    } else if i == 2 {
        8
    } else if i == 3 {
        16
    } else if i == 4 {
        32
    } else if i == 5 {
        64
    } else if i == 6 {
        96
    } else if i == 7 {
        128
    } else if i == 8 {
        160
    } else if i == 9 {
        192
    } else if i == 10 {
        224
    } else if i == 11 {
        256
    } else if i == 12 {
        288
    } else if i == 13 {
        320
    } else if i == 14 {
        352
    } else if i == 15 {
        384
    } else if i == 16 {
        416
    } else if i == 17 {
        448
    } else if i == 18 {
        480
    } else {
        512
    }
}

/// The colour bonus table: 0, 0, 3, 6, 12, 24.
pub open spec fn color_bonus_at(i: int) -> nat {
    if i <= 1 {
        0
    } else if i == 2 {
        3
    } else if i == 3 {
        6
    } else if i == 4 {
        12
    } else {
        24
    }
}

/// The group bonus table: 0, 2, 3, 4, 5, 6, 7, 10.
pub open spec fn group_bonus_at(i: int) -> nat {
    if i <= 0 {
        0
    } else if i == 1 {
        2
    } else if i == 2 {
        3
    } else if i == 3 {
        4
    } else if i == 4 {
        5
    } else if i == 5 {
        6
    } else if i == 6 {
        7
    } else {
        10
    }
}

/// Chain power of the link with the given number: the table at that number,
/// at its last position for every number beyond.
pub open spec fn chain_power(chain_count: nat) -> nat {
    chain_power_at(if chain_count < MAX_CHAIN_INDEX { chain_count as int } else { MAX_CHAIN_INDEX as int })
}

/// Bonus for the number of distinct colours cleared in one round.
pub open spec fn color_bonus(unique_colors: nat) -> nat {
    color_bonus_at(if unique_colors < MAX_COLOR_INDEX { unique_colors as int } else { MAX_COLOR_INDEX as int })
}

/// Bonus of one cleared group, by the number of its cells beyond four.
pub open spec fn group_bonus(size: nat) -> nat {
    group_bonus_at(
        if size < MIN_GROUP_SIZE {
            0
        } else if size - MIN_GROUP_SIZE < MAX_GROUP_INDEX {
            size - MIN_GROUP_SIZE
        } else {
            MAX_GROUP_INDEX as int
        },
    )
}

/// Sum of the group bonuses of groups of the given sizes.
pub open spec fn group_bonus_sum(sizes: Seq<usize>) -> nat
    decreases sizes.len(),
{
    if sizes.len() == 0 {
        0
    } else {
        group_bonus_sum(sizes.drop_last()) + group_bonus(sizes.last() as nat)
    }
}

/// The multiplier of a round: chain power, colour bonus and the groups'
/// bonuses added up, raised to 1 where the sum is 0 and cut at 999.
pub open spec fn multiplier(chain_count: nat, unique_colors: nat, group_bonuses: nat) -> nat {
    let sum = chain_power(chain_count) + color_bonus(unique_colors) + group_bonuses;
    if sum < MIN_MULTIPLIER {
        MIN_MULTIPLIER as nat
    } else if sum > MAX_MULTIPLIER {
        MAX_MULTIPLIER as nat
    } else {
        sum
    }
}

/// Score of a round that clears `total_cleared` cells at the given multiplier.
pub open spec fn round_score(total_cleared: nat, multiplier: nat) -> nat {
    10 * total_cleared * multiplier
}

impl BoardView {
    /// The board after a round with the given tally has been scored at the
    /// board's chain count. The score stops at the largest `i32`.
    pub open spec fn scored(self, unique_colors: nat, total_cleared: nat, group_bonuses: nat) -> BoardView {
        BoardView {
            score: clip_i32(
                self.score + round_score(
                    total_cleared,
                    multiplier(self.chain_count as nat, unique_colors, group_bonuses),
                ),
            ),
            ..self
        }
    }
}

/// Chain power of a chain count, as `chain_power` defines it.
pub fn chain_power_of(chain_count: u32) -> (power: u32)
    ensures
        power == chain_power(chain_count as nat),
        power <= 512,
{
    let table: [u32; 20] = [
        0,
        0,
        8,
        16,
        32,
        64,
        96,
        128,
        160,
        192,
        224,
        256,
        288,
        320,
        352,
        384,
        416,
        448,
        480,
        512,
    ];
    let index: usize = if chain_count < MAX_CHAIN_INDEX {
        chain_count as usize
    } else {
        MAX_CHAIN_INDEX as usize
    };
    table[index]
}

/// Colour bonus of a number of colours, as `color_bonus` defines it.
pub fn color_bonus_of(unique_colors: usize) -> (bonus: u32)
    ensures
        bonus == color_bonus(unique_colors as nat),
        bonus <= 24,
{
    let table: [u32; 6] = [0, 0, 3, 6, 12, 24];
    let index: usize = if unique_colors < MAX_COLOR_INDEX {
        unique_colors
    } else {
        MAX_COLOR_INDEX
    };
    table[index]
}

/// Group bonus of a group size, as `group_bonus` defines it.
pub fn group_bonus_of(size: usize) -> (bonus: u32)
    ensures
        bonus == group_bonus(size as nat),
        bonus <= 10,
{
    let table: [u32; 8] = [0, 2, 3, 4, 5, 6, 7, 10];
    let index: usize = if size < MIN_GROUP_SIZE {
        0
    } else if size - MIN_GROUP_SIZE < MAX_GROUP_INDEX {
        size - MIN_GROUP_SIZE
    } else {
        MAX_GROUP_INDEX
    };
    table[index]
}

impl Board {
    /// Adds to the score the score of a round that cleared `total_cleared`
    /// cells of `color_count` distinct colours in groups of the given sizes,
    /// at the board's chain count.
    pub fn calculate_score(&mut self, color_count: usize, total_cleared: usize, group_sizes: &Vec<usize>)
        ensures
            final(self)@ == old(self)@.scored(
                color_count as nat,
                total_cleared as nat,
                group_bonus_sum(group_sizes@),
            ),
    {
        let cp = chain_power_of(self.chain_count);
        let cb = color_bonus_of(color_count);
        let mut gb: u128 = 0;
        let mut i: usize = 0;
        while i < group_sizes.len()
            invariant
                i <= group_sizes@.len(),
                gb == group_bonus_sum(group_sizes@.subrange(0, i as int)),
                gb <= 10 * i,
            decreases group_sizes@.len() - i,
        {
            proof {
                assert(group_sizes@.subrange(0, i + 1).drop_last() =~= group_sizes@.subrange(
                    0,
                    i as int,
                ));
            }
            gb = gb + group_bonus_of(group_sizes[i]) as u128;
            i += 1;
        }
        proof {
            assert(group_sizes@.subrange(0, i as int) =~= group_sizes@);
        }
        let sum: u128 = cp as u128 + cb as u128 + gb;
        let mult: u128 = if sum < MIN_MULTIPLIER as u128 {
            MIN_MULTIPLIER as u128
        } else if sum > MAX_MULTIPLIER as u128 {
            MAX_MULTIPLIER as u128
        } else {
            sum
        };
        let cleared: u128 = total_cleared as u128;
        assert(10 * cleared * mult <= 10 * 0xffff_ffff_ffff_ffff * 999) by (nonlinear_arith)
            requires
                cleared <= 0xffff_ffff_ffff_ffff,
                mult <= 999,
        ;
        assert(10 * cleared * mult == round_score(total_cleared as nat, mult as nat));
        let round: u128 = 10 * cleared * mult;
        let room: i64 = i32::MAX as i64 - self.score as i64;
        if round > room as u128 {
            self.score = i32::MAX;
        } else {
            self.score = (self.score as i64 + round as i64) as i32;
        }
    }
}

/// From the first link to the last position of the table, each further link
/// has strictly more chain power; beyond that position it stays the same.
pub proof fn lemma_chain_power_grows(chain_count: nat)
    ensures
        1 <= chain_count < MAX_CHAIN_INDEX ==> chain_power(chain_count) < chain_power(chain_count + 1),
        chain_count >= MAX_CHAIN_INDEX ==> chain_power(chain_count) == chain_power(MAX_CHAIN_INDEX as nat),
        chain_power(chain_count) <= chain_power(chain_count + 1),
{
}

/// For a fixed number of colours and fixed groups, the multiplier strictly
/// increases with each link from the first up to the last position of the
/// chain power table, as long as the sum stays within the largest multiplier.
pub proof fn lemma_multiplier_grows(chain_count: nat, unique_colors: nat, group_bonuses: nat)
    requires
        1 <= chain_count < MAX_CHAIN_INDEX,
        chain_power(chain_count + 1) + color_bonus(unique_colors) + group_bonuses <= MAX_MULTIPLIER,
    ensures
        multiplier(chain_count, unique_colors, group_bonuses) < multiplier(
            chain_count + 1,
            unique_colors,
            group_bonuses,
        ),
{
}

/// For a fixed number of colours and fixed groups, the multiplier never
/// decreases with the chain count, and is the same for every chain count from
/// the last position of the chain power table on.
pub proof fn lemma_multiplier_levels_off(chain_count: nat, unique_colors: nat, group_bonuses: nat)
    ensures
        multiplier(chain_count, unique_colors, group_bonuses) <= multiplier(
            chain_count + 1,
            unique_colors,
            group_bonuses,
        ),
        chain_count >= MAX_CHAIN_INDEX ==> multiplier(chain_count, unique_colors, group_bonuses)
            == multiplier(MAX_CHAIN_INDEX as nat, unique_colors, group_bonuses),
        MIN_MULTIPLIER <= multiplier(chain_count, unique_colors, group_bonuses) <= MAX_MULTIPLIER,
{
}

/// A round that clears at least one cell scores strictly more at a larger
/// multiplier, and at least ten points for each cell cleared.
pub proof fn lemma_round_score_grows(total_cleared: nat, smaller: nat, larger: nat)
    requires
        total_cleared > 0,
        1 <= smaller < larger,
    ensures
        round_score(total_cleared, smaller) < round_score(total_cleared, larger),
        round_score(total_cleared, smaller) >= 10 * total_cleared,
{
    assert(10 * total_cleared * smaller < 10 * total_cleared * larger) by (nonlinear_arith)
        requires
            total_cleared > 0,
            smaller < larger,
    ;
    assert(10 * total_cleared * smaller >= 10 * total_cleared) by (nonlinear_arith)
        requires
            total_cleared > 0,
            1 <= smaller,
    ;
}

} // verus!
