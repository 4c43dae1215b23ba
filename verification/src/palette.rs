//! The closed palette of puyo colours and the random draw of one of them.

use rand::Rng;
use vstd::prelude::*;

verus! {

/// Number of colours in the palette.
pub const PALETTE_SIZE: u32 = 5;

/// Colour of one puyo. Equality is the only operation the rules need.
#[derive(Clone, Copy, PartialEq, Eq, Debug, Hash, Structural)]
pub enum PuyoType {
    Red,
    Blue,
    Yellow,
    Green,
    Purple,
}

impl PuyoType {
    /// Position of the colour in the palette.
    pub open spec fn index(self) -> nat {
        match self {
            PuyoType::Red => 0,
            PuyoType::Blue => 1,
            PuyoType::Yellow => 2,
            PuyoType::Green => 3,
            PuyoType::Purple => 4,
        }
    }

    /// Colour chosen by a number: the palette in order, every number past the
    /// last position giving the last colour.
    pub open spec fn of_index(i: nat) -> PuyoType {
        if i == 0 {
            PuyoType::Red
        } else if i == 1 {
            PuyoType::Blue
        } else if i == 2 {
            PuyoType::Yellow
        } else if i == 3 {
            PuyoType::Green
        } else {
            PuyoType::Purple
        }
    }

    /// Colour chosen by a number, as `of_index` defines it.
    pub fn from_u8(i: u8) -> (t: PuyoType)
        ensures
            t == Self::of_index(i as nat),
    {
        if i == 0 {
            PuyoType::Red
        } else if i == 1 {
            PuyoType::Blue
        } else if i == 2 {
            PuyoType::Yellow
        } else if i == 3 {
            PuyoType::Green
        } else {
            PuyoType::Purple
        }
    }

    /// Position of the colour in the palette, as `index` defines it.
    pub fn to_u8(self) -> (i: u8)
        ensures
            i == self.index(),
            i < PALETTE_SIZE,
    {
        match self {
            PuyoType::Red => 0,
            PuyoType::Blue => 1,
            PuyoType::Yellow => 2,
            PuyoType::Green => 3,
            PuyoType::Purple => 4,
        }
    }

    /// A colour drawn at random from the whole palette: the colour at the
    /// palette position drawn. Every colour can come out.
    pub fn random() -> (t: PuyoType)
        ensures
            exists|drawn: nat| drawn < PALETTE_SIZE && t == #[trigger] Self::of_index(drawn),
    {
        let drawn = random_below(PALETTE_SIZE);
        Self::from_u8(drawn as u8)
    }
}

/// Every palette position names the colour it came from.
pub proof fn lemma_index_round_trip(t: PuyoType)
    ensures
        PuyoType::of_index(t.index()) == t,
        t.index() < PALETTE_SIZE,
{
}

/// Calls `rand::Rng::random_range` on the thread-local generator `rand::rng()`
/// with the range `0..bound`. Trusted: the value returned lies in that range.
/// The outside function panics on an empty range, which `requires` excludes.
#[verifier::external_body]
fn random_below(bound: u32) -> (n: u32)
    requires
        bound > 0,
    ensures
        n < bound,
{
    rand::rng().random_range(0..bound)
}

} // verus!
