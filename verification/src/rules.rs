//! The fixed sizes of the game.

use vstd::prelude::*;

verus! {

/// The number of resolved rounds after which an undecided game is cut off.
pub const MAX_MOVES: usize = 1000000;

/// How many runs of the thirteen ranks each side is dealt.
pub const SUITS_PER_PLAYER: usize = 256;

/// The number of ranks in a suit.
pub const RANKS: usize = 13;

/// The lowest rank, the two; the highest, the ace, is `LOWEST_RANK + RANKS - 1`.
pub const LOWEST_RANK: u8 = 2;

/// The highest rank, the ace.
pub const HIGHEST_RANK: u8 = 14;

/// How many further cards each side lays down when the cards turned up are equal.
pub const WAR_STAKE: usize = 3;

/// The number of cards each side is dealt.
pub const HALF_DECK: usize = RANKS * SUITS_PER_PLAYER;

} // verus!
