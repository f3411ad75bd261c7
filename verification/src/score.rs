//! The outcome of a finished game and its place in the ranking of outcomes.

use vstd::prelude::*;
use crate::rules::{HALF_DECK, MAX_MOVES};

verus! {

/// How a game ended, seen from the player's side.
#[derive(Debug, PartialEq, Eq, Clone, Copy)]
pub enum Score {
    /// The computer ran out of cards first, after this many moves.
    WinAfter(usize),
    /// The player ran out of cards first, after this many moves.
    LoseAfter(usize),
    /// The move cap was reached; the player held this many cards.
    FinishWith(usize),
    /// Both sides ran out of cards together, after this many moves.
    TiedAt(usize),
}

/// An outcome as plain mathematics: the same four ways to end, over unbounded numbers.
pub enum Outcome {
    WinAfter(nat),
    LoseAfter(nat),
    FinishWith(nat),
    TiedAt(nat),
}

impl View for Score {
    type V = Outcome;

    open spec fn view(&self) -> Outcome {
        match *self {
            Score::WinAfter(moves) => Outcome::WinAfter(moves as nat),
            Score::LoseAfter(moves) => Outcome::LoseAfter(moves as nat),
            Score::FinishWith(cards) => Outcome::FinishWith(cards as nat),
            Score::TiedAt(moves) => Outcome::TiedAt(moves as nat),
        }
    }
}

impl Outcome {
    /// The place of an outcome in the ranking. A loss counts its moves. A tie stands where a
    /// finish with exactly half of the cards stands. A finish counts the player's cards above
    /// the cap. A win stands above the cap and all the cards of a deal, the higher the fewer
    /// moves it took.
    pub open spec fn rank(self) -> int {
        match self {
            Outcome::LoseAfter(moves) => moves as int,
            Outcome::TiedAt(_) => MAX_MOVES + HALF_DECK,
            Outcome::FinishWith(cards) => MAX_MOVES + cards,
            Outcome::WinAfter(moves) => MAX_MOVES + 2 * HALF_DECK + (MAX_MOVES - moves),
        }
    }
}

impl Score {
    /// The outcomes whose rank can be computed in machine integers: a win is counted back
    /// from the cap, so its move count may not exceed the cap, and a card count must leave
    /// room for the cap above it.
    pub open spec fn rankable(&self) -> bool {
        match *self {
            Score::WinAfter(moves) => moves <= MAX_MOVES,
            Score::FinishWith(cards) => MAX_MOVES + cards <= usize::MAX,
            _ => true,
        }
    }

    /// The rank of this outcome.
    pub fn to_int(&self) -> (rank: usize)
        requires
            self.rankable(),
        ensures
            rank == self@.rank(),
    {
        match *self {
            Score::LoseAfter(moves) => moves,
            Score::TiedAt(_) => MAX_MOVES + HALF_DECK,
            Score::FinishWith(cards) => MAX_MOVES + cards,
            Score::WinAfter(moves) => MAX_MOVES + HALF_DECK * 2 + (MAX_MOVES - moves),
        }
    }
}

/// The ranking keeps the four kinds of outcome apart and in order: a loss below a tie, a tie
/// below a finish, a finish below a win.
///
/// Each step holds within a bound and fails beyond it. A loss stays below a tie while its
/// move count is below the cap and half of the cards together, which every count up to the
/// cap is. A tie ranks as a finish with half of the cards does, so only a finish with more
/// than that stands above it. And a finish stays below a win while the cards it counts and
/// the moves the win took, together, stay below the cap and the cards of a whole deal
/// together.
pub proof fn lemma_rank_orders_kinds(lost: nat, tied: nat, cards: nat, won: nat)
    requires
        lost < MAX_MOVES + HALF_DECK,
        HALF_DECK < cards,
        cards + won < 2 * HALF_DECK + MAX_MOVES,
    ensures
        Outcome::LoseAfter(lost).rank() < Outcome::TiedAt(tied).rank(),
        Outcome::TiedAt(tied).rank() < Outcome::FinishWith(cards).rank(),
        Outcome::FinishWith(cards).rank() < Outcome::WinAfter(won).rank(),
{
}

/// Of two wins, the one that took fewer moves ranks higher.
pub proof fn lemma_rank_prefers_faster_win(faster: nat, slower: nat)
    requires
        faster < slower,
    ensures
        Outcome::WinAfter(faster).rank() > Outcome::WinAfter(slower).rank(),
{
}

} // verus!
