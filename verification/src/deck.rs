//! A pile of cards: drawn from the front, fed at the back.

use rand::{Rng, StdRng};
use std::collections::VecDeque;
use vstd::prelude::*;
use crate::rules::{HALF_DECK, HIGHEST_RANK, LOWEST_RANK, RANKS, SUITS_PER_PLAYER};

verus! {

/// The generator that shuffles a deck. Nothing of its state is visible here.
#[verifier::external_type_specification]
#[verifier::external_body]
pub struct ExStdRng(rand::StdRng);

/// The cards of a freshly dealt half: the ranks in ascending order, run after run.
pub open spec fn half_deck() -> Seq<u8> {
    Seq::new(HALF_DECK as nat, |i: int| (LOWEST_RANK + i % (RANKS as int)) as u8)
}

/// An ordered pile of card ranks. The front of the sequence is the top of the pile.
#[derive(Debug, PartialEq)]
pub struct Deck(VecDeque<u8>);

impl View for Deck {
    type V = Seq<u8>;

    closed spec fn view(&self) -> Seq<u8> {
        self.0@
    }
}

/// `rand::Rng::shuffle`, applied to the whole of `cards`. The shuffle only ever swaps two
/// places of the slice it is given, so whatever the generator yields, the cards afterwards
/// are the cards before in some order. Which order is not stated.
#[verifier::external_body]
fn shuffle(rng: &mut StdRng, cards: &mut VecDeque<u8>)
    ensures
        final(cards)@.to_multiset() == old(cards)@.to_multiset(),
{
    rng.shuffle(cards.make_contiguous());
}

impl Deck {
    /// The half of the cards that each side starts with, in canonical order: every rank
    /// from the two to the ace, `SUITS_PER_PLAYER` times over.
    pub fn new_half_deck() -> (deck: Deck)
        ensures
            deck@ == half_deck(),
            deck@.len() == HALF_DECK,
            forall|i: int| 0 <= i < deck@.len() ==> LOWEST_RANK <= #[trigger] deck@[i] <= HIGHEST_RANK,
    {
        let mut cards: VecDeque<u8> = VecDeque::new();
        let mut suit: usize = 0;
        while suit < SUITS_PER_PLAYER
            invariant
                suit <= SUITS_PER_PLAYER,
                cards@.len() == RANKS * suit,
                forall|i: int| 0 <= i < cards@.len() ==> cards@[i] == half_deck()[i],
            decreases SUITS_PER_PLAYER - suit,
        {
            let mut rank: u8 = LOWEST_RANK;
            while rank <= HIGHEST_RANK
                invariant
                    suit < SUITS_PER_PLAYER,
                    LOWEST_RANK <= rank <= HIGHEST_RANK + 1,
                    cards@.len() == RANKS * suit + (rank - LOWEST_RANK),
                    forall|i: int| 0 <= i < cards@.len() ==> cards@[i] == half_deck()[i],
                decreases HIGHEST_RANK + 1 - rank,
            {
                cards.push_back(rank);
                rank += 1;
            }
            suit += 1;
        }
        Deck(cards)
    }

    /// A half deck in an order drawn from `rng`.
    pub fn new_shuffle(rng: &mut StdRng) -> (deck: Deck)
        ensures
            deck@.to_multiset() == half_deck().to_multiset(),
            deck@.len() == HALF_DECK,
    {
        let mut deck = Self::new_half_deck();
        shuffle(rng, &mut deck.0);
        proof {
            deck@.to_multiset_ensures();
            half_deck().to_multiset_ensures();
        }
        deck
    }

    /// A pile without cards.
    pub fn new_empty() -> (deck: Deck)
        ensures
            deck@ == Seq::<u8>::empty(),
    {
        Deck(VecDeque::new())
    }

    /// The pile that holds `vec`, its first card on top.
    pub fn from_vec(vec: Vec<u8>) -> (deck: Deck)
        ensures
            deck@ == vec@,
    {
        let mut cards: VecDeque<u8> = VecDeque::new();
        let mut i: usize = 0;
        while i < vec.len()
            invariant
                i <= vec.len(),
                cards@ == vec@.take(i as int),
            decreases vec.len() - i,
        {
            cards.push_back(vec[i]);
            i += 1;
        }
        Deck(cards)
    }

    /// The number of cards in the pile.
    pub fn len(&self) -> (n: usize)
        ensures
            n == self@.len(),
    {
        self.0.len()
    }

    /// Takes the top card off the pile. An empty pile yields `None` and stays as it is.
    pub fn draw(&mut self) -> (card: Option<u8>)
        ensures
            old(self)@.len() == 0 ==> card.is_none() && final(self)@ == old(self)@,
            old(self)@.len() > 0 ==> card == Some(old(self)@[0]) && final(self)@ == old(self)@.skip(1),
    {
        self.0.pop_front()
    }

    /// Puts `card` under the pile.
    pub fn add(&mut self, card: u8)
        ensures
            final(self)@ == old(self)@.push(card),
    {
        self.0.push_back(card);
    }

    /// Puts the cards of `pile` under this pile, in the order in which `pile` held them.
    pub fn add_pile(&mut self, pile: Deck)
        ensures
            final(self)@ == old(self)@ + pile@,
    {
        let mut rest = pile;
        loop
            invariant
                self@ + rest@ == old(self)@ + pile@,
            decreases rest@.len(),
        {
            match rest.draw() {
                Some(card) => {
                    self.add(card);
                    assert(self@ + rest@ =~= old(self)@ + pile@);
                },
                None => {
                    assert(self@ =~= self@ + rest@);
                    return ;
                },
            }
        }
    }
}

} // verus!
