//! The game itself: two decks, a move counter, and the round that takes one state to the
//! next or ends the game.

use rand::StdRng;
use vstd::multiset::Multiset;
use vstd::prelude::*;
use crate::deck::{half_deck, Deck};
use crate::rules::{HALF_DECK, MAX_MOVES, WAR_STAKE};
use crate::score::{Outcome, Score};

verus! {

/// A game in progress: the computer's deck, the player's deck, and the number of rounds
/// resolved so far.
#[derive(Debug, PartialEq)]
pub struct GameState {
    pub computer: Deck,
    pub player: Deck,
    pub moves: usize,
}

/// What one round makes of a game: it goes on from a new state, or it is over.
#[derive(Debug, PartialEq)]
pub enum GameStepped {
    Cont(GameState),
    Done(Score),
}

/// A game in progress as plain mathematics.
pub struct GameView {
    pub computer: Seq<u8>,
    pub player: Seq<u8>,
    pub moves: nat,
}

/// The result of a round as plain mathematics.
pub enum SteppedView {
    Cont(GameView),
    Done(Outcome),
}

impl View for GameState {
    type V = GameView;

    open spec fn view(&self) -> GameView {
        GameView { computer: self.computer@, player: self.player@, moves: self.moves as nat }
    }
}

impl View for GameStepped {
    type V = SteppedView;

    open spec fn view(&self) -> SteppedView {
        match *self {
            GameStepped::Cont(state) => SteppedView::Cont(state@),
            GameStepped::Done(score) => SteppedView::Done(score@),
        }
    }
}

/// How many cards a side has laid down after `draws` draws from `deck`: one for each draw,
/// until the deck is empty.
pub open spec fn laid(deck: Seq<u8>, draws: int) -> int {
    if deck.len() < draws {
        deck.len() as int
    } else {
        draws
    }
}

/// How many cards a side lays down in a war: `WAR_STAKE`, or all it has if it has fewer.
pub open spec fn stake(deck: Seq<u8>) -> int {
    laid(deck, WAR_STAKE as int)
}

/// The rest of a round, from the moment both sides are about to turn up a card.
/// `computer_pile` and `player_pile` hold what each side has laid down in this round so far.
///
/// A side that cannot turn up a card ends the game. Otherwise the higher card takes both
/// piles, the winner's own pile first, and the move is counted. Equal cards are a war: each
/// side lays down its stake and the round goes on with the next pair.
pub open spec fn resolve(
    computer: Seq<u8>,
    player: Seq<u8>,
    computer_pile: Seq<u8>,
    player_pile: Seq<u8>,
    moves: nat,
) -> SteppedView
    decreases computer.len(),
{
    if computer.len() == 0 && player.len() == 0 {
        SteppedView::Done(Outcome::TiedAt(moves))
    } else if computer.len() == 0 {
        SteppedView::Done(Outcome::WinAfter(moves))
    } else if player.len() == 0 {
        SteppedView::Done(Outcome::LoseAfter(moves))
    } else {
        let computer_pile = computer_pile.push(computer[0]);
        let player_pile = player_pile.push(player[0]);
        let computer_rest = computer.skip(1);
        let player_rest = player.skip(1);
        if computer[0] < player[0] {
            SteppedView::Cont(
                GameView {
                    computer: computer_rest,
                    player: player_rest + player_pile + computer_pile,
                    moves: moves + 1,
                },
            )
        } else if computer[0] > player[0] {
            SteppedView::Cont(
                GameView {
                    computer: computer_rest + computer_pile + player_pile,
                    player: player_rest,
                    moves: moves + 1,
                },
            )
        } else {
            resolve(
                computer_rest.skip(stake(computer_rest)),
                player_rest.skip(stake(player_rest)),
                computer_pile + computer_rest.take(stake(computer_rest)),
                player_pile + player_rest.take(stake(player_rest)),
                moves,
            )
        }
    }
}

impl GameView {
    /// The move counter has not passed the cap.
    pub open spec fn wf(self) -> bool {
        self.moves <= MAX_MOVES
    }

    /// The number of cards in both decks together.
    pub open spec fn cards(self) -> nat {
        self.computer.len() + self.player.len()
    }

    /// The cards of both decks together, whoever holds them and in whatever order.
    pub open spec fn all_cards(self) -> Multiset<u8> {
        self.computer.to_multiset().add(self.player.to_multiset())
    }

    /// One round. At the cap the game is cut off and reports the player's cards; below it
    /// the round is resolved from empty piles.
    pub open spec fn step(self) -> SteppedView {
        if self.moves >= MAX_MOVES {
            SteppedView::Done(Outcome::FinishWith(self.player.len()))
        } else {
            resolve(self.computer, self.player, Seq::empty(), Seq::empty(), self.moves)
        }
    }
}

/// The game played to its end: round after round until one reports an outcome.
pub open spec fn play(game: GameView) -> Outcome
    decreases MAX_MOVES - game.moves,
    via play_decreases
{
    match game.step() {
        SteppedView::Done(outcome) => outcome,
        SteppedView::Cont(next) => play(next),
    }
}

#[via_fn]
proof fn play_decreases(game: GameView) {
    lemma_resolve(game.computer, game.player, Seq::empty(), Seq::empty(), game.moves);
}

/// A round that does not end the game counts one move and keeps every card: the two decks
/// afterwards hold, between them, exactly the cards that they held before.
pub proof fn lemma_step_keeps_cards(game: GameView)
    ensures
        game.step() matches SteppedView::Cont(next) ==> {
            &&& game.moves < MAX_MOVES
            &&& next.moves == game.moves + 1
            &&& next.cards() == game.cards()
            &&& next.all_cards() == game.all_cards()
        },
{
    broadcast use vstd::multiset::group_multiset_axioms;

    if game.moves < MAX_MOVES {
        lemma_resolve(game.computer, game.player, Seq::empty(), Seq::empty(), game.moves);
        Seq::<u8>::empty().to_multiset_ensures();
        assert(Seq::<u8>::empty().to_multiset() =~= Multiset::empty());
    }
}

/// A round that ends the game reports where the game stood: at the cap the player's cards,
/// below it the current move count.
pub proof fn lemma_step_reports_state(game: GameView)
    ensures
        game.step() matches SteppedView::Done(outcome) ==> match outcome {
            Outcome::FinishWith(cards) => game.moves >= MAX_MOVES && cards == game.player.len(),
            Outcome::WinAfter(moves) | Outcome::LoseAfter(moves) | Outcome::TiedAt(moves) => {
                game.moves < MAX_MOVES && moves == game.moves
            },
        },
{
    if game.moves < MAX_MOVES {
        lemma_resolve(game.computer, game.player, Seq::empty(), Seq::empty(), game.moves);
    }
}

/// What `resolve` keeps: a round that goes on has counted one move and holds, in the two
/// decks, every card that the decks and the piles held; a round that ends the game reports
/// the move count it was given.
proof fn lemma_resolve(
    computer: Seq<u8>,
    player: Seq<u8>,
    computer_pile: Seq<u8>,
    player_pile: Seq<u8>,
    moves: nat,
)
    ensures
        match resolve(computer, player, computer_pile, player_pile, moves) {
            SteppedView::Cont(next) => {
                &&& next.moves == moves + 1
                &&& next.cards() == computer.len() + player.len() + computer_pile.len()
                    + player_pile.len()
                &&& next.all_cards() == computer.to_multiset().add(player.to_multiset()).add(
                    computer_pile.to_multiset(),
                ).add(player_pile.to_multiset())
            },
            SteppedView::Done(outcome) => {
                ||| outcome == Outcome::TiedAt(moves)
                ||| outcome == Outcome::WinAfter(moves)
                ||| outcome == Outcome::LoseAfter(moves)
            },
        },
    decreases computer.len(),
{
    broadcast use vstd::multiset::group_multiset_axioms;

    if computer.len() > 0 && player.len() > 0 {
        let computer_laid = computer_pile.push(computer[0]);
        let player_laid = player_pile.push(player[0]);
        let computer_rest = computer.skip(1);
        let player_rest = player.skip(1);
        lemma_draw(computer);
        lemma_draw(player);
        vstd::seq_lib::to_multiset_build(computer_pile, computer[0]);
        vstd::seq_lib::to_multiset_build(player_pile, player[0]);
        if computer[0] < player[0] {
            vstd::seq_lib::lemma_multiset_commutative(player_rest, player_laid);
            vstd::seq_lib::lemma_multiset_commutative(player_rest + player_laid, computer_laid);
        } else if computer[0] > player[0] {
            vstd::seq_lib::lemma_multiset_commutative(computer_rest, computer_laid);
            vstd::seq_lib::lemma_multiset_commutative(computer_rest + computer_laid, player_laid);
        } else {
            lemma_split(computer_rest, stake(computer_rest));
            lemma_split(player_rest, stake(player_rest));
            vstd::seq_lib::lemma_multiset_commutative(
                computer_laid,
                computer_rest.take(stake(computer_rest)),
            );
            vstd::seq_lib::lemma_multiset_commutative(
                player_laid,
                player_rest.take(stake(player_rest)),
            );
            lemma_resolve(
                computer_rest.skip(stake(computer_rest)),
                player_rest.skip(stake(player_rest)),
                computer_laid + computer_rest.take(stake(computer_rest)),
                player_laid + player_rest.take(stake(player_rest)),
                moves,
            );
        }
    }
}

/// A sequence holds its first card and the cards after it.
proof fn lemma_draw(cards: Seq<u8>)
    requires
        cards.len() > 0,
    ensures
        cards.to_multiset() == cards.skip(1).to_multiset().insert(cards[0]),
{
    broadcast use vstd::multiset::group_multiset_axioms;

    let top = Seq::<u8>::empty().push(cards[0]);
    assert(cards =~= top + cards.skip(1));
    vstd::seq_lib::lemma_multiset_commutative(top, cards.skip(1));
    vstd::seq_lib::to_multiset_build(Seq::<u8>::empty(), cards[0]);
    Seq::<u8>::empty().to_multiset_ensures();
    assert(Seq::<u8>::empty().to_multiset() =~= Multiset::empty());
}

/// Cutting a sequence in two leaves its cards what they were.
proof fn lemma_split(cards: Seq<u8>, at: int)
    requires
        0 <= at <= cards.len(),
    ensures
        cards.to_multiset() == cards.take(at).to_multiset().add(cards.skip(at).to_multiset()),
{
    assert(cards =~= cards.take(at) + cards.skip(at));
    vstd::seq_lib::lemma_multiset_commutative(cards.take(at), cards.skip(at));
}

impl GameState {
    /// The move counter has not passed the cap.
    pub open spec fn wf(&self) -> bool {
        self@.wf()
    }

    /// A new game: the computer holds a half deck in canonical order, the player a half
    /// deck in an order drawn from `rng`, and no move has been made.
    pub fn new(rng: &mut StdRng) -> (game: GameState)
        ensures
            game.computer@ == half_deck(),
            game.player@.to_multiset() == half_deck().to_multiset(),
            game.moves == 0,
            game@.cards() == 2 * HALF_DECK,
    {
        GameState { computer: Deck::new_half_deck(), player: Deck::new_shuffle(rng), moves: 0 }
    }

    /// One round of the game.
    ///
    /// At the cap the game is cut off with the player's card count. Below it, a side without
    /// cards ends the game at the current move count. Otherwise the round is played out, wars
    /// included: either a side runs out of cards on the way, or the game goes on with one
    /// more move counted and no card lost. Unequal cards on top settle the round at once.
    pub fn step(self) -> (stepped: GameStepped)
        requires
            self.wf(),
        ensures
            stepped@ == self@.step(),
            self.moves == MAX_MOVES ==> (stepped matches GameStepped::Done(
                Score::FinishWith(cards),
            ) && cards == self.player@.len()),
            self.moves < MAX_MOVES && self.computer@.len() == 0 && self.player@.len() == 0
                ==> stepped == GameStepped::Done(Score::TiedAt(self.moves)),
            self.moves < MAX_MOVES && self.computer@.len() == 0 && self.player@.len() > 0
                ==> stepped == GameStepped::Done(Score::WinAfter(self.moves)),
            self.moves < MAX_MOVES && self.computer@.len() > 0 && self.player@.len() == 0
                ==> stepped == GameStepped::Done(Score::LoseAfter(self.moves)),
            self.moves < MAX_MOVES && self.computer@.len() > 0 && self.player@.len() > 0
                && self.computer@[0] != self.player@[0] ==> stepped is Cont,
            stepped matches GameStepped::Cont(next) ==> {
                &&& next.wf()
                &&& next.moves == self.moves + 1
                &&& next@.cards() == self@.cards()
                &&& next@.all_cards() == self@.all_cards()
            },
            stepped matches GameStepped::Done(score) ==> match score {
                Score::FinishWith(cards) => self.moves == MAX_MOVES && cards == self.player@.len(),
                Score::WinAfter(moves) | Score::LoseAfter(moves) | Score::TiedAt(moves) => {
                    self.moves < MAX_MOVES && moves == self.moves
                },
            },
    {
        let mut state = self;
        if state.moves >= MAX_MOVES {
            return GameStepped::Done(Score::FinishWith(state.player.len()));
        }
        let mut computer_pile = Deck::new_empty();
        let mut player_pile = Deck::new_empty();

        loop
            invariant
                state.moves == self.moves,
                state.moves < MAX_MOVES,
                resolve(
                    state.computer@,
                    state.player@,
                    computer_pile@,
                    player_pile@,
                    state.moves as nat,
                ) == self@.step(),
            decreases state.computer@.len(),
        {
            proof {
                lemma_step_keeps_cards(self@);
                lemma_step_reports_state(self@);
            }
            let (computer, player) = match (state.computer.draw(), state.player.draw()) {
                (None, None) => return GameStepped::Done(Score::TiedAt(state.moves)),
                (None, Some(_)) => return GameStepped::Done(Score::WinAfter(state.moves)),
                (Some(_), None) => return GameStepped::Done(Score::LoseAfter(state.moves)),
                (Some(x), Some(y)) => (x, y),
            };

            computer_pile.add(computer);
            player_pile.add(player);

            if computer < player {
                state.player.add_pile(player_pile);
                state.player.add_pile(computer_pile);
                state.moves += 1;
                return GameStepped::Cont(state);
            } else if computer > player {
                state.computer.add_pile(computer_pile);
                state.computer.add_pile(player_pile);
                state.moves += 1;
                return GameStepped::Cont(state);
            } else {
                let ghost computer_rest = state.computer@;
                let ghost player_rest = state.player@;
                let ghost computer_laid = computer_pile@;
                let ghost player_laid = player_pile@;
                for draws in 0..WAR_STAKE
                    invariant
                        state.moves == self.moves,
                        state.computer@ == computer_rest.skip(laid(computer_rest, draws as int)),
                        state.player@ == player_rest.skip(laid(player_rest, draws as int)),
                        computer_pile@ == computer_laid + computer_rest.take(
                            laid(computer_rest, draws as int),
                        ),
                        player_pile@ == player_laid + player_rest.take(
                            laid(player_rest, draws as int),
                        ),
                {
                    match state.computer.draw() {
                        None => (),
                        Some(x) => computer_pile.add(x),
                    }
                    match state.player.draw() {
                        None => (),
                        Some(x) => player_pile.add(x),
                    }
                }
            }
        }
    }
}

/// Plays `game_state` to its end and reports the outcome.
///
/// A game cut off at the cap reports no more cards than the game held at the start; every
/// other outcome reports a move count below the cap and not below the one the game started
/// from.
pub fn play_game(game_state: GameState) -> (score: Score)
    requires
        game_state.wf(),
    ensures
        score@ == play(game_state@),
        match score {
            Score::FinishWith(cards) => cards <= game_state@.cards(),
            Score::WinAfter(moves) | Score::LoseAfter(moves) | Score::TiedAt(moves) => {
                game_state.moves <= moves < MAX_MOVES
            },
        },
{
    let mut state = game_state;
    loop
        invariant
            state.wf(),
            state.moves >= game_state.moves,
            state@.cards() == game_state@.cards(),
            play(state@) == play(game_state@),
        decreases MAX_MOVES - state.moves,
    {
        state = match state.step() {
            GameStepped::Cont(next) => next,
            GameStepped::Done(score) => return score,
        }
    }
}

} // verus!
