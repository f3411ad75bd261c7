use rand::{SeedableRng, StdRng};
use war::deck::Deck;
use war::game::GameState;
use war::rules::{HALF_DECK, HIGHEST_RANK, LOWEST_RANK, MAX_MOVES, RANKS, SUITS_PER_PLAYER};

fn drain(mut deck: Deck) -> Vec<u8> {
    let mut cards = Vec::new();
    while let Some(card) = deck.draw() {
        cards.push(card);
    }
    cards
}

fn seeded(seed: usize) -> StdRng {
    let seed: &[usize] = &[seed];
    SeedableRng::from_seed(seed)
}

#[test]
fn sizes_of_the_game() {
    assert_eq!(MAX_MOVES, 1000000);
    assert_eq!(SUITS_PER_PLAYER, 256);
    assert_eq!(RANKS, 13);
    assert_eq!(HALF_DECK, 3328);
    assert_eq!(LOWEST_RANK, 2);
    assert_eq!(HIGHEST_RANK, 14);
}

#[test]
fn draw_from_an_empty_deck_changes_nothing() {
    let mut deck = Deck::new_empty();

    assert_eq!(deck.draw(), None);
    assert_eq!(deck, Deck::new_empty());
    assert_eq!(deck.len(), 0);
    assert_eq!(deck.draw(), None);
}

#[test]
fn draw_takes_the_front_card() {
    let mut deck = Deck::from_vec(vec![7, 8, 9]);

    assert_eq!(deck.draw(), Some(7));
    assert_eq!(deck, Deck::from_vec(vec![8, 9]));
    assert_eq!(deck.draw(), Some(8));
    assert_eq!(deck.draw(), Some(9));
    assert_eq!(deck.draw(), None);
}

#[test]
fn add_puts_the_card_at_the_back() {
    let mut deck = Deck::from_vec(vec![7, 8]);
    deck.add(3);

    assert_eq!(deck, Deck::from_vec(vec![7, 8, 3]));
    assert_eq!(deck.len(), 3);
}

#[test]
fn add_pile_keeps_the_order_of_the_pile() {
    let mut deck = Deck::from_vec(vec![7, 8]);
    deck.add_pile(Deck::from_vec(vec![4, 14, 2]));

    assert_eq!(deck, Deck::from_vec(vec![7, 8, 4, 14, 2]));
}

#[test]
fn add_pile_of_nothing_changes_nothing() {
    let mut deck = Deck::from_vec(vec![7, 8]);
    deck.add_pile(Deck::new_empty());

    assert_eq!(deck, Deck::from_vec(vec![7, 8]));
}

#[test]
fn from_vec_of_nothing_is_the_empty_deck() {
    assert_eq!(Deck::from_vec(vec![]), Deck::new_empty());
    assert_eq!(Deck::new_empty().len(), 0);
}

#[test]
fn half_deck_is_the_ranks_in_order_run_after_run() {
    let cards = drain(Deck::new_half_deck());

    assert_eq!(cards.len(), 3328);
    assert_eq!(&cards[..14], &[2, 3, 4, 5, 6, 7, 8, 9, 10, 11, 12, 13, 14, 2]);
    assert_eq!(&cards[3315..], &[2, 3, 4, 5, 6, 7, 8, 9, 10, 11, 12, 13, 14]);
    for (i, card) in cards.iter().enumerate() {
        assert_eq!(*card as usize, 2 + i % 13);
    }
}

#[test]
fn shuffled_deck_holds_the_cards_of_a_half_deck() {
    let mut rng = seeded(1);
    let mut cards = drain(Deck::new_shuffle(&mut rng));
    cards.sort();

    let mut expected = drain(Deck::new_half_deck());
    expected.sort();
    assert_eq!(cards, expected);
}

#[test]
fn shuffled_deck_is_not_in_canonical_order() {
    let mut rng = seeded(1);

    assert_ne!(Deck::new_shuffle(&mut rng), Deck::new_half_deck());
}

#[test]
fn shuffle_follows_the_generator() {
    let mut first = seeded(7);
    let mut again = seeded(7);
    let mut other = seeded(8);
    let deck = Deck::new_shuffle(&mut first);

    assert_eq!(deck, Deck::new_shuffle(&mut again));
    assert_ne!(deck, Deck::new_shuffle(&mut other));
}

#[test]
fn new_game_deals_a_canonical_and_a_shuffled_half() {
    let mut rng = seeded(3);
    let game = GameState::new(&mut rng);

    assert_eq!(game.moves, 0);
    assert_eq!(game.computer, Deck::new_half_deck());
    assert_eq!(game.player.len(), 3328);
    assert_ne!(game.player, Deck::new_half_deck());
    let mut cards = drain(game.player);
    cards.sort();
    let mut expected = drain(Deck::new_half_deck());
    expected.sort();
    assert_eq!(cards, expected);
}
