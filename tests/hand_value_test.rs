use rust_deck::deck::{Card, Community, Rank, Suit};
use rust_deck::hand::{evaluate, Hand, ScoringHands};

fn c(suit: Suit, rank: Rank) -> Card {
    Card { suit, rank }
}

fn board(cards: [Card; 5]) -> Community {
    Community { cards }
}

fn value_of(hole: [Card; 2], community: [Card; 5]) -> (ScoringHands, u8) {
    evaluate(&hole, &community)
}

#[test]
fn test_hand_value() {
    let mut hand_1 = Hand {
        cards: [Card {
            suit: Suit::Clubs,
            rank: Rank::Ace,
        }, Card {
            suit: Suit::Clubs,
            rank: Rank::King,
        }],
        value: (ScoringHands::Unscored, 0),
    };
    let mut hand_2 = Hand {
        cards: [Card {
            suit: Suit::Diamonds,
            rank: Rank::Two,
        }, Card {
            suit: Suit::Spades,
            rank: Rank::Seven,
        }],
        value: (ScoringHands::Unscored, 0),
    };

    let community = Community {
        cards: [Card {
            suit: Suit::Spades,
            rank: Rank::Four,
        }, Card {
            suit: Suit::Spades,
            rank: Rank::Five,
        }, Card {
            suit: Suit::Clubs,
            rank: Rank::Queen,
        }, Card {
            suit: Suit::Clubs,
            rank: Rank::Jack,
        }, Card {
            suit: Suit::Clubs,
            rank: Rank::Ten,
        }],
    };

    let hand_value = hand_1.hand_value(&community);
    assert_eq!(hand_value, (ScoringHands::RoyalFlush, Rank::Ace as u8));

    let hand_value2 = hand_2.hand_value(&community);
    assert_eq!(hand_value2, (ScoringHands::HighCard, Rank::Queen as u8));
}

#[test]
fn hand_value_is_kept_and_determine_value_leaves_hand_alone() {
    let community = board([
        c(Suit::Spades, Rank::Four),
        c(Suit::Spades, Rank::Five),
        c(Suit::Clubs, Rank::Queen),
        c(Suit::Clubs, Rank::Jack),
        c(Suit::Clubs, Rank::Ten),
    ]);
    let mut hand = Hand {
        cards: [c(Suit::Clubs, Rank::Ace), c(Suit::Clubs, Rank::King)],
        value: (ScoringHands::Unscored, 0),
    };
    let v = hand.determine_value(&community);
    assert_eq!(v, (ScoringHands::RoyalFlush, 13));
    assert_eq!(hand.value, (ScoringHands::Unscored, 0));
    hand.hand_value(&community);
    assert_eq!(hand.value, (ScoringHands::RoyalFlush, 13));
}

#[test]
fn royal_flush_in_spades_from_the_board() {
    let v = value_of(
        [c(Suit::Hearts, Rank::Two), c(Suit::Diamonds, Rank::Three)],
        [
            c(Suit::Spades, Rank::Ace),
            c(Suit::Spades, Rank::King),
            c(Suit::Spades, Rank::Queen),
            c(Suit::Spades, Rank::Jack),
            c(Suit::Spades, Rank::Ten),
        ],
    );
    assert_eq!(v, (ScoringHands::RoyalFlush, Rank::Ace as u8));
}

#[test]
fn straight_flush_king_high_with_exactly_five_suited() {
    let v = value_of(
        [c(Suit::Hearts, Rank::King), c(Suit::Hearts, Rank::Nine)],
        [
            c(Suit::Hearts, Rank::Queen),
            c(Suit::Hearts, Rank::Jack),
            c(Suit::Hearts, Rank::Ten),
            c(Suit::Clubs, Rank::Two),
            c(Suit::Diamonds, Rank::Three),
        ],
    );
    assert_eq!(v, (ScoringHands::StraightFlush, Rank::King as u8));
}

#[test]
fn straight_flush_lowest_is_six_high() {
    let v = value_of(
        [c(Suit::Diamonds, Rank::Two), c(Suit::Diamonds, Rank::Three)],
        [
            c(Suit::Diamonds, Rank::Four),
            c(Suit::Diamonds, Rank::Five),
            c(Suit::Diamonds, Rank::Six),
            c(Suit::Clubs, Rank::King),
            c(Suit::Spades, Rank::King),
        ],
    );
    assert_eq!(v, (ScoringHands::StraightFlush, Rank::Six as u8));
}

#[test]
fn four_of_a_kind() {
    let v = value_of(
        [c(Suit::Clubs, Rank::Nine), c(Suit::Diamonds, Rank::Nine)],
        [
            c(Suit::Hearts, Rank::Nine),
            c(Suit::Spades, Rank::Nine),
            c(Suit::Clubs, Rank::Ace),
            c(Suit::Clubs, Rank::King),
            c(Suit::Diamonds, Rank::Ace),
        ],
    );
    assert_eq!(v, (ScoringHands::FourOfAKind, Rank::Nine as u8));
}

#[test]
fn full_house_takes_the_triple_rank() {
    let v = value_of(
        [c(Suit::Clubs, Rank::Three), c(Suit::Diamonds, Rank::Three)],
        [
            c(Suit::Hearts, Rank::Three),
            c(Suit::Spades, Rank::King),
            c(Suit::Clubs, Rank::King),
            c(Suit::Clubs, Rank::Seven),
            c(Suit::Diamonds, Rank::Eight),
        ],
    );
    assert_eq!(v, (ScoringHands::FullHouse, Rank::Three as u8));
}

#[test]
fn two_triples_make_a_full_house() {
    let v = value_of(
        [c(Suit::Clubs, Rank::Three), c(Suit::Diamonds, Rank::Three)],
        [
            c(Suit::Hearts, Rank::Three),
            c(Suit::Spades, Rank::King),
            c(Suit::Clubs, Rank::King),
            c(Suit::Hearts, Rank::King),
            c(Suit::Diamonds, Rank::Eight),
        ],
    );
    assert_eq!(v, (ScoringHands::FullHouse, Rank::King as u8));
}

#[test]
fn kings_over_queens_full_house() {
    let v = value_of(
        [c(Suit::Clubs, Rank::King), c(Suit::Diamonds, Rank::King)],
        [
            c(Suit::Hearts, Rank::King),
            c(Suit::Spades, Rank::Queen),
            c(Suit::Clubs, Rank::Queen),
            c(Suit::Hearts, Rank::Queen),
            c(Suit::Diamonds, Rank::Two),
        ],
    );
    assert_eq!(v, (ScoringHands::FullHouse, Rank::King as u8));
}

#[test]
fn flush_takes_its_highest_card() {
    let v = value_of(
        [c(Suit::Hearts, Rank::Two), c(Suit::Hearts, Rank::Jack)],
        [
            c(Suit::Hearts, Rank::Five),
            c(Suit::Hearts, Rank::Nine),
            c(Suit::Hearts, Rank::Seven),
            c(Suit::Clubs, Rank::Ace),
            c(Suit::Diamonds, Rank::Three),
        ],
    );
    assert_eq!(v, (ScoringHands::Flush, Rank::Jack as u8));
}

#[test]
fn straight_with_exactly_five_ranks() {
    let v = value_of(
        [c(Suit::Hearts, Rank::Six), c(Suit::Clubs, Rank::Seven)],
        [
            c(Suit::Diamonds, Rank::Eight),
            c(Suit::Spades, Rank::Nine),
            c(Suit::Hearts, Rank::Ten),
            c(Suit::Clubs, Rank::Two),
            c(Suit::Diamonds, Rank::Two),
        ],
    );
    assert_eq!(v, (ScoringHands::Straight, Rank::Ten as u8));
}

#[test]
fn straight_picks_the_highest_run() {
    let v = value_of(
        [c(Suit::Hearts, Rank::Six), c(Suit::Clubs, Rank::Seven)],
        [
            c(Suit::Diamonds, Rank::Eight),
            c(Suit::Spades, Rank::Nine),
            c(Suit::Hearts, Rank::Ten),
            c(Suit::Clubs, Rank::Jack),
            c(Suit::Diamonds, Rank::Queen),
        ],
    );
    assert_eq!(v, (ScoringHands::Straight, Rank::Queen as u8));
}

#[test]
fn ace_does_not_play_low() {
    let v = value_of(
        [c(Suit::Hearts, Rank::Ace), c(Suit::Clubs, Rank::Two)],
        [
            c(Suit::Diamonds, Rank::Three),
            c(Suit::Spades, Rank::Four),
            c(Suit::Hearts, Rank::Five),
            c(Suit::Clubs, Rank::Nine),
            c(Suit::Diamonds, Rank::Jack),
        ],
    );
    assert_eq!(v, (ScoringHands::HighCard, Rank::Ace as u8));
}

#[test]
fn three_of_a_kind() {
    let v = value_of(
        [c(Suit::Hearts, Rank::Queen), c(Suit::Clubs, Rank::Queen)],
        [
            c(Suit::Diamonds, Rank::Queen),
            c(Suit::Spades, Rank::Four),
            c(Suit::Hearts, Rank::Two),
            c(Suit::Clubs, Rank::Nine),
            c(Suit::Diamonds, Rank::Jack),
        ],
    );
    assert_eq!(v, (ScoringHands::ThreeOfAKind, Rank::Queen as u8));
}

#[test]
fn two_pair_takes_the_higher_pair() {
    let v = value_of(
        [c(Suit::Hearts, Rank::Four), c(Suit::Clubs, Rank::Four)],
        [
            c(Suit::Diamonds, Rank::Jack),
            c(Suit::Spades, Rank::Jack),
            c(Suit::Hearts, Rank::Two),
            c(Suit::Clubs, Rank::Two),
            c(Suit::Diamonds, Rank::King),
        ],
    );
    assert_eq!(v, (ScoringHands::TwoPair, Rank::Jack as u8));
}

#[test]
fn one_pair() {
    let v = value_of(
        [c(Suit::Hearts, Rank::Eight), c(Suit::Clubs, Rank::Eight)],
        [
            c(Suit::Diamonds, Rank::Jack),
            c(Suit::Spades, Rank::Three),
            c(Suit::Hearts, Rank::Two),
            c(Suit::Clubs, Rank::Ace),
            c(Suit::Diamonds, Rank::King),
        ],
    );
    assert_eq!(v, (ScoringHands::OnePair, Rank::Eight as u8));
}

#[test]
fn high_card_from_the_hole() {
    let v = value_of(
        [c(Suit::Diamonds, Rank::Two), c(Suit::Spades, Rank::Seven)],
        [
            c(Suit::Spades, Rank::Four),
            c(Suit::Spades, Rank::Five),
            c(Suit::Clubs, Rank::Queen),
            c(Suit::Clubs, Rank::Jack),
            c(Suit::Clubs, Rank::Ten),
        ],
    );
    assert_eq!(v, (ScoringHands::HighCard, Rank::Queen as u8));
}

#[test]
fn categories_are_ordered() {
    let order = [
        ScoringHands::Unscored,
        ScoringHands::HighCard,
        ScoringHands::OnePair,
        ScoringHands::TwoPair,
        ScoringHands::ThreeOfAKind,
        ScoringHands::Straight,
        ScoringHands::Flush,
        ScoringHands::FullHouse,
        ScoringHands::FourOfAKind,
        ScoringHands::StraightFlush,
        ScoringHands::RoyalFlush,
    ];
    for i in 0..order.len() {
        for j in 0..order.len() {
            assert_eq!(order[i] < order[j], i < j);
            assert_eq!(order[i] == order[j], i == j);
            assert!(order[i].partial_cmp(&order[j]).is_some());
        }
        assert_eq!(order[i].strength() as usize, i);
    }
    assert!(ScoringHands::RoyalFlush > ScoringHands::StraightFlush);
    assert!(ScoringHands::HighCard > ScoringHands::Unscored);
}

#[test]
fn new_and_reset_hands_are_blank() {
    let mut hand = Hand::new();
    assert_eq!(hand.cards[0], Card::blank());
    assert_eq!(hand.cards[1], Card::blank());
    assert_eq!(hand.value, (ScoringHands::Unscored, 0));
    hand.cards = [c(Suit::Clubs, Rank::Two), c(Suit::Clubs, Rank::Three)];
    hand.value = (ScoringHands::OnePair, 4);
    hand.reset();
    assert_eq!(hand.cards, [Card::blank(), Card::blank()]);
    assert_eq!(hand.value, (ScoringHands::Unscored, 0));
}
