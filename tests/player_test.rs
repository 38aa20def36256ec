use rust_deck::deck::{Card, Deck, Rank, Suit};
use rust_deck::hand::{Hand, ScoringHands};
use rust_deck::player::{parse_amount, parse_command, Player, PlayerAction, DEFAULT_BANK};

fn player_with(bank: u64, bid: u64) -> Player {
    let mut p = Player::new(3, String::from("Player 3"), Some(bank));
    p.bid = bid;
    p
}

#[test]
fn test_player_prompt() {
    let mut player = Player::new(0, String::from("Player 0"), None);
    let mut deck = Deck::new();
    deck.shuffle();

    player.hand.fill(&mut deck);

    let input = b"fold";

    let (chosen, amount) = parse_command(&input[..]).expect("an action");
    let action = player.respond(chosen, amount, None);
    assert_eq!(action.map(|(a, _)| a), Some(PlayerAction::Fold));
    assert_eq!(player.last_action, PlayerAction::Fold);
}

#[test]
fn new_player_defaults() {
    let p = Player::new(7, String::from("Player 7"), None);
    assert_eq!(p.id, 7);
    assert_eq!(p.name, "Player 7");
    assert_eq!(p.bank, DEFAULT_BANK);
    assert_eq!(p.bank, 100_000);
    assert_eq!(p.bid, 0);
    assert_eq!(p.last_action, PlayerAction::Pending);
    assert_eq!(p.hand.cards, [Card::blank(), Card::blank()]);
    let q = Player::new(1, String::from("x"), Some(42));
    assert_eq!(q.bank, 42);
}

#[test]
fn reset_matches_a_new_player() {
    let mut p = player_with(5_000, 700);
    p.last_action = PlayerAction::Raise;
    p.hand = Hand {
        cards: [Card { suit: Suit::Clubs, rank: Rank::Ace }, Card { suit: Suit::Hearts, rank: Rank::Two }],
        value: (ScoringHands::HighCard, 13),
    };
    p.reset();
    let fresh = Player::new(9, String::from("other"), None);
    assert_eq!(p.hand.cards, fresh.hand.cards);
    assert_eq!(p.hand.value, fresh.hand.value);
    assert_eq!(p.last_action, fresh.last_action);
    assert_eq!(p.bid, fresh.bid);
    assert_eq!(p.bank, 5_000);
}

#[test]
fn raise_within_bank() {
    let mut p = player_with(1_000, 200);
    let r = p.raise(700);
    assert_eq!(r, 700);
    assert_eq!(p.bank, 500);
    assert_eq!(p.bid, 700);
    assert_eq!(p.last_action, PlayerAction::Raise);
}

#[test]
fn raise_beyond_bank_is_refused() {
    let mut p = player_with(1_000, 200);
    let r = p.raise(1_201);
    assert_eq!(r, 0);
    assert_eq!(p.bank, 1_000);
    assert_eq!(p.bid, 200);
    assert_eq!(p.last_action, PlayerAction::Pending);
}

#[test]
fn raise_of_the_whole_bank() {
    let mut p = player_with(1_000, 200);
    assert_eq!(p.raise(1_200), 1_200);
    assert_eq!(p.bank, 0);
    assert_eq!(p.bid, 1_200);
}

#[test]
fn call_within_bank() {
    let mut p = player_with(1_000, 250);
    let r = p.call(750);
    assert_eq!(r, 500);
    assert_eq!(p.bank, 500);
    assert_eq!(p.bid, 750);
    assert_eq!(p.last_action, PlayerAction::Call);
}

#[test]
fn call_beyond_bank_is_refused() {
    let mut p = player_with(100, 0);
    let r = p.call(101);
    assert_eq!(r, 0);
    assert_eq!(p.bank, 100);
    assert_eq!(p.bid, 0);
    assert_eq!(p.last_action, PlayerAction::Pending);
}

#[test]
fn all_in_empties_the_bank() {
    let mut p = player_with(1_234, 66);
    let r = p.all_in();
    assert_eq!(r, 1_234);
    assert_eq!(p.bank, 0);
    assert_eq!(p.bid, 1_300);
    assert_eq!(p.last_action, PlayerAction::AllIn);
    assert!(!p.is_active());
    assert!(p.has_live_hand());
}

#[test]
fn check_and_fold() {
    let mut p = player_with(10, 0);
    p.check();
    assert_eq!(p.last_action, PlayerAction::Check);
    assert!(p.is_active());
    p.fold();
    assert_eq!(p.last_action, PlayerAction::Fold);
    assert!(!p.is_active());
    assert!(!p.has_live_hand());
    assert_eq!(p.bank, 10);
}

#[test]
fn broke_player_is_not_active() {
    let p = player_with(0, 0);
    assert!(!p.is_active());
    assert!(p.has_live_hand());
}

#[test]
fn blind_is_posted_or_capped_at_the_bank() {
    let mut p = player_with(1_000, 0);
    assert_eq!(p.post_blind(125), 125);
    assert_eq!(p.bank, 875);
    assert_eq!(p.bid, 125);
    assert_eq!(p.last_action, PlayerAction::Pending);
    let mut q = player_with(100, 0);
    assert_eq!(q.post_blind(250), 100);
    assert_eq!(q.bank, 0);
    assert_eq!(q.bid, 100);
    assert_eq!(q.last_action, PlayerAction::AllIn);
}

#[test]
fn respond_check_needs_a_matched_bid() {
    let mut p = player_with(1_000, 0);
    assert_eq!(p.respond(PlayerAction::Check, None, Some(250)), None);
    assert_eq!(p.last_action, PlayerAction::Pending);
    assert_eq!(p.respond(PlayerAction::Check, None, Some(0)), Some((PlayerAction::Check, 0)));
    let mut q = player_with(1_000, 250);
    assert_eq!(q.respond(PlayerAction::Check, None, Some(250)), Some((PlayerAction::Check, 0)));
}

#[test]
fn respond_call_and_raise() {
    let mut p = player_with(1_000, 125);
    assert_eq!(p.respond(PlayerAction::Call, None, Some(250)), Some((PlayerAction::Call, 125)));
    assert_eq!(p.bank, 875);
    assert_eq!(p.bid, 250);
    let mut q = player_with(1_000, 0);
    assert_eq!(q.respond(PlayerAction::Raise, Some(500), Some(250)), Some((PlayerAction::Raise, 750)));
    assert_eq!(q.bank, 250);
    assert_eq!(q.bid, 750);
    assert_eq!(q.last_action, PlayerAction::Raise);
}

#[test]
fn respond_refuses_what_the_bank_cannot_pay() {
    let mut p = player_with(100, 0);
    assert_eq!(p.respond(PlayerAction::Call, None, Some(250)), None);
    assert_eq!(p.respond(PlayerAction::Raise, Some(50), Some(60)), None);
    assert_eq!(p.respond(PlayerAction::Raise, Some(u64::MAX), Some(0)), None);
    assert_eq!(p.respond(PlayerAction::Raise, None, Some(0)), None);
    assert_eq!(p.respond(PlayerAction::Pending, None, Some(0)), None);
    assert_eq!(p.bank, 100);
    assert_eq!(p.bid, 0);
    assert_eq!(p.last_action, PlayerAction::Pending);
    assert_eq!(p.respond(PlayerAction::AllIn, None, Some(250)), Some((PlayerAction::AllIn, 100)));
    assert_eq!(p.bank, 0);
}

#[test]
fn respond_keeps_fold_and_all_in() {
    let mut p = player_with(100, 0);
    p.fold();
    assert_eq!(p.respond(PlayerAction::Call, None, Some(50)), Some((PlayerAction::Fold, 0)));
    assert_eq!(p.bank, 100);
    let mut q = player_with(100, 0);
    q.all_in();
    assert_eq!(q.respond(PlayerAction::Raise, Some(5), Some(50)), Some((PlayerAction::AllIn, 0)));
}

#[test]
fn amounts_in_chips() {
    assert_eq!(parse_amount(b"0.25"), Some(250));
    assert_eq!(parse_amount(b"0.125"), Some(125));
    assert_eq!(parse_amount(b"12"), Some(12_000));
    assert_eq!(parse_amount(b"3.5"), Some(3_500));
    assert_eq!(parse_amount(b"007.05"), Some(7_050));
    assert_eq!(parse_amount(b"18446744073709551.615"), Some(u64::MAX));
    assert_eq!(parse_amount(b"18446744073709551.616"), None);
    assert_eq!(parse_amount(b"99999999999999999999"), None);
    assert_eq!(parse_amount(b"1.2345"), None);
    assert_eq!(parse_amount(b"5."), None);
    assert_eq!(parse_amount(b".5"), None);
    assert_eq!(parse_amount(b"."), None);
    assert_eq!(parse_amount(b""), None);
    assert_eq!(parse_amount(b"1.2.3"), None);
    assert_eq!(parse_amount(b"-1"), None);
    assert_eq!(parse_amount(b"1e3"), None);
}

#[test]
fn commands_typed_at_the_prompt() {
    assert_eq!(parse_command(b"fold"), Some((PlayerAction::Fold, None)));
    assert_eq!(parse_command(b"  Check\n"), Some((PlayerAction::Check, None)));
    assert_eq!(parse_command(b"CALL\r\n"), Some((PlayerAction::Call, None)));
    assert_eq!(parse_command(b"all-in"), Some((PlayerAction::AllIn, None)));
    assert_eq!(parse_command(b"fold now"), Some((PlayerAction::Fold, None)));
    assert_eq!(parse_command(b"raise 0.5\n"), Some((PlayerAction::Raise, Some(500))));
    assert_eq!(parse_command(b"Raise 12"), Some((PlayerAction::Raise, Some(12_000))));
    assert_eq!(parse_command(b"raise"), None);
    assert_eq!(parse_command(b"raise "), None);
    assert_eq!(parse_command(b"raise 1 2"), None);
    assert_eq!(parse_command(b"raise  1"), None);
    assert_eq!(parse_command(b"raise x"), None);
    assert_eq!(parse_command(b"allin"), None);
    assert_eq!(parse_command(b""), None);
    assert_eq!(parse_command(b"   "), None);
    assert_eq!(parse_command(b"bet 5"), None);
}
