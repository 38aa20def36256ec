use rust_deck::deck::{Card, Rank};
use rust_deck::game::{Game, GameState, Step, BLIND};
use rust_deck::player::PlayerAction;

fn total_chips(game: &Game) -> u64 {
    game.players.iter().map(|p| p.bank).sum::<u64>() + game.pot
}

#[test]
fn new_table_seats_every_id_once() {
    let game = Game::new(12);
    assert_eq!(game.players.len(), 12);
    let mut ids: Vec<u8> = game.players.iter().map(|p| p.id).collect();
    ids.sort();
    assert_eq!(ids, (0..12).collect::<Vec<u8>>());
    for p in game.players.iter() {
        assert_eq!(p.name, format!("Player {}", p.id));
        assert_eq!(p.bank, 100_000);
    }
    assert_eq!(game.state, GameState::PreFlop);
    assert_eq!(game.blind, 250);
    assert_eq!(game.pot, 0);
}

#[test]
fn heads_up_blinds_after_start() {
    let mut game = Game::new(2);
    game.start();
    assert_eq!(game.state, GameState::PreFlop);
    assert_eq!(game.pot, 375);
    assert_eq!(game.players[0].bid, 125);
    assert_eq!(game.players[1].bid, 250);
    assert_eq!(game.players[0].bank, 100_000 - 125);
    assert_eq!(game.players[1].bank, 100_000 - 250);
    assert_eq!(game.current_bid, 250);
    assert_eq!(game.turn, 0);
    assert_eq!(game.deck.dealt, 4);
    for p in game.players.iter() {
        assert!(p.hand.cards[0].rank != Rank::Unset);
        assert!(p.hand.cards[1].rank != Rank::Unset);
        assert_eq!(p.last_action, PlayerAction::Pending);
    }
    assert_eq!(game.community.cards, [Card::blank(); 5]);
}

#[test]
fn three_players_start_after_the_blinds() {
    let mut game = Game::new(3);
    game.start();
    assert_eq!(game.turn, 2);
    assert_eq!(game.pot, 375);
    assert_eq!(game.players[2].bid, 0);
    assert_eq!(game.deck.dealt, 6);
}

#[test]
fn button_moves_on_each_hand() {
    let mut game = Game::new(3);
    let first = game.players[0].id;
    game.start();
    assert_eq!(game.players[2].id, first);
}

#[test]
fn table_with_one_player_closes() {
    let mut game = Game::new(1);
    game.start();
    assert_eq!(game.state, GameState::Closed);
    assert_eq!(game.advance_state(), None);
    assert_eq!(game.state, GameState::Closed);
    let mut empty = Game::new(0);
    empty.start();
    assert_eq!(empty.state, GameState::Closed);
}

#[test]
fn check_against_a_bid_is_refused() {
    let mut game = Game::new(2);
    game.start();
    assert_eq!(game.act(PlayerAction::Check, None), None);
    assert_eq!(game.turn, 0);
    assert_eq!(game.pot, 375);
    assert_eq!(game.act(PlayerAction::Raise, Some(200_000)), None);
}

#[test]
fn call_and_check_open_the_flop() {
    let mut game = Game::new(2);
    game.start();
    assert!(game.awaits_action());
    assert_eq!(game.act(PlayerAction::Call, None), Some((PlayerAction::Call, 125)));
    assert_eq!(game.pot, 500);
    assert_eq!(game.turn, 1);
    assert!(!game.betting_complete());
    assert_eq!(game.act(PlayerAction::Check, None), Some((PlayerAction::Check, 0)));
    assert!(game.betting_complete());
    assert_eq!(game.advance_state(), None);
    assert_eq!(game.state, GameState::Flop);
    assert_eq!(game.current_bid, 0);
    assert_eq!(game.turn, 0);
    assert_eq!(game.deck.dealt, 7);
    for i in 0..3 {
        assert!(game.community.cards[i].rank != Rank::Unset);
    }
    assert_eq!(game.community.cards[3], Card::blank());
    for p in game.players.iter() {
        assert_eq!(p.bid, 0);
        assert_eq!(p.last_action, PlayerAction::Pending);
    }
    assert_eq!(game.pot, 500);
}

#[test]
fn raise_reopens_the_round() {
    let mut game = Game::new(2);
    game.start();
    game.act(PlayerAction::Call, None);
    game.act(PlayerAction::Check, None);
    assert!(game.betting_complete());
    game.advance_state();
    game.act(PlayerAction::Check, None);
    assert_eq!(game.act(PlayerAction::Raise, Some(1_000)), Some((PlayerAction::Raise, 1_000)));
    assert_eq!(game.current_bid, 1_000);
    assert_eq!(game.players[0].last_action, PlayerAction::Pending);
    assert!(!game.betting_complete());
    assert_eq!(game.act(PlayerAction::Call, None), Some((PlayerAction::Call, 1_000)));
    assert!(!game.betting_complete());
    assert_eq!(game.act(PlayerAction::Check, None), Some((PlayerAction::Check, 0)));
    assert!(game.betting_complete());
    assert_eq!(game.pot, 2_500);
}

#[test]
fn fold_leaves_the_pot_to_the_other_player() {
    let mut game = Game::new(2);
    game.start();
    let small_id = game.players[0].id;
    let big_id = game.players[1].id;
    assert_eq!(game.act(PlayerAction::Fold, None), Some((PlayerAction::Fold, 0)));
    assert_eq!(game.act(PlayerAction::Check, None), Some((PlayerAction::Check, 0)));
    assert!(game.betting_complete());
    assert_eq!(game.count_live(), 1);
    assert_eq!(game.advance_state(), Some(1));
    assert_eq!(game.state, GameState::Showdown);
    assert_eq!(game.pot, 0);
    assert_eq!(game.players[1].id, big_id);
    assert_eq!(game.players[1].bank, 100_000 - 250 + 375);
    assert_eq!(game.players[0].id, small_id);
    assert_eq!(game.players[0].bank, 100_000 - 125);
    assert_eq!(total_chips(&game), 200_000);
}

#[test]
fn checked_down_hand_reaches_a_showdown() {
    let mut game = Game::new(2);
    game.start();
    game.act(PlayerAction::Call, None);
    game.act(PlayerAction::Check, None);
    for street in [GameState::Flop, GameState::Turn, GameState::River] {
        assert!(game.betting_complete());
        assert_eq!(game.advance_state(), None);
        assert_eq!(game.state, street);
        game.act(PlayerAction::Check, None);
        game.act(PlayerAction::Check, None);
    }
    assert!(game.betting_complete());
    for c in game.community.cards.iter() {
        assert!(c.rank != Rank::Unset);
    }
    let winner = game.advance_state().expect("a live hand wins");
    assert!(winner < 2);
    assert_eq!(game.state, GameState::Showdown);
    assert_eq!(game.pot, 0);
    assert_eq!(game.players[winner].bank, 100_000 - 250 + 500);
    assert_eq!(total_chips(&game), 200_000);
    assert_eq!(game.advance_state(), None);
    assert_eq!(game.state, GameState::PreFlop);
    assert_eq!(game.pot, 375);
}

#[test]
fn all_in_lifts_the_table_bid() {
    let mut game = Game::new(3);
    game.start();
    assert_eq!(game.turn, 2);
    assert_eq!(game.act(PlayerAction::AllIn, None), Some((PlayerAction::AllIn, 100_000)));
    assert_eq!(game.current_bid, 100_000);
    assert_eq!(game.pot, 100_375);
    assert!(!game.players[2].is_active());
    assert_eq!(game.turn, 0);
    assert_eq!(game.players[0].last_action, PlayerAction::Pending);
    assert_eq!(total_chips(&game), 300_000);
}

#[test]
fn skipping_an_inactive_seat() {
    let mut game = Game::new(3);
    game.start();
    game.act(PlayerAction::Fold, None);
    assert_eq!(game.turn, 0);
    game.act(PlayerAction::Call, None);
    game.act(PlayerAction::Check, None);
    assert_eq!(game.turn, 2);
    assert!(!game.awaits_action());
    game.next_turn();
    assert_eq!(game.turn, 0);
    assert!(game.betting_complete());
    assert_eq!(game.count_funded(), 3);
}

#[test]
fn deal_community_fills_the_next_blank_slots() {
    let mut game = Game::new(2);
    let top = game.deck.cards[0];
    game.deal_community(3);
    assert_eq!(game.community.cards[0], top);
    assert_eq!(game.community.cards[3], Card::blank());
    game.deal_community(1);
    assert_eq!(game.community.cards[3], game.deck.cards[3]);
    assert_eq!(game.deck.dealt, 4);
}

#[test]
fn payout_moves_the_pot() {
    let mut game = Game::new(2);
    game.start();
    game.act(PlayerAction::Fold, None);
    game.act(PlayerAction::Check, None);
    game.advance_state();
    assert_eq!(game.state, GameState::Showdown);
    game.pot = 1_500;
    let bank = game.players[0].bank;
    game.payout_player_idx(0);
    assert_eq!(game.players[0].bank, bank + 1_500);
    assert_eq!(game.pot, 0);
    assert_eq!(BLIND, 250);
}

#[test]
fn next_step_follows_the_table() {
    let mut game = Game::new(3);
    game.start();
    assert_eq!(game.next_step(), Step::Prompt);
    game.act(PlayerAction::Fold, None);
    game.act(PlayerAction::Call, None);
    game.act(PlayerAction::Check, None);
    assert_eq!(game.next_step(), Step::Advance);
    game.advance_state();
    assert_eq!(game.state, GameState::Flop);
    assert_eq!(game.next_step(), Step::Prompt);
    game.act(PlayerAction::Check, None);
    game.act(PlayerAction::Raise, Some(500));
    assert_eq!(game.turn, 2);
    assert_eq!(game.next_step(), Step::Pass);
    let mut lone = Game::new(1);
    lone.start();
    assert_eq!(lone.next_step(), Step::Finished);
}

#[test]
fn raise_of_the_whole_bank_counts_as_all_in() {
    let mut game = Game::new(2);
    game.start();
    assert_eq!(game.act(PlayerAction::Raise, Some(99_750)), Some((PlayerAction::Raise, 99_875)));
    assert_eq!(game.players[0].bank, 0);
    assert_eq!(game.players[0].last_action, PlayerAction::AllIn);
    assert_eq!(game.current_bid, 100_000);
    assert_eq!(game.act(PlayerAction::Fold, None), Some((PlayerAction::Fold, 0)));
    assert!(game.betting_complete());
    assert_eq!(game.next_step(), Step::Advance);
    assert_eq!(game.advance_state(), Some(0));
    assert_eq!(game.players[0].bank, 100_250);
}

#[test]
fn call_of_the_whole_bank_counts_as_all_in() {
    let mut game = Game::new(2);
    game.start();
    game.act(PlayerAction::AllIn, None);
    assert_eq!(game.act(PlayerAction::Call, None), Some((PlayerAction::Call, 99_750)));
    assert_eq!(game.players[1].bank, 0);
    assert_eq!(game.players[1].last_action, PlayerAction::AllIn);
    assert!(game.betting_complete());
}
