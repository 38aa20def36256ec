use vstd::prelude::*;
use crate::deck::{blank, new_deck_card, shuffle_in_place, Card, Community, Deck, Rank};
use crate::hand::{evaluate, hand_score, ScoringHands};
use crate::player::{response, Player, PlayerAction, DEFAULT_BANK};

verus! {

/// The phase of a hand. `Closed` is entered from `Showdown` once at most one
/// player has money left, and is never left.
#[derive(Copy, Clone, Debug, PartialEq, Eq, Structural)]
pub enum GameState {
    PreFlop,
    Flop,
    Turn,
    River,
    Showdown,
    Closed,
}

impl GameState {
    /// A phase in which players bet.
    pub open spec fn is_betting(self) -> bool {
        self == GameState::PreFlop || self == GameState::Flop || self == GameState::Turn || self
            == GameState::River
    }

    /// How many community cards are on the board during a betting phase.
    pub open spec fn board_size(self) -> int {
        match self {
            GameState::PreFlop => 0,
            GameState::Flop => 3,
            GameState::Turn => 4,
            _ => 5,
        }
    }
}

/// What the table needs next.
#[derive(Copy, Clone, Debug, PartialEq, Eq, Structural)]
pub enum Step {
    /// The table is closed: nothing more happens.
    Finished,
    /// Move to the next phase with `advance_state`.
    Advance,
    /// Ask the player whose turn it is for an action and pass it to `act`.
    Prompt,
    /// The player whose turn it is may not act: move on with `next_turn`.
    Pass,
}

/// The step a table in state `g` needs: once closed, nothing; in showdown or
/// when the betting round is over, the next phase; else the player whose turn
/// it is acts if able, or is passed over.
pub open spec fn step_of(g: Game) -> Step {
    if g.state == GameState::Closed {
        Step::Finished
    } else if g.state == GameState::Showdown || round_complete(g.players@) {
        Step::Advance
    } else if g.players@[g.turn as int].spec_is_active() {
        Step::Prompt
    } else {
        Step::Pass
    }
}

/// The blind unit of a new table: a quarter chip. The small blind is half of it.
pub const BLIND: u64 = 250;

/// The most players one deck serves: two cards each and five on the board.
pub const MAX_PLAYERS: usize = 23;

/// One table: the seats in playing order (the first seat posts the small
/// blind), the deck, the board, whose turn it is, the phase, the pot, the bid
/// each contesting player has to match in this betting round, and the blind unit.
pub struct Game {
    pub players: Vec<Player>,
    pub deck: Deck,
    pub community: Community,
    pub turn: usize,
    pub state: GameState,
    pub pot: u64,
    pub current_bid: u64,
    pub blind: u64,
}

/// Sum of the banks of `players`.
pub open spec fn bank_sum(players: Seq<Player>) -> int
    decreases players.len(),
{
    if players.len() == 0 {
        0
    } else {
        bank_sum(players.drop_last()) + players.last().bank
    }
}

/// Number of players in `players` of whom `f` holds.
pub open spec fn count_where(players: Seq<Player>, f: spec_fn(Player) -> bool) -> nat
    decreases players.len(),
{
    if players.len() == 0 {
        0
    } else {
        count_where(players.drop_last(), f) + if f(players.last()) {
            1nat
        } else {
            0nat
        }
    }
}

/// Number of players who have not folded.
pub open spec fn live_count(players: Seq<Player>) -> nat {
    count_where(players, |p: Player| p.spec_has_live_hand())
}

/// Number of players with money left.
pub open spec fn funded_count(players: Seq<Player>) -> nat {
    count_where(players, |p: Player| p.bank > 0)
}

/// Slots below `size` hold dealt cards, the others are blank.
pub open spec fn board_holds(cards: Seq<Card>, size: int) -> bool {
    &&& cards.len() == 5
    &&& forall|i: int| 0 <= i < size ==> (#[trigger] cards[i]).is_real()
    &&& forall|i: int| size <= i < 5 ==> #[trigger] cards[i] == blank()
}

/// A betting round is over when every player who has not folded has checked,
/// called or gone all in.
pub open spec fn round_complete(players: Seq<Player>) -> bool {
    forall|i: int|
        0 <= i < players.len() && (#[trigger] players[i]).spec_has_live_hand() ==> {
            ||| players[i].last_action == PlayerAction::Check
            ||| players[i].last_action == PlayerAction::Call
            ||| players[i].last_action == PlayerAction::Fold
            ||| players[i].last_action == PlayerAction::AllIn
        }
}

/// `after` is `before` where every player but the one at `t` who may still act
/// has to act again.
pub open spec fn reopened(before: Seq<Player>, after: Seq<Player>, t: int) -> bool {
    &&& after.len() == before.len()
    &&& after[t] == before[t]
    &&& forall|j: int|
        0 <= j < before.len() && j != t ==> #[trigger] after[j] == if before[j].spec_is_active() {
            before[j].acted(PlayerAction::Pending)
        } else {
            before[j]
        }
}

/// The action recorded for a player who chose `a` and has `bank` left after it:
/// a raise or call that empties the bank counts as going all in.
pub open spec fn recorded_action(a: PlayerAction, bank: int) -> PlayerAction {
    if (a == PlayerAction::Raise || a == PlayerAction::Call) && bank == 0 {
        PlayerAction::AllIn
    } else {
        a
    }
}

/// `h` is `g` after the player whose turn it is took action `a`, moving `moved`
/// from bank to pot (recorded as all in when that empties the bank): a raise, or
/// a bid above the table bid, lifts the table bid and makes everyone else who
/// may still act answer it; the turn passes on.
pub open spec fn applied(g: Game, h: Game, a: PlayerAction, moved: int) -> bool {
    let t = g.turn as int;
    let p = g.players@[t].paid(moved, recorded_action(a, g.players@[t].bank - moved));
    let lifted = p.bid > g.current_bid;
    let before = g.players@.update(t, p);
    &&& h.pot == g.pot + moved
    &&& h.current_bid == if lifted {
        p.bid
    } else {
        g.current_bid
    }
    &&& if a == PlayerAction::Raise || lifted {
        reopened(before, h.players@, t)
    } else {
        h.players@ == before
    }
    &&& h.turn == (t + 1) % (g.players@.len() as int)
    &&& h.state == g.state
    &&& h.deck == g.deck
    &&& h.community == g.community
    &&& h.blind == g.blind
}

/// `g` and `h` are the same table.
pub open spec fn same_table(g: Game, h: Game) -> bool {
    &&& h.players@ == g.players@
    &&& h.pot == g.pot
    &&& h.current_bid == g.current_bid
    &&& h.turn == g.turn
    &&& h.state == g.state
    &&& h.deck == g.deck
    &&& h.community == g.community
    &&& h.blind == g.blind
}

/// `h` is `g` with the pot paid to player `w`.
pub open spec fn paid_out(g: Game, h: Game, w: int) -> bool {
    &&& h.players@ == g.players@.update(w, Player { bank: (g.players@[w].bank + g.pot) as u64, ..g.players@[w] })
    &&& h.pot == 0
    &&& h.deck == g.deck
    &&& h.community == g.community
    &&& h.turn == g.turn
    &&& h.state == g.state
    &&& h.current_bid == g.current_bid
    &&& h.blind == g.blind
}

/// The first blank slot of the board at `i` or after, or 0 when there is none.
pub open spec fn first_blank_from(cards: Seq<Card>, i: int) -> int
    decreases 5 - i,
{
    if i >= 5 {
        0
    } else if cards[i].rank == Rank::Unset {
        i
    } else {
        first_blank_from(cards, i + 1)
    }
}

/// Where `deal_community` puts the next card: the first blank slot, or slot 0
/// when the board is full.
pub open spec fn next_slot(cards: Seq<Card>) -> int {
    first_blank_from(cards, 0)
}

/// `after` is the board `before` with `count` cards of `deck` from position
/// `from` laid into the slots from `k` on.
pub open spec fn laid(before: Seq<Card>, after: Seq<Card>, k: int, count: int, deck: Seq<Card>, from: int) -> bool {
    &&& after.len() == 5
    &&& forall|i: int|
        0 <= i < 5 ==> #[trigger] after[i] == if k <= i < k + count {
            deck[from + i - k]
        } else {
            before[i]
        }
}

/// The players at the start of a new betting round: no bid, and whoever may
/// still act has to act again.
pub open spec fn street_reset(before: Seq<Player>, after: Seq<Player>) -> bool {
    &&& after.len() == before.len()
    &&& forall|i: int|
        0 <= i < before.len() ==> #[trigger] after[i] == reopened_seat(before[i])
}

/// A player at the start of a betting round: no bid, and when the player may
/// still act, no action yet.
pub open spec fn reopened_seat(p: Player) -> Player {
    Player {
        bid: 0,
        last_action: if p.spec_is_active() {
            PlayerAction::Pending
        } else {
            p.last_action
        },
        ..p
    }
}

/// The value of a player's hand on the board `board`.
pub open spec fn score(p: Player, board: Seq<Card>) -> (ScoringHands, int) {
    hand_score(p.hand.cards@, board)
}

/// Hand value `a` beats `b`: a stronger category, or the same category and a
/// higher tie-break rank.
pub open spec fn outranks(a: (ScoringHands, int), b: (ScoringHands, int)) -> bool {
    ||| a.0.spec_strength() > b.0.spec_strength()
    ||| a.0.spec_strength() == b.0.spec_strength() && a.1 > b.1
}

/// Player `w` wins the showdown on `board`: a live hand that no live hand
/// beats, and that beats every live hand seated before it (ties go to the first seat).
pub open spec fn is_winner(players: Seq<Player>, board: Seq<Card>, w: int) -> bool {
    &&& 0 <= w < players.len()
    &&& players[w].spec_has_live_hand()
    &&& forall|j: int|
        0 <= j < players.len() && (#[trigger] players[j]).spec_has_live_hand() ==> !outranks(
            score(players[j], board),
            score(players[w], board),
        )
    &&& forall|j: int|
        0 <= j < w && (#[trigger] players[j]).spec_has_live_hand() ==> outranks(
            score(players[w], board),
            score(players[j], board),
        )
}

/// `w` is the first player who has not folded.
pub open spec fn is_first_live(players: Seq<Player>, w: int) -> bool {
    &&& 0 <= w < players.len()
    &&& players[w].spec_has_live_hand()
    &&& forall|j: int| 0 <= j < w ==> !(#[trigger] players[j]).spec_has_live_hand()
}

/// No player has a live hand.
pub open spec fn none_live(players: Seq<Player>) -> bool {
    forall|j: int| 0 <= j < players.len() ==> !(#[trigger] players[j]).spec_has_live_hand()
}

/// `h` is `g` after the pot went to the hand's winner `winner` (if any player
/// is left to win it), the hand now in showdown.
pub open spec fn settled(g: Game, h: Game, winner: Option<usize>) -> bool {
    &&& h.state == GameState::Showdown
    &&& match winner {
        Some(w) => {
            &&& h.players@ == g.players@.update(
                w as int,
                Player { bank: (g.players@[w as int].bank + g.pot) as u64, ..g.players@[w as int] },
            )
            &&& h.pot == 0
        },
        None => h.players@ == g.players@ && h.pot == g.pot,
    }
    &&& h.deck == g.deck
    &&& h.community == g.community
    &&& h.turn == g.turn
    &&& h.current_bid == g.current_bid
    &&& h.blind == g.blind
}

/// `h` is `g` after the next betting round opened: `count` more cards on the
/// board, bids cleared, the table bid back to 0, the turn at the first seat.
pub open spec fn street_opened(g: Game, h: Game, count: int, next: GameState) -> bool {
    &&& h.state == next
    &&& laid(g.community.cards@, h.community.cards@, next_slot(g.community.cards@), count, g.deck@, g.deck.dealt as int)
    &&& h.deck@ == g.deck@
    &&& h.deck.dealt == g.deck.dealt + count
    &&& street_reset(g.players@, h.players@)
    &&& h.pot == g.pot
    &&& h.current_bid == 0
    &&& h.turn == 0
    &&& h.blind == g.blind
}

/// The seats after the dealer button moved on: the first seat goes to the end.
pub open spec fn rotated(players: Seq<Player>) -> Seq<Player> {
    if players.len() == 0 {
        players
    } else {
        players.subrange(1, players.len() as int).push(players[0])
    }
}

/// The first seat at `start` or after whose player has money left, or the
/// number of seats when there is none.
pub open spec fn first_funded_from(players: Seq<Player>, start: int) -> int
    decreases players.len() - start,
{
    if start >= players.len() {
        players.len() as int
    } else if players[start].bank > 0 {
        start
    } else {
        first_funded_from(players, start + 1)
    }
}

/// The seat that posts the small blind: the first with money left.
pub open spec fn small_blind_seat(players: Seq<Player>) -> int {
    first_funded_from(players, 0)
}

/// The seat that posts the big blind: the next with money left.
pub open spec fn big_blind_seat(players: Seq<Player>) -> int {
    first_funded_from(players, small_blind_seat(players) + 1)
}

/// What a blind of `amount` costs a player with bank `bank`: the whole bank
/// when it holds less.
pub open spec fn blind_cost(bank: u64, amount: u64) -> u64 {
    if amount < bank {
        amount
    } else {
        bank
    }
}

/// What the player in seat `i` posts as a blind with blind unit `blind`.
pub open spec fn posted(players: Seq<Player>, i: int, blind: u64) -> u64 {
    if i == small_blind_seat(players) {
        blind_cost(players[i].bank, blind / 2)
    } else if i == big_blind_seat(players) {
        blind_cost(players[i].bank, blind)
    } else {
        0
    }
}

/// `after` is `before` at the start of a hand: a player with money gets the
/// two cards of `deck` at `from` and pays `posted` of it into the bid (going all
/// in when that empties the bank); a player without money sits the hand out,
/// folded and without cards.
pub open spec fn dealt_seat(before: Player, after: Player, deck: Seq<Card>, from: int, posted: u64) -> bool {
    &&& after.id == before.id
    &&& after.name == before.name
    &&& after.bank == before.bank - posted
    &&& after.bid == posted
    &&& if before.bank > 0 {
        &&& after.hand.cards@ == deck.subrange(from, from + 2)
        &&& after.hand.value == (ScoringHands::Unscored, 0u8)
        &&& after.last_action == if posted == before.bank {
            PlayerAction::AllIn
        } else {
            PlayerAction::Pending
        }
    } else {
        &&& after.hand.is_fresh()
        &&& after.last_action == PlayerAction::Fold
    }
}

/// `h` is `g` after a new hand started: the button moved on, the deck
/// reshuffled, the board cleared, two cards dealt to every player with money,
/// the small and big blinds posted into the pot, the table bid at the larger
/// of them, and the turn at the first seat heads-up or else at the third.
pub open spec fn hand_started(g: Game, h: Game) -> bool {
    let seats = rotated(g.players@);
    let small = small_blind_seat(seats);
    let big = big_blind_seat(seats);
    let sb = blind_cost(seats[small].bank, g.blind / 2);
    let bb = blind_cost(seats[big].bank, g.blind);
    &&& h.state == GameState::PreFlop
    &&& h.deck.wf()
    &&& h.deck@.to_multiset() == g.deck@.to_multiset()
    &&& h.deck.dealt == 2 * funded_count(seats)
    &&& forall|i: int| 0 <= i < 5 ==> #[trigger] h.community.cards@[i] == blank()
    &&& h.players@.len() == seats.len()
    &&& forall|i: int|
        0 <= i < seats.len() ==> dealt_seat(
            seats[i],
            #[trigger] h.players@[i],
            h.deck@,
            2 * funded_count(seats.take(i)) as int,
            posted(seats, i, g.blind),
        )
    &&& h.pot == sb + bb
    &&& h.current_bid == if sb < bb {
        bb
    } else {
        sb
    }
    &&& h.turn == if funded_count(seats) == 2 {
        0int
    } else {
        2int
    }
    &&& h.blind == g.blind
}

/// `h` is `g` closed for good: nothing else changed.
pub open spec fn closed(g: Game, h: Game) -> bool {
    &&& h.state == GameState::Closed
    &&& h.players@ == g.players@
    &&& h.pot == g.pot
    &&& h.current_bid == g.current_bid
    &&& h.turn == g.turn
    &&& h.deck == g.deck
    &&& h.community == g.community
    &&& h.blind == g.blind
}

/// What `advance_state` does from each phase. From pre-flop, flop and turn it
/// opens the next betting round with three, one and one more cards, unless at
/// most one player has not folded: then that player takes the pot. From the
/// river the best live hand takes the pot. From showdown a new hand starts, or
/// the table closes once at most one player has money. A closed table stays.
pub open spec fn advanced(g: Game, h: Game, r: Option<usize>) -> bool {
    let uncontested = live_count(g.players@) <= 1;
    let winner_is_first_live = match r {
        Some(w) => is_first_live(g.players@, w as int),
        None => none_live(g.players@),
    };
    match g.state {
        GameState::PreFlop => if uncontested {
            settled(g, h, r) && winner_is_first_live
        } else {
            street_opened(g, h, 3, GameState::Flop) && r is None
        },
        GameState::Flop => if uncontested {
            settled(g, h, r) && winner_is_first_live
        } else {
            street_opened(g, h, 1, GameState::Turn) && r is None
        },
        GameState::Turn => if uncontested {
            settled(g, h, r) && winner_is_first_live
        } else {
            street_opened(g, h, 1, GameState::River) && r is None
        },
        GameState::River => {
            &&& settled(g, h, r)
            &&& match r {
                Some(w) => is_winner(g.players@, g.community.cards@, w as int),
                None => none_live(g.players@),
            }
        },
        GameState::Showdown => {
            &&& r is None
            &&& if funded_count(g.players@) <= 1 {
                closed(g, h)
            } else {
                hand_started(g, h)
            }
        },
        GameState::Closed => same_table(g, h) && r is None,
    }
}

/// The decimal digit `d` as a character.
pub open spec fn digit_char(d: nat) -> char {
    if d == 0 {
        '0'
    } else if d == 1 {
        '1'
    } else if d == 2 {
        '2'
    } else if d == 3 {
        '3'
    } else if d == 4 {
        '4'
    } else if d == 5 {
        '5'
    } else if d == 6 {
        '6'
    } else if d == 7 {
        '7'
    } else if d == 8 {
        '8'
    } else {
        '9'
    }
}

/// `n` written in decimal.
pub open spec fn decimal(n: nat) -> Seq<char>
    decreases n,
{
    if n < 10 {
        seq![digit_char(n)]
    } else {
        decimal(n / 10) + seq![digit_char(n % 10)]
    }
}

/// The name of the seat with id `id`: "Player " and the id in decimal.
pub open spec fn seat_name_of(id: u8) -> Seq<char> {
    "Player "@ + decimal(id as nat)
}

/// The player a new table seats with id `id`.
pub open spec fn seated(p: Player, id: u8) -> bool {
    &&& p.id == id
    &&& p.name@ == seat_name_of(id)
    &&& p.bank == DEFAULT_BANK
    &&& p.at_hand_start()
}

proof fn lemma_bank_sum_push(s: Seq<Player>, p: Player)
    ensures
        bank_sum(s.push(p)) == bank_sum(s) + p.bank,
{
    assert(s.push(p).drop_last() =~= s);
}

proof fn lemma_bank_sum_update(s: Seq<Player>, i: int, p: Player)
    requires
        0 <= i < s.len(),
    ensures
        bank_sum(s.update(i, p)) == bank_sum(s) - s[i].bank + p.bank,
        s[i].bank <= bank_sum(s),
    decreases s.len(),
{
    if i < s.len() - 1 {
        lemma_bank_sum_update(s.drop_last(), i, p);
        assert(s.update(i, p).drop_last() =~= s.drop_last().update(i, p));
    } else {
        assert(s.update(i, p).drop_last() =~= s.drop_last());
    }
    lemma_bank_sum_nonneg(s.drop_last());
}

proof fn lemma_bank_sum_nonneg(s: Seq<Player>)
    ensures
        bank_sum(s) >= 0,
    decreases s.len(),
{
    if s.len() > 0 {
        lemma_bank_sum_nonneg(s.drop_last());
    }
}

proof fn lemma_bank_sum_same_banks(a: Seq<Player>, b: Seq<Player>)
    requires
        a.len() == b.len(),
        forall|i: int| 0 <= i < a.len() ==> (#[trigger] a[i]).bank == b[i].bank,
    ensures
        bank_sum(a) == bank_sum(b),
    decreases a.len(),
{
    if a.len() > 0 {
        lemma_bank_sum_same_banks(a.drop_last(), b.drop_last());
    }
}

proof fn lemma_bank_sum_front(s: Seq<Player>)
    requires
        s.len() > 0,
    ensures
        bank_sum(s) == s[0].bank + bank_sum(s.subrange(1, s.len() as int)),
    decreases s.len(),
{
    if s.len() > 1 {
        lemma_bank_sum_front(s.drop_last());
        assert(s.subrange(1, s.len() as int).drop_last() =~= s.drop_last().subrange(
            1,
            s.len() - 1,
        ));
    } else {
        assert(s.drop_last() =~= Seq::<Player>::empty());
        assert(s.subrange(1, s.len() as int) =~= Seq::<Player>::empty());
    }
}

proof fn lemma_count_push(s: Seq<Player>, p: Player, f: spec_fn(Player) -> bool)
    ensures
        count_where(s.push(p), f) == count_where(s, f) + if f(p) {
            1nat
        } else {
            0nat
        },
{
    assert(s.push(p).drop_last() =~= s);
}

proof fn lemma_count_bound(s: Seq<Player>, f: spec_fn(Player) -> bool)
    ensures
        count_where(s, f) <= s.len(),
    decreases s.len(),
{
    if s.len() > 0 {
        lemma_count_bound(s.drop_last(), f);
    }
}

proof fn lemma_next_slot(cards: Seq<Card>, size: int)
    requires
        board_holds(cards, size),
        0 <= size < 5,
    ensures
        next_slot(cards) == size,
{
    lemma_first_blank_from(cards, size, 0);
}

proof fn lemma_first_blank_from(cards: Seq<Card>, size: int, j: int)
    requires
        board_holds(cards, size),
        0 <= j <= size < 5,
    ensures
        first_blank_from(cards, j) == size,
    decreases size - j,
{
    if j < size {
        assert(cards[j].is_real());
        lemma_first_blank_from(cards, size, j + 1);
    } else {
        assert(cards[j] == blank());
    }
}

proof fn lemma_count_front(s: Seq<Player>, f: spec_fn(Player) -> bool)
    requires
        s.len() > 0,
    ensures
        count_where(s, f) == count_where(s.subrange(1, s.len() as int), f) + if f(s[0]) {
            1nat
        } else {
            0nat
        },
    decreases s.len(),
{
    if s.len() > 1 {
        lemma_count_front(s.drop_last(), f);
        assert(s.subrange(1, s.len() as int).drop_last() =~= s.drop_last().subrange(
            1,
            s.len() - 1,
        ));
    } else {
        assert(s.drop_last() =~= Seq::<Player>::empty());
        assert(s.subrange(1, s.len() as int) =~= Seq::<Player>::empty());
    }
}

proof fn lemma_rotated(s: Seq<Player>)
    ensures
        rotated(s).len() == s.len(),
        bank_sum(rotated(s)) == bank_sum(s),
        funded_count(rotated(s)) == funded_count(s),
{
    if s.len() > 0 {
        let rest = s.subrange(1, s.len() as int);
        lemma_bank_sum_front(s);
        lemma_bank_sum_push(rest, s[0]);
        lemma_count_front(s, |p: Player| p.bank > 0);
        lemma_count_push(rest, s[0], |p: Player| p.bank > 0);
    }
}

proof fn lemma_two_funded(s: Seq<Player>)
    requires
        funded_count(s) >= 2,
    ensures
        exists|i: int, j: int| 0 <= i < j < s.len() && #[trigger] s[i].bank > 0 && #[trigger] s[j].bank > 0,
    decreases s.len(),
{
    let d = s.drop_last();
    if s.last().bank > 0 {
        lemma_one_funded(d);
        let i = choose|i: int| 0 <= i < d.len() && #[trigger] d[i].bank > 0;
        assert(s[i].bank > 0 && s[s.len() - 1].bank > 0);
    } else {
        lemma_two_funded(d);
        let (i, j) = choose|i: int, j: int| 0 <= i < j < d.len() && #[trigger] d[i].bank > 0 && #[trigger] d[j].bank > 0;
        assert(s[i].bank > 0 && s[j].bank > 0);
    }
}

proof fn lemma_one_funded(s: Seq<Player>)
    requires
        funded_count(s) >= 1,
    ensures
        exists|i: int| 0 <= i < s.len() && #[trigger] s[i].bank > 0,
    decreases s.len(),
{
    let d = s.drop_last();
    if s.last().bank > 0 {
        assert(s[s.len() - 1].bank > 0);
    } else {
        lemma_one_funded(d);
        let i = choose|i: int| 0 <= i < d.len() && #[trigger] d[i].bank > 0;
        assert(s[i].bank > 0);
    }
}

proof fn lemma_first_funded_from(s: Seq<Player>, start: int, k: int)
    requires
        0 <= start <= k < s.len(),
        s[k].bank > 0,
    ensures
        start <= first_funded_from(s, start) <= k,
        s[first_funded_from(s, start)].bank > 0,
        forall|j: int| start <= j < first_funded_from(s, start) ==> #[trigger] s[j].bank == 0,
    decreases s.len() - start,
{
    if s[start].bank == 0 {
        lemma_first_funded_from(s, start + 1, k);
    }
}

proof fn lemma_blind_seats(s: Seq<Player>)
    requires
        funded_count(s) >= 2,
    ensures
        0 <= small_blind_seat(s) < big_blind_seat(s) < s.len(),
        s[small_blind_seat(s)].bank > 0,
        s[big_blind_seat(s)].bank > 0,
        forall|j: int| 0 <= j < small_blind_seat(s) ==> #[trigger] s[j].bank == 0,
        forall|j: int| small_blind_seat(s) < j < big_blind_seat(s) ==> #[trigger] s[j].bank == 0,
{
    lemma_two_funded(s);
    let (i, j) = choose|i: int, j: int| 0 <= i < j < s.len() && #[trigger] s[i].bank > 0 && #[trigger] s[j].bank > 0;
    lemma_first_funded_from(s, 0, i);
    lemma_first_funded_from(s, small_blind_seat(s) + 1, j);
}

proof fn lemma_same_banks_same_seats(a: Seq<Player>, b: Seq<Player>, start: int)
    requires
        a.len() == b.len(),
        0 <= start,
        forall|i: int| start <= i < a.len() ==> (#[trigger] a[i]).bank == b[i].bank,
    ensures
        first_funded_from(a, start) == first_funded_from(b, start),
    decreases a.len() - start,
{
    if start < a.len() {
        lemma_same_banks_same_seats(a, b, start + 1);
    }
}

proof fn lemma_same_banks_same_funded(a: Seq<Player>, b: Seq<Player>)
    requires
        a.len() == b.len(),
        forall|i: int| 0 <= i < a.len() ==> (#[trigger] a[i]).bank == b[i].bank,
    ensures
        funded_count(a) == funded_count(b),
    decreases a.len(),
{
    if a.len() > 0 {
        lemma_same_banks_same_funded(a.drop_last(), b.drop_last());
    }
}

/// An accepted raise makes every other player who may still act act again. A
/// raiser with money left has not checked, called, folded or gone all in, so the
/// betting round stays open; a raise of the whole bank counts as going all in.
pub proof fn raise_reopens_law(g: Game, h: Game, moved: int)
    requires
        g.wf(),
        g.state.is_betting(),
        g.players@.len() > 0,
        applied(g, h, PlayerAction::Raise, moved),
    ensures
        forall|j: int|
            0 <= j < g.players@.len() && j != g.turn && (#[trigger] g.players@[j]).spec_is_active()
                ==> h.players@[j].last_action == PlayerAction::Pending,
        moved < g.players@[g.turn as int].bank ==> !round_complete(h.players@),
        moved == g.players@[g.turn as int].bank ==> h.players@[g.turn as int].last_action
            == PlayerAction::AllIn,
{
    let t = g.turn as int;
    if moved < g.players@[t].bank {
        assert(h.players@[t].last_action == PlayerAction::Raise);
        assert(h.players@[t].spec_has_live_hand());
    }
}

/// The decimal digit `d` as a string.
fn digit_str(d: u8) -> (r: &'static str)
    requires
        d < 10,
    ensures
        r@ == seq![digit_char(d as nat)],
{
    proof {
        reveal_strlit("0");
        reveal_strlit("1");
        reveal_strlit("2");
        reveal_strlit("3");
        reveal_strlit("4");
        reveal_strlit("5");
        reveal_strlit("6");
        reveal_strlit("7");
        reveal_strlit("8");
        reveal_strlit("9");
    }
    match d {
        0 => "0",
        1 => "1",
        2 => "2",
        3 => "3",
        4 => "4",
        5 => "5",
        6 => "6",
        7 => "7",
        8 => "8",
        _ => "9",
    }
}

/// "Player " followed by `id` in decimal.
fn seat_name(id: u8) -> (r: String)
    ensures
        r@ == seat_name_of(id),
{
    let mut name = String::from_str("Player ");
    if id >= 100 {
        name.append(digit_str(id / 100));
    }
    if id >= 10 {
        name.append(digit_str((id / 10) % 10));
    }
    name.append(digit_str(id % 10));
    proof {
        let n = id as nat;
        if n >= 100 {
            assert(decimal(n / 100) == seq![digit_char(n / 100)]);
            assert(decimal(n / 10) == decimal(n / 100) + seq![digit_char((n / 10) % 10)]);
        } else if n >= 10 {
            assert(decimal(n / 10) == seq![digit_char(n / 10)]);
        }
        assert(name@ =~= seat_name_of(id));
    }
    name
}

impl Game {
    /// The table is consistent: few enough players for one deck, the turn on a
    /// seat, the money bounded, and while betting, every bid at most the table
    /// bid, the table bid at most the pot, the board as large as the phase says,
    /// and enough cards left for the rest of the board.
    pub open spec fn wf(&self) -> bool {
        &&& self.players@.len() <= MAX_PLAYERS
        &&& self.players@.len() > 0 ==> self.turn < self.players@.len()
        &&& self.deck.wf()
        &&& bank_sum(self.players@) + self.pot <= u64::MAX
        &&& self.state.is_betting() ==> {
            &&& self.current_bid <= self.pot
            &&& forall|i: int|
                0 <= i < self.players@.len() ==> (#[trigger] self.players@[i]).bid
                    <= self.current_bid
            &&& board_holds(self.community.cards@, self.state.board_size())
            &&& self.deck.dealt + 5 - self.state.board_size() <= 52
        }
    }

    /// A table of `player_count` players with one hundred chips each, seated in
    /// random order, a shuffled deck, an empty board and a blind unit of a
    /// quarter chip. Ids run from 0 and each seat is named "Player <id>".
    pub fn new(player_count: u8) -> (r: Game)
        requires
            player_count as usize <= MAX_PLAYERS,
        ensures
            r.wf(),
            r.players@.len() == player_count,
            r.players@.map_values(|p: Player| p.id).to_multiset() == Seq::new(
                player_count as nat,
                |i: int| i as u8,
            ).to_multiset(),
            forall|i: int| 0 <= i < player_count ==> seated(#[trigger] r.players@[i], r.players@[i].id),
            r.state == GameState::PreFlop,
            r.pot == 0,
            r.current_bid == 0,
            r.turn == 0,
            r.blind == BLIND,
            r.deck.dealt == 0,
            r.deck@.to_multiset() == Seq::new(52, |i: int| new_deck_card(i)).to_multiset(),
            forall|i: int| 0 <= i < 5 ==> #[trigger] r.community.cards@[i] == blank(),
    {
        let mut order: Vec<u8> = Vec::new();
        let mut i: u8 = 0;
        while i < player_count
            invariant
                i <= player_count,
                order@ == Seq::new(i as nat, |k: int| k as u8),
            decreases player_count - i,
        {
            order.push(i);
            i += 1;
        }
        shuffle_in_place(order.as_mut_slice());
        let mut players: Vec<Player> = Vec::new();
        let mut j: usize = 0;
        while j < order.len()
            invariant
                order@.len() == player_count,
                j <= order@.len(),
                players@.len() == j,
                forall|k: int| 0 <= k < j ==> (#[trigger] players@[k]).id == order@[k],
                forall|k: int| 0 <= k < j ==> seated(#[trigger] players@[k], order@[k]),
                bank_sum(players@) == j * DEFAULT_BANK,
            decreases order@.len() - j,
        {
            let id = order[j];
            let p = Player::new(id, seat_name(id), None);
            proof {
                lemma_bank_sum_push(players@, p);
            }
            players.push(p);
            j += 1;
        }
        assert(players@.map_values(|p: Player| p.id) =~= order@);
        let mut deck = Deck::new();
        deck.shuffle();
        let community = Community::new();
        let r = Game {
            players,
            deck,
            turn: 0,
            state: GameState::PreFlop,
            pot: 0,
            blind: BLIND,
            current_bid: 0,
            community,
        };
        assert(board_holds(r.community.cards@, 0));
        r
    }

    /// Number of players who have not folded.
    pub fn count_live(&self) -> (r: usize)
        ensures
            r == live_count(self.players@),
    {
        let mut n: usize = 0;
        let mut i: usize = 0;
        while i < self.players.len()
            invariant
                i <= self.players@.len(),
                n == live_count(self.players@.take(i as int)),
                n <= i,
            decreases self.players@.len() - i,
        {
            proof {
                assert(self.players@.take(i + 1) =~= self.players@.take(i as int).push(self.players@[i as int]));
                lemma_count_push(self.players@.take(i as int), self.players@[i as int], |p: Player| p.spec_has_live_hand());
            }
            if self.players[i].has_live_hand() {
                n += 1;
            }
            i += 1;
        }
        assert(self.players@.take(i as int) =~= self.players@);
        n
    }

    /// Number of players with money left.
    pub fn count_funded(&self) -> (r: usize)
        ensures
            r == funded_count(self.players@),
    {
        let mut n: usize = 0;
        let mut i: usize = 0;
        while i < self.players.len()
            invariant
                i <= self.players@.len(),
                n == funded_count(self.players@.take(i as int)),
                n <= i,
            decreases self.players@.len() - i,
        {
            proof {
                assert(self.players@.take(i + 1) =~= self.players@.take(i as int).push(self.players@[i as int]));
                lemma_count_push(self.players@.take(i as int), self.players@[i as int], |p: Player| p.bank > 0);
            }
            if self.players[i].bank > 0 {
                n += 1;
            }
            i += 1;
        }
        assert(self.players@.take(i as int) =~= self.players@);
        n
    }

    /// Whether the betting round is over: every player who has not folded has
    /// checked, called or gone all in.
    pub fn betting_complete(&self) -> (r: bool)
        ensures
            r == round_complete(self.players@),
    {
        let mut i: usize = 0;
        while i < self.players.len()
            invariant
                i <= self.players@.len(),
                forall|j: int|
                    0 <= j < i && (#[trigger] self.players@[j]).spec_has_live_hand() ==> {
                        ||| self.players@[j].last_action == PlayerAction::Check
                        ||| self.players@[j].last_action == PlayerAction::Call
                        ||| self.players@[j].last_action == PlayerAction::Fold
                        ||| self.players@[j].last_action == PlayerAction::AllIn
                    },
            decreases self.players@.len() - i,
        {
            let a = self.players[i].last_action;
            if self.players[i].has_live_hand() && a != PlayerAction::Check && a != PlayerAction::Call
                && a != PlayerAction::Fold && a != PlayerAction::AllIn {
                return false;
            }
            i += 1;
        }
        true
    }

    /// What the table needs next (see `step_of`). A player is prompted or passed
    /// over only during betting, with players seated.
    pub fn next_step(&self) -> (r: Step)
        requires
            self.wf(),
        ensures
            r == step_of(*self),
            r == Step::Prompt || r == Step::Pass ==> self.state.is_betting() && self.players@.len()
                > 0,
    {
        if self.state == GameState::Closed {
            return Step::Finished;
        }
        if self.state == GameState::Showdown || self.betting_complete() {
            return Step::Advance;
        }
        if self.players[self.turn].is_active() {
            Step::Prompt
        } else {
            Step::Pass
        }
    }

    /// Whether the player whose turn it is may act; the others are passed over.
    pub fn awaits_action(&self) -> (r: bool)
        requires
            self.wf(),
            self.players@.len() > 0,
        ensures
            r == self.players@[self.turn as int].spec_is_active(),
    {
        self.players[self.turn].is_active()
    }

    /// Passes the turn to the next seat, round the table.
    pub fn next_turn(&mut self)
        requires
            old(self).wf(),
            old(self).players@.len() > 0,
        ensures
            final(self).wf(),
            final(self).turn == (old(self).turn + 1) % (old(self).players@.len() as int),
            final(self).players == old(self).players,
            final(self).pot == old(self).pot,
            final(self).current_bid == old(self).current_bid,
            final(self).state == old(self).state,
            final(self).deck == old(self).deck,
            final(self).community == old(self).community,
            final(self).blind == old(self).blind,
    {
        self.turn = (self.turn + 1) % self.players.len();
    }

    /// Pays the whole pot to player `player_idx`.
    pub fn payout_player_idx(&mut self, player_idx: usize)
        requires
            old(self).wf(),
            !old(self).state.is_betting(),
            player_idx < old(self).players@.len(),
        ensures
            final(self).wf(),
            paid_out(*old(self), *final(self), player_idx as int),
    {
        let ghost before = self.players@;
        let ghost p = Player { bank: (before[player_idx as int].bank + self.pot) as u64, ..before[player_idx as int] };
        proof {
            lemma_bank_sum_update(before, player_idx as int, p);
        }
        self.players[player_idx].bank = self.players[player_idx].bank + self.pot;
        self.pot = 0;
        assert(self.players@ =~= before.update(player_idx as int, p));
    }

    /// Deals `count` cards from the deck into the board, from its first blank
    /// slot on (from slot 0 when the board is full).
    pub fn deal_community(&mut self, count: u8)
        requires
            old(self).deck.wf(),
            next_slot(old(self).community.cards@) + count <= 5,
            old(self).deck.dealt + count <= 52,
        ensures
            final(self).deck.wf(),
            laid(
                old(self).community.cards@,
                final(self).community.cards@,
                next_slot(old(self).community.cards@),
                count as int,
                old(self).deck@,
                old(self).deck.dealt as int,
            ),
            final(self).deck@ == old(self).deck@,
            final(self).deck.dealt == old(self).deck.dealt + count,
            final(self).players == old(self).players,
            final(self).pot == old(self).pot,
            final(self).current_bid == old(self).current_bid,
            final(self).turn == old(self).turn,
            final(self).state == old(self).state,
            final(self).blind == old(self).blind,
    {
        let mut index: usize = 0;
        let mut i: usize = 0;
        while i < 5
            invariant_except_break
                i <= 5,
                index == 0,
                next_slot(self.community.cards@) == first_blank_from(self.community.cards@, i as int),
            invariant
                self.community.cards@ == old(self).community.cards@,
            ensures
                index == next_slot(old(self).community.cards@),
            decreases 5 - i,
        {
            if self.community.cards[i].rank == Rank::Unset {
                index = i;
                break;
            }
            i += 1;
        }
        let k = index;
        let mut n: u8 = 0;
        while n < count
            invariant
                n <= count,
                k == next_slot(old(self).community.cards@),
                k + count <= 5,
                index == k + n,
                self.deck.wf(),
                self.deck@ == old(self).deck@,
                self.deck.dealt == old(self).deck.dealt + n,
                old(self).deck.dealt + count <= 52,
                laid(old(self).community.cards@, self.community.cards@, k as int, n as int, old(self).deck@, old(self).deck.dealt as int),
                self.players == old(self).players,
                self.pot == old(self).pot,
                self.current_bid == old(self).current_bid,
                self.turn == old(self).turn,
                self.state == old(self).state,
                self.blind == old(self).blind,
            decreases count - n,
        {
            let card = self.deck.deal();
            self.community.cards[index] = card;
            index += 1;
            n += 1;
        }
    }

    /// Opens a betting round: bids cleared, whoever may still act has to act
    /// again, the table bid back to 0 and the turn at the first seat.
    fn reset_street(&mut self)
        ensures
            street_reset(old(self).players@, final(self).players@),
            final(self).current_bid == 0,
            final(self).turn == 0,
            final(self).pot == old(self).pot,
            final(self).state == old(self).state,
            final(self).deck == old(self).deck,
            final(self).community == old(self).community,
            final(self).blind == old(self).blind,
    {
        let ghost before = self.players@;
        let mut i: usize = 0;
        while i < self.players.len()
            invariant
                i <= self.players@.len(),
                self.players@.len() == before.len(),
                before == old(self).players@,
                self.pot == old(self).pot,
                self.state == old(self).state,
                self.deck == old(self).deck,
                self.community == old(self).community,
                self.blind == old(self).blind,
                forall|k: int| i <= k < before.len() ==> #[trigger] self.players@[k] == before[k],
                forall|k: int|
                    0 <= k < i ==> #[trigger] self.players@[k] == reopened_seat(before[k]),
            decreases self.players@.len() - i,
        {
            if self.players[i].is_active() {
                self.players[i].last_action = PlayerAction::Pending;
            }
            self.players[i].bid = 0;
            i += 1;
        }
        self.current_bid = 0;
        self.turn = 0;
    }

    /// Lays `count` more cards on the board and opens the betting round `next`.
    fn open_street(&mut self, count: u8, next: GameState)
        requires
            old(self).wf(),
            old(self).state.is_betting(),
            next.is_betting(),
            count >= 1,
            next.board_size() == old(self).state.board_size() + count,
        ensures
            final(self).wf(),
            street_opened(*old(self), *final(self), count as int, next),
    {
        proof {
            lemma_next_slot(self.community.cards@, self.state.board_size());
        }
        let ghost g = *self;
        self.deal_community(count);
        self.state = next;
        let ghost mid = self.players@;
        self.reset_street();
        proof {
            lemma_bank_sum_same_banks(self.players@, mid);
            assert(board_holds(self.community.cards@, next.board_size()));
        }
    }

    /// The first player who has not folded, if any.
    fn first_live(&self) -> (r: Option<usize>)
        ensures
            match r {
                Some(w) => is_first_live(self.players@, w as int),
                None => none_live(self.players@),
            },
    {
        let mut i: usize = 0;
        while i < self.players.len()
            invariant
                i <= self.players@.len(),
                forall|j: int| 0 <= j < i ==> !(#[trigger] self.players@[j]).spec_has_live_hand(),
            decreases self.players@.len() - i,
        {
            if self.players[i].has_live_hand() {
                return Some(i);
            }
            i += 1;
        }
        None
    }

    /// The player whose live hand is best on the board, the first seat among
    /// equals, if any player has a live hand.
    fn best_live_player(&self) -> (r: Option<usize>)
        ensures
            match r {
                Some(w) => is_winner(self.players@, self.community.cards@, w as int),
                None => none_live(self.players@),
            },
    {
        let mut best: Option<usize> = None;
        let mut best_strength: u8 = 0;
        let mut best_rank: u8 = 0;
        let mut i: usize = 0;
        while i < self.players.len()
            invariant
                i <= self.players@.len(),
                match best {
                    Some(w) => {
                        &&& w < i
                        &&& self.players@[w as int].spec_has_live_hand()
                        &&& best_strength == score(self.players@[w as int], self.community.cards@).0.spec_strength()
                        &&& best_rank == score(self.players@[w as int], self.community.cards@).1
                        &&& forall|j: int|
                            0 <= j < i && (#[trigger] self.players@[j]).spec_has_live_hand() ==> !outranks(
                                score(self.players@[j], self.community.cards@),
                                score(self.players@[w as int], self.community.cards@),
                            )
                        &&& forall|j: int|
                            0 <= j < w && (#[trigger] self.players@[j]).spec_has_live_hand() ==> outranks(
                                score(self.players@[w as int], self.community.cards@),
                                score(self.players@[j], self.community.cards@),
                            )
                    },
                    None => forall|j: int| 0 <= j < i ==> !(#[trigger] self.players@[j]).spec_has_live_hand(),
                },
            decreases self.players@.len() - i,
        {
            if self.players[i].has_live_hand() {
                let (category, rank) = evaluate(&self.players[i].hand.cards, &self.community.cards);
                let strength = category.strength();
                match best {
                    Some(w) => {
                        if strength > best_strength || (strength == best_strength && rank > best_rank) {
                            best = Some(i);
                            best_strength = strength;
                            best_rank = rank;
                        }
                    },
                    None => {
                        best = Some(i);
                        best_strength = strength;
                        best_rank = rank;
                    },
                }
            }
            i += 1;
        }
        best
    }

    /// Ends the hand: the pot goes to the best live hand on the board, or to the
    /// only player left when `uncontested`.
    fn settle(&mut self, uncontested: bool) -> (r: Option<usize>)
        requires
            old(self).wf(),
            uncontested ==> live_count(old(self).players@) <= 1,
        ensures
            final(self).wf(),
            settled(*old(self), *final(self), r),
            uncontested ==> match r {
                Some(w) => is_first_live(old(self).players@, w as int),
                None => none_live(old(self).players@),
            },
            !uncontested ==> match r {
                Some(w) => is_winner(old(self).players@, old(self).community.cards@, w as int),
                None => none_live(old(self).players@),
            },
    {
        let winner = if uncontested {
            self.first_live()
        } else {
            self.best_live_player()
        };
        self.state = GameState::Showdown;
        if let Some(w) = winner {
            self.payout_player_idx(w);
        }
        winner
    }

    /// Moves the dealer button on: the first seat goes to the end.
    fn rotate_seats(&mut self)
        ensures
            final(self).players@ == rotated(old(self).players@),
            final(self).pot == old(self).pot,
            final(self).current_bid == old(self).current_bid,
            final(self).turn == old(self).turn,
            final(self).state == old(self).state,
            final(self).deck == old(self).deck,
            final(self).community == old(self).community,
            final(self).blind == old(self).blind,
    {
        if self.players.len() > 0 {
            let first = self.players.remove(0);
            self.players.push(first);
            assert(self.players@ =~= rotated(old(self).players@));
        }
    }

    /// Clears every seat for a new hand and deals two cards to each player with
    /// money; a player without money sits the hand out, folded.
    fn deal_hands(&mut self)
        requires
            old(self).deck.wf(),
            old(self).deck.dealt == 0,
            old(self).players@.len() <= MAX_PLAYERS,
        ensures
            final(self).deck.wf(),
            final(self).deck@ == old(self).deck@,
            final(self).deck.dealt == 2 * funded_count(old(self).players@),
            final(self).players@.len() == old(self).players@.len(),
            forall|i: int|
                0 <= i < old(self).players@.len() ==> dealt_seat(
                    old(self).players@[i],
                    #[trigger] final(self).players@[i],
                    old(self).deck@,
                    2 * funded_count(old(self).players@.take(i)) as int,
                    0,
                ),
            final(self).pot == old(self).pot,
            final(self).current_bid == old(self).current_bid,
            final(self).turn == old(self).turn,
            final(self).state == old(self).state,
            final(self).community == old(self).community,
            final(self).blind == old(self).blind,
    {
        let ghost before = self.players@;
        let ghost cards = self.deck@;
        let mut i: usize = 0;
        while i < self.players.len()
            invariant
                i <= self.players@.len(),
                self.players@.len() == before.len(),
                before == old(self).players@,
                before.len() <= MAX_PLAYERS,
                cards == old(self).deck@,
                self.deck.wf(),
                self.deck@ == cards,
                self.deck.dealt == 2 * funded_count(before.take(i as int)),
                funded_count(before.take(i as int)) <= i,
                self.pot == old(self).pot,
                self.current_bid == old(self).current_bid,
                self.turn == old(self).turn,
                self.state == old(self).state,
                self.community == old(self).community,
                self.blind == old(self).blind,
                forall|k: int| i <= k < before.len() ==> #[trigger] self.players@[k] == before[k],
                forall|k: int|
                    0 <= k < i ==> dealt_seat(
                        before[k],
                        #[trigger] self.players@[k],
                        cards,
                        2 * funded_count(before.take(k)) as int,
                        0,
                    ),
            decreases self.players@.len() - i,
        {
            proof {
                assert(before.take(i + 1) =~= before.take(i as int).push(before[i as int]));
                lemma_count_push(before.take(i as int), before[i as int], |p: Player| p.bank > 0);
            }
            self.players[i].reset();
            if self.players[i].bank > 0 {
                self.players[i].hand.fill(&mut self.deck);
            } else {
                self.players[i].fold();
            }
            i += 1;
        }
        assert(before.take(i as int) =~= before);
    }

    /// The first seat at `start` or after whose player has money left.
    fn find_funded(&self, start: usize) -> (r: usize)
        requires
            start <= self.players@.len(),
            first_funded_from(self.players@, start as int) < self.players@.len(),
        ensures
            r == first_funded_from(self.players@, start as int),
    {
        let mut k = start;
        while k < self.players.len() && self.players[k].bank == 0
            invariant
                start <= k <= self.players@.len(),
                first_funded_from(self.players@, start as int) == first_funded_from(self.players@, k as int),
                first_funded_from(self.players@, start as int) < self.players@.len(),
            decreases self.players@.len() - k,
        {
            k += 1;
        }
        k
    }

    /// The first player with money posts the small blind, half the blind unit,
    /// and the next one the big blind; both go into the pot, and the larger is
    /// the bid to match.
    fn post_blinds(&mut self)
        requires
            funded_count(old(self).players@) >= 2,
            old(self).pot == 0,
            bank_sum(old(self).players@) <= u64::MAX,
            forall|i: int| 0 <= i < old(self).players@.len() ==> (#[trigger] old(self).players@[i]).bid == 0,
        ensures
            ({
                let seats = old(self).players@;
                let small = small_blind_seat(seats);
                let big = big_blind_seat(seats);
                let sb = blind_cost(seats[small].bank, old(self).blind / 2);
                let bb = blind_cost(seats[big].bank, old(self).blind);
                &&& final(self).players@ == seats.update(
                    small,
                    seats[small].paid(sb as int, if sb == seats[small].bank { PlayerAction::AllIn } else { seats[small].last_action }),
                ).update(
                    big,
                    seats[big].paid(bb as int, if bb == seats[big].bank { PlayerAction::AllIn } else { seats[big].last_action }),
                )
                &&& final(self).pot == sb + bb
                &&& final(self).current_bid == if sb < bb { bb } else { sb }
                &&& bank_sum(final(self).players@) + sb + bb == bank_sum(seats)
            }),
            final(self).turn == old(self).turn,
            final(self).state == old(self).state,
            final(self).deck == old(self).deck,
            final(self).community == old(self).community,
            final(self).blind == old(self).blind,
    {
        let ghost seats = self.players@;
        proof {
            lemma_blind_seats(seats);
            lemma_bank_sum_update(seats, small_blind_seat(seats), seats[small_blind_seat(seats)]);
        }
        let small = self.find_funded(0);
        let ghost p1 = seats[small as int];
        let sb = self.players[small].post_blind(self.blind / 2);
        let ghost mid = self.players@;
        proof {
            lemma_bank_sum_update(seats, small as int, mid[small as int]);
            lemma_same_banks_same_seats(seats, mid, small + 1);
            lemma_bank_sum_update(mid, big_blind_seat(seats), mid[big_blind_seat(seats)]);
        }
        let n = self.players.len();
        assert(small < n);
        let big = self.find_funded(small + 1);
        let bb = self.players[big].post_blind(self.blind);
        proof {
            lemma_bank_sum_update(mid, big as int, self.players@[big as int]);
            lemma_bank_sum_nonneg(self.players@);
        }
        self.pot = sb + bb;
        self.current_bid = if sb < bb {
            bb
        } else {
            sb
        };
    }

    /// Starts a new hand, or closes the table once at most one player has money.
    fn start_hand(&mut self)
        requires
            old(self).wf(),
        ensures
            final(self).wf(),
            funded_count(old(self).players@) <= 1 ==> closed(*old(self), *final(self)),
            funded_count(old(self).players@) >= 2 ==> hand_started(*old(self), *final(self)),
    {
        let funded = self.count_funded();
        if funded <= 1 {
            self.state = GameState::Closed;
            return;
        }
        let ghost g = *self;
        self.state = GameState::Showdown;
        self.deck.shuffle();
        self.community.reset();
        self.pot = 0;
        self.current_bid = 0;
        self.rotate_seats();
        let ghost seats = self.players@;
        proof {
            lemma_rotated(g.players@);
        }
        self.deal_hands();
        let ghost dealt = self.players@;
        proof {
            lemma_bank_sum_same_banks(dealt, seats);
            lemma_same_banks_same_funded(dealt, seats);
            lemma_blind_seats(seats);
            lemma_same_banks_same_seats(dealt, seats, 0);
            lemma_same_banks_same_seats(dealt, seats, small_blind_seat(seats) + 1);
            lemma_count_bound(seats, |p: Player| p.bank > 0);
        }
        self.post_blinds();
        self.turn = if funded == 2 {
            0
        } else {
            2
        };
        self.state = GameState::PreFlop;
        proof {
            let small = small_blind_seat(seats);
            let big = big_blind_seat(seats);
            assert forall|i: int|
                0 <= i < seats.len() implies dealt_seat(
                    seats[i],
                    #[trigger] self.players@[i],
                    self.deck@,
                    2 * funded_count(seats.take(i)) as int,
                    posted(seats, i, g.blind),
                ) by {
                assert(dealt_seat(seats[i], dealt[i], self.deck@, 2 * funded_count(seats.take(i)) as int, 0));
            }
            assert forall|i: int| 0 <= i < self.players@.len() implies (#[trigger] self.players@[i]).bid
                <= self.current_bid by {
                assert(dealt_seat(seats[i], dealt[i], self.deck@, 2 * funded_count(seats.take(i)) as int, 0));
            }
            assert(board_holds(self.community.cards@, 0));
        }
    }

    /// Moves the table to its next phase (see `advanced`). Returns the seat that
    /// took the pot when the hand ended.
    pub fn advance_state(&mut self) -> (r: Option<usize>)
        requires
            old(self).wf(),
        ensures
            final(self).wf(),
            advanced(*old(self), *final(self), r),
    {
        match self.state {
            GameState::PreFlop => {
                if self.count_live() <= 1 {
                    return self.settle(true);
                }
                self.open_street(3, GameState::Flop);
                None
            },
            GameState::Flop => {
                if self.count_live() <= 1 {
                    return self.settle(true);
                }
                self.open_street(1, GameState::Turn);
                None
            },
            GameState::Turn => {
                if self.count_live() <= 1 {
                    return self.settle(true);
                }
                self.open_street(1, GameState::River);
                None
            },
            GameState::River => self.settle(false),
            GameState::Showdown => {
                self.start_hand();
                None
            },
            GameState::Closed => None,
        }
    }

    /// Deals the first hand: as if a showdown had just ended.
    pub fn start(&mut self)
        requires
            old(self).wf(),
        ensures
            final(self).wf(),
            funded_count(old(self).players@) <= 1 ==> closed(*old(self), *final(self)),
            funded_count(old(self).players@) >= 2 ==> hand_started(*old(self), *final(self)),
    {
        self.state = GameState::Showdown;
        self.start_hand();
    }

    /// Makes every player but the one at `t` who may still act answer a raise.
    fn reopen_round(&mut self, t: usize)
        requires
            t < old(self).players@.len(),
        ensures
            reopened(old(self).players@, final(self).players@, t as int),
            final(self).pot == old(self).pot,
            final(self).current_bid == old(self).current_bid,
            final(self).turn == old(self).turn,
            final(self).state == old(self).state,
            final(self).deck == old(self).deck,
            final(self).community == old(self).community,
            final(self).blind == old(self).blind,
    {
        let ghost before = self.players@;
        let mut j: usize = 0;
        while j < self.players.len()
            invariant
                j <= self.players@.len(),
                self.players@.len() == before.len(),
                t < before.len(),
                self.pot == old(self).pot,
                self.current_bid == old(self).current_bid,
                self.turn == old(self).turn,
                self.state == old(self).state,
                self.deck == old(self).deck,
                self.community == old(self).community,
                self.blind == old(self).blind,
                before == old(self).players@,
                self.players@[t as int] == before[t as int],
                forall|k: int| j <= k < before.len() ==> #[trigger] self.players@[k] == before[k],
                forall|k: int|
                    0 <= k < j && k != t ==> #[trigger] self.players@[k] == if before[k].spec_is_active() {
                        before[k].acted(PlayerAction::Pending)
                    } else {
                        before[k]
                    },
            decreases self.players@.len() - j,
        {
            if j != t && self.players[j].is_active() {
                self.players[j].last_action = PlayerAction::Pending;
            }
            j += 1;
        }
    }

    /// Carries out the action chosen by the player whose turn it is (see
    /// `Player::respond`) against the table bid. On success the amount moved goes
    /// into the pot, a raise or an all-in above the table bid lifts the table bid
    /// and reopens the round for everyone else who may still act, and the turn
    /// passes on. A refused action changes nothing and returns `None`.
    pub fn act(&mut self, action: PlayerAction, amount: Option<u64>) -> (r: Option<(PlayerAction, u64)>)
        requires
            old(self).wf(),
            old(self).state.is_betting(),
            old(self).players@.len() > 0,
        ensures
            final(self).wf(),
            r == response(old(self).players@[old(self).turn as int], action, amount, old(self).current_bid),
            r is None ==> same_table(*old(self), *final(self)),
            r matches Some((a, moved)) ==> applied(*old(self), *final(self), a, moved as int),
    {
        let t = self.turn;
        let cb = self.current_bid;
        let ghost g = *self;
        proof {
            lemma_bank_sum_update(self.players@, t as int, self.players@[t as int]);
            lemma_bank_sum_nonneg(self.players@);
        }
        let r = self.players[t].respond(action, amount, Some(cb));
        match r {
            None => {
                assert(self.players@ =~= g.players@);
                None
            },
            Some((a, moved)) => {
                if (a == PlayerAction::Raise || a == PlayerAction::Call) && self.players[t].bank == 0 {
                    self.players[t].last_action = PlayerAction::AllIn;
                }
                let ghost p = g.players@[t as int].paid(
                    moved as int,
                    recorded_action(a, g.players@[t as int].bank - moved),
                );
                proof {
                    lemma_bank_sum_update(g.players@, t as int, p);
                }
                assert(self.players@ =~= g.players@.update(t as int, p));
                self.pot = self.pot + moved;
                let new_bid = self.players[t].bid;
                if new_bid > cb {
                    self.current_bid = new_bid;
                }
                if a == PlayerAction::Raise || new_bid > cb {
                    let ghost mid = self.players@;
                    self.reopen_round(t);
                    proof {
                        lemma_bank_sum_same_banks(self.players@, mid);
                    }
                }
                self.turn = (t + 1) % self.players.len();
                r
            },
        }
    }
}

} // verus!
