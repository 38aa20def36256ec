use vstd::prelude::*;
use core::cmp::Ordering;
use vstd::std_specs::cmp::PartialOrdSpec;
use crate::deck::{blank, Card, Community, Deck, Rank, Suit, ACE};

verus! {

/// The categories of a poker hand, weakest first; `Unscored` is the value of a
/// hand that has not been ranked yet.
#[derive(Copy, Clone, Debug, PartialEq, Eq, Structural)]
pub enum ScoringHands {
    Unscored,
    HighCard,
    OnePair,
    TwoPair,
    ThreeOfAKind,
    Straight,
    Flush,
    FullHouse,
    FourOfAKind,
    StraightFlush,
    RoyalFlush,
}

impl ScoringHands {
    /// Position of the category in the order `Unscored < HighCard < ... < RoyalFlush`.
    pub open spec fn spec_strength(self) -> u8 {
        match self {
            ScoringHands::Unscored => 0,
            ScoringHands::HighCard => 1,
            ScoringHands::OnePair => 2,
            ScoringHands::TwoPair => 3,
            ScoringHands::ThreeOfAKind => 4,
            ScoringHands::Straight => 5,
            ScoringHands::Flush => 6,
            ScoringHands::FullHouse => 7,
            ScoringHands::FourOfAKind => 8,
            ScoringHands::StraightFlush => 9,
            ScoringHands::RoyalFlush => 10,
        }
    }

    #[verifier::when_used_as_spec(spec_strength)]
    pub fn strength(self) -> (r: u8)
        ensures
            r == self.spec_strength(),
    {
        match self {
            ScoringHands::Unscored => 0,
            ScoringHands::HighCard => 1,
            ScoringHands::OnePair => 2,
            ScoringHands::TwoPair => 3,
            ScoringHands::ThreeOfAKind => 4,
            ScoringHands::Straight => 5,
            ScoringHands::Flush => 6,
            ScoringHands::FullHouse => 7,
            ScoringHands::FourOfAKind => 8,
            ScoringHands::StraightFlush => 9,
            ScoringHands::RoyalFlush => 10,
        }
    }
}

/// Categories compare by strength.
pub open spec fn compare_strength(a: u8, b: u8) -> Option<Ordering> {
    if a < b {
        Some(Ordering::Less)
    } else if a > b {
        Some(Ordering::Greater)
    } else {
        Some(Ordering::Equal)
    }
}

impl PartialOrd for ScoringHands {
    fn partial_cmp(&self, other: &ScoringHands) -> (r: Option<Ordering>) {
        let a = self.strength();
        let b = other.strength();
        if a < b {
            Some(Ordering::Less)
        } else if a > b {
            Some(Ordering::Greater)
        } else {
            Some(Ordering::Equal)
        }
    }
}

impl vstd::std_specs::cmp::PartialOrdSpecImpl for ScoringHands {
    open spec fn obeys_partial_cmp_spec() -> bool {
        true
    }

    open spec fn partial_cmp_spec(&self, other: &ScoringHands) -> Option<Ordering> {
        compare_strength(self.spec_strength(), other.spec_strength())
    }
}

/// Number of cards in `cards` whose rank has value `r`.
pub open spec fn rank_count(cards: Seq<Card>, r: int) -> nat
    decreases cards.len(),
{
    if cards.len() == 0 {
        0
    } else {
        rank_count(cards.drop_last(), r) + if cards.last().rank.spec_value() == r {
            1nat
        } else {
            0nat
        }
    }
}

/// Number of cards in `cards` of suit `s`.
pub open spec fn suit_count(cards: Seq<Card>, s: Suit) -> nat
    decreases cards.len(),
{
    if cards.len() == 0 {
        0
    } else {
        suit_count(cards.drop_last(), s) + if cards.last().suit == s {
            1nat
        } else {
            0nat
        }
    }
}

/// Some card of `cards` has rank value `r` and suit `s`.
pub open spec fn holds(cards: Seq<Card>, r: int, s: Suit) -> bool {
    exists|i: int| 0 <= i < cards.len() && (#[trigger] cards[i]).rank.spec_value() == r && cards[i].suit == s
}

/// `cards` hold five cards of suit `s` with the consecutive ranks `t - 4` up to `t`.
pub open spec fn run_in_suit(cards: Seq<Card>, t: int, s: Suit) -> bool {
    &&& holds(cards, t, s)
    &&& holds(cards, t - 1, s)
    &&& holds(cards, t - 2, s)
    &&& holds(cards, t - 3, s)
    &&& holds(cards, t - 4, s)
}

/// What the evaluator looks for at a rank value.
#[derive(Copy, Clone)]
pub enum Pattern {
    /// Exactly this many cards of the rank.
    Group(u8),
    /// At least one card of the rank.
    Present,
    /// The rank tops five consecutive real ranks (the ace counts high only).
    Straight,
    /// A card of the rank in a suit that has five cards or more.
    Flush,
    /// The rank tops five consecutive real ranks, all in one suit.
    StraightFlush,
}

/// `p` is found in `cards` at rank value `r`.
pub open spec fn pattern_at(cards: Seq<Card>, p: Pattern, r: int) -> bool {
    match p {
        Pattern::Group(n) => rank_count(cards, r) == n,
        Pattern::Present => rank_count(cards, r) > 0,
        Pattern::Straight => {
            &&& r >= 5
            &&& rank_count(cards, r) > 0
            &&& rank_count(cards, r - 1) > 0
            &&& rank_count(cards, r - 2) > 0
            &&& rank_count(cards, r - 3) > 0
            &&& rank_count(cards, r - 4) > 0
        },
        Pattern::Flush => exists|s: Suit| suit_count(cards, s) >= 5 && #[trigger] holds(cards, r, s),
        Pattern::StraightFlush => r >= 5 && exists|s: Suit| #[trigger] run_in_suit(cards, r, s),
    }
}

/// The highest rank value below `k` at which `p` is found in `cards`, or -1.
pub open spec fn highest_below(cards: Seq<Card>, p: Pattern, k: nat) -> int
    decreases k,
{
    if k == 0 {
        -1
    } else if pattern_at(cards, p, k - 1) {
        k - 1
    } else {
        highest_below(cards, p, (k - 1) as nat)
    }
}

/// The highest rank value at which `p` is found in `cards`, or -1.
pub open spec fn highest(cards: Seq<Card>, p: Pattern) -> int {
    highest_below(cards, p, (ACE + 1) as nat)
}

/// Number of rank values below `k` held by exactly two cards of `cards`.
pub open spec fn pairs_below(cards: Seq<Card>, k: nat) -> nat
    decreases k,
{
    if k == 0 {
        0
    } else {
        pairs_below(cards, (k - 1) as nat) + if rank_count(cards, k - 1) == 2 {
            1nat
        } else {
            0nat
        }
    }
}

/// The category and tie-break rank value of the best hand in `cards`: the first
/// category that the cards make, strongest first. A full house takes the
/// highest triple, with a pair or a lower triple serving as the pair.
pub open spec fn evaluation(cards: Seq<Card>) -> (ScoringHands, int) {
    let straight_flush = highest(cards, Pattern::StraightFlush);
    let quads = highest(cards, Pattern::Group(4));
    let trips = highest(cards, Pattern::Group(3));
    let pair = highest(cards, Pattern::Group(2));
    let flush = highest(cards, Pattern::Flush);
    let straight = highest(cards, Pattern::Straight);
    let pairs = pairs_below(cards, (ACE + 1) as nat);
    if straight_flush == ACE {
        (ScoringHands::RoyalFlush, ACE as int)
    } else if straight_flush >= 0 {
        (ScoringHands::StraightFlush, straight_flush)
    } else if quads >= 0 {
        (ScoringHands::FourOfAKind, quads)
    } else if trips >= 0 && (pair >= 0 || highest_below(cards, Pattern::Group(3), trips as nat)
        >= 0) {
        (ScoringHands::FullHouse, trips)
    } else if flush >= 0 {
        (ScoringHands::Flush, flush)
    } else if straight >= 0 {
        (ScoringHands::Straight, straight)
    } else if trips >= 0 {
        (ScoringHands::ThreeOfAKind, trips)
    } else if pairs >= 2 {
        (ScoringHands::TwoPair, pair)
    } else if pairs == 1 {
        (ScoringHands::OnePair, pair)
    } else {
        (ScoringHands::HighCard, highest(cards, Pattern::Present))
    }
}

/// The value of two hole cards together with the five community cards.
pub open spec fn hand_score(hole: Seq<Card>, community: Seq<Card>) -> (ScoringHands, int) {
    evaluation(hole + community)
}

proof fn lemma_highest_below(cards: Seq<Card>, p: Pattern, k: nat)
    ensures
        -1 <= highest_below(cards, p, k) < k,
        highest_below(cards, p, k) >= 0 ==> pattern_at(cards, p, highest_below(cards, p, k)),
        forall|r: int|
            highest_below(cards, p, k) < r < k ==> !#[trigger] pattern_at(cards, p, r),
    decreases k,
{
    if k > 0 {
        lemma_highest_below(cards, p, (k - 1) as nat);
    }
}

proof fn lemma_rank_count_positive(cards: Seq<Card>, i: int)
    requires
        0 <= i < cards.len(),
    ensures
        rank_count(cards, cards[i].rank.spec_value() as int) > 0,
    decreases cards.len(),
{
    if i < cards.len() - 1 {
        lemma_rank_count_positive(cards.drop_last(), i);
    }
}

/// Number of cards of rank value `r`.
fn count_rank(cards: &[Card; 7], r: u8) -> (n: u8)
    ensures
        n == rank_count(cards@, r as int),
{
    let mut n: u8 = 0;
    let mut i: usize = 0;
    while i < 7
        invariant
            i <= 7,
            n <= i,
            n == rank_count(cards@.take(i as int), r as int),
        decreases 7 - i,
    {
        assert(cards@.take(i + 1).drop_last() =~= cards@.take(i as int));
        if cards[i].rank.value() == r {
            n += 1;
        }
        i += 1;
    }
    assert(cards@.take(7) =~= cards@);
    n
}

/// Number of cards of suit `s`.
fn count_suit(cards: &[Card; 7], s: Suit) -> (n: u8)
    ensures
        n == suit_count(cards@, s),
{
    let mut n: u8 = 0;
    let mut i: usize = 0;
    while i < 7
        invariant
            i <= 7,
            n <= i,
            n == suit_count(cards@.take(i as int), s),
        decreases 7 - i,
    {
        assert(cards@.take(i + 1).drop_last() =~= cards@.take(i as int));
        if cards[i].suit == s {
            n += 1;
        }
        i += 1;
    }
    assert(cards@.take(7) =~= cards@);
    n
}

/// Whether a card of rank value `r` and suit `s` is among the cards.
fn holds_card(cards: &[Card; 7], r: u8, s: Suit) -> (b: bool)
    ensures
        b == holds(cards@, r as int, s),
{
    let mut i: usize = 0;
    while i < 7
        invariant
            i <= 7,
            forall|j: int| 0 <= j < i ==> !((#[trigger] cards@[j]).rank.spec_value() == r && cards@[j].suit == s),
        decreases 7 - i,
    {
        if cards[i].rank.value() == r && cards[i].suit == s {
            return true;
        }
        i += 1;
    }
    false
}

/// Whether the five ranks `t - 4` up to `t` are all held in suit `s`.
fn run_in_suit_exec(cards: &[Card; 7], t: u8, s: Suit) -> (b: bool)
    requires
        4 <= t <= ACE,
    ensures
        b == run_in_suit(cards@, t as int, s),
{
    holds_card(cards, t, s) && holds_card(cards, t - 1, s) && holds_card(cards, t - 2, s)
        && holds_card(cards, t - 3, s) && holds_card(cards, t - 4, s)
}

/// Whether `p` is found at rank value `r`.
fn pattern_at_exec(cards: &[Card; 7], p: Pattern, r: u8) -> (b: bool)
    requires
        r <= ACE,
    ensures
        b == pattern_at(cards@, p, r as int),
{
    let suits = [Suit::Unset, Suit::Clubs, Suit::Diamonds, Suit::Hearts, Suit::Spades];
    match p {
        Pattern::Group(n) => count_rank(cards, r) == n,
        Pattern::Present => count_rank(cards, r) > 0,
        Pattern::Straight => {
            r >= 5 && count_rank(cards, r) > 0 && count_rank(cards, r - 1) > 0 && count_rank(
                cards,
                r - 2,
            ) > 0 && count_rank(cards, r - 3) > 0 && count_rank(cards, r - 4) > 0
        },
        Pattern::Flush => {
            let mut i: usize = 0;
            while i < 5
                invariant
                    i <= 5,
                    p == Pattern::Flush,
                    suits@ == seq![Suit::Unset, Suit::Clubs, Suit::Diamonds, Suit::Hearts, Suit::Spades],
                    forall|j: int|
                        0 <= j < i ==> !(suit_count(cards@, suits@[j]) >= 5 && holds(
                            cards@,
                            r as int,
                            suits@[j],
                        )),
                decreases 5 - i,
            {
                if count_suit(cards, suits[i]) >= 5 && holds_card(cards, r, suits[i]) {
                    assert(holds(cards@, r as int, suits@[i as int]));
                    return true;
                }
                i += 1;
            }
            assert forall|s: Suit| !(suit_count(cards@, s) >= 5 && #[trigger] holds(cards@, r as int, s)) by {
                match s {
                    Suit::Unset => assert(suits@[0] == s),
                    Suit::Clubs => assert(suits@[1] == s),
                    Suit::Diamonds => assert(suits@[2] == s),
                    Suit::Hearts => assert(suits@[3] == s),
                    Suit::Spades => assert(suits@[4] == s),
                }
            }
            false
        },
        Pattern::StraightFlush => {
            if r < 5 {
                return false;
            }
            let mut i: usize = 0;
            while i < 5
                invariant
                    i <= 5,
                    p == Pattern::StraightFlush,
                    5 <= r <= ACE,
                    suits@ == seq![Suit::Unset, Suit::Clubs, Suit::Diamonds, Suit::Hearts, Suit::Spades],
                    forall|j: int| 0 <= j < i ==> !run_in_suit(cards@, r as int, suits@[j]),
                decreases 5 - i,
            {
                if run_in_suit_exec(cards, r, suits[i]) {
                    assert(run_in_suit(cards@, r as int, suits@[i as int]));
                    return true;
                }
                i += 1;
            }
            assert forall|s: Suit| !#[trigger] run_in_suit(cards@, r as int, s) by {
                match s {
                    Suit::Unset => assert(suits@[0] == s),
                    Suit::Clubs => assert(suits@[1] == s),
                    Suit::Diamonds => assert(suits@[2] == s),
                    Suit::Hearts => assert(suits@[3] == s),
                    Suit::Spades => assert(suits@[4] == s),
                }
            }
            false
        },
    }
}

/// The highest rank value at which `p` is found, if any.
fn highest_exec(cards: &[Card; 7], p: Pattern) -> (r: Option<u8>)
    ensures
        match r {
            Some(v) => v <= ACE && v as int == highest(cards@, p),
            None => highest(cards@, p) == -1,
        },
{
    highest_below_exec(cards, p, ACE + 1)
}

/// The highest rank value below `below` at which `p` is found, if any.
fn highest_below_exec(cards: &[Card; 7], p: Pattern, below: u8) -> (r: Option<u8>)
    requires
        below <= ACE + 1,
    ensures
        match r {
            Some(v) => v < below && v as int == highest_below(cards@, p, below as nat),
            None => highest_below(cards@, p, below as nat) == -1,
        },
{
    let mut k: u8 = below;
    while k > 0
        invariant
            k <= below <= ACE + 1,
            highest_below(cards@, p, below as nat) == highest_below(cards@, p, k as nat),
        decreases k,
    {
        if pattern_at_exec(cards, p, k - 1) {
            return Some(k - 1);
        }
        k -= 1;
    }
    None
}

/// Number of rank values held by exactly two cards.
fn count_pairs(cards: &[Card; 7]) -> (n: u8)
    ensures
        n == pairs_below(cards@, (ACE + 1) as nat),
{
    let mut n: u8 = 0;
    let mut k: u8 = 0;
    while k <= ACE
        invariant
            k <= ACE + 1,
            n <= k,
            n == pairs_below(cards@, k as nat),
        decreases ACE + 1 - k,
    {
        if count_rank(cards, k) == 2 {
            n += 1;
        }
        k += 1;
    }
    n
}

/// Ranks the best hand made by two hole cards and five community cards.
pub fn evaluate(hole: &[Card; 2], community: &[Card; 5]) -> (r: (ScoringHands, u8))
    ensures
        r.0 == hand_score(hole@, community@).0,
        r.1 as int == hand_score(hole@, community@).1,
{
    let cards: [Card; 7] = [
        hole[0],
        hole[1],
        community[0],
        community[1],
        community[2],
        community[3],
        community[4],
    ];
    assert(cards@ =~= hole@ + community@);
    if let Some(t) = highest_exec(&cards, Pattern::StraightFlush) {
        if t == ACE {
            return (ScoringHands::RoyalFlush, ACE);
        }
        return (ScoringHands::StraightFlush, t);
    }
    if let Some(q) = highest_exec(&cards, Pattern::Group(4)) {
        return (ScoringHands::FourOfAKind, q);
    }
    let trips = highest_exec(&cards, Pattern::Group(3));
    let pair = highest_exec(&cards, Pattern::Group(2));
    if let Some(t) = trips {
        if pair.is_some() || highest_below_exec(&cards, Pattern::Group(3), t).is_some() {
            return (ScoringHands::FullHouse, t);
        }
    }
    if let Some(f) = highest_exec(&cards, Pattern::Flush) {
        return (ScoringHands::Flush, f);
    }
    if let Some(s) = highest_exec(&cards, Pattern::Straight) {
        return (ScoringHands::Straight, s);
    }
    if let Some(t) = trips {
        return (ScoringHands::ThreeOfAKind, t);
    }
    let pairs = count_pairs(&cards);
    if let Some(p) = pair {
        if pairs >= 2 {
            return (ScoringHands::TwoPair, p);
        } else if pairs == 1 {
            return (ScoringHands::OnePair, p);
        }
    }
    proof {
        lemma_pairs_need_a_pair(cards@, (ACE + 1) as nat);
        lemma_rank_count_positive(cards@, 0);
        lemma_highest_below(cards@, Pattern::Present, (ACE + 1) as nat);
        assert(pattern_at(cards@, Pattern::Present, cards@[0].rank.spec_value() as int));
    }
    match highest_exec(&cards, Pattern::Present) {
        Some(h) => (ScoringHands::HighCard, h),
        None => (ScoringHands::HighCard, 0),
    }
}

/// When some rank value below `k` is held by exactly two cards, the highest such
/// value is found.
proof fn lemma_pairs_need_a_pair(cards: Seq<Card>, k: nat)
    ensures
        pairs_below(cards, k) > 0 ==> highest_below(cards, Pattern::Group(2), k) >= 0,
    decreases k,
{
    if k > 0 {
        lemma_pairs_need_a_pair(cards, (k - 1) as nat);
    }
}

/// Seven cards that hold the ten, jack, queen, king and ace of one suit, that is
/// a straight flush up to the ace, rank as a royal flush with the ace as tie-break.
pub proof fn royal_flush_law(hole: [Card; 2], community: [Card; 5], s: Suit)
    requires
        run_in_suit(hole@ + community@, ACE as int, s),
    ensures
        hand_score(hole@, community@) == (ScoringHands::RoyalFlush, ACE as int),
{
    let cards = hole@ + community@;
    assert(pattern_at(cards, Pattern::StraightFlush, ACE as int));
    lemma_highest_below(cards, Pattern::StraightFlush, (ACE + 1) as nat);
}

/// The order on categories is total, antisymmetric and transitive, and runs
/// `Unscored < HighCard < OnePair < TwoPair < ThreeOfAKind < Straight < Flush <
/// FullHouse < FourOfAKind < StraightFlush < RoyalFlush`.
pub proof fn scoring_order_law(a: ScoringHands, b: ScoringHands, c: ScoringHands)
    ensures
        a.partial_cmp_spec(&b) is Some,
        a.partial_cmp_spec(&b) == Some(Ordering::Equal) <==> a == b,
        a.partial_cmp_spec(&b) == Some(Ordering::Less) <==> b.partial_cmp_spec(&a) == Some(
            Ordering::Greater,
        ),
        a.partial_cmp_spec(&b) == Some(Ordering::Less) && b.partial_cmp_spec(&c) == Some(
            Ordering::Less,
        ) ==> a.partial_cmp_spec(&c) == Some(Ordering::Less),
        ScoringHands::Unscored.partial_cmp_spec(&ScoringHands::HighCard) == Some(Ordering::Less),
        ScoringHands::HighCard.partial_cmp_spec(&ScoringHands::OnePair) == Some(Ordering::Less),
        ScoringHands::OnePair.partial_cmp_spec(&ScoringHands::TwoPair) == Some(Ordering::Less),
        ScoringHands::TwoPair.partial_cmp_spec(&ScoringHands::ThreeOfAKind) == Some(Ordering::Less),
        ScoringHands::ThreeOfAKind.partial_cmp_spec(&ScoringHands::Straight) == Some(
            Ordering::Less,
        ),
        ScoringHands::Straight.partial_cmp_spec(&ScoringHands::Flush) == Some(Ordering::Less),
        ScoringHands::Flush.partial_cmp_spec(&ScoringHands::FullHouse) == Some(Ordering::Less),
        ScoringHands::FullHouse.partial_cmp_spec(&ScoringHands::FourOfAKind) == Some(
            Ordering::Less,
        ),
        ScoringHands::FourOfAKind.partial_cmp_spec(&ScoringHands::StraightFlush) == Some(
            Ordering::Less,
        ),
        ScoringHands::StraightFlush.partial_cmp_spec(&ScoringHands::RoyalFlush) == Some(
            Ordering::Less,
        ),
{
}

/// A player's two hole cards and the last value computed for them.
#[derive(Debug, Clone, Copy)]
pub struct Hand {
    pub cards: [Card; 2],
    pub value: (ScoringHands, u8),
}

impl Hand {
    /// No card dealt and no value computed.
    pub open spec fn is_fresh(self) -> bool {
        &&& self.cards@ == seq![blank(), blank()]
        &&& self.value == (ScoringHands::Unscored, 0u8)
    }

    pub fn new() -> (r: Hand)
        ensures
            r.is_fresh(),
    {
        let r = Hand { cards: [Card::blank(); 2], value: (ScoringHands::Unscored, 0) };
        assert(r.cards@ =~= seq![blank(), blank()]);
        r
    }

    /// Returns the cards to the deck: no card, no value.
    pub fn reset(&mut self)
        ensures
            final(self).is_fresh(),
    {
        self.cards = [Card::blank(); 2];
        self.value = (ScoringHands::Unscored, 0);
        assert(self.cards@ =~= seq![blank(), blank()]);
    }

    /// Deals two cards from the deck into the hand.
    pub fn fill(&mut self, deck: &mut Deck)
        requires
            old(deck).wf(),
            old(deck).dealt + 2 <= 52,
        ensures
            final(deck).wf(),
            final(deck).dealt == old(deck).dealt + 2,
            final(deck)@ == old(deck)@,
            final(self).cards@ == old(deck)@.subrange(old(deck).dealt as int, old(deck).dealt + 2),
            final(self).value == old(self).value,
    {
        self.cards[0] = deck.deal();
        self.cards[1] = deck.deal();
        assert(self.cards@ =~= old(deck)@.subrange(old(deck).dealt as int, old(deck).dealt + 2));
    }

    /// Ranks the hand against the community cards and keeps the result.
    pub fn hand_value(&mut self, community: &Community) -> (r: (ScoringHands, u8))
        ensures
            r.0 == hand_score(old(self).cards@, community.cards@).0,
            r.1 as int == hand_score(old(self).cards@, community.cards@).1,
            final(self).cards == old(self).cards,
            final(self).value == r,
    {
        self.value = self.determine_value(community);
        self.value
    }

    /// Ranks the hand against the community cards.
    pub fn determine_value(&mut self, community: &Community) -> (r: (ScoringHands, u8))
        ensures
            r.0 == hand_score(old(self).cards@, community.cards@).0,
            r.1 as int == hand_score(old(self).cards@, community.cards@).1,
            *final(self) == *old(self),
    {
        evaluate(&self.cards, &community.cards)
    }
}

} // verus!
