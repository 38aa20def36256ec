use vstd::prelude::*;

verus! {

/// The suit of a card; `Unset` marks a slot that holds no card yet.
#[derive(Copy, Clone, Debug, PartialEq, Eq, PartialOrd, Ord, Hash, Structural)]
pub enum Suit {
    Unset,
    Clubs,
    Diamonds,
    Hearts,
    Spades,
}

/// The rank of a card, lowest first; `Unset` marks a slot that holds no card yet
/// and stands below every real rank.
#[derive(Copy, Clone, Debug, PartialEq, Eq, PartialOrd, Ord, Hash, Structural)]
pub enum Rank {
    Unset,
    Two,
    Three,
    Four,
    Five,
    Six,
    Seven,
    Eight,
    Nine,
    Ten,
    Jack,
    Queen,
    King,
    Ace,
}

/// The value of the ace, the highest rank.
pub const ACE: u8 = 13;

impl Rank {
    /// Position of the rank in the order `Unset < Two < ... < Ace`.
    pub open spec fn spec_value(self) -> u8 {
        match self {
            Rank::Unset => 0,
            Rank::Two => 1,
            Rank::Three => 2,
            Rank::Four => 3,
            Rank::Five => 4,
            Rank::Six => 5,
            Rank::Seven => 6,
            Rank::Eight => 7,
            Rank::Nine => 8,
            Rank::Ten => 9,
            Rank::Jack => 10,
            Rank::Queen => 11,
            Rank::King => 12,
            Rank::Ace => 13,
        }
    }

    #[verifier::when_used_as_spec(spec_value)]
    pub fn value(self) -> (r: u8)
        ensures
            r == self.spec_value(),
    {
        match self {
            Rank::Unset => 0,
            Rank::Two => 1,
            Rank::Three => 2,
            Rank::Four => 3,
            Rank::Five => 4,
            Rank::Six => 5,
            Rank::Seven => 6,
            Rank::Eight => 7,
            Rank::Nine => 8,
            Rank::Ten => 9,
            Rank::Jack => 10,
            Rank::Queen => 11,
            Rank::King => 12,
            Rank::Ace => 13,
        }
    }

    /// The rank whose value is `v`; values above the ace give the ace.
    pub open spec fn spec_from_value(v: u8) -> Rank {
        if v == 0 { Rank::Unset }
        else if v == 1 { Rank::Two }
        else if v == 2 { Rank::Three }
        else if v == 3 { Rank::Four }
        else if v == 4 { Rank::Five }
        else if v == 5 { Rank::Six }
        else if v == 6 { Rank::Seven }
        else if v == 7 { Rank::Eight }
        else if v == 8 { Rank::Nine }
        else if v == 9 { Rank::Ten }
        else if v == 10 { Rank::Jack }
        else if v == 11 { Rank::Queen }
        else if v == 12 { Rank::King }
        else { Rank::Ace }
    }

    /// The rank whose value is `v`.
    #[verifier::when_used_as_spec(spec_from_value)]
    pub fn from_value(v: u8) -> (r: Rank)
        requires
            v <= ACE,
        ensures
            r == Rank::spec_from_value(v),
            r.spec_value() == v,
    {
        match v {
            0 => Rank::Unset,
            1 => Rank::Two,
            2 => Rank::Three,
            3 => Rank::Four,
            4 => Rank::Five,
            5 => Rank::Six,
            6 => Rank::Seven,
            7 => Rank::Eight,
            8 => Rank::Nine,
            9 => Rank::Ten,
            10 => Rank::Jack,
            11 => Rank::Queen,
            12 => Rank::King,
            _ => Rank::Ace,
        }
    }
}

/// A playing card.
#[derive(Copy, Clone, Debug, PartialEq, Eq, Structural)]
pub struct Card {
    pub suit: Suit,
    pub rank: Rank,
}

/// The marker held by a slot that has not been dealt.
pub open spec fn blank() -> Card {
    Card { suit: Suit::Unset, rank: Rank::Unset }
}

impl Card {
    /// The marker held by a slot that has not been dealt.
    pub fn blank() -> (r: Card)
        ensures
            r == blank(),
    {
        Card { suit: Suit::Unset, rank: Rank::Unset }
    }

    /// A card that can come out of a deck: a real suit and a real rank.
    pub open spec fn is_real(self) -> bool {
        self.suit != Suit::Unset && self.rank != Rank::Unset
    }
}

/// The four real suits in the order in which a new deck holds them.
pub open spec fn suit_order(i: int) -> Suit {
    if i == 0 {
        Suit::Clubs
    } else if i == 1 {
        Suit::Diamonds
    } else if i == 2 {
        Suit::Hearts
    } else {
        Suit::Spades
    }
}

/// The card at position `i` of a new deck: suits in the order Clubs, Diamonds,
/// Hearts, Spades, and within each suit the ace first, then Two up to King.
pub open spec fn new_deck_card(i: int) -> Card {
    let k = i % 13;
    Card {
        suit: suit_order(i / 13),
        rank: if k == 0 { Rank::Ace } else { Rank::spec_from_value(k as u8) },
    }
}

/// The five shared cards: 0 to 2 are the flop, 3 the turn, 4 the river.
#[derive(Debug)]
pub struct Community {
    pub cards: [Card; 5],
}

impl Community {
    pub fn new() -> (r: Community)
        ensures
            forall|i: int| 0 <= i < 5 ==> r.cards@[i] == blank(),
    {
        Community { cards: [Card::blank(); 5] }
    }

    /// Clears all five slots.
    pub fn reset(&mut self)
        ensures
            forall|i: int| 0 <= i < 5 ==> final(self).cards@[i] == blank(),
    {
        self.cards = [Card::blank(); 5];
    }

    /// Deals the three flop cards from the deck into slots 0 to 2.
    pub fn flop(&mut self, deck: &mut Deck) -> (r: [Card; 3])
        requires
            old(deck).wf(),
            old(deck).dealt + 3 <= 52,
        ensures
            final(deck).wf(),
            final(deck).dealt == old(deck).dealt + 3,
            final(deck).view() == old(deck).view(),
            r@ == old(deck).view().subrange(old(deck).dealt as int, old(deck).dealt + 3),
            final(self).cards@ == r@ + old(self).cards@.subrange(3, 5),
    {
        let cards = [deck.deal(), deck.deal(), deck.deal()];
        self.cards[0] = cards[0];
        self.cards[1] = cards[1];
        self.cards[2] = cards[2];
        assert(final(self).cards@ =~= cards@ + old(self).cards@.subrange(3, 5));
        assert(cards@ =~= old(deck).view().subrange(old(deck).dealt as int, old(deck).dealt + 3));
        cards
    }

    /// Deals the turn card from the deck into slot 3.
    pub fn turn(&mut self, deck: &mut Deck) -> (r: Card)
        requires
            old(deck).wf(),
            old(deck).dealt < 52,
        ensures
            final(deck).wf(),
            final(deck).dealt == old(deck).dealt + 1,
            final(deck).view() == old(deck).view(),
            r == old(deck).view()[old(deck).dealt as int],
            final(self).cards@ == old(self).cards@.update(3, r),
    {
        self.cards[3] = deck.deal();
        self.cards[3]
    }

    /// Deals the river card from the deck into slot 4.
    pub fn river(&mut self, deck: &mut Deck) -> (r: Card)
        requires
            old(deck).wf(),
            old(deck).dealt < 52,
        ensures
            final(deck).wf(),
            final(deck).dealt == old(deck).dealt + 1,
            final(deck).view() == old(deck).view(),
            r == old(deck).view()[old(deck).dealt as int],
            final(self).cards@ == old(self).cards@.update(4, r),
    {
        self.cards[4] = deck.deal();
        self.cards[4]
    }
}

/// A deck of 52 cards, dealt from the front; `dealt` counts the cards handed out
/// since the last shuffle.
#[derive(Copy, Clone, Debug)]
pub struct Deck {
    pub cards: [Card; 52],
    pub dealt: usize,
}

impl View for Deck {
    type V = Seq<Card>;

    /// The cards in the order in which they are dealt.
    open spec fn view(&self) -> Seq<Card> {
        self.cards@
    }
}

impl Deck {
    /// No more cards have been dealt than the deck holds, and every card is real.
    pub open spec fn wf(&self) -> bool {
        &&& self.dealt <= 52
        &&& self.cards@.len() == 52
        &&& forall|i: int| 0 <= i < 52 ==> (#[trigger] self.cards@[i]).is_real()
    }

    /// A deck in the order of `new_deck_card`, nothing dealt.
    pub fn new() -> (r: Deck)
        ensures
            r.wf(),
            r.dealt == 0,
            r@ == Seq::new(52, |i: int| new_deck_card(i)),
    {
        let mut cards = [Card { suit: Suit::Clubs, rank: Rank::Ace }; 52];
        let suits = [Suit::Clubs, Suit::Diamonds, Suit::Hearts, Suit::Spades];
        let mut i: usize = 0;
        while i < 52
            invariant
                i <= 52,
                cards@.len() == 52,
                suits@ == seq![Suit::Clubs, Suit::Diamonds, Suit::Hearts, Suit::Spades],
                forall|j: int| 0 <= j < i ==> cards@[j] == new_deck_card(j),
                forall|j: int| 0 <= j < i ==> (#[trigger] cards@[j]).is_real(),
            decreases 52 - i,
        {
            let k = (i % 13) as u8;
            let rank = if k == 0 { Rank::Ace } else { Rank::from_value(k) };
            cards[i] = Card { suit: suits[i / 13], rank };
            i = i + 1;
        }
        Deck { cards, dealt: 0 }
    }

    /// Puts the cards in a random order and starts dealing from the top again.
    pub fn shuffle(&mut self)
        requires
            old(self).wf(),
        ensures
            final(self).wf(),
            final(self).dealt == 0,
            final(self)@.to_multiset() == old(self)@.to_multiset(),
    {
        shuffle_in_place(&mut self.cards);
        self.dealt = 0;
        proof {
            lemma_permutation_keeps_real(old(self).cards@, self.cards@);
        }
    }

    /// Hands out the next card.
    pub fn deal(&mut self) -> (r: Card)
        requires
            old(self).wf(),
            old(self).dealt < 52,
        ensures
            final(self).wf(),
            final(self).dealt == old(self).dealt + 1,
            final(self)@ == old(self)@,
            r == old(self)@[old(self).dealt as int],
            r.is_real(),
    {
        let card = self.cards[self.dealt];
        self.dealt += 1;
        card
    }

    /// Burns the next card.
    pub fn discard(&mut self)
        requires
            old(self).wf(),
            old(self).dealt < 52,
        ensures
            final(self).wf(),
            final(self).dealt == old(self).dealt + 1,
            final(self)@ == old(self)@,
    {
        self.dealt += 1;
    }
}

/// A reordering of a sequence of real cards holds real cards only.
proof fn lemma_permutation_keeps_real(a: Seq<Card>, b: Seq<Card>)
    requires
        a.to_multiset() == b.to_multiset(),
        forall|i: int| 0 <= i < a.len() ==> (#[trigger] a[i]).is_real(),
    ensures
        forall|j: int| 0 <= j < b.len() ==> (#[trigger] b[j]).is_real(),
{
    broadcast use vstd::seq_lib::group_to_multiset_ensures;
    assert forall|j: int| 0 <= j < b.len() implies (#[trigger] b[j]).is_real() by {
        assert(b.contains(b[j]));
        assert(b.to_multiset().count(b[j]) > 0);
        assert(a.to_multiset().count(b[j]) > 0);
        assert(a.contains(b[j]));
        let i = choose|i: int| 0 <= i < a.len() && a[i] == b[j];
        assert(a[i].is_real());
    }
}

/// Relies on rand's `SliceRandom::shuffle`, driven by `rand::thread_rng()`: the
/// shuffle only swaps elements of the slice, so what comes out is a reordering
/// of what went in.
#[verifier::external_body]
pub(crate) fn shuffle_in_place<T>(items: &mut [T])
    ensures
        final(items)@.len() == old(items)@.len(),
        final(items)@.to_multiset() == old(items)@.to_multiset(),
{
    rand::seq::SliceRandom::shuffle(items, &mut rand::thread_rng())
}

} // verus!
