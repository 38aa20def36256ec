use vstd::prelude::*;
use crate::hand::Hand;

verus! {

/// What a player did last in the current betting round; `Pending` means the
/// player has not acted yet.
#[derive(PartialEq, Eq, Debug, Clone, Copy, Structural)]
pub enum PlayerAction {
    Fold,
    Check,
    Call,
    Raise,
    AllIn,
    Pending,
}

/// The bank of a player for whom none is given: one hundred chips.
pub const DEFAULT_BANK: u64 = 100_000;

/// A seat at the table: the player's money, cards and betting state. `bid` is
/// what the player has put in during the current betting round.
#[derive(Debug)]
pub struct Player {
    pub id: u8,
    pub name: String,
    pub bank: u64,
    pub hand: Hand,
    pub last_action: PlayerAction,
    pub bid: u64,
}

impl Player {
    /// The player with `last_action` set to `a`, all else kept.
    pub open spec fn acted(self, a: PlayerAction) -> Player {
        Player { last_action: a, ..self }
    }

    /// The player after moving `amount` from the bank to the bid and acting `a`.
    pub open spec fn paid(self, amount: int, a: PlayerAction) -> Player {
        Player { bank: (self.bank - amount) as u64, bid: (self.bid + amount) as u64, last_action: a, ..self }
    }

    /// The state in which a player starts a hand: no cards, no action, no bid.
    pub open spec fn at_hand_start(self) -> bool {
        &&& self.hand.is_fresh()
        &&& self.last_action == PlayerAction::Pending
        &&& self.bid == 0
    }

    pub open spec fn spec_is_active(&self) -> bool {
        &&& self.bank > 0
        &&& self.last_action != PlayerAction::Fold
        &&& self.last_action != PlayerAction::AllIn
    }

    pub open spec fn spec_has_live_hand(&self) -> bool {
        self.last_action != PlayerAction::Fold
    }

    /// A player with the given bank, or one hundred chips when none is given.
    pub fn new(id: u8, name: String, bank: Option<u64>) -> (r: Player)
        ensures
            r.id == id,
            r.name == name,
            r.bank == match bank {
                Some(b) => b,
                None => DEFAULT_BANK,
            },
            r.at_hand_start(),
    {
        let bank = match bank {
            Some(b) => b,
            None => DEFAULT_BANK,
        };
        Player { id, name, bank, hand: Hand::new(), last_action: PlayerAction::Pending, bid: 0 }
    }

    /// Clears the hand, the last action and the bid for a new hand.
    pub fn reset(&mut self)
        ensures
            final(self).at_hand_start(),
            final(self).id == old(self).id,
            final(self).name == old(self).name,
            final(self).bank == old(self).bank,
    {
        self.hand.reset();
        self.last_action = PlayerAction::Pending;
        self.bid = 0;
    }

    /// Raises the player's bid to `total_bid`. Returns `total_bid`, or 0 with
    /// nothing changed when the bank cannot pay the difference.
    pub fn raise(&mut self, total_bid: u64) -> (r: u64)
        requires
            old(self).bid <= total_bid,
        ensures
            total_bid - old(self).bid > old(self).bank ==> r == 0 && *final(self) == *old(self),
            total_bid - old(self).bid <= old(self).bank ==> r == total_bid && *final(self)
                == old(self).paid(total_bid - old(self).bid, PlayerAction::Raise),
    {
        let bid_diff = total_bid - self.bid;
        if bid_diff > self.bank {
            return 0;
        }
        self.bank -= bid_diff;
        self.bid += bid_diff;
        self.last_action = PlayerAction::Raise;
        total_bid
    }

    /// Matches the table bid `current_bid`. Returns what was added to the bid, or
    /// 0 with nothing changed when the bank cannot pay it.
    pub fn call(&mut self, current_bid: u64) -> (r: u64)
        requires
            old(self).bid <= current_bid,
        ensures
            current_bid - old(self).bid > old(self).bank ==> r == 0 && *final(self) == *old(self),
            current_bid - old(self).bid <= old(self).bank ==> r == current_bid - old(self).bid
                && *final(self) == old(self).paid(current_bid - old(self).bid, PlayerAction::Call),
    {
        let bid_diff = current_bid - self.bid;
        if bid_diff > self.bank {
            return 0;
        }
        self.bank -= bid_diff;
        self.bid = current_bid;
        self.last_action = PlayerAction::Call;
        bid_diff
    }

    pub fn check(&mut self)
        ensures
            *final(self) == old(self).acted(PlayerAction::Check),
    {
        self.last_action = PlayerAction::Check;
    }

    pub fn fold(&mut self)
        ensures
            *final(self) == old(self).acted(PlayerAction::Fold),
    {
        self.last_action = PlayerAction::Fold;
    }

    /// Puts the whole bank into the bid and returns the amount.
    pub fn all_in(&mut self) -> (r: u64)
        requires
            old(self).bid + old(self).bank <= u64::MAX,
        ensures
            r == old(self).bank,
            *final(self) == old(self).paid(old(self).bank as int, PlayerAction::AllIn),
            final(self).bank == 0,
            final(self).bid == old(self).bid + old(self).bank,
    {
        let amount = self.bank;
        self.bank = 0;
        self.bid += amount;
        self.last_action = PlayerAction::AllIn;
        amount
    }

    /// Posts a forced blind of `amount`, or the whole bank when it holds less; a
    /// blind that empties the bank counts as going all in. Returns what was posted.
    pub fn post_blind(&mut self, amount: u64) -> (r: u64)
        requires
            old(self).bid + old(self).bank <= u64::MAX,
        ensures
            r == if amount < old(self).bank {
                amount
            } else {
                old(self).bank
            },
            r < old(self).bank ==> *final(self) == old(self).paid(r as int, old(self).last_action),
            r == old(self).bank ==> *final(self) == old(self).paid(r as int, PlayerAction::AllIn),
    {
        let posted = if amount < self.bank {
            amount
        } else {
            self.bank
        };
        self.bank -= posted;
        self.bid += posted;
        if self.bank == 0 {
            self.last_action = PlayerAction::AllIn;
        }
        posted
    }

    /// The player may still act in this betting round: money left, neither
    /// folded nor all in.
    #[verifier::when_used_as_spec(spec_is_active)]
    pub fn is_active(&self) -> (r: bool)
        ensures
            r == self.spec_is_active(),
    {
        self.bank > 0 && self.last_action != PlayerAction::Fold && self.last_action
            != PlayerAction::AllIn
    }

    /// The player still contests the pot: not folded. An all-in player has a
    /// live hand without being active.
    #[verifier::when_used_as_spec(spec_has_live_hand)]
    pub fn has_live_hand(&self) -> (r: bool)
        ensures
            r == self.spec_has_live_hand(),
    {
        self.last_action != PlayerAction::Fold
    }

    /// Carries out the action a player chose at the prompt, against the table
    /// bid `current_bid` (none counts as 0). Returns the action taken and what it
    /// moved from the bank to the bid, or `None` with nothing changed when the
    /// action is not allowed: a check while the table bid is above the player's,
    /// a call or raise that the bank cannot pay, a raise without an amount, or
    /// no action at all. A player who has folded or gone all in keeps that action.
    pub fn respond(&mut self, action: PlayerAction, amount: Option<u64>, current_bid: Option<u64>) -> (r:
        Option<(PlayerAction, u64)>)
        requires
            old(self).bid <= table_bid(current_bid),
            old(self).bid + old(self).bank <= u64::MAX,
            table_bid(current_bid) + old(self).bank <= u64::MAX,
        ensures
            r == response(*old(self), action, amount, table_bid(current_bid)),
            r is None ==> *final(self) == *old(self),
            r matches Some((a, moved)) ==> *final(self) == old(self).paid(moved as int, a),
    {
        if self.last_action == PlayerAction::Fold || self.last_action == PlayerAction::AllIn {
            return Some((self.last_action, 0));
        }
        let table = match current_bid {
            Some(b) => b,
            None => 0,
        };
        match action {
            PlayerAction::Fold => {
                self.fold();
                Some((PlayerAction::Fold, 0))
            },
            PlayerAction::Check => {
                if table > self.bid {
                    None
                } else {
                    self.check();
                    Some((PlayerAction::Check, 0))
                }
            },
            PlayerAction::Call => {
                if table - self.bid > self.bank {
                    None
                } else {
                    let moved = self.call(table);
                    Some((PlayerAction::Call, moved))
                }
            },
            PlayerAction::AllIn => {
                let moved = self.all_in();
                Some((PlayerAction::AllIn, moved))
            },
            PlayerAction::Raise => {
                match amount {
                    Some(raise) => {
                        if raise > self.bank || table + raise - self.bid > self.bank {
                            None
                        } else {
                            let bid_before = self.bid;
                            self.raise(table + raise);
                            Some((PlayerAction::Raise, table + raise - bid_before))
                        }
                    },
                    None => None,
                }
            },
            PlayerAction::Pending => None,
        }
    }
}

/// The table bid that `respond` plays against: none counts as 0.
pub open spec fn table_bid(current_bid: Option<u64>) -> u64 {
    match current_bid {
        Some(b) => b,
        None => 0,
    }
}

/// The outcome of `respond` for player `p`: the action taken and the amount it
/// moves from bank to bid, or `None` when it is refused.
pub open spec fn response(p: Player, action: PlayerAction, amount: Option<u64>, table: u64) -> Option<
    (PlayerAction, u64),
> {
    if p.last_action == PlayerAction::Fold || p.last_action == PlayerAction::AllIn {
        Some((p.last_action, 0u64))
    } else {
        match action {
            PlayerAction::Fold => Some((PlayerAction::Fold, 0u64)),
            PlayerAction::Check => if table > p.bid {
                None
            } else {
                Some((PlayerAction::Check, 0u64))
            },
            PlayerAction::Call => if table - p.bid > p.bank {
                None
            } else {
                Some((PlayerAction::Call, (table - p.bid) as u64))
            },
            PlayerAction::AllIn => Some((PlayerAction::AllIn, p.bank)),
            PlayerAction::Raise => match amount {
                Some(raise) => if table + raise - p.bid > p.bank {
                    None
                } else {
                    Some((PlayerAction::Raise, (table + raise - p.bid) as u64))
                },
                None => None,
            },
            PlayerAction::Pending => None,
        }
    }
}

/// `b` is the ASCII code of a decimal digit.
pub open spec fn is_digit(b: u8) -> bool {
    48 <= b <= 57
}

/// Every byte of `d` is a decimal digit.
pub open spec fn all_digits(d: Seq<u8>) -> bool {
    forall|i: int| 0 <= i < d.len() ==> is_digit(#[trigger] d[i])
}

/// The number written by the decimal digits `d`, most significant first.
pub open spec fn digits_value(d: Seq<u8>) -> nat
    decreases d.len(),
{
    if d.len() == 0 {
        0
    } else {
        digits_value(d.drop_last()) * 10 + (d.last() - 48) as nat
    }
}

/// The position of the first decimal point in `text` at `i` or after, or the
/// length of `text` when there is none.
pub open spec fn point_from(text: Seq<u8>, i: int) -> int
    decreases text.len() - i,
{
    if i >= text.len() {
        text.len() as int
    } else if text[i] == 46 {
        i
    } else {
        point_from(text, i + 1)
    }
}

/// Thousandths in one unit of the `n`-th fraction digit's place, for `n` up to 3.
pub open spec fn fraction_scale(n: nat) -> nat {
    if n == 1 {
        100
    } else if n == 2 {
        10
    } else {
        1
    }
}

/// The amount, in thousandths of a chip, written by `text` in chips: one or
/// more digits, then optionally a point and one to three digits.
pub open spec fn amount_value(text: Seq<u8>) -> Option<int> {
    let p = point_from(text, 0);
    let whole = text.take(p);
    let fraction = if p < text.len() {
        text.skip(p + 1)
    } else {
        Seq::empty()
    };
    if whole.len() >= 1 && all_digits(whole) && all_digits(fraction) && fraction.len() <= 3 && (p
        < text.len() ==> fraction.len() >= 1) {
        Some((digits_value(whole) * 1000 + digits_value(fraction) * fraction_scale(fraction.len())) as int)
    } else {
        None
    }
}

proof fn lemma_digits_value_prefix(d: Seq<u8>, k: int)
    requires
        0 <= k <= d.len(),
    ensures
        digits_value(d) >= digits_value(d.take(k)),
    decreases d.len(),
{
    if k < d.len() {
        lemma_digits_value_prefix(d.drop_last(), k);
        assert(d.drop_last().take(k) =~= d.take(k));
    } else {
        assert(d.take(k) =~= d);
    }
}

/// Reads an amount typed in chips (`12`, `0.25`, `3.5`) as thousandths of a
/// chip. Returns `None` when the text is not such an amount or the amount does
/// not fit in a `u64`.
pub fn parse_amount(text: &[u8]) -> (r: Option<u64>)
    ensures
        r == match amount_value(text@) {
            Some(v) => if v <= u64::MAX {
                Some(v as u64)
            } else {
                None
            },
            None => None,
        },
{
    let n = text.len();
    let mut whole: u64 = 0;
    let mut i: usize = 0;
    while i < n && text[i] != 46
        invariant
            i <= n == text@.len(),
            point_from(text@, 0) == point_from(text@, i as int),
            all_digits(text@.take(i as int)),
            whole == digits_value(text@.take(i as int)),
            whole <= 18446744073709551,
        decreases n - i,
    {
        let b = text[i];
        if b < 48 || b > 57 {
            proof {
                lemma_point_after(text@, i as int);
                assert(text@.take(point_from(text@, 0))[i as int] == b);
            }
            return None;
        }
        assert(text@.take(i + 1).drop_last() =~= text@.take(i as int));
        let next = whole * 10 + (b - 48) as u64;
        if next > 18446744073709551 {
            proof {
                lemma_point_after(text@, i as int);
                let p = point_from(text@, 0);
                let whole_part = text@.take(p);
                if all_digits(whole_part) {
                    lemma_digits_value_prefix(whole_part, i + 1);
                    assert(whole_part.take(i + 1) =~= text@.take(i + 1));
                }
            }
            return None;
        }
        whole = next;
        i += 1;
    }
    assert(text@.take(point_from(text@, 0)) =~= text@.take(i as int));
    if i == 0 {
        return None;
    }
    let mut fraction: u64 = 0;
    let mut digits: usize = 0;
    if i < n {
        let start = i + 1;
        if n - start == 0 || n - start > 3 {
            return None;
        }
        let mut j: usize = start;
        while j < n
            invariant
                start <= j <= n == text@.len(),
                1 <= start,
                point_from(text@, 0) == start - 1,
                n - start <= 3,
                all_digits(text@.subrange(start as int, j as int)),
                fraction == digits_value(text@.subrange(start as int, j as int)),
                fraction < 1000,
                fraction < if j - start == 0 { 1int } else if j - start == 1 { 10int } else if j - start == 2 { 100int } else { 1000int },
            decreases n - j,
        {
            let b = text[j];
            if b < 48 || b > 57 {
                proof {
                    assert(text@.skip(start as int)[j - start] == b);
                    assert(!is_digit(b));
                    assert(!all_digits(text@.skip(start as int)));
                }
                return None;
            }
            assert(text@.subrange(start as int, j + 1).drop_last() =~= text@.subrange(start as int, j as int));
            fraction = fraction * 10 + (b - 48) as u64;
            j += 1;
        }
        assert(text@.skip(start as int) =~= text@.subrange(start as int, n as int));
        digits = n - start;
    } else {
        assert(text@.take(n as int) =~= text@);
    }
    let scale: u64 = if digits == 1 {
        100
    } else if digits == 2 {
        10
    } else {
        1
    };
    let base = whole * 1000;
    let part = fraction * scale;
    if base > u64::MAX - part {
        return None;
    }
    Some(base + part)
}

proof fn lemma_point_after(text: Seq<u8>, i: int)
    requires
        0 <= i < text.len(),
        text[i] != 46,
        point_from(text, 0) == point_from(text, i),
    ensures
        i < point_from(text, 0) <= text.len(),
{
    lemma_point_bound(text, i + 1);
}

proof fn lemma_point_bound(text: Seq<u8>, i: int)
    requires
        0 <= i <= text.len(),
    ensures
        i <= point_from(text, i) <= text.len(),
    decreases text.len() - i,
{
    if i < text.len() && text[i] != 46 {
        lemma_point_bound(text, i + 1);
    }
}

/// `b` is an ASCII blank: space, tab, line feed, vertical tab, form feed or
/// carriage return.
pub open spec fn is_blank(b: u8) -> bool {
    b == 32 || (9 <= b && b <= 13)
}

/// `b` with an ASCII capital letter made small.
pub open spec fn ascii_lower(b: u8) -> u8 {
    if 65 <= b && b <= 90 {
        (b + 32) as u8
    } else {
        b
    }
}

/// The first position at `i` or after that is not blank, or the length of `s`.
pub open spec fn lead_from(s: Seq<u8>, i: int) -> int
    decreases s.len() - i,
{
    if i >= s.len() {
        s.len() as int
    } else if !is_blank(s[i]) {
        i
    } else {
        lead_from(s, i + 1)
    }
}

/// The end of the first `j` bytes of `s` without their trailing blanks.
pub open spec fn trail_to(s: Seq<u8>, j: int) -> int
    decreases j,
{
    if j <= 0 {
        0
    } else if !is_blank(s[j - 1]) {
        j
    } else {
        trail_to(s, j - 1)
    }
}

/// `s` without blanks at either end.
pub open spec fn trimmed(s: Seq<u8>) -> Seq<u8> {
    let a = lead_from(s, 0);
    let b = trail_to(s, s.len() as int);
    if b <= a {
        Seq::empty()
    } else {
        s.subrange(a, b)
    }
}

/// The position of the first space in `s` at `i` or after, or the length of `s`.
pub open spec fn space_from(s: Seq<u8>, i: int) -> int
    decreases s.len() - i,
{
    if i >= s.len() {
        s.len() as int
    } else if s[i] == 32 {
        i
    } else {
        space_from(s, i + 1)
    }
}

/// The action and amount that a line typed at the prompt asks for. The line is
/// trimmed and made lower case; its first word, up to a space, names the action:
/// `fold`, `check`, `call`, `all-in`, or `raise`, which takes exactly one more
/// word, an amount in chips (see `amount_value`). Anything else asks for nothing.
pub open spec fn command_of(line: Seq<u8>) -> Option<(PlayerAction, Option<u64>)> {
    let text = trimmed(line).map_values(|b: u8| ascii_lower(b));
    let sp = space_from(text, 0);
    let word = text.take(sp);
    let rest = if sp < text.len() {
        text.skip(sp + 1)
    } else {
        Seq::empty()
    };
    if word == seq![102u8, 111, 108, 100] {
        Some((PlayerAction::Fold, None))
    } else if word == seq![99u8, 104, 101, 99, 107] {
        Some((PlayerAction::Check, None))
    } else if word == seq![99u8, 97, 108, 108] {
        Some((PlayerAction::Call, None))
    } else if word == seq![97u8, 108, 108, 45, 105, 110] {
        Some((PlayerAction::AllIn, None))
    } else if word == seq![114u8, 97, 105, 115, 101] && sp < text.len() && space_from(rest, 0)
        == rest.len() {
        match amount_value(rest) {
            Some(v) => if v <= u64::MAX {
                Some((PlayerAction::Raise, Some(v as u64)))
            } else {
                None
            },
            None => None,
        }
    } else {
        None
    }
}

fn blank_byte(b: u8) -> (r: bool)
    ensures
        r == is_blank(b),
{
    b == 32 || (9 <= b && b <= 13)
}

/// Whether the first `end` bytes of `text` are `kw`.
fn word_is(text: &Vec<u8>, end: usize, kw: &[u8]) -> (r: bool)
    requires
        end <= text@.len(),
    ensures
        r == (text@.take(end as int) == kw@),
{
    if end != kw.len() {
        assert(text@.take(end as int).len() != kw@.len());
        return false;
    }
    let mut i: usize = 0;
    while i < end
        invariant
            i <= end == kw@.len(),
            end <= text@.len(),
            forall|j: int| 0 <= j < i ==> text@[j] == kw@[j],
        decreases end - i,
    {
        if text[i] != kw[i] {
            assert(text@.take(end as int)[i as int] != kw@[i as int]);
            return false;
        }
        i += 1;
    }
    assert(text@.take(end as int) =~= kw@);
    true
}

/// Reads a line typed at the prompt (see `command_of`): the action asked for,
/// with the amount of a raise in thousandths of a chip, or `None` when the line
/// names no action.
pub fn parse_command(line: &[u8]) -> (r: Option<(PlayerAction, Option<u64>)>)
    ensures
        r == command_of(line@),
{
    let n = line.len();
    let mut a: usize = 0;
    while a < n && blank_byte(line[a])
        invariant
            a <= n == line@.len(),
            lead_from(line@, 0) == lead_from(line@, a as int),
        decreases n - a,
    {
        a += 1;
    }
    let mut b: usize = n;
    while b > 0 && blank_byte(line[b - 1])
        invariant
            b <= n == line@.len(),
            trail_to(line@, n as int) == trail_to(line@, b as int),
        decreases b,
    {
        b -= 1;
    }
    let ghost trim = trimmed(line@);
    let mut text: Vec<u8> = Vec::new();
    if a < b {
        let mut i: usize = a;
        while i < b
            invariant
                a <= i <= b <= n == line@.len(),
                text@ == line@.subrange(a as int, i as int).map_values(|c: u8| ascii_lower(c)),
            decreases b - i,
        {
            let c = line[i];
            let lower = if 65 <= c && c <= 90 {
                c + 32
            } else {
                c
            };
            text.push(lower);
            i += 1;
            assert(text@ =~= line@.subrange(a as int, i as int).map_values(|c: u8| ascii_lower(c)));
        }
    }
    assert(text@ =~= trim.map_values(|c: u8| ascii_lower(c)));
    let m = text.len();
    let mut sp: usize = 0;
    while sp < m && text[sp] != 32
        invariant
            sp <= m == text@.len(),
            space_from(text@, 0) == space_from(text@, sp as int),
        decreases m - sp,
    {
        sp += 1;
    }
    let fold: [u8; 4] = [102, 111, 108, 100];
    let check: [u8; 5] = [99, 104, 101, 99, 107];
    let call: [u8; 4] = [99, 97, 108, 108];
    let all_in: [u8; 6] = [97, 108, 108, 45, 105, 110];
    let raise: [u8; 5] = [114, 97, 105, 115, 101];
    assert(fold@ =~= seq![102u8, 111, 108, 100]);
    assert(check@ =~= seq![99u8, 104, 101, 99, 107]);
    assert(call@ =~= seq![99u8, 97, 108, 108]);
    assert(all_in@ =~= seq![97u8, 108, 108, 45, 105, 110]);
    assert(raise@ =~= seq![114u8, 97, 105, 115, 101]);
    if word_is(&text, sp, &fold) {
        return Some((PlayerAction::Fold, None));
    }
    if word_is(&text, sp, &check) {
        return Some((PlayerAction::Check, None));
    }
    if word_is(&text, sp, &call) {
        return Some((PlayerAction::Call, None));
    }
    if word_is(&text, sp, &all_in) {
        return Some((PlayerAction::AllIn, None));
    }
    if !word_is(&text, sp, &raise) || sp == m {
        return None;
    }
    assert(text@.take(sp as int) == seq![114u8, 97, 105, 115, 101]);
    let ghost rest_all = text@.skip(sp + 1);
    let mut rest: Vec<u8> = Vec::new();
    let mut k: usize = sp + 1;
    while k < m
        invariant
            sp < k <= m == text@.len(),
            text@ == trimmed(line@).map_values(|c: u8| ascii_lower(c)),
            sp == space_from(text@, 0),
            text@.take(sp as int) == seq![114u8, 97, 105, 115, 101],
            rest_all == text@.skip(sp + 1),
            rest@ == text@.subrange(sp + 1, k as int),
            space_from(rest_all, 0) == space_from(rest_all, k - sp - 1),
        decreases m - k,
    {
        if text[k] == 32 {
            assert(rest_all[k - sp - 1] == 32);
            return None;
        }
        rest.push(text[k]);
        k += 1;
    }
    assert(rest@ =~= rest_all);
    match parse_amount(rest.as_slice()) {
        Some(v) => Some((PlayerAction::Raise, Some(v))),
        None => None,
    }
}

/// A player after `reset` and a newly made player agree on hand, last action
/// and bid.
pub proof fn reset_law(reset: Player, fresh: Player)
    requires
        reset.at_hand_start(),
        fresh.at_hand_start(),
    ensures
        reset.hand == fresh.hand,
        reset.last_action == fresh.last_action,
        reset.bid == fresh.bid,
{
    assert(reset.hand.cards =~= fresh.hand.cards);
}

} // verus!
