use vstd::prelude::*;
use crate::card::{Card, Rank};
use crate::deck::Deck;

verus! {

/// A player's wagerable balance, in chips.
pub type Chips = u32;

/// The score of a hand.
pub type HandValue = u8;

/// The sum of the point values of the hand's non-Ace ranks.
pub open spec fn base_sum(ranks: Seq<Rank>) -> nat
    decreases ranks.len(),
{
    if ranks.len() == 0 {
        0
    } else {
        let r = ranks.last();
        base_sum(ranks.drop_last()) + if r == Rank::Ace { 0nat } else { r.spec_value() }
    }
}

/// How many Aces the hand holds.
pub open spec fn ace_count(ranks: Seq<Rank>) -> nat
    decreases ranks.len(),
{
    if ranks.len() == 0 {
        0
    } else {
        ace_count(ranks.drop_last()) + if ranks.last() == Rank::Ace { 1nat } else { 0nat }
    }
}

/// Folds `aces` Aces into `total` one at a time: each counts 11 if that keeps
/// the total at 21 or less, else 1.
pub open spec fn fold_aces(total: nat, aces: nat) -> nat
    decreases aces,
{
    if aces == 0 {
        total
    } else {
        fold_aces(if total + 11 <= 21 { total + 11 } else { total + 1 }, (aces - 1) as nat)
    }
}

/// The best value of a hand: the non-Ace values summed, then the Aces folded
/// in greedily.
pub open spec fn hand_value(ranks: Seq<Rank>) -> nat {
    fold_aces(base_sum(ranks), ace_count(ranks))
}

/// Greedy folding counts at most one Ace as 11.
pub proof fn lemma_fold_aces_bounds(total: nat, aces: nat)
    ensures
        total + aces <= fold_aces(total, aces) <= total + aces + 10,
        total >= 11 ==> fold_aces(total, aces) == total + aces,
    decreases aces,
{
    if aces > 0 {
        lemma_fold_aces_bounds(if total + 11 <= 21 { total + 11 } else { total + 1 }, (aces - 1) as nat);
    }
}

/// Greedy folding in closed form: the first Ace counts 11 exactly when the
/// total before it is 10 or less.
pub proof fn lemma_fold_aces_closed(total: nat, aces: nat)
    ensures
        fold_aces(total, aces) == total + aces + if total <= 10 && aces > 0 { 10nat } else { 0nat },
    decreases aces,
{
    if aces > 0 {
        lemma_fold_aces_closed(if total + 11 <= 21 { total + 11 } else { total + 1 }, (aces - 1) as nat);
    }
}

/// The value of a hand from its non-Ace sum and its number of Aces.
fn value_of_parts(base: u64, aces: u64) -> (r: u64)
    requires
        base + aces <= u8::MAX,
    ensures
        r == fold_aces(base as nat, aces as nat),
{
    proof {
        lemma_fold_aces_closed(base as nat, aces as nat);
    }
    if base <= 10 && aces > 0 {
        base + aces + 10
    } else {
        base + aces
    }
}

/// Both parts of the score only grow along a hand.
proof fn lemma_prefix_parts(ranks: Seq<Rank>, i: int)
    requires
        0 <= i <= ranks.len(),
    ensures
        base_sum(ranks.take(i)) <= base_sum(ranks),
        ace_count(ranks.take(i)) <= ace_count(ranks),
    decreases ranks.len() - i,
{
    if i < ranks.len() {
        lemma_prefix_parts(ranks, i + 1);
        assert(ranks.take(i + 1).drop_last() =~= ranks.take(i));
    } else {
        assert(ranks.take(i) =~= ranks);
    }
}

/// Scores a hand: the non-Ace ranks are summed, then each Ace in turn adds 11
/// if the total stays at 21 or less, and 1 otherwise.
pub fn best_hand_value(ranks: Vec<Rank>) -> (r: HandValue)
    requires
        hand_value(ranks@) <= u8::MAX,
    ensures
        r == hand_value(ranks@),
{
    let mut base: u8 = 0;
    let mut aces: u8 = 0;
    let mut i: usize = 0;
    proof {
        lemma_fold_aces_bounds(base_sum(ranks@), ace_count(ranks@));
    }
    while i < ranks.len()
        invariant
            i <= ranks.len(),
            base == base_sum(ranks@.take(i as int)),
            aces == ace_count(ranks@.take(i as int)),
            base_sum(ranks@) + ace_count(ranks@) <= u8::MAX,
        decreases ranks.len() - i,
    {
        proof {
            assert(ranks@.take(i + 1).drop_last() =~= ranks@.take(i as int));
            lemma_prefix_parts(ranks@, i + 1);
        }
        let r = ranks[i];
        if r == Rank::Ace {
            aces = aces + 1;
        } else {
            base = base + r.value();
        }
        i = i + 1;
    }
    assert(ranks@.take(i as int) =~= ranks@);
    let mut total: u8 = base;
    let mut k: u8 = 0;
    while k < aces
        invariant
            k <= aces,
            fold_aces(total as nat, (aces - k) as nat) == hand_value(ranks@),
            hand_value(ranks@) <= u8::MAX,
        decreases aces - k,
    {
        proof {
            let next: nat = if total + 11 <= 21 { (total + 11) as nat } else { (total + 1) as nat };
            lemma_fold_aces_bounds(next, (aces - k - 1) as nat);
        }
        if total <= 10 {
            total = total + 11;
        } else {
            total = total + 1;
        }
        k = k + 1;
    }
    total
}


/// Why a bet is refused.
#[derive(PartialEq, Eq, Structural, Copy, Clone, Debug)]
pub enum Error {
    /// The bet is larger than the player's balance.
    InsufficientChips,
}

/// What the player chooses to do on their turn.
#[derive(PartialEq, Eq, Structural, Copy, Clone, Debug)]
pub enum Action {
    Hit,
    Stand,
}

/// One step of the dealer's turn.
#[derive(PartialEq, Eq, Structural, Copy, Clone, Debug)]
pub enum DealerAction {
    /// The dealer drew this card.
    Hit(Card),
    /// The dealer stopped with this value, 21 or less.
    Stand(HandValue),
    /// The dealer went over 21 with this value.
    Bust(HandValue),
}

/// The ranks of a hand, in order.
pub open spec fn ranks_of(cards: Seq<Card>) -> Seq<Rank> {
    cards.map_values(|c: Card| c.rank)
}

/// The best value of a hand of cards.
pub open spec fn cards_value(cards: Seq<Card>) -> nat {
    hand_value(ranks_of(cards))
}

/// The cards the dealer draws, in order, from `deck` (whose last card is the
/// top) while the hand is worth 16 or less; `None` if the deck runs out first.
pub open spec fn dealer_draws(hand: Seq<Card>, deck: Seq<Card>) -> Option<Seq<Card>>
    decreases deck.len(),
{
    if cards_value(hand) > 16 {
        Some(Seq::empty())
    } else if deck.len() == 0 {
        None
    } else {
        match dealer_draws(hand.push(deck.last()), deck.drop_last()) {
            Some(rest) => Some(seq![deck.last()] + rest),
            None => None,
        }
    }
}

/// The event that ends the dealer's turn at a given value.
pub open spec fn dealer_outcome(value: nat) -> DealerAction {
    if value > 21 {
        DealerAction::Bust(value as u8)
    } else {
        DealerAction::Stand(value as u8)
    }
}

/// The events of a dealer's turn: one hit per card drawn, then the outcome.
pub open spec fn dealer_events(drawn: Seq<Card>, value: nat) -> Seq<DealerAction> {
    drawn.map_values(|c: Card| DealerAction::Hit(c)).push(dealer_outcome(value))
}

/// Adding one card to a hand worth 16 or less leaves it worth at most 37.
proof fn lemma_value_after_draw(hand: Seq<Card>, c: Card)
    requires
        cards_value(hand) <= 16,
    ensures
        cards_value(hand.push(c)) <= 37,
{
    let rs = ranks_of(hand);
    assert(ranks_of(hand.push(c)) =~= rs.push(c.rank));
    assert(rs.push(c.rank).drop_last() =~= rs);
    lemma_fold_aces_bounds(base_sum(rs), ace_count(rs));
    lemma_fold_aces_bounds(base_sum(rs.push(c.rank)), ace_count(rs.push(c.rank)));
}

/// A round of blackjack: the deck, both hands, the player's balance and the
/// bet on the table.
pub struct Game {
    /// The cards not yet dealt; its last card is drawn next.
    pub deck: Deck,
    pub dealer_cards: Vec<Card>,
    pub player_cards: Vec<Card>,
    /// The player's balance, after the current bet was taken from it.
    pub player_money: Chips,
    pub current_bet: Chips,
}

impl Game {
    /// A game with a fresh shuffled deck, empty hands and 100 chips.
    pub fn new() -> (r: Game)
        ensures
            r.deck@.len() == 52,
            r.deck@.to_multiset() == crate::deck::full_deck().to_multiset(),
            r.dealer_cards@.len() == 0,
            r.player_cards@.len() == 0,
            r.player_money == 100,
            r.current_bet == 0,
    {
        Game {
            deck: Deck::new(),
            dealer_cards: Vec::new(),
            player_cards: Vec::new(),
            player_money: 100,
            current_bet: 0,
        }
    }

    /// Takes the bet from the balance and deals two cards to the dealer, then
    /// two to the player. A bet over the balance is refused and nothing changes.
    pub fn deal_hand(&mut self, bet: Chips) -> (r: Result<(), Error>)
        requires
            old(self).deck@.len() >= 4,
        ensures
            bet > old(self).player_money ==> r == Err::<(), Error>(Error::InsufficientChips)
                && *final(self) == *old(self),
            bet <= old(self).player_money ==> {
                let d = old(self).deck@;
                let n = d.len();
                &&& r == Ok::<(), Error>(())
                &&& final(self).player_money == old(self).player_money - bet
                &&& final(self).current_bet == bet
                &&& final(self).dealer_cards@ == old(self).dealer_cards@ + seq![d[n - 1], d[n - 2]]
                &&& final(self).player_cards@ == old(self).player_cards@ + seq![d[n - 3], d[n - 4]]
                &&& final(self).deck@ == d.take(n - 4)
            },
    {
        if bet > self.player_money {
            return Err(Error::InsufficientChips);
        }
        self.player_money = self.player_money - bet;
        self.current_bet = bet;
        let ghost d = self.deck@;
        let c1 = self.deck.draw().unwrap();
        let c2 = self.deck.draw().unwrap();
        let c3 = self.deck.draw().unwrap();
        let c4 = self.deck.draw().unwrap();
        self.dealer_cards.push(c1);
        self.dealer_cards.push(c2);
        self.player_cards.push(c3);
        self.player_cards.push(c4);
        proof {
            assert(self.deck@ =~= d.take(d.len() - 4));
        }
        assert(self.dealer_cards@ =~= old(self).dealer_cards@ + seq![c1, c2]);
        assert(self.player_cards@ =~= old(self).player_cards@ + seq![c3, c4]);
        Ok(())
    }

    /// The player draws one card.
    pub fn hit(&mut self)
        requires
            old(self).deck@.len() >= 1,
        ensures
            final(self).player_cards@ == old(self).player_cards@.push(old(self).deck@.last()),
            final(self).deck@ == old(self).deck@.drop_last(),
            final(self).dealer_cards@ == old(self).dealer_cards@,
            final(self).player_money == old(self).player_money,
            final(self).current_bet == old(self).current_bet,
    {
        let c = self.deck.draw().unwrap();
        self.player_cards.push(c);
    }

    /// The dealer plays: draws while the hand is worth 16 or less, then stands
    /// or busts. Returns every step in order.
    pub fn stand(&mut self) -> (r: Vec<DealerAction>)
        requires
            dealer_draws(old(self).dealer_cards@, old(self).deck@) is Some,
            cards_value(old(self).dealer_cards@) <= u8::MAX,
        ensures
            ({
                let drawn = dealer_draws(old(self).dealer_cards@, old(self).deck@)->0;
                &&& final(self).dealer_cards@ == old(self).dealer_cards@ + drawn
                &&& final(self).deck@ == old(self).deck@.take(old(self).deck@.len() - drawn.len())
                &&& r@ == dealer_events(drawn, cards_value(final(self).dealer_cards@))
            }),
            cards_value(final(self).dealer_cards@) > 16,
            final(self).player_cards@ == old(self).player_cards@,
            final(self).player_money == old(self).player_money,
            final(self).current_bet == old(self).current_bet,
    {
        let ghost hand0 = self.dealer_cards@;
        let ghost deck0 = self.deck@;
        let ghost drawn = dealer_draws(hand0, deck0)->0;
        let mut actions: Vec<DealerAction> = Vec::new();
        let mut value = self.dealer_hand_value();
        while value <= 16
            invariant
                value == cards_value(self.dealer_cards@),
                cards_value(self.dealer_cards@) <= u8::MAX,
                actions@.len() <= drawn.len(),
                actions@.len() <= deck0.len(),
                actions@ == drawn.take(actions@.len() as int).map_values(|c: Card| DealerAction::Hit(c)),
                self.dealer_cards@ == hand0 + drawn.take(actions@.len() as int),
                self.deck@ == deck0.take(deck0.len() - actions@.len()),
                dealer_draws(self.dealer_cards@, self.deck@) == Some(drawn.skip(actions@.len() as int)),
                self.player_cards@ == old(self).player_cards@,
                self.player_money == old(self).player_money,
                self.current_bet == old(self).current_bet,
            decreases self.deck@.len(),
        {
            let ghost k = actions@.len() as int;
            let ghost top = self.deck@.last();
            proof {
                lemma_value_after_draw(self.dealer_cards@, top);
                let rest = dealer_draws(self.dealer_cards@.push(top), self.deck@.drop_last())->0;
                assert(drawn.skip(k) =~= seq![top] + rest);
                assert(self.deck@.len() > 0);
                assert(drawn.skip(k).skip(1) =~= rest);
                assert(drawn.skip(k + 1) =~= drawn.skip(k).skip(1));
                assert(drawn.skip(k)[0] == drawn[k]);
                assert((seq![top] + rest)[0] == top);
                assert(drawn.take(k + 1) =~= drawn.take(k).push(top));
            }
            let ghost before = self.deck@;
            let card = self.deck.draw().unwrap();
            self.dealer_cards.push(card);
            actions.push(DealerAction::Hit(card));
            proof {
                assert(before.drop_last() =~= deck0.take(deck0.len() - (k + 1)));
                assert(self.dealer_cards@ =~= hand0 + drawn.take(k + 1));
                assert(actions@ =~= drawn.take(k + 1).map_values(|c: Card| DealerAction::Hit(c)));
            }
            value = self.dealer_hand_value();
        }
        proof {
            assert(drawn.skip(actions@.len() as int).len() == 0);
            assert(drawn.take(actions@.len() as int) =~= drawn);
        }
        if value > 21 {
            actions.push(DealerAction::Bust(value));
        } else {
            actions.push(DealerAction::Stand(value));
        }
        actions
    }

    /// Whether `stand` can run to its end: the dealer's hand is worth at most
    /// 255 and the deck holds every card the dealer will draw.
    pub fn can_stand(&self) -> (r: bool)
        ensures
            r == (cards_value(self.dealer_cards@) <= u8::MAX
                && dealer_draws(self.dealer_cards@, self.deck@) is Some),
    {
        let mut base: u64 = 0;
        let mut aces: u64 = 0;
        let mut i: usize = 0;
        while i < self.dealer_cards.len()
            invariant
                i <= self.dealer_cards@.len(),
                base == base_sum(ranks_of(self.dealer_cards@.take(i as int))),
                aces == ace_count(ranks_of(self.dealer_cards@.take(i as int))),
                base + aces <= u8::MAX,
            decreases self.dealer_cards@.len() - i,
        {
            let ghost rs = ranks_of(self.dealer_cards@);
            proof {
                assert(ranks_of(self.dealer_cards@.take(i + 1)) =~= rs.take(i + 1));
                assert(ranks_of(self.dealer_cards@.take(i as int)) =~= rs.take(i as int));
                assert(rs.take(i + 1).drop_last() =~= rs.take(i as int));
            }
            let rank = self.dealer_cards[i].rank;
            if rank == Rank::Ace {
                aces = aces + 1;
            } else {
                base = base + rank.value() as u64;
            }
            i = i + 1;
            if base + aces > 255 {
                proof {
                    lemma_prefix_parts(rs, i as int);
                    assert(ranks_of(self.dealer_cards@.take(i as int)) =~= rs.take(i as int));
                    lemma_fold_aces_bounds(base_sum(rs), ace_count(rs));
                }
                return false;
            }
        }
        assert(self.dealer_cards@.take(i as int) =~= self.dealer_cards@);
        if value_of_parts(base, aces) > 255 {
            return false;
        }
        let ghost mut hand = self.dealer_cards@;
        let mut j: usize = self.deck.len();
        let cards = self.deck.cards();
        assert(cards@.take(j as int) =~= self.deck@);
        while value_of_parts(base, aces) <= 16
            invariant
                j <= cards@.len(),
                cards@ == self.deck@,
                base == base_sum(ranks_of(hand)),
                aces == ace_count(ranks_of(hand)),
                base + aces <= u8::MAX,
                dealer_draws(self.dealer_cards@, self.deck@) is Some
                    <==> dealer_draws(hand, cards@.take(j as int)) is Some,
            decreases j,
        {
            proof {
                lemma_fold_aces_bounds(base as nat, aces as nat);
            }
            if j == 0 {
                return false;
            }
            let c = cards[j - 1];
            proof {
                let d = cards@.take(j as int);
                assert(d.last() == c);
                assert(d.drop_last() =~= cards@.take(j - 1));
                assert(ranks_of(hand.push(c)) =~= ranks_of(hand).push(c.rank));
                assert(ranks_of(hand).push(c.rank).drop_last() =~= ranks_of(hand));
                hand = hand.push(c);
            }
            if c.rank == Rank::Ace {
                aces = aces + 1;
            } else {
                base = base + c.rank.value() as u64;
            }
            j = j - 1;
        }
        true
    }

    /// The best value of the dealer's hand.
    fn dealer_hand_value(&self) -> (r: HandValue)
        requires
            cards_value(self.dealer_cards@) <= u8::MAX,
        ensures
            r == cards_value(self.dealer_cards@),
    {
        best_hand_value(self.dealer_ranks())
    }

    /// The ranks of the dealer's cards, in order.
    fn dealer_ranks(&self) -> (r: Vec<Rank>)
        ensures
            r@ == ranks_of(self.dealer_cards@),
    {
        let mut r: Vec<Rank> = Vec::new();
        let mut i: usize = 0;
        while i < self.dealer_cards.len()
            invariant
                i <= self.dealer_cards@.len(),
                r@ == ranks_of(self.dealer_cards@.take(i as int)),
            decreases self.dealer_cards@.len() - i,
        {
            r.push(self.dealer_cards[i].rank);
            i = i + 1;
            assert(r@ =~= ranks_of(self.dealer_cards@.take(i as int)));
        }
        assert(self.dealer_cards@.take(i as int) =~= self.dealer_cards@);
        r
    }
}

} // verus!
