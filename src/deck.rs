use vstd::prelude::*;
use crate::card::{Card, Rank, Suit, all_ranks, all_suits};

verus! {

/// The complete set of cards, suit by suit, each suit running from Two to Ace.
pub open spec fn full_deck() -> Seq<Card> {
    Seq::new(52, |i: int| Card { rank: all_ranks()[i % 13], suit: all_suits()[i / 13] })
}

/// Where a suit stands in the order in which a fresh deck is built.
pub open spec fn suit_index(s: Suit) -> int {
    match s {
        Suit::Hearts => 0,
        Suit::Diamonds => 1,
        Suit::Spades => 2,
        Suit::Clubs => 3,
    }
}

/// Where a rank stands in the order from Two to Ace.
pub open spec fn rank_index(r: Rank) -> int {
    match r {
        Rank::Two => 0,
        Rank::Three => 1,
        Rank::Four => 2,
        Rank::Five => 3,
        Rank::Six => 4,
        Rank::Seven => 5,
        Rank::Eight => 6,
        Rank::Nine => 7,
        Rank::Ten => 8,
        Rank::Jack => 9,
        Rank::Queen => 10,
        Rank::King => 11,
        Rank::Ace => 12,
    }
}

/// How many cards of the given suit a sequence holds.
pub open spec fn suit_count(cards: Seq<Card>, s: Suit) -> nat {
    cards.filter(|c: Card| c.suit == s).len()
}

/// How many cards of the given rank a sequence holds.
pub open spec fn rank_count(cards: Seq<Card>, r: Rank) -> nat {
    cards.filter(|c: Card| c.rank == r).len()
}

/// Rearranging a sequence keeps how many of its elements meet a predicate.
pub proof fn lemma_filter_len_permutation<A>(a: Seq<A>, b: Seq<A>, p: spec_fn(A) -> bool)
    requires
        a.to_multiset() == b.to_multiset(),
    ensures
        a.filter(p).len() == b.filter(p).len(),
    decreases a.len(),
{
    reveal(Seq::filter);
    a.to_multiset_ensures();
    b.to_multiset_ensures();
    if a.len() == 0 {
        assert(b =~= Seq::<A>::empty());
    } else {
        let x = a.last();
        let a2 = a.drop_last();
        assert(a =~= a2.push(x));
        a2.to_multiset_ensures();
        assert(b.to_multiset().count(x) > 0);
        assert(b.contains(x));
        let i = choose|i: int| 0 <= i < b.len() && b[i] == x;
        let b2 = b.remove(i);
        assert(b2.to_multiset() =~= a2.to_multiset());
        lemma_filter_len_permutation(a2, b2, p);
        a2.lemma_filter_len_push(p, x);
        let head = b.take(i);
        let tail = b.skip(i + 1);
        assert(b =~= head + (seq![x] + tail));
        assert(b2 =~= head + tail);
        Seq::filter_distributes_over_add(head, seq![x] + tail, p);
        Seq::filter_distributes_over_add(seq![x], tail, p);
        Seq::filter_distributes_over_add(head, tail, p);
        assert(seq![x] =~= Seq::<A>::empty().push(x));
        Seq::<A>::empty().lemma_filter_len_push(p, x);
    }
}

/// In the unshuffled deck, the first `n` cards hold the suit at index `si`
/// as often as their positions fall in that suit's run of thirteen.
proof fn lemma_full_deck_suit_prefix(si: int, n: int)
    requires
        0 <= si < 4,
        0 <= n <= 52,
    ensures
        full_deck().take(n).filter(|c: Card| c.suit == all_suits()[si]).len()
            == if n <= 13 * si { 0 } else if n >= 13 * si + 13 { 13 } else { n - 13 * si },
    decreases n,
{
    let p = |c: Card| c.suit == all_suits()[si];
    reveal(Seq::filter);
    if n > 0 {
        lemma_full_deck_suit_prefix(si, n - 1);
        let d = full_deck();
        assert(d.take(n) =~= d.take(n - 1).push(d[n - 1]));
        d.take(n - 1).lemma_filter_len_push(p, d[n - 1]);
        let q = (n - 1) / 13;
        assert(0 <= q < 4);
        assert(d[n - 1].suit == all_suits()[q]);
        assert(all_suits()[q] == all_suits()[si] <==> q == si);
    }
}

/// In the unshuffled deck, the first `n` cards hold the rank at index `ri`
/// once for every full or partial cycle of thirteen that reaches it.
proof fn lemma_full_deck_rank_prefix(ri: int, n: int)
    requires
        0 <= ri < 13,
        0 <= n <= 52,
    ensures
        full_deck().take(n).filter(|c: Card| c.rank == all_ranks()[ri]).len() == (n + 12 - ri) / 13,
    decreases n,
{
    let p = |c: Card| c.rank == all_ranks()[ri];
    reveal(Seq::filter);
    if n > 0 {
        lemma_full_deck_rank_prefix(ri, n - 1);
        let d = full_deck();
        assert(d.take(n) =~= d.take(n - 1).push(d[n - 1]));
        d.take(n - 1).lemma_filter_len_push(p, d[n - 1]);
        let m = (n - 1) % 13;
        assert(0 <= m < 13);
        assert(d[n - 1].rank == all_ranks()[m]);
        assert(all_ranks()[m] == all_ranks()[ri] <==> m == ri);
        assert((n + 12 - ri) / 13 == (n - 1 + 12 - ri) / 13 + if m == ri { 1int } else { 0int })
            by (nonlinear_arith)
            requires
                0 <= ri < 13,
                1 <= n <= 52,
                m == (n - 1) % 13,
        ;
    }
}

/// A deck that is some arrangement of the complete set holds 52 cards, 13 of
/// each suit and 4 of each rank.
pub proof fn lemma_full_deck_counts(d: Seq<Card>)
    requires
        d.to_multiset() == full_deck().to_multiset(),
    ensures
        d.len() == 52,
        forall|s: Suit| #[trigger] suit_count(d, s) == 13,
        forall|r: Rank| #[trigger] rank_count(d, r) == 4,
{
    d.to_multiset_ensures();
    full_deck().to_multiset_ensures();
    assert(full_deck().take(52) =~= full_deck());
    assert forall|s: Suit| #[trigger] suit_count(d, s) == 13 by {
        let si = suit_index(s);
        assert(all_suits()[si] == s);
        lemma_full_deck_suit_prefix(si, 52);
        assert((|c: Card| c.suit == s) =~= (|c: Card| c.suit == all_suits()[si]));
        lemma_filter_len_permutation(d, full_deck(), |c: Card| c.suit == s);
    }
    assert forall|r: Rank| #[trigger] rank_count(d, r) == 4 by {
        let ri = rank_index(r);
        assert(all_ranks()[ri] == r);
        lemma_full_deck_rank_prefix(ri, 52);
        assert((|c: Card| c.rank == r) =~= (|c: Card| c.rank == all_ranks()[ri]));
        lemma_filter_len_permutation(d, full_deck(), |c: Card| c.rank == r);
    }
}

/// An ordered pile of cards; the last card is the top, drawn first.
#[derive(PartialEq, Eq, Debug)]
pub struct Deck {
    cards: Vec<Card>,
}

impl View for Deck {
    type V = Seq<Card>;

    closed spec fn view(&self) -> Seq<Card> {
        self.cards@
    }
}

/// Relies on rand's `SliceRandom::shuffle` with the thread-local generator: it
/// only swaps elements of the slice, so the cards stay the same.
#[verifier::external_body]
fn shuffle_cards(cards: &mut Vec<Card>)
    ensures
        final(cards)@.to_multiset() == old(cards)@.to_multiset(),
{
    rand::seq::SliceRandom::shuffle(cards.as_mut_slice(), &mut rand::thread_rng());
}

impl Deck {
    /// A fresh deck: every card once, in random order.
    pub fn new() -> (r: Deck)
        ensures
            r@.len() == 52,
            r@.to_multiset() == full_deck().to_multiset(),
            forall|s: Suit| #[trigger] suit_count(r@, s) == 13,
            forall|k: Rank| #[trigger] rank_count(r@, k) == 4,
    {
        let mut cards: Vec<Card> = Vec::new();
        let suits = Suit::all();
        let ranks = Rank::all();
        let mut si: usize = 0;
        while si < 4
            invariant
                si <= 4,
                suits@ == all_suits(),
                ranks@ == all_ranks(),
                cards@ =~= full_deck().take(13 * si as int),
            decreases 4 - si,
        {
            let mut ri: usize = 0;
            while ri < 13
                invariant
                    si < 4,
                    ri <= 13,
                    suits@ == all_suits(),
                    ranks@ == all_ranks(),
                    cards@ =~= full_deck().take(13 * si + ri),
                decreases 13 - ri,
            {
                cards.push(Card::new(ranks[ri], suits[si]));
                ri = ri + 1;
            }
            si = si + 1;
        }
        assert(cards@ =~= full_deck());
        shuffle_cards(&mut cards);
        proof {
            cards@.to_multiset_ensures();
            full_deck().to_multiset_ensures();
            lemma_full_deck_counts(cards@);
        }
        Deck { cards }
    }

    /// A deck holding exactly the given cards; the last one is drawn first.
    pub fn of(cards: Vec<Card>) -> (r: Deck)
        ensures
            r@ == cards@,
    {
        Deck { cards }
    }

    /// Takes the top card, or returns `None` when the deck is empty.
    pub fn draw(&mut self) -> (r: Option<Card>)
        ensures
            old(self)@.len() == 0 ==> r is None && final(self)@ == old(self)@,
            old(self)@.len() > 0 ==> r == Some(old(self)@.last())
                && final(self)@ == old(self)@.drop_last(),
    {
        self.cards.pop()
    }

    /// The cards, bottom first.
    pub fn cards(&self) -> (r: &Vec<Card>)
        ensures
            r@ == self@,
    {
        &self.cards
    }

    /// How many cards are left.
    pub fn len(&self) -> (r: usize)
        ensures
            r == self@.len(),
    {
        self.cards.len()
    }
}

} // verus!
