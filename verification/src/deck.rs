//! The deck of fifty-two cards: which cards a run of cards holds, the deck in
//! its fixed order, and the shuffled deck that a seed stands for.

use vstd::prelude::*;
use vstd::multiset::Multiset;
use vstd::seq_lib::lemma_multiset_commutative;
use rand::seq::SliceRandom;
use rand::SeedableRng;
use crate::card::{Card, Rank, Suit};

verus! {

/// The cards of `cards` by suit and rank, each as often as it occurs,
/// whichever way it faces.
pub open spec fn idents(cards: Seq<Card>) -> Multiset<(Suit, Rank)> {
    cards.map_values(|c: Card| c.ident()).to_multiset()
}

/// Every card of the deck, once.
pub open spec fn is_full_deck(m: Multiset<(Suit, Rank)>) -> bool {
    forall|suit: Suit, rank: Rank| #[trigger] m.count((suit, rank)) == 1
}

/// `b` holds the cards of `a` in the same places, turned or not.
pub open spec fn same_cards_in_place(a: Seq<Card>, b: Seq<Card>) -> bool {
    &&& a.len() == b.len()
    &&& forall|i: int| 0 <= i < a.len() ==> #[trigger] a[i].ident() == b[i].ident()
}

/// `cards` with every card facing as given.
pub open spec fn all_facing(cards: Seq<Card>, face_up: bool) -> Seq<Card> {
    cards.map_values(|c: Card| c.facing(face_up))
}

/// The cards of two runs laid end to end are the cards of both.
pub proof fn lemma_idents_concat(a: Seq<Card>, b: Seq<Card>)
    ensures
        idents(a + b) == idents(a).add(idents(b)),
{
    let f = |c: Card| c.ident();
    assert((a + b).map_values(f) =~= a.map_values(f) + b.map_values(f));
    lemma_multiset_commutative(a.map_values(f), b.map_values(f));
}

/// Cutting a run in two loses no card.
pub proof fn lemma_idents_split(s: Seq<Card>, at: int)
    requires
        0 <= at <= s.len(),
    ensures
        idents(s) == idents(s.subrange(0, at)).add(idents(s.subrange(at, s.len() as int))),
{
    assert(s =~= s.subrange(0, at) + s.subrange(at, s.len() as int));
    lemma_idents_concat(s.subrange(0, at), s.subrange(at, s.len() as int));
}

/// A part of a run, cut in two, loses no card.
pub proof fn lemma_idents_split_range(s: Seq<Card>, from: int, at: int, to: int)
    requires
        0 <= from <= at <= to <= s.len(),
    ensures
        idents(s.subrange(from, to)) == idents(s.subrange(from, at)).add(
            idents(s.subrange(at, to)),
        ),
{
    assert(s.subrange(from, to) =~= s.subrange(from, at) + s.subrange(at, to));
    lemma_idents_concat(s.subrange(from, at), s.subrange(at, to));
}

/// An empty run holds no card.
pub proof fn lemma_idents_empty(s: Seq<Card>)
    requires
        s.len() == 0,
    ensures
        idents(s) == Multiset::<(Suit, Rank)>::empty(),
{
    broadcast use vstd::seq_lib::group_to_multiset_ensures;

    let ids = s.map_values(|c: Card| c.ident());
    assert forall|x: (Suit, Rank)| ids.to_multiset().count(x) == 0 by {
        assert(!ids.contains(x));
    }
    assert(ids.to_multiset() =~= Multiset::<(Suit, Rank)>::empty());
}

/// Turning cards over where they lie changes nothing in what the run holds.
pub proof fn lemma_idents_in_place(a: Seq<Card>, b: Seq<Card>)
    requires
        same_cards_in_place(a, b),
    ensures
        idents(a) == idents(b),
{
    let f = |c: Card| c.ident();
    assert(a.map_values(f) =~= b.map_values(f));
}

/// A run read from the top down holds the same cards.
pub proof fn lemma_idents_reverse(s: Seq<Card>)
    ensures
        idents(s.reverse()) == idents(s),
{
    let f = |c: Card| c.ident();
    assert(s.reverse().map_values(f) =~= s.map_values(f).reverse());
    s.map_values(f).lemma_reverse_to_multiset();
}

/// Two runs made of the same cards, in whatever order, hold the same
/// suits and ranks.
pub proof fn lemma_idents_of_rearranged(a: Seq<Card>, b: Seq<Card>)
    requires
        a.to_multiset() == b.to_multiset(),
    ensures
        idents(a) == idents(b),
    decreases a.len(),
{
    broadcast use vstd::seq_lib::group_to_multiset_ensures;

    let f = |c: Card| c.ident();
    assert(a.len() == a.to_multiset().len() && b.len() == b.to_multiset().len());
    if a.len() == 0 {
        assert(a =~= b);
    } else {
        let x = a.last();
        assert(a.drop_last().push(x) =~= a);
        assert(a.to_multiset().count(x) > 0);
        assert(b.contains(x));
        let j = choose|j: int| 0 <= j < b.len() && b[j] == x;
        assert(a.drop_last().to_multiset() =~= a.to_multiset().remove(x)) by {
            assert(a.drop_last() =~= a.remove(a.len() - 1));
        }
        assert(b.remove(j).to_multiset() =~= a.drop_last().to_multiset());
        lemma_idents_of_rearranged(a.drop_last(), b.remove(j));
        assert(a.map_values(f) =~= a.drop_last().map_values(f).push(f(x)));
        assert(b.map_values(f).remove(j) =~= b.remove(j).map_values(f));
        assert(idents(b.remove(j)) == idents(b).remove(f(x)));
        assert(idents(b).count(f(x)) > 0) by {
            assert(b.map_values(f)[j] == f(x));
            assert(b.map_values(f).contains(f(x)));
        }
        assert(idents(a) =~= idents(b));
    }
}

/// The suits in the order in which a new deck holds them.
pub const SUITS: [Suit; 4] = [Suit::Diamond, Suit::Club, Suit::Heart, Suit::Spade];

/// The ranks in the order in which a new deck holds them.
pub const RANKS: [Rank; 13] = [
    Rank::Ace,
    Rank::Two,
    Rank::Three,
    Rank::Four,
    Rank::Five,
    Rank::Six,
    Rank::Seven,
    Rank::Eight,
    Rank::Nine,
    Rank::Ten,
    Rank::Jack,
    Rank::Queen,
    Rank::King,
];

/// Number of cards in a deck.
pub const DECK_LEN: usize = 52;

/// The card at place `i` of a new deck: suit by suit, in each suit from the
/// ace to the king, face down.
pub open spec fn card_at(i: int) -> Card {
    Card { suit: SUITS[i / 13], rank: RANKS[i % 13], face_up: false }
}

/// A new deck: the cards in their places, from `card_at(0)` on.
pub open spec fn spec_ordered_deck() -> Seq<Card> {
    Seq::new(DECK_LEN as nat, |i: int| card_at(i))
}

/// A new deck, not yet shuffled.
pub fn ordered_deck() -> (deck: Vec<Card>)
    ensures
        deck@ == spec_ordered_deck(),
{
    let mut deck: Vec<Card> = Vec::new();
    let mut s: usize = 0;
    while s < 4
        invariant
            s <= 4,
            deck@.len() == 13 * s,
            forall|i: int| 0 <= i < deck@.len() ==> deck@[i] == card_at(i),
        decreases 4 - s,
    {
        let mut r: usize = 0;
        while r < 13
            invariant
                s < 4,
                r <= 13,
                deck@.len() == 13 * s + r,
                forall|i: int| 0 <= i < deck@.len() ==> deck@[i] == card_at(i),
            decreases 13 - r,
        {
            deck.push(Card { suit: SUITS[s], rank: RANKS[r], face_up: false });
            r += 1;
        }
        s += 1;
    }
    deck
}

/// Place of a suit among the suits of a new deck.
pub open spec fn suit_place(suit: Suit) -> int {
    match suit {
        Suit::Diamond => 0,
        Suit::Club => 1,
        Suit::Heart => 2,
        Suit::Spade => 3,
    }
}

/// A new deck holds every card once, and every card face down.
pub proof fn lemma_ordered_deck_is_full()
    ensures
        is_full_deck(idents(spec_ordered_deck())),
        forall|i: int| 0 <= i < DECK_LEN ==> !(#[trigger] spec_ordered_deck()[i]).face_up,
{
    broadcast use vstd::seq_lib::group_to_multiset_ensures;

    let ids = spec_ordered_deck().map_values(|c: Card| c.ident());
    assert forall|i: int| 0 <= i < 52 implies #[trigger] ids[i] == (SUITS[i / 13], RANKS[i % 13])
        && suit_place(SUITS[i / 13]) == i / 13 && RANKS[i % 13].spec_value() == i % 13 + 1 by {
        assert(ids[i] == card_at(i).ident());
    }
    assert forall|i: int, j: int| 0 <= i < ids.len() && 0 <= j < ids.len() && i != j implies ids[i]
        != ids[j] by {
        if ids[i] == ids[j] {
            assert(i / 13 == j / 13 && i % 13 == j % 13);
        }
    }
    ids.lemma_multiset_has_no_duplicates();
    assert forall|suit: Suit, rank: Rank| #[trigger] ids.to_multiset().count((suit, rank)) == 1 by {
        let i = suit_place(suit) * 13 + rank.spec_value() - 1;
        assert(0 <= i < 52);
        assert(ids[i] == (suit, rank));
        assert(ids.contains((suit, rank)));
    }
}

/// The order in which the generator seeded with `seed` leaves `cards`.
pub uninterp spec fn shuffled(cards: Seq<Card>, seed: u64) -> Seq<Card>;

/// Shuffles `cards` in place with `rand`'s `SliceRandom::shuffle`, drawing
/// from a `rand_pcg::Pcg32` made by `SeedableRng::seed_from_u64(seed)`.
///
/// Not proved, taken from those two functions: the generator's stream is
/// fixed by the seed and the shuffle only swaps elements of the slice, so
/// the outcome is determined by the cards and the seed, and it holds the
/// same cards as before.
#[verifier::external_body]
fn shuffle_seeded(cards: &mut Vec<Card>, seed: u64)
    ensures
        final(cards)@ == shuffled(old(cards)@, seed),
        final(cards)@.to_multiset() == old(cards)@.to_multiset(),
{
    let mut rng = rand_pcg::Pcg32::seed_from_u64(seed);
    cards.shuffle(&mut rng);
}

/// `deck` is a whole deck lying face down.
pub open spec fn is_face_down_deck(deck: Seq<Card>) -> bool {
    &&& deck.len() == DECK_LEN
    &&& is_full_deck(idents(deck))
    &&& forall|i: int| 0 <= i < deck.len() ==> !(#[trigger] deck[i]).face_up
}

/// The deck that `seed` stands for.
pub open spec fn spec_make_deck(seed: u64) -> Seq<Card> {
    shuffled(spec_ordered_deck(), seed)
}

/// A shuffled deck. The same seed always gives the same deck.
pub fn make_deck(seed: u64) -> (deck: Vec<Card>)
    ensures
        deck@ == spec_make_deck(seed),
        is_face_down_deck(deck@),
{
    let mut cards = ordered_deck();
    shuffle_seeded(&mut cards, seed);
    proof {
        broadcast use vstd::seq_lib::group_to_multiset_ensures;

        lemma_ordered_deck_is_full();
        lemma_idents_of_rearranged(cards@, spec_ordered_deck());
        assert(cards@.len() == cards@.to_multiset().len());
        assert(spec_ordered_deck().len() == spec_ordered_deck().to_multiset().len());
        assert forall|i: int| 0 <= i < cards@.len() implies !(#[trigger] cards@[i]).face_up by {
            assert(cards@.contains(cards@[i]));
            assert(spec_ordered_deck().to_multiset().count(cards@[i]) > 0);
            assert(spec_ordered_deck().contains(cards@[i]));
        }
    }
    cards
}

} // verus!
