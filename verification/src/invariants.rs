//! What holds of a table throughout a game that is played by the rules: no
//! card is lost or doubled, every foundation counts up from the ace in one
//! suit, and every tableau runs down in alternating colours.

use vstd::prelude::*;
use vstd::multiset::Multiset;
use crate::card::{Card, Rank, Suit};
use crate::deck::{
    idents, is_full_deck, lemma_idents_empty, lemma_idents_in_place, lemma_idents_split_range,
};
use crate::pile::{StackId, StackType};
use crate::stack::{foundation_accepts, tableau_accepts, with_top_facing};
use crate::table::{cards_in_tableaux, dealt_tableau, Table, TABLEAU_CARDS};

verus! {

/// Read from the bottom up, the cards are the ace, the two, the three and
/// so on of one suit, with no gap.
pub open spec fn is_foundation_run(cards: Seq<Card>) -> bool {
    forall|i: int|
        0 <= i < cards.len() ==> (#[trigger] cards[i]).rank.spec_value() == i + 1 && cards[i].suit
            == cards[0].suit
}

/// No face-down card lies on a face-up card, and each face-up card that
/// lies on a face-up card is one rank lower and of the other colour.
pub open spec fn is_tableau_run(cards: Seq<Card>) -> bool {
    forall|below: int, above: int|
        0 <= below && above == below + 1 && above < cards.len() && (
        #[trigger] cards[below]).face_up ==> {
            &&& (#[trigger] cards[above]).face_up
            &&& cards[above].spec_is_one_below(&cards[below])
            &&& !cards[above].spec_is_same_color(&cards[below])
        }
}

/// A run that may be carried from tableau to tableau: a tableau run with
/// every card face up.
pub open spec fn is_carried_run(cards: Seq<Card>) -> bool {
    &&& is_tableau_run(cards)
    &&& forall|i: int| 0 <= i < cards.len() ==> (#[trigger] cards[i]).face_up
}

impl Table {
    /// The cards of the first `n` piles, counted along the ring from the
    /// stock, with the hand as the fourteenth.
    pub open spec fn idents_of_first(&self, n: int) -> Multiset<(Suit, Rank)>
        decreases n,
    {
        if n <= 0 {
            Multiset::empty()
        } else {
            self.idents_of_first(n - 1).add(idents(self.cards_of(StackId::at_ring_index(n - 1))))
        }
    }

    /// All the cards on the table and in the hand, by suit and rank, each as
    /// often as it occurs.
    pub open spec fn all_idents(&self) -> Multiset<(Suit, Rank)> {
        self.idents_of_first(14)
    }

    /// The piles and the hand together hold every card of the deck once.
    pub open spec fn conserved(&self) -> bool {
        is_full_deck(self.all_idents())
    }

    /// Every foundation counts up from the ace in one suit.
    pub open spec fn foundations_ordered(&self) -> bool {
        forall|id: StackId|
            id.kind() == StackType::Foundation ==> is_foundation_run(#[trigger] self.cards_of(id))
    }

    /// Every tableau runs down in alternating colours above its face-down cards.
    pub open spec fn tableaux_alternating(&self) -> bool {
        forall|id: StackId|
            id.kind() == StackType::Tableau ==> is_tableau_run(#[trigger] self.cards_of(id))
    }

    /// The hand holds a run that may be carried.
    pub open spec fn hand_is_run(&self) -> bool {
        is_carried_run(self.cards_of(StackId::Hand))
    }

    /// The rules allow the hand to be put on the target: the target is a
    /// foundation or a tableau, and takes the hand. On a well-formed table
    /// this is what `can_play` answers for the target pile (see
    /// `lemma_can_play_is_legal`).
    pub open spec fn drop_is_legal(&self) -> bool {
        match self.target.kind() {
            StackType::Foundation => foundation_accepts(
                self.cards_of(self.target),
                self.cards_of(StackId::Hand),
            ),
            StackType::Tableau => tableau_accepts(
                self.cards_of(self.target),
                self.cards_of(StackId::Hand),
            ),
            _ => false,
        }
    }
}

/// On a well-formed table the target pile takes the hand, as `can_play`
/// has it, just when the rules allow the drop.
pub proof fn lemma_can_play_is_legal(table: Table)
    requires
        table.wf(),
    ensures
        table.pile(table.target).spec_can_play(&table.in_hand) == table.drop_is_legal(),
{
}

/// How often `x` occurs in pile `id`, if that pile is among the first `n`.
spec fn count_if_among(table: Table, id: StackId, n: int, x: (Suit, Rank)) -> int {
    if id.ring_index() < n {
        idents(table.cards_of(id)).count(x) as int
    } else {
        0
    }
}

/// Among the first `n` piles, the cards outside `a` and `b` are the same in
/// both tables.
proof fn lemma_first_piles_moved(
    before: Table,
    after: Table,
    a: StackId,
    b: StackId,
    n: int,
    x: (Suit, Rank),
)
    requires
        0 <= n <= 14,
        a != b,
        forall|id: StackId| id != a && id != b ==> after.cards_of(id) == before.cards_of(id),
    ensures
        after.idents_of_first(n).count(x) - count_if_among(after, a, n, x) - count_if_among(
            after,
            b,
            n,
            x,
        ) == before.idents_of_first(n).count(x) - count_if_among(before, a, n, x) - count_if_among(
            before,
            b,
            n,
            x,
        ),
    decreases n,
{
    if n > 0 {
        lemma_first_piles_moved(before, after, a, b, n - 1, x);
    }
}

/// Where two tables differ in the piles `a` and `b` at most, and these two
/// hold between them the same cards in both, the tables hold the same cards.
pub proof fn lemma_cards_moved(before: Table, after: Table, a: StackId, b: StackId)
    requires
        forall|id: StackId| id != a && id != b ==> after.cards_of(id) == before.cards_of(id),
        a != b ==> idents(after.cards_of(a)).add(idents(after.cards_of(b))) == idents(
            before.cards_of(a),
        ).add(idents(before.cards_of(b))),
        a == b ==> idents(after.cards_of(a)) == idents(before.cards_of(a)),
    ensures
        after.all_idents() == before.all_idents(),
{
    let other = if a == StackId::Stock {
        StackId::Waste
    } else {
        StackId::Stock
    };
    assert forall|x: (Suit, Rank)| after.all_idents().count(x) == before.all_idents().count(x) by {
        if a != b {
            assert(idents(after.cards_of(a)).add(idents(after.cards_of(b))).count(x) == idents(
                before.cards_of(a),
            ).add(idents(before.cards_of(b))).count(x));
            lemma_first_piles_moved(before, after, a, b, 14, x);
        } else {
            lemma_first_piles_moved(before, after, a, other, 14, x);
        }
    }
}

/// A deal lays out every card of the deck, and no other.
pub proof fn lemma_deal_keeps_cards(table: Table, deck: Seq<Card>)
    requires
        deck.len() >= TABLEAU_CARDS,
        table.is_deal_of(deck),
    ensures
        table.all_idents() == idents(deck),
{
    reveal_with_fuel(cards_in_tableaux, 8);
    reveal_with_fuel(Table::idents_of_first, 15);
    let n = deck.len() as int;
    let empty = Multiset::<(Suit, Rank)>::empty();
    lemma_idents_empty(table.cards_of(StackId::Waste));
    lemma_idents_empty(table.cards_of(StackId::Hand));
    assert forall|i: int| 0 <= i < 4 implies idents((#[trigger] table.foundations@[i]).cards@)
        == empty by {
        lemma_idents_empty(table.foundations@[i].cards@);
    }
    assert forall|k: int| 1 <= k <= 7 implies idents((#[trigger] table.tableaux@[k - 1]).cards@)
        == idents(deck.subrange(n - cards_in_tableaux(k), n - cards_in_tableaux(k - 1))) by {
        let run = deck.subrange(n - cards_in_tableaux(k), n - cards_in_tableaux(k - 1));
        lemma_idents_in_place(dealt_tableau(deck, k), run);
    }
    lemma_idents_split_range(deck, 0, n - 1, n);
    lemma_idents_split_range(deck, 0, n - 3, n - 1);
    lemma_idents_split_range(deck, 0, n - 6, n - 3);
    lemma_idents_split_range(deck, 0, n - 10, n - 6);
    lemma_idents_split_range(deck, 0, n - 15, n - 10);
    lemma_idents_split_range(deck, 0, n - 21, n - 15);
    lemma_idents_split_range(deck, 0, n - 28, n - 21);
    assert(deck.subrange(0, n) == deck);
}

/// A deal of face-down cards leaves every pile in order: the foundations
/// and the hand are empty, and each tableau shows its top card only.
pub proof fn lemma_deal_is_in_order(table: Table, deck: Seq<Card>)
    requires
        deck.len() >= TABLEAU_CARDS,
        table.is_deal_of(deck),
    ensures
        table.foundations_ordered(),
        table.hand_is_run(),
        (forall|i: int| 0 <= i < deck.len() ==> !(#[trigger] deck[i]).face_up)
            ==> table.tableaux_alternating(),
{
    reveal_with_fuel(cards_in_tableaux, 8);
    assert forall|id: StackId| id.kind() == StackType::Foundation implies is_foundation_run(
        #[trigger] table.cards_of(id),
    ) by {}
    if forall|i: int| 0 <= i < deck.len() ==> !(#[trigger] deck[i]).face_up {
        assert forall|id: StackId| id.kind() == StackType::Tableau implies is_tableau_run(
            #[trigger] table.cards_of(id),
        ) by {
            let cards = table.cards_of(id);
            assert forall|i: int| 0 <= i < cards.len() - 1 implies !(
            #[trigger] cards[i]).face_up by {}
        }
    }
}

/// The lower part of a foundation run is a foundation run.
pub proof fn lemma_foundation_run_cut(cards: Seq<Card>, at: int)
    requires
        is_foundation_run(cards),
        0 <= at <= cards.len(),
    ensures
        is_foundation_run(cards.subrange(0, at)),
{
    let lower = cards.subrange(0, at);
    assert forall|i: int| 0 <= i < lower.len() implies (#[trigger] lower[i]).rank.spec_value() == i
        + 1 && lower[i].suit == lower[0].suit by {}
}

/// The lower part of a tableau run is a tableau run, and the upper part
/// too; from a face-up card on, the upper part may be carried.
pub proof fn lemma_tableau_run_cut(cards: Seq<Card>, at: int)
    requires
        is_tableau_run(cards),
        0 <= at <= cards.len(),
    ensures
        is_tableau_run(cards.subrange(0, at)),
        is_tableau_run(cards.subrange(at, cards.len() as int)),
        at < cards.len() && cards[at].face_up ==> is_carried_run(
            cards.subrange(at, cards.len() as int),
        ),
{
    let lower = cards.subrange(0, at);
    let upper = cards.subrange(at, cards.len() as int);
    assert forall|below: int, above: int|
        0 <= below && above == below + 1 && above < lower.len() && (
        #[trigger] lower[below]).face_up implies {
        &&& (#[trigger] lower[above]).face_up
        &&& lower[above].spec_is_one_below(&lower[below])
        &&& !lower[above].spec_is_same_color(&lower[below])
    } by {}
    assert forall|below: int, above: int|
        0 <= below && above == below + 1 && above < upper.len() && (
        #[trigger] upper[below]).face_up implies {
        &&& (#[trigger] upper[above]).face_up
        &&& upper[above].spec_is_one_below(&upper[below])
        &&& !upper[above].spec_is_same_color(&upper[below])
    } by {}
    if at < cards.len() && cards[at].face_up {
        assert forall|i: int| 0 <= i < upper.len() implies (#[trigger] upper[i]).face_up by {
            lemma_face_up_from(cards, at, at + i);
        }
    }
}

/// In a tableau run every card above a face-up card is face up.
pub proof fn lemma_face_up_from(cards: Seq<Card>, from: int, to: int)
    requires
        is_tableau_run(cards),
        0 <= from <= to < cards.len(),
        cards[from].face_up,
    ensures
        cards[to].face_up,
    decreases to - from,
{
    if from < to {
        lemma_face_up_from(cards, from, to - 1);
    }
}

/// Turning the top card up keeps a foundation run, a tableau run and a run
/// that may be carried what they are.
pub proof fn lemma_top_turned_up(cards: Seq<Card>)
    ensures
        is_foundation_run(cards) ==> is_foundation_run(with_top_facing(cards, true)),
        is_tableau_run(cards) ==> is_tableau_run(with_top_facing(cards, true)),
        is_carried_run(cards) ==> with_top_facing(cards, true) == cards,
{
    let turned = with_top_facing(cards, true);
    if is_foundation_run(cards) {
        assert forall|i: int| 0 <= i < turned.len() implies (
        #[trigger] turned[i]).rank.spec_value() == i + 1 && turned[i].suit == turned[0].suit by {}
    }
    if is_tableau_run(cards) {
        assert forall|below: int, above: int|
            0 <= below && above == below + 1 && above < turned.len() && (
            #[trigger] turned[below]).face_up implies {
            &&& (#[trigger] turned[above]).face_up
            &&& turned[above].spec_is_one_below(&turned[below])
            &&& !turned[above].spec_is_same_color(&turned[below])
        } by {}
    }
}

/// A hand that a foundation accepts continues its count.
pub proof fn lemma_foundation_takes(pile: Seq<Card>, hand: Seq<Card>)
    requires
        is_foundation_run(pile),
        foundation_accepts(pile, hand),
    ensures
        is_foundation_run(pile + hand),
{
    let both = pile + hand;
    assert forall|i: int| 0 <= i < both.len() implies (#[trigger] both[i]).rank.spec_value() == i
        + 1 && both[i].suit == both[0].suit by {}
}

/// A run that may be carried, put on a tableau that accepts it, continues
/// the tableau's run.
pub proof fn lemma_tableau_takes(pile: Seq<Card>, hand: Seq<Card>)
    requires
        is_tableau_run(pile),
        is_carried_run(hand),
        tableau_accepts(pile, hand),
    ensures
        is_tableau_run(pile + hand),
{
    let both = pile + hand;
    assert forall|below: int, above: int|
        0 <= below && above == below + 1 && above < both.len() && (
        #[trigger] both[below]).face_up implies {
        &&& (#[trigger] both[above]).face_up
        &&& both[above].spec_is_one_below(&both[below])
        &&& !both[above].spec_is_same_color(&both[below])
    } by {}
}

} // verus!
