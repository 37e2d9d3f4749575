//! Moving cards: dealing from the stock, picking cards up and putting the
//! hand down.

use vstd::prelude::*;
use crate::card::Card;
use crate::deck::{
    all_facing, idents, lemma_idents_concat, lemma_idents_empty, lemma_idents_in_place,
    lemma_idents_reverse, lemma_idents_split,
};
use crate::invariants::{
    is_carried_run, is_foundation_run, is_tableau_run, lemma_cards_moved,
    lemma_foundation_run_cut, lemma_foundation_takes, lemma_tableau_run_cut, lemma_tableau_takes,
    lemma_top_turned_up,
};
use crate::pile::{StackId, StackType};
use crate::stack::with_top_facing;
use crate::table::{Source, Table};

verus! {

/// Why a move was not made.
#[derive(Clone, Copy, Debug, PartialEq, Eq, Structural)]
pub enum MoveError {
    /// There is nothing in hand to put down.
    EmptyHand,
    /// The target pile does not accept the hand.
    IllegalDrop,
    /// The pile has no card at the index given, nor does it end there.
    OutOfRangeIndex,
}

/// How many cards one deal takes from the stock: three, or all that is left.
pub open spec fn deal_count(stock: Seq<Card>) -> int {
    if stock.len() < 3 {
        stock.len() as int
    } else {
        3
    }
}

/// The stock after a deal. An empty stock takes the whole waste, turned
/// face down and in reverse order; any other loses the cards dealt.
pub open spec fn stock_after_deal(stock: Seq<Card>, waste: Seq<Card>) -> Seq<Card> {
    if stock.len() == 0 {
        all_facing(waste.reverse(), false)
    } else {
        stock.subrange(0, stock.len() - deal_count(stock))
    }
}

/// The waste after a deal. It is emptied when the stock is empty; else the
/// cards dealt come on top of it, face up, in the order they had in the stock.
pub open spec fn waste_after_deal(stock: Seq<Card>, waste: Seq<Card>) -> Seq<Card> {
    if stock.len() == 0 {
        Seq::empty()
    } else {
        waste + all_facing(
            stock.subrange(stock.len() - deal_count(stock), stock.len() as int),
            true,
        )
    }
}

/// A deal moves cards between the stock and the waste and loses none.
pub proof fn lemma_stock_deal_keeps_cards(stock: Seq<Card>, waste: Seq<Card>)
    ensures
        idents(stock_after_deal(stock, waste)).add(idents(waste_after_deal(stock, waste)))
            == idents(stock).add(idents(waste)),
{
    if stock.len() == 0 {
        lemma_idents_in_place(all_facing(waste.reverse(), false), waste.reverse());
        lemma_idents_reverse(waste);
        lemma_idents_empty(stock);
        lemma_idents_empty(Seq::<Card>::empty());
    } else {
        let at = stock.len() - deal_count(stock);
        let dealt = stock.subrange(at, stock.len() as int);
        lemma_idents_split(stock, at);
        lemma_idents_concat(waste, all_facing(dealt, true));
        lemma_idents_in_place(all_facing(dealt, true), dealt);
    }
}

/// Taking the top card of a pile into the hand, face up, loses no card.
pub proof fn lemma_take_top_keeps_cards(pile: Seq<Card>, hand: Seq<Card>)
    requires
        pile.len() > 0,
    ensures
        idents(pile.drop_last()).add(idents(hand.push(pile.last().facing(true)))) == idents(
            pile,
        ).add(idents(hand)),
        idents(with_top_facing(pile, true)) == idents(pile),
{
    let top = pile.last();
    lemma_idents_split(pile, pile.len() - 1);
    assert(hand.push(top.facing(true)) == hand + seq![top.facing(true)]);
    lemma_idents_concat(hand, seq![top.facing(true)]);
    lemma_idents_in_place(seq![top.facing(true)], pile.subrange(pile.len() - 1, pile.len() as int));
    lemma_idents_in_place(with_top_facing(pile, true), pile);
}

impl Table {
    /// The hand once the top card of pile `id` has been taken into it:
    /// that card comes on top of the hand, face up.
    pub open spec fn hand_after_take_top(&self, id: StackId) -> Seq<Card> {
        let hand = self.cards_of(StackId::Hand);
        let from = self.cards_of(id);
        if from.len() == 0 {
            hand
        } else if id == StackId::Hand {
            with_top_facing(hand, true)
        } else {
            hand.push(from.last().facing(true))
        }
    }

    /// The hand once pile `id` has been cut at `index`: the cards cut off,
    /// or, where there are none, the hand as it was.
    pub open spec fn hand_after_take_selected(&self, id: StackId, index: int) -> Seq<Card> {
        let from = self.cards_of(id);
        if index < from.len() {
            from.subrange(index, from.len() as int)
        } else {
            self.cards_of(StackId::Hand)
        }
    }

    /// Cutting pile `id` at `index` drops no card of the hand: the hand is
    /// empty, or the cut takes no card, or it takes the whole hand itself.
    pub open spec fn cut_keeps_hand(&self, id: StackId, index: int) -> bool {
        ||| self.cards_of(StackId::Hand).len() == 0
        ||| index >= self.cards_of(id).len()
        ||| id == StackId::Hand && index == 0
    }

    /// The cards of pile `id` once the hand has been put on the target. The
    /// target gets the hand on top, the hand is emptied, and the pile that
    /// the cursor was on has its top card turned up. A target that is the
    /// hand itself keeps the cards.
    pub open spec fn cards_after_drop(&self, id: StackId) -> Seq<Card> {
        let hand = self.cards_of(StackId::Hand);
        let placed = if id == StackId::Hand {
            if self.target == StackId::Hand {
                hand
            } else {
                Seq::empty()
            }
        } else if id == self.target {
            self.cards_of(id) + hand
        } else {
            self.cards_of(id)
        };
        if id == self.source.stack {
            with_top_facing(placed, true)
        } else {
            placed
        }
    }

    /// The cursor once the hand has been put on the target: on the target,
    /// at the first card put down.
    pub open spec fn source_after_drop(&self) -> Source {
        Source {
            stack: self.target,
            index: if self.target == StackId::Hand {
                0
            } else {
                self.cards_of(self.target).len() as usize
            },
        }
    }

    /// Deals up to three cards from the stock onto the waste, or, when the
    /// stock is empty, takes the waste back as the new stock.
    pub fn deal_from_stock(&mut self)
        ensures
            final(self).stock.cards@ == stock_after_deal(
                old(self).stock.cards@,
                old(self).waste.cards@,
            ),
            final(self).waste.cards@ == waste_after_deal(
                old(self).stock.cards@,
                old(self).waste.cards@,
            ),
            final(self).stock.stack_id == old(self).stock.stack_id,
            final(self).stock.stack_type == old(self).stock.stack_type,
            final(self).waste.stack_id == old(self).waste.stack_id,
            final(self).waste.stack_type == old(self).waste.stack_type,
            final(self).in_hand == old(self).in_hand,
            final(self).foundations == old(self).foundations,
            final(self).tableaux == old(self).tableaux,
            final(self).source == old(self).source,
            final(self).target == old(self).target,
            old(self).wf() ==> final(self).wf(),
            final(self).all_idents() == old(self).all_idents(),
            old(self).foundations_ordered() ==> final(self).foundations_ordered(),
            old(self).tableaux_alternating() ==> final(self).tableaux_alternating(),
            old(self).hand_is_run() ==> final(self).hand_is_run(),
    {
        let stock_len = self.stock.cards.len();
        let amount_to_deal = if stock_len < 3 {
            stock_len
        } else {
            3
        };
        if amount_to_deal == 0 {
            let ghost waste = self.waste.cards@;
            loop
                invariant
                    self.waste.cards@ == waste.subrange(0, self.waste.cards@.len() as int),
                    self.waste.cards@.len() <= waste.len(),
                    self.stock.cards@ == all_facing(
                        waste.subrange(
                            self.waste.cards@.len() as int,
                            waste.len() as int,
                        ).reverse(),
                        false,
                    ),
                    self.stock.stack_id == old(self).stock.stack_id,
                    self.stock.stack_type == old(self).stock.stack_type,
                    self.waste.stack_id == old(self).waste.stack_id,
                    self.waste.stack_type == old(self).waste.stack_type,
                    self.in_hand == old(self).in_hand,
                    self.foundations == old(self).foundations,
                    self.tableaux == old(self).tableaux,
                    self.source == old(self).source,
                    self.target == old(self).target,
                ensures
                    self.waste.cards@.len() == 0,
                decreases self.waste.cards@.len(),
            {
                match self.waste.cards.pop() {
                    Some(mut card) => {
                        card.face_up = false;
                        self.stock.cards.push(card);
                    },
                    None => {
                        break ;
                    },
                }
            }
        } else {
            let start = stock_len - amount_to_deal;
            let mut dealt_cards = self.stock.cards.split_off(start);
            let ghost dealt = dealt_cards@;
            let mut i: usize = 0;
            while i < dealt_cards.len()
                invariant
                    i <= dealt_cards@.len(),
                    dealt_cards@.len() == dealt.len(),
                    forall|j: int| 0 <= j < i ==> dealt_cards@[j] == dealt[j].facing(true),
                    forall|j: int| i <= j < dealt.len() ==> dealt_cards@[j] == dealt[j],
                decreases dealt_cards@.len() - i,
            {
                dealt_cards[i].face_up = true;
                i += 1;
            }
            self.waste.cards.append(&mut dealt_cards);
        }
        proof {
            lemma_stock_deal_keeps_cards(old(self).stock.cards@, old(self).waste.cards@);
            let dealt = *self;
            assert(dealt.cards_of(StackId::Stock) == stock_after_deal(
                old(self).stock.cards@,
                old(self).waste.cards@,
            ));
            assert(dealt.cards_of(StackId::Waste) == waste_after_deal(
                old(self).stock.cards@,
                old(self).waste.cards@,
            ));
            assert forall|id: StackId| id != StackId::Stock && id != StackId::Waste implies (
            #[trigger] dealt.pile(id)) == old(self).pile(id) by {}
            lemma_cards_moved(*old(self), dealt, StackId::Stock, StackId::Waste);
            assert forall|id: StackId|
                (#[trigger] dealt.pile(id)).stack_id == old(self).pile(id).stack_id && dealt.pile(
                    id,
                ).stack_type == old(self).pile(id).stack_type by {}
            assert forall|id: StackId|
                id.kind() == StackType::Foundation || id.kind() == StackType::Tableau || id
                    == StackId::Hand implies (#[trigger] dealt.cards_of(id)) == old(self).cards_of(
                id,
            ) by {}
        }
    }

    /// Turns the top card of a pile face up.
    pub fn expose_top_card_of_stack(&mut self, stack_id: StackId)
        requires
            old(self).has_all_piles(),
        ensures
            final(self).same_but(old(self), stack_id, stack_id),
            final(self).same_tags(old(self)),
            final(self).source == old(self).source,
            final(self).target == old(self).target,
            final(self).cards_of(stack_id) == with_top_facing(old(self).cards_of(stack_id), true),
            old(self).wf() ==> final(self).wf(),
            final(self).all_idents() == old(self).all_idents(),
            old(self).foundations_ordered() ==> final(self).foundations_ordered(),
            old(self).tableaux_alternating() ==> final(self).tableaux_alternating(),
            old(self).hand_is_run() ==> final(self).hand_is_run(),
    {
        let stack = self.get_stack_mut(stack_id);
        stack.expose_top_card();
        proof {
            let after = *self;
            assert forall|id: StackId| true implies {
                &&& (#[trigger] after.pile(id)).stack_id == old(self).pile(id).stack_id
                &&& after.pile(id).stack_type == old(self).pile(id).stack_type
                &&& id != stack_id ==> after.cards_of(id) == old(self).cards_of(id)
            } by {}
            lemma_idents_in_place(after.cards_of(stack_id), old(self).cards_of(stack_id));
            lemma_cards_moved(*old(self), after, stack_id, stack_id);
            lemma_top_turned_up(old(self).cards_of(stack_id));
            assert forall|id: StackId| true implies {
                &&& is_foundation_run(#[trigger] old(self).cards_of(id)) ==> is_foundation_run(
                    after.cards_of(id),
                )
                &&& is_tableau_run(old(self).cards_of(id)) ==> is_tableau_run(after.cards_of(id))
                &&& is_carried_run(old(self).cards_of(id)) ==> is_carried_run(after.cards_of(id))
            } by {}
            assert forall|id: StackId|
                old(self).foundations_ordered() && id.kind()
                    == StackType::Foundation implies is_foundation_run(
                #[trigger] after.cards_of(id),
            ) by {}
            assert forall|id: StackId|
                old(self).tableaux_alternating() && id.kind()
                    == StackType::Tableau implies is_tableau_run(#[trigger] after.cards_of(id)) by {}
        }
    }

    /// Moves the top card of a pile into the hand, face up. An empty pile
    /// gives nothing.
    pub fn take_top_card_from_stack(&mut self, stack_id: StackId)
        requires
            old(self).has_all_piles(),
        ensures
            final(self).same_but(old(self), stack_id, StackId::Hand),
            final(self).same_tags(old(self)),
            final(self).source == old(self).source,
            final(self).target == old(self).target,
            final(self).cards_of(StackId::Hand) == old(self).hand_after_take_top(stack_id),
            stack_id != StackId::Hand ==> final(self).cards_of(stack_id) == if old(self).cards_of(
                stack_id,
            ).len() == 0 {
                old(self).cards_of(stack_id)
            } else {
                old(self).cards_of(stack_id).drop_last()
            },
            old(self).wf() ==> final(self).wf(),
            final(self).all_idents() == old(self).all_idents(),
            old(self).foundations_ordered() ==> final(self).foundations_ordered(),
            old(self).tableaux_alternating() ==> final(self).tableaux_alternating(),
            old(self).cards_of(StackId::Hand).len() == 0 ==> final(self).hand_is_run(),
    {
        let stack = self.get_stack_mut(stack_id);
        let count = stack.cards.len();
        if count > 0 {
            let last_index = count - 1;
            let mut card = stack.cards.remove(last_index);
            let ghost taken = *self;
            card.face_up = true;
            self.in_hand.cards.push(card);
            proof {
                assert forall|id: StackId| true implies {
                    &&& (#[trigger] self.pile(id)).stack_id == old(self).pile(id).stack_id
                    &&& self.pile(id).stack_type == old(self).pile(id).stack_type
                    &&& id != stack_id && id != StackId::Hand ==> self.pile(id) == old(self).pile(
                        id,
                    )
                } by {
                    assert(taken.pile(id).stack_id == old(self).pile(id).stack_id);
                }
                if stack_id == StackId::Hand {
                    let hand = old(self).cards_of(StackId::Hand);
                    assert(hand.drop_last().push(hand.last().facing(true)) == with_top_facing(
                        hand,
                        true,
                    ));
                }
                let after = *self;
                let from = old(self).cards_of(stack_id);
                lemma_take_top_keeps_cards(from, old(self).cards_of(StackId::Hand));
                assert forall|id: StackId| id != stack_id && id != StackId::Hand implies (
                #[trigger] after.cards_of(id)) == old(self).cards_of(id) by {}
                lemma_cards_moved(*old(self), after, stack_id, StackId::Hand);
                if old(self).foundations_ordered() && stack_id.kind() == StackType::Foundation {
                    lemma_foundation_run_cut(from, from.len() - 1);
                }
                if old(self).tableaux_alternating() && stack_id.kind() == StackType::Tableau {
                    lemma_tableau_run_cut(from, from.len() - 1);
                }
            }
        } else {
            proof {
                let unchanged = *self;
                assert forall|id: StackId| true implies {
                    &&& (#[trigger] self.pile(id)).stack_id == old(self).pile(id).stack_id
                    &&& self.pile(id).stack_type == old(self).pile(id).stack_type
                    &&& id != stack_id ==> self.pile(id) == old(self).pile(id)
                } by {}
                assert forall|id: StackId| (#[trigger] unchanged.cards_of(id)) == old(
                    self,
                ).cards_of(id) by {}
                lemma_cards_moved(*old(self), unchanged, stack_id, stack_id);
            }
        }
    }

    /// Cuts a pile at `index` and makes the cards from there up the hand, in
    /// place of what the hand held. Where the cut takes no card, the hand
    /// stays as it is.
    pub fn take_selected_cards_from_stack(&mut self, stack_id: StackId, index: usize)
        requires
            old(self).has_all_piles(),
            index <= old(self).cards_of(stack_id).len(),
        ensures
            final(self).same_but(old(self), stack_id, StackId::Hand),
            final(self).same_tags(old(self)),
            final(self).source == old(self).source,
            final(self).target == old(self).target,
            final(self).cards_of(StackId::Hand) == old(self).hand_after_take_selected(
                stack_id,
                index as int,
            ),
            stack_id != StackId::Hand ==> final(self).cards_of(stack_id) == old(self).cards_of(
                stack_id,
            ).subrange(0, index as int),
            old(self).wf() ==> final(self).wf(),
            old(self).cut_keeps_hand(stack_id, index as int) ==> final(self).all_idents() == old(
                self,
            ).all_idents(),
            old(self).foundations_ordered() ==> final(self).foundations_ordered(),
            old(self).tableaux_alternating() ==> final(self).tableaux_alternating(),
            old(self).hand_is_run() && is_carried_run(
                old(self).cards_of(stack_id).subrange(
                    index as int,
                    old(self).cards_of(stack_id).len() as int,
                ),
            ) ==> final(self).hand_is_run(),
    {
        let cards_for_hand = {
            let stack = self.get_stack_mut(stack_id);
            stack.cards.split_off(index)
        };
        let ghost cut = *self;
        let count = cards_for_hand.len();
        if count > 0 {
            self.in_hand.cards = cards_for_hand;
        }
        proof {
            let cards = old(self).cards_of(stack_id);
            assert forall|id: StackId| true implies {
                &&& (#[trigger] self.pile(id)).stack_id == old(self).pile(id).stack_id
                &&& self.pile(id).stack_type == old(self).pile(id).stack_type
                &&& id != stack_id && id != StackId::Hand ==> self.pile(id) == old(self).pile(id)
            } by {
                assert(cut.pile(id).stack_id == old(self).pile(id).stack_id);
            }
            let after = *self;
            assert forall|id: StackId| id != stack_id && id != StackId::Hand implies (
            #[trigger] after.cards_of(id)) == old(self).cards_of(id) by {}
            if old(self).cut_keeps_hand(stack_id, index as int) {
                lemma_idents_split(cards, index as int);
                if stack_id == StackId::Hand || count == 0 {
                    assert(cards.subrange(0, cards.len() as int) == cards);
                    lemma_cards_moved(*old(self), after, stack_id, stack_id);
                } else {
                    lemma_idents_empty(old(self).cards_of(StackId::Hand));
                    assert(idents(after.cards_of(stack_id)).add(
                        idents(after.cards_of(StackId::Hand)),
                    ) =~= idents(cards).add(idents(old(self).cards_of(StackId::Hand))));
                    lemma_cards_moved(*old(self), after, stack_id, StackId::Hand);
                }
            }
            if old(self).foundations_ordered() && stack_id.kind() == StackType::Foundation {
                lemma_foundation_run_cut(cards, index as int);
            }
            if old(self).tableaux_alternating() && stack_id.kind() == StackType::Tableau {
                lemma_tableau_run_cut(cards, index as int);
            }
        }
    }

    /// Puts the whole hand on the target pile, turns up the top card of the
    /// pile the cursor was on, and moves the cursor to the first card put
    /// down. Whether the target accepts the hand is not asked here.
    pub fn put_hand_on_target(&mut self)
        requires
            old(self).has_all_piles(),
        ensures
            final(self).has_all_piles(),
            final(self).same_tags(old(self)),
            forall|id: StackId| #[trigger]
                final(self).cards_of(id) == old(self).cards_after_drop(id),
            final(self).source == old(self).source_after_drop(),
            final(self).target == old(self).target,
            old(self).wf() ==> final(self).wf(),
            final(self).all_idents() == old(self).all_idents(),
            old(self).foundations_ordered() && old(self).drop_is_legal()
                ==> final(self).foundations_ordered(),
            old(self).tableaux_alternating() && old(self).hand_is_run() && old(self).drop_is_legal()
                ==> final(self).tableaux_alternating(),
            old(self).hand_is_run() ==> final(self).hand_is_run(),
    {
        let target = self.target;
        let mut cards = Vec::new();
        std::mem::swap(&mut cards, &mut self.in_hand.cards);
        let target_stack = self.get_stack_mut(target);
        let index = target_stack.cards.len();
        target_stack.cards.append(&mut cards);
        let ghost placed = *self;
        self.expose_top_card_of_stack(self.source.stack);
        let ghost exposed = *self;
        self.source = Source { stack: target, index: index };
        proof {
            let hand = old(self).cards_of(StackId::Hand);
            assert forall|id: StackId| true implies {
                &&& (#[trigger] self.pile(id)).stack_id == old(self).pile(id).stack_id
                &&& self.pile(id).stack_type == old(self).pile(id).stack_type
                &&& self.cards_of(id) == old(self).cards_after_drop(id)
            } by {
                assert(exposed.pile(id).stack_id == old(self).pile(id).stack_id);
            }
            let after = *self;
            let from = old(self).source.stack;
            assert forall|id: StackId| id != StackId::Hand && id != target implies (
            #[trigger] placed.cards_of(id)) == old(self).cards_of(id) by {}
            if target != StackId::Hand {
                lemma_idents_concat(old(self).cards_of(target), hand);
                lemma_idents_empty(placed.cards_of(StackId::Hand));
                assert(idents(placed.cards_of(StackId::Hand)).add(idents(placed.cards_of(target)))
                    =~= idents(hand).add(idents(old(self).cards_of(target))));
            }
            lemma_cards_moved(*old(self), placed, StackId::Hand, target);
            assert forall|id: StackId| id != from implies (#[trigger] after.cards_of(id))
                == placed.cards_of(id) by {}
            lemma_idents_in_place(after.cards_of(from), placed.cards_of(from));
            lemma_cards_moved(placed, after, from, from);
            assert forall|id: StackId| true implies {
                &&& is_foundation_run(#[trigger] placed.cards_of(id)) ==> is_foundation_run(
                    after.cards_of(id),
                )
                &&& is_tableau_run(placed.cards_of(id)) ==> is_tableau_run(after.cards_of(id))
                &&& is_carried_run(placed.cards_of(id)) ==> is_carried_run(after.cards_of(id))
            } by {
                lemma_top_turned_up(placed.cards_of(id));
            }
            if old(self).drop_is_legal() {
                if old(self).foundations_ordered() && target.kind() == StackType::Foundation {
                    lemma_foundation_takes(old(self).cards_of(target), hand);
                }
                if old(self).tableaux_alternating() && old(self).hand_is_run() && target.kind()
                    == StackType::Tableau {
                    lemma_tableau_takes(old(self).cards_of(target), hand);
                }
            }
            assert forall|id: StackId|
                old(self).foundations_ordered() && old(self).drop_is_legal() && id.kind()
                    == StackType::Foundation implies is_foundation_run(
                #[trigger] after.cards_of(id),
            ) by {}
            assert forall|id: StackId|
                old(self).tableaux_alternating() && old(self).hand_is_run() && old(
                    self,
                ).drop_is_legal() && id.kind() == StackType::Tableau implies is_tableau_run(
                #[trigger] after.cards_of(id),
            ) by {}
        }
    }

    /// Cuts a pile at `index` like `take_selected_cards_from_stack`, unless
    /// the pile is shorter than `index`: then nothing is changed and the
    /// index is reported.
    pub fn try_take_selected_cards_from_stack(&mut self, stack_id: StackId, index: usize) -> (done:
        Result<(), MoveError>)
        requires
            old(self).has_all_piles(),
        ensures
            done is Ok <==> index <= old(self).cards_of(stack_id).len(),
            done matches Err(error) ==> error == MoveError::OutOfRangeIndex && *final(self) == *old(
                self,
            ),
            done is Ok ==> {
                &&& final(self).same_but(old(self), stack_id, StackId::Hand)
                &&& final(self).same_tags(old(self))
                &&& final(self).source == old(self).source
                &&& final(self).target == old(self).target
                &&& final(self).cards_of(StackId::Hand) == old(self).hand_after_take_selected(
                    stack_id,
                    index as int,
                )
                &&& stack_id != StackId::Hand ==> final(self).cards_of(stack_id) == old(
                    self,
                ).cards_of(stack_id).subrange(0, index as int)
            },
            old(self).wf() ==> final(self).wf(),
            old(self).cut_keeps_hand(stack_id, index as int) ==> final(self).all_idents() == old(
                self,
            ).all_idents(),
            old(self).foundations_ordered() ==> final(self).foundations_ordered(),
            old(self).tableaux_alternating() ==> final(self).tableaux_alternating(),
    {
        if index > self.get_stack(stack_id).cards.len() {
            return Err(MoveError::OutOfRangeIndex);
        }
        self.take_selected_cards_from_stack(stack_id, index);
        Ok(())
    }

    /// Puts the hand on the target like `put_hand_on_target`, if there is a
    /// hand and the target accepts it. Otherwise nothing is changed and the
    /// reason is reported. A hand that is a run, put down this way, leaves
    /// the foundations and the tableaux in order.
    pub fn try_put_hand_on_target(&mut self) -> (done: Result<(), MoveError>)
        requires
            old(self).wf(),
        ensures
            done is Ok <==> old(self).drop_is_legal(),
            done matches Err(error) ==> *final(self) == *old(self) && error == if old(
                self,
            ).cards_in_hand() {
                MoveError::IllegalDrop
            } else {
                MoveError::EmptyHand
            },
            done is Ok ==> {
                &&& forall|id: StackId| #[trigger]
                    final(self).cards_of(id) == old(self).cards_after_drop(id)
                &&& final(self).source == old(self).source_after_drop()
                &&& final(self).target == old(self).target
            },
            final(self).wf(),
            final(self).all_idents() == old(self).all_idents(),
            old(self).foundations_ordered() ==> final(self).foundations_ordered(),
            old(self).tableaux_alternating() && old(self).hand_is_run()
                ==> final(self).tableaux_alternating(),
            old(self).hand_is_run() ==> final(self).hand_is_run(),
    {
        if !self.cards_in_hand() {
            return Err(MoveError::EmptyHand);
        }
        if !self.get_stack(self.target).can_play(&self.in_hand) {
            return Err(MoveError::IllegalDrop);
        }
        self.put_hand_on_target();
        Ok(())
    }
}

} // verus!
