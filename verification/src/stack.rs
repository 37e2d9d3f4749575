//! A pile of cards: index 0 is the bottom card, the last card is the top.

use vstd::prelude::*;
use crate::card::{Card, Rank};
use crate::pile::{StackId, StackType};

verus! {

/// A pile with its name, its kind and its cards from the bottom up.
#[derive(Debug)]
pub struct Stack {
    pub stack_id: StackId,
    pub stack_type: StackType,
    pub cards: Vec<Card>,
}

/// A foundation takes a hand of exactly one card: an ace when it is empty,
/// else the card of its top card's suit that is one rank higher.
pub open spec fn foundation_accepts(pile: Seq<Card>, hand: Seq<Card>) -> bool {
    &&& hand.len() == 1
    &&& if pile.len() == 0 {
        hand[0].rank == Rank::Ace
    } else {
        hand[0].suit == pile.last().suit && pile.last().spec_is_one_below(&hand[0])
    }
}

/// A tableau takes a hand by its bottom card: a king when the tableau is
/// empty, else a card of the other colour that is one rank lower than the
/// tableau's top card.
pub open spec fn tableau_accepts(pile: Seq<Card>, hand: Seq<Card>) -> bool {
    &&& hand.len() > 0
    &&& if pile.len() == 0 {
        hand[0].rank == Rank::King
    } else {
        !pile.last().spec_is_same_color(&hand[0]) && hand[0].spec_is_one_below(&pile.last())
    }
}

/// `cards` with the top card facing as given; an empty run stays empty.
pub open spec fn with_top_facing(cards: Seq<Card>, face_up: bool) -> Seq<Card> {
    if cards.len() == 0 {
        cards
    } else {
        cards.update(cards.len() - 1, cards.last().facing(face_up))
    }
}

impl Stack {
    /// Piles that show one card at a time: the cursor rests on their top card only.
    pub open spec fn top_only(&self) -> bool {
        self.stack_type == StackType::Stock || self.stack_type == StackType::Waste
            || self.stack_type == StackType::Foundation
    }

    /// The cursor can rest on index `i` of this pile. An empty stock offers
    /// index 0; a stock, waste or foundation its top card; any other pile each
    /// of its face-up cards.
    pub open spec fn is_active(&self, i: int) -> bool {
        if self.cards@.len() == 0 {
            self.stack_type == StackType::Stock && i == 0
        } else if self.top_only() {
            i == self.cards@.len() - 1
        } else {
            0 <= i < self.cards@.len() && self.cards@[i].face_up
        }
    }

    /// Index `i` is active and lies ahead of `start`. With no `start` the
    /// cursor is entering the pile and every active index lies ahead; with a
    /// `start` the cursor is in the pile already, and a pile that shows one
    /// card has nothing further to offer. An empty stock always offers index 0.
    pub open spec fn is_ahead(&self, start: Option<usize>, i: int) -> bool {
        &&& self.is_active(i)
        &&& self.cards@.len() > 0 ==> match start {
            Some(s) => !self.top_only() && s < i,
            None => true,
        }
    }

    /// Index `i` holds a card, is active and lies behind `start`.
    pub open spec fn is_behind(&self, start: Option<usize>, i: int) -> bool {
        &&& self.cards@.len() > 0
        &&& self.is_active(i)
        &&& match start {
            Some(s) => !self.top_only() && i < s,
            None => true,
        }
    }

    /// `found` is the lowest index ahead of `start`, or nothing where there is none.
    pub open spec fn is_next_active(&self, start: Option<usize>, found: Option<usize>) -> bool {
        match found {
            Some(i) => self.is_ahead(start, i as int) && forall|j: int|
                0 <= j < i ==> !self.is_ahead(start, j),
            None => forall|j: int| 0 <= j ==> !self.is_ahead(start, j),
        }
    }

    /// `found` is the highest index behind `start`, or nothing where there is none.
    pub open spec fn is_previous_active(&self, start: Option<usize>, found: Option<usize>) -> bool {
        match found {
            Some(i) => self.is_behind(start, i as int) && forall|j: int|
                i < j ==> !self.is_behind(start, j),
            None => forall|j: int| 0 <= j ==> !self.is_behind(start, j),
        }
    }

    /// A foundation or a tableau that accepts `hand` by its own rule.
    pub open spec fn spec_can_play(&self, hand: &Stack) -> bool {
        match self.stack_type {
            StackType::Foundation => foundation_accepts(self.cards@, hand.cards@),
            StackType::Tableau => tableau_accepts(self.cards@, hand.cards@),
            _ => false,
        }
    }

    /// Index of the top card; 0 for an empty pile.
    pub open spec fn spec_top_card_index(&self) -> usize {
        if self.cards.len() == 0 {
            0
        } else {
            (self.cards.len() - 1) as usize
        }
    }

    #[verifier::when_used_as_spec(spec_top_card_index)]
    pub fn top_card_index(&self) -> (i: usize)
        ensures
            i == self.spec_top_card_index(),
    {
        if self.cards.is_empty() {
            0
        } else {
            self.cards.len() - 1
        }
    }

    /// The bottom card, if the pile has any.
    pub fn bottom_card(&self) -> (card: Option<&Card>)
        ensures
            card == if self.cards@.len() == 0 { None } else { Some(&self.cards@[0]) },
    {
        if self.cards.is_empty() {
            None
        } else {
            Some(&self.cards[0])
        }
    }

    /// The top card, if the pile has any.
    pub fn top_card(&self) -> (card: Option<&Card>)
        ensures
            card == if self.cards@.len() == 0 { None } else { Some(&self.cards@.last()) },
    {
        if self.cards.is_empty() {
            None
        } else {
            Some(&self.cards[self.cards.len() - 1])
        }
    }

    /// The nearest active index behind `start_index`, or behind the end of
    /// the pile where there is no `start_index`.
    pub fn previous_active_card(&self, start_index: Option<usize>) -> (found: Option<usize>)
        ensures
            self.is_previous_active(start_index, found),
    {
        if self.cards.is_empty() {
            return None;
        }
        let max_index = self.cards.len() - 1;
        match self.stack_type {
            StackType::Stock | StackType::Foundation | StackType::Waste => {
                if start_index.is_none() {
                    Some(max_index)
                } else {
                    None
                }
            },
            _ => {
                let mut remaining: usize = match start_index {
                    Some(start_index) => if start_index <= max_index {
                        start_index
                    } else {
                        max_index + 1
                    },
                    None => max_index + 1,
                };
                while remaining > 0
                    invariant
                        self.cards.len() == max_index + 1,
                        !self.top_only(),
                        remaining <= max_index + 1,
                        start_index matches Some(s) ==> remaining <= s,
                        forall|j: int| remaining <= j ==> !self.is_behind(start_index, j),
                    decreases remaining,
                {
                    let active_index = remaining - 1;
                    if self.cards[active_index].face_up {
                        return Some(active_index);
                    }
                    remaining = active_index;
                }
                None
            },
        }
    }

    /// The nearest active index ahead of `start_index`, or from the bottom
    /// of the pile on where there is no `start_index`.
    pub fn next_active_card(&self, start_index: Option<usize>) -> (found: Option<usize>)
        ensures
            self.is_next_active(start_index, found),
    {
        if self.cards.is_empty() {
            if self.stack_type == StackType::Stock {
                return Some(0);
            }
            return None;
        }
        let max_index = self.cards.len() - 1;
        match self.stack_type {
            StackType::Stock | StackType::Foundation | StackType::Waste => {
                if start_index.is_none() {
                    Some(max_index)
                } else {
                    None
                }
            },
            _ => {
                let mut active_index: usize = match start_index {
                    Some(start_index) => if start_index < max_index {
                        start_index + 1
                    } else {
                        return None;
                    },
                    None => 0,
                };
                while active_index <= max_index
                    invariant
                        self.cards.len() == max_index + 1,
                        !self.top_only(),
                        start_index matches Some(s) ==> s < active_index,
                        forall|j: int| 0 <= j < active_index ==> !self.is_ahead(start_index, j),
                    decreases max_index + 1 - active_index,
                {
                    if self.cards[active_index].face_up {
                        return Some(active_index);
                    }
                    active_index += 1;
                }
                None
            },
        }
    }

    /// Whether this pile, taken as a foundation, accepts `hand`.
    pub fn foundation_can_accept_hand(&self, hand: &Stack) -> (accepts: bool)
        ensures
            accepts == foundation_accepts(self.cards@, hand.cards@),
    {
        if hand.cards.len() > 1 {
            false
        } else {
            if let Some(card) = hand.top_card() {
                if self.cards.is_empty() {
                    card.rank == Rank::Ace
                } else {
                    if let Some(top_card) = self.top_card() {
                        if card.suit == top_card.suit {
                            top_card.is_one_below(card)
                        } else {
                            false
                        }
                    } else {
                        false
                    }
                }
            } else {
                false
            }
        }
    }

    /// Whether this pile, taken as a tableau, accepts `hand`.
    pub fn tableau_can_accept_hand(&self, hand: &Stack) -> (accepts: bool)
        ensures
            accepts == tableau_accepts(self.cards@, hand.cards@),
    {
        if let Some(card) = hand.bottom_card() {
            if let Some(top_card) = self.top_card() {
                if !top_card.is_same_color(card) {
                    card.is_one_below(top_card)
                } else {
                    false
                }
            } else {
                card.rank == Rank::King
            }
        } else {
            false
        }
    }

    /// Whether `hand` may be dropped on this pile. Only foundations and
    /// tableaux take cards.
    #[verifier::when_used_as_spec(spec_can_play)]
    pub fn can_play(&self, hand: &Stack) -> (accepts: bool)
        ensures
            accepts == self.spec_can_play(hand),
    {
        match self.stack_type {
            StackType::Foundation => self.foundation_can_accept_hand(hand),
            StackType::Tableau => self.tableau_can_accept_hand(hand),
            _ => false,
        }
    }

    /// Turns the top card face up, whichever way it lay.
    pub fn expose_top_card(&mut self)
        ensures
            final(self).stack_id == old(self).stack_id,
            final(self).stack_type == old(self).stack_type,
            final(self).cards@ == with_top_facing(old(self).cards@, true),
    {
        if !self.cards.is_empty() {
            let last_index = self.cards.len() - 1;
            self.cards[last_index].face_up = true;
        }
    }

    /// Turns the top card over.
    pub fn flip_top_card(&mut self)
        ensures
            final(self).stack_id == old(self).stack_id,
            final(self).stack_type == old(self).stack_type,
            final(self).cards@ == with_top_facing(
                old(self).cards@,
                !old(self).cards@.last().face_up,
            ),
    {
        if !self.cards.is_empty() {
            let index = self.cards.len() - 1;
            let card = &mut self.cards[index];
            card.face_up = !card.face_up;
        }
    }
}

} // verus!
