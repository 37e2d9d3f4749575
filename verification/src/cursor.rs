//! Moving the cursor. With an empty hand it steps from one active card to
//! the next; with cards in hand it steps from one pile that takes them to
//! the next.

use vstd::prelude::*;
use crate::invariants::lemma_cards_moved;
use crate::moves::MoveError;
use crate::pile::{lemma_ahead_adds, lemma_ring_reaches, StackId, RING_LEN};
use crate::table::{Source, Table};

verus! {

impl Table {
    /// The bound that the search gives the pile `k` places from the
    /// cursor: the cursor's index in the cursor's own pile at the start,
    /// none in a pile that the search enters.
    pub open spec fn search_start(&self, k: int) -> Option<usize> {
        if k == 0 {
            Some(self.source.index)
        } else {
            None
        }
    }

    /// `found` is what the pile `k` places ahead of the cursor offers to a
    /// search that goes forward.
    pub open spec fn offers_ahead(&self, k: int, found: Option<usize>) -> bool {
        self.pile(self.source.stack.ahead(k)).is_next_active(self.search_start(k), found)
    }

    /// `found` is what the pile `k` places back from the cursor offers to a
    /// search that goes backward.
    pub open spec fn offers_back(&self, k: int, found: Option<usize>) -> bool {
        self.pile(self.source.stack.back(k)).is_previous_active(self.search_start(k), found)
    }

    /// `found` is the first active card after the cursor: in the cursor's
    /// own pile beyond the cursor, else in the first pile further along the
    /// ring that offers one, the cursor's own pile coming last, searched then
    /// from its bottom. Nothing where no pile offers one.
    pub open spec fn is_next_source(&self, found: Option<Source>) -> bool {
        match found {
            Some(source) => exists|k: int|
                {
                    &&& 0 <= k <= RING_LEN
                    &&& source.stack == self.source.stack.ahead(k)
                    &&& #[trigger] self.offers_ahead(k, Some(source.index))
                    &&& forall|j: int| 0 <= j < k ==> self.offers_ahead(j, None)
                },
            None => forall|k: int| 0 <= k <= RING_LEN ==> self.offers_ahead(k, None),
        }
    }

    /// `found` is the first active card before the cursor, searched like
    /// the next one but backward.
    pub open spec fn is_previous_source(&self, found: Option<Source>) -> bool {
        match found {
            Some(source) => exists|k: int|
                {
                    &&& 0 <= k <= RING_LEN
                    &&& source.stack == self.source.stack.back(k)
                    &&& #[trigger] self.offers_back(k, Some(source.index))
                    &&& forall|j: int| 0 <= j < k ==> self.offers_back(j, None)
                },
            None => forall|k: int| 0 <= k <= RING_LEN ==> self.offers_back(k, None),
        }
    }

    /// The cursor rests on an active index of its pile.
    pub open spec fn source_is_active(&self) -> bool {
        self.pile(self.source.stack).is_active(self.source.index as int)
    }

    /// The first active card after the cursor. On a well-formed table there
    /// always is one, since the stock offers one to a search that enters it.
    pub fn next_active_card(&self) -> (found: Option<Source>)
        requires
            self.has_all_piles(),
        ensures
            self.is_next_source(found),
            self.wf() ==> found is Some,
            found matches Some(source) ==> self.pile(source.stack).is_active(source.index as int),
    {
        let mut source = self.source;
        let mut start = Some(source.index);
        let mut steps: usize = 0;
        while steps <= RING_LEN
            invariant
                self.has_all_piles(),
                steps <= RING_LEN + 1,
                source.stack == self.source.stack.ahead(steps as int),
                start == self.search_start(steps as int),
                forall|j: int| 0 <= j < steps ==> self.offers_ahead(j, None),
            decreases RING_LEN + 1 - steps,
        {
            let source_stack = self.get_stack(source.stack);
            match source_stack.next_active_card(start) {
                Some(index) => {
                    let found = Source { stack: source.stack, index };
                    assert(self.offers_ahead(steps as int, Some(found.index)));
                    return Some(found);
                },
                None => {
                    proof {
                        lemma_ahead_adds(self.source.stack, steps as int, 1);
                    }
                    source.stack = source.stack.next();
                    start = None;
                },
            }
            steps += 1;
        }
        proof {
            if self.wf() {
                let k = lemma_ring_reaches(self.source.stack, StackId::Stock);
                let k = if k == 0 {
                    RING_LEN as int
                } else {
                    k
                };
                lemma_ahead_adds(self.source.stack, 0, 0);
                assert(self.offers_ahead(k, None));
                let stock = self.pile(StackId::Stock);
                assert(stock.is_ahead(None, stock.top_card_index() as int));
            }
        }
        None
    }

    /// The first active card before the cursor, or nothing where no pile
    /// holds one.
    pub fn previous_active_card(&self) -> (found: Option<Source>)
        requires
            self.has_all_piles(),
        ensures
            self.is_previous_source(found),
            found matches Some(source) ==> self.pile(source.stack).is_active(source.index as int),
            found is None && self.wf() ==> self.stock.cards@.len() == 0,
    {
        let mut source = self.source;
        let mut start = Some(source.index);
        let mut steps: usize = 0;
        while steps <= RING_LEN
            invariant
                self.has_all_piles(),
                steps <= RING_LEN + 1,
                source.stack == self.source.stack.back(steps as int),
                start == self.search_start(steps as int),
                forall|j: int| 0 <= j < steps ==> self.offers_back(j, None),
            decreases RING_LEN + 1 - steps,
        {
            let source_stack = self.get_stack(source.stack);
            match source_stack.previous_active_card(start) {
                Some(index) => {
                    let found = Source { stack: source.stack, index };
                    assert(self.offers_back(steps as int, Some(found.index)));
                    return Some(found);
                },
                None => {
                    proof {
                        lemma_ahead_adds(self.source.stack, -(steps as int), -1);
                    }
                    source.stack = source.stack.previous();
                    start = None;
                },
            }
            steps += 1;
        }
        proof {
            if self.wf() {
                let k = lemma_ring_reaches(self.source.stack, StackId::Stock);
                let k = RING_LEN - k;
                lemma_ahead_adds(self.source.stack, 0, 0);
                assert(self.offers_back(k, None));
                let stock = self.pile(StackId::Stock);
                assert(!stock.is_behind(None, stock.top_card_index() as int));
            }
        }
        None
    }

    /// A search for a pile to drop the hand on, going forward, stops at the
    /// pile `k` places ahead of the target: it takes the hand, or the search
    /// has stepped on to it and it is the pile the cursor was on.
    pub open spec fn drop_stops_ahead(&self, k: int) -> bool {
        let id = self.target.ahead(k);
        self.pile(id).spec_can_play(&self.in_hand) || (k >= 2 && id == self.source.stack)
    }

    /// The same for a search that goes backward.
    pub open spec fn drop_stops_back(&self, k: int) -> bool {
        let id = self.target.back(k);
        self.pile(id).spec_can_play(&self.in_hand) || (k >= 2 && id == self.source.stack)
    }

    /// `id` is the first pile after the target at which the search stops.
    pub open spec fn is_next_play_location(&self, id: StackId) -> bool {
        exists|k: int|
            {
                &&& 1 <= k <= RING_LEN + 1
                &&& id == self.target.ahead(k)
                &&& #[trigger] self.drop_stops_ahead(k)
                &&& forall|j: int| 1 <= j < k ==> !self.drop_stops_ahead(j)
            }
    }

    /// `id` is the first pile before the target at which the search stops.
    pub open spec fn is_previous_play_location(&self, id: StackId) -> bool {
        exists|k: int|
            {
                &&& 1 <= k <= RING_LEN + 1
                &&& id == self.target.back(k)
                &&& #[trigger] self.drop_stops_back(k)
                &&& forall|j: int| 1 <= j < k ==> !self.drop_stops_back(j)
            }
    }

    /// The next pile after the target that takes the hand. Where none does,
    /// the search ends on the pile the cursor was on, which then need not
    /// take the hand.
    pub fn next_play_location(&self) -> (id: StackId)
        requires
            self.wf(),
        ensures
            self.is_next_play_location(id),
            id.on_ring(),
    {
        let mut target = self.target.next();
        let ghost mut k: int = 1;
        let ghost end: int;
        proof {
            let reach = lemma_ring_reaches(self.target, self.source.stack);
            end = if reach < 2 {
                reach + RING_LEN
            } else {
                reach
            };
            lemma_ahead_adds(self.target, reach, RING_LEN as int);
            lemma_ahead_adds(self.target, 1, 0);
        }
        loop
            invariant_except_break
                k <= end,
                k >= 2 ==> target != self.source.stack,
            invariant
                self.wf(),
                1 <= k <= RING_LEN + 1,
                2 <= end <= RING_LEN + 1,
                self.target.ahead(end) == self.source.stack,
                target == self.target.ahead(k),
                forall|j: int| 1 <= j < k ==> !self.drop_stops_ahead(j),
            ensures
                1 <= k <= RING_LEN + 1,
                target == self.target.ahead(k),
                self.drop_stops_ahead(k),
                forall|j: int| 1 <= j < k ==> !self.drop_stops_ahead(j),
            decreases end - k,
        {
            let target_stack = self.get_stack(target);
            if target_stack.can_play(&self.in_hand) {
                break ;
            } else {
                proof {
                    lemma_ahead_adds(self.target, k, 1);
                    k = k + 1;
                }
                target = target.next();
            }
            if target == self.source.stack {
                break ;
            }
        }
        proof {
            lemma_ahead_adds(self.target, k, 0);
        }
        target
    }

    /// The next pile before the target that takes the hand. Where none
    /// does, the search ends on the pile the cursor was on.
    pub fn previous_play_location(&self) -> (id: StackId)
        requires
            self.wf(),
        ensures
            self.is_previous_play_location(id),
            id.on_ring(),
    {
        let mut target = self.target.previous();
        let ghost mut k: int = 1;
        let ghost end: int;
        proof {
            let reach = RING_LEN - lemma_ring_reaches(self.target, self.source.stack);
            end = if reach < 2 {
                reach + RING_LEN
            } else {
                reach
            };
            lemma_ahead_adds(self.target, -reach, -(RING_LEN as int));
            lemma_ahead_adds(self.target, -reach, RING_LEN as int);
            lemma_ahead_adds(self.target, -1, 0);
        }
        loop
            invariant_except_break
                k <= end,
                k >= 2 ==> target != self.source.stack,
            invariant
                self.wf(),
                1 <= k <= RING_LEN + 1,
                2 <= end <= RING_LEN + 1,
                self.target.back(end) == self.source.stack,
                target == self.target.back(k),
                forall|j: int| 1 <= j < k ==> !self.drop_stops_back(j),
            ensures
                1 <= k <= RING_LEN + 1,
                target == self.target.back(k),
                self.drop_stops_back(k),
                forall|j: int| 1 <= j < k ==> !self.drop_stops_back(j),
            decreases end - k,
        {
            let target_stack = self.get_stack(target);
            if target_stack.can_play(&self.in_hand) {
                break ;
            } else {
                proof {
                    lemma_ahead_adds(self.target, -k, -1);
                    k = k + 1;
                }
                target = target.previous();
            }
            if target == self.source.stack {
                break ;
            }
        }
        proof {
            lemma_ahead_adds(self.target, -k, 0);
        }
        target
    }

    /// Everything but the cursor is the same in both tables.
    pub open spec fn same_piles(&self, other: &Table) -> bool {
        &&& self.stock == other.stock
        &&& self.waste == other.waste
        &&& self.in_hand == other.in_hand
        &&& self.foundations == other.foundations
        &&& self.tableaux == other.tableaux
    }

    /// Steps the cursor forward: with cards in hand to the next pile to drop
    /// them on, else to the next active card. No card moves. It never fails.
    pub fn go_next(&mut self) -> (done: Result<(), MoveError>)
        requires
            old(self).wf(),
        ensures
            done is Ok,
            final(self).wf(),
            final(self).same_piles(old(self)),
            final(self).all_idents() == old(self).all_idents(),
            old(self).foundations_ordered() ==> final(self).foundations_ordered(),
            old(self).tableaux_alternating() ==> final(self).tableaux_alternating(),
            old(self).hand_is_run() ==> final(self).hand_is_run(),
            old(self).cards_in_hand() ==> final(self).source == old(self).source && old(
                self,
            ).is_next_play_location(final(self).target),
            !old(self).cards_in_hand() ==> final(self).target == old(self).target && old(
                self,
            ).is_next_source(Some(final(self).source)) && final(self).source_is_active(),
    {
        if self.cards_in_hand() {
            self.target = self.next_play_location();
        } else {
            self.source = match self.next_active_card() {
                Some(source) => source,
                None => Source::stock(),
            };
        }
        proof {
            let moved = *self;
            assert forall|id: StackId| (#[trigger] moved.pile(id)) == old(self).pile(id) by {}
            lemma_ahead_adds(old(self).source.stack, 0, 0);
            assert forall|id: StackId| (#[trigger] moved.cards_of(id)) == old(self).cards_of(
                id,
            ) by {}
            lemma_cards_moved(*old(self), moved, StackId::Stock, StackId::Stock);
        }
        Ok(())
    }

    /// Steps the cursor backward: with cards in hand to the nearest pile
    /// before the target to drop them on, else to the nearest active card
    /// before the cursor, or to the bottom of the stock where no pile holds
    /// an active card. No card moves. It never fails.
    pub fn go_previous(&mut self) -> (done: Result<(), MoveError>)
        requires
            old(self).wf(),
        ensures
            done is Ok,
            final(self).wf(),
            final(self).same_piles(old(self)),
            final(self).all_idents() == old(self).all_idents(),
            old(self).foundations_ordered() ==> final(self).foundations_ordered(),
            old(self).tableaux_alternating() ==> final(self).tableaux_alternating(),
            old(self).hand_is_run() ==> final(self).hand_is_run(),
            old(self).cards_in_hand() ==> final(self).source == old(self).source && old(
                self,
            ).is_previous_play_location(final(self).target),
            !old(self).cards_in_hand() ==> final(self).target == old(self).target
                && final(self).source_is_active() && {
                ||| old(self).is_previous_source(Some(final(self).source))
                ||| old(self).is_previous_source(None) && final(self).source == (Source {
                    stack: StackId::Stock,
                    index: 0,
                })
            },
    {
        if self.cards_in_hand() {
            self.target = self.previous_play_location();
        } else {
            self.source = match self.previous_active_card() {
                Some(source) => source,
                None => Source::stock(),
            };
        }
        proof {
            let moved = *self;
            assert forall|id: StackId| (#[trigger] moved.pile(id)) == old(self).pile(id) by {}
            lemma_ahead_adds(old(self).source.stack, 0, 0);
            assert forall|id: StackId| (#[trigger] moved.cards_of(id)) == old(self).cards_of(
                id,
            ) by {}
            lemma_cards_moved(*old(self), moved, StackId::Stock, StackId::Stock);
        }
        Ok(())
    }
}

} // verus!
