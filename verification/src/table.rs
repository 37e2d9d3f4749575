//! The table: thirteen piles on the ring, the hand, and the cursor.

use vstd::prelude::*;
use crate::card::Card;
use crate::deck::{idents, is_face_down_deck, make_deck, spec_make_deck};
use crate::invariants::{lemma_deal_is_in_order, lemma_deal_keeps_cards};
use crate::pile::{StackId, StackType, FOUNDATIONS, TABLEAUX};
use crate::stack::{with_top_facing, Stack};

verus! {

/// Where the cursor rests while the hand is empty: a pile and an index in it.
#[derive(Clone, Copy, Debug, Eq, Ord, PartialEq, PartialOrd, Structural)]
pub struct Source {
    pub stack: StackId,
    pub index: usize,
}

impl Source {
    /// The cursor at the bottom of the stock.
    pub fn stock() -> (source: Self)
        ensures
            source == (Source { stack: StackId::Stock, index: 0 }),
    {
        Source { stack: StackId::Stock, index: 0 }
    }
}

/// Number of cards that a deal lays out in the tableaux.
pub const TABLEAU_CARDS: usize = 28;

/// Number of cards in the first `k` tableaux of a deal: the tableau at place
/// `k` gets `k` cards.
pub open spec fn cards_in_tableaux(k: int) -> int
    decreases k,
{
    if k <= 0 {
        0
    } else {
        k + cards_in_tableaux(k - 1)
    }
}

/// The tableau at place `k` (from 1) of a deal. The tableaux are cut from
/// the end of the deck, the first one first, and each has its top card
/// turned over.
pub open spec fn dealt_tableau(deck: Seq<Card>, k: int) -> Seq<Card> {
    let end = deck.len() - cards_in_tableaux(k - 1);
    let run = deck.subrange(end - k, end);
    with_top_facing(run, !run.last().face_up)
}

/// The piles of a game, the hand, and the cursor: `source` is where it rests
/// while the hand is empty, `target` the pile it points at while cards are
/// carried.
#[derive(Debug)]
pub struct Table {
    pub stock: Stack,
    pub waste: Stack,
    pub in_hand: Stack,
    pub foundations: Vec<Stack>,
    pub tableaux: Vec<Stack>,
    pub source: Source,
    pub target: StackId,
}

impl Table {
    /// The table has its four foundations and its seven tableaux.
    pub open spec fn has_all_piles(&self) -> bool {
        self.foundations@.len() == 4 && self.tableaux@.len() == 7
    }

    /// The pile that `id` names.
    pub open spec fn pile(&self, id: StackId) -> Stack {
        match id {
            StackId::Stock => self.stock,
            StackId::Waste => self.waste,
            StackId::Foundation1 => self.foundations@[0],
            StackId::Foundation2 => self.foundations@[1],
            StackId::Foundation3 => self.foundations@[2],
            StackId::Foundation4 => self.foundations@[3],
            StackId::Tableau1 => self.tableaux@[0],
            StackId::Tableau2 => self.tableaux@[1],
            StackId::Tableau3 => self.tableaux@[2],
            StackId::Tableau4 => self.tableaux@[3],
            StackId::Tableau5 => self.tableaux@[4],
            StackId::Tableau6 => self.tableaux@[5],
            StackId::Tableau7 => self.tableaux@[6],
            StackId::Hand => self.in_hand,
        }
    }

    /// The cards of the pile that `id` names, from the bottom up.
    pub open spec fn cards_of(&self, id: StackId) -> Seq<Card> {
        self.pile(id).cards@
    }

    /// Every pile bears its own name and kind, and the cursor is on the ring.
    pub open spec fn wf(&self) -> bool {
        &&& self.has_all_piles()
        &&& forall|id: StackId|
            (#[trigger] self.pile(id)).stack_id == id && self.pile(id).stack_type == id.kind()
        &&& self.source.stack.on_ring()
        &&& self.target.on_ring()
    }

    /// Whether the table is well formed. A table made by `new` or `deal` is,
    /// and stays so under every operation but a change made by hand.
    pub fn is_well_formed(&self) -> (ok: bool)
        ensures
            ok == self.wf(),
    {
        if self.foundations.len() != 4 || self.tableaux.len() != 7 {
            return false;
        }
        if !Self::is_tagged(&self.stock, StackId::Stock, StackType::Stock) {
            assert(self.pile(StackId::Stock) == self.stock);
            return false;
        }
        if !Self::is_tagged(&self.waste, StackId::Waste, StackType::Waste) {
            assert(self.pile(StackId::Waste) == self.waste);
            return false;
        }
        if !Self::is_tagged(&self.in_hand, StackId::Hand, StackType::Hand) {
            assert(self.pile(StackId::Hand) == self.in_hand);
            return false;
        }
        let mut f: usize = 0;
        while f < 4
            invariant
                f <= 4,
                self.has_all_piles(),
                forall|i: int|
                    0 <= i < f ==> (#[trigger] self.foundations@[i]).stack_id == FOUNDATIONS[i]
                        && self.foundations@[i].stack_type == StackType::Foundation,
            decreases 4 - f,
        {
            if !Self::is_tagged(&self.foundations[f], FOUNDATIONS[f], StackType::Foundation) {
                assert(self.pile(FOUNDATIONS[f as int]) == self.foundations@[f as int]);
                return false;
            }
            f += 1;
        }
        let mut t: usize = 0;
        while t < 7
            invariant
                t <= 7,
                self.has_all_piles(),
                forall|i: int|
                    0 <= i < t ==> (#[trigger] self.tableaux@[i]).stack_id == TABLEAUX[i]
                        && self.tableaux@[i].stack_type == StackType::Tableau,
            decreases 7 - t,
        {
            if !Self::is_tagged(&self.tableaux[t], TABLEAUX[t], StackType::Tableau) {
                assert(self.pile(TABLEAUX[t as int]) == self.tableaux@[t as int]);
                return false;
            }
            t += 1;
        }
        proof {
            assert forall|id: StackId|
                (#[trigger] self.pile(id)).stack_id == id && self.pile(id).stack_type
                    == id.kind() by {
                if id.kind() == StackType::Foundation {
                    assert(self.pile(id) == self.foundations@[id.ring_index() - 2]);
                } else if id.kind() == StackType::Tableau {
                    assert(self.pile(id) == self.tableaux@[id.ring_index() - 6]);
                }
            }
        }
        self.source.stack != StackId::Hand && self.target != StackId::Hand
    }

    fn is_tagged(stack: &Stack, stack_id: StackId, stack_type: StackType) -> (ok: bool)
        ensures
            ok == (stack.stack_id == stack_id && stack.stack_type == stack_type),
    {
        stack.stack_id == stack_id && stack.stack_type == stack_type
    }

    /// Both tables have all their piles and, but for the piles `a` and `b`,
    /// the same piles.
    pub open spec fn same_but(&self, other: &Table, a: StackId, b: StackId) -> bool {
        &&& self.has_all_piles()
        &&& other.has_all_piles()
        &&& forall|id: StackId| id != a && id != b ==> #[trigger] self.pile(id) == other.pile(id)
    }

    /// The pile that `stack_type` names.
    pub fn get_stack(&self, stack_type: StackId) -> (stack: &Stack)
        requires
            self.has_all_piles(),
        ensures
            *stack == self.pile(stack_type),
    {
        match stack_type {
            StackId::Stock => &self.stock,
            StackId::Waste => &self.waste,
            StackId::Foundation1 => &self.foundations[0],
            StackId::Foundation2 => &self.foundations[1],
            StackId::Foundation3 => &self.foundations[2],
            StackId::Foundation4 => &self.foundations[3],
            StackId::Tableau1 => &self.tableaux[0],
            StackId::Tableau2 => &self.tableaux[1],
            StackId::Tableau3 => &self.tableaux[2],
            StackId::Tableau4 => &self.tableaux[3],
            StackId::Tableau5 => &self.tableaux[4],
            StackId::Tableau6 => &self.tableaux[5],
            StackId::Tableau7 => &self.tableaux[6],
            StackId::Hand => &self.in_hand,
        }
    }

    /// Hands out one pile to be changed at will. Whatever is done to it, the
    /// other piles and the cursor stay as they are.
    pub fn get_stack_mut(&mut self, stack_type: StackId) -> (stack: &mut Stack)
        requires
            old(self).has_all_piles(),
        ensures
            *stack == old(self).pile(stack_type),
            final(self).pile(stack_type) == *final(stack),
            final(self).same_but(old(self), stack_type, stack_type),
            final(self).source == old(self).source,
            final(self).target == old(self).target,
    {
        match stack_type {
            StackId::Stock => &mut self.stock,
            StackId::Waste => &mut self.waste,
            StackId::Foundation1 => &mut self.foundations[0],
            StackId::Foundation2 => &mut self.foundations[1],
            StackId::Foundation3 => &mut self.foundations[2],
            StackId::Foundation4 => &mut self.foundations[3],
            StackId::Tableau1 => &mut self.tableaux[0],
            StackId::Tableau2 => &mut self.tableaux[1],
            StackId::Tableau3 => &mut self.tableaux[2],
            StackId::Tableau4 => &mut self.tableaux[3],
            StackId::Tableau5 => &mut self.tableaux[4],
            StackId::Tableau6 => &mut self.tableaux[5],
            StackId::Tableau7 => &mut self.tableaux[6],
            StackId::Hand => &mut self.in_hand,
        }
    }

    /// Whether cards are being carried.
    pub open spec fn spec_cards_in_hand(&self) -> bool {
        self.in_hand.cards@.len() > 0
    }

    #[verifier::when_used_as_spec(spec_cards_in_hand)]
    pub fn cards_in_hand(&self) -> (carrying: bool)
        ensures
            carrying == self.spec_cards_in_hand(),
    {
        self.in_hand.cards.len() > 0
    }

    /// Every pile of `self` bears the name and kind that it bears in `other`.
    pub open spec fn same_tags(&self, other: &Table) -> bool {
        forall|id: StackId|
            (#[trigger] self.pile(id)).stack_id == other.pile(id).stack_id && self.pile(
                id,
            ).stack_type == other.pile(id).stack_type
    }

    /// The table as it stands when `deck` has just been dealt: the tableaux
    /// cut from the end of the deck, the rest as the stock, every other pile
    /// empty, and the cursor on the top card of the stock.
    pub open spec fn is_deal_of(&self, deck: Seq<Card>) -> bool {
        &&& self.wf()
        &&& self.stock.cards@ == deck.subrange(0, deck.len() - TABLEAU_CARDS)
        &&& self.waste.cards@.len() == 0
        &&& self.in_hand.cards@.len() == 0
        &&& forall|i: int| 0 <= i < 4 ==> (#[trigger] self.foundations@[i]).cards@.len() == 0
        &&& forall|i: int|
            0 <= i < 7 ==> (#[trigger] self.tableaux@[i]).cards@ == dealt_tableau(deck, i + 1)
        &&& self.source.stack == StackId::Stock
        &&& self.source.index == if deck.len() == TABLEAU_CARDS {
            0
        } else {
            deck.len() - TABLEAU_CARDS - 1
        }
        &&& self.target == StackId::Stock
    }

    /// The layout at the start of a game: the tableau at place `k` has `k`
    /// cards, of which the top one alone is face up; the stock has the other
    /// twenty-four, face down; every other pile is empty.
    pub open spec fn is_opening_layout(&self) -> bool {
        &&& self.has_all_piles()
        &&& self.stock.cards@.len() == 24
        &&& forall|i: int| 0 <= i < 24 ==> !(#[trigger] self.stock.cards@[i]).face_up
        &&& self.waste.cards@.len() == 0
        &&& self.in_hand.cards@.len() == 0
        &&& forall|i: int| 0 <= i < 4 ==> (#[trigger] self.foundations@[i]).cards@.len() == 0
        &&& forall|k: int|
            0 <= k < 7 ==> {
                &&& (#[trigger] self.tableaux@[k]).cards@.len() == k + 1
                &&& forall|i: int|
                    0 <= i <= k ==> (#[trigger] self.tableaux@[k].cards@[i]).face_up == (i == k)
            }
    }

    /// Lays out a deck: the last card as the first tableau, the two before
    /// it as the second, and so on to the seventh; what is left is the stock.
    pub fn deal(cards: Vec<Card>) -> (table: Self)
        requires
            cards@.len() >= TABLEAU_CARDS,
        ensures
            table.is_deal_of(cards@),
            table.all_idents() == idents(cards@),
            table.foundations_ordered(),
            table.hand_is_run(),
            (forall|i: int| 0 <= i < cards@.len() ==> !(#[trigger] cards@[i]).face_up)
                ==> table.tableaux_alternating(),
    {
        let ghost deck = cards@;
        let mut cards = cards;
        let mut foundations: Vec<Stack> = Vec::new();
        let mut f: usize = 0;
        while f < 4
            invariant
                f <= 4,
                foundations@.len() == f,
                forall|i: int|
                    0 <= i < f ==> {
                        &&& (#[trigger] foundations@[i]).stack_id == FOUNDATIONS[i]
                        &&& foundations@[i].stack_type == StackType::Foundation
                        &&& foundations@[i].cards@.len() == 0
                    },
            decreases 4 - f,
        {
            foundations.push(
                Stack {
                    stack_id: FOUNDATIONS[f],
                    stack_type: StackType::Foundation,
                    cards: Vec::new(),
                },
            );
            f += 1;
        }

        let mut tableaux: Vec<Stack> = Vec::new();
        let mut stack_count: usize = 1;
        proof {
            reveal_with_fuel(cards_in_tableaux, 8);
        }
        while stack_count <= 7
            invariant
                1 <= stack_count <= 8,
                deck.len() >= TABLEAU_CARDS,
                cards_in_tableaux(7) == TABLEAU_CARDS,
                cards_in_tableaux(stack_count - 1) <= cards_in_tableaux(7),
                cards@ == deck.subrange(0, deck.len() - cards_in_tableaux(stack_count - 1)),
                tableaux@.len() == stack_count - 1,
                forall|i: int|
                    0 <= i < stack_count - 1 ==> {
                        &&& (#[trigger] tableaux@[i]).stack_id == TABLEAUX[i]
                        &&& tableaux@[i].stack_type == StackType::Tableau
                        &&& tableaux@[i].cards@ == dealt_tableau(deck, i + 1)
                    },
            decreases 8 - stack_count,
        {
            proof {
                reveal_with_fuel(cards_in_tableaux, 8);
            }
            let start = cards.len() - stack_count;
            let mut stack = Stack {
                stack_id: TABLEAUX[stack_count - 1],
                stack_type: StackType::Tableau,
                cards: cards.split_off(start),
            };
            stack.flip_top_card();
            stack_count += 1;
            tableaux.push(stack);
        }

        let stock = Stack { stack_id: StackId::Stock, stack_type: StackType::Stock, cards: cards };
        let waste = Stack {
            stack_id: StackId::Waste,
            stack_type: StackType::Waste,
            cards: Vec::new(),
        };
        let in_hand = Stack {
            stack_id: StackId::Hand,
            stack_type: StackType::Hand,
            cards: Vec::new(),
        };
        let source_index = match stock.next_active_card(None) {
            Some(index) => index,
            None => 0,
        };
        assert(stock.is_ahead(None, stock.top_card_index() as int));
        let table = Table {
            stock,
            waste,
            foundations,
            tableaux,
            in_hand,
            source: Source { stack: StackId::Stock, index: source_index },
            target: StackId::Stock,
        };
        proof {
            lemma_deal_keeps_cards(table, deck);
            lemma_deal_is_in_order(table, deck);
        }
        table
    }

    /// A new game: the deck that `seed` stands for, dealt. The same seed
    /// always gives the same table.
    pub fn new(seed: u64) -> (table: Self)
        ensures
            table.is_deal_of(spec_make_deck(seed)),
            is_face_down_deck(spec_make_deck(seed)),
            table.is_opening_layout(),
            table.conserved(),
            table.foundations_ordered(),
            table.tableaux_alternating(),
            table.hand_is_run(),
    {
        let cards = make_deck(seed);
        let table = Table::deal(cards);
        proof {
            reveal_with_fuel(cards_in_tableaux, 8);
            assert forall|k: int| 0 <= k < 7 implies {
                &&& (#[trigger] table.tableaux@[k]).cards@.len() == k + 1
                &&& forall|i: int|
                    0 <= i <= k ==> (#[trigger] table.tableaux@[k].cards@[i]).face_up == (i == k)
            } by {
                assert(table.tableaux@[k].cards@ == dealt_tableau(cards@, k + 1));
            }
        }
        table
    }
}

} // verus!
