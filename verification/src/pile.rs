//! Piles by name: their names, their kinds, and the ring in which the cursor
//! visits them.

use vstd::prelude::*;

verus! {

/// The name of a pile. All but `Hand` lie on a ring that the cursor walks:
/// Stock, Waste, the four foundations, the seven tableaux, and Stock again.
#[derive(Clone, Copy, Debug, Eq, Hash, Ord, PartialEq, PartialOrd, Structural)]
pub enum StackId {
    Stock,
    Waste,
    Foundation1,
    Foundation2,
    Foundation3,
    Foundation4,
    Tableau1,
    Tableau2,
    Tableau3,
    Tableau4,
    Tableau5,
    Tableau6,
    Tableau7,
    Hand,
}

/// The kind of a pile, which decides where the cursor can rest in it and
/// what may be dropped on it.
#[derive(Clone, Copy, Debug, Eq, Ord, PartialEq, PartialOrd, Structural)]
pub enum StackType {
    Stock,
    Waste,
    Foundation,
    Tableau,
    Hand,
}

/// The foundations, in ring order.
pub const FOUNDATIONS: [StackId; 4] = [
    StackId::Foundation1,
    StackId::Foundation2,
    StackId::Foundation3,
    StackId::Foundation4,
];

/// The tableaux, in ring order.
pub const TABLEAUX: [StackId; 7] = [
    StackId::Tableau1,
    StackId::Tableau2,
    StackId::Tableau3,
    StackId::Tableau4,
    StackId::Tableau5,
    StackId::Tableau6,
    StackId::Tableau7,
];

/// Number of piles on the ring.
pub const RING_LEN: usize = 13;

impl StackId {
    /// Place of the pile on the ring, counted from Stock. `Hand`, which is
    /// not on the ring, gets the number after the last place.
    pub open spec fn ring_index(self) -> int {
        match self {
            StackId::Stock => 0,
            StackId::Waste => 1,
            StackId::Foundation1 => 2,
            StackId::Foundation2 => 3,
            StackId::Foundation3 => 4,
            StackId::Foundation4 => 5,
            StackId::Tableau1 => 6,
            StackId::Tableau2 => 7,
            StackId::Tableau3 => 8,
            StackId::Tableau4 => 9,
            StackId::Tableau5 => 10,
            StackId::Tableau6 => 11,
            StackId::Tableau7 => 12,
            StackId::Hand => 13,
        }
    }

    /// The pile at a place of the ring; `Hand` for a number that is no place.
    pub open spec fn at_ring_index(i: int) -> StackId {
        if i == 0 {
            StackId::Stock
        } else if i == 1 {
            StackId::Waste
        } else if i == 2 {
            StackId::Foundation1
        } else if i == 3 {
            StackId::Foundation2
        } else if i == 4 {
            StackId::Foundation3
        } else if i == 5 {
            StackId::Foundation4
        } else if i == 6 {
            StackId::Tableau1
        } else if i == 7 {
            StackId::Tableau2
        } else if i == 8 {
            StackId::Tableau3
        } else if i == 9 {
            StackId::Tableau4
        } else if i == 10 {
            StackId::Tableau5
        } else if i == 11 {
            StackId::Tableau6
        } else if i == 12 {
            StackId::Tableau7
        } else {
            StackId::Hand
        }
    }

    /// Every pile but the hand is on the ring.
    pub open spec fn on_ring(self) -> bool {
        self != StackId::Hand
    }

    /// The pile `k` places further along the ring. `Hand` stays where it is.
    pub open spec fn ahead(self, k: int) -> StackId {
        if self.on_ring() {
            Self::at_ring_index((self.ring_index() + k) % (RING_LEN as int))
        } else {
            StackId::Hand
        }
    }

    /// The pile `k` places back along the ring. `Hand` stays where it is.
    pub open spec fn back(self, k: int) -> StackId {
        self.ahead(-k)
    }

    /// The kind of pile that bears this name.
    pub open spec fn kind(self) -> StackType {
        match self {
            StackId::Stock => StackType::Stock,
            StackId::Waste => StackType::Waste,
            StackId::Foundation1
            | StackId::Foundation2
            | StackId::Foundation3
            | StackId::Foundation4 => StackType::Foundation,
            StackId::Hand => StackType::Hand,
            _ => StackType::Tableau,
        }
    }

    /// The successor on the ring.
    pub fn next(&self) -> (id: Self)
        ensures
            id == self.ahead(1),
    {
        match self {
            StackId::Stock => StackId::Waste,
            StackId::Waste => StackId::Foundation1,
            StackId::Foundation1 => StackId::Foundation2,
            StackId::Foundation2 => StackId::Foundation3,
            StackId::Foundation3 => StackId::Foundation4,
            StackId::Foundation4 => StackId::Tableau1,
            StackId::Tableau1 => StackId::Tableau2,
            StackId::Tableau2 => StackId::Tableau3,
            StackId::Tableau3 => StackId::Tableau4,
            StackId::Tableau4 => StackId::Tableau5,
            StackId::Tableau5 => StackId::Tableau6,
            StackId::Tableau6 => StackId::Tableau7,
            StackId::Tableau7 => StackId::Stock,
            StackId::Hand => StackId::Hand,
        }
    }

    /// The predecessor on the ring.
    pub fn previous(&self) -> (id: Self)
        ensures
            id == self.back(1),
    {
        match self {
            StackId::Stock => StackId::Tableau7,
            StackId::Waste => StackId::Stock,
            StackId::Foundation1 => StackId::Waste,
            StackId::Foundation2 => StackId::Foundation1,
            StackId::Foundation3 => StackId::Foundation2,
            StackId::Foundation4 => StackId::Foundation3,
            StackId::Tableau1 => StackId::Foundation4,
            StackId::Tableau2 => StackId::Tableau1,
            StackId::Tableau3 => StackId::Tableau2,
            StackId::Tableau4 => StackId::Tableau3,
            StackId::Tableau5 => StackId::Tableau4,
            StackId::Tableau6 => StackId::Tableau5,
            StackId::Tableau7 => StackId::Tableau6,
            StackId::Hand => StackId::Hand,
        }
    }
}

/// Walking on from a pile `j` places ahead by `k` more places ends `j + k`
/// places ahead; in particular thirteen places ahead is the pile itself.
pub proof fn lemma_ahead_adds(id: StackId, j: int, k: int)
    ensures
        id.ahead(j).ahead(k) == id.ahead(j + k),
        id.ahead(0) == id,
        id.ahead(RING_LEN as int) == id,
        id.on_ring() <==> id.ahead(j).on_ring(),
        id.on_ring() ==> id.ahead(j).ring_index() == (id.ring_index() + j) % 13,
{
}

/// Every pile of the ring is met within thirteen places of any other.
pub proof fn lemma_ring_reaches(from: StackId, to: StackId) -> (k: int)
    requires
        from.on_ring(),
        to.on_ring(),
    ensures
        0 <= k < RING_LEN,
        from.ahead(k) == to,
        from.back(RING_LEN - k) == to,
{
    (to.ring_index() - from.ring_index() + 13) % 13
}

} // verus!
