//! Cards and what describes them: suit, colour and rank.

use vstd::prelude::*;

verus! {

/// The four suits, ordered Club < Diamond < Heart < Spade.
#[derive(Clone, Copy, Debug, Eq, Hash, Ord, PartialEq, PartialOrd, Structural)]
pub enum Suit {
    Club,
    Diamond,
    Heart,
    Spade,
}

/// The colour of a suit.
#[derive(Debug, PartialEq, Eq, Structural)]
pub enum Color {
    Black,
    Red,
}

impl Suit {
    /// Diamonds and hearts are red, clubs and spades are black.
    pub open spec fn spec_color(&self) -> Color {
        match self {
            Suit::Diamond | Suit::Heart => Color::Red,
            Suit::Club | Suit::Spade => Color::Black,
        }
    }

    #[verifier::when_used_as_spec(spec_color)]
    pub fn color(&self) -> (c: Color)
        ensures
            c == self.spec_color(),
    {
        match self {
            Suit::Diamond | Suit::Heart => Color::Red,
            Suit::Club | Suit::Spade => Color::Black,
        }
    }
}

/// The thirteen ranks, ordered from the ace (1) to the king (13).
#[derive(Clone, Copy, Debug, Eq, Hash, Ord, PartialEq, PartialOrd, Structural)]
pub enum Rank {
    Ace,
    Two,
    Three,
    Four,
    Five,
    Six,
    Seven,
    Eight,
    Nine,
    Ten,
    Jack,
    Queen,
    King,
}

impl Rank {
    /// The number of the rank: 1 for the ace, 13 for the king.
    pub open spec fn spec_value(self) -> int {
        match self {
            Rank::Ace => 1,
            Rank::Two => 2,
            Rank::Three => 3,
            Rank::Four => 4,
            Rank::Five => 5,
            Rank::Six => 6,
            Rank::Seven => 7,
            Rank::Eight => 8,
            Rank::Nine => 9,
            Rank::Ten => 10,
            Rank::Jack => 11,
            Rank::Queen => 12,
            Rank::King => 13,
        }
    }

    pub fn value(&self) -> (v: u8)
        ensures
            v == self.spec_value(),
    {
        match self {
            Rank::Ace => 1,
            Rank::Two => 2,
            Rank::Three => 3,
            Rank::Four => 4,
            Rank::Five => 5,
            Rank::Six => 6,
            Rank::Seven => 7,
            Rank::Eight => 8,
            Rank::Nine => 9,
            Rank::Ten => 10,
            Rank::Jack => 11,
            Rank::Queen => 12,
            Rank::King => 13,
        }
    }

    /// The one-letter label of the rank.
    pub open spec fn spec_label(self) -> &'static str {
        match self {
            Rank::Ace => "A",
            Rank::Two => "2",
            Rank::Three => "3",
            Rank::Four => "4",
            Rank::Five => "5",
            Rank::Six => "6",
            Rank::Seven => "7",
            Rank::Eight => "8",
            Rank::Nine => "9",
            Rank::Ten => "T",
            Rank::Jack => "J",
            Rank::Queen => "Q",
            Rank::King => "K",
        }
    }
}

impl From<Rank> for &'static str {
    fn from(rank: Rank) -> (label: Self)
    {
        let label = match rank {
            Rank::Ace => "A",
            Rank::Two => "2",
            Rank::Three => "3",
            Rank::Four => "4",
            Rank::Five => "5",
            Rank::Six => "6",
            Rank::Seven => "7",
            Rank::Eight => "8",
            Rank::Nine => "9",
            Rank::Ten => "T",
            Rank::Jack => "J",
            Rank::Queen => "Q",
            Rank::King => "K",
        };
        label
    }
}

impl vstd::std_specs::convert::FromSpecImpl<Rank> for &'static str {
    open spec fn obeys_from_spec() -> bool {
        true
    }

    open spec fn from_spec(rank: Rank) -> Self {
        rank.spec_label()
    }
}

/// A playing card. Suit and rank never change; the face is turned by the table.
#[derive(Debug, Eq, Ord, PartialEq, PartialOrd)]
pub struct Card {
    pub suit: Suit,
    pub rank: Rank,
    pub face_up: bool,
}

impl Card {
    /// What the card is, whichever way it faces.
    pub open spec fn ident(self) -> (Suit, Rank) {
        (self.suit, self.rank)
    }

    /// The same card with its face as given.
    pub open spec fn facing(self, face_up: bool) -> Card {
        Card { suit: self.suit, rank: self.rank, face_up }
    }

    /// Both cards are red, or both are black.
    pub open spec fn spec_is_same_color(&self, other: &Card) -> bool {
        self.suit.spec_color() == other.suit.spec_color()
    }

    /// `self` comes directly before `other`: the rank of `other` is one higher.
    pub open spec fn spec_is_one_below(&self, other: &Card) -> bool {
        other.rank.spec_value() - self.rank.spec_value() == 1
    }

    #[verifier::when_used_as_spec(spec_is_same_color)]
    pub fn is_same_color(&self, other: &Card) -> (same: bool)
        ensures
            same == self.spec_is_same_color(other),
    {
        self.suit.color() == other.suit.color()
    }

    #[verifier::when_used_as_spec(spec_is_one_below)]
    pub fn is_one_below(&self, other: &Card) -> (below: bool)
        ensures
            below == self.spec_is_one_below(other),
    {
        other.rank.value() == self.rank.value() + 1
    }
}

} // verus!
