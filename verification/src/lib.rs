//! Rules and state of a Klondike solitaire table driven by a cursor: which
//! card can be picked up next, which pile can take the cards in hand, and how
//! the piles change when cards are dealt, picked up and put down.

pub mod card;
pub mod cursor;
pub mod deck;
pub mod invariants;
pub mod laws;
pub mod moves;
pub mod pile;
pub mod stack;
pub mod table;

pub use crate::card::{Card, Color, Rank, Suit};
pub use crate::deck::{make_deck, ordered_deck, DECK_LEN, RANKS, SUITS};
pub use crate::moves::MoveError;
pub use crate::pile::{StackId, StackType, FOUNDATIONS, TABLEAUX};
pub use crate::stack::Stack;
pub use crate::table::{Source, Table};
