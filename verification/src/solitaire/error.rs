//! What can be wrong with a key.

use crate::solitaire::card::Card;
use crate::solitaire::card::Value;
use vstd::prelude::*;

verus! {

/// Why a text is not the key of a deck.
#[derive(Clone, Debug, PartialEq, Eq)]
pub enum DeckError {
    /// A token that is not the notation of a card; the token.
    InvalidCard(String),
    /// The key does not name 54 cards; the number that it names.
    WrongCardCount(usize),
    /// A joker does not occur in the key; the rank of that joker.
    MissingJoker(Value),
    /// A card occurs twice in the key; the card.
    DuplicateCard(Card),
}

/// A [`DeckError`] as a mathematical value.
pub enum DeckFault {
    InvalidCard(Seq<char>),
    WrongCardCount(nat),
    MissingJoker(Value),
    DuplicateCard(Card),
}

impl View for DeckError {
    type V = DeckFault;

    open spec fn view(&self) -> DeckFault {
        match self {
            DeckError::InvalidCard(token) => DeckFault::InvalidCard(token@),
            DeckError::WrongCardCount(n) => DeckFault::WrongCardCount(*n as nat),
            DeckError::MissingJoker(rank) => DeckFault::MissingJoker(*rank),
            DeckError::DuplicateCard(card) => DeckFault::DuplicateCard(*card),
        }
    }
}

} // verus!
