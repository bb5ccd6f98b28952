//! The Solitaire stream cipher: a keystream drawn from a deck of 54 cards,
//! added letter by letter to the text.

pub mod card;
pub mod cipher;
pub mod deck;
pub mod error;
pub mod key;
pub mod keystream;
pub mod model;

pub use card::Card;
pub use card::Suit;
pub use card::Value;
pub use deck::Deck;
pub use error::DeckError;
