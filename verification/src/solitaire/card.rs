//! Ranks, suits and cards, with their numbers and their two-character notation.

use crate::solitaire::error::DeckError;
use crate::solitaire::error::DeckFault;
use vstd::prelude::*;

verus! {

/// The rank of a card. The two jokers are ranks of their own.
#[derive(Clone, Copy, Debug, PartialEq, Eq, Structural)]
pub enum Value {
    Ace,
    Two,
    Three,
    Four,
    Five,
    Six,
    Seven,
    Eight,
    Nine,
    Ten,
    Jack,
    Queen,
    King,
    JokerRed,
    JokerBlack,
}

impl Value {
    /// The number of the rank: 1 to 13 for ace to king, 53 for the black
    /// joker and 54 for the red one.
    pub open spec fn number(self) -> int {
        match self {
            Value::Ace => 1,
            Value::Two => 2,
            Value::Three => 3,
            Value::Four => 4,
            Value::Five => 5,
            Value::Six => 6,
            Value::Seven => 7,
            Value::Eight => 8,
            Value::Nine => 9,
            Value::Ten => 10,
            Value::Jack => 11,
            Value::Queen => 12,
            Value::King => 13,
            Value::JokerBlack => 53,
            Value::JokerRed => 54,
        }
    }

    /// The character that stands for the rank in card notation.
    pub open spec fn symbol(self) -> char {
        match self {
            Value::Ace => 'A',
            Value::Two => '2',
            Value::Three => '3',
            Value::Four => '4',
            Value::Five => '5',
            Value::Six => '6',
            Value::Seven => '7',
            Value::Eight => '8',
            Value::Nine => '9',
            Value::Ten => 'T',
            Value::Jack => 'J',
            Value::Queen => 'Q',
            Value::King => 'K',
            Value::JokerBlack => 'B',
            Value::JokerRed => 'R',
        }
    }

    /// Whether the rank is one of the two jokers.
    pub open spec fn is_joker(self) -> bool {
        self == Value::JokerRed || self == Value::JokerBlack
    }

    /// The rank that a character stands for, if it stands for one.
    pub open spec fn of_symbol(c: char) -> Option<Value> {
        if exists|v: Value| v.symbol() == c {
            Some(choose|v: Value| v.symbol() == c)
        } else {
            None
        }
    }

    /// Reads a rank from its character.
    pub fn from_char(input: char) -> (r: Option<Value>)
        ensures
            r == Value::of_symbol(input),
            r matches Some(v) ==> v.symbol() == input,
            r is None ==> forall|v: Value| v.symbol() != input,
    {
        let r = match input {
            'A' => Some(Value::Ace),
            '2' => Some(Value::Two),
            '3' => Some(Value::Three),
            '4' => Some(Value::Four),
            '5' => Some(Value::Five),
            '6' => Some(Value::Six),
            '7' => Some(Value::Seven),
            '8' => Some(Value::Eight),
            '9' => Some(Value::Nine),
            'T' => Some(Value::Ten),
            'J' => Some(Value::Jack),
            'Q' => Some(Value::Queen),
            'K' => Some(Value::King),
            'B' => Some(Value::JokerBlack),
            'R' => Some(Value::JokerRed),
            _ => None,
        };
        proof {
            if let Some(v) = r {
                assert(v.symbol() == input);
                let w = choose|w: Value| w.symbol() == input;
                assert(w.symbol() == input);
                assert(w == v);
            }
        }
        r
    }

    /// The character that stands for the rank.
    pub fn to_char(self) -> (c: char)
        ensures
            c == self.symbol(),
    {
        match self {
            Value::Ace => 'A',
            Value::Two => '2',
            Value::Three => '3',
            Value::Four => '4',
            Value::Five => '5',
            Value::Six => '6',
            Value::Seven => '7',
            Value::Eight => '8',
            Value::Nine => '9',
            Value::Ten => 'T',
            Value::Jack => 'J',
            Value::Queen => 'Q',
            Value::King => 'K',
            Value::JokerBlack => 'B',
            Value::JokerRed => 'R',
        }
    }
}

impl From<Value> for usize {
    fn from(value: Value) -> (n: usize) {
        match value {
            Value::Ace => 1,
            Value::Two => 2,
            Value::Three => 3,
            Value::Four => 4,
            Value::Five => 5,
            Value::Six => 6,
            Value::Seven => 7,
            Value::Eight => 8,
            Value::Nine => 9,
            Value::Ten => 10,
            Value::Jack => 11,
            Value::Queen => 12,
            Value::King => 13,
            Value::JokerBlack => 53,
            Value::JokerRed => 54,
        }
    }
}

impl vstd::std_specs::convert::FromSpecImpl<Value> for usize {
    open spec fn obeys_from_spec() -> bool {
        true
    }

    open spec fn from_spec(value: Value) -> usize {
        value.number() as usize
    }
}

/// The suit of a card. The jokers have a suit of their own.
#[derive(Clone, Copy, Debug, PartialEq, Eq, Structural)]
pub enum Suit {
    Spades,
    Hearts,
    Clubs,
    Diamonds,
    Joker,
}

impl Suit {
    /// What the suit adds to the number of a rank: the suits follow each
    /// other in bridge order, thirteen cards each.
    pub open spec fn offset(self) -> int {
        match self {
            Suit::Joker => 0,
            Suit::Clubs => 0,
            Suit::Diamonds => 13,
            Suit::Hearts => 26,
            Suit::Spades => 39,
        }
    }

    /// The character that stands for the suit in card notation.
    pub open spec fn symbol(self) -> char {
        match self {
            Suit::Spades => 'S',
            Suit::Hearts => 'H',
            Suit::Clubs => 'C',
            Suit::Diamonds => 'D',
            Suit::Joker => 'J',
        }
    }

    /// The suit that a character stands for, if it stands for one.
    pub open spec fn of_symbol(c: char) -> Option<Suit> {
        if exists|s: Suit| s.symbol() == c {
            Some(choose|s: Suit| s.symbol() == c)
        } else {
            None
        }
    }

    /// Reads a suit from its character.
    pub fn from_char(input: char) -> (r: Option<Suit>)
        ensures
            r == Suit::of_symbol(input),
            r matches Some(s) ==> s.symbol() == input,
            r is None ==> forall|s: Suit| s.symbol() != input,
    {
        let r = match input {
            'S' => Some(Suit::Spades),
            'H' => Some(Suit::Hearts),
            'C' => Some(Suit::Clubs),
            'D' => Some(Suit::Diamonds),
            'J' => Some(Suit::Joker),
            _ => None,
        };
        proof {
            if let Some(s) = r {
                assert(s.symbol() == input);
                let w = choose|w: Suit| w.symbol() == input;
                assert(w.symbol() == input);
                assert(w == s);
            }
        }
        r
    }

    /// The character that stands for the suit.
    pub fn to_char(self) -> (c: char)
        ensures
            c == self.symbol(),
    {
        match self {
            Suit::Spades => 'S',
            Suit::Hearts => 'H',
            Suit::Clubs => 'C',
            Suit::Diamonds => 'D',
            Suit::Joker => 'J',
        }
    }
}

impl From<Suit> for usize {
    fn from(value: Suit) -> (n: usize) {
        match value {
            Suit::Joker => 0,
            Suit::Clubs => 0,
            Suit::Diamonds => 13,
            Suit::Hearts => 26,
            Suit::Spades => 39,
        }
    }
}

impl vstd::std_specs::convert::FromSpecImpl<Suit> for usize {
    open spec fn obeys_from_spec() -> bool {
        true
    }

    open spec fn from_spec(value: Suit) -> usize {
        value.offset() as usize
    }
}

/// A playing card: a rank and a suit.
///
/// A card is [`valid`](Card::valid) when it is one of the 54 cards of a
/// deck: a rank from ace to king in one of the four suits, or a joker in
/// the jokers' suit.
#[derive(Clone, Copy, Debug, PartialEq, Eq, Structural)]
pub struct Card {
    value: Value,
    suit: Suit,
}

impl Card {
    /// The rank of the card.
    pub closed spec fn spec_value(&self) -> Value {
        self.value
    }

    /// The suit of the card.
    pub closed spec fn spec_suit(&self) -> Suit {
        self.suit
    }

    /// Whether the card is one of the 54 cards of a deck.
    pub open spec fn valid(self) -> bool {
        self.value().is_joker() <==> self.suit() == Suit::Joker
    }

    /// The number of the card: clubs 1 to 13, diamonds 14 to 26, hearts 27
    /// to 39, spades 40 to 52, the black joker 53 and the red joker 54.
    pub open spec fn number(self) -> int {
        self.value().number() + self.suit().offset()
    }

    /// The number by which the card counts in a cut and in the choice of
    /// the output card: its number, but 53 for either joker.
    pub open spec fn count(self) -> int {
        if self.number() >= 53 {
            53
        } else {
            self.number()
        }
    }

    /// The two characters that denote the card: rank, then suit.
    pub open spec fn notation(self) -> Seq<char> {
        seq![self.value().symbol(), self.suit().symbol()]
    }

    /// The valid card that two characters denote, if they denote one.
    pub open spec fn of_notation(token: Seq<char>) -> Option<Card> {
        if exists|c: Card| c.valid() && c.notation() == token {
            Some(choose|c: Card| c.valid() && c.notation() == token)
        } else {
            None
        }
    }

    /// Two cards of the same rank and suit are the same card.
    pub proof fn lemma_same_rank_and_suit(a: Card, b: Card)
        requires
            a.value() == b.value(),
            a.suit() == b.suit(),
        ensures
            a == b,
    {
    }

    /// A valid card has a number from 1 to 54, and no two valid cards share
    /// a number.
    pub proof fn lemma_number(a: Card, b: Card)
        requires
            a.valid(),
            b.valid(),
        ensures
            1 <= a.number() <= 54,
            a.number() == b.number() ==> a == b,
    {
        if a.number() == b.number() {
            Card::lemma_same_rank_and_suit(a, b);
        }
    }

    /// Notation is exact: the notation of a valid card denotes that card
    /// and no other, and what denotes a card is that card's notation.
    pub proof fn lemma_notation_round_trip(c: Card, token: Seq<char>)
        ensures
            c.valid() ==> Card::of_notation(c.notation()) == Some(c),
            Card::of_notation(token) matches Some(d) ==> d.valid() && d.notation() == token,
    {
        if c.valid() {
            let d = choose|d: Card| d.valid() && d.notation() == c.notation();
            assert(d.notation()[0] == c.notation()[0]);
            assert(d.notation()[1] == c.notation()[1]);
            Card::lemma_same_rank_and_suit(c, d);
        }
    }

    /// The card with the given number, for a number from 1 to 54.
    pub fn from_number(n: usize) -> (r: Option<Card>)
        ensures
            r is Some <==> 1 <= n <= 54,
            r matches Some(c) ==> c.valid() && c.number() == n,
    {
        if n == 53 {
            return Some(Card { value: Value::JokerBlack, suit: Suit::Joker });
        }
        if n == 54 {
            return Some(Card { value: Value::JokerRed, suit: Suit::Joker });
        }
        if n < 1 || n > 52 {
            return None;
        }
        let suit = match (n - 1) / 13 {
            0 => Suit::Clubs,
            1 => Suit::Diamonds,
            2 => Suit::Hearts,
            _ => Suit::Spades,
        };
        let value = match (n - 1) % 13 {
            0 => Value::Ace,
            1 => Value::Two,
            2 => Value::Three,
            3 => Value::Four,
            4 => Value::Five,
            5 => Value::Six,
            6 => Value::Seven,
            7 => Value::Eight,
            8 => Value::Nine,
            9 => Value::Ten,
            10 => Value::Jack,
            11 => Value::Queen,
            _ => Value::King,
        };
        Some(Card { value, suit })
    }

    /// Reads a card from the characters of its notation.
    pub fn from_symbols(symbols: &Vec<char>) -> (r: Option<Card>)
        ensures
            r == Card::of_notation(symbols@),
            r matches Some(c) ==> c.valid() && c.notation() == symbols@,
    {
        if symbols.len() != 2 {
            assert forall|c: Card| c.notation() != symbols@ by {
                assert(c.notation().len() == 2);
            }
            return None;
        }
        let r = match (Value::from_char(symbols[0]), Suit::from_char(symbols[1])) {
            (Some(value), Some(suit)) => {
                let card = Card { value, suit };
                if card.is_valid() {
                    Some(card)
                } else {
                    None
                }
            },
            _ => None,
        };
        proof {
            match r {
                Some(c) => {
                    assert(c.notation() =~= symbols@);
                    Card::lemma_notation_round_trip(c, symbols@);
                },
                None => {
                    assert forall|c: Card| c.valid() implies c.notation() != symbols@ by {
                        if c.notation() == symbols@ {
                            assert(c.notation()[0] == symbols@[0]);
                            assert(c.notation()[1] == symbols@[1]);
                        }
                    }
                },
            }
        }
        r
    }

    /// Reads a card from its notation: the character of a rank from ace to
    /// king and the character of one of the four suits, or `BJ` or `RJ`
    /// for a joker. Any other token is an error that carries the token.
    pub fn parse(token: &str) -> (r: Result<Card, DeckError>)
        ensures
            match Card::of_notation(token@) {
                Some(c) => r == Ok::<Card, DeckError>(c),
                None => r matches Err(e) && e@ == DeckFault::InvalidCard(token@),
            },
    {
        let mut symbols: Vec<char> = Vec::new();
        for c in it: token.chars()
            invariant
                it.seq() == token@,
                symbols@ == token@.take(it.index() as int),
        {
            symbols.push(c);
        }
        assert(token@.take(token@.len() as int) =~= token@);
        match Card::from_symbols(&symbols) {
            Some(card) => Ok(card),
            None => Err(DeckError::InvalidCard(token.to_owned())),
        }
    }

    /// The notation of the card: two characters, rank, then suit.
    pub fn to_string(&self) -> (s: String)
        ensures
            s@ == self.notation(),
    {
        let mut s = String::new();
        s.push(self.value.to_char());
        s.push(self.suit.to_char());
        s
    }

    /// Whether the card is one of the 54 cards of a deck.
    pub fn is_valid(&self) -> (b: bool)
        ensures
            b == self.valid(),
    {
        let joker = match self.value {
            Value::JokerRed => true,
            Value::JokerBlack => true,
            _ => false,
        };
        let joker_suit = match self.suit {
            Suit::Joker => true,
            _ => false,
        };
        joker == joker_suit
    }

    /// The rank of the card.
    #[verifier::when_used_as_spec(spec_value)]
    pub fn value(&self) -> (v: Value)
        ensures
            v == self.spec_value(),
    {
        self.value
    }

    /// The suit of the card.
    #[verifier::when_used_as_spec(spec_suit)]
    pub fn suit(&self) -> (s: Suit)
        ensures
            s == self.spec_suit(),
    {
        self.suit
    }
}

impl From<Card> for usize {
    fn from(value: Card) -> (n: usize) {
        let val: usize = value.value.into();
        let suit: usize = value.suit.into();

        val + suit
    }
}

impl vstd::std_specs::convert::FromSpecImpl<Card> for usize {
    open spec fn obeys_from_spec() -> bool {
        true
    }

    open spec fn from_spec(value: Card) -> usize {
        value.number() as usize
    }
}

} // verus!
