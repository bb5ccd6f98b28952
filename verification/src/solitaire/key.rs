//! Keys: a deck written out as 54 card tokens, and read back.

use crate::solitaire::card::Card;
use crate::solitaire::card::Value;
use crate::solitaire::deck::Deck;
use crate::solitaire::error::DeckError;
use crate::solitaire::error::DeckFault;
use crate::solitaire::model;
use crate::solitaire::model::DECK_SIZE;
use vstd::prelude::*;

verus! {

/// Whether the character separates tokens: the white space of Unicode.
pub open spec fn is_space(c: char) -> bool {
    let n: int = c as int;
    ||| 0x09 <= n <= 0x0D
    ||| n == 0x20
    ||| n == 0x85
    ||| n == 0xA0
    ||| n == 0x1680
    ||| 0x2000 <= n <= 0x200A
    ||| n == 0x2028
    ||| n == 0x2029
    ||| n == 0x202F
    ||| n == 0x205F
    ||| n == 0x3000
}

/// A text read from left to right: the tokens that have ended, and the
/// characters of the token that has not.
pub open spec fn scan(text: Seq<char>) -> (Seq<Seq<char>>, Seq<char>)
    decreases text.len(),
{
    if text.len() == 0 {
        (Seq::empty(), Seq::empty())
    } else {
        let (done, current) = scan(text.drop_last());
        if !is_space(text.last()) {
            (done, current.push(text.last()))
        } else if current.len() == 0 {
            (done, current)
        } else {
            (done.push(current), Seq::empty())
        }
    }
}

/// The tokens of a text: its longest runs of characters that are no white
/// space, in order.
pub open spec fn tokens(text: Seq<char>) -> Seq<Seq<char>> {
    let (done, current) = scan(text);
    if current.len() == 0 {
        done
    } else {
        done.push(current)
    }
}

/// Whether a token denotes a card.
pub open spec fn is_card(token: Seq<char>) -> bool {
    Card::of_notation(token).is_some()
}

/// The place of the first token that denotes no card.
pub open spec fn first_invalid(tokens: Seq<Seq<char>>) -> int {
    choose|i: int|
        0 <= i < tokens.len() && !is_card(#[trigger] tokens[i]) && forall|j: int|
            0 <= j < i ==> is_card(#[trigger] tokens[j])
}

/// The cards that the tokens denote.
pub open spec fn cards_of(tokens: Seq<Seq<char>>) -> Seq<Card> {
    Seq::new(tokens.len(), |i: int| Card::of_notation(tokens[i])->Some_0)
}

/// Whether the card at `j` has occurred before `j`.
pub open spec fn is_repeat(cards: Seq<Card>, j: int) -> bool {
    exists|i: int| 0 <= i < j && #[trigger] cards[i] == cards[j]
}

/// The place of the first card that has occurred before.
pub open spec fn first_repeat(cards: Seq<Card>) -> int {
    choose|j: int|
        0 <= j < cards.len() && #[trigger] is_repeat(cards, j) && forall|k: int|
            0 <= k < j ==> !#[trigger] is_repeat(cards, k)
}

/// What is wrong with a sequence of valid cards as a deck, if anything:
/// their number, then a joker that is missing (the red one first), then
/// the first card that occurs a second time.
pub open spec fn check_cards(cards: Seq<Card>) -> Option<DeckFault> {
    if cards.len() != DECK_SIZE {
        Some(DeckFault::WrongCardCount(cards.len()))
    } else if !model::holds_rank(cards, Value::JokerRed) {
        Some(DeckFault::MissingJoker(Value::JokerRed))
    } else if !model::holds_rank(cards, Value::JokerBlack) {
        Some(DeckFault::MissingJoker(Value::JokerBlack))
    } else if exists|j: int| 0 <= j < cards.len() && #[trigger] is_repeat(cards, j) {
        Some(DeckFault::DuplicateCard(cards[first_repeat(cards)]))
    } else {
        None
    }
}

/// The deck that a key denotes, or what is wrong with the key: the first
/// token that denotes no card, or else what is wrong with the cards.
pub open spec fn parse_key(text: Seq<char>) -> Result<Seq<Card>, DeckFault> {
    let tokens: Seq<Seq<char>> = tokens(text);
    if exists|i: int| 0 <= i < tokens.len() && !is_card(#[trigger] tokens[i]) {
        Err(DeckFault::InvalidCard(tokens[first_invalid(tokens)]))
    } else {
        match check_cards(cards_of(tokens)) {
            Some(fault) => Err(fault),
            None => Ok(cards_of(tokens)),
        }
    }
}

/// The key of a deck: the notation of each card, top card first, each
/// followed by a space.
pub open spec fn key_of(cards: Seq<Card>) -> Seq<char>
    decreases cards.len(),
{
    if cards.len() == 0 {
        Seq::empty()
    } else {
        key_of(cards.drop_last()) + cards.last().notation() + seq![' ']
    }
}

/// The deck in order: the cards numbered 1 to 54 from the top, so clubs,
/// diamonds, hearts and spades from ace to king, then the black joker and
/// the red joker.
pub open spec fn is_ordered_deck(cards: Seq<Card>) -> bool {
    &&& cards.len() == DECK_SIZE
    &&& forall|i: int|
        0 <= i < cards.len() ==> (#[trigger] cards[i]).valid() && cards[i].number() == i + 1
}

/// The notations of cards.
pub open spec fn notations(cards: Seq<Card>) -> Seq<Seq<char>> {
    Seq::new(cards.len(), |i: int| cards[i].notation())
}

/// The key of cards falls into their notations, one token for each card.
pub proof fn lemma_tokens_of_key(cards: Seq<Card>)
    ensures
        scan(key_of(cards)) == (notations(cards), Seq::<char>::empty()),
        tokens(key_of(cards)) == notations(cards),
    decreases cards.len(),
{
    if cards.len() == 0 {
        assert(notations(cards) =~= Seq::<Seq<char>>::empty());
    } else {
        let front = cards.drop_last();
        let card = cards.last();
        lemma_tokens_of_key(front);
        let rank = card.value().symbol();
        let suit = card.suit().symbol();
        let a = key_of(front).push(rank);
        let b = a.push(suit);
        let c = b.push(' ');
        assert(a.drop_last() =~= key_of(front));
        assert(b.drop_last() =~= a);
        assert(c.drop_last() =~= b);
        assert(c =~= key_of(cards));
        assert(!is_space(rank));
        assert(!is_space(suit));
        assert(is_space(' '));
        assert(scan(a) == (notations(front), Seq::<char>::empty().push(rank)));
        assert(scan(b) == (notations(front), Seq::<char>::empty().push(rank).push(suit)));
        assert(Seq::<char>::empty().push(rank).push(suit) =~= card.notation());
        assert(notations(front).push(card.notation()) =~= notations(cards));
    }
}

/// A key reads back as the deck that it was written from: the key of a
/// full deck denotes that deck.
pub proof fn lemma_key_round_trip(cards: Seq<Card>)
    requires
        model::is_full_deck(cards),
    ensures
        parse_key(key_of(cards)) == Ok::<Seq<Card>, DeckFault>(cards),
{
    lemma_tokens_of_key(cards);
    let all = tokens(key_of(cards));
    assert forall|i: int| 0 <= i < all.len() implies is_card(#[trigger] all[i])
        && Card::of_notation(all[i]) == Some(cards[i]) by {
        assert(cards[i].valid());
        Card::lemma_notation_round_trip(cards[i], all[i]);
    }
    assert(cards_of(all) =~= cards);
    model::lemma_full_deck_holds_jokers(cards);
    assert forall|j: int| 0 <= j < cards.len() implies !#[trigger] is_repeat(cards, j) by {
        if is_repeat(cards, j) {
            let i: int = choose|i: int| 0 <= i < j && #[trigger] cards[i] == cards[j];
            assert(cards[i] != cards[j]);
        }
    }
}

/// The views of a vector of tokens.
pub open spec fn views(tokens: Seq<Vec<char>>) -> Seq<Seq<char>> {
    Seq::new(tokens.len(), |i: int| tokens[i]@)
}

/// Whether the character separates tokens.
fn is_space_char(c: char) -> (b: bool)
    ensures
        b == is_space(c),
{
    let n: u32 = c as u32;
    (0x09 <= n && n <= 0x0D) || n == 0x20 || n == 0x85 || n == 0xA0 || n == 0x1680 || (0x2000
        <= n && n <= 0x200A) || n == 0x2028 || n == 0x2029 || n == 0x202F || n == 0x205F || n
        == 0x3000
}

/// Splits a text into its tokens.
fn tokenize(text: &str) -> (r: Vec<Vec<char>>)
    ensures
        views(r@) == tokens(text@),
{
    let mut done: Vec<Vec<char>> = Vec::new();
    let mut current: Vec<char> = Vec::new();
    for c in it: text.chars()
        invariant
            it.seq() == text@,
            (views(done@), current@) == scan(text@.take(it.index() as int)),
    {
        proof {
            let n: int = it.index() as int;
            assert(text@.take(n + 1).drop_last() =~= text@.take(n));
        }
        if !is_space_char(c) {
            current.push(c);
        } else if current.len() != 0 {
            assert(views(done@.push(current)) =~= views(done@).push(current@));
            done.push(current);
            current = Vec::new();
        }
    }
    assert(text@.take(text@.len() as int) =~= text@);
    if current.len() != 0 {
        assert(views(done@.push(current)) =~= views(done@).push(current@));
        done.push(current);
    }
    done
}

/// The string of a token.
fn string_of(token: &Vec<char>) -> (s: String)
    ensures
        s@ == token@,
{
    let mut s = String::new();
    let mut i: usize = 0;
    while i < token.len()
        invariant
            i <= token.len(),
            s@ == token@.take(i as int),
        decreases token.len() - i,
    {
        s.push(token[i]);
        assert(token@.take(i + 1) =~= token@.take(i as int).push(token@[i as int]));
        i += 1;
    }
    assert(token@.take(token@.len() as int) =~= token@);
    s
}

/// The place of the first card of a rank, if there is one.
fn first_of_rank(cards: &Vec<Card>, rank: Value) -> (r: Option<usize>)
    ensures
        r.is_some() == model::holds_rank(cards@, rank),
        r matches Some(p) ==> p < cards@.len() && cards@[p as int].value() == rank,
{
    let mut i: usize = 0;
    while i < cards.len()
        invariant
            i <= cards.len(),
            forall|j: int| 0 <= j < i ==> (#[trigger] cards@[j]).value() != rank,
        decreases cards.len() - i,
    {
        if cards[i].value() == rank {
            return Some(i);
        }
        i += 1;
    }
    None
}

/// The place of the first card that has occurred before it, if a card
/// occurs twice.
fn first_repeat_in(cards: &Vec<Card>) -> (r: Option<usize>)
    requires
        forall|i: int| 0 <= i < cards@.len() ==> (#[trigger] cards@[i]).valid(),
    ensures
        r.is_some() == exists|j: int| 0 <= j < cards@.len() && #[trigger] is_repeat(cards@, j),
        r matches Some(p) ==> p < cards@.len() && p == first_repeat(cards@),
{
    let mut seen: Vec<bool> = Vec::new();
    let mut n: usize = 0;
    while n <= DECK_SIZE
        invariant
            n <= DECK_SIZE + 1,
            seen@.len() == n,
            forall|k: int| 0 <= k < n ==> !#[trigger] seen@[k],
        decreases DECK_SIZE + 1 - n,
    {
        seen.push(false);
        n += 1;
    }
    let mut j: usize = 0;
    while j < cards.len()
        invariant
            j <= cards.len(),
            seen@.len() == DECK_SIZE + 1,
            forall|i: int| 0 <= i < cards@.len() ==> (#[trigger] cards@[i]).valid(),
            forall|k: int| 0 <= k < j ==> !#[trigger] is_repeat(cards@, k),
            forall|m: int|
                0 <= m <= DECK_SIZE ==> (#[trigger] seen@[m] <==> exists|i: int|
                    0 <= i < j && (#[trigger] cards@[i]).number() == m),
        decreases cards.len() - j,
    {
        let card = cards[j];
        let number = usize::from(card);
        proof {
            Card::lemma_number(card, card);
        }
        if seen[number] {
            proof {
                let i: int = choose|i: int| 0 <= i < j && (#[trigger] cards@[i]).number() == number;
                Card::lemma_number(cards@[i], card);
                assert(is_repeat(cards@, j as int));
                let q: int = first_repeat(cards@);
                assert(0 <= q < cards@.len() && is_repeat(cards@, q) && forall|k: int|
                    0 <= k < q ==> !#[trigger] is_repeat(cards@, k));
                assert(q == j);
            }
            return Some(j);
        }
        proof {
            if is_repeat(cards@, j as int) {
                let i: int = choose|i: int| 0 <= i < j && #[trigger] cards@[i] == cards@[j as int];
                assert(cards@[i].number() == number);
            }
        }
        let ghost before = seen@;
        seen.set(number, true);
        proof {
            assert forall|m: int| 0 <= m <= DECK_SIZE implies (#[trigger] seen@[m] <==> exists|
                i: int,
            | 0 <= i < j + 1 && (#[trigger] cards@[i]).number() == m) by {
                if m == number {
                    assert(cards@[j as int].number() == m);
                } else {
                    assert(seen@[m] == before[m]);
                    if before[m] {
                        let i: int = choose|i: int|
                            0 <= i < j && (#[trigger] cards@[i]).number() == m;
                        assert(0 <= i < j + 1 && cards@[i].number() == m);
                    }
                    if exists|i: int| 0 <= i < j + 1 && (#[trigger] cards@[i]).number() == m {
                        let i: int = choose|i: int|
                            0 <= i < j + 1 && (#[trigger] cards@[i]).number() == m;
                        assert(i != j);
                        assert(0 <= i < j && cards@[i].number() == m);
                    }
                }
            }
        }
        j += 1;
    }
    None
}

impl Deck {
    /// Builds a deck from cards: 54 valid cards, both jokers among them,
    /// no card twice. Else says what is wrong with them.
    pub fn from_cards(cards: Vec<Card>) -> (r: Result<Deck, DeckError>)
        requires
            forall|i: int| 0 <= i < cards@.len() ==> (#[trigger] cards@[i]).valid(),
        ensures
            match check_cards(cards@) {
                None => r matches Ok(d) && d.cards@ == cards@ && d.wf(),
                Some(fault) => r matches Err(e) && e@ == fault,
            },
    {
        if cards.len() != DECK_SIZE {
            return Err(DeckError::WrongCardCount(cards.len()));
        }
        let joker_red = match first_of_rank(&cards, Value::JokerRed) {
            Some(p) => p,
            None => {
                return Err(DeckError::MissingJoker(Value::JokerRed));
            },
        };
        let joker_black = match first_of_rank(&cards, Value::JokerBlack) {
            Some(p) => p,
            None => {
                return Err(DeckError::MissingJoker(Value::JokerBlack));
            },
        };
        match first_repeat_in(&cards) {
            Some(p) => Err(DeckError::DuplicateCard(cards[p])),
            None => {
                proof {
                    assert forall|i: int, k: int| 0 <= i < k < cards@.len() implies cards@[i]
                        != cards@[k] by {
                        assert(!is_repeat(cards@, k));
                    }
                }
                Ok(Deck { cards, joker_red, joker_black })
            },
        }
    }

    /// Whether the deck is well formed: a full deck that knows where its
    /// jokers are.
    pub fn is_well_formed(&self) -> (b: bool)
        ensures
            b == self.wf(),
    {
        if self.cards.len() != DECK_SIZE || self.joker_red >= DECK_SIZE || self.joker_black
            >= DECK_SIZE {
            return false;
        }
        let mut i: usize = 0;
        while i < DECK_SIZE
            invariant
                i <= DECK_SIZE,
                self.cards@.len() == DECK_SIZE,
                forall|j: int| 0 <= j < i ==> (#[trigger] self.cards@[j]).valid(),
            decreases DECK_SIZE - i,
        {
            if !self.cards[i].is_valid() {
                return false;
            }
            i += 1;
        }
        if first_repeat_in(&self.cards).is_some() {
            proof {
                let j: int = choose|j: int|
                    0 <= j < self.cards@.len() && #[trigger] is_repeat(self.cards@, j);
                let k: int = choose|k: int| 0 <= k < j && #[trigger] self.cards@[k] == self.cards@[j];
                assert(self.cards@[k] == self.cards@[j]);
            }
            return false;
        }
        proof {
            assert forall|k: int, j: int| 0 <= k < j < self.cards@.len() implies self.cards@[k]
                != self.cards@[j] by {
                assert(!is_repeat(self.cards@, j));
            }
        }
        self.cards[self.joker_red].value() == Value::JokerRed && self.cards[self.joker_black].value()
            == Value::JokerBlack
    }

    /// Builds a deck from its key: 54 card tokens with white space between
    /// them, top card first, every card of the deck once. Else says what
    /// is wrong with the key.
    pub fn from_key(key: &str) -> (r: Result<Deck, DeckError>)
        ensures
            match parse_key(key@) {
                Ok(cards) => r matches Ok(d) && d.cards@ == cards && d.wf(),
                Err(fault) => r matches Err(e) && e@ == fault,
            },
    {
        let words = tokenize(key);
        let mut cards: Vec<Card> = Vec::new();
        let mut i: usize = 0;
        while i < words.len()
            invariant
                i <= words.len(),
                views(words@) == tokens(key@),
                cards@.len() == i,
                forall|j: int| 0 <= j < i ==> is_card(#[trigger] views(words@)[j]),
                forall|j: int|
                    0 <= j < i ==> #[trigger] cards@[j] == Card::of_notation(
                        views(words@)[j],
                    )->Some_0,
                forall|j: int| 0 <= j < i ==> (#[trigger] cards@[j]).valid(),
            decreases words.len() - i,
        {
            match Card::from_symbols(&words[i]) {
                Some(card) => {
                    cards.push(card);
                },
                None => {
                    proof {
                        let all = views(words@);
                        assert(!is_card(all[i as int]));
                        let q: int = first_invalid(all);
                        assert(0 <= q < all.len() && !is_card(all[q]) && forall|j: int|
                            0 <= j < q ==> is_card(#[trigger] all[j]));
                        assert(q == i);
                    }
                    return Err(DeckError::InvalidCard(string_of(&words[i])));
                },
            }
            i += 1;
        }
        assert(cards@ =~= cards_of(views(words@)));
        Deck::from_cards(cards)
    }

    /// The key of the deck: the notation of each card, top card first,
    /// each followed by a space.
    pub fn to_string(&self) -> (s: String)
        ensures
            s@ == key_of(self.cards@),
    {
        let mut s = String::new();
        let mut i: usize = 0;
        while i < self.cards.len()
            invariant
                i <= self.cards.len(),
                s@ == key_of(self.cards@.take(i as int)),
            decreases self.cards.len() - i,
        {
            let card = self.cards[i];
            proof {
                let longer = self.cards@.take(i + 1);
                assert(longer.drop_last() =~= self.cards@.take(i as int));
                assert(longer.last() == card);
                assert(key_of(longer) =~= s@.push(card.value().symbol()).push(
                    card.suit().symbol(),
                ).push(' '));
            }
            s.push(card.value().to_char());
            s.push(card.suit().to_char());
            s.push(' ');
            i += 1;
        }
        assert(self.cards@.take(self.cards@.len() as int) =~= self.cards@);
        s
    }
}

impl Default for Deck {
    /// The deck in order: clubs, diamonds, hearts and spades from ace to
    /// king, then the black joker and the red joker.
    fn default() -> (d: Deck)
        ensures
            d.wf(),
            is_ordered_deck(d.cards@),
            d.joker_black == 52,
            d.joker_red == 53,
    {
        let mut cards: Vec<Card> = Vec::with_capacity(DECK_SIZE);
        let mut n: usize = 1;
        while n <= DECK_SIZE
            invariant
                1 <= n <= DECK_SIZE + 1,
                cards@.len() == n - 1,
                forall|i: int|
                    0 <= i < cards@.len() ==> (#[trigger] cards@[i]).valid() && cards@[i].number()
                        == i + 1,
            decreases DECK_SIZE + 1 - n,
        {
            match Card::from_number(n) {
                Some(card) => {
                    cards.push(card);
                },
                None => {},
            }
            n += 1;
        }
        proof {
            assert forall|i: int, k: int| 0 <= i < k < cards@.len() implies cards@[i]
                != cards@[k] by {
                assert(cards@[i].number() != cards@[k].number());
            }
            assert(cards@[52].valid() && cards@[52].number() == 53);
            assert(cards@[53].valid() && cards@[53].number() == 54);
        }
        Deck { cards, joker_red: 53, joker_black: 52 }
    }
}

} // verus!
