//! The deck as it lies in memory, and the four steps that rearrange it.

use crate::solitaire::card::Card;
use crate::solitaire::card::Value;
use crate::solitaire::model;
use crate::solitaire::model::DECK_SIZE;
use vstd::prelude::*;

verus! {

/// A deck of cards, top card first, with the places of its two jokers.
///
/// The deck is the key of the cipher and its whole state. It is
/// [well formed](Deck::wf) when it holds each of the 54 cards once and the
/// two places are those of the jokers; every step keeps it so.
#[derive(Clone, Debug, PartialEq, Eq)]
pub struct Deck {
    pub cards: Vec<Card>,
    pub joker_red: usize,
    pub joker_black: usize,
}

/// The rank of the joker that a colour letter asks for: `'R'` is the red
/// joker, any other letter the black one.
pub open spec fn joker_rank(joker: char) -> Value {
    if joker == 'R' {
        Value::JokerRed
    } else {
        Value::JokerBlack
    }
}

/// Appends the cards of `src` from `from` up to `to` to `out`.
fn extend_from_range(out: &mut Vec<Card>, src: &Vec<Card>, from: usize, to: usize)
    requires
        from <= to <= src.len(),
    ensures
        final(out)@ == old(out)@ + src@.subrange(from as int, to as int),
{
    let mut i: usize = from;
    while i < to
        invariant
            from <= i <= to <= src.len(),
            out@ == old(out)@ + src@.subrange(from as int, i as int),
        decreases to - i,
    {
        out.push(src[i]);
        i += 1;
    }
}

impl Deck {
    /// The deck is a full deck and knows where its jokers are.
    pub open spec fn wf(&self) -> bool {
        &&& model::is_full_deck(self.cards@)
        &&& self.joker_red < DECK_SIZE
        &&& self.joker_black < DECK_SIZE
        &&& self.cards@[self.joker_red as int].value() == Value::JokerRed
        &&& self.cards@[self.joker_black as int].value() == Value::JokerBlack
    }

    /// A deck without cards, to be filled by the caller.
    pub fn new() -> (d: Deck)
        ensures
            d.cards@ == Seq::<Card>::empty(),
            d.joker_red == 0,
            d.joker_black == 0,
    {
        Self { cards: Vec::new(), joker_red: 0, joker_black: 0 }
    }

    /// Finds a joker by scanning the deck from the top: the red one for
    /// `'R'`, the black one for any other letter.
    pub fn find_joker(&mut self, joker: char) -> (i: usize)
        requires
            model::holds_rank(old(self).cards@, joker_rank(joker)),
        ensures
            *final(self) == *old(self),
            i < old(self).cards@.len(),
            old(self).cards@[i as int].value() == joker_rank(joker),
            forall|j: int| 0 <= j < i ==> (#[trigger] old(self).cards@[j]).value() != joker_rank(joker),
    {
        let wanted = match joker {
            'R' => Value::JokerRed,
            _ => Value::JokerBlack,
        };
        let mut i: usize = 0;
        while self.cards[i].value() != wanted
            invariant
                *self == *old(self),
                wanted == joker_rank(joker),
                i < self.cards.len(),
                model::holds_rank(self.cards@, wanted),
                forall|j: int| 0 <= j < i ==> (#[trigger] self.cards@[j]).value() != wanted,
            decreases self.cards@.len() - i,
        {
            proof {
                let k: int = choose|k: int|
                    0 <= k < self.cards@.len() && (#[trigger] self.cards@[k]).value() == wanted;
                assert(k > i);
            }
            i += 1;
        }
        i
    }

    /// Looks both jokers up again and stores their places.
    fn locate_jokers(&mut self)
        requires
            model::is_full_deck(old(self).cards@),
            model::holds_rank(old(self).cards@, Value::JokerRed),
            model::holds_rank(old(self).cards@, Value::JokerBlack),
        ensures
            final(self).cards@ == old(self).cards@,
            final(self).wf(),
    {
        let red = self.find_joker('R');
        let black = self.find_joker('B');
        self.joker_red = red;
        self.joker_black = black;
    }

    /// Moves the red joker one card down. From the bottom of the deck it
    /// goes to the place just below the top card.
    pub fn move_joker_red(&mut self)
        requires
            old(self).wf(),
        ensures
            final(self).wf(),
            final(self).cards@ == model::move_joker_red(old(self).cards@),
            final(self).cards@.to_multiset() == old(self).cards@.to_multiset(),
            final(self).joker_red == model::one_down(DECK_SIZE as int, old(self).joker_red as int),
            final(self).joker_red < DECK_SIZE,
            final(self).joker_black < DECK_SIZE,
    {
        let from = self.joker_red;
        let to: usize = if from == DECK_SIZE - 1 {
            1
        } else {
            from + 1
        };
        proof {
            model::lemma_joker_position(self.cards@, Value::JokerRed, from as int);
            model::lemma_relocate(self.cards@, from as int, to as int);
            model::lemma_same_cards_hold_rank(
                self.cards@,
                model::relocate(self.cards@, from as int, to as int),
                Value::JokerRed,
            );
            model::lemma_same_cards_hold_rank(
                self.cards@,
                model::relocate(self.cards@, from as int, to as int),
                Value::JokerBlack,
            );
        }
        let card = self.cards.remove(from);
        self.cards.insert(to, card);
        self.locate_jokers();
        proof {
            model::lemma_joker_position(self.cards@, Value::JokerRed, to as int);
            model::lemma_joker_position(self.cards@, Value::JokerRed, self.joker_red as int);
        }
    }

    /// Moves the black joker two cards down. From the bottom of the deck
    /// it goes to the place below the second card, from the place above
    /// the bottom to the place below the top card.
    pub fn move_joker_black(&mut self)
        requires
            old(self).wf(),
        ensures
            final(self).wf(),
            final(self).cards@ == model::move_joker_black(old(self).cards@),
            final(self).cards@.to_multiset() == old(self).cards@.to_multiset(),
            final(self).joker_black == model::two_down(DECK_SIZE as int, old(self).joker_black as int),
            final(self).joker_red < DECK_SIZE,
            final(self).joker_black < DECK_SIZE,
    {
        let from = self.joker_black;
        let to: usize = if from == DECK_SIZE - 2 {
            1
        } else if from == DECK_SIZE - 1 {
            2
        } else {
            from + 2
        };
        proof {
            model::lemma_joker_position(self.cards@, Value::JokerBlack, from as int);
            model::lemma_relocate(self.cards@, from as int, to as int);
            model::lemma_same_cards_hold_rank(
                self.cards@,
                model::relocate(self.cards@, from as int, to as int),
                Value::JokerRed,
            );
            model::lemma_same_cards_hold_rank(
                self.cards@,
                model::relocate(self.cards@, from as int, to as int),
                Value::JokerBlack,
            );
        }
        let card = self.cards.remove(from);
        self.cards.insert(to, card);
        self.locate_jokers();
        proof {
            model::lemma_joker_position(self.cards@, Value::JokerBlack, to as int);
            model::lemma_joker_position(self.cards@, Value::JokerBlack, self.joker_black as int);
        }
    }

    /// Swaps the cards above the upper joker with the cards below the
    /// lower joker. The jokers and the cards between them stay in place.
    pub fn triple_cut(&mut self)
        requires
            old(self).wf(),
        ensures
            final(self).wf(),
            final(self).cards@ == model::triple_cut(old(self).cards@),
            final(self).cards@.to_multiset() == old(self).cards@.to_multiset(),
    {
        let lo: usize = if self.joker_red < self.joker_black {
            self.joker_red
        } else {
            self.joker_black
        };
        let hi: usize = if self.joker_red < self.joker_black {
            self.joker_black
        } else {
            self.joker_red
        };
        proof {
            model::lemma_joker_position(self.cards@, Value::JokerRed, self.joker_red as int);
            model::lemma_joker_position(self.cards@, Value::JokerBlack, self.joker_black as int);
            model::lemma_triple_cut_at(self.cards@, lo as int, hi as int);
            model::lemma_same_cards_hold_rank(
                self.cards@,
                model::triple_cut_at(self.cards@, lo as int, hi as int),
                Value::JokerRed,
            );
            model::lemma_same_cards_hold_rank(
                self.cards@,
                model::triple_cut_at(self.cards@, lo as int, hi as int),
                Value::JokerBlack,
            );
        }
        let mut cards: Vec<Card> = Vec::with_capacity(DECK_SIZE);
        extend_from_range(&mut cards, &self.cards, hi + 1, DECK_SIZE);
        extend_from_range(&mut cards, &self.cards, lo, hi + 1);
        extend_from_range(&mut cards, &self.cards, 0, lo);
        self.cards = cards;
        self.locate_jokers();
    }

    /// Cuts as many cards as the bottom card counts off the top and puts
    /// them back just above the bottom card, which does not move.
    pub fn count_cut(&mut self)
        requires
            old(self).wf(),
        ensures
            final(self).wf(),
            final(self).cards@ == model::count_cut(old(self).cards@),
            final(self).cards@.to_multiset() == old(self).cards@.to_multiset(),
            final(self).cards@[DECK_SIZE - 1] == old(self).cards@[DECK_SIZE - 1],
    {
        let last_card = self.cards[DECK_SIZE - 1];
        let count = Self::count_of(last_card);
        proof {
            model::lemma_count_cut(self.cards@);
            model::lemma_same_cards_hold_rank(
                self.cards@,
                model::count_cut(self.cards@),
                Value::JokerRed,
            );
            model::lemma_same_cards_hold_rank(
                self.cards@,
                model::count_cut(self.cards@),
                Value::JokerBlack,
            );
        }
        let mut cards: Vec<Card> = Vec::with_capacity(DECK_SIZE);
        extend_from_range(&mut cards, &self.cards, count, DECK_SIZE - 1);
        extend_from_range(&mut cards, &self.cards, 0, count);
        cards.push(last_card);
        self.cards = cards;
        self.locate_jokers();
    }

    /// The number by which a card counts: its own, but 53 for either
    /// joker.
    fn count_of(card: Card) -> (n: usize)
        requires
            card.valid(),
        ensures
            n == card.count(),
            1 <= n <= 53,
    {
        let n = usize::from(card);
        if n >= 53 {
            53
        } else {
            n
        }
    }

    /// The number of the output card, which the top card points at, or an
    /// error where that card is a joker.
    pub fn get_output_value(&self) -> (r: Result<u8, ()>)
        requires
            self.wf(),
        ensures
            r == match model::output(self.cards@) {
                Some(k) => Ok::<u8, ()>(k as u8),
                None => Err::<u8, ()>(()),
            },
            r matches Ok(k) ==> 1 <= k <= 52,
    {
        let count_val = Self::count_of(self.cards[0]);
        let output_val = usize::from(self.cards[count_val]);
        if output_val > 52 {
            Err(())
        } else {
            Ok(output_val as u8)
        }
    }
}

} // verus!
