//! Drawing the keystream: the four steps, repeated until the output card is
//! no joker.

use crate::solitaire::card::Value;
use crate::solitaire::deck::Deck;
use crate::solitaire::model;
use crate::solitaire::model::MAX_CYCLES;
use vstd::prelude::*;

verus! {

/// The keystream is a function of the order of the cards alone. Two well
/// formed decks that hold the same cards in the same order know their
/// jokers at the same places and give the same numbers, draw for draw, for
/// any number of draws.
pub proof fn lemma_same_order_same_keystream(a: Deck, b: Deck, n: nat)
    requires
        a.wf(),
        b.wf(),
        a.cards@ == b.cards@,
    ensures
        a.joker_red == b.joker_red,
        a.joker_black == b.joker_black,
        model::keystream_run(a.cards@, n) == model::keystream_run(b.cards@, n),
{
    model::lemma_joker_position(a.cards@, Value::JokerRed, a.joker_red as int);
    model::lemma_joker_position(b.cards@, Value::JokerRed, b.joker_red as int);
    model::lemma_joker_position(a.cards@, Value::JokerBlack, a.joker_black as int);
    model::lemma_joker_position(b.cards@, Value::JokerBlack, b.joker_black as int);
}

impl Deck {
    /// Runs the four steps once.
    fn cycle(&mut self)
        requires
            old(self).wf(),
        ensures
            final(self).wf(),
            final(self).cards@ == model::cycle(old(self).cards@),
            final(self).cards@.to_multiset() == old(self).cards@.to_multiset(),
    {
        self.move_joker_red();
        self.move_joker_black();
        self.triple_cut();
        self.count_cut();
    }

    /// Draws the next number of the keystream, from 1 to 52, and leaves
    /// the deck as the draw has arranged it.
    ///
    /// The four steps are run again whenever the output card is a joker.
    /// After `MAX_CYCLES` jokers in a row the draw gives up and returns
    /// `None`; the deck has then gone through the steps that many times.
    pub fn try_keystream(&mut self) -> (r: Option<u8>)
        requires
            old(self).wf(),
        ensures
            final(self).wf(),
            final(self).cards@.to_multiset() == old(self).cards@.to_multiset(),
            match model::keystream(old(self).cards@) {
                Some((k, t)) => r == Some(k as u8) && 1 <= k <= 52 && final(self).cards@ == t,
                None => r.is_none() && final(self).cards@ == model::cycles(
                    old(self).cards@,
                    MAX_CYCLES as nat,
                ),
            },
    {
        let mut tries: usize = 0;
        while tries < MAX_CYCLES
            invariant
                tries <= MAX_CYCLES,
                self.wf(),
                self.cards@.to_multiset() == old(self).cards@.to_multiset(),
                model::keystream(old(self).cards@) == model::draw(
                    self.cards@,
                    (MAX_CYCLES - tries) as nat,
                ),
                model::cycles(old(self).cards@, MAX_CYCLES as nat) == model::cycles(
                    self.cards@,
                    (MAX_CYCLES - tries) as nat,
                ),
            decreases MAX_CYCLES - tries,
        {
            self.cycle();
            match self.get_output_value() {
                Ok(c) => {
                    return Some(c);
                },
                Err(_) => {},
            }
            tries += 1;
        }
        None
    }

    /// Draws the next number of the keystream, from 1 to 52, and leaves
    /// the deck as the draw has arranged it.
    ///
    /// The caller answers for a deck on which the draw does not give up;
    /// [`try_keystream`](Deck::try_keystream) asks for nothing of the kind.
    pub fn keystream(&mut self) -> (k: u8)
        requires
            old(self).wf(),
            model::keystream(old(self).cards@).is_some(),
        ensures
            final(self).wf(),
            final(self).cards@.to_multiset() == old(self).cards@.to_multiset(),
            model::keystream(old(self).cards@) == Some((k as int, final(self).cards@)),
            1 <= k <= 52,
    {
        match self.try_keystream() {
            Some(k) => k,
            None => vstd::pervasive::unreached(),
        }
    }
}

} // verus!
