//! Enciphering and deciphering text: each letter is shifted by the next
//! number of the keystream.

use crate::solitaire::card::Card;
use crate::solitaire::deck::Deck;
use crate::solitaire::model;
use vstd::prelude::*;

verus! {

/// Whether the character is one of the 26 letters, in either case.
pub open spec fn is_letter(c: char) -> bool {
    ('A' <= c && c <= 'Z') || ('a' <= c && c <= 'z')
}

/// The place of a letter in the alphabet, from 1 for `A` or `a` to 26 for
/// `Z` or `z`.
pub open spec fn letter_number(c: char) -> int {
    if 'a' <= c && c <= 'z' {
        c as int - 96
    } else {
        c as int - 64
    }
}

/// The capital letter at a place of the alphabet, `A` at 1.
pub open spec fn letter(n: int) -> char {
    ((n + 64) as u8) as char
}

/// The capital letter for a letter; other characters stay as they are.
pub open spec fn upper(c: char) -> char {
    if 'a' <= c && c <= 'z' {
        letter(letter_number(c))
    } else {
        c
    }
}

/// The text that the cipher works on: the letters of the input in order,
/// as capitals. Spaces, digits and all other characters are dropped.
pub open spec fn letters_of(text: Seq<char>) -> Seq<char> {
    text.filter(|c: char| is_letter(c)).map_values(|c: char| upper(c))
}

/// The place of the letter that a key number turns a letter into: the sum
/// of the two, brought back into 1 to 26 by steps of 26. With `decode` the
/// key is taken away instead.
pub open spec fn shift(place: int, key: int, decode: bool) -> int {
    if decode {
        (place - key - 1) % 26 + 1
    } else {
        (place + key - 1) % 26 + 1
    }
}

/// The cipher in one direction: every letter of the text shifted by its
/// own draw of the keystream, and the deck after the last draw. `None`
/// where a draw gives up.
pub open spec fn apply(deck: Seq<Card>, text: Seq<char>, decode: bool) -> Option<
    (Seq<char>, Seq<Card>),
> {
    let input: Seq<char> = letters_of(text);
    match model::keystream_run(deck, input.len()) {
        None => None,
        Some((keys, d)) => Some(
            (
                Seq::new(
                    input.len(),
                    |i: int| letter(shift(letter_number(input[i]), keys[i], decode)),
                ),
                d,
            ),
        ),
    }
}

/// The ciphertext of a text under a deck, and the deck afterwards.
pub open spec fn encrypt(deck: Seq<Card>, text: Seq<char>) -> Option<(Seq<char>, Seq<Card>)> {
    apply(deck, text, false)
}

/// The plaintext of a ciphertext under a deck, and the deck afterwards.
pub open spec fn decrypt(deck: Seq<Card>, text: Seq<char>) -> Option<(Seq<char>, Seq<Card>)> {
    apply(deck, text, true)
}

/// What one more character adds to the letters of a text.
pub proof fn lemma_letters_of_push(text: Seq<char>, c: char)
    ensures
        letters_of(text.push(c)) == if is_letter(c) {
            letters_of(text).push(upper(c))
        } else {
            letters_of(text)
        },
{
    let keep = |c: char| is_letter(c);
    let fold = |c: char| upper(c);
    text.lemma_filter_push(c, keep);
    if is_letter(c) {
        text.filter(keep).lemma_push_map_commute(fold, c);
    }
}

/// The cipher goes through the text from left to right: one more
/// character leaves the output as it is if it is no letter, and else adds
/// one letter, shifted by the next draw.
pub proof fn lemma_apply_push(deck: Seq<Card>, text: Seq<char>, c: char, decode: bool)
    ensures
        apply(deck, text.push(c), decode) == match apply(deck, text, decode) {
            None => None,
            Some((out, d)) => if !is_letter(c) {
                Some((out, d))
            } else {
                match model::keystream(d) {
                    None => None,
                    Some((k, e)) => Some(
                        (out.push(letter(shift(letter_number(c), k, decode))), e),
                    ),
                }
            },
        },
{
    lemma_letters_of_push(text, c);
    let input = letters_of(text);
    let longer = letters_of(text.push(c));
    if is_letter(c) {
        assert(longer.len() == input.len() + 1);
        assert(letter_number(upper(c)) == letter_number(c));
        match apply(deck, text, decode) {
            None => {},
            Some((out, d)) => {
                let keys = model::keystream_run(deck, input.len())->Some_0.0;
                match model::keystream(d) {
                    None => {},
                    Some((k, e)) => {
                        let all = keys.push(k);
                        model::lemma_keystream_run(deck, input.len());
                        assert(model::keystream_run(deck, (longer.len() - 1) as nat)
                            == model::keystream_run(deck, input.len()));
                        assert(model::keystream_run(deck, longer.len()) == Some((all, e)));
                        let got = apply(deck, text.push(c), decode)->Some_0.0;
                        let want = out.push(letter(shift(letter_number(c), k, decode)));
                        assert(got.len() == want.len());
                        assert forall|i: int| 0 <= i < got.len() implies got[i] == want[i] by {
                            if i < input.len() {
                                assert(longer[i] == input[i]);
                                assert(all[i] == keys[i]);
                            } else {
                                assert(longer[i] == upper(c));
                                assert(all[i] == k);
                            }
                        }
                        assert(got =~= want);
                    },
                }
            },
        }
    }
}

/// The deck as the cipher leaves it where a draw gives up: the deck on
/// which that draw stopped.
pub open spec fn stalled(deck: Seq<Card>, text: Seq<char>) -> Seq<Card> {
    model::stalled(deck, letters_of(text).len())
}

/// Once a draw has given up on a part of the text, the whole text has no
/// result either, and the deck stays where that draw stopped.
pub proof fn lemma_apply_gives_up(deck: Seq<Card>, text: Seq<char>, n: int, decode: bool)
    requires
        0 <= n <= text.len(),
        apply(deck, text.take(n), decode).is_none(),
    ensures
        apply(deck, text, decode).is_none(),
        stalled(deck, text) == stalled(deck, text.take(n)),
    decreases text.len() - n,
{
    if n < text.len() {
        assert(text.take(n + 1) =~= text.take(n).push(text[n]));
        lemma_apply_push(deck, text.take(n), text[n], decode);
        lemma_letters_of_push(text.take(n), text[n]);
        lemma_apply_gives_up(deck, text, n + 1, decode);
    } else {
        assert(text.take(n) =~= text);
    }
}

/// The letters of a text are capitals.
pub proof fn lemma_letters_are_capitals(text: Seq<char>)
    ensures
        forall|i: int|
            0 <= i < letters_of(text).len() ==> 'A' <= #[trigger] letters_of(text)[i]
                && letters_of(text)[i] <= 'Z',
    decreases text.len(),
{
    if text.len() > 0 {
        let front = text.drop_last();
        assert(text =~= front.push(text.last()));
        lemma_letters_are_capitals(front);
        lemma_letters_of_push(front, text.last());
    } else {
        lemma_letters_of_empty();
    }
}

/// The empty text has no letters.
pub proof fn lemma_letters_of_empty()
    ensures
        letters_of(Seq::<char>::empty()) == Seq::<char>::empty(),
{
    reveal(Seq::filter);
    assert(letters_of(Seq::<char>::empty()) =~= Seq::<char>::empty());
}

/// A text of capitals is its own letters.
pub proof fn lemma_letters_of_capitals(text: Seq<char>)
    requires
        forall|i: int| 0 <= i < text.len() ==> 'A' <= #[trigger] text[i] && text[i] <= 'Z',
    ensures
        letters_of(text) == text,
    decreases text.len(),
{
    if text.len() > 0 {
        let front = text.drop_last();
        assert(text =~= front.push(text.last()));
        lemma_letters_of_capitals(front);
        lemma_letters_of_push(front, text.last());
    } else {
        lemma_letters_of_empty();
    }
}

/// Whether a text holds letters and spaces only.
pub open spec fn is_alphabetic(text: Seq<char>) -> bool {
    forall|i: int| 0 <= i < text.len() ==> is_letter(#[trigger] text[i]) || text[i] == ' '
}

/// The text without its spaces, in capitals.
pub open spec fn upper_without_spaces(text: Seq<char>) -> Seq<char> {
    text.filter(|c: char| c != ' ').map_values(|c: char| upper(c))
}

/// The letters of a text of letters and spaces are the text without its
/// spaces, in capitals.
pub proof fn lemma_letters_of_alphabetic(text: Seq<char>)
    requires
        is_alphabetic(text),
    ensures
        letters_of(text) == upper_without_spaces(text),
    decreases text.len(),
{
    let keep = |c: char| c != ' ';
    let fold = |c: char| upper(c);
    if text.len() > 0 {
        let front = text.drop_last();
        let c = text.last();
        assert(text =~= front.push(c));
        lemma_letters_of_alphabetic(front);
        lemma_letters_of_push(front, c);
        front.lemma_filter_push(c, keep);
        if c != ' ' {
            front.filter(keep).lemma_push_map_commute(fold, c);
        }
    } else {
        reveal(Seq::filter);
        lemma_letters_of_empty();
        assert(upper_without_spaces(text) =~= Seq::<char>::empty());
    }
}

/// Deciphering undoes enciphering. Where a text is enciphered under a
/// deck, the ciphertext deciphered under the same deck gives the letters
/// of the text, in capitals, and leaves the deck as the enciphering left
/// it. For a text of letters and spaces that is the text without its
/// spaces, in capitals.
pub proof fn lemma_decrypt_inverts_encrypt(deck: Seq<Card>, text: Seq<char>)
    ensures
        encrypt(deck, text) matches Some((secret, d)) ==> decrypt(deck, secret) == Some(
            (letters_of(text), d),
        ),
        is_alphabetic(text) ==> letters_of(text) == upper_without_spaces(text),
{
    if is_alphabetic(text) {
        lemma_letters_of_alphabetic(text);
    }
    match encrypt(deck, text) {
        None => {},
        Some((secret, d)) => {
            let input = letters_of(text);
            let keys = model::keystream_run(deck, input.len())->Some_0.0;
            model::lemma_keystream_run(deck, input.len());
            lemma_letters_are_capitals(text);
            assert forall|i: int| 0 <= i < secret.len() implies 'A' <= #[trigger] secret[i]
                && secret[i] <= 'Z' by {
                let place: int = shift(letter_number(input[i]), keys[i], false);
                assert(1 <= place <= 26);
            }
            lemma_letters_of_capitals(secret);
            let plain = decrypt(deck, secret)->Some_0.0;
            assert(plain.len() == input.len());
            assert forall|i: int| 0 <= i < plain.len() implies plain[i] == input[i] by {
                let l: int = letter_number(input[i]);
                assert(1 <= l <= 26);
                let place: int = shift(l, keys[i], false);
                assert(1 <= place <= 26);
                assert(letter_number(secret[i]) == place);
                assert(shift(place, keys[i], true) == l);
                assert(letter(l) == input[i]);
            }
            assert(plain =~= input);
        },
    }
}

/// Two decks with the same key undo each other's work. Where a text of
/// letters and spaces is enciphered with one well formed deck, the
/// ciphertext deciphered with another deck of the same order gives the
/// text without its spaces, in capitals, and both decks end in the same
/// order.
pub proof fn lemma_same_key_deciphers(a: Deck, b: Deck, text: Seq<char>)
    requires
        a.wf(),
        b.wf(),
        a.cards@ == b.cards@,
        is_alphabetic(text),
        encrypt(a.cards@, text).is_some(),
    ensures
        decrypt(b.cards@, encrypt(a.cards@, text).unwrap().0) == Some(
            (upper_without_spaces(text), encrypt(a.cards@, text).unwrap().1),
        ),
{
    lemma_decrypt_inverts_encrypt(a.cards@, text);
}

/// Shifts one letter by a key number: forward to encipher, back with
/// `decode`.
fn shift_letter(c: char, key: u8, decode: bool) -> (r: char)
    requires
        is_letter(c),
        1 <= key <= 52,
    ensures
        r == letter(shift(letter_number(c), key as int, decode)),
        'A' <= r && r <= 'Z',
{
    let place: u8 = if c >= 'a' {
        c as u8 - 96
    } else {
        c as u8 - 64
    };
    if decode {
        let mut plain: i8 = place as i8 - key as i8;
        while plain < 1
            invariant
                -51 <= plain <= 26,
                (plain - 1) % 26 == (place - key - 1) % 26,
            decreases 26 - plain,
        {
            plain += 26;
        }
        (plain as u8 + 64) as char
    } else {
        let mut cipher: u8 = key + place;
        while cipher > 26
            invariant
                1 <= cipher <= 78,
                (cipher - 1) % 26 == (place + key - 1) % 26,
            decreases cipher,
        {
            cipher -= 26;
        }
        (cipher + 64) as char
    }
}

impl Deck {
    /// Runs the cipher over a text in one direction.
    fn try_apply(&mut self, text: &str, decode: bool) -> (r: Option<String>)
        requires
            old(self).wf(),
        ensures
            final(self).wf(),
            final(self).cards@.to_multiset() == old(self).cards@.to_multiset(),
            match apply(old(self).cards@, text@, decode) {
                Some((out, d)) => r matches Some(s) && s@ == out && final(self).cards@ == d,
                None => r.is_none() && final(self).cards@ == stalled(old(self).cards@, text@),
            },
    {
        let mut output = String::new();
        for c in it: text.chars()
            invariant
                it.seq() == text@,
                self.wf(),
                self.cards@.to_multiset() == old(self).cards@.to_multiset(),
                apply(old(self).cards@, text@.take(it.index() as int), decode) == Some(
                    (output@, self.cards@),
                ),
        {
            proof {
                let n: int = it.index() as int;
                assert(text@.take(n + 1) =~= text@.take(n).push(c));
                lemma_apply_push(old(self).cards@, text@.take(n), c, decode);
            }
            if ('A' <= c && c <= 'Z') || ('a' <= c && c <= 'z') {
                match self.try_keystream() {
                    Some(key) => {
                        output.push(shift_letter(c, key, decode));
                    },
                    None => {
                        proof {
                            let n: int = it.index() as int;
                            lemma_letters_of_push(text@.take(n), c);
                            lemma_apply_gives_up(old(self).cards@, text@, n + 1, decode);
                        }
                        return None;
                    },
                }
            }
        }
        proof {
            assert(text@.take(text@.len() as int) =~= text@);
        }
        Some(output)
    }

    /// Enciphers a text: its letters, as capitals, each shifted forward by
    /// the next number of the keystream. Other characters are dropped.
    /// `None` where a draw of the keystream gives up; the deck is then
    /// left as that draw left it.
    pub fn try_encrypt(&mut self, plaintext: &str) -> (r: Option<String>)
        requires
            old(self).wf(),
        ensures
            final(self).wf(),
            final(self).cards@.to_multiset() == old(self).cards@.to_multiset(),
            match encrypt(old(self).cards@, plaintext@) {
                Some((out, d)) => r matches Some(s) && s@ == out && final(self).cards@ == d,
                None => r.is_none() && final(self).cards@ == stalled(old(self).cards@, plaintext@),
            },
    {
        self.try_apply(plaintext, false)
    }

    /// Deciphers a text: its letters, as capitals, each shifted back by the
    /// next number of the keystream. Other characters are dropped. `None`
    /// where a draw of the keystream gives up; the deck is then left as
    /// that draw left it.
    pub fn try_decrypt(&mut self, ciphertext: &str) -> (r: Option<String>)
        requires
            old(self).wf(),
        ensures
            final(self).wf(),
            final(self).cards@.to_multiset() == old(self).cards@.to_multiset(),
            match decrypt(old(self).cards@, ciphertext@) {
                Some((out, d)) => r matches Some(s) && s@ == out && final(self).cards@ == d,
                None => r.is_none() && final(self).cards@ == stalled(old(self).cards@, ciphertext@),
            },
    {
        self.try_apply(ciphertext, true)
    }

    /// Enciphers a text: its letters, as capitals, each shifted forward by
    /// the next number of the keystream. Other characters are dropped.
    ///
    /// The caller answers for a deck on which no draw gives up;
    /// [`try_encrypt`](Deck::try_encrypt) asks for nothing of the kind.
    pub fn encrypt(&mut self, plaintext: &str) -> (r: String)
        requires
            old(self).wf(),
            encrypt(old(self).cards@, plaintext@).is_some(),
        ensures
            final(self).wf(),
            final(self).cards@.to_multiset() == old(self).cards@.to_multiset(),
            encrypt(old(self).cards@, plaintext@) == Some((r@, final(self).cards@)),
    {
        match self.try_apply(plaintext, false) {
            Some(s) => s,
            None => vstd::pervasive::unreached(),
        }
    }

    /// Deciphers a text: its letters, as capitals, each shifted back by the
    /// next number of the keystream. Other characters are dropped.
    ///
    /// The caller answers for a deck on which no draw gives up;
    /// [`try_decrypt`](Deck::try_decrypt) asks for nothing of the kind.
    pub fn decrypt(&mut self, ciphertext: &str) -> (r: String)
        requires
            old(self).wf(),
            decrypt(old(self).cards@, ciphertext@).is_some(),
        ensures
            final(self).wf(),
            final(self).cards@.to_multiset() == old(self).cards@.to_multiset(),
            decrypt(old(self).cards@, ciphertext@) == Some((r@, final(self).cards@)),
    {
        match self.try_apply(ciphertext, true) {
            Some(s) => s,
            None => vstd::pervasive::unreached(),
        }
    }
}

} // verus!
