//! The cipher as mathematics: a deck is a sequence of cards, and every step
//! of the keystream is a function from sequences to sequences.

use crate::solitaire::card::Card;
use crate::solitaire::card::Value;
use vstd::prelude::*;

verus! {

/// The number of cards in a deck: 52 and the two jokers.
pub const DECK_SIZE: usize = 54;

/// The number of times that one draw of the keystream runs the four steps
/// before it gives up on a deck whose output card is a joker each time.
pub const MAX_CYCLES: usize = 10000;

/// A full deck: 54 valid cards, no card twice.
pub open spec fn is_full_deck(s: Seq<Card>) -> bool {
    &&& s.len() == DECK_SIZE
    &&& forall|i: int| 0 <= i < s.len() ==> (#[trigger] s[i]).valid()
    &&& forall|i: int, j: int| 0 <= i < j < s.len() ==> s[i] != s[j]
}

/// Whether a card of the given rank occurs in the sequence.
pub open spec fn holds_rank(s: Seq<Card>, rank: Value) -> bool {
    exists|i: int| 0 <= i < s.len() && (#[trigger] s[i]).value() == rank
}

/// The place of the joker of the given rank.
pub open spec fn joker_position(s: Seq<Card>, joker: Value) -> int {
    choose|i: int| 0 <= i < s.len() && (#[trigger] s[i]).value() == joker
}

/// The sequence with the card at `from` taken out and put back at `to`.
pub open spec fn relocate(s: Seq<Card>, from: int, to: int) -> Seq<Card> {
    s.remove(from).insert(to, s[from])
}

/// Where a card at `i` comes to lie when it moves one place down a deck of
/// `len` cards: the deck is a circle, and after the last place comes the
/// place just below the top card.
pub open spec fn one_down(len: int, i: int) -> int {
    if i == len - 1 {
        1
    } else {
        i + 1
    }
}

/// Where a card at `i` comes to lie when it moves two places down a deck
/// of `len` cards, on the same circle.
pub open spec fn two_down(len: int, i: int) -> int {
    if i == len - 2 {
        1
    } else if i == len - 1 {
        2
    } else {
        i + 2
    }
}

/// First step: the red joker moves one place down.
pub open spec fn move_joker_red(s: Seq<Card>) -> Seq<Card> {
    let i: int = joker_position(s, Value::JokerRed);
    relocate(s, i, one_down(s.len() as int, i))
}

/// Second step: the black joker moves two places down.
pub open spec fn move_joker_black(s: Seq<Card>) -> Seq<Card> {
    let i: int = joker_position(s, Value::JokerBlack);
    relocate(s, i, two_down(s.len() as int, i))
}

/// The cards below `hi`, then the cards from `lo` to `hi`, then the cards
/// above `lo`.
pub open spec fn triple_cut_at(s: Seq<Card>, lo: int, hi: int) -> Seq<Card> {
    s.subrange(hi + 1, s.len() as int) + s.subrange(lo, hi + 1) + s.subrange(0, lo)
}

/// Third step: the cards above the upper joker change places with the
/// cards below the lower joker; the jokers and what lies between them stay.
pub open spec fn triple_cut(s: Seq<Card>) -> Seq<Card> {
    let r: int = joker_position(s, Value::JokerRed);
    let b: int = joker_position(s, Value::JokerBlack);
    if r < b {
        triple_cut_at(s, r, b)
    } else {
        triple_cut_at(s, b, r)
    }
}

/// Fourth step: as many cards as the bottom card counts go from the top
/// to just above the bottom card, which stays where it is.
pub open spec fn count_cut(s: Seq<Card>) -> Seq<Card> {
    let n: int = s.last().count();
    (s.subrange(n, s.len() - 1) + s.subrange(0, n)).push(s.last())
}

/// The four steps in order.
pub open spec fn cycle(s: Seq<Card>) -> Seq<Card> {
    count_cut(triple_cut(move_joker_black(move_joker_red(s))))
}

/// The four steps, `n` times over.
pub open spec fn cycles(s: Seq<Card>, n: nat) -> Seq<Card>
    decreases n,
{
    if n == 0 {
        s
    } else {
        cycles(cycle(s), (n - 1) as nat)
    }
}

/// The output card: the top card counts that many cards down from the
/// second card. Its number is the output, unless it is a joker.
pub open spec fn output(s: Seq<Card>) -> Option<int> {
    let c: Card = s[s[0].count()];
    if c.number() > 52 {
        None
    } else {
        Some(c.number())
    }
}

/// One draw of the keystream that may run the four steps up to `tries`
/// times: the first output that is no joker, with the deck as it then
/// lies.
pub open spec fn draw(s: Seq<Card>, tries: nat) -> Option<(int, Seq<Card>)>
    decreases tries,
{
    if tries == 0 {
        None
    } else {
        let t: Seq<Card> = cycle(s);
        match output(t) {
            Some(k) => Some((k, t)),
            None => draw(t, (tries - 1) as nat),
        }
    }
}

/// One draw of the keystream: a number from 1 to 52 and the deck after it.
/// `None` where the output card is a joker `MAX_CYCLES` times in a row.
pub open spec fn keystream(s: Seq<Card>) -> Option<(int, Seq<Card>)> {
    draw(s, MAX_CYCLES as nat)
}

/// `n` draws of the keystream in a row: the numbers drawn, in order, and the
/// deck after the last draw. `None` where one of the draws gives up.
pub open spec fn keystream_run(s: Seq<Card>, n: nat) -> Option<(Seq<int>, Seq<Card>)>
    decreases n,
{
    if n == 0 {
        Some((Seq::empty(), s))
    } else {
        match keystream_run(s, (n - 1) as nat) {
            None => None,
            Some((keys, d)) => match keystream(d) {
                None => None,
                Some((k, e)) => Some((keys.push(k), e)),
            },
        }
    }
}

/// The deck as a run of `n` draws leaves it where the run has no result:
/// the deck on which the first draw that gave up stopped.
pub open spec fn stalled(s: Seq<Card>, n: nat) -> Seq<Card>
    decreases n,
{
    if n == 0 {
        s
    } else {
        match keystream_run(s, (n - 1) as nat) {
            Some((_, d)) => cycles(d, MAX_CYCLES as nat),
            None => stalled(s, (n - 1) as nat),
        }
    }
}

/// A full deck holds every card: each number from 1 to 54 is the number of
/// one of its cards.
pub proof fn lemma_full_deck_holds_number(s: Seq<Card>, n: int)
    requires
        is_full_deck(s),
        1 <= n <= 54,
    ensures
        exists|i: int| 0 <= i < s.len() && (#[trigger] s[i]).number() == n,
{
    let numbers = s.map_values(|c: Card| c.number());
    assert forall|i: int, j: int| 0 <= i < numbers.len() && 0 <= j < numbers.len() && i != j implies numbers[i] != numbers[j] by {
        assert(s[i].valid() && s[j].valid());
        Card::lemma_number(s[i], s[j]);
        if i < j {
            assert(s[i] != s[j]);
        } else {
            assert(s[j] != s[i]);
        }
    }
    numbers.unique_seq_to_set();
    let all = vstd::set_lib::set_int_range(1, 55);
    vstd::set_lib::lemma_int_range(1, 55);
    assert forall|x: int| numbers.to_set().contains(x) implies all.contains(x) by {
        let i: int = choose|i: int| 0 <= i < numbers.len() && numbers[i] == x;
        assert(s[i].valid());
        Card::lemma_number(s[i], s[i]);
    }
    vstd::seq_lib::seq_to_set_is_finite(numbers);
    vstd::set_lib::lemma_subset_equality(numbers.to_set(), all);
    assert(all.contains(n));
    assert(numbers.contains(n));
    let i: int = choose|i: int| 0 <= i < numbers.len() && numbers[i] == n;
    assert(s[i].number() == n);
}

/// A full deck holds both jokers.
pub proof fn lemma_full_deck_holds_jokers(s: Seq<Card>)
    requires
        is_full_deck(s),
    ensures
        holds_rank(s, Value::JokerRed),
        holds_rank(s, Value::JokerBlack),
        0 <= joker_position(s, Value::JokerRed) < s.len(),
        0 <= joker_position(s, Value::JokerBlack) < s.len(),
        s[joker_position(s, Value::JokerRed)].value() == Value::JokerRed,
        s[joker_position(s, Value::JokerBlack)].value() == Value::JokerBlack,
{
    lemma_full_deck_holds_number(s, 54);
    let r: int = choose|i: int| 0 <= i < s.len() && (#[trigger] s[i]).number() == 54;
    assert(s[r].valid());
    assert(s[r].value() == Value::JokerRed);
    lemma_full_deck_holds_number(s, 53);
    let b: int = choose|i: int| 0 <= i < s.len() && (#[trigger] s[i]).number() == 53;
    assert(s[b].valid());
    assert(s[b].value() == Value::JokerBlack);
}

/// In a full deck a joker lies where a card of its rank is found.
pub proof fn lemma_joker_position(s: Seq<Card>, joker: Value, i: int)
    requires
        is_full_deck(s),
        joker.is_joker(),
        0 <= i < s.len(),
        s[i].value() == joker,
    ensures
        joker_position(s, joker) == i,
{
    let p: int = joker_position(s, joker);
    assert(0 <= p < s.len() && s[p].value() == joker);
    assert(s[p].valid() && s[i].valid());
    Card::lemma_same_rank_and_suit(s[p], s[i]);
}

/// Two sequences that hold the same cards hold the same ranks.
pub proof fn lemma_same_cards_hold_rank(s: Seq<Card>, t: Seq<Card>, rank: Value)
    requires
        s.to_multiset() == t.to_multiset(),
        holds_rank(s, rank),
    ensures
        holds_rank(t, rank),
{
    broadcast use vstd::seq_lib::group_to_multiset_ensures;

    let i: int = choose|i: int| 0 <= i < s.len() && (#[trigger] s[i]).value() == rank;
    assert(s.contains(s[i]));
    assert(t.to_multiset().count(s[i]) > 0);
    assert(t.contains(s[i]));
    let j: int = choose|j: int| 0 <= j < t.len() && t[j] == s[i];
    assert(t[j].value() == rank);
}

/// Taking a card out and putting it back elsewhere keeps a full deck full,
/// and keeps the cards that it holds.
pub proof fn lemma_relocate(s: Seq<Card>, from: int, to: int)
    requires
        0 <= from < s.len(),
        0 <= to < s.len(),
    ensures
        relocate(s, from, to).len() == s.len(),
        relocate(s, from, to)[to] == s[from],
        relocate(s, from, to).to_multiset() == s.to_multiset(),
        is_full_deck(s) ==> is_full_deck(relocate(s, from, to)),
{
    broadcast use vstd::seq_lib::group_to_multiset_ensures;

    let t = s.remove(from);
    let u = t.insert(to, s[from]);
    assert(u.to_multiset() =~= s.to_multiset());
    if is_full_deck(s) {
        assert forall|i: int| 0 <= i < u.len() implies (#[trigger] u[i]).valid() by {
            if i < to {
                assert(u[i] == t[i]);
            } else if i > to {
                assert(u[i] == t[i - 1]);
            }
        }
        assert forall|i: int, j: int| 0 <= i < j < u.len() implies u[i] != u[j] by {
            let a: int = if i == to { from } else if i < to { if i < from { i } else { i + 1 } } else { if i - 1 < from { i - 1 } else { i } };
            let b: int = if j == to { from } else if j < to { if j < from { j } else { j + 1 } } else { if j - 1 < from { j - 1 } else { j } };
            assert(u[i] == s[a]);
            assert(u[j] == s[b]);
            assert(a != b);
        }
    }
}

/// The triple cut keeps a full deck full, and keeps the cards that it
/// holds.
pub proof fn lemma_triple_cut_at(s: Seq<Card>, lo: int, hi: int)
    requires
        0 <= lo <= hi < s.len(),
    ensures
        triple_cut_at(s, lo, hi).len() == s.len(),
        triple_cut_at(s, lo, hi).to_multiset() == s.to_multiset(),
        is_full_deck(s) ==> is_full_deck(triple_cut_at(s, lo, hi)),
{
    let n: int = s.len() as int;
    let a = s.subrange(0, lo);
    let b = s.subrange(lo, hi + 1);
    let c = s.subrange(hi + 1, n);
    let t = triple_cut_at(s, lo, hi);
    assert(s =~= a + b + c);
    vstd::seq_lib::lemma_multiset_commutative(a + b, c);
    vstd::seq_lib::lemma_multiset_commutative(a, b);
    vstd::seq_lib::lemma_multiset_commutative(c + b, a);
    vstd::seq_lib::lemma_multiset_commutative(c, b);
    assert(t.to_multiset() =~= s.to_multiset());
    if is_full_deck(s) {
        let below: int = n - hi - 1;
        let mid: int = hi + 1 - lo;
        assert forall|i: int| 0 <= i < t.len() implies (#[trigger] t[i]).valid() by {
            if i < below {
                assert(t[i] == s[hi + 1 + i]);
            } else if i < below + mid {
                assert(t[i] == s[lo + i - below]);
            } else {
                assert(t[i] == s[i - below - mid]);
            }
        }
        assert forall|i: int, j: int| 0 <= i < j < t.len() implies t[i] != t[j] by {
            let x: int = if i < below { hi + 1 + i } else if i < below + mid { lo + i - below } else { i - below - mid };
            let y: int = if j < below { hi + 1 + j } else if j < below + mid { lo + j - below } else { j - below - mid };
            assert(t[i] == s[x]);
            assert(t[j] == s[y]);
            assert(x != y);
        }
    }
}

/// The count cut keeps a full deck full, and keeps the cards that it
/// holds.
pub proof fn lemma_count_cut(s: Seq<Card>)
    requires
        s.len() > 0,
        1 <= s.last().count() < s.len(),
    ensures
        count_cut(s).len() == s.len(),
        count_cut(s).last() == s.last(),
        count_cut(s).to_multiset() == s.to_multiset(),
        is_full_deck(s) ==> is_full_deck(count_cut(s)),
{
    let n: int = s.last().count();
    let m: int = s.len() - 1;
    let a = s.subrange(0, n);
    let b = s.subrange(n, m);
    let t = count_cut(s);
    assert(s =~= (a + b).push(s.last()));
    vstd::seq_lib::to_multiset_build(a + b, s.last());
    vstd::seq_lib::to_multiset_build(b + a, s.last());
    vstd::seq_lib::lemma_seq_union_to_multiset_commutative(a, b);
    assert(t.to_multiset() =~= s.to_multiset());
    if is_full_deck(s) {
        assert forall|i: int| 0 <= i < t.len() implies (#[trigger] t[i]).valid() by {
            if i < m - n {
                assert(t[i] == s[n + i]);
            } else if i < m {
                assert(t[i] == s[i - (m - n)]);
            } else {
                assert(t[i] == s[m]);
            }
        }
        assert forall|i: int, j: int| 0 <= i < j < t.len() implies t[i] != t[j] by {
            let x: int = if i < m - n { n + i } else if i < m { i - (m - n) } else { m };
            let y: int = if j < m - n { n + j } else if j < m { j - (m - n) } else { m };
            assert(t[i] == s[x]);
            assert(t[j] == s[y]);
            assert(x != y);
        }
    }
}

/// Each of the four steps, and so the four together, keeps a full deck
/// full and keeps the cards that it holds: only their order changes.
pub proof fn lemma_steps_keep_cards(s: Seq<Card>)
    requires
        is_full_deck(s),
    ensures
        is_full_deck(move_joker_red(s)),
        move_joker_red(s).to_multiset() == s.to_multiset(),
        is_full_deck(move_joker_black(s)),
        move_joker_black(s).to_multiset() == s.to_multiset(),
        is_full_deck(triple_cut(s)),
        triple_cut(s).to_multiset() == s.to_multiset(),
        is_full_deck(count_cut(s)),
        count_cut(s).to_multiset() == s.to_multiset(),
{
    lemma_full_deck_holds_jokers(s);
    let r: int = joker_position(s, Value::JokerRed);
    let b: int = joker_position(s, Value::JokerBlack);
    lemma_relocate(s, r, one_down(s.len() as int, r));
    lemma_relocate(s, b, two_down(s.len() as int, b));
    if r < b {
        lemma_triple_cut_at(s, r, b);
    } else {
        lemma_triple_cut_at(s, b, r);
    }
    assert(s.last().valid());
    lemma_count_cut(s);
}

/// The four steps together keep a full deck full and keep its cards.
pub proof fn lemma_cycle_keeps_cards(s: Seq<Card>)
    requires
        is_full_deck(s),
    ensures
        is_full_deck(cycle(s)),
        cycle(s).to_multiset() == s.to_multiset(),
{
    lemma_steps_keep_cards(s);
    let a = move_joker_red(s);
    lemma_steps_keep_cards(a);
    let b = move_joker_black(a);
    lemma_steps_keep_cards(b);
    let c = triple_cut(b);
    lemma_steps_keep_cards(c);
}

/// A draw from a full deck gives a number from 1 to 52 and leaves a full
/// deck of the same cards.
pub proof fn lemma_draw(s: Seq<Card>, tries: nat)
    requires
        is_full_deck(s),
    ensures
        draw(s, tries) matches Some((k, t)) ==> 1 <= k <= 52 && is_full_deck(t)
            && t.to_multiset() == s.to_multiset(),
    decreases tries,
{
    if tries > 0 {
        lemma_cycle_keeps_cards(s);
        let t = cycle(s);
        assert(t[0].valid());
        assert(t[t[0].count()].valid());
        if output(t).is_none() {
            lemma_draw(t, (tries - 1) as nat);
        }
    }
}

/// A run of `n` draws gives `n` numbers. From a full deck each of them is
/// from 1 to 52, and the deck stays a full deck of the same cards.
pub proof fn lemma_keystream_run(s: Seq<Card>, n: nat)
    ensures
        keystream_run(s, n) matches Some((keys, d)) ==> {
            &&& keys.len() == n
            &&& is_full_deck(s) ==> {
                &&& is_full_deck(d)
                &&& d.to_multiset() == s.to_multiset()
                &&& forall|i: int| 0 <= i < n ==> 1 <= #[trigger] keys[i] <= 52
            }
        },
    decreases n,
{
    if n > 0 {
        lemma_keystream_run(s, (n - 1) as nat);
        match keystream_run(s, (n - 1) as nat) {
            None => {},
            Some((keys, d)) => {
                if is_full_deck(s) {
                    lemma_draw(d, MAX_CYCLES as nat);
                }
            },
        }
    }
}

} // verus!
