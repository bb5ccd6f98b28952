use cryptorusticon::solitaire::Card;
use cryptorusticon::solitaire::Deck;
use cryptorusticon::solitaire::DeckError;
use cryptorusticon::solitaire::Suit;
use cryptorusticon::solitaire::Value;

const ORDERED: &str = "AC 2C 3C 4C 5C 6C 7C 8C 9C TC JC QC KC AD 2D 3D 4D 5D 6D 7D 8D 9D TD JD QD KD AH 2H 3H 4H 5H 6H 7H 8H 9H TH JH QH KH AS 2S 3S 4S 5S 6S 7S 8S 9S TS JS QS KS BJ RJ";

const CLASSIC: &str = "AC 2C 3C 4C 5C 6C 7C 8C 9C TC JC QC KC AD 2D 3D 4D 5D 6D 7D 8D 9D TD JD QD KD AH 2H 3H 4H 5H 6H 7H 8H 9H TH JH QH KH AS 2S 3S 4S 5S 6S 7S 8S 9S TS JS QS KS RJ BJ";

const SHUFFLED: &str = "9S 4S AC QC 8H 8S JC TD 2D TH 7S 4D 7D 9C 2S QS BJ JH 5D 9D 4H KS KC QD 6S 2C 6D 3H RJ 6H 5H 8C 5S KH AS 3D TS AH 2H 6C 3C AD 7H JS QH JD 7C 9H 5C 4C 3S KD TC 8D";

fn numbers(deck: &Deck) -> Vec<usize> {
    deck.cards.iter().map(|card| usize::from(*card)).collect()
}

fn sorted_numbers(deck: &Deck) -> Vec<usize> {
    let mut all = numbers(deck);
    all.sort();
    all
}

fn cycle(deck: &mut Deck) {
    deck.move_joker_red();
    deck.move_joker_black();
    deck.triple_cut();
    deck.count_cut();
}

#[test]
fn default_deck_is_the_ordered_key() {
    let deck = Deck::default();
    assert_eq!(deck.to_string(), format!("{} ", ORDERED));
    assert_eq!(Deck::from_key(ORDERED), Ok(deck));
}

#[test]
fn default_deck_holds_the_cards_in_number_order() {
    let deck = Deck::default();
    assert_eq!(numbers(&deck), (1..=54).collect::<Vec<usize>>());
    assert_eq!(deck.joker_black, 52);
    assert_eq!(deck.joker_red, 53);
    assert!(deck.is_well_formed());
}

#[test]
fn new_deck_is_empty() {
    let deck = Deck::new();
    assert!(deck.cards.is_empty());
    assert_eq!(deck.joker_red, 0);
    assert_eq!(deck.joker_black, 0);
    assert!(!deck.is_well_formed());
}

#[test]
fn classic_deck_gives_the_published_keystream() {
    let mut deck = Deck::from_key(CLASSIC).unwrap();
    let drawn: Vec<u8> = (0..10).map(|_| deck.keystream()).collect();
    assert_eq!(drawn, vec![4, 49, 10, 24, 8, 51, 44, 6, 4, 33]);
}

#[test]
fn classic_deck_gives_the_published_ciphertext() {
    let mut deck = Deck::from_key(CLASSIC).unwrap();
    assert_eq!(deck.encrypt("AAAAA AAAAA"), "EXKYIZSGEH");
    let mut deck = Deck::from_key(CLASSIC).unwrap();
    assert_eq!(deck.decrypt("EXKYI ZSGEH"), "AAAAAAAAAA");
}

#[test]
fn default_deck_first_three_keystream_bytes() {
    let mut deck = Deck::default();
    assert_eq!(deck.keystream(), 6);
    assert_eq!(deck.keystream(), 49);
    assert_eq!(deck.keystream(), 14);
}

#[test]
fn keystream_leaves_the_deck_as_the_draw_arranged_it() {
    let mut deck = Deck::default();
    assert_eq!(deck.keystream(), 6);
    assert_eq!(
        deck.to_string(),
        "3C 4C 5C 6C 7C 8C 9C TC JC QC KC AD 2D 3D 4D 5D 6D 7D 8D 9D TD JD QD KD AH 2H 3H 4H 5H 6H 7H 8H 9H TH JH QH KH AS 2S 3S 4S 5S 6S 7S 8S 9S TS JS QS KS RJ BJ 2C AC "
    );
    assert_eq!(deck.joker_red, 50);
    assert_eq!(deck.joker_black, 51);
}

#[test]
fn shuffled_deck_keystream() {
    let mut deck = Deck::from_key(SHUFFLED).unwrap();
    let drawn: Vec<u8> = (0..15).map(|_| deck.keystream()).collect();
    assert_eq!(drawn, vec![21, 37, 49, 2, 13, 18, 11, 40, 20, 44, 36, 5, 44, 16, 14]);
}

#[test]
fn try_keystream_draws_what_keystream_draws() {
    let mut a = Deck::from_key(SHUFFLED).unwrap();
    let mut b = Deck::from_key(SHUFFLED).unwrap();
    for _ in 0..30 {
        assert_eq!(a.try_keystream(), Some(b.keystream()));
        assert_eq!(a, b);
    }
}

#[test]
fn same_key_gives_the_same_keystream() {
    let mut a = Deck::from_key(SHUFFLED).unwrap();
    let mut b = Deck::from_key(SHUFFLED).unwrap();
    assert_eq!(a.joker_red, b.joker_red);
    assert_eq!(a.joker_black, b.joker_black);
    for _ in 0..200 {
        let k = a.keystream();
        assert_eq!(k, b.keystream());
        assert!(1 <= k && k <= 52);
    }
}

#[test]
fn a_joker_as_output_card_is_passed_over() {
    let mut deck = Deck::from_key(CLASSIC).unwrap();
    assert_eq!(deck.keystream(), 4);
    assert_eq!(deck.keystream(), 49);
    assert_eq!(deck.keystream(), 10);
    cycle(&mut deck);
    assert_eq!(
        deck.to_string(),
        "3C QS 4C BJ 5C 6C 7C 8C 9C TC JC QC KC AD 2D 3D 4D 5D 6D 7D 8D 9D TD JD QD KD AH 2H 3H 4H 5H 6H 7H 8H 9H TH JH QH KH AS 2S 3S 4S 5S 6S 7S 8S 9S TS JS KS AC RJ 2C "
    );
    assert_eq!(deck.get_output_value(), Err(()));
    cycle(&mut deck);
    assert_eq!(deck.get_output_value(), Ok(24));
}

#[test]
fn output_card_is_counted_from_the_top_card() {
    let deck = Deck::default();
    assert_eq!(deck.get_output_value(), Ok(2));
    let deck = Deck::from_key(SHUFFLED).unwrap();
    // The top card is the nine of spades, number 48; the card 48 places on is the five of clubs.
    assert_eq!(deck.get_output_value(), Ok(5));
}

#[test]
fn a_joker_on_top_counts_as_53() {
    let key = "RJ 2C 3C 4C 5C 6C 7C 8C 9C TC JC QC KC AD 2D 3D 4D 5D 6D 7D 8D 9D TD JD QD KD AH 2H 3H 4H 5H 6H 7H 8H 9H TH JH QH KH AS 2S 3S 4S 5S 6S 7S 8S 9S TS JS QS KS BJ AC";
    let deck = Deck::from_key(key).unwrap();
    assert_eq!(deck.get_output_value(), Ok(1));
}

#[test]
fn encrypt_then_decrypt_do_not_use_pc() {
    let mut d = Deck::default();
    let mut d1 = Deck::default();
    let ct = d.encrypt("DO NOT USE PC");
    assert_eq!(ct, "JLBRTFYWRW");
    assert_eq!(d1.decrypt(ct.as_str()), "DONOTUSEPC");
}

#[test]
fn encrypt_folds_case_and_drops_what_is_no_letter() {
    let mut a = Deck::from_key(SHUFFLED).unwrap();
    let mut b = Deck::from_key(SHUFFLED).unwrap();
    let mut c = Deck::from_key(SHUFFLED).unwrap();
    let secret = a.encrypt("Hello, World! 123 solitaire");
    assert_eq!(secret, "CPINBOZFFVCTDYHIRUN");
    assert_eq!(b.encrypt("HELLOWORLDSOLITAIRE"), secret);
    assert_eq!(a, b);
    assert_eq!(c.decrypt(&secret), "HELLOWORLDSOLITAIRE");
    assert_eq!(a, c);
}

#[test]
fn decrypt_folds_case_and_drops_what_is_no_letter() {
    let mut a = Deck::from_key(SHUFFLED).unwrap();
    let mut b = Deck::from_key(SHUFFLED).unwrap();
    assert_eq!(a.decrypt("cpinb ozffv ctdyh irun."), "HELLOWORLDSOLITAIRE");
    assert_eq!(b.decrypt("CPINBOZFFVCTDYHIRUN"), "HELLOWORLDSOLITAIRE");
    assert_eq!(a, b);
}

#[test]
fn one_letter_is_shifted_by_one_key() {
    // The first key of the ordered deck is 6.
    assert_eq!(Deck::default().encrypt("A"), "G");
    assert_eq!(Deck::default().encrypt("Z"), "F");
    assert_eq!(Deck::default().encrypt("z"), "F");
    assert_eq!(Deck::default().decrypt("G"), "A");
    assert_eq!(Deck::default().decrypt("F"), "Z");
    // The second key is 49, which is 23 more than 26.
    assert_eq!(Deck::default().encrypt("az"), "GW");
    assert_eq!(Deck::default().decrypt("GW"), "AZ");
}

#[test]
fn empty_text_draws_nothing() {
    let mut deck = Deck::default();
    assert_eq!(deck.encrypt(""), "");
    assert_eq!(deck.encrypt(" 12 .. \u{e9}"), "");
    assert_eq!(deck.decrypt(""), "");
    assert_eq!(deck, Deck::default());
}

#[test]
fn try_encrypt_and_try_decrypt_agree_with_encrypt_and_decrypt() {
    let mut a = Deck::from_key(SHUFFLED).unwrap();
    let mut b = Deck::from_key(SHUFFLED).unwrap();
    let secret = a.try_encrypt("Attack at dawn").unwrap();
    assert_eq!(secret, b.encrypt("Attack at dawn"));
    assert_eq!(a, b);
    let mut c = Deck::from_key(SHUFFLED).unwrap();
    assert_eq!(c.try_decrypt(&secret), Some("ATTACKATDAWN".to_string()));
    assert_eq!(a, c);
}

#[test]
fn decrypt_inverts_encrypt_over_long_text() {
    let text = "the quick brown fox jumps over the lazy dog ".repeat(20);
    let mut a = Deck::from_key(SHUFFLED).unwrap();
    let mut b = Deck::from_key(SHUFFLED).unwrap();
    let secret = a.encrypt(&text);
    assert_eq!(secret.len(), 35 * 20);
    assert_eq!(b.decrypt(&secret), text.replace(' ', "").to_uppercase());
}

#[test]
fn invalid_token_is_an_error() {
    let key = ORDERED.replace("7H", "ZZ");
    assert_eq!(Deck::from_key(&key), Err(DeckError::InvalidCard("ZZ".to_string())));
}

#[test]
fn first_invalid_token_is_reported() {
    let key = ORDERED.replace("7H", "7X").replace("3C", "1C");
    assert_eq!(Deck::from_key(&key), Err(DeckError::InvalidCard("1C".to_string())));
    assert_eq!(Deck::from_key("AC 2C Q KS"), Err(DeckError::InvalidCard("Q".to_string())));
    assert_eq!(Deck::from_key("AC 2C3C KS"), Err(DeckError::InvalidCard("2C3C".to_string())));
}

#[test]
fn wrong_number_of_cards_is_an_error() {
    let short = ORDERED.replace(" RJ", "");
    assert_eq!(Deck::from_key(&short), Err(DeckError::WrongCardCount(53)));
    let long = format!("{} AC", ORDERED);
    assert_eq!(Deck::from_key(&long), Err(DeckError::WrongCardCount(55)));
    assert_eq!(Deck::from_key(""), Err(DeckError::WrongCardCount(0)));
    assert_eq!(Deck::from_key("  \n "), Err(DeckError::WrongCardCount(0)));
}

#[test]
fn missing_joker_is_an_error() {
    let key = ORDERED.replace("RJ", "AC");
    assert_eq!(Deck::from_key(&key), Err(DeckError::MissingJoker(Value::JokerRed)));
    let key = ORDERED.replace("BJ", "AC");
    assert_eq!(Deck::from_key(&key), Err(DeckError::MissingJoker(Value::JokerBlack)));
    let key = ORDERED.replace("BJ", "AC").replace("RJ", "2C");
    assert_eq!(Deck::from_key(&key), Err(DeckError::MissingJoker(Value::JokerRed)));
}

#[test]
fn duplicate_card_is_an_error() {
    let key = ORDERED.replace("7H", "2C");
    assert_eq!(
        Deck::from_key(&key),
        Err(DeckError::DuplicateCard(Card::parse("2C").unwrap()))
    );
    let key = ORDERED.replace("7H", "RJ").replace("KS", "AC");
    assert_eq!(
        Deck::from_key(&key),
        Err(DeckError::DuplicateCard(Card::parse("AC").unwrap()))
    );
}

#[test]
fn key_may_be_spaced_by_any_white_space() {
    let key = format!("\n\t{}\u{a0}\r\n", ORDERED.replace(' ', " \t\n\u{2003}"));
    assert_eq!(Deck::from_key(&key), Ok(Deck::default()));
}

#[test]
fn key_round_trip() {
    let mut deck = Deck::from_key(SHUFFLED).unwrap();
    assert_eq!(deck.to_string(), format!("{} ", SHUFFLED));
    for _ in 0..5 {
        deck.keystream();
        assert_eq!(Deck::from_key(&deck.to_string()), Ok(deck.clone()));
    }
}

#[test]
fn from_cards_checks_the_cards() {
    let cards: Vec<Card> = (1..=54).map(|n| Card::from_number(n).unwrap()).collect();
    assert_eq!(Deck::from_cards(cards.clone()), Ok(Deck::default()));
    let mut fewer = cards.clone();
    fewer.pop();
    assert_eq!(Deck::from_cards(fewer), Err(DeckError::WrongCardCount(53)));
    let mut twice = cards.clone();
    twice[10] = twice[3];
    assert_eq!(Deck::from_cards(twice), Err(DeckError::DuplicateCard(cards[3])));
    let mut no_black = cards.clone();
    no_black[52] = no_black[0];
    assert_eq!(Deck::from_cards(no_black), Err(DeckError::MissingJoker(Value::JokerBlack)));
}

#[test]
fn find_joker_scans_for_the_joker() {
    let mut deck = Deck::default();
    assert_eq!(deck.find_joker('R'), 53);
    assert_eq!(deck.find_joker('B'), 52);
    assert_eq!(deck.find_joker('x'), 52);
    assert_eq!(deck, Deck::default());
    let mut deck = Deck::from_key(SHUFFLED).unwrap();
    assert_eq!(deck.find_joker('R'), 28);
    assert_eq!(deck.find_joker('B'), 16);
}

#[test]
fn red_joker_moves_one_card_down() {
    let mut deck = Deck::from_key(SHUFFLED).unwrap();
    deck.move_joker_red();
    assert_eq!(
        deck.to_string(),
        "9S 4S AC QC 8H 8S JC TD 2D TH 7S 4D 7D 9C 2S QS BJ JH 5D 9D 4H KS KC QD 6S 2C 6D 3H 6H RJ 5H 8C 5S KH AS 3D TS AH 2H 6C 3C AD 7H JS QH JD 7C 9H 5C 4C 3S KD TC 8D "
    );
    assert_eq!(deck.joker_red, 29);
    assert_eq!(deck.joker_black, 16);
    let mut deck = Deck::from_key(CLASSIC).unwrap();
    deck.move_joker_red();
    assert_eq!(deck.to_string(), format!("{} ", ORDERED));
    assert_eq!(deck.joker_red, 53);
    assert_eq!(deck.joker_black, 52);
}

#[test]
fn red_joker_at_the_bottom_goes_below_the_top_card() {
    let mut deck = Deck::default();
    assert_eq!(deck.joker_red, 53);
    deck.move_joker_red();
    assert_eq!(
        deck.to_string(),
        "AC RJ 2C 3C 4C 5C 6C 7C 8C 9C TC JC QC KC AD 2D 3D 4D 5D 6D 7D 8D 9D TD JD QD KD AH 2H 3H 4H 5H 6H 7H 8H 9H TH JH QH KH AS 2S 3S 4S 5S 6S 7S 8S 9S TS JS QS KS BJ "
    );
    assert_eq!(deck.joker_red, 1);
    assert_eq!(deck.joker_black, 53);
    assert!(deck.is_well_formed());
}

#[test]
fn black_joker_moves_two_cards_down() {
    let mut deck = Deck::from_key(SHUFFLED).unwrap();
    deck.move_joker_black();
    assert_eq!(
        deck.to_string(),
        "9S 4S AC QC 8H 8S JC TD 2D TH 7S 4D 7D 9C 2S QS JH 5D BJ 9D 4H KS KC QD 6S 2C 6D 3H RJ 6H 5H 8C 5S KH AS 3D TS AH 2H 6C 3C AD 7H JS QH JD 7C 9H 5C 4C 3S KD TC 8D "
    );
    assert_eq!(deck.joker_black, 18);
    assert_eq!(deck.joker_red, 28);
}

#[test]
fn black_joker_above_the_bottom_goes_below_the_top_card() {
    let mut deck = Deck::default();
    assert_eq!(deck.joker_black, 52);
    deck.move_joker_black();
    assert_eq!(
        deck.to_string(),
        "AC BJ 2C 3C 4C 5C 6C 7C 8C 9C TC JC QC KC AD 2D 3D 4D 5D 6D 7D 8D 9D TD JD QD KD AH 2H 3H 4H 5H 6H 7H 8H 9H TH JH QH KH AS 2S 3S 4S 5S 6S 7S 8S 9S TS JS QS KS RJ "
    );
    assert_eq!(deck.joker_black, 1);
    assert_eq!(deck.joker_red, 53);
    assert!(deck.is_well_formed());
}

#[test]
fn black_joker_at_the_bottom_goes_below_the_second_card() {
    let mut deck = Deck::from_key(CLASSIC).unwrap();
    assert_eq!(deck.joker_black, 53);
    deck.move_joker_black();
    assert_eq!(
        deck.to_string(),
        "AC 2C BJ 3C 4C 5C 6C 7C 8C 9C TC JC QC KC AD 2D 3D 4D 5D 6D 7D 8D 9D TD JD QD KD AH 2H 3H 4H 5H 6H 7H 8H 9H TH JH QH KH AS 2S 3S 4S 5S 6S 7S 8S 9S TS JS QS KS RJ "
    );
    assert_eq!(deck.joker_black, 2);
    assert_eq!(deck.joker_red, 53);
    assert!(deck.is_well_formed());
}

#[test]
fn black_joker_third_from_the_bottom_goes_to_the_bottom() {
    let key = ORDERED.replace("BJ", "xx").replace("KS", "BJ").replace("xx", "KS");
    let mut deck = Deck::from_key(&key).unwrap();
    assert_eq!(deck.joker_black, 51);
    deck.move_joker_black();
    assert_eq!(deck.joker_black, 53);
    assert_eq!(deck.joker_red, 52);
    assert!(deck.is_well_formed());
}

#[test]
fn joker_moves_keep_the_places_in_the_deck() {
    let mut deck = Deck::from_key(SHUFFLED).unwrap();
    for _ in 0..300 {
        deck.move_joker_red();
        assert!(deck.joker_red <= 53 && deck.joker_black <= 53);
        deck.move_joker_black();
        assert!(deck.joker_red <= 53 && deck.joker_black <= 53);
        assert!(deck.is_well_formed());
    }
}

#[test]
fn triple_cut_swaps_the_ends() {
    let mut deck = Deck::from_key(SHUFFLED).unwrap();
    deck.triple_cut();
    assert_eq!(
        deck.to_string(),
        "6H 5H 8C 5S KH AS 3D TS AH 2H 6C 3C AD 7H JS QH JD 7C 9H 5C 4C 3S KD TC 8D BJ JH 5D 9D 4H KS KC QD 6S 2C 6D 3H RJ 9S 4S AC QC 8H 8S JC TD 2D TH 7S 4D 7D 9C 2S QS "
    );
    assert_eq!(deck.joker_black, 25);
    assert_eq!(deck.joker_red, 37);
    assert_eq!(sorted_numbers(&deck), (1..=54).collect::<Vec<usize>>());
}

#[test]
fn triple_cut_with_jokers_at_the_ends_changes_nothing() {
    let key = ORDERED.replace("AC", "xx").replace("BJ", "AC").replace("xx", "BJ");
    let mut deck = Deck::from_key(&key).unwrap();
    let before = deck.clone();
    deck.triple_cut();
    assert_eq!(deck, before);
}

#[test]
fn triple_cut_with_jokers_at_the_bottom_moves_them_to_the_top() {
    let mut deck = Deck::default();
    deck.triple_cut();
    assert_eq!(deck.to_string(), format!("BJ RJ {} ", ORDERED.replace(" BJ RJ", "")));
    assert_eq!(deck.joker_black, 0);
    assert_eq!(deck.joker_red, 1);
}

#[test]
fn count_cut_cuts_by_the_bottom_card() {
    let mut deck = Deck::from_key(SHUFFLED).unwrap();
    deck.count_cut();
    assert_eq!(
        deck.to_string(),
        "KS KC QD 6S 2C 6D 3H RJ 6H 5H 8C 5S KH AS 3D TS AH 2H 6C 3C AD 7H JS QH JD 7C 9H 5C 4C 3S KD TC 9S 4S AC QC 8H 8S JC TD 2D TH 7S 4D 7D 9C 2S QS BJ JH 5D 9D 4H 8D "
    );
    assert_eq!(deck.joker_red, 7);
    assert_eq!(deck.joker_black, 48);
    assert_eq!(sorted_numbers(&deck), (1..=54).collect::<Vec<usize>>());
}

#[test]
fn count_cut_with_a_joker_at_the_bottom_changes_nothing() {
    let mut deck = Deck::default();
    deck.count_cut();
    assert_eq!(deck, Deck::default());
    let mut deck = Deck::from_key(CLASSIC).unwrap();
    let before = deck.clone();
    deck.count_cut();
    assert_eq!(deck, before);
}

#[test]
fn cuts_keep_the_cards() {
    let mut deck = Deck::from_key(SHUFFLED).unwrap();
    for _ in 0..100 {
        deck.move_joker_red();
        deck.move_joker_black();
        let bottom = deck.cards[53];
        deck.triple_cut();
        assert_eq!(sorted_numbers(&deck), (1..=54).collect::<Vec<usize>>());
        assert!(deck.is_well_formed());
        let bottom_before_count_cut = deck.cards[53];
        deck.count_cut();
        assert_eq!(deck.cards[53], bottom_before_count_cut);
        assert_eq!(sorted_numbers(&deck), (1..=54).collect::<Vec<usize>>());
        assert!(deck.is_well_formed());
        let _ = bottom;
    }
}

#[test]
fn is_well_formed_tells_a_broken_deck() {
    let mut deck = Deck::default();
    deck.joker_red = 52;
    assert!(!deck.is_well_formed());
    let mut deck = Deck::default();
    deck.joker_black = 54;
    assert!(!deck.is_well_formed());
    let mut deck = Deck::default();
    deck.cards[7] = deck.cards[8];
    assert!(!deck.is_well_formed());
    let mut deck = Deck::default();
    deck.cards.pop();
    assert!(!deck.is_well_formed());
    let mut deck = Deck::default();
    deck.cards.swap(52, 53);
    assert!(!deck.is_well_formed());
    deck.joker_red = 52;
    deck.joker_black = 53;
    assert!(deck.is_well_formed());
}

#[test]
fn every_card_reads_back_from_its_notation() {
    let tokens: Vec<&str> = ORDERED.split(' ').collect();
    assert_eq!(tokens.len(), 54);
    for (i, token) in tokens.iter().enumerate() {
        let card = Card::parse(token).unwrap();
        assert_eq!(usize::from(card), i + 1);
        assert_eq!(card.to_string(), *token);
        assert_eq!(Card::from_number(i + 1), Some(card));
        assert!(card.is_valid());
    }
}

#[test]
fn card_numbers_follow_the_suits() {
    assert_eq!(usize::from(Card::parse("AC").unwrap()), 1);
    assert_eq!(usize::from(Card::parse("KC").unwrap()), 13);
    assert_eq!(usize::from(Card::parse("AD").unwrap()), 14);
    assert_eq!(usize::from(Card::parse("KD").unwrap()), 26);
    assert_eq!(usize::from(Card::parse("AH").unwrap()), 27);
    assert_eq!(usize::from(Card::parse("KH").unwrap()), 39);
    assert_eq!(usize::from(Card::parse("AS").unwrap()), 40);
    assert_eq!(usize::from(Card::parse("KS").unwrap()), 52);
    assert_eq!(usize::from(Card::parse("BJ").unwrap()), 53);
    assert_eq!(usize::from(Card::parse("RJ").unwrap()), 54);
}

#[test]
fn card_has_rank_and_suit() {
    let card = Card::parse("TD").unwrap();
    assert_eq!(card.value(), Value::Ten);
    assert_eq!(card.suit(), Suit::Diamonds);
    let card = Card::parse("RJ").unwrap();
    assert_eq!(card.value(), Value::JokerRed);
    assert_eq!(card.suit(), Suit::Joker);
}

#[test]
fn from_number_takes_1_to_54() {
    assert_eq!(Card::from_number(0), None);
    assert_eq!(Card::from_number(55), None);
    assert_eq!(Card::from_number(usize::MAX), None);
    assert_eq!(Card::from_number(53), Some(Card::parse("BJ").unwrap()));
    assert_eq!(Card::from_number(54), Some(Card::parse("RJ").unwrap()));
    assert_eq!(Card::from_number(14), Some(Card::parse("AD").unwrap()));
}

#[test]
fn what_is_no_card_is_an_error_with_the_token() {
    for token in ["ZZ", "", "A", "ACx", "AJ", "BC", "RS", "ac", "1C", "AX", " AC", "JJ", "CA"] {
        assert_eq!(Card::parse(token), Err(DeckError::InvalidCard(token.to_string())));
    }
    assert_eq!(Card::from_symbols(&vec!['Z', 'Z']), None);
    assert_eq!(Card::from_symbols(&vec!['Q', 'H']), Some(Card::parse("QH").unwrap()));
}

#[test]
fn rank_characters() {
    let ranks = [
        ('A', Value::Ace, 1),
        ('2', Value::Two, 2),
        ('3', Value::Three, 3),
        ('4', Value::Four, 4),
        ('5', Value::Five, 5),
        ('6', Value::Six, 6),
        ('7', Value::Seven, 7),
        ('8', Value::Eight, 8),
        ('9', Value::Nine, 9),
        ('T', Value::Ten, 10),
        ('J', Value::Jack, 11),
        ('Q', Value::Queen, 12),
        ('K', Value::King, 13),
        ('B', Value::JokerBlack, 53),
        ('R', Value::JokerRed, 54),
    ];
    for (symbol, value, number) in ranks {
        assert_eq!(Value::from_char(symbol), Some(value));
        assert_eq!(value.to_char(), symbol);
        assert_eq!(usize::from(value), number);
    }
    assert_eq!(Value::from_char('Z'), None);
    assert_eq!(Value::from_char('1'), None);
    assert_eq!(Value::from_char('a'), None);
}

#[test]
fn suit_characters() {
    let suits = [
        ('C', Suit::Clubs, 0),
        ('D', Suit::Diamonds, 13),
        ('H', Suit::Hearts, 26),
        ('S', Suit::Spades, 39),
        ('J', Suit::Joker, 0),
    ];
    for (symbol, suit, offset) in suits {
        assert_eq!(Suit::from_char(symbol), Some(suit));
        assert_eq!(suit.to_char(), symbol);
        assert_eq!(usize::from(suit), offset);
    }
    assert_eq!(Suit::from_char('Z'), None);
    assert_eq!(Suit::from_char('c'), None);
}

#[test]
fn tokens_end_at_white_space_and_nowhere_else() {
    for code in 0..=0x10FFFFu32 {
        let c = match char::from_u32(code) {
            Some(c) => c,
            None => continue,
        };
        let key = format!("AC{}2C", c);
        if c.is_whitespace() {
            assert_eq!(Deck::from_key(&key), Err(DeckError::WrongCardCount(2)));
        } else {
            assert_eq!(Deck::from_key(&key), Err(DeckError::InvalidCard(key.clone())));
        }
    }
}
