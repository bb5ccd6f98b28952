use cryptorusticon::bbs::BbsError;
use cryptorusticon::bbs::Natural;
use cryptorusticon::bbs::BBS;

fn natural(bytes: &[u8]) -> Natural {
    Natural::from_be_bytes(bytes.to_vec())
}

#[test]
fn test_generate_u8() {
    let mut bbs = BBS::default();
    let result = bbs.generate_u8();

    assert_eq!(result, 1);
}

#[test]
fn test_generate_u16() {
    let mut bbs = BBS::default();
    let result = bbs.generate_u16();

    assert_eq!(result, 289);
}

#[test]
fn test_generate_u32() {
    let mut bbs = BBS::default();
    let result = bbs.generate_u32();

    assert_eq!(result, 18990369);
}

#[test]
fn test_generate_u64() {
    let mut bbs = BBS::default();
    let result = bbs.generate_u64();

    assert_eq!(result, 81563015645684253);
}

#[test]
fn test_generate_u128() {
    let mut bbs = BBS::default();
    let result = bbs.generate_u128();

    assert_eq!(result, 1504572075495905439180798159389866542);
}

#[test]
fn test_next() {
    let mut bbs = BBS::default();
    assert_eq!(bbs.next(), false);
    assert_eq!(bbs.next(), false);
}

#[test]
fn test_get_n_bits() {
    let mut bbs = BBS::default();
    let bit_string = bbs.get_n_bits(8);
    assert_eq!(bit_string.len(), 8);

    let mut bbs = BBS::default();
    let bit_string = bbs.get_n_bits(100);
    assert_eq!(bit_string.len(), 100);
}

#[test]
fn default_generator_bits() {
    let mut bbs = BBS::default();
    assert_eq!(bbs.get_n_bits(16), "0000000100100001");
    assert_eq!(BBS::default().get_n_bits(0), "");
}

#[test]
fn default_generator_moduli() {
    let bbs = BBS::default();
    assert_eq!(
        bbs.get_p().bytes,
        vec![
            179, 180, 26, 106, 222, 79, 20, 174, 146, 42, 8, 149, 128, 53, 247, 184, 152, 203,
            107, 134, 24, 92, 123, 151, 220, 74, 180, 131, 204, 177, 74, 63
        ]
    );
    assert_eq!(
        bbs.get_q().bytes,
        vec![
            145, 127, 123, 242, 240, 141, 232, 95, 36, 10, 40, 41, 129, 54, 152, 133, 109, 25,
            210, 120, 66, 179, 45, 185, 87, 3, 209, 48, 178, 19, 135, 31
        ]
    );
}

#[test]
fn default_generator_is_what_new_makes_of_its_numerals() {
    let mut made = BBS::new(
        b"81282214694636016670763621761800109247752388157581129517313895767689154087487",
        b"65810608086241557256723687330212888597389852144534660261023144057762936489759",
        b"42",
    )
    .ok()
    .unwrap();
    let mut default = BBS::default();
    assert_eq!(made.get_p(), default.get_p());
    assert_eq!(made.get_q(), default.get_q());
    assert_eq!(made.generate_u128(), default.generate_u128());
}

#[test]
fn small_generator_squares_its_state() {
    // 3, 9, 4, 16, 25, ... modulo 77: the bits are those of 9, 4, 16, 25, ...
    let mut bbs = BBS::new(b"7", b"11", b"3").ok().unwrap();
    assert_eq!(bbs.get_p(), &natural(&[7]));
    assert_eq!(bbs.get_q(), &natural(&[11]));
    assert_eq!(bbs.next(), true);
    assert_eq!(bbs.next(), false);
    assert_eq!(bbs.next(), false);
    assert_eq!(bbs.next(), true);
    let mut bbs = BBS::new(b"7", b"11", b"3").ok().unwrap();
    assert_eq!(bbs.get_n_bits(16), "1001100110011001");
    let mut bbs = BBS::new(b"7", b"11", b"3").ok().unwrap();
    assert_eq!(bbs.generate_u8(), 153);
    assert_eq!(bbs.generate_u8(), 153);
    let mut bbs = BBS::new(b"7", b"11", b"3").ok().unwrap();
    assert_eq!(bbs.generate_u16(), 39321);
}

#[test]
fn generator_from_larger_primes() {
    let mut bbs = BBS::new(b"30000000091", b"40000000003", b"9276869236").ok().unwrap();
    assert_eq!(bbs.get_p(), &natural(&[6, 252, 35, 172, 91]));
    assert_eq!(bbs.generate_u16(), 25645);
    let mut bbs = BBS::new(b"30000000091", b"40000000003", b"9276869236").ok().unwrap();
    assert_eq!(bbs.generate_u32(), 1680704080);
}

#[test]
fn numerals_may_hold_a_sign_and_underscores() {
    let mut bbs = BBS::new(b"+7", b"1_1", b"0_3").ok().unwrap();
    assert_eq!(bbs.get_p(), &natural(&[7]));
    assert_eq!(bbs.get_q(), &natural(&[11]));
    assert_eq!(bbs.generate_u8(), 153);
}

#[test]
fn what_is_no_numeral_is_an_error() {
    assert_eq!(
        BBS::new(b"12x", b"11", b"3").err(),
        Some(vec![BbsError::NotANumber(b"12x".to_vec())])
    );
    assert_eq!(BBS::new(b"7", b"", b"3").err(), Some(vec![BbsError::NotANumber(vec![])]));
    assert_eq!(
        BBS::new(b"7", b"11", b"_3").err(),
        Some(vec![BbsError::NotANumber(b"_3".to_vec())])
    );
    assert_eq!(
        BBS::new(b"++7", b"-11", b"3").err(),
        Some(vec![BbsError::NotANumber(b"++7".to_vec())])
    );
    assert_eq!(
        BBS::new(b"7", b"-11", b"x").err(),
        Some(vec![BbsError::NotANumber(b"-11".to_vec())])
    );
}

#[test]
fn modulus_must_leave_three_on_division_by_four() {
    assert_eq!(
        BBS::new(b"13", b"11", b"3").err(),
        Some(vec![BbsError::NotThreeModFour(natural(&[13]))])
    );
    assert_eq!(
        BBS::new(b"7", b"17", b"3").err(),
        Some(vec![BbsError::NotThreeModFour(natural(&[17]))])
    );
    assert_eq!(
        BBS::new(b"0", b"257", b"3").err(),
        Some(vec![
            BbsError::NotThreeModFour(natural(&[0])),
            BbsError::NotThreeModFour(natural(&[1, 1])),
        ])
    );
}

#[test]
fn modulus_must_be_prime() {
    assert_eq!(
        BBS::new(b"15", b"11", b"2").err(),
        Some(vec![BbsError::NotPrime(natural(&[15]))])
    );
    assert_eq!(
        BBS::new(b"13", b"35", b"2").err(),
        Some(vec![
            BbsError::NotThreeModFour(natural(&[13])),
            BbsError::NotPrime(natural(&[35])),
        ])
    );
}

#[test]
fn seed_must_be_coprime_with_the_product() {
    assert_eq!(
        BBS::new(b"7", b"11", b"14").err(),
        Some(vec![BbsError::NotCoprime(natural(&[14]), natural(&[77]))])
    );
    assert_eq!(
        BBS::new(b"7", b"11", b"0").err(),
        Some(vec![BbsError::NotCoprime(natural(&[0]), natural(&[77]))])
    );
    assert!(BBS::new(b"7", b"11", b"1").is_ok());
    assert!(BBS::new(b"7", b"11", b"78").is_ok());
}

#[test]
fn from_parts_goes_by_the_outcome_it_is_given() {
    assert!(BBS::from_parts(natural(&[7]), natural(&[11]), natural(&[3]), true, true).is_ok());
    assert_eq!(
        BBS::from_parts(natural(&[7]), natural(&[11]), natural(&[3]), true, false).err(),
        Some(vec![BbsError::NotPrime(natural(&[11]))])
    );
    assert_eq!(
        BBS::from_parts(natural(&[7]), natural(&[11]), natural(&[3]), false, false).err(),
        Some(vec![BbsError::NotPrime(natural(&[7])), BbsError::NotPrime(natural(&[11]))])
    );
    assert_eq!(
        BBS::from_parts(natural(&[9]), natural(&[11]), natural(&[3]), false, true).err(),
        Some(vec![BbsError::NotThreeModFour(natural(&[9]))])
    );
    assert_eq!(
        BBS::from_parts(natural(&[7]), natural(&[11]), natural(&[22]), true, true).err(),
        Some(vec![BbsError::NotCoprime(natural(&[22]), natural(&[77]))])
    );
    let mut bbs =
        BBS::from_parts(natural(&[0, 7]), natural(&[11]), natural(&[3]), true, true).ok().unwrap();
    assert_eq!(bbs.generate_u8(), 153);
}

#[test]
fn check_validity_judges_one_modulus() {
    assert_eq!(BBS::check_validity(&natural(&[7]), true), Ok(true));
    assert_eq!(
        BBS::check_validity(&natural(&[7]), false),
        Err(BbsError::NotPrime(natural(&[7])))
    );
    assert_eq!(
        BBS::check_validity(&natural(&[8]), true),
        Err(BbsError::NotThreeModFour(natural(&[8])))
    );
    assert_eq!(
        BBS::check_validity(&natural(&[1, 0]), false),
        Err(BbsError::NotThreeModFour(natural(&[1, 0])))
    );
    assert_eq!(BBS::check_validity(&natural(&[1, 3]), true), Ok(true));
}

#[test]
fn check_primes_validity_lists_what_is_wrong() {
    assert_eq!(BBS::check_primes_validity(&natural(&[7]), &natural(&[11]), true, true), vec![]);
    assert_eq!(
        BBS::check_primes_validity(&natural(&[5]), &natural(&[11]), true, false),
        vec![BbsError::NotThreeModFour(natural(&[5])), BbsError::NotPrime(natural(&[11]))]
    );
}

#[test]
fn too_few_bits_is_an_error() {
    assert_eq!(BBS::with_random_primes(255, 2101).err(), Some(BbsError::TooFewBits(255)));
    assert_eq!(BBS::with_random_primes(0, 1).err(), Some(BbsError::TooFewBits(0)));
    assert_eq!(BBS::with_full_random(255).err(), Some(BbsError::TooFewBits(255)));
    assert_eq!(BBS::with_full_random(8).err(), Some(BbsError::TooFewBits(8)));
}

#[test]
fn random_primes_leave_three_on_division_by_four() {
    let mut bbs = BBS::with_random_primes(256, 2101).ok().unwrap();
    assert_eq!(bbs.get_p().bytes.last().unwrap() % 4, 3);
    assert_eq!(bbs.get_q().bytes.last().unwrap() % 4, 3);
    assert!(bbs.get_p().bytes.len() <= 32);
    assert!(bbs.get_q().bytes.len() <= 32);
    assert_eq!(bbs.get_n_bits(64).len(), 64);
}

#[test]
fn full_random_generator_puts_out_bits() {
    let mut bbs = BBS::with_full_random(256).ok().unwrap();
    assert_eq!(bbs.get_p().bytes.last().unwrap() % 4, 3);
    assert_eq!(bbs.get_q().bytes.last().unwrap() % 4, 3);
    let bits = bbs.get_n_bits(32);
    assert_eq!(bits.len(), 32);
    assert!(bits.chars().all(|c| c == '0' || c == '1'));
}

#[test]
fn natural_is_u8() {
    assert!(natural(&[]).is_u8(0));
    assert!(natural(&[0, 0]).is_u8(0));
    assert!(natural(&[0, 0, 7]).is_u8(7));
    assert!(natural(&[255]).is_u8(255));
    assert!(!natural(&[1, 7]).is_u8(7));
    assert!(!natural(&[7]).is_u8(8));
    assert!(!natural(&[]).is_u8(1));
    assert_eq!(natural(&[1, 2, 3]).clone(), natural(&[1, 2, 3]));
}
