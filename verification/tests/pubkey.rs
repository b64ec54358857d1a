use enostr::error::{Error, HexError};
use enostr::Pubkey;

fn sample() -> [u8; 32] {
    let mut b = [0u8; 32];
    for (i, x) in b.iter_mut().enumerate() {
        *x = (i as u8).wrapping_mul(37).wrapping_add(5);
    }
    b
}

#[test]
fn bytes_of_new_key() {
    let b = sample();
    let k = Pubkey::new(&b);
    assert_eq!(k.bytes(), &b);
}

#[test]
fn hex_is_lower_case_pairs() {
    let mut b = [0u8; 32];
    b[0] = 0xab;
    b[1] = 0x01;
    b[31] = 0xf0;
    let h = Pubkey::new(&b).hex();
    assert_eq!(h.len(), 64);
    assert!(h.starts_with("ab01"));
    assert!(h.ends_with("f0"));
    assert_eq!(&h[4..62], "0".repeat(58));
}

#[test]
fn hex_round_trip() {
    let k = Pubkey::new(&sample());
    let back = Pubkey::from_hex(&k.hex()).unwrap();
    assert!(back == k);
}

#[test]
fn from_hex_accepts_upper_case() {
    let k = Pubkey::new(&sample());
    let upper = k.hex().to_uppercase();
    assert!(Pubkey::from_hex(&upper).unwrap() == k);
}

#[test]
fn from_hex_odd_length() {
    match Pubkey::from_hex("abc") {
        Err(Error::HexError(HexError::OddLength)) => {}
        other => panic!("unexpected {:?}", other),
    }
}

#[test]
fn from_hex_first_invalid_character() {
    let mut s = "00".repeat(32);
    s.replace_range(10..11, "g");
    s.replace_range(20..21, "z");
    match Pubkey::from_hex(&s) {
        Err(Error::HexError(HexError::InvalidHexCharacter { c, index })) => {
            assert_eq!(c, 'g');
            assert_eq!(index, 10);
        }
        other => panic!("unexpected {:?}", other),
    }
}

#[test]
fn from_hex_odd_length_before_invalid_character() {
    match Pubkey::from_hex("zzz") {
        Err(Error::HexError(HexError::OddLength)) => {}
        other => panic!("unexpected {:?}", other),
    }
}

#[test]
fn from_hex_wrong_length() {
    match Pubkey::from_hex(&"ab".repeat(31)) {
        Err(Error::TryFromSliceError) => {}
        other => panic!("unexpected {:?}", other),
    }
    match Pubkey::from_hex("") {
        Err(Error::TryFromSliceError) => {}
        other => panic!("unexpected {:?}", other),
    }
}

#[test]
fn keys_differ_by_one_byte() {
    let a = sample();
    let mut b = sample();
    b[17] ^= 1;
    assert!(Pubkey::new(&a) != Pubkey::new(&b));
    assert!(Pubkey::new(&a) == Pubkey::new(&a));
}
