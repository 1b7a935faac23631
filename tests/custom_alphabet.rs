use hachi64::{Codec, HachiError, HACHI_ALPHABET};

const STANDARD: &str = "ABCDEFGHIJKLMNOPQRSTUVWXYZabcdefghijklmnopqrstuvwxyz0123456789+/";

fn standard(padding: bool) -> Codec {
    Codec::new(STANDARD, padding).unwrap()
}

#[test]
fn standard_vectors_with_padding() {
    let c = standard(true);
    assert_eq!(c.encode(b"Hello, World!"), "SGVsbG8sIFdvcmxkIQ==");
    assert_eq!(c.encode(b"a"), "YQ==");
    assert_eq!(c.encode(b"ab"), "YWI=");
    assert_eq!(c.encode(b"abc"), "YWJj");
    assert_eq!(c.encode(b""), "");
}

#[test]
fn standard_vectors_without_padding() {
    let c = standard(false);
    assert_eq!(c.encode(b"a"), "YQ");
    assert_eq!(c.encode(b"ab"), "YWI");
    assert_eq!(c.encode(b"abc"), "YWJj");
}

#[test]
fn standard_decoding() {
    let c = standard(true);
    assert_eq!(c.decode("SGVsbG8sIFdvcmxkIQ==").unwrap(), b"Hello, World!");
    assert_eq!(c.decode("YQ==").unwrap(), b"a");
    assert_eq!(c.decode("YWI=").unwrap(), b"ab");
    assert_eq!(c.decode("").unwrap(), b"");
    let u = standard(false);
    assert_eq!(u.decode("YQ").unwrap(), b"a");
    assert_eq!(u.decode("YWI").unwrap(), b"ab");
}

#[test]
fn one_pad_removed_is_rejected() {
    let c = standard(true);
    assert_eq!(c.decode("SGVsbG8sIFdvcmxkIQ="), Err(HachiError::InvalidInput));
}

#[test]
fn foreign_symbols_are_rejected() {
    let c = standard(true);
    assert_eq!(c.decode("YW*j"), Err(HachiError::InvalidInput));
    assert_eq!(c.decode("Y=Jj"), Err(HachiError::InvalidInput));
    let u = standard(false);
    assert_eq!(u.decode("YQ=="), Err(HachiError::InvalidInput));
}

#[test]
fn alphabet_of_wrong_length_is_rejected() {
    assert_eq!(Codec::new(&STANDARD[..63], true).err(), Some(HachiError::InvalidAlphabetLength));
    assert_eq!(Codec::new("", true).err(), Some(HachiError::InvalidAlphabetLength));
    let long = format!("{}=", STANDARD);
    assert_eq!(Codec::new(&long, false).err(), Some(HachiError::InvalidAlphabetLength));
}

#[test]
fn alphabet_with_duplicate_is_rejected() {
    let dup = format!("{}A", &STANDARD[..63]);
    assert_eq!(Codec::new(&dup, true).err(), Some(HachiError::InvalidAlphabetChars));
}

#[test]
fn multi_byte_alphabet_is_accepted_and_round_trips() {
    let c = Codec::new(HACHI_ALPHABET, true).unwrap();
    let e = c.encode(b"Hello");
    assert_eq!(e, "豆米啊拢嘎米多=");
    assert_eq!(c.decode(&e).unwrap(), b"Hello");
    let u = Codec::new(HACHI_ALPHABET, false).unwrap();
    let e = u.encode(b"Hello");
    assert_eq!(e, "豆米啊拢嘎米多");
    assert_eq!(u.decode(&e).unwrap(), b"Hello");
}

#[test]
fn round_trip_every_length_and_setting() {
    for padding in [true, false] {
        let c = standard(padding);
        for n in 0..40usize {
            let data: Vec<u8> = (0..n).map(|i| (i * 97 + 13) as u8).collect();
            let e = c.encode(&data);
            assert_eq!(c.decode(&e).unwrap(), data);
        }
    }
}

#[test]
fn unpadded_lengths() {
    let c = standard(false);
    for n in 0..20usize {
        let data: Vec<u8> = vec![0xA5; n];
        let e = c.encode(&data);
        assert_eq!(e.chars().count(), (4 * n + 2) / 3);
        assert!(!e.contains('='));
    }
}

#[test]
fn decode_exact_bytes() {
    let c = standard(true);
    assert_eq!(c.decode("ABA=").unwrap(), vec![0x00, 0x10]);
    assert_eq!(c.encode(&[0x00, 0x10]), "ABA=");
    assert_eq!(c.encode(&[0xFF, 0xFF, 0xFF]), "////");
}
