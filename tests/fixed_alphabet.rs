use hachi64::{decode, encode, HachiError};

#[test]
fn test_encode_hachi64_examples() {
    assert_eq!(encode(b"Hello"), "豆米啊拢嘎米多=");
    assert_eq!(encode(b"abc"), "西阿南呀");
    assert_eq!(encode(b"Python"), "抖咪酷丁息米都慢");
    assert_eq!(encode(b"Hello, World!"), "豆米啊拢嘎米多拢迷集伽漫咖苦播库迷律==");
    assert_eq!(encode(b"Base64"), "律苦集叮希斗西丁");
    assert_eq!(encode(b"Hachi64"), "豆米集呀息米库咚背哈==");
}

#[test]
fn test_decode_hachi64_examples() {
    assert_eq!(decode("豆米啊拢嘎米多=").unwrap(), b"Hello");
    assert_eq!(decode("西阿南呀").unwrap(), b"abc");
    assert_eq!(decode("抖咪酷丁息米都慢").unwrap(), b"Python");
    assert_eq!(decode("豆米啊拢嘎米多拢迷集伽漫咖苦播库迷律==").unwrap(), b"Hello, World!");
    assert_eq!(decode("律苦集叮希斗西丁").unwrap(), b"Base64");
    assert_eq!(decode("豆米集呀息米库咚背哈==").unwrap(), b"Hachi64");
}

#[test]
fn test_encode_edge_cases() {
    assert_eq!(encode(b""), "");
    assert_eq!(encode(b"a"), "西律==");
    assert_eq!(encode(b"ab"), "西阿迷=");
}

#[test]
fn test_decode_edge_cases() {
    assert_eq!(decode("").unwrap(), b"");
    assert_eq!(decode("西律==").unwrap(), b"a");
    assert_eq!(decode("西阿南=").unwrap(), b"ab");
}

#[test]
fn test_decode_invalid_input() {
    assert_eq!(decode("ABC"), Err(HachiError::InvalidInput));
    assert_eq!(decode("哈哈哈X"), Err(HachiError::InvalidInput));
}

#[test]
fn test_roundtrip() {
    let test_data = b"The quick brown fox jumps over the lazy dog";

    let encoded = encode(test_data);
    let decoded = decode(&encoded).unwrap();

    assert_eq!(decoded, test_data);
}

#[test]
fn test_binary_data() {
    let binary_data: Vec<u8> = (0..=255).collect();

    let encoded = encode(&binary_data);
    let decoded = decode(&encoded).unwrap();

    assert_eq!(decoded, binary_data);
}

#[test]
fn padded_lengths_are_multiples_of_four() {
    for n in 0..20usize {
        let data: Vec<u8> = (0..n).map(|i| (i * 37) as u8).collect();
        let expected = (n + 2) / 3 * 4;
        assert_eq!(encode(&data).chars().count(), expected);
    }
}

#[test]
fn pad_inside_text_is_rejected() {
    assert_eq!(decode("西=律="), Err(HachiError::InvalidInput));
}

#[test]
fn misaligned_padding_is_rejected() {
    assert_eq!(decode("西律="), Err(HachiError::InvalidInput));
}
