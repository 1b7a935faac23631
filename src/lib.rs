//! Base64-style codec over a substitutable alphabet of 64 symbols.
//!
//! The bit packing is the classic one: three bytes become four 6-bit
//! indices, each written as the symbol at that position of the alphabet,
//! with `=` as the optional pad symbol.
use vstd::prelude::*;

pub mod error;
pub mod model;
pub mod codec;
pub mod lemmas;

pub use error::HachiError;
pub use codec::Codec;
use codec::{decode_with, encode_with, symbols_of};
use model::{decode_ok, decoded, encoded, valid_alphabet, PAD};
use lemmas::lemma_round_trip;

verus! {

/// The fixed alphabet: 64 Chinese characters, grouped by sound.
pub const HACHI_ALPHABET: &'static str = "哈蛤呵吉急集米咪迷南男难北背杯绿律虑豆斗抖啊阿额西希息嘎咖伽花华哗压鸭呀库酷苦奶乃耐龙隆拢曼慢漫波播玻叮丁订咚东冬囊路陆多都弥济";

/// The fixed alphabet holds 64 distinct symbols.
pub proof fn lemma_hachi_alphabet_valid()
    ensures
        valid_alphabet(HACHI_ALPHABET@),
        !HACHI_ALPHABET@.contains(PAD),
{
    reveal_strlit("哈蛤呵吉急集米咪迷南男难北背杯绿律虑豆斗抖啊阿额西希息嘎咖伽花华哗压鸭呀库酷苦奶乃耐龙隆拢曼慢漫波播玻叮丁订咚东冬囊路陆多都弥济");
}

/// The symbols of the fixed alphabet, in order.
fn get_alphabet() -> (r: Vec<char>)
    ensures
        r@ == HACHI_ALPHABET@,
        valid_alphabet(r@),
{
    proof {
        lemma_hachi_alphabet_valid();
    }
    symbols_of(HACHI_ALPHABET)
}

/// Writes `data` over the fixed alphabet, with padding.
pub fn encode(data: &[u8]) -> (r: String)
    ensures
        r@ == encoded(HACHI_ALPHABET@, data@, true),
{
    let alphabet = get_alphabet();
    encode_with(&alphabet, true, data)
}

/// Reads back the bytes that `encoded_str` stands for over the fixed
/// alphabet, with padding.
pub fn decode(encoded_str: &str) -> (r: Result<Vec<u8>, HachiError>)
    ensures
        r is Ok <==> decode_ok(HACHI_ALPHABET@, encoded_str@, true),
        r is Ok ==> r->Ok_0@ == decoded(HACHI_ALPHABET@, encoded_str@, true),
        r is Err ==> r->Err_0 == HachiError::InvalidInput,
{
    let alphabet = get_alphabet();
    decode_with(&alphabet, true, encoded_str)
}

/// Round trip of the fixed-alphabet pair: `decode(encode(x))` gives `x`
/// back for every byte sequence `x`.
pub proof fn lemma_fixed_round_trip(d: Seq<u8>)
    ensures
        decode_ok(HACHI_ALPHABET@, encoded(HACHI_ALPHABET@, d, true), true),
        decoded(HACHI_ALPHABET@, encoded(HACHI_ALPHABET@, d, true), true) == d,
{
    lemma_hachi_alphabet_valid();
    lemma_round_trip(HACHI_ALPHABET@, d, true);
}

} // verus!
