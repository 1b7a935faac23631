//! The executable codec: the forward transform, its inverse, and the
//! alphabet and reverse lookup they share.
use vstd::prelude::*;
use crate::error::HachiError;
use crate::model::{
    byte_at, encode_chunk, encode_prefix, encoded, group_count, group_len, index_of,
    lemma_group_bits, valid_alphabet, PAD, trailing_pads, body, decode_ok, decoded,
    decode_prefix, decode_chunk, sym_index, lemma_rejects_foreign,
};

verus! {

broadcast use vstd::string::group_string_axioms;

/// Relies on `String::push`: appends the character to the end of the string.
#[verifier::external_body]
fn push_char(s: &mut String, c: char)
    ensures
        final(s)@ == old(s)@.push(c),
{
    s.push(c);
}

/// The symbols of `text`, in order.
pub fn symbols_of(text: &str) -> (r: Vec<char>)
    ensures
        r@ == text@,
{
    let mut r: Vec<char> = Vec::new();
    for c in iter: text.chars()
        invariant
            iter.seq() == text@,
            r@ == iter.seq().take(iter.index() as int),
    {
        r.push(c);
    }
    r
}

/// The forward transform: `data` written over the 64 `symbols`.
pub fn encode_with(symbols: &Vec<char>, pad: bool, data: &[u8]) -> (r: String)
    requires
        symbols@.len() == 64,
    ensures
        r@ == encoded(symbols@, data@, pad),
{
    let ghost a = symbols@;
    let ghost d = data@;
    let n = data.len();
    let mut result = String::new();
    let mut i: usize = 0;
    let mut j: usize = 0;
    while i < n
        invariant
            a == symbols@,
            d == data@,
            a.len() == 64,
            n == d.len(),
            i <= n,
            i < n ==> i == 3 * j,
            i == n ==> j == group_count(n as int, 3),
            result@ == encode_prefix(a, d, pad, j as nat),
        decreases n - i,
    {
        let rem = n - i;
        let len: usize = if rem >= 3 { 3 } else { rem };
        let b1 = data[i];
        let b2: u8 = if len > 1 { data[i + 1] } else { 0 };
        let b3: u8 = if len > 2 { data[i + 2] } else { 0 };
        proof {
            lemma_group_bits(b1, b2, b3);
            assert(b1 == byte_at(d, 3 * j));
            assert(b2 == byte_at(d, 3 * j + 1));
            assert(b3 == byte_at(d, 3 * j + 2));
            assert(len == group_len(n as int, 3, j as int));
        }
        let ghost prev = result@;
        let i1 = b1 >> 2;
        let i2 = ((b1 & 0x03) << 4) | (b2 >> 4);
        let i3 = ((b2 & 0x0F) << 2) | (b3 >> 6);
        let i4 = b3 & 0x3F;
        push_char(&mut result, symbols[i1 as usize]);
        push_char(&mut result, symbols[i2 as usize]);
        if len > 1 {
            push_char(&mut result, symbols[i3 as usize]);
        } else if pad {
            push_char(&mut result, PAD);
        }
        if len > 2 {
            push_char(&mut result, symbols[i4 as usize]);
        } else if pad {
            push_char(&mut result, PAD);
        }
        assert(result@ =~= prev + encode_chunk(a, d, pad, j as int));
        i = i + len;
        j = j + 1;
    }
    result
}

/// The reverse lookup: the position of `c` in the alphabet, if it is there.
pub fn lookup(symbols: &Vec<char>, c: char) -> (r: Option<u8>)
    requires
        valid_alphabet(symbols@),
    ensures
        r is Some <==> symbols@.contains(c),
        r is Some ==> r->0 < 64 && r->0 as int == index_of(symbols@, c),
{
    let mut i: usize = 0;
    while i < symbols.len()
        invariant
            valid_alphabet(symbols@),
            i <= 64,
            forall|k: int| 0 <= k < i ==> symbols@[k] != c,
        decreases 64 - i,
    {
        if symbols[i] == c {
            proof {
                assert(symbols@[i as int] == c);
                let w = index_of(symbols@, c);
                assert(0 <= w < 64 && symbols@[w] == c);
            }
            return Some(i as u8);
        }
        i = i + 1;
    }
    None
}

proof fn lemma_trailing_pads_step(t: Seq<char>, k: int)
    requires
        0 < k <= t.len(),
        t[k - 1] == PAD,
    ensures
        trailing_pads(t.take(k)) == 1 + trailing_pads(t.take(k - 1)),
{
    assert(t.take(k).drop_last() =~= t.take(k - 1));
}

/// The inverse transform: the bytes that `text` stands for over the 64
/// `symbols`.
pub fn decode_with(symbols: &Vec<char>, pad: bool, text: &str) -> (r: Result<Vec<u8>, HachiError>)
    requires
        valid_alphabet(symbols@),
    ensures
        r is Ok <==> decode_ok(symbols@, text@, pad),
        r is Ok ==> r->Ok_0@ == decoded(symbols@, text@, pad),
        r is Err ==> r->Err_0 == HachiError::InvalidInput,
{
    let ghost a = symbols@;
    let ghost t = text@;
    let chars = symbols_of(text);
    let len = chars.len();
    if len == 0 {
        return Ok(Vec::new());
    }
    let mut k: usize = len;
    if pad {
        assert(t.take(len as int) =~= t);
        while k > 0 && chars[k - 1] == PAD
            invariant
                t == chars@,
                len == t.len(),
                k <= len,
                trailing_pads(t) == (len - k) + trailing_pads(t.take(k as int)),
            decreases k,
        {
            proof {
                lemma_trailing_pads_step(t, k as int);
            }
            k = k - 1;
        }
        assert(trailing_pads(t.take(k as int)) == 0);
        if k < len && len % 4 != 0 {
            return Err(HachiError::InvalidInput);
        }
    }
    let ghost s = body(t, pad);
    assert(s =~= t.take(k as int));
    let mut result: Vec<u8> = Vec::new();
    let mut i: usize = 0;
    let mut j: usize = 0;
    while i < k
        invariant
            a == symbols@,
            valid_alphabet(a),
            t == chars@,
            t == text@,
            s == t.take(k as int),
            s == body(t, pad),
            t.len() > 0,
            k <= t.len(),
            i <= k,
            i < k ==> i == 4 * j,
            i == k ==> j == group_count(k as int, 4),
            forall|q: int| 0 <= q < i ==> a.contains(#[trigger] s[q]),
            result@ == decode_prefix(a, s, j as nat),
        decreases k - i,
    {
        let rem = k - i;
        let m: usize = if rem >= 4 { 4 } else { rem };
        let i1 = match lookup(symbols, chars[i]) {
            Some(x) => x,
            None => {
                proof {
                    lemma_rejects_foreign(a, t, pad, i as int);
                }
                return Err(HachiError::InvalidInput);
            },
        };
        let i2: u8 = if m > 1 {
            match lookup(symbols, chars[i + 1]) {
                Some(x) => x,
                None => {
                    proof {
                        lemma_rejects_foreign(a, t, pad, (i + 1) as int);
                    }
                    return Err(HachiError::InvalidInput);
                },
            }
        } else {
            0
        };
        let i3: u8 = if m > 2 {
            match lookup(symbols, chars[i + 2]) {
                Some(x) => x,
                None => {
                    proof {
                        lemma_rejects_foreign(a, t, pad, (i + 2) as int);
                    }
                    return Err(HachiError::InvalidInput);
                },
            }
        } else {
            0
        };
        let i4: u8 = if m > 3 {
            match lookup(symbols, chars[i + 3]) {
                Some(x) => x,
                None => {
                    proof {
                        lemma_rejects_foreign(a, t, pad, (i + 3) as int);
                    }
                    return Err(HachiError::InvalidInput);
                },
            }
        } else {
            0
        };
        proof {
            assert(m == group_len(k as int, 4, j as int));
            assert(i1 == sym_index(a, s, 4 * j));
            assert(i2 == sym_index(a, s, 4 * j + 1));
            assert(i3 == sym_index(a, s, 4 * j + 2));
            assert(i4 == sym_index(a, s, 4 * j + 3));
        }
        let ghost prev = result@;
        result.push((i1 << 2) | (i2 >> 4));
        if m > 2 {
            result.push(((i2 & 0x0F) << 4) | (i3 >> 2));
        }
        if m > 3 {
            result.push(((i3 & 0x03) << 6) | i4);
        }
        assert(result@ =~= prev + decode_chunk(a, s, j as int));
        i = i + m;
        j = j + 1;
    }
    assert(decode_ok(a, t, pad));
    Ok(result)
}

/// Whether some symbol occurs twice in `v`.
fn has_duplicate(v: &Vec<char>) -> (r: bool)
    ensures
        r <==> exists|p: int, q: int| 0 <= p < q < v@.len() && v@[p] == v@[q],
{
    let n = v.len();
    let mut j: usize = 0;
    while j < n
        invariant
            n == v@.len(),
            j <= n,
            forall|p: int, q: int| 0 <= p < q < j ==> v@[p] != v@[q],
        decreases n - j,
    {
        let mut i: usize = 0;
        while i < j
            invariant
                n == v@.len(),
                i <= j < n,
                forall|p: int| 0 <= p < i ==> v@[p] != v@[j as int],
            decreases j - i,
        {
            if v[i] == v[j] {
                assert(v@[i as int] == v@[j as int]);
                return true;
            }
            i = i + 1;
        }
        j = j + 1;
    }
    false
}

/// A codec over a validated alphabet, with padding on or off.
pub struct Codec {
    symbols: Vec<char>,
    use_padding: bool,
}

impl Codec {
    /// The alphabet, symbol `i` standing for index `i`.
    pub closed spec fn alphabet(&self) -> Seq<char> {
        self.symbols@
    }

    /// Whether the codec writes and strips pad symbols.
    pub closed spec fn padding(&self) -> bool {
        self.use_padding
    }

    /// The alphabet holds 64 distinct symbols.
    pub open spec fn wf(&self) -> bool {
        valid_alphabet(self.alphabet())
    }

    /// Builds a codec from the symbols of `alphabet`, which must be 64
    /// distinct symbols.
    pub fn new(alphabet: &str, use_padding: bool) -> (r: Result<Codec, HachiError>)
        ensures
            alphabet@.len() != 64 ==> r == Err::<Codec, HachiError>(
                HachiError::InvalidAlphabetLength,
            ),
            alphabet@.len() == 64 && !valid_alphabet(alphabet@) ==> r == Err::<Codec, HachiError>(
                HachiError::InvalidAlphabetChars,
            ),
            valid_alphabet(alphabet@) ==> r is Ok,
            r is Ok ==> r->Ok_0.wf() && r->Ok_0.alphabet() == alphabet@ && r->Ok_0.padding()
                == use_padding,
    {
        let symbols = symbols_of(alphabet);
        if symbols.len() != 64 {
            return Err(HachiError::InvalidAlphabetLength);
        }
        if has_duplicate(&symbols) {
            return Err(HachiError::InvalidAlphabetChars);
        }
        Ok(Codec { symbols, use_padding })
    }

    /// Writes `data` over the alphabet.
    pub fn encode(&self, data: &[u8]) -> (r: String)
        requires
            self.wf(),
        ensures
            r@ == encoded(self.alphabet(), data@, self.padding()),
    {
        encode_with(&self.symbols, self.use_padding, data)
    }

    /// Reads back the bytes that `text` stands for.
    pub fn decode(&self, text: &str) -> (r: Result<Vec<u8>, HachiError>)
        requires
            self.wf(),
        ensures
            r is Ok <==> decode_ok(self.alphabet(), text@, self.padding()),
            r is Ok ==> r->Ok_0@ == decoded(self.alphabet(), text@, self.padding()),
            r is Err ==> r->Err_0 == HachiError::InvalidInput,
    {
        decode_with(&self.symbols, self.use_padding, text)
    }
}

} // verus!
