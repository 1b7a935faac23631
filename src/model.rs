//! Mathematical model of the codec: alphabets, the forward transform and
//! its inverse, as spec functions over sequences.
use vstd::prelude::*;

verus! {

/// The pad symbol, used literally whatever the alphabet.
pub const PAD: char = '=';

/// An alphabet: exactly 64 pairwise distinct symbols.
pub open spec fn valid_alphabet(a: Seq<char>) -> bool {
    &&& a.len() == 64
    &&& forall|i: int, j: int| 0 <= i < j < 64 ==> a[i] != a[j]
}

/// Position of symbol `c` in the alphabet `a` (meaningful when `a` holds `c`).
pub open spec fn index_of(a: Seq<char>, c: char) -> int {
    choose|i: int| 0 <= i < a.len() && a[i] == c
}

/// Byte `i` of `d`, or zero past its end.
pub open spec fn byte_at(d: Seq<u8>, i: int) -> u8 {
    if 0 <= i < d.len() {
        d[i]
    } else {
        0
    }
}

/// Number of groups of up to `w` items that `n` items form.
pub open spec fn group_count(n: int, w: int) -> int {
    if n % w == 0 {
        n / w
    } else {
        n / w + 1
    }
}

/// Number of real items in group `j` of `n` items taken `w` at a time.
pub open spec fn group_len(n: int, w: int, j: int) -> int {
    if n - w * j >= w {
        w
    } else {
        n - w * j
    }
}

/// First 6-bit index of a group: the top six bits of its first byte.
pub open spec fn idx1(b1: u8) -> u8 {
    b1 >> 2
}

/// Second index: the low two bits of the first byte, then the top four of the second.
pub open spec fn idx2(b1: u8, b2: u8) -> u8 {
    ((b1 & 0x03) << 4) | (b2 >> 4)
}

/// Third index: the low four bits of the second byte, then the top two of the third.
pub open spec fn idx3(b2: u8, b3: u8) -> u8 {
    ((b2 & 0x0F) << 2) | (b3 >> 6)
}

/// Fourth index: the low six bits of the third byte.
pub open spec fn idx4(b3: u8) -> u8 {
    b3 & 0x3F
}

/// First byte read back from indices `i1` and `i2`.
pub open spec fn byte1(i1: u8, i2: u8) -> u8 {
    (i1 << 2) | (i2 >> 4)
}

/// Second byte read back from indices `i2` and `i3`.
pub open spec fn byte2(i2: u8, i3: u8) -> u8 {
    ((i2 & 0x0F) << 4) | (i3 >> 2)
}

/// Third byte read back from indices `i3` and `i4`.
pub open spec fn byte3(i3: u8, i4: u8) -> u8 {
    ((i3 & 0x03) << 6) | i4
}

/// The symbols written for one group of `n` real bytes (1 to 3); missing
/// bytes are zero.
pub open spec fn encode_group(a: Seq<char>, b1: u8, b2: u8, b3: u8, n: int, pad: bool) -> Seq<char> {
    let c1 = a[idx1(b1) as int];
    let c2 = a[idx2(b1, b2) as int];
    let c3 = a[idx3(b2, b3) as int];
    let c4 = a[idx4(b3) as int];
    if n >= 3 {
        seq![c1, c2, c3, c4]
    } else if n == 2 {
        if pad {
            seq![c1, c2, c3, PAD]
        } else {
            seq![c1, c2, c3]
        }
    } else if pad {
        seq![c1, c2, PAD, PAD]
    } else {
        seq![c1, c2]
    }
}

/// The symbols written for group `j` (bytes `3j` to `3j + 2`) of `d`.
pub open spec fn encode_chunk(a: Seq<char>, d: Seq<u8>, pad: bool, j: int) -> Seq<char> {
    encode_group(
        a,
        byte_at(d, 3 * j),
        byte_at(d, 3 * j + 1),
        byte_at(d, 3 * j + 2),
        group_len(d.len() as int, 3, j),
        pad,
    )
}

/// The symbols written for the first `k` groups of `d`.
pub open spec fn encode_prefix(a: Seq<char>, d: Seq<u8>, pad: bool, k: nat) -> Seq<char>
    decreases k,
{
    if k == 0 {
        seq![]
    } else {
        encode_prefix(a, d, pad, (k - 1) as nat) + encode_chunk(a, d, pad, k - 1)
    }
}

/// The encoding of `d` over alphabet `a`.
pub open spec fn encoded(a: Seq<char>, d: Seq<u8>, pad: bool) -> Seq<char> {
    encode_prefix(a, d, pad, group_count(d.len() as int, 3) as nat)
}

/// Length of the run of pad symbols that ends `t`.
pub open spec fn trailing_pads(t: Seq<char>) -> nat
    decreases t.len(),
{
    if t.len() == 0 || t.last() != PAD {
        0
    } else {
        1 + trailing_pads(t.drop_last())
    }
}

/// Number of pad symbols that decoding strips from `t`.
pub open spec fn pad_count(t: Seq<char>, pad: bool) -> nat {
    if pad {
        trailing_pads(t)
    } else {
        0
    }
}

/// The data region of `t`: what is left once the trailing pads are stripped.
pub open spec fn body(t: Seq<char>, pad: bool) -> Seq<char> {
    t.take(t.len() - pad_count(t, pad))
}

/// Index of symbol `k` of `s`, or zero past its end.
pub open spec fn sym_index(a: Seq<char>, s: Seq<char>, k: int) -> u8 {
    if 0 <= k < s.len() {
        index_of(a, s[k]) as u8
    } else {
        0
    }
}

/// The bytes read back from group `j` (symbols `4j` to `4j + 3`) of `s`.
pub open spec fn decode_chunk(a: Seq<char>, s: Seq<char>, j: int) -> Seq<u8> {
    let n = group_len(s.len() as int, 4, j);
    let i1 = sym_index(a, s, 4 * j);
    let i2 = sym_index(a, s, 4 * j + 1);
    let i3 = sym_index(a, s, 4 * j + 2);
    let i4 = sym_index(a, s, 4 * j + 3);
    if n >= 4 {
        seq![byte1(i1, i2), byte2(i2, i3), byte3(i3, i4)]
    } else if n == 3 {
        seq![byte1(i1, i2), byte2(i2, i3)]
    } else {
        seq![byte1(i1, i2)]
    }
}

/// The bytes read back from the first `k` groups of `s`.
pub open spec fn decode_prefix(a: Seq<char>, s: Seq<char>, k: nat) -> Seq<u8>
    decreases k,
{
    if k == 0 {
        seq![]
    } else {
        decode_prefix(a, s, (k - 1) as nat) + decode_chunk(a, s, k - 1)
    }
}

/// Whether decoding `t` succeeds: it is empty, or its padding is aligned and
/// every symbol of its data region is in the alphabet.
pub open spec fn decode_ok(a: Seq<char>, t: Seq<char>, pad: bool) -> bool {
    t.len() == 0 || {
        &&& !(pad_count(t, pad) > 0 && t.len() % 4 != 0)
        &&& forall|k: int| 0 <= k < body(t, pad).len() ==> a.contains(#[trigger] body(t, pad)[k])
    }
}

/// The bytes that a successful decoding of `t` returns.
pub open spec fn decoded(a: Seq<char>, t: Seq<char>, pad: bool) -> Seq<u8> {
    let s = body(t, pad);
    decode_prefix(a, s, group_count(s.len() as int, 4) as nat)
}

/// The six-bit indices of a group give its bytes back.
pub proof fn lemma_group_bits(b1: u8, b2: u8, b3: u8)
    ensures
        byte1(idx1(b1), idx2(b1, b2)) == b1,
        byte2(idx2(b1, b2), idx3(b2, b3)) == b2,
        byte3(idx3(b2, b3), idx4(b3)) == b3,
        idx1(b1) < 64,
        idx2(b1, b2) < 64,
        idx3(b2, b3) < 64,
        idx4(b3) < 64,
{
    assert(((b1 >> 2) << 2) | ((((b1 & 0x03) << 4) | (b2 >> 4)) >> 4) == b1) by (bit_vector);
    assert((((((b1 & 0x03) << 4) | (b2 >> 4)) & 0x0F) << 4) | ((((b2 & 0x0F) << 2) | (b3 >> 6))
        >> 2) == b2) by (bit_vector);
    assert((((((b2 & 0x0F) << 2) | (b3 >> 6)) & 0x03) << 6) | (b3 & 0x3F) == b3) by (bit_vector);
    assert(b1 >> 2 < 64) by (bit_vector);
    assert(((b1 & 0x03) << 4) | (b2 >> 4) < 64) by (bit_vector);
    assert(((b2 & 0x0F) << 2) | (b3 >> 6) < 64) by (bit_vector);
    assert(b3 & 0x3F < 64) by (bit_vector);
}

/// A symbol of the data region that is not in the alphabet makes decoding
/// fail.
pub proof fn lemma_rejects_foreign(a: Seq<char>, t: Seq<char>, pad: bool, q: int)
    requires
        t.len() > 0,
        0 <= q < body(t, pad).len(),
        !a.contains(body(t, pad)[q]),
    ensures
        !decode_ok(a, t, pad),
{
}

} // verus!
