//! What holds of the codec across calls: the length of an encoding, the
//! symbols it is made of, and that decoding gives the data back.
use vstd::prelude::*;
use crate::model::{
    body, byte_at, decode_chunk, decode_ok, decode_prefix, decoded, encode_chunk, encode_prefix,
    encoded, group_count, group_len, index_of, lemma_group_bits, lemma_rejects_foreign, pad_count,
    sym_index, trailing_pads, valid_alphabet, PAD, idx1, idx2, idx3, idx4,
};

verus! {

/// Each full group is four symbols, padding or not.
proof fn lemma_full_prefix_len(a: Seq<char>, d: Seq<u8>, pad: bool, k: nat)
    requires
        k <= d.len() / 3,
    ensures
        encode_prefix(a, d, pad, k).len() == 4 * k,
    decreases k,
{
    if k > 0 {
        lemma_full_prefix_len(a, d, pad, (k - 1) as nat);
    }
}

/// Full groups are written alike with padding on and off.
proof fn lemma_full_prefix_pad_free(a: Seq<char>, d: Seq<u8>, k: nat)
    requires
        k <= d.len() / 3,
    ensures
        encode_prefix(a, d, true, k) == encode_prefix(a, d, false, k),
    decreases k,
{
    if k > 0 {
        lemma_full_prefix_pad_free(a, d, (k - 1) as nat);
    }
}

/// An encoding with padding is the one without, followed by pad symbols
/// up to a multiple of four.
proof fn lemma_padded_split(a: Seq<char>, d: Seq<u8>)
    ensures
        encoded(a, d, true) == encoded(a, d, false) + Seq::new(
            ((3 - d.len() % 3) % 3) as nat,
            |i: int| PAD,
        ),
{
    let q = d.len() / 3;
    lemma_full_prefix_pad_free(a, d, q);
    let p = Seq::new(((3 - d.len() % 3) % 3) as nat, |i: int| PAD);
    if d.len() % 3 == 0 {
        assert(encoded(a, d, false) + p =~= encoded(a, d, false));
    } else {
        assert(encode_chunk(a, d, true, q as int) =~= encode_chunk(a, d, false, q as int) + p);
        assert(encoded(a, d, true) =~= encoded(a, d, false) + p);
    }
}

/// Length of the encoding without padding.
proof fn lemma_unpadded_len_exact(a: Seq<char>, d: Seq<u8>)
    ensures
        encoded(a, d, false).len() == 4 * (d.len() / 3) + if d.len() % 3 == 0 {
            0
        } else {
            d.len() % 3 + 1
        },
{
    lemma_full_prefix_len(a, d, false, d.len() / 3);
}

/// Every symbol of a prefix of groups is in the alphabet, where the
/// alphabet has 64 symbols.
proof fn lemma_prefix_symbols(a: Seq<char>, d: Seq<u8>, k: nat)
    requires
        a.len() == 64,
    ensures
        forall|i: int|
            0 <= i < encode_prefix(a, d, false, k).len() ==> a.contains(
                #[trigger] encode_prefix(a, d, false, k)[i],
            ),
    decreases k,
{
    if k > 0 {
        let j = k - 1;
        lemma_prefix_symbols(a, d, (k - 1) as nat);
        lemma_group_bits(byte_at(d, 3 * j), byte_at(d, 3 * j + 1), byte_at(d, 3 * j + 2));
        let prev = encode_prefix(a, d, false, (k - 1) as nat);
        let c = encode_chunk(a, d, false, j);
        assert forall|i: int| 0 <= i < c.len() implies a.contains(#[trigger] c[i]) by {
            let b1 = byte_at(d, 3 * j);
            let b2 = byte_at(d, 3 * j + 1);
            let b3 = byte_at(d, 3 * j + 2);
            if i == 0 {
                assert(a[idx1(b1) as int] == c[i]);
            } else if i == 1 {
                assert(a[idx2(b1, b2) as int] == c[i]);
            } else if i == 2 {
                assert(a[idx3(b2, b3) as int] == c[i]);
            } else {
                assert(a[idx4(b3) as int] == c[i]);
            }
        }
        assert forall|i: int|
            0 <= i < encode_prefix(a, d, false, k).len() implies a.contains(
                #[trigger] encode_prefix(a, d, false, k)[i],
            ) by {
            if i < prev.len() {
                assert(encode_prefix(a, d, false, k)[i] == prev[i]);
            } else {
                assert(encode_prefix(a, d, false, k)[i] == c[i - prev.len()]);
            }
        }
    }
}

/// Length law with padding: four symbols for each group of up to three
/// bytes, so the empty input gives the empty string.
pub proof fn lemma_padded_len(a: Seq<char>, d: Seq<u8>)
    ensures
        encoded(a, d, true).len() == ((d.len() + 2) / 3) * 4,
{
    lemma_padded_split(a, d);
    lemma_unpadded_len_exact(a, d);
}

/// Length law without padding: the encoding of `n` bytes has
/// `ceil(4n / 3)` symbols, all of them from the alphabet, so none is a pad
/// symbol unless the alphabet holds one.
pub proof fn lemma_unpadded_len(a: Seq<char>, d: Seq<u8>)
    requires
        a.len() == 64,
    ensures
        encoded(a, d, false).len() == (4 * d.len() + 2) / 3,
        forall|i: int|
            0 <= i < encoded(a, d, false).len() ==> a.contains(#[trigger] encoded(a, d, false)[i]),
        !a.contains(PAD) ==> !encoded(a, d, false).contains(PAD),
{
    lemma_unpadded_len_exact(a, d);
    lemma_prefix_symbols(a, d, group_count(d.len() as int, 3) as nat);
}

/// A prefix of groups is a prefix of every longer one.
proof fn lemma_prefix_extends(a: Seq<char>, d: Seq<u8>, pad: bool, k1: nat, k2: nat)
    requires
        k1 <= k2,
    ensures
        encode_prefix(a, d, pad, k1).len() <= encode_prefix(a, d, pad, k2).len(),
        forall|i: int|
            0 <= i < encode_prefix(a, d, pad, k1).len() ==> encode_prefix(a, d, pad, k2)[i]
                == encode_prefix(a, d, pad, k1)[i],
    decreases k2,
{
    if k1 < k2 {
        lemma_prefix_extends(a, d, pad, k1, (k2 - 1) as nat);
    }
}

/// Symbol `4j + t` of the unpadded encoding is symbol `t` of group `j`.
proof fn lemma_unpadded_symbol(a: Seq<char>, d: Seq<u8>, j: int, t: int)
    requires
        0 <= j < group_count(d.len() as int, 3),
        0 <= t < encode_chunk(a, d, false, j).len(),
    ensures
        4 * j + t < encoded(a, d, false).len(),
        encoded(a, d, false)[4 * j + t] == encode_chunk(a, d, false, j)[t],
{
    lemma_full_prefix_len(a, d, false, j as nat);
    let gc = group_count(d.len() as int, 3) as nat;
    lemma_prefix_extends(a, d, false, (j + 1) as nat, gc);
    let pj = encode_prefix(a, d, false, (j + 1) as nat);
    assert(pj[4 * j + t] == encode_chunk(a, d, false, j)[t]);
}

/// In an alphabet of distinct symbols, the symbol at `i` is found at `i`.
proof fn lemma_index_of_symbol(a: Seq<char>, i: int)
    requires
        valid_alphabet(a),
        0 <= i < 64,
    ensures
        index_of(a, a[i]) == i,
{
    let w = index_of(a, a[i]);
    assert(0 <= w < 64 && a[w] == a[i]);
}

/// Group `j` of the unpadded encoding decodes to the bytes of group `j`.
proof fn lemma_decode_chunk_inverse(a: Seq<char>, d: Seq<u8>, j: int)
    requires
        valid_alphabet(a),
        0 <= j < group_count(d.len() as int, 3),
    ensures
        group_len(encoded(a, d, false).len() as int, 4, j) == group_len(d.len() as int, 3, j) + 1
            || group_len(encoded(a, d, false).len() as int, 4, j) == 4,
        decode_chunk(a, encoded(a, d, false), j) == d.subrange(
            3 * j,
            3 * j + group_len(d.len() as int, 3, j),
        ),
{
    let u = encoded(a, d, false);
    let n = d.len() as int;
    let g = group_len(n, 3, j);
    let b1 = byte_at(d, 3 * j);
    let b2 = byte_at(d, 3 * j + 1);
    let b3 = byte_at(d, 3 * j + 2);
    let c = encode_chunk(a, d, false, j);
    lemma_unpadded_len_exact(a, d);
    lemma_group_bits(b1, b2, b3);
    assert(group_len(u.len() as int, 4, j) == c.len());
    lemma_unpadded_symbol(a, d, j, 0);
    lemma_unpadded_symbol(a, d, j, 1);
    lemma_index_of_symbol(a, idx1(b1) as int);
    lemma_index_of_symbol(a, idx2(b1, b2) as int);
    assert(sym_index(a, u, 4 * j) == idx1(b1));
    assert(sym_index(a, u, 4 * j + 1) == idx2(b1, b2));
    if g >= 2 {
        lemma_unpadded_symbol(a, d, j, 2);
        lemma_index_of_symbol(a, idx3(b2, b3) as int);
        assert(sym_index(a, u, 4 * j + 2) == idx3(b2, b3));
    }
    if g >= 3 {
        lemma_unpadded_symbol(a, d, j, 3);
        lemma_index_of_symbol(a, idx4(b3) as int);
        assert(sym_index(a, u, 4 * j + 3) == idx4(b3));
    }
    assert(decode_chunk(a, u, j) =~= d.subrange(3 * j, 3 * j + g));
}

/// The first `k` groups of the unpadded encoding decode to the bytes they
/// were written from.
proof fn lemma_decode_prefix_inverse(a: Seq<char>, d: Seq<u8>, k: nat)
    requires
        valid_alphabet(a),
        k <= group_count(d.len() as int, 3),
    ensures
        decode_prefix(a, encoded(a, d, false), k) == d.take(
            if 3 * k <= d.len() {
                3 * k as int
            } else {
                d.len() as int
            },
        ),
    decreases k,
{
    if k > 0 {
        let j = k - 1;
        lemma_decode_prefix_inverse(a, d, j as nat);
        lemma_decode_chunk_inverse(a, d, j);
        let g = group_len(d.len() as int, 3, j);
        assert(d.take(3 * j) + d.subrange(3 * j, 3 * j + g) =~= d.take(3 * j + g));
    }
}

/// Trailing pads appended to a text that does not end in one are exactly
/// the trailing run.
proof fn lemma_trailing_pads_append(u: Seq<char>, p: nat)
    requires
        u.len() == 0 || u.last() != PAD,
    ensures
        trailing_pads(u + Seq::new(p, |i: int| PAD)) == p,
    decreases p,
{
    let t = u + Seq::new(p, |i: int| PAD);
    if p == 0 {
        assert(t =~= u);
    } else {
        assert(t.drop_last() =~= u + Seq::new((p - 1) as nat, |i: int| PAD));
        lemma_trailing_pads_append(u, (p - 1) as nat);
    }
}

/// Round trip: over a valid alphabet, decoding the encoding of any bytes
/// succeeds and gives them back. With padding on, the alphabet must not
/// hold the pad symbol, which decoding would strip.
pub proof fn lemma_round_trip(a: Seq<char>, d: Seq<u8>, pad: bool)
    requires
        valid_alphabet(a),
        pad ==> !a.contains(PAD),
    ensures
        decode_ok(a, encoded(a, d, pad), pad),
        decoded(a, encoded(a, d, pad), pad) == d,
{
    let u = encoded(a, d, false);
    let e = encoded(a, d, pad);
    let gc = group_count(d.len() as int, 3);
    lemma_unpadded_len(a, d);
    lemma_unpadded_len_exact(a, d);
    lemma_padded_split(a, d);
    if pad && u.len() > 0 {
        assert(a.contains(u[u.len() - 1]));
    }
    let p = ((3 - d.len() % 3) % 3) as nat;
    if pad {
        lemma_trailing_pads_append(u, p);
        assert(pad_count(e, pad) == p);
        assert(body(e, pad) =~= u);
        assert(e.len() % 4 == 0);
    } else {
        assert(body(e, pad) =~= u);
    }
    assert(group_count(u.len() as int, 4) == gc);
    lemma_decode_prefix_inverse(a, d, gc as nat);
    assert(d.take(d.len() as int) =~= d);
}

/// A symbol that is neither in the alphabet nor part of the trailing run
/// of pad symbols (a pad symbol followed by anything else, or any pad
/// symbol when padding is off) makes decoding fail.
pub proof fn lemma_foreign_symbol_rejected(a: Seq<char>, t: Seq<char>, pad: bool, i: int)
    requires
        0 <= i < t.len(),
        !a.contains(t[i]),
        t[i] != PAD || !pad || exists|k: int| i < k < t.len() && t[k] != PAD,
    ensures
        !decode_ok(a, t, pad),
{
    lemma_trailing_run(t);
    if pad && t[i] == PAD {
        let k = choose|k: int| i < k < t.len() && t[k] != PAD;
        assert(k < t.len() - trailing_pads(t));
    }
    assert(body(t, pad)[i] == t[i]);
    lemma_rejects_foreign(a, t, pad, i);
}

/// The trailing run of pad symbols: all of its symbols are pads.
proof fn lemma_trailing_run(t: Seq<char>)
    ensures
        trailing_pads(t) <= t.len(),
        forall|k: int| t.len() - trailing_pads(t) <= k < t.len() ==> t[k] == PAD,
    decreases t.len(),
{
    if t.len() > 0 && t.last() == PAD {
        lemma_trailing_run(t.drop_last());
        assert forall|k: int| t.len() - trailing_pads(t) <= k < t.len() implies t[k] == PAD by {
            if k < t.len() - 1 {
                assert(t.drop_last()[k] == t[k]);
            }
        }
    }
}

} // verus!
