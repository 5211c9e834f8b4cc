//! Little-endian words on the wire and in the trace log.
//!
//! A vCPU's trace log is a sequence of 64-bit little-endian addresses; the
//! same layout carries addresses in the query protocol and in the raw
//! streaming feed. This module fixes that layout once: `words_le` says what
//! a word sequence looks like as bytes, `le_words` reads it back, and the
//! executable functions encode and decode under those definitions.

use vstd::prelude::*;

verus! {

use vstd::bytes::{spec_u64_to_le_bytes, spec_u64_from_le_bytes};
use vstd::bytes::{spec_u32_to_le_bytes, spec_u32_from_le_bytes};

/// The little-endian byte image of a sequence of 64-bit words: each word
/// contributes exactly 8 bytes, in sequence order.
pub open spec fn words_le(a: Seq<u64>) -> Seq<u8>
    decreases a.len(),
{
    if a.len() == 0 {
        Seq::empty()
    } else {
        spec_u64_to_le_bytes(a[0]) + words_le(a.drop_first())
    }
}

/// The word sequence read back from a little-endian byte image whose length
/// is a multiple of 8.
pub open spec fn le_words(b: Seq<u8>) -> Seq<u64>
    decreases b.len(),
{
    if b.len() < 8 {
        Seq::empty()
    } else {
        seq![spec_u64_from_le_bytes(b.subrange(0, 8))] + le_words(b.skip(8))
    }
}

/// A word sequence's byte image holds exactly 8 bytes per word.
pub proof fn lemma_words_le_len(a: Seq<u64>)
    ensures
        words_le(a).len() == 8 * a.len(),
    decreases a.len(),
{
    vstd::bytes::lemma_auto_spec_u64_to_from_le_bytes();
    if a.len() > 0 {
        lemma_words_le_len(a.drop_first());
    }
}

/// Appending one word appends exactly its 8-byte image.
pub proof fn lemma_words_le_push(a: Seq<u64>, x: u64)
    ensures
        words_le(a.push(x)) == words_le(a) + spec_u64_to_le_bytes(x),
    decreases a.len(),
{
    vstd::bytes::lemma_auto_spec_u64_to_from_le_bytes();
    if a.len() == 0 {
        assert(a.push(x).drop_first() =~= Seq::<u64>::empty());
        assert(words_le(Seq::<u64>::empty()) =~= Seq::<u8>::empty());
        assert(a.push(x)[0] == x);
        assert(words_le(a.push(x)) =~= spec_u64_to_le_bytes(x));
        assert(words_le(a) + spec_u64_to_le_bytes(x) =~= spec_u64_to_le_bytes(x));
    } else {
        assert(a.push(x).drop_first() =~= a.drop_first().push(x));
        lemma_words_le_push(a.drop_first(), x);
        assert(words_le(a.push(x)) =~= words_le(a) + spec_u64_to_le_bytes(x));
    }
}

/// Reading a byte image back yields the words it was made from.
pub proof fn lemma_le_words_of_words_le(a: Seq<u64>)
    ensures
        le_words(words_le(a)) == a,
    decreases a.len(),
{
    vstd::bytes::lemma_auto_spec_u64_to_from_le_bytes();
    lemma_words_le_len(a);
    if a.len() == 0 {
        assert(le_words(words_le(a)) =~= a);
    } else {
        lemma_words_le_len(a.drop_first());
        let b = words_le(a);
        assert(b =~= spec_u64_to_le_bytes(a[0]) + words_le(a.drop_first()));
        assert(b.subrange(0, 8) =~= spec_u64_to_le_bytes(a[0]));
        assert(b.skip(8) =~= words_le(a.drop_first()));
        lemma_le_words_of_words_le(a.drop_first());
        assert(le_words(b) =~= a);
    }
}

/// Re-encoding the words read from a well-formed byte image restores it.
pub proof fn lemma_words_le_of_le_words(b: Seq<u8>)
    requires
        b.len() % 8 == 0,
    ensures
        words_le(le_words(b)) == b,
    decreases b.len(),
{
    vstd::bytes::lemma_auto_spec_u64_to_from_le_bytes();
    if b.len() == 0 {
        assert(words_le(le_words(b)) =~= b);
    } else {
        let w = le_words(b);
        assert(w[0] == spec_u64_from_le_bytes(b.subrange(0, 8)));
        assert(w.drop_first() =~= le_words(b.skip(8)));
        lemma_words_le_of_le_words(b.skip(8));
        assert(spec_u64_to_le_bytes(w[0]) =~= b.subrange(0, 8));
        assert(words_le(w) =~= b);
    }
}

/// A byte image decodes to one word per 8 bytes.
pub proof fn lemma_le_words_len(b: Seq<u8>)
    ensures
        le_words(b).len() == b.len() / 8,
    decreases b.len(),
{
    if b.len() >= 8 {
        lemma_le_words_len(b.skip(8));
    }
}

/// Appends the 8-byte little-endian image of `x` to `out`.
pub fn put_u64_le(out: &mut Vec<u8>, x: u64)
    ensures
        final(out)@ == old(out)@ + spec_u64_to_le_bytes(x),
{
    let mut bytes = vstd::bytes::u64_to_le_bytes(x);
    out.append(&mut bytes);
}

/// Appends the 4-byte little-endian image of `x` to `out`.
pub fn put_u32_le(out: &mut Vec<u8>, x: u32)
    ensures
        final(out)@ == old(out)@ + spec_u32_to_le_bytes(x),
{
    let mut bytes = vstd::bytes::u32_to_le_bytes(x);
    out.append(&mut bytes);
}

/// Reads the 64-bit little-endian word at byte offset `pos` of `buf`.
pub fn get_u64_le(buf: &[u8], pos: usize) -> (x: u64)
    requires
        pos + 8 <= buf@.len(),
    ensures
        x == spec_u64_from_le_bytes(buf@.subrange(pos as int, pos + 8)),
{
    let len = buf.len();
    let window = vstd::slice::slice_subrange(buf, pos, pos + 8);
    vstd::bytes::u64_from_le_bytes(window)
}

/// Reads the 32-bit little-endian word at byte offset `pos` of `buf`.
pub fn get_u32_le(buf: &[u8], pos: usize) -> (x: u32)
    requires
        pos + 4 <= buf@.len(),
    ensures
        x == spec_u32_from_le_bytes(buf@.subrange(pos as int, pos + 4)),
{
    let len = buf.len();
    let window = vstd::slice::slice_subrange(buf, pos, pos + 4);
    vstd::bytes::u32_from_le_bytes(window)
}

/// Encodes every word of `words` into its little-endian byte image.
pub fn encode_words(words: &[u64]) -> (out: Vec<u8>)
    ensures
        out@ == words_le(words@),
{
    let mut out: Vec<u8> = Vec::new();
    let mut i: usize = 0;
    proof {
        assert(words@.subrange(0, 0) =~= Seq::<u64>::empty());
    }
    while i < words.len()
        invariant
            i <= words@.len(),
            out@ == words_le(words@.subrange(0, i as int)),
        decreases words@.len() - i,
    {
        proof {
            lemma_words_le_push(words@.subrange(0, i as int), words@[i as int]);
            assert(words@.subrange(0, i as int).push(words@[i as int])
                =~= words@.subrange(0, i + 1));
        }
        let x = *vstd::slice::slice_index_get(words, i);
        put_u64_le(&mut out, x);
        i = i + 1;
    }
    proof {
        assert(words@.subrange(0, words@.len() as int) =~= words@);
    }
    out
}

/// Decodes a byte image whose length is a multiple of 8 into its words.
pub fn decode_words(buf: &[u8]) -> (out: Vec<u64>)
    requires
        buf@.len() % 8 == 0,
    ensures
        out@ == le_words(buf@),
{
    let mut out: Vec<u64> = Vec::new();
    let len = buf.len();
    let n = len / 8;
    let mut i: usize = 0;
    proof {
        lemma_le_words_len(buf@);
    }
    while i < n
        invariant
            i <= n,
            len == buf@.len(),
            n == len / 8,
            len % 8 == 0,
            le_words(buf@).len() == n,
            out@.len() == i,
            out@ == le_words(buf@).subrange(0, i as int),
        decreases n - i,
    {
        proof {
            assert(8 * (i as int) + 8 <= len) by {
                assert(i + 1 <= n);
                assert(8 * n <= len);
            };
            lemma_le_words_index(buf@, i as int);
            assert(le_words(buf@).subrange(0, i as int).push(le_words(buf@)[i as int])
                =~= le_words(buf@).subrange(0, i + 1));
        }
        let x = get_u64_le(buf, i * 8);
        proof {
            assert(buf@.subrange(i * 8, i * 8 + 8) =~= buf@.subrange(8 * (i as int), 8 * (i as int) + 8));
        }
        out.push(x);
        i = i + 1;
    }
    proof {
        assert(le_words(buf@).subrange(0, le_words(buf@).len() as int) =~= le_words(buf@));
    }
    out
}

/// The word at index `i` of a decoded image is the word encoded at byte
/// offset `8 * i`.
pub proof fn lemma_le_words_index(b: Seq<u8>, i: int)
    requires
        0 <= i,
        8 * i + 8 <= b.len(),
    ensures
        le_words(b)[i] == spec_u64_from_le_bytes(b.subrange(8 * i, 8 * i + 8)),
    decreases i,
{
    if i == 0 {
        assert(le_words(b)[0] == spec_u64_from_le_bytes(b.subrange(0, 8)));
    } else {
        lemma_le_words_index(b.skip(8), i - 1);
        lemma_le_words_len(b.skip(8));
        assert(b.skip(8).subrange(8 * (i - 1), 8 * (i - 1) + 8)
            =~= b.subrange(8 * i, 8 * i + 8));
        assert(le_words(b) == seq![spec_u64_from_le_bytes(b.subrange(0, 8))] + le_words(b.skip(8)));
        assert(le_words(b)[i] == le_words(b.skip(8))[i - 1]);
    }
}

} // verus!
