//! Little-endian serialization of words, as the byte-fill routines use it.
use vstd::prelude::*;

verus! {

/// Width of a 64-bit word in bytes.
pub const WORD_BYTES: usize = 8;

/// `256` raised to the power `n`.
pub open spec fn pow256(n: nat) -> nat
    decreases n,
{
    if n == 0 {
        1
    } else {
        256 * pow256((n - 1) as nat)
    }
}

/// The `n` low-order bytes of `x`, least significant first.
pub open spec fn le_bytes(x: nat, n: nat) -> Seq<u8>
    decreases n,
{
    if n == 0 {
        Seq::empty()
    } else {
        seq![(x % 256) as u8] + le_bytes(x / 256, (n - 1) as nat)
    }
}

/// The number a little-endian byte sequence denotes.
pub open spec fn le_value(b: Seq<u8>) -> nat
    decreases b.len(),
{
    if b.len() == 0 {
        0
    } else {
        b[0] as nat + 256 * le_value(b.drop_first())
    }
}

/// The little-endian serialization of one 64-bit word.
pub open spec fn word_bytes(w: u64) -> Seq<u8> {
    le_bytes(w as nat, 8)
}

/// The serializations of `ws`, one after the other.
pub open spec fn concat_words(ws: Seq<u64>) -> Seq<u8>
    decreases ws.len(),
{
    if ws.len() == 0 {
        Seq::empty()
    } else {
        concat_words(ws.drop_last()) + word_bytes(ws.last())
    }
}

/// How many 64-bit words it takes to cover `len` bytes: `ceil(len / 8)`.
pub open spec fn words_needed(len: nat) -> nat {
    (len + 7) / 8
}

/// The first `len` bytes of the serializations of `ws`.
pub open spec fn fill_bytes(ws: Seq<u64>, len: nat) -> Seq<u8> {
    concat_words(ws).take(len as int)
}

pub proof fn lemma_le_bytes_len(x: nat, n: nat)
    ensures
        le_bytes(x, n).len() == n,
    decreases n,
{
    if n > 0 {
        lemma_le_bytes_len(x / 256, (n - 1) as nat);
    }
}

pub proof fn lemma_concat_words_len(ws: Seq<u64>)
    ensures
        concat_words(ws).len() == 8 * ws.len(),
    decreases ws.len(),
{
    if ws.len() > 0 {
        lemma_concat_words_len(ws.drop_last());
        lemma_le_bytes_len(ws.last() as nat, 8);
    }
}

/// Appending a word appends its serialization.
pub proof fn lemma_concat_words_push(ws: Seq<u64>, w: u64)
    ensures
        concat_words(ws.push(w)) == concat_words(ws) + word_bytes(w),
{
    assert(ws.push(w).drop_last() == ws);
}

/// Covering whole words takes all of their serializations.
pub proof fn lemma_fill_bytes_whole(ws: Seq<u64>)
    ensures
        fill_bytes(ws, 8 * ws.len()) == concat_words(ws),
{
    lemma_concat_words_len(ws);
    assert(concat_words(ws).take((8 * ws.len()) as int) == concat_words(ws));
}

/// Covering the serializations of `ws` and then `n` bytes of one more word.
pub proof fn lemma_fill_bytes_push(ws: Seq<u64>, w: u64, n: nat)
    requires
        n <= 8,
    ensures
        fill_bytes(ws, 8 * ws.len()) == concat_words(ws),
        fill_bytes(ws.push(w), 8 * ws.len() + n) == concat_words(ws) + word_bytes(w).take(n as int),
{
    lemma_fill_bytes_whole(ws);
    lemma_concat_words_len(ws);
    lemma_concat_words_push(ws, w);
    lemma_le_bytes_len(w as nat, 8);
    assert((concat_words(ws) + word_bytes(w)).take((8 * ws.len() + n) as int) == concat_words(ws)
        + word_bytes(w).take(n as int));
}

/// Reading back `n` bytes of `x` gives `x` when `x` fits in them.
pub proof fn lemma_le_value_le_bytes(x: nat, n: nat)
    requires
        x < pow256(n),
    ensures
        le_value(le_bytes(x, n)) == x,
    decreases n,
{
    if n > 0 {
        lemma_le_value_le_bytes(x / 256, (n - 1) as nat);
        let b = le_bytes(x, n);
        assert(b.drop_first() == le_bytes(x / 256, (n - 1) as nat));
    }
}

/// A sequence of `n` bytes denotes a number below `256^n`.
pub proof fn lemma_le_value_bound(b: Seq<u8>)
    ensures
        le_value(b) < pow256(b.len()),
    decreases b.len(),
{
    if b.len() > 0 {
        lemma_le_value_bound(b.drop_first());
    }
}

/// The number that the little-endian bytes `b` denote.
pub fn u64_from_le(b: &[u8]) -> (r: u64)
    requires
        b@.len() == 8,
    ensures
        r as nat == le_value(b@),
{
    let mut r: u64 = 0;
    let mut i: usize = 8;
    while i > 0
        invariant
            i <= 8,
            b@.len() == 8,
            r as nat == le_value(b@.subrange(i as int, 8)),
        decreases i,
    {
        let ghost rest = b@.subrange(i as int, 8);
        let ghost wider = b@.subrange(i - 1, 8);
        proof {
            assert(wider.drop_first() == rest);
            lemma_le_value_bound(rest);
            assert(pow256(7) == 0x100000000000000) by {
                reveal_with_fuel(pow256, 8);
            }
            if rest.len() < 7 {
                lemma_pow256_monotonic(rest.len(), 7);
            }
        }
        i = i - 1;
        r = r * 256 + b[i] as u64;
    }
    assert(b@.subrange(0, 8) == b@);
    r
}

proof fn lemma_pow256_monotonic(m: nat, n: nat)
    requires
        m <= n,
    ensures
        pow256(m) <= pow256(n),
    decreases n,
{
    if m < n {
        lemma_pow256_monotonic(m, (n - 1) as nat);
    }
}

/// Writes the first `n` bytes of the serialization of `w` into `dest` from offset `at` on.
pub fn write_word_prefix(w: u64, dest: &mut [u8], at: usize, n: usize)
    requires
        n <= 8,
        at + n <= old(dest)@.len(),
    ensures
        final(dest)@.len() == old(dest)@.len(),
        final(dest)@.take(at + n) == old(dest)@.take(at as int) + word_bytes(w).take(n as int),
        final(dest)@.skip(at + n) == old(dest)@.skip(at + n),
        final(dest)@ == old(dest)@.take(at as int) + word_bytes(w).take(n as int) + old(dest)@.skip(
            at + n,
        ),
{
    let mut v: u64 = w;
    let mut j: usize = 0;
    let len = dest.len();
    proof {
        lemma_le_bytes_len(w as nat, 8);
    }
    while j < n
        invariant
            j <= n,
            n <= 8,
            at + n <= len,
            dest@.len() == len,
            len == old(dest)@.len(),
            le_bytes(v as nat, (8 - j) as nat) == word_bytes(w).skip(j as int),
            word_bytes(w).len() == 8,
            dest@ == old(dest)@.take(at as int) + word_bytes(w).take(j as int) + old(dest)@.skip(
                at + j,
            ),
        decreases n - j,
    {
        let ghost rest = le_bytes(v as nat, (8 - j) as nat);
        proof {
            assert(rest[0] == word_bytes(w)[j as int]);
            assert(rest.drop_first() == word_bytes(w).skip(j + 1));
        }
        dest[at + j] = (v % 256) as u8;
        v = v / 256;
        j = j + 1;
        assert(dest@ == old(dest)@.take(at as int) + word_bytes(w).take(j as int) + old(dest)@.skip(
            at + j,
        ));
    }
    assert(dest@.take(at + n) == old(dest)@.take(at as int) + word_bytes(w).take(n as int));
    assert(dest@.skip(at + n) == old(dest)@.skip(at + n));
}

} // verus!
