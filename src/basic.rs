//! The basic generator capability: a word on every call, no failure channel.
use vstd::prelude::*;

use crate::bytes::{
    fill_bytes, lemma_fill_bytes_push, lemma_le_bytes_len, lemma_le_value_le_bytes, pow256,
    u64_from_le, word_bytes, words_needed, write_word_prefix, WORD_BYTES,
};

verus! {

/// A generator that always yields a word.
///
/// The state of a generator is modelled by the words its future draws yield:
/// `word_at(i)` is the word of the `i`-th draw from now. A generator whose
/// source can fail resolves that failure itself; where it does so by a fatal
/// stop, `word_ready(i)` is false for the draw that would stop, and callers
/// must not make it. For a generator that cannot fail, `word_ready` is always
/// true.
pub trait Rng {
    /// The word that the `i`-th draw from this state yields.
    spec fn word_at(&self, i: nat) -> u64;

    /// Whether the `i`-th draw from this state returns.
    spec fn word_ready(&self, i: nat) -> bool;

    /// Draws one word.
    fn next_u64(&mut self) -> (r: u64)
        requires
            old(self).word_ready(0),
        ensures
            r == old(self).word_at(0),
            forall|i: nat| #[trigger] final(self).word_at(i) == old(self).word_at(i + 1),
            forall|i: nat| #[trigger] final(self).word_ready(i) == old(self).word_ready(i + 1),
    ;

    /// Draws one word and keeps its low 32 bits.
    fn next_u32(&mut self) -> (r: u32)
        requires
            old(self).word_ready(0),
        ensures
            r == old(self).word_at(0) as u32,
            forall|i: nat| #[trigger] final(self).word_at(i) == old(self).word_at(i + 1),
            forall|i: nat| #[trigger] final(self).word_ready(i) == old(self).word_ready(i + 1),
    {
        self.next_u64() as u32
    }

    /// Fills `dest` from `ceil(len / 8)` draws, each serialized little-endian
    /// and copied in, the last one only as far as `dest` reaches.
    fn fill(&mut self, dest: &mut [u8])
        requires
            forall|i: nat| i < words_needed(old(dest)@.len()) ==> #[trigger] old(self).word_ready(i),
        ensures
            final(dest)@.len() == old(dest)@.len(),
            final(dest)@ == fill_bytes(
                Seq::new(words_needed(old(dest)@.len()), |i: int| old(self).word_at(i as nat)),
                old(dest)@.len(),
            ),
            forall|i: nat| #[trigger]
                final(self).word_at(i) == old(self).word_at(i + words_needed(old(dest)@.len())),
            forall|i: nat| #[trigger]
                final(self).word_ready(i) == old(self).word_ready(i + words_needed(old(dest)@.len())),
    {
        let len = dest.len();
        let mut written: usize = 0;
        let ghost mut count: nat = 0;
        while written < len
            invariant
                len == dest@.len(),
                len == old(dest)@.len(),
                written <= len,
                count == words_needed(written as nat),
                written < len ==> written == 8 * count,
                forall|i: nat| i < words_needed(len as nat) ==> #[trigger] old(self).word_ready(i),
                forall|i: nat| #[trigger] self.word_at(i) == old(self).word_at(i + count),
                forall|i: nat| #[trigger] self.word_ready(i) == old(self).word_ready(i + count),
                dest@.take(written as int) == fill_bytes(
                    Seq::new(count, |i: int| old(self).word_at(i as nat)),
                    written as nat,
                ),
            decreases len - written,
        {
            let ghost prefix = Seq::new(count, |i: int| old(self).word_at(i as nat));
            assert(self.word_ready(0) == old(self).word_ready(0 + count));
            let w = self.next_u64();
            let n: usize = if len - written < 8 {
                len - written
            } else {
                8
            };
            write_word_prefix(w, dest, written, n);
            proof {
                lemma_fill_bytes_push(prefix, w, n as nat);
                assert(Seq::new(count + 1, |i: int| old(self).word_at(i as nat)) == prefix.push(w));
                count = count + 1;
            }
            written = written + n;
        }
        assert(dest@.take(len as int) == dest@);
    }
}

/// The words of the next `n` draws from `g`.
pub open spec fn drawn<R: Rng + ?Sized>(g: &R, n: nat) -> Seq<u64> {
    Seq::new(n, |i: int| g.word_at(i as nat))
}

/// Whether the next `n` draws from `g` all return.
pub open spec fn ready_for<R: Rng + ?Sized>(g: &R, n: nat) -> bool {
    forall|i: nat| i < n ==> #[trigger] g.word_ready(i)
}

/// `after` is `before` with its next `n` draws made.
pub open spec fn advanced<R: Rng + ?Sized>(before: &R, after: &R, n: nat) -> bool {
    &&& forall|i: nat| #[trigger] after.word_at(i) == before.word_at(i + n)
    &&& forall|i: nat| #[trigger] after.word_ready(i) == before.word_ready(i + n)
}

/// Fills `dest` from word draws of `rng`: each word is serialized
/// little-endian and copied in, the last one only as far as `dest` reaches.
/// This is the routine that `Rng::fill` provides, here for any generator
/// whatever its own `fill` does.
pub fn impl_fill_from_u64<R: Rng + ?Sized>(rng: &mut R, dest: &mut [u8])
    requires
        ready_for(&*old(rng), words_needed(old(dest)@.len())),
    ensures
        final(dest)@.len() == old(dest)@.len(),
        final(dest)@ == fill_bytes(drawn(&*old(rng), words_needed(old(dest)@.len())), old(dest)@.len()),
        advanced(&*old(rng), &*final(rng), words_needed(old(dest)@.len())),
        old(dest)@.len() == 0 ==> &*final(rng) == &*old(rng),
{
    let len = dest.len();
    let mut written: usize = 0;
    let ghost mut count: nat = 0;
    while written < len
        invariant
            len == dest@.len(),
            len == old(dest)@.len(),
            written <= len,
            count == words_needed(written as nat),
            written < len ==> written == 8 * count,
            count == 0 ==> &*rng == &*old(rng),
            ready_for(&*old(rng), words_needed(len as nat)),
            advanced(&*old(rng), &*rng, count),
            dest@.take(written as int) == fill_bytes(drawn(&*old(rng), count), written as nat),
        decreases len - written,
    {
        let ghost prefix = drawn(&*old(rng), count);
        assert(rng.word_ready(0) == old(rng).word_ready(0 + count));
        let w = rng.next_u64();
        let n: usize = if len - written < 8 {
            len - written
        } else {
            8
        };
        write_word_prefix(w, dest, written, n);
        proof {
            lemma_fill_bytes_push(prefix, w, n as nat);
            assert(drawn(&*old(rng), count + 1) == prefix.push(w));
            count = count + 1;
        }
        written = written + n;
    }
    assert(dest@.take(len as int) == dest@);
}

/// Draws one word through `rng`'s `fill`: eight bytes, read little-endian.
/// This suits generators whose native output is a byte stream.
pub fn impl_next_u64_from_fill<R: Rng + ?Sized>(rng: &mut R) -> (r: u64)
    requires
        old(rng).word_ready(0),
    ensures
        r == old(rng).word_at(0),
        advanced(&*old(rng), &*final(rng), 1),
{
    let mut buf = [0u8; WORD_BYTES];
    assert(words_needed(8) == 1);
    rng.fill(&mut buf);
    proof {
        let w = old(rng).word_at(0);
        lemma_fill_bytes_push(Seq::empty(), w, 8);
        assert(Seq::new(1, |i: int| old(rng).word_at(i as nat)) == Seq::<u64>::empty().push(w));
        lemma_le_bytes_len(w as nat, 8);
        assert(word_bytes(w).take(8) == word_bytes(w));
        assert(buf@ == word_bytes(w));
        assert(pow256(8) == 0x1_0000_0000_0000_0000) by {
            reveal_with_fuel(pow256, 9);
        }
        lemma_le_value_le_bytes(w as nat, 8);
    }
    u64_from_le(&buf)
}

} // verus!
