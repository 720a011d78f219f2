//! The secure generator capability: a word, or a reported failure.
use vstd::prelude::*;

use crate::bytes::{
    concat_words, fill_bytes, lemma_fill_bytes_push, lemma_fill_bytes_whole, words_needed,
    write_word_prefix,
};

verus! {

/// A recoverable generation failure: the generator could not produce a
/// trustworthy value.
#[derive(PartialEq, Eq, Structural, Debug, Clone, Copy)]
pub struct Error;

/// A generator that either yields a trustworthy word or reports failure.
///
/// Its state is modelled by the outcomes of its future draws: `outcome_at(i)`
/// is what the `i`-th draw from now returns, `Err` where the generator cannot
/// produce a trustworthy value (an unseeded or exhausted source, a detected
/// fault). `outcome_ready(i)` is whether that draw returns at all; it is
/// always true for a generator that reports every failure.
pub trait CryptoRng {
    /// What the `i`-th draw from this state returns.
    spec fn outcome_at(&self, i: nat) -> Result<u64, Error>;

    /// Whether the `i`-th draw from this state returns.
    spec fn outcome_ready(&self, i: nat) -> bool;

    /// Draws one word, or reports that none can be produced.
    fn try_next_u64(&mut self) -> (r: Result<u64, Error>)
        requires
            old(self).outcome_ready(0),
        ensures
            r == old(self).outcome_at(0),
            forall|i: nat| #[trigger] final(self).outcome_at(i) == old(self).outcome_at(i + 1),
            forall|i: nat| #[trigger] final(self).outcome_ready(i) == old(self).outcome_ready(i + 1),
    ;

    /// Draws one word and keeps its low 32 bits, or reports failure.
    fn try_next_u32(&mut self) -> (r: Result<u32, Error>)
        requires
            old(self).outcome_ready(0),
        ensures
            r == (match old(self).outcome_at(0) {
                Ok(w) => Ok(w as u32),
                Err(e) => Err(e),
            }),
            forall|i: nat| #[trigger] final(self).outcome_at(i) == old(self).outcome_at(i + 1),
            forall|i: nat| #[trigger] final(self).outcome_ready(i) == old(self).outcome_ready(i + 1),
    {
        match self.try_next_u64() {
            Ok(w) => Ok(w as u32),
            Err(e) => Err(e),
        }
    }

    /// Fills `dest` as `Rng::fill` does, drawing until the first failure.
    ///
    /// Succeeds exactly when the `ceil(len / 8)` draws all succeed. On the
    /// first failed draw it stops and returns that failure: the words drawn
    /// before it are in place, the rest of `dest` is as it was.
    fn try_fill(&mut self, dest: &mut [u8]) -> (r: Result<(), Error>)
        requires
            forall|i: nat| i < words_needed(old(dest)@.len()) ==> #[trigger] old(self).outcome_ready(i),
        ensures
            final(dest)@.len() == old(dest)@.len(),
            old(dest)@.len() == 0 ==> r is Ok,
            r is Ok <==> forall|i: nat| i < words_needed(old(dest)@.len()) ==> #[trigger] old(self).outcome_at(i) is Ok,
            r is Ok ==> final(dest)@ == fill_bytes(
                Seq::new(words_needed(old(dest)@.len()), |i: int| old(self).outcome_at(i as nat)->Ok_0),
                old(dest)@.len(),
            ),
            r is Ok ==> forall|i: nat| #[trigger]
                final(self).outcome_at(i) == old(self).outcome_at(i + words_needed(old(dest)@.len())),
            r is Ok ==> forall|i: nat| #[trigger]
                final(self).outcome_ready(i) == old(self).outcome_ready(i + words_needed(old(dest)@.len())),
            r is Err ==> exists|j: nat| {
                &&& j < words_needed(old(dest)@.len())
                &&& forall|i: nat| i < j ==> #[trigger] old(self).outcome_at(i) is Ok
                &&& old(self).outcome_at(j) == Err::<u64, Error>(r->Err_0)
                &&& final(dest)@ == concat_words(Seq::new(j, |i: int| old(self).outcome_at(i as nat)->Ok_0))
                    + old(dest)@.skip((8 * j) as int)
                &&& forall|i: nat| #[trigger] final(self).outcome_at(i) == old(self).outcome_at(i + j + 1)
                &&& forall|i: nat| #[trigger] final(self).outcome_ready(i) == old(self).outcome_ready(i + j + 1)
            },
    {
        let len = dest.len();
        let mut written: usize = 0;
        let ghost mut count: nat = 0;
        while written < len
            invariant
                len == dest@.len(),
                len == old(dest)@.len(),
                written <= len,
                count == words_needed(written as nat),
                written < len ==> written == 8 * count,
                forall|i: nat| i < words_needed(len as nat) ==> #[trigger] old(self).outcome_ready(i),
                forall|i: nat| i < count ==> #[trigger] old(self).outcome_at(i) is Ok,
                forall|i: nat| #[trigger] self.outcome_at(i) == old(self).outcome_at(i + count),
                forall|i: nat| #[trigger] self.outcome_ready(i) == old(self).outcome_ready(i + count),
                dest@.take(written as int) == fill_bytes(
                    Seq::new(count, |i: int| old(self).outcome_at(i as nat)->Ok_0),
                    written as nat,
                ),
                dest@.skip(written as int) == old(dest)@.skip(written as int),
            decreases len - written,
        {
            let ghost prefix = Seq::new(count, |i: int| old(self).outcome_at(i as nat)->Ok_0);
            assert(self.outcome_ready(0) == old(self).outcome_ready(0 + count));
            assert(self.outcome_at(0) == old(self).outcome_at(0 + count));
            let w = match self.try_next_u64() {
                Ok(w) => w,
                Err(e) => {
                    proof {
                        lemma_fill_bytes_whole(prefix);
                        assert(dest@ == dest@.take(written as int) + dest@.skip(written as int));
                    }
                    return Err(e);
                },
            };
            let n: usize = if len - written < 8 {
                len - written
            } else {
                8
            };
            let ghost before = dest@;
            write_word_prefix(w, dest, written, n);
            proof {
                lemma_fill_bytes_push(prefix, w, n as nat);
                assert(Seq::new(count + 1, |i: int| old(self).outcome_at(i as nat)->Ok_0) == prefix.push(w));
                assert(before.skip((written + n) as int) == before.skip(written as int).skip(n as int));
                assert(old(dest)@.skip((written + n) as int) == old(dest)@.skip(written as int).skip(n as int));
                count = count + 1;
            }
            written = written + n;
        }
        assert(dest@.take(len as int) == dest@);
        Ok(())
    }
}

} // verus!
