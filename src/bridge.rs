//! Explicit bridges between the two capabilities.
//!
//! `AsRng` presents a secure generator as a basic one: a failure of the
//! wrapped generator becomes the basic generator's fatal stop, so its draws
//! are ready only where the wrapped generator's draws succeed. `AsCRng`
//! presents a basic generator as a secure one whose draws all succeed; that
//! the words are good enough for secure use is the wrapping code's claim.
//! Each comes in a form that owns the wrapped generator and one that borrows
//! it for as long as the bridge lives; the borrowing forms keep the borrow
//! they were made with, so the lender sees every draw made through them.
use vstd::prelude::*;

use crate::basic::Rng;
use crate::bytes::words_needed;
use crate::secure::{CryptoRng, Error};

verus! {

/// A secure generator, owned, presented as a basic generator.
///
/// This is where a recoverable failure becomes fatal: a draw whose wrapped
/// draw fails is not ready, and if made anyway it panics rather than return
/// a word. Wrap a secure generator this way only where its failure has been
/// ruled out, or is unrecoverable anyway.
pub struct AsRng<CR: CryptoRng + ?Sized> {
    pub rng: CR,
}

/// A secure generator, borrowed, presented as a basic generator. Its
/// failures are fatal, as with [`AsRng`].
pub struct AsRngRef<'a, CR: CryptoRng + ?Sized> {
    pub rng: &'a mut CR,
}

/// A basic generator, owned, presented as a secure generator.
///
/// Every draw succeeds. That the words are fit for secure use is a claim of
/// the code that wraps the generator; nothing here can check it.
pub struct AsCRng<R: Rng + ?Sized> {
    pub rng: R,
}

/// A basic generator, borrowed, presented as a secure generator.
pub struct AsCRngRef<'a, R: Rng + ?Sized> {
    pub rng: &'a mut R,
}

/// Wraps `rng`, taking it over, as a basic generator.
pub fn as_rng<CR: CryptoRng>(rng: CR) -> (r: AsRng<CR>)
    ensures
        r.rng == rng,
{
    AsRng { rng }
}

/// Wraps `rng`, borrowing it, as a basic generator.
pub fn as_rng_ref<'a, CR: CryptoRng + ?Sized>(rng: &'a mut CR) -> (r: AsRngRef<'a, CR>)
    ensures
        &*r.rng == &*old(rng),
        &*final(r.rng) == &*final(rng),
{
    AsRngRef { rng }
}

/// Wraps `rng`, taking it over, as a secure generator.
pub fn as_crng<R: Rng>(rng: R) -> (r: AsCRng<R>)
    ensures
        r.rng == rng,
{
    AsCRng { rng }
}

/// Wraps `rng`, borrowing it, as a secure generator.
pub fn as_crng_ref<'a, R: Rng + ?Sized>(rng: &'a mut R) -> (r: AsCRngRef<'a, R>)
    ensures
        &*r.rng == &*old(rng),
        &*final(r.rng) == &*final(rng),
{
    AsCRngRef { rng }
}

impl<CR: CryptoRng + ?Sized> Rng for AsRng<CR> {
    open spec fn word_at(&self, i: nat) -> u64 {
        self.rng.outcome_at(i)->Ok_0
    }

    open spec fn word_ready(&self, i: nat) -> bool {
        self.rng.outcome_ready(i) && self.rng.outcome_at(i) is Ok
    }

    fn next_u64(&mut self) -> (r: u64) {
        self.rng.try_next_u64().unwrap()
    }

    fn next_u32(&mut self) -> (r: u32) {
        self.rng.try_next_u32().unwrap()
    }

    fn fill(&mut self, dest: &mut [u8]) {
        let ghost k = words_needed(dest@.len());
        assert forall|i: nat| i < k implies #[trigger] self.rng.outcome_ready(i) by {
            assert(self.word_ready(i));
        }
        assert forall|i: nat| i < k implies #[trigger] self.rng.outcome_at(i) is Ok by {
            assert(self.word_ready(i));
        }
        assert(Seq::new(k, |i: int| self.rng.outcome_at(i as nat)->Ok_0) == Seq::new(
            k,
            |i: int| self.word_at(i as nat),
        ));
        self.rng.try_fill(dest).unwrap()
    }
}

impl<'a, CR: CryptoRng + ?Sized> Rng for AsRngRef<'a, CR> {
    open spec fn word_at(&self, i: nat) -> u64 {
        self.rng.outcome_at(i)->Ok_0
    }

    open spec fn word_ready(&self, i: nat) -> bool {
        self.rng.outcome_ready(i) && self.rng.outcome_at(i) is Ok
    }

    fn next_u64(&mut self) -> (r: u64)
        ensures
            &*final(final(self).rng) == &*final(old(self).rng),
    {
        self.rng.try_next_u64().unwrap()
    }

    fn next_u32(&mut self) -> (r: u32)
        ensures
            &*final(final(self).rng) == &*final(old(self).rng),
    {
        self.rng.try_next_u32().unwrap()
    }

    fn fill(&mut self, dest: &mut [u8])
        ensures
            &*final(final(self).rng) == &*final(old(self).rng),
    {
        let ghost k = words_needed(dest@.len());
        assert forall|i: nat| i < k implies #[trigger] self.rng.outcome_ready(i) by {
            assert(self.word_ready(i));
        }
        assert forall|i: nat| i < k implies #[trigger] self.rng.outcome_at(i) is Ok by {
            assert(self.word_ready(i));
        }
        assert(Seq::new(k, |i: int| self.rng.outcome_at(i as nat)->Ok_0) == Seq::new(
            k,
            |i: int| self.word_at(i as nat),
        ));
        self.rng.try_fill(dest).unwrap()
    }
}

impl<R: Rng + ?Sized> CryptoRng for AsCRng<R> {
    open spec fn outcome_at(&self, i: nat) -> Result<u64, Error> {
        Ok(self.rng.word_at(i))
    }

    open spec fn outcome_ready(&self, i: nat) -> bool {
        self.rng.word_ready(i)
    }

    fn try_next_u64(&mut self) -> (r: Result<u64, Error>) {
        Ok(self.rng.next_u64())
    }

    fn try_next_u32(&mut self) -> (r: Result<u32, Error>) {
        Ok(self.rng.next_u32())
    }

    fn try_fill(&mut self, dest: &mut [u8]) -> (r: Result<(), Error>) {
        let ghost k = words_needed(dest@.len());
        assert forall|i: nat| i < k implies #[trigger] self.rng.word_ready(i) by {
            assert(self.outcome_ready(i));
        }
        assert(Seq::new(k, |i: int| self.outcome_at(i as nat)->Ok_0) == Seq::new(
            k,
            |i: int| self.rng.word_at(i as nat),
        ));
        self.rng.fill(dest);
        Ok(())
    }
}

impl<'a, R: Rng + ?Sized> CryptoRng for AsCRngRef<'a, R> {
    open spec fn outcome_at(&self, i: nat) -> Result<u64, Error> {
        Ok(self.rng.word_at(i))
    }

    open spec fn outcome_ready(&self, i: nat) -> bool {
        self.rng.word_ready(i)
    }

    fn try_next_u64(&mut self) -> (r: Result<u64, Error>)
        ensures
            &*final(final(self).rng) == &*final(old(self).rng),
    {
        Ok(self.rng.next_u64())
    }

    fn try_next_u32(&mut self) -> (r: Result<u32, Error>)
        ensures
            &*final(final(self).rng) == &*final(old(self).rng),
    {
        Ok(self.rng.next_u32())
    }

    fn try_fill(&mut self, dest: &mut [u8]) -> (r: Result<(), Error>)
        ensures
            &*final(final(self).rng) == &*final(old(self).rng),
    {
        let ghost k = words_needed(dest@.len());
        assert forall|i: nat| i < k implies #[trigger] self.rng.word_ready(i) by {
            assert(self.outcome_ready(i));
        }
        assert(Seq::new(k, |i: int| self.outcome_at(i as nat)->Ok_0) == Seq::new(
            k,
            |i: int| self.rng.word_at(i as nat),
        ));
        self.rng.fill(dest);
        Ok(())
    }
}

} // verus!
