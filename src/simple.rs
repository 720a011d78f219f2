//! Small deterministic generators: a constant word, a counter, and secure
//! generators that succeed, fail, or run out.
use vstd::prelude::*;

use crate::basic::Rng;
use crate::secure::{CryptoRng, Error};

verus! {

/// The `i`-th value of a 64-bit counter that starts at `start` and wraps.
pub open spec fn counter_word(start: u64, i: nat) -> u64 {
    ((start as nat + i) % 0x1_0000_0000_0000_0000) as u64
}

/// The counter value after `start`, wrapping to zero.
fn step(start: u64) -> (r: u64)
    ensures
        forall|i: nat| #[trigger] counter_word(r, i) == counter_word(start, i + 1),
{
    if start == u64::MAX {
        proof {
            assert forall|i: nat| #[trigger] counter_word(0, i) == counter_word(start, i + 1) by {
                assert((start as nat + (i + 1)) == i + 0x1_0000_0000_0000_0000);
            }
        }
        0
    } else {
        start + 1
    }
}

/// A basic generator whose every draw yields the same word.
#[derive(Debug)]
pub struct FixedRng(pub u64);

impl Rng for FixedRng {
    open spec fn word_at(&self, i: nat) -> u64 {
        self.0
    }

    open spec fn word_ready(&self, i: nat) -> bool {
        true
    }

    fn next_u64(&mut self) -> (r: u64) {
        self.0
    }
}

/// A basic generator counting up from its word, wrapping at the top.
#[derive(Debug)]
pub struct CounterRng(pub u64);

impl Rng for CounterRng {
    open spec fn word_at(&self, i: nat) -> u64 {
        counter_word(self.0, i)
    }

    open spec fn word_ready(&self, i: nat) -> bool {
        true
    }

    fn next_u64(&mut self) -> (r: u64) {
        let r = self.0;
        self.0 = step(r);
        r
    }
}

/// A secure generator whose every draw succeeds with the same word.
#[derive(Debug)]
pub struct FixedCryptoRng(pub u64);

impl CryptoRng for FixedCryptoRng {
    open spec fn outcome_at(&self, i: nat) -> Result<u64, Error> {
        Ok(self.0)
    }

    open spec fn outcome_ready(&self, i: nat) -> bool {
        true
    }

    fn try_next_u64(&mut self) -> (r: Result<u64, Error>) {
        Ok(self.0)
    }
}

/// A secure generator that cannot produce a value: every draw fails.
#[derive(Debug)]
pub struct FailingCryptoRng;

impl CryptoRng for FailingCryptoRng {
    open spec fn outcome_at(&self, i: nat) -> Result<u64, Error> {
        Err(Error)
    }

    open spec fn outcome_ready(&self, i: nat) -> bool {
        true
    }

    fn try_next_u64(&mut self) -> (r: Result<u64, Error>) {
        Err(Error)
    }
}

/// A secure counter with a budget: the next `remaining` draws succeed,
/// counting up from `next`; every draw after them fails.
#[derive(Debug)]
pub struct LimitedCryptoRng {
    pub next: u64,
    pub remaining: u64,
}

impl CryptoRng for LimitedCryptoRng {
    open spec fn outcome_at(&self, i: nat) -> Result<u64, Error> {
        if i < self.remaining {
            Ok(counter_word(self.next, i))
        } else {
            Err(Error)
        }
    }

    open spec fn outcome_ready(&self, i: nat) -> bool {
        true
    }

    fn try_next_u64(&mut self) -> (r: Result<u64, Error>) {
        if self.remaining == 0 {
            Err(Error)
        } else {
            let r = self.next;
            self.next = step(r);
            self.remaining = self.remaining - 1;
            Ok(r)
        }
    }
}

/// A generator that offers both capabilities natively, drawing the same
/// fixed word through either.
#[derive(Debug)]
pub struct DualRng(pub u64);

impl Rng for DualRng {
    open spec fn word_at(&self, i: nat) -> u64 {
        self.0
    }

    open spec fn word_ready(&self, i: nat) -> bool {
        true
    }

    fn next_u64(&mut self) -> (r: u64) {
        self.0
    }
}

impl CryptoRng for DualRng {
    open spec fn outcome_at(&self, i: nat) -> Result<u64, Error> {
        Ok(self.0)
    }

    open spec fn outcome_ready(&self, i: nat) -> bool {
        true
    }

    fn try_next_u64(&mut self) -> (r: Result<u64, Error>) {
        Ok(self.0)
    }
}

} // verus!
