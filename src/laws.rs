//! Laws that relate the operations of the two capabilities and the bridges.
use vstd::prelude::*;

use crate::basic::{advanced, drawn, Rng};
use crate::bridge::{AsCRng, AsRng};
use crate::bytes::{fill_bytes, words_needed};
use crate::secure::{CryptoRng, Error};

verus! {

/// `after` and `w` are what one call of `next_u64` on `before` may leave and
/// return.
pub open spec fn draws_word<R: Rng>(before: R, after: R, w: u64) -> bool {
    &&& before.word_ready(0)
    &&& w == before.word_at(0)
    &&& advanced(&before, &after, 1)
}

/// Over a run of successive `next_u64` calls, the words returned are the
/// words the first state was going to draw, and the last state is the first
/// one advanced by the number of calls.
proof fn lemma_draw_run<R: Rng>(states: Seq<R>, words: Seq<u64>, j: nat)
    requires
        states.len() == words.len() + 1,
        j <= words.len(),
        forall|m: int|
            0 <= m < words.len() ==> #[trigger] draws_word(states[m], states[m + 1], words[m]),
    ensures
        words.take(j as int) == drawn(&states[0], j),
        advanced(&states[0], &states[j as int], j),
    decreases j,
{
    if j > 0 {
        let p = (j - 1) as nat;
        lemma_draw_run(states, words, p);
        assert(draws_word(states[p as int], states[p as int + 1], words[p as int]));
        assert(states[p as int + 1] == states[j as int]);
        assert(states[p as int].word_at(0) == states[0].word_at(0 + p));
        assert(words.take(j as int) == words.take(p as int).push(words[p as int]));
        assert(drawn(&states[0], j) == drawn(&states[0], p).push(states[0].word_at(p)));
        assert forall|i: nat| #[trigger] states[j as int].word_at(i) == states[0].word_at(i + j) by {
            assert(states[p as int].word_at(i + 1) == states[0].word_at(i + 1 + p));
        }
        assert forall|i: nat| #[trigger] states[j as int].word_ready(i) == states[0].word_ready(i + j) by {
            assert(states[p as int].word_ready(i + 1) == states[0].word_ready(i + 1 + p));
        }
    }
}

/// Filling is drawing: if a generator passes through `states` over
/// `ceil(len / 8)` successive `next_u64` calls that return `words`, then
/// `fill` on a destination of `len` bytes from the first state writes the
/// first `len` bytes of the little-endian serializations of `words`, and
/// leaves the generator with the draws ahead of it that those calls leave.
pub proof fn lemma_fill_is_successive_draws<R: Rng>(states: Seq<R>, words: Seq<u64>, len: nat)
    requires
        words.len() == words_needed(len),
        states.len() == words.len() + 1,
        forall|m: int|
            0 <= m < words.len() ==> #[trigger] draws_word(states[m], states[m + 1], words[m]),
    ensures
        fill_bytes(drawn(&states[0], words_needed(len)), len) == fill_bytes(words, len),
        advanced(&states[0], &states.last(), words_needed(len)),
{
    lemma_draw_run(states, words, words.len());
    assert(words.take(words.len() as int) == words);
}

/// Wrapping a basic generator as a secure one keeps every draw: each
/// succeeds with the word the basic generator would have drawn, and is made
/// exactly where the basic generator's draw would be.
pub proof fn lemma_as_crng_draws<R: Rng>(rng: R, i: nat)
    ensures
        (AsCRng { rng }).outcome_at(i) == Ok::<u64, Error>(rng.word_at(i)),
        (AsCRng { rng }).outcome_ready(i) == rng.word_ready(i),
{
}

/// Wrapping a secure generator as a basic one turns each failure into a
/// fatal stop: a draw of the bridge can be made exactly where the wrapped
/// draw returns and succeeds, and then yields the wrapped word.
pub proof fn lemma_as_rng_draws<CR: CryptoRng>(rng: CR, i: nat)
    ensures
        (AsRng { rng }).word_ready(i) <==> rng.outcome_ready(i) && rng.outcome_at(i) is Ok,
        rng.outcome_at(i) is Err ==> !(AsRng { rng }).word_ready(i),
        (AsRng { rng }).word_ready(i) ==> rng.outcome_at(i) == Ok::<u64, Error>(
            (AsRng { rng }).word_at(i),
        ),
{
}

} // verus!
