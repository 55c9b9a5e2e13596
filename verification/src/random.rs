//! Where the engine gets its random numbers from.

use vstd::prelude::*;
use rand::Rng;
use crate::cell::Count;

verus! {

/// A source of random numbers. The engine draws from one when it lays the
/// mines, and asks of it only that each draw lies below the bound it gives.
pub trait RandomSource {
    /// A number from 0 up to, and without, `bound`.
    fn below(&mut self, bound: Count) -> (draw: Count)
        requires
            bound > 0,
        ensures
            draw < bound,
    ;
}

#[verifier::external_type_specification]
#[verifier::external_body]
pub struct ExThreadRng(rand::rngs::ThreadRng);

/// `rand::rng`: a handle to the random number generator of the current thread.
/// Nothing is claimed of it.
#[verifier::external_body]
fn thread_rng() -> rand::rngs::ThreadRng {
    rand::rng()
}

/// `rand::Rng::random_range` on the range from 0 up to, and without, `bound`.
/// The range must not be empty, or the call panics; the result lies in the
/// range. Which number of the range comes back is left open.
#[verifier::external_body]
fn random_below(rng: &mut rand::rngs::ThreadRng, bound: Count) -> (draw: Count)
    requires
        bound > 0,
    ensures
        draw < bound,
{
    rng.random_range(0..bound)
}

/// The random number generator of the current thread.
pub struct ThreadRandom {
    rng: rand::rngs::ThreadRng,
}

impl ThreadRandom {
    pub fn new() -> ThreadRandom {
        ThreadRandom { rng: thread_rng() }
    }
}

impl RandomSource for ThreadRandom {
    fn below(&mut self, bound: Count) -> (draw: Count) {
        random_below(&mut self.rng, bound)
    }
}

/// A source that deals out numbers written down beforehand, for games that
/// must come out the same each time. A number that is not below the bound
/// asked for is brought below it by taking the remainder; when the numbers have
/// run out, every draw is 0.
pub struct Scripted {
    draws: Vec<Count>,
    next: usize,
}

impl Scripted {
    /// The numbers that are still to come.
    pub closed spec fn pending(&self) -> Seq<Count> {
        if self.next <= self.draws@.len() {
            self.draws@.skip(self.next as int)
        } else {
            Seq::empty()
        }
    }

    /// A source that deals out `draws` from the first on.
    pub fn new(draws: Vec<Count>) -> (source: Scripted)
        ensures
            source.pending() == draws@,
    {
        Scripted { draws, next: 0 }
    }

    /// What a draw below `bound` gives when `pending` is still to come.
    pub open spec fn dealt(pending: Seq<Count>, bound: Count) -> Count {
        if pending.len() == 0 {
            0
        } else {
            (pending[0] % bound) as Count
        }
    }
}

impl RandomSource for Scripted {
    fn below(&mut self, bound: Count) -> (draw: Count)
        ensures
            draw == Scripted::dealt(old(self).pending(), bound),
            final(self).pending() == if old(self).pending().len() > 0 {
                old(self).pending().skip(1)
            } else {
                old(self).pending()
            },
    {
        if self.next < self.draws.len() {
            let draw = self.draws[self.next] % bound;
            self.next = self.next + 1;
            assert(self.pending() =~= old(self).pending().skip(1));
            draw
        } else {
            assert(self.pending() =~= old(self).pending());
            0
        }
    }
}

} // verus!
