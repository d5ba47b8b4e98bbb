//! Number generators that supply values to analyse: one that draws from the
//! thread's random generator, and one of deliberately poor quality.

use vstd::prelude::*;
use vstd::wrapping::u64_specs::wrapping_add;
use std::marker::PhantomData;

verus! {

/// A source of random values of type `T`. It may end after any value.
pub struct RandIter<T> {
    _phantom: PhantomData<T>,
}

/// Calls `rand::random` for an `Option<u64>`, which draws from the thread's
/// random generator: first whether there is a value, then the value.
/// Nothing is claimed of what comes back. The call panics where the
/// generator cannot be seeded from the operating system.
#[verifier::external_body]
fn random_value() -> (drawn: Option<u64>) {
    rand::random()
}

/// Calls `rand::random` for an `Option<char>`, which draws from the thread's
/// random generator: first whether there is a character, then the character.
/// Nothing is claimed of what comes back. The call panics where the
/// generator cannot be seeded from the operating system.
#[verifier::external_body]
fn random_char() -> (drawn: Option<char>) {
    rand::random()
}

impl<T> RandIter<T> {
    /// A new source.
    pub fn new() -> (source: RandIter<T>) {
        RandIter { _phantom: PhantomData }
    }
}

impl RandIter<u64> {
    /// Draws the next value, or the end of the sequence.
    pub fn next(&mut self) -> (drawn: Option<u64>) {
        random_value()
    }

    /// Draws values until the sequence ends, `limit` of them at most.
    pub fn take(&mut self, limit: usize) -> (drawn: Vec<u64>)
        ensures
            drawn@.len() <= limit,
    {
        let mut drawn: Vec<u64> = Vec::new();
        while drawn.len() < limit
            invariant
                drawn@.len() <= limit,
            decreases limit - drawn@.len(),
        {
            let draw = self.next();
            if !push_drawn(&mut drawn, draw) {
                break ;
            }
        }
        drawn
    }
}

impl RandIter<char> {
    /// Draws the next character, or the end of the sequence.
    pub fn next(&mut self) -> (drawn: Option<char>) {
        random_char()
    }

    /// Draws characters until the sequence ends, `limit` of them at most.
    pub fn take(&mut self, limit: usize) -> (drawn: Vec<char>)
        ensures
            drawn@.len() <= limit,
    {
        let mut drawn: Vec<char> = Vec::new();
        while drawn.len() < limit
            invariant
                drawn@.len() <= limit,
            decreases limit - drawn@.len(),
        {
            let draw = self.next();
            if !push_drawn(&mut drawn, draw) {
                break ;
            }
        }
        drawn
    }
}

/// Takes one draw into the values drawn so far: a value is appended, and
/// more may follow; the end of the sequence leaves the values as they are,
/// and nothing follows.
pub fn push_drawn<T>(drawn: &mut Vec<T>, draw: Option<T>) -> (more: bool)
    ensures
        more == draw is Some,
        draw matches Some(value) ==> final(drawn)@ == old(drawn)@.push(value),
        draw is None ==> final(drawn)@ == old(drawn)@,
{
    match draw {
        Some(value) => {
            drawn.push(value);
            true
        },
        None => false,
    }
}

/// The state that `BadRand` starts from.
pub const BAD_RAND_SEED: u64 = 0xABFABFABF1015;

/// `x` rotated to the left by seven bits.
pub open spec fn rotated(x: u64) -> u64 {
    (x << 7) | (x >> 57)
}

/// The value that `BadRand` gives out in state `state`.
pub open spec fn bad_rand_output(state: u64) -> u64 {
    wrapping_add(rotated(state ^ 0xD00DD00DD000DD0F), 0x2947ABCD)
}

/// The state of `BadRand` after `steps` steps from `state`: a counter that
/// wraps around.
pub open spec fn bad_rand_state(state: u64, steps: nat) -> u64 {
    ((state + steps) % 0x1_0000_0000_0000_0000) as u64
}

/// A generator of poor quality: a counter, lightly disguised.
#[derive(Clone, Copy)]
pub struct BadRand {
    state: u64,
}

impl BadRand {
    /// The counter behind the values.
    pub closed spec fn state(&self) -> u64 {
        self.state
    }

    /// A generator in its first state.
    pub fn new() -> (source: BadRand)
        ensures
            source.state() == BAD_RAND_SEED,
    {
        BadRand { state: BAD_RAND_SEED }
    }

    /// Steps the counter and gives out the value of the new state. The
    /// sequence never ends.
    pub fn next(&mut self) -> (value: Option<u64>)
        ensures
            final(self).state() == bad_rand_state(old(self).state(), 1),
            value == Some(bad_rand_output(final(self).state())),
    {
        self.state = self.state.wrapping_add(1);
        let mixed: u64 = self.state ^ 0xD00DD00DD000DD0F;
        Some(((mixed << 7) | (mixed >> 57)).wrapping_add(0x2947ABCD))
    }

    /// Gives out the next `count` values.
    pub fn take(&mut self, count: usize) -> (values: Vec<u64>)
        ensures
            values@.len() == count,
            forall|i: int|
                0 <= i < count ==> values@[i] == bad_rand_output(
                    bad_rand_state(old(self).state(), (i + 1) as nat),
                ),
            final(self).state() == bad_rand_state(old(self).state(), count as nat),
    {
        let mut values: Vec<u64> = Vec::new();
        while values.len() < count
            invariant
                values@.len() <= count,
                forall|i: int|
                    0 <= i < values@.len() ==> values@[i] == bad_rand_output(
                        bad_rand_state(old(self).state(), (i + 1) as nat),
                    ),
                self.state() == bad_rand_state(old(self).state(), values@.len()),
            decreases count - values@.len(),
        {
            let ghost done = values@.len();
            match self.next() {
                Some(value) => {
                    proof {
                        lemma_state_step(old(self).state(), done);
                    }
                    values.push(value);
                },
                None => {},
            }
        }
        values
    }
}

/// One step after `steps` steps is `steps + 1` steps.
proof fn lemma_state_step(state: u64, steps: nat)
    ensures
        bad_rand_state(bad_rand_state(state, steps), 1) == bad_rand_state(state, steps + 1),
{
    let m = 0x1_0000_0000_0000_0000int;
    vstd::arithmetic::div_mod::lemma_add_mod_noop(state + steps, 1, m);
    vstd::arithmetic::div_mod::lemma_small_mod(1, m as nat);
}

} // verus!
