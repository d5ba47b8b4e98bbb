//! The transform pipeline: sequences derived from one base sequence, each
//! analysed on its own.

use vstd::prelude::*;
use itertools::Itertools;
use std::hash::{BuildHasher, Hash};
use crate::analysis::Report;
use crate::hashing::{build_hasher, hash_each};
use crate::sample::{lemma_take_next, value_sum};

verus! {

/// One stage of the bit mixer: bits move down by `shift` into the positions
/// of `down`, then up by `shift` into the positions of `up`.
pub open spec fn butterfly(x: u64, shift: u64, down: u64, up: u64) -> u64 {
    let y = x ^ ((x >> shift) & down);
    y ^ ((y << shift) & up)
}

/// The bit mixer: six butterfly stages, from halves of the word down to
/// single bits.
pub open spec fn hadamard(x: u64) -> u64 {
    let x = butterfly(x, 32, 0x0000_0000_FFFF_FFFF, 0xFFFF_FFFF_0000_0000);
    let x = butterfly(x, 16, 0x0000_FFFF_0000_FFFF, 0xFFFF_0000_FFFF_0000);
    let x = butterfly(x, 8, 0x00FF_00FF_00FF_00FF, 0xFF00_FF00_FF00_FF00);
    let x = butterfly(x, 4, 0x0F0F_0F0F_0F0F_0F0F, 0xF0F0_F0F0_F0F0_F0F0);
    let x = butterfly(x, 2, 0x3333_3333_3333_3333, 0xCCCC_CCCC_CCCC_CCCC);
    butterfly(x, 1, 0xAAAA_AAAA_AAAA_AAAA, 0x5555_5555_5555_5555)
}

/// Hadamard-like transform of one value.
pub fn had(x: u64) -> (mixed: u64)
    ensures
        mixed == hadamard(x),
{
    let mut x = x;
    x ^= (x >> 32) & 0x0000_0000_FFFF_FFFF;
    x ^= (x << 32) & 0xFFFF_FFFF_0000_0000;
    x ^= (x >> 16) & 0x0000_FFFF_0000_FFFF;
    x ^= (x << 16) & 0xFFFF_0000_FFFF_0000;
    x ^= (x >> 8) & 0x00FF_00FF_00FF_00FF;
    x ^= (x << 8) & 0xFF00_FF00_FF00_FF00;
    x ^= (x >> 4) & 0x0F0F_0F0F_0F0F_0F0F;
    x ^= (x << 4) & 0xF0F0_F0F0_F0F0_F0F0;
    x ^= (x >> 2) & 0x3333_3333_3333_3333;
    x ^= (x << 2) & 0xCCCC_CCCC_CCCC_CCCC;
    x ^= (x >> 1) & 0xAAAA_AAAA_AAAA_AAAA;
    x ^= (x << 1) & 0x5555_5555_5555_5555;
    x
}

/// What undoes one stage of the bit mixer.
pub open spec fn unbutterfly(x: u64, shift: u64, down: u64, up: u64) -> u64 {
    let y = x ^ ((x << shift) & up);
    y ^ ((y >> shift) & down)
}

/// What undoes the bit mixer: its stages undone, the last one first.
pub open spec fn hadamard_inverse(x: u64) -> u64 {
    let x = unbutterfly(x, 1, 0xAAAA_AAAA_AAAA_AAAA, 0x5555_5555_5555_5555);
    let x = unbutterfly(x, 2, 0x3333_3333_3333_3333, 0xCCCC_CCCC_CCCC_CCCC);
    let x = unbutterfly(x, 4, 0x0F0F_0F0F_0F0F_0F0F, 0xF0F0_F0F0_F0F0_F0F0);
    let x = unbutterfly(x, 8, 0x00FF_00FF_00FF_00FF, 0xFF00_FF00_FF00_FF00);
    let x = unbutterfly(x, 16, 0x0000_FFFF_0000_FFFF, 0xFFFF_0000_FFFF_0000);
    unbutterfly(x, 32, 0x0000_0000_FFFF_FFFF, 0xFFFF_FFFF_0000_0000)
}

/// The bit mixer is a permutation of the 64-bit values: every mixed value
/// leads back to the value it came from, and every value is the mixed form
/// of one, so no two values are mixed into the same one.
pub proof fn law_hadamard_is_a_permutation(x: u64, y: u64)
    ensures
        hadamard_inverse(hadamard(x)) == x,
        hadamard(hadamard_inverse(x)) == x,
        hadamard(x) == hadamard(y) ==> x == y,
{
    lemma_hadamard_undone(x);
    lemma_hadamard_undone(y);
}

/// Every stage of the bit mixer is undone by its counterpart, and undoes
/// it.
proof fn lemma_stages_undone(x: u64)
    ensures
        unbutterfly(butterfly(x, 32, 0x0000_0000_FFFF_FFFF, 0xFFFF_FFFF_0000_0000), 32, 0x0000_0000_FFFF_FFFF, 0xFFFF_FFFF_0000_0000) == x,
        butterfly(unbutterfly(x, 32, 0x0000_0000_FFFF_FFFF, 0xFFFF_FFFF_0000_0000), 32, 0x0000_0000_FFFF_FFFF, 0xFFFF_FFFF_0000_0000) == x,
        unbutterfly(butterfly(x, 16, 0x0000_FFFF_0000_FFFF, 0xFFFF_0000_FFFF_0000), 16, 0x0000_FFFF_0000_FFFF, 0xFFFF_0000_FFFF_0000) == x,
        butterfly(unbutterfly(x, 16, 0x0000_FFFF_0000_FFFF, 0xFFFF_0000_FFFF_0000), 16, 0x0000_FFFF_0000_FFFF, 0xFFFF_0000_FFFF_0000) == x,
        unbutterfly(butterfly(x, 8, 0x00FF_00FF_00FF_00FF, 0xFF00_FF00_FF00_FF00), 8, 0x00FF_00FF_00FF_00FF, 0xFF00_FF00_FF00_FF00) == x,
        butterfly(unbutterfly(x, 8, 0x00FF_00FF_00FF_00FF, 0xFF00_FF00_FF00_FF00), 8, 0x00FF_00FF_00FF_00FF, 0xFF00_FF00_FF00_FF00) == x,
        unbutterfly(butterfly(x, 4, 0x0F0F_0F0F_0F0F_0F0F, 0xF0F0_F0F0_F0F0_F0F0), 4, 0x0F0F_0F0F_0F0F_0F0F, 0xF0F0_F0F0_F0F0_F0F0) == x,
        butterfly(unbutterfly(x, 4, 0x0F0F_0F0F_0F0F_0F0F, 0xF0F0_F0F0_F0F0_F0F0), 4, 0x0F0F_0F0F_0F0F_0F0F, 0xF0F0_F0F0_F0F0_F0F0) == x,
        unbutterfly(butterfly(x, 2, 0x3333_3333_3333_3333, 0xCCCC_CCCC_CCCC_CCCC), 2, 0x3333_3333_3333_3333, 0xCCCC_CCCC_CCCC_CCCC) == x,
        butterfly(unbutterfly(x, 2, 0x3333_3333_3333_3333, 0xCCCC_CCCC_CCCC_CCCC), 2, 0x3333_3333_3333_3333, 0xCCCC_CCCC_CCCC_CCCC) == x,
        unbutterfly(butterfly(x, 1, 0xAAAA_AAAA_AAAA_AAAA, 0x5555_5555_5555_5555), 1, 0xAAAA_AAAA_AAAA_AAAA, 0x5555_5555_5555_5555) == x,
        butterfly(unbutterfly(x, 1, 0xAAAA_AAAA_AAAA_AAAA, 0x5555_5555_5555_5555), 1, 0xAAAA_AAAA_AAAA_AAAA, 0x5555_5555_5555_5555) == x,
{
    assert(unbutterfly(butterfly(x, 32, 0x0000_0000_FFFF_FFFF, 0xFFFF_FFFF_0000_0000), 32, 0x0000_0000_FFFF_FFFF, 0xFFFF_FFFF_0000_0000) == x) by (bit_vector);
    assert(butterfly(unbutterfly(x, 32, 0x0000_0000_FFFF_FFFF, 0xFFFF_FFFF_0000_0000), 32, 0x0000_0000_FFFF_FFFF, 0xFFFF_FFFF_0000_0000) == x) by (bit_vector);
    assert(unbutterfly(butterfly(x, 16, 0x0000_FFFF_0000_FFFF, 0xFFFF_0000_FFFF_0000), 16, 0x0000_FFFF_0000_FFFF, 0xFFFF_0000_FFFF_0000) == x) by (bit_vector);
    assert(butterfly(unbutterfly(x, 16, 0x0000_FFFF_0000_FFFF, 0xFFFF_0000_FFFF_0000), 16, 0x0000_FFFF_0000_FFFF, 0xFFFF_0000_FFFF_0000) == x) by (bit_vector);
    assert(unbutterfly(butterfly(x, 8, 0x00FF_00FF_00FF_00FF, 0xFF00_FF00_FF00_FF00), 8, 0x00FF_00FF_00FF_00FF, 0xFF00_FF00_FF00_FF00) == x) by (bit_vector);
    assert(butterfly(unbutterfly(x, 8, 0x00FF_00FF_00FF_00FF, 0xFF00_FF00_FF00_FF00), 8, 0x00FF_00FF_00FF_00FF, 0xFF00_FF00_FF00_FF00) == x) by (bit_vector);
    assert(unbutterfly(butterfly(x, 4, 0x0F0F_0F0F_0F0F_0F0F, 0xF0F0_F0F0_F0F0_F0F0), 4, 0x0F0F_0F0F_0F0F_0F0F, 0xF0F0_F0F0_F0F0_F0F0) == x) by (bit_vector);
    assert(butterfly(unbutterfly(x, 4, 0x0F0F_0F0F_0F0F_0F0F, 0xF0F0_F0F0_F0F0_F0F0), 4, 0x0F0F_0F0F_0F0F_0F0F, 0xF0F0_F0F0_F0F0_F0F0) == x) by (bit_vector);
    assert(unbutterfly(butterfly(x, 2, 0x3333_3333_3333_3333, 0xCCCC_CCCC_CCCC_CCCC), 2, 0x3333_3333_3333_3333, 0xCCCC_CCCC_CCCC_CCCC) == x) by (bit_vector);
    assert(butterfly(unbutterfly(x, 2, 0x3333_3333_3333_3333, 0xCCCC_CCCC_CCCC_CCCC), 2, 0x3333_3333_3333_3333, 0xCCCC_CCCC_CCCC_CCCC) == x) by (bit_vector);
    assert(unbutterfly(butterfly(x, 1, 0xAAAA_AAAA_AAAA_AAAA, 0x5555_5555_5555_5555), 1, 0xAAAA_AAAA_AAAA_AAAA, 0x5555_5555_5555_5555) == x) by (bit_vector);
    assert(butterfly(unbutterfly(x, 1, 0xAAAA_AAAA_AAAA_AAAA, 0x5555_5555_5555_5555), 1, 0xAAAA_AAAA_AAAA_AAAA, 0x5555_5555_5555_5555) == x) by (bit_vector);
}

proof fn lemma_hadamard_undone(x: u64)
    ensures
        hadamard_inverse(hadamard(x)) == x,
        hadamard(hadamard_inverse(x)) == x,
{
    let x1 = butterfly(x, 32, 0x0000_0000_FFFF_FFFF, 0xFFFF_FFFF_0000_0000);
    let x2 = butterfly(x1, 16, 0x0000_FFFF_0000_FFFF, 0xFFFF_0000_FFFF_0000);
    let x3 = butterfly(x2, 8, 0x00FF_00FF_00FF_00FF, 0xFF00_FF00_FF00_FF00);
    let x4 = butterfly(x3, 4, 0x0F0F_0F0F_0F0F_0F0F, 0xF0F0_F0F0_F0F0_F0F0);
    let x5 = butterfly(x4, 2, 0x3333_3333_3333_3333, 0xCCCC_CCCC_CCCC_CCCC);
    lemma_stages_undone(x);
    lemma_stages_undone(x1);
    lemma_stages_undone(x2);
    lemma_stages_undone(x3);
    lemma_stages_undone(x4);
    lemma_stages_undone(x5);
    let y1 = unbutterfly(x, 1, 0xAAAA_AAAA_AAAA_AAAA, 0x5555_5555_5555_5555);
    let y2 = unbutterfly(y1, 2, 0x3333_3333_3333_3333, 0xCCCC_CCCC_CCCC_CCCC);
    let y3 = unbutterfly(y2, 4, 0x0F0F_0F0F_0F0F_0F0F, 0xF0F0_F0F0_F0F0_F0F0);
    let y4 = unbutterfly(y3, 8, 0x00FF_00FF_00FF_00FF, 0xFF00_FF00_FF00_FF00);
    let y5 = unbutterfly(y4, 16, 0x0000_FFFF_0000_FFFF, 0xFFFF_0000_FFFF_0000);
    lemma_stages_undone(y1);
    lemma_stages_undone(y2);
    lemma_stages_undone(y3);
    lemma_stages_undone(y4);
    lemma_stages_undone(y5);
}

/// A single-pass fold over a value sequence: a state is carried from one
/// value to the next, and every value gives one output.
pub struct StateMap<'a, F, S> {
    iter: &'a [u64],
    pos: usize,
    fun: F,
    state: S,
}

impl<'a, F, S> StateMap<'a, F, S> {
    #[verifier::type_invariant]
    spec fn in_bounds(&self) -> bool {
        self.pos <= self.iter@.len()
    }

    /// The inputs that have not been taken yet.
    pub closed spec fn remaining(&self) -> Seq<u64> {
        self.iter@.skip(self.pos as int)
    }

    /// The state that the next input is combined with.
    pub closed spec fn state(&self) -> S {
        self.state
    }

    /// The combining function.
    pub closed spec fn fun(&self) -> F {
        self.fun
    }
}

impl<'a, F: Fn(S, u64) -> (S, u64), S: Copy> StateMap<'a, F, S> {
    /// A fold over `iter` that starts in `state` and combines with `fun`.
    pub fn new(iter: &'a [u64], fun: F, state: S) -> (map: Self)
        ensures
            map.remaining() == iter@,
            map.state() == state,
            map.fun() == fun,
    {
        assert(iter@.skip(0) =~= iter@);
        StateMap { iter, pos: 0, fun, state }
    }

    /// Combines the state with the next input. Returns the output, or `None`
    /// when no input is left.
    pub fn next(&mut self) -> (out: Option<u64>)
        requires
            old(self).remaining().len() > 0 ==> call_requires(
                old(self).fun(),
                (old(self).state(), old(self).remaining()[0]),
            ),
        ensures
            final(self).fun() == old(self).fun(),
            old(self).remaining().len() == 0 ==> out is None && final(self).state() == old(
                self,
            ).state() && final(self).remaining() == old(self).remaining(),
            old(self).remaining().len() > 0 ==> out is Some && final(self).remaining() == old(
                self,
            ).remaining().skip(1) && call_ensures(
                old(self).fun(),
                (old(self).state(), old(self).remaining()[0]),
                (final(self).state(), out->0),
            ),
    {
        proof {
            use_type_invariant(&*self);
        }
        if self.pos < self.iter.len() {
            let x: u64 = self.iter[self.pos];
            let (state, res) = (self.fun)(self.state, x);
            self.state = state;
            self.pos = self.pos + 1;
            assert(self.iter@.skip(self.pos as int) =~= old(self).iter@.skip(
                old(self).pos as int,
            ).skip(1));
            Some(res)
        } else {
            None
        }
    }

    /// Combines the state with every input that is left, in order. Returns
    /// the outputs, one for each input.
    pub fn collect(&mut self) -> (out: Vec<u64>)
        requires
            forall|s: S, x: u64| call_requires(old(self).fun(), (s, x)),
        ensures
            final(self).fun() == old(self).fun(),
            final(self).remaining().len() == 0,
            out@.len() == old(self).remaining().len(),
            folds(
                old(self).fun(),
                old(self).state(),
                old(self).remaining(),
                out@,
                final(self).state(),
            ),
    {
        let ghost inputs = self.remaining();
        let ghost mut states: Seq<S> = seq![self.state()];
        let mut out: Vec<u64> = Vec::new();
        loop
            invariant
                self.fun() == old(self).fun(),
                out@.len() <= inputs.len(),
                self.remaining() == inputs.skip(out@.len() as int),
                steps(self.fun(), states, inputs.take(out@.len() as int), out@),
                states[0] == old(self).state(),
                states.last() == self.state(),
                forall|s: S, x: u64| call_requires(self.fun(), (s, x)),
            ensures
                out@.len() == inputs.len(),
                self.remaining().len() == 0,
                self.fun() == old(self).fun(),
                steps(self.fun(), states, inputs, out@),
                states[0] == old(self).state(),
                states.last() == self.state(),
            decreases inputs.len() - out@.len(),
        {
            let ghost done = out@.len() as int;
            match self.next() {
                Some(y) => {
                    out.push(y);
                    proof {
                        assert(inputs.skip(done)[0] == inputs[done]);
                        assert(inputs.skip(done).skip(1) =~= inputs.skip(done + 1));
                        states = states.push(self.state());
                    }
                },
                None => {
                    assert(inputs.take(done) =~= inputs);
                    break ;
                },
            }
        }
        out
    }
}

/// The fold with `fun` passes through `states` on `inputs` and gives
/// `outputs`: every output and the state after it are what `fun` may return
/// for the state before and the input.
pub open spec fn steps<F: Fn(S, u64) -> (S, u64), S>(
    fun: F,
    states: Seq<S>,
    inputs: Seq<u64>,
    outputs: Seq<u64>,
) -> bool {
    &&& states.len() == inputs.len() + 1
    &&& outputs.len() == inputs.len()
    &&& forall|i: int|
        #![trigger outputs[i]]
        0 <= i < inputs.len() ==> call_ensures(
            fun,
            (states[i], inputs[i]),
            (states[i + 1], outputs[i]),
        )
}

/// Folding `inputs` with `fun` from the state `init` can give `outputs` and
/// leave the state `end`.
pub open spec fn folds<F: Fn(S, u64) -> (S, u64), S>(
    fun: F,
    init: S,
    inputs: Seq<u64>,
    outputs: Seq<u64>,
    end: S,
) -> bool {
    exists|states: Seq<S>|
        #[trigger] steps(fun, states, inputs, outputs) && states[0] == init && states.last()
            == end
}

/// The XOR of all values of `s`; zero for the empty sequence.
pub open spec fn xor_all(s: Seq<u64>) -> u64
    decreases s.len(),
{
    if s.len() == 0 {
        0
    } else {
        xor_all(s.drop_last()) ^ s.last()
    }
}

/// The sum of all values of `s` in wrapping 64-bit arithmetic.
pub open spec fn wrapping_sum(s: Seq<u64>) -> u64 {
    (value_sum(s) % 0x1_0000_0000_0000_0000) as u64
}

/// The XOR fold of `s`: output `i` is the XOR of the first `i + 1` values.
pub open spec fn xor_folded(s: Seq<u64>) -> Seq<u64> {
    Seq::new(s.len(), |i: int| xor_all(s.take(i + 1)))
}

/// The additive fold of `s`: output `i` is the wrapping sum of the first
/// `i + 1` values.
pub open spec fn add_folded(s: Seq<u64>) -> Seq<u64> {
    Seq::new(s.len(), |i: int| wrapping_sum(s.take(i + 1)))
}

/// The odd factor, close to 2^61, of the multiplicative scramble.
pub const SCRAMBLE_FACTOR: u64 = 0x1FFF_FFFF_FFFF_FFFF;

/// Every value of `s` times `SCRAMBLE_FACTOR`, in wrapping arithmetic.
pub open spec fn scrambled(s: Seq<u64>) -> Seq<u64> {
    Seq::new(s.len(), |i: int| ((s[i] as nat * SCRAMBLE_FACTOR as nat) % 0x1_0000_0000_0000_0000) as u64)
}

/// Every value of `s` sent through the bit mixer.
pub open spec fn mixed(s: Seq<u64>) -> Seq<u64> {
    Seq::new(s.len(), |i: int| hadamard(s[i]))
}

/// Every `n`-th value of `s`, the first one included.
pub open spec fn stepped(s: Seq<u64>, n: int) -> Seq<u64> {
    Seq::new(((s.len() + n - 1) / n) as nat, |i: int| s[i * n])
}

/// Every other value of `s`: those at the even indices.
pub open spec fn decimated(s: Seq<u64>) -> Seq<u64> {
    stepped(s, 2)
}

/// Where every step of a fold leads from the state that `carried` gives
/// for a prefix to the state that it gives for the next longer one, the
/// fold passes through the states that `carried` gives.
proof fn lemma_steps_carried<F: Fn(u64, u64) -> (u64, u64)>(
    fun: F,
    states: Seq<u64>,
    inputs: Seq<u64>,
    outputs: Seq<u64>,
    carried: spec_fn(Seq<u64>) -> u64,
    n: int,
)
    requires
        0 <= n <= inputs.len(),
        steps(fun, states, inputs, outputs),
        states[0] == carried(inputs.take(0)),
        forall|k: int, r: (u64, u64)|
            0 <= k < inputs.len() && #[trigger] call_ensures(
                fun,
                (carried(inputs.take(k)), inputs[k]),
                r,
            ) ==> r.0 == carried(inputs.take(k + 1)) && r.1 == r.0,
    ensures
        states[n] == carried(inputs.take(n)),
        n > 0 ==> outputs[n - 1] == states[n],
    decreases n,
{
    if n > 0 {
        lemma_steps_carried(fun, states, inputs, outputs, carried, n - 1);
        let y = outputs[n - 1];
        assert(call_ensures(fun, (states[n - 1], inputs[n - 1]), (states[n - 1 + 1], y)));
    }
}

/// Folds `values` with `fun` from the state `init`, where `carried` tells
/// the state after a prefix and every output is the state just reached.
fn fold_all<F: Fn(u64, u64) -> (u64, u64)>(
    values: &[u64],
    fun: F,
    init: u64,
    Ghost(carried): Ghost<spec_fn(Seq<u64>) -> u64>,
) -> (out: Vec<u64>)
    requires
        init == carried(values@.take(0)),
        forall|s: u64, x: u64| call_requires(fun, (s, x)),
        forall|k: int, r: (u64, u64)|
            0 <= k < values@.len() && #[trigger] call_ensures(
                fun,
                (carried(values@.take(k)), values@[k]),
                r,
            ) ==> r.0 == carried(values@.take(k + 1)) && r.1 == r.0,
    ensures
        out@ == Seq::new(values@.len(), |i: int| carried(values@.take(i + 1))),
{
    let mut map = StateMap::new(values, fun, init);
    let out = map.collect();
    proof {
        let states = choose|states: Seq<u64>|
            #[trigger] steps(fun, states, values@, out@) && states[0] == init && states.last()
                == map.state();
        assert forall|i: int| 0 <= i < out@.len() implies out@[i] == carried(
            values@.take(i + 1),
        ) by {
            lemma_steps_carried(fun, states, values@, out@, carried, i + 1);
        }
        assert(out@ =~= Seq::new(values@.len(), |i: int| carried(values@.take(i + 1))));
    }
    out
}

/// The XOR fold of `values`: a running XOR, one output for each value.
pub fn xor_fold(values: &[u64]) -> (out: Vec<u64>)
    ensures
        out@ == xor_folded(values@),
{
    let step = |state: u64, x: u64| -> (r: (u64, u64))
        ensures
            r == (state ^ x, state ^ x),
        { (state ^ x, state ^ x) };
    proof {
        assert forall|k: int, r: (u64, u64)|
            0 <= k < values@.len() && #[trigger] call_ensures(
                step,
                (xor_all(values@.take(k)), values@[k]),
                r,
            ) implies r.0 == xor_all(values@.take(k + 1)) && r.1 == r.0 by {
            lemma_take_next(values@, k);
        }
    }
    fold_all(values, step, 0, Ghost(|s: Seq<u64>| xor_all(s)))
}

/// The additive fold of `values`: a running sum that wraps around, one
/// output for each value.
pub fn add_fold(values: &[u64]) -> (out: Vec<u64>)
    ensures
        out@ == add_folded(values@),
{
    let step = |state: u64, x: u64| -> (r: (u64, u64))
        ensures
            r == (state.wrapping_add(x), state.wrapping_add(x)),
        { (state.wrapping_add(x), state.wrapping_add(x)) };
    proof {
        assert forall|k: int, r: (u64, u64)|
            0 <= k < values@.len() && #[trigger] call_ensures(
                step,
                (wrapping_sum(values@.take(k)), values@[k]),
                r,
            ) implies r.0 == wrapping_sum(values@.take(k + 1)) && r.1 == r.0 by {
            lemma_take_next(values@, k);
            lemma_wrapping_sum_next(values@.take(k + 1));
        }
    }
    fold_all(values, step, 0, Ghost(|s: Seq<u64>| wrapping_sum(s)))
}

/// The wrapping sum of a sequence is the wrapping sum of all but its last
/// value, plus that value, in wrapping arithmetic.
pub proof fn lemma_wrapping_sum_next(s: Seq<u64>)
    requires
        s.len() > 0,
    ensures
        wrapping_sum(s) == vstd::wrapping::u64_specs::wrapping_add(
            wrapping_sum(s.drop_last()),
            s.last(),
        ),
{
    let m = 0x1_0000_0000_0000_0000int;
    let before = value_sum(s.drop_last()) as int;
    let x = s.last() as int;
    vstd::arithmetic::div_mod::lemma_add_mod_noop(before, x, m);
    vstd::arithmetic::div_mod::lemma_small_mod(x as nat, m as nat);
    let low = before % m;
    if low + x >= m {
        vstd::arithmetic::div_mod::lemma_mod_sub_multiples_vanish(low + x, m);
        vstd::arithmetic::div_mod::lemma_small_mod((low + x - m) as nat, m as nat);
    } else {
        vstd::arithmetic::div_mod::lemma_small_mod((low + x) as nat, m as nat);
    }
}

/// The multiplicative scramble of `values`: each one times
/// `SCRAMBLE_FACTOR`, wrapping around.
pub fn prime_multiply(values: &[u64]) -> (out: Vec<u64>)
    ensures
        out@ == scrambled(values@),
{
    let mut out: Vec<u64> = Vec::new();
    let mut i: usize = 0;
    while i < values.len()
        invariant
            i <= values@.len(),
            out@.len() == i,
            forall|j: int| 0 <= j < i ==> out@[j] == scrambled(values@)[j],
        decreases values@.len() - i,
    {
        out.push(values[i].wrapping_mul(SCRAMBLE_FACTOR));
        i += 1;
    }
    assert(out@ =~= scrambled(values@));
    out
}

/// The bit-mixed form of `values`: each one sent through `had`.
pub fn had_each(values: &[u64]) -> (out: Vec<u64>)
    ensures
        out@ == mixed(values@),
{
    let mut out: Vec<u64> = Vec::new();
    let mut i: usize = 0;
    while i < values.len()
        invariant
            i <= values@.len(),
            out@.len() == i,
            forall|j: int| 0 <= j < i ==> out@[j] == hadamard(values@[j]),
        decreases values@.len() - i,
    {
        out.push(had(values[i]));
        i += 1;
    }
    assert(out@ =~= mixed(values@));
    out
}

/// Calls `itertools::Itertools::step`, which yields the next value of the
/// sequence and then skips `n - 1` values, again and again: what comes back
/// are the values at the indices 0, `n`, `2n` and so on. A step of 0 makes
/// it panic, and is left out.
#[verifier::external_body]
#[allow(deprecated)]
fn step_by(values: &[u64], n: usize) -> (out: Vec<u64>)
    requires
        n >= 1,
    ensures
        out@ == stepped(values@, n as int),
{
    values.iter().copied().step(n).collect()
}

/// The decimated form of `values`: every other value is dropped, the first
/// one is kept.
pub fn decimate(values: &[u64]) -> (out: Vec<u64>)
    ensures
        out@ == decimated(values@),
{
    step_by(values, 2)
}

/// The reports of the seven sequences that are derived from one hashed
/// sequence.
#[derive(Clone, Copy, Debug)]
pub struct Transforms {
    /// The hashed sequence as it is.
    pub plain: Report,
    /// Its XOR fold.
    pub xor: Report,
    /// Its additive fold.
    pub add: Report,
    /// Its multiplicative scramble.
    pub prime_multiply: Report,
    /// Its values hashed once more.
    pub double: Report,
    /// Its values sent through the bit mixer.
    pub had: Report,
    /// Every other one of its values.
    pub skip: Report,
}

impl Transforms {
    /// The reports are those of the sequences derived from `hashed`, where
    /// `rehashed` holds the digests of the values of `hashed`.
    pub open spec fn describes(&self, hashed: Seq<u64>, rehashed: Seq<u64>) -> bool {
        &&& self.plain.describes(hashed)
        &&& self.xor.describes(xor_folded(hashed))
        &&& self.add.describes(add_folded(hashed))
        &&& self.prime_multiply.describes(scrambled(hashed))
        &&& self.double.describes(rehashed)
        &&& self.had.describes(mixed(hashed))
        &&& self.skip.describes(decimated(hashed))
    }

    /// The reports are those of some hashed sequence of `n` digests and of
    /// `n` digests of its values.
    #[verifier::opaque]
    pub open spec fn derived_from(&self, n: nat) -> bool {
        exists|hashed: Seq<u64>, rehashed: Seq<u64>|
            #![trigger self.describes(hashed, rehashed)]
            hashed.len() == n && rehashed.len() == n && self.describes(hashed, rehashed)
    }

    /// Derives the seven sequences from `hashed` and analyses each. The
    /// digests of the values of `hashed` are taken from `rehashed`.
    pub fn analyse(hashed: &[u64], rehashed: &[u64]) -> (reports: Transforms)
        ensures
            reports.describes(hashed@, rehashed@),
    {
        let xor = xor_fold(hashed);
        let add = add_fold(hashed);
        let scramble = prime_multiply(hashed);
        let mix = had_each(hashed);
        let every_other = decimate(hashed);
        Transforms {
            plain: Report::new(hashed),
            xor: Report::new(xor.as_slice()),
            add: Report::new(add.as_slice()),
            prime_multiply: Report::new(scramble.as_slice()),
            double: Report::new(rehashed),
            had: Report::new(mix.as_slice()),
            skip: Report::new(every_other.as_slice()),
        }
    }

    /// Hashes every item through a fresh duplicate of a hasher of `builder`,
    /// hashes every digest once more in the same way, and analyses the seven
    /// sequences derived from the digests. What the digests are is up to the
    /// hash function; there is one for each item.
    pub fn new<B: BuildHasher, T: Hash>(builder: &B, items: &[T]) -> (reports: Transforms)
        where B::Hasher: Clone
        ensures
            reports.derived_from(items@.len()),
    {
        let hasher = build_hasher(builder);
        let hashed = hash_each(&hasher, items);
        let rehashed = hash_each(&hasher, hashed.as_slice());
        let reports = Transforms::analyse(hashed.as_slice(), rehashed.as_slice());
        assert(reports.derived_from(items@.len())) by {
            reveal(Transforms::derived_from);
            assert(reports.describes(hashed@, rehashed@));
        }
        reports
    }
}

} // verus!
