//! Resampling to the rate of the speech-to-text engine by linear
//! interpolation: where each output sample lies in the input.
//!
//! Output sample `i` lies at input position `i * rate / 16000`. This module
//! computes that position exactly, as a whole index and a remainder out of
//! 16000. Mixing the two neighbouring amplitudes with the remainder as weight
//! is left to whoever holds the amplitudes.

use vstd::prelude::*;
use vstd::arithmetic::div_mod::{
    lemma_div_is_ordered, lemma_div_multiples_vanish, lemma_fundamental_div_mod,
    lemma_mod_multiples_basic,
};

verus! {

/// The sample rate the speech-to-text engine expects, in Hz.
pub const TARGET_RATE: u32 = 16000;

/// Number of output samples for `input_len` input samples at `rate` Hz: the
/// input length divided by the rate ratio, rounded down.
pub open spec fn spec_output_len(input_len: int, rate: int) -> int {
    (input_len * 16000) / rate
}

/// Where one output sample lies in the input.
#[derive(Clone, Copy, Debug, PartialEq, Eq, Structural)]
pub struct Tap {
    /// The input sample at or just before the position.
    pub index: usize,
    /// How far the position lies beyond `index`, in 16000ths of the way to
    /// the next input sample.
    pub weight: u32,
    /// Whether there is a next input sample to mix in. Without one the
    /// output is the input sample at `index` as it is.
    pub blend: bool,
}

/// The tap of output sample `i`.
pub open spec fn tap_of(i: int, input_len: int, rate: int) -> Tap {
    Tap {
        index: ((i * rate) / 16000) as usize,
        weight: ((i * rate) % 16000) as u32,
        blend: (i * rate) / 16000 + 1 < input_len,
    }
}

/// The tap of every output sample lies inside the input.
pub proof fn lemma_tap_in_range(i: int, input_len: int, rate: int)
    requires
        rate > 0,
        0 <= i < spec_output_len(input_len, rate),
        0 <= input_len,
    ensures
        0 <= (i * rate) / 16000 < input_len,
        0 <= (i * rate) % 16000 < 16000,
        i * rate < input_len * 16000,
{
    let total = input_len * 16000;
    let count = total / rate;
    lemma_fundamental_div_mod(total, rate);
    assert(total == rate * count + total % rate);
    assert(rate * (i + 1) <= rate * count) by (nonlinear_arith)
        requires
            i + 1 <= count,
            rate > 0,
    ;
    assert(rate * (i + 1) == i * rate + rate) by (nonlinear_arith);
    assert(i * rate < total);
    assert(0 <= i * rate) by (nonlinear_arith)
        requires
            0 <= i,
            rate > 0,
    ;
    lemma_fundamental_div_mod(i * rate, 16000);
    let q = (i * rate) / 16000;
    assert(i * rate == 16000 * q + (i * rate) % 16000);
    assert(q < input_len);
}

/// From one output sample to the next the position in the input does not go
/// back.
pub proof fn lemma_taps_advance(i: int, j: int, rate: int)
    requires
        rate > 0,
        0 <= i <= j,
    ensures
        (i * rate) / 16000 <= (j * rate) / 16000,
{
    assert(i * rate <= j * rate) by (nonlinear_arith)
        requires
            i <= j,
            rate > 0,
    ;
    lemma_div_is_ordered(i * rate, j * rate, 16000);
}

/// Input that is at the target rate already passes through: as many output
/// samples as input samples, each exactly on the input sample of the same
/// index, with nothing of the next one mixed in.
pub proof fn lemma_identity_at_target_rate(input_len: int, i: int)
    requires
        0 <= i < input_len <= usize::MAX,
    ensures
        spec_output_len(input_len, 16000) == input_len,
        tap_of(i, input_len, 16000).index == i,
        tap_of(i, input_len, 16000).weight == 0,
{
    lemma_div_multiples_vanish(input_len, 16000);
    lemma_div_multiples_vanish(i, 16000);
    lemma_mod_multiples_basic(i, 16000);
    assert(input_len * 16000 == 16000 * input_len);
    assert(i * 16000 == 16000 * i);
}

/// Length at the target rate, for an input of any length, the empty one
/// included.
pub proof fn lemma_length_at_target_rate(input_len: int)
    requires
        0 <= input_len,
    ensures
        spec_output_len(input_len, 16000) == input_len,
{
    lemma_div_multiples_vanish(input_len, 16000);
    assert(input_len * 16000 == 16000 * input_len);
}

/// Empty input gives empty output, and input at a rate above the target
/// gives no more samples than it has.
pub proof fn lemma_downsampling_shortens(input_len: int, rate: int)
    requires
        0 <= input_len,
        rate >= 16000,
    ensures
        spec_output_len(0, rate) == 0,
        0 <= spec_output_len(input_len, rate) <= input_len,
{
    let total = input_len * 16000;
    lemma_fundamental_div_mod(total, rate);
    let count = total / rate;
    assert(total == rate * count + total % rate);
    if count > input_len {
        assert(rate * count >= 16000 * (input_len + 1)) by (nonlinear_arith)
            requires
                count >= input_len + 1,
                rate >= 16000,
                input_len >= 0,
        ;
    }
    if count < 0 {
        assert(rate * count <= -rate) by (nonlinear_arith)
            requires
                count <= -1,
                rate > 0,
        ;
    }
    assert(0int / rate == 0) by (nonlinear_arith)
        requires
            rate > 0,
    ;
}

/// The length of the resampled signal; `None` where the rate is 0 or the
/// length is beyond what a `usize` holds.
pub fn output_len(input_len: usize, rate: u32) -> (len: Option<usize>)
    ensures
        len == if rate > 0 && spec_output_len(input_len as int, rate as int) <= usize::MAX {
            Some(spec_output_len(input_len as int, rate as int) as usize)
        } else {
            None
        },
{
    if rate == 0 {
        return None;
    }
    assert(input_len * 16000 <= u128::MAX) by (nonlinear_arith)
        requires
            input_len <= u64::MAX,
    ;
    let total: u128 = (input_len as u128) * 16000u128;
    let count: u128 = total / (rate as u128);
    if count <= usize::MAX as u128 {
        Some(count as usize)
    } else {
        None
    }
}

/// The tap of output sample `i`, which has to be one of the output samples.
pub fn tap(i: usize, input_len: usize, rate: u32) -> (at: Tap)
    requires
        rate > 0,
        i < spec_output_len(input_len as int, rate as int),
    ensures
        at == tap_of(i as int, input_len as int, rate as int),
        at.index < input_len,
        at.weight < 16000,
        at.blend == (at.index + 1 < input_len),
{
    proof {
        lemma_tap_in_range(i as int, input_len as int, rate as int);
    }
    assert(i * rate <= u128::MAX) by (nonlinear_arith)
        requires
            i <= u64::MAX,
            rate <= u32::MAX,
    ;
    let position: u128 = (i as u128) * (rate as u128);
    let index: usize = (position / 16000u128) as usize;
    let weight: u32 = (position % 16000u128) as u32;
    Tap { index, weight, blend: index + 1 < input_len }
}

/// The taps of all output samples, in order; `None` where `output_len` gives
/// `None`.
pub fn plan(input_len: usize, rate: u32) -> (taps: Option<Vec<Tap>>)
    ensures
        match taps {
            Some(taps) => {
                &&& rate > 0
                &&& taps.len() == spec_output_len(input_len as int, rate as int)
                &&& forall|i: int|
                    0 <= i < taps.len() ==> #[trigger] taps[i] == tap_of(
                        i,
                        input_len as int,
                        rate as int,
                    )
                &&& forall|i: int| 0 <= i < taps.len() ==> (#[trigger] taps[i]).index < input_len
            },
            None => !(rate > 0 && spec_output_len(input_len as int, rate as int) <= usize::MAX),
        },
{
    let count = match output_len(input_len, rate) {
        Some(count) => count,
        None => {
            return None;
        },
    };
    let mut taps: Vec<Tap> = Vec::new();
    let mut i: usize = 0;
    while i < count
        invariant
            rate > 0,
            count == spec_output_len(input_len as int, rate as int),
            i <= count,
            taps.len() == i,
            forall|k: int|
                0 <= k < i ==> #[trigger] taps[k] == tap_of(k, input_len as int, rate as int),
            forall|k: int| 0 <= k < i ==> (#[trigger] taps[k]).index < input_len,
        decreases count - i,
    {
        taps.push(tap(i, input_len, rate));
        i = i + 1;
    }
    Some(taps)
}

} // verus!
