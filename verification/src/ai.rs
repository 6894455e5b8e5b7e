//! The driving network: a chain of fully connected levels with a hard
//! step activation, built from random weights and changed only by
//! mutation.
use crate::env::{random_unit, RandomSource};
use crate::fixed::{is_ratio, is_unit, ONE, SIZE_LIMIT};
use crate::pairs::{adjacent, adjacent_pairs};
use crate::utils::{lemma_lerp, lerp, lerp_spec};
use vstd::prelude::*;

pub mod agents;

verus! {

/// What a level holds: the signal it last received and last produced, one
/// bias per output, and one row of weights per input with one weight per
/// output.
pub struct LevelModel {
    pub inputs: Seq<i64>,
    pub outputs: Seq<i64>,
    pub biases: Seq<i64>,
    pub weights: Seq<Seq<i64>>,
}

/// Every scalar of the sequence is between -1.0 and 1.0.
pub open spec fn all_unit(values: Seq<i64>) -> bool {
    forall|i: int| 0 <= i < values.len() ==> is_unit(#[trigger] values[i] as int)
}

/// Every scalar of a signal is one that a level can weigh without
/// overflow: no larger than `SIZE_LIMIT` either way, a million times the
/// range of a sensor's reading.
pub open spec fn signal_fits(values: Seq<i64>) -> bool {
    forall|i: int| 0 <= i < values.len() ==> -SIZE_LIMIT <= #[trigger] values[i] <= SIZE_LIMIT
}

/// Every scalar of the sequence is 0.0 or 1.0.
pub open spec fn all_binary(values: Seq<i64>) -> bool {
    forall|i: int| 0 <= i < values.len() ==> #[trigger] values[i] == 0 || values[i] == ONE
}

/// The rows of a matrix held as a vector of vectors.
pub open spec fn rows_of(weights: Seq<Vec<i64>>) -> Seq<Seq<i64>> {
    Seq::new(weights.len(), |i: int| weights[i]@)
}

/// A weight matrix with `fan_in` rows of `fan_out` weights, each between
/// -1.0 and 1.0.
pub open spec fn weights_fit(weights: Seq<Seq<i64>>, fan_in: nat, fan_out: nat) -> bool {
    &&& weights.len() == fan_in
    &&& forall|j: int| 0 <= j < fan_in ==> (#[trigger] weights[j]).len() == fan_out
    &&& forall|j: int| 0 <= j < fan_in ==> all_unit(#[trigger] weights[j])
}

/// The shape and ranges that every level keeps: weights and biases
/// between -1.0 and 1.0, stored outputs of 0.0 and 1.0, and stored inputs
/// that fit.
pub open spec fn level_wf(level: LevelModel) -> bool {
    &&& level.biases.len() == level.outputs.len()
    &&& weights_fit(level.weights, level.inputs.len(), level.outputs.len())
    &&& signal_fits(level.inputs)
    &&& all_unit(level.biases)
    &&& all_binary(level.outputs)
}

/// `inputs[0] * weights[0][i] + ... + inputs[upto - 1] * weights[upto - 1][i]`.
pub open spec fn weighted_sum(inputs: Seq<i64>, weights: Seq<Seq<i64>>, i: int, upto: int) -> int
    decreases upto,
{
    if upto <= 0 {
        0
    } else {
        weighted_sum(inputs, weights, i, upto - 1) + inputs[upto - 1] * weights[upto - 1][i]
    }
}

/// The step activation of output `i`: 1.0 if the weighted sum of the
/// inputs plus the bias is positive, else 0.0.
pub open spec fn activation(inputs: Seq<i64>, weights: Seq<Seq<i64>>, biases: Seq<i64>, i: int) -> i64 {
    if weighted_sum(inputs, weights, i, inputs.len() as int) + biases[i] * ONE > 0 {
        ONE
    } else {
        0
    }
}

/// The outputs of a level for the given inputs, one per bias.
pub open spec fn level_outputs(inputs: Seq<i64>, weights: Seq<Seq<i64>>, biases: Seq<i64>) -> Seq<i64> {
    Seq::new(biases.len(), |i: int| activation(inputs, weights, biases, i))
}

/// The stored inputs after a signal arrives: the signal replaces them from
/// the front, as far as it reaches; what it does not reach stays.
pub open spec fn overlay(stored: Seq<i64>, signal: Seq<i64>) -> Seq<i64> {
    Seq::new(
        stored.len(),
        |j: int|
            if j < signal.len() {
                signal[j]
            } else {
                stored[j]
            },
    )
}

/// The level after a signal has passed through it.
pub open spec fn level_after(level: LevelModel, signal: Seq<i64>) -> LevelModel {
    let inputs = overlay(level.inputs, signal);
    LevelModel { inputs, outputs: level_outputs(inputs, level.weights, level.biases), ..level }
}

/// The largest product of an input and a weight: `SIZE_LIMIT` times 1.0,
/// in millionths of a millionth.
pub open spec fn term_limit() -> int {
    1_000_000_000_000_000_000
}

/// A weighted sum is bounded by the number of its terms.
pub proof fn lemma_weighted_sum_bound(
    inputs: Seq<i64>,
    weights: Seq<Seq<i64>>,
    fan_out: nat,
    i: int,
    upto: int,
)
    requires
        signal_fits(inputs),
        weights_fit(weights, inputs.len(), fan_out),
        0 <= i < fan_out,
        0 <= upto <= inputs.len(),
    ensures
        -upto * term_limit() <= weighted_sum(inputs, weights, i, upto) <= upto * term_limit(),
    decreases upto,
{
    if upto > 0 {
        lemma_weighted_sum_bound(inputs, weights, fan_out, i, upto - 1);
        let x = inputs[upto - 1] as int;
        let row = weights[upto - 1];
        let w = row[i] as int;
        assert(all_unit(row));
        assert(-1_000_000_000_000_000_000 <= x * w <= 1_000_000_000_000_000_000) by (nonlinear_arith)
            requires
                -1_000_000_000_000 <= x <= 1_000_000_000_000,
                -1_000_000 <= w <= 1_000_000,
        ;
    }
}

/// The outputs of one level: for output `i`, 1.0 if
/// `inputs[0] * weights[0][i] + ... + biases[i]` is positive, else 0.0. The
/// inputs may be any scalars up to `SIZE_LIMIT` either way.
pub fn feed_forward(inputs: &[i64], weights: &[Vec<i64>], biases: &[i64]) -> (outputs: Vec<i64>)
    requires
        signal_fits(inputs@),
        all_unit(biases@),
        weights_fit(rows_of(weights@), inputs@.len(), biases@.len()),
    ensures
        outputs@ == level_outputs(inputs@, rows_of(weights@), biases@),
        outputs@.len() == biases@.len(),
        all_binary(outputs@),
{
    let ghost rows = rows_of(weights@);
    let mut outputs: Vec<i64> = Vec::new();
    let mut i: usize = 0;
    while i < biases.len()
        invariant
            i <= biases@.len(),
            rows == rows_of(weights@),
            signal_fits(inputs@),
            all_unit(biases@),
            weights_fit(rows, inputs@.len(), biases@.len()),
            outputs@.len() == i,
            forall|k: int| 0 <= k < i ==> #[trigger] outputs@[k] == activation(inputs@, rows, biases@, k),
        decreases biases@.len() - i,
    {
        let mut sum: i128 = 0;
        let mut j: usize = 0;
        while j < inputs.len()
            invariant
                j <= inputs@.len(),
                i < biases@.len(),
                rows == rows_of(weights@),
                signal_fits(inputs@),
                weights_fit(rows, inputs@.len(), biases@.len()),
                sum == weighted_sum(inputs@, rows, i as int, j as int),
            decreases inputs@.len() - j,
        {
            proof {
                lemma_weighted_sum_bound(inputs@, rows, biases@.len(), i as int, j + 1);
                assert(all_unit(rows[j as int]));
                assert(-1_000_000_000_000_000_000 <= inputs@[j as int] * rows[j as int][i as int]
                    <= 1_000_000_000_000_000_000) by (nonlinear_arith)
                    requires
                        -1_000_000_000_000 <= inputs@[j as int] <= 1_000_000_000_000,
                        -1_000_000 <= rows[j as int][i as int] <= 1_000_000,
                ;
            }
            let x: i128 = inputs[j] as i128;
            let w: i128 = weights[j][i] as i128;
            sum = sum + x * w;
            j += 1;
        }
        proof {
            lemma_weighted_sum_bound(inputs@, rows, biases@.len(), i as int, inputs@.len() as int);
        }
        let bias: i128 = (biases[i] as i128) * (ONE as i128);
        let fired: i64 = if sum + bias > 0 {
            ONE
        } else {
            0
        };
        outputs.push(fired);
        i += 1;
    }
    outputs
}

/// `count` zeros.
pub open spec fn zeros(count: nat) -> Seq<i64> {
    Seq::new(count, |i: int| 0i64)
}

/// Each scalar of `parent` moved toward the scalar of `noise` at the same
/// place, by the fraction `rate`.
pub open spec fn blend_values(parent: Seq<i64>, noise: Seq<i64>, rate: int) -> Seq<i64> {
    Seq::new(parent.len(), |i: int| lerp_spec(parent[i] as int, noise[i] as int, rate) as i64)
}

/// Each row of `parent` blended with the row of `noise` at the same place.
pub open spec fn blend_rows(parent: Seq<Seq<i64>>, noise: Seq<Seq<i64>>, rate: int) -> Seq<Seq<i64>> {
    Seq::new(parent.len(), |j: int| blend_values(parent[j], noise[j], rate))
}

/// The level whose biases and weights are those of `parent` blended with
/// those of `noise`; the stored signals are the parent's.
pub open spec fn blend_level(parent: LevelModel, noise: LevelModel, rate: int) -> LevelModel {
    LevelModel {
        biases: blend_values(parent.biases, noise.biases, rate),
        weights: blend_rows(parent.weights, noise.weights, rate),
        ..parent
    }
}

/// Two levels with as many inputs and as many outputs as each other.
pub open spec fn same_shape(a: LevelModel, b: LevelModel) -> bool {
    a.inputs.len() == b.inputs.len() && a.outputs.len() == b.outputs.len()
}

/// A blend of unit scalars is made of unit scalars; at rate 0.0 it is the
/// parent, at rate 1.0 the noise.
pub proof fn lemma_blend_values(parent: Seq<i64>, noise: Seq<i64>, rate: int)
    requires
        all_unit(parent),
        all_unit(noise),
        parent.len() == noise.len(),
        is_ratio(rate),
    ensures
        all_unit(blend_values(parent, noise, rate)),
        blend_values(parent, noise, rate).len() == parent.len(),
        rate == 0 ==> blend_values(parent, noise, rate) == parent,
        rate == ONE ==> blend_values(parent, noise, rate) == noise,
{
    let blended = blend_values(parent, noise, rate);
    assert forall|i: int| 0 <= i < blended.len() implies is_unit(#[trigger] blended[i] as int) && (rate
        == 0 ==> blended[i] == parent[i]) && (rate == ONE ==> blended[i] == noise[i]) by {
        lemma_lerp(parent[i] as int, noise[i] as int, rate);
    }
}

/// A blend of two well-formed levels of one shape is well-formed; at rate
/// 0.0 it is the parent, at rate 1.0 its biases and weights are the
/// noise's.
pub proof fn lemma_blend_level(parent: LevelModel, noise: LevelModel, rate: int)
    requires
        level_wf(parent),
        level_wf(noise),
        same_shape(parent, noise),
        is_ratio(rate),
    ensures
        level_wf(blend_level(parent, noise, rate)),
        same_shape(blend_level(parent, noise, rate), parent),
        rate == 0 ==> blend_level(parent, noise, rate) == parent,
        rate == ONE ==> blend_level(parent, noise, rate).biases == noise.biases && blend_level(
            parent,
            noise,
            rate,
        ).weights == noise.weights,
{
    let child = blend_level(parent, noise, rate);
    lemma_blend_values(parent.biases, noise.biases, rate);
    assert forall|j: int| 0 <= j < child.weights.len() implies (#[trigger] child.weights[j]).len()
        == child.outputs.len() && all_unit(child.weights[j]) && (rate == 0 ==> child.weights[j]
        == parent.weights[j]) && (rate == ONE ==> child.weights[j] == noise.weights[j]) by {
        lemma_blend_values(parent.weights[j], noise.weights[j], rate);
    }
    if rate == 0 {
        assert(child.weights =~= parent.weights);
    }
}

/// One transition of the network, from `inputs.len()` neurons to
/// `outputs.len()`.
#[derive(Debug, Clone)]
pub struct Level {
    inputs: Vec<i64>,
    outputs: Vec<i64>,
    biases: Vec<i64>,
    weights: Vec<Vec<i64>>,
}

impl View for Level {
    type V = LevelModel;

    closed spec fn view(&self) -> LevelModel {
        LevelModel {
            inputs: self.inputs@,
            outputs: self.outputs@,
            biases: self.biases@,
            weights: rows_of(self.weights@),
        }
    }
}

/// `count` zeros.
fn zero_buffer(count: usize) -> (buffer: Vec<i64>)
    ensures
        buffer@ == zeros(count as nat),
{
    let mut buffer: Vec<i64> = Vec::new();
    let mut i: usize = 0;
    while i < count
        invariant
            i <= count,
            buffer@.len() == i,
            forall|k: int| 0 <= k < i ==> #[trigger] buffer@[k] == 0,
        decreases count - i,
    {
        buffer.push(0);
        i += 1;
    }
    buffer
}

/// `count` random scalars between -1.0 and 1.0.
fn random_buffer<R: RandomSource>(count: usize, rng: &mut R) -> (buffer: Vec<i64>)
    ensures
        buffer@.len() == count,
        all_unit(buffer@),
{
    let mut buffer: Vec<i64> = Vec::new();
    let mut i: usize = 0;
    while i < count
        invariant
            i <= count,
            buffer@.len() == i,
            all_unit(buffer@),
        decreases count - i,
    {
        let value = random_unit(rng);
        buffer.push(value);
        i += 1;
    }
    buffer
}

/// A copy of the scalars.
fn copy_of(values: &Vec<i64>) -> (copy: Vec<i64>)
    ensures
        copy@ == values@,
{
    let mut copy: Vec<i64> = Vec::new();
    let mut i: usize = 0;
    while i < values.len()
        invariant
            i <= values@.len(),
            copy@.len() == i,
            forall|k: int| 0 <= k < i ==> #[trigger] copy@[k] == values@[k],
        decreases values@.len() - i,
    {
        copy.push(values[i]);
        i += 1;
    }
    copy
}

/// The scalars of `parent`, each moved toward the scalar of `noise` at the
/// same place by the fraction `rate`.
fn blend_buffer(parent: &Vec<i64>, noise: &Vec<i64>, rate: i64) -> (blended: Vec<i64>)
    requires
        parent@.len() == noise@.len(),
        is_ratio(rate as int),
    ensures
        blended@ == blend_values(parent@, noise@, rate as int),
{
    let mut blended: Vec<i64> = Vec::new();
    let mut i: usize = 0;
    while i < parent.len()
        invariant
            i <= parent@.len(),
            parent@.len() == noise@.len(),
            is_ratio(rate as int),
            blended@.len() == i,
            forall|k: int|
                0 <= k < i ==> #[trigger] blended@[k] == lerp_spec(
                    parent@[k] as int,
                    noise@[k] as int,
                    rate as int,
                ),
        decreases parent@.len() - i,
    {
        blended.push(lerp(parent[i], noise[i], rate));
        i += 1;
    }
    blended
}

impl Level {
    /// The level keeps its shape and its ranges.
    pub open spec fn wf(&self) -> bool {
        level_wf(self@)
    }

    /// A level from `input_count` neurons to `output_count`, with every
    /// weight and bias drawn from `rng` between -1.0 and 1.0, and zeroed
    /// signals.
    pub fn new<R: RandomSource>(input_count: usize, output_count: usize, rng: &mut R) -> (level: Self)
        ensures
            level.wf(),
            level@.inputs == zeros(input_count as nat),
            level@.outputs == zeros(output_count as nat),
            level@.biases.len() == output_count,
            level@.weights.len() == input_count,
    {
        Level {
            inputs: zero_buffer(input_count),
            outputs: zero_buffer(output_count),
            biases: Vec::new(),
            weights: Vec::new(),
        }.randomize(rng)
    }

    /// Fills the weights and biases of a level that has none yet: one row
    /// of weights per input, one weight per output, then one bias per
    /// output.
    fn randomize<R: RandomSource>(self, rng: &mut R) -> (level: Self)
        requires
            self.weights@.len() == 0,
            self.biases@.len() == 0,
            signal_fits(self.inputs@),
            all_binary(self.outputs@),
        ensures
            level.wf(),
            level@.inputs == self@.inputs,
            level@.outputs == self@.outputs,
    {
        let input_count = self.inputs.len();
        let output_count = self.outputs.len();
        let mut weights: Vec<Vec<i64>> = Vec::new();
        let mut j: usize = 0;
        while j < input_count
            invariant
                j <= input_count,
                weights@.len() == j,
                forall|k: int| 0 <= k < j ==> (#[trigger] weights@[k])@.len() == output_count,
                forall|k: int| 0 <= k < j ==> all_unit((#[trigger] weights@[k])@),
            decreases input_count - j,
        {
            let row = random_buffer(output_count, rng);
            weights.push(row);
            j += 1;
        }
        let biases = random_buffer(output_count, rng);
        let level = Level { inputs: self.inputs, outputs: self.outputs, biases, weights };
        level
    }

    /// A level with the given biases and weights and zeroed signals, if
    /// they fit together: every row of weights as long as the biases, and
    /// every scalar between -1.0 and 1.0.
    pub fn from_parts(biases: Vec<i64>, weights: Vec<Vec<i64>>) -> (level: Option<Self>)
        ensures
            level is Some <==> weights_fit(rows_of(weights@), weights@.len(), biases@.len())
                && all_unit(biases@),
            level matches Some(l) ==> {
                &&& l.wf()
                &&& l@.biases == biases@
                &&& l@.weights == rows_of(weights@)
                &&& l@.inputs == zeros(weights@.len())
                &&& l@.outputs == zeros(biases@.len())
            },
    {
        if !all_in_unit_range(&biases) {
            return None;
        }
        let mut j: usize = 0;
        while j < weights.len()
            invariant
                j <= weights@.len(),
                forall|k: int| 0 <= k < j ==> (#[trigger] weights@[k])@.len() == biases@.len(),
                forall|k: int| 0 <= k < j ==> all_unit((#[trigger] weights@[k])@),
            decreases weights@.len() - j,
        {
            if weights[j].len() != biases.len() || !all_in_unit_range(&weights[j]) {
                proof {
                    let rows = rows_of(weights@);
                    assert(rows[j as int] == weights@[j as int]@);
                }
                return None;
            }
            j += 1;
        }
        let level = Level {
            inputs: zero_buffer(weights.len()),
            outputs: zero_buffer(biases.len()),
            biases,
            weights,
        };
        Some(level)
    }

    /// Passes a signal through the level. The signal replaces the stored
    /// inputs from the front; the outputs are computed from the stored
    /// inputs, stored, and returned. The signal may hold any scalars up to
    /// `SIZE_LIMIT` either way.
    pub fn feed_forward(&mut self, inputs: &[i64]) -> (outputs: Vec<i64>)
        requires
            old(self).wf(),
            signal_fits(inputs@),
        ensures
            final(self)@ == level_after(old(self)@, inputs@),
            final(self).wf(),
            outputs@ == final(self)@.outputs,
            outputs@.len() == old(self)@.biases.len(),
            all_binary(outputs@),
    {
        let ghost before = self@;
        let mut j: usize = 0;
        while j < self.inputs.len() && j < inputs.len()
            invariant
                j <= self.inputs@.len(),
                j <= inputs@.len(),
                self.inputs@.len() == before.inputs.len(),
                self.outputs@ == before.outputs,
                self.biases@ == before.biases,
                rows_of(self.weights@) == before.weights,
                forall|k: int| 0 <= k < j ==> #[trigger] self.inputs@[k] == inputs@[k],
                forall|k: int| j <= k < self.inputs@.len() ==> #[trigger] self.inputs@[k] == before.inputs[k],
            decreases self.inputs@.len() - j,
        {
            self.inputs[j] = inputs[j];
            j += 1;
        }
        assert(self.inputs@ =~= overlay(before.inputs, inputs@));
        let outputs = feed_forward(self.inputs.as_slice(), self.weights.as_slice(), self.biases.as_slice());
        self.outputs = copy_of(&outputs);
        outputs
    }

    /// The level whose every bias and weight is this level's, moved toward
    /// the bias or weight of `noise` at the same place by the fraction
    /// `rate`. The stored signals are kept.
    pub fn blend(&self, noise: &Level, rate: i64) -> (child: Self)
        requires
            self.wf(),
            noise.wf(),
            same_shape(self@, noise@),
            is_ratio(rate as int),
        ensures
            child@ == blend_level(self@, noise@, rate as int),
            child.wf(),
    {
        proof {
            lemma_blend_level(self@, noise@, rate as int);
        }
        let biases = blend_buffer(&self.biases, &noise.biases, rate);
        let mut weights: Vec<Vec<i64>> = Vec::new();
        let mut j: usize = 0;
        while j < self.weights.len()
            invariant
                j <= self.weights@.len(),
                self.wf(),
                noise.wf(),
                same_shape(self@, noise@),
                is_ratio(rate as int),
                weights@.len() == j,
                forall|k: int|
                    0 <= k < j ==> (#[trigger] weights@[k])@ == blend_values(
                        self@.weights[k],
                        noise@.weights[k],
                        rate as int,
                    ),
            decreases self.weights@.len() - j,
        {
            assert(self@.weights[j as int] == self.weights@[j as int]@);
            assert(noise@.weights[j as int] == noise.weights@[j as int]@);
            let row = blend_buffer(&self.weights[j], &noise.weights[j], rate);
            weights.push(row);
            j += 1;
        }
        let child = Level {
            inputs: copy_of(&self.inputs),
            outputs: copy_of(&self.outputs),
            biases,
            weights,
        };
        assert(child@.weights =~= blend_rows(self@.weights, noise@.weights, rate as int));
        child
    }

    /// A level of the same shape with fresh random weights and biases.
    pub fn noise<R: RandomSource>(&self, rng: &mut R) -> (fresh: Self)
        requires
            self.wf(),
        ensures
            fresh.wf(),
            same_shape(fresh@, self@),
    {
        Level::new(self.inputs.len(), self.outputs.len(), rng)
    }

    /// A copy of the level.
    pub fn duplicate(&self) -> (copy: Self)
        ensures
            copy@ == self@,
    {
        let mut weights: Vec<Vec<i64>> = Vec::new();
        let mut j: usize = 0;
        while j < self.weights.len()
            invariant
                j <= self.weights@.len(),
                weights@.len() == j,
                forall|k: int| 0 <= k < j ==> (#[trigger] weights@[k])@ == self.weights@[k]@,
            decreases self.weights@.len() - j,
        {
            weights.push(copy_of(&self.weights[j]));
            j += 1;
        }
        let copy = Level {
            inputs: copy_of(&self.inputs),
            outputs: copy_of(&self.outputs),
            biases: copy_of(&self.biases),
            weights,
        };
        assert(copy@.weights =~= self@.weights);
        copy
    }

    /// The signal the level last received.
    pub fn inputs(&self) -> (values: &Vec<i64>)
        ensures
            values@ == self@.inputs,
    {
        &self.inputs
    }

    /// The signal the level last produced.
    pub fn outputs(&self) -> (values: &Vec<i64>)
        ensures
            values@ == self@.outputs,
    {
        &self.outputs
    }

    /// One bias per output.
    pub fn biases(&self) -> (values: &Vec<i64>)
        ensures
            values@ == self@.biases,
    {
        &self.biases
    }

    /// One row of weights per input, one weight per output.
    pub fn weights(&self) -> (rows: &Vec<Vec<i64>>)
        ensures
            rows_of(rows@) == self@.weights,
    {
        &self.weights
    }
}

/// Whether every scalar is between -1.0 and 1.0.
fn all_in_unit_range(values: &Vec<i64>) -> (ok: bool)
    ensures
        ok == all_unit(values@),
{
    let mut i: usize = 0;
    while i < values.len()
        invariant
            i <= values@.len(),
            forall|k: int| 0 <= k < i ==> is_unit(#[trigger] values@[k] as int),
        decreases values@.len() - i,
    {
        if values[i] < -ONE || values[i] > ONE {
            return false;
        }
        i += 1;
    }
    true
}

/// Every level keeps its shape and its ranges.
pub open spec fn network_wf(levels: Seq<LevelModel>) -> bool {
    forall|k: int| 0 <= k < levels.len() ==> level_wf(#[trigger] levels[k])
}

/// The signal after the first `upto` levels: the inputs themselves before
/// any level, then each level's outputs as the next level's inputs.
pub open spec fn signal_after(levels: Seq<LevelModel>, inputs: Seq<i64>, upto: int) -> Seq<i64>
    decreases upto,
{
    if upto <= 0 {
        inputs
    } else {
        level_after(levels[upto - 1], signal_after(levels, inputs, upto - 1)).outputs
    }
}

/// What the network puts out for the inputs: the signal after its last
/// level.
pub open spec fn network_outputs(levels: Seq<LevelModel>, inputs: Seq<i64>) -> Seq<i64> {
    signal_after(levels, inputs, levels.len() as int)
}

/// The network after the inputs have passed through it: every level has
/// stored the signal that reached it and the signal it produced.
pub open spec fn network_after(levels: Seq<LevelModel>, inputs: Seq<i64>) -> Seq<LevelModel> {
    Seq::new(levels.len(), |k: int| level_after(levels[k], signal_after(levels, inputs, k)))
}

/// Two networks with as many levels, each of the shape of the level at the
/// same place.
pub open spec fn same_topology(a: Seq<LevelModel>, b: Seq<LevelModel>) -> bool {
    &&& a.len() == b.len()
    &&& forall|k: int| 0 <= k < a.len() ==> same_shape(#[trigger] a[k], b[k])
}

/// The network whose every level is the parent's blended with the noise's
/// at the same place.
pub open spec fn blend_network(parent: Seq<LevelModel>, noise: Seq<LevelModel>, rate: int) -> Seq<
    LevelModel,
> {
    Seq::new(parent.len(), |k: int| blend_level(parent[k], noise[k], rate))
}

/// The levels that the layer sizes call for: one per consecutive pair.
pub open spec fn topology_matches(levels: Seq<LevelModel>, neuron_counts: Seq<usize>) -> bool {
    &&& levels.len() == adjacent(neuron_counts).len()
    &&& forall|k: int|
        0 <= k < levels.len() ==> (#[trigger] levels[k]).inputs.len() == neuron_counts[k]
            && levels[k].outputs.len() == neuron_counts[k + 1]
}

/// The outputs of a network with at least one level are as many as its
/// last level has, each exactly 0.0 or 1.0.
pub proof fn lemma_outputs_are_binary(levels: Seq<LevelModel>, inputs: Seq<i64>)
    requires
        network_wf(levels),
        signal_fits(inputs),
        levels.len() > 0,
    ensures
        network_outputs(levels, inputs).len() == levels.last().outputs.len(),
        all_binary(network_outputs(levels, inputs)),
{
}

/// Mutation at rate 0.0 gives the parent back, whatever the noise.
pub proof fn lemma_mutation_at_zero_keeps_parent(parent: Seq<LevelModel>, noise: Seq<LevelModel>)
    requires
        network_wf(parent),
        network_wf(noise),
        same_topology(parent, noise),
    ensures
        blend_network(parent, noise, 0) == parent,
{
    let child = blend_network(parent, noise, 0);
    assert forall|k: int| 0 <= k < child.len() implies #[trigger] child[k] == parent[k] by {
        lemma_blend_level(parent[k], noise[k], 0);
    }
}

/// Mutation at rate 1.0 replaces every bias and weight by the noise's,
/// which is between -1.0 and 1.0 and owes nothing to the parent.
pub proof fn lemma_mutation_at_one_takes_noise(parent: Seq<LevelModel>, noise: Seq<LevelModel>)
    requires
        network_wf(parent),
        network_wf(noise),
        same_topology(parent, noise),
    ensures
        forall|k: int|
            0 <= k < parent.len() ==> (#[trigger] blend_network(parent, noise, ONE as int)[k]).biases
                == noise[k].biases && blend_network(parent, noise, ONE as int)[k].weights
                == noise[k].weights,
        forall|k: int|
            0 <= k < parent.len() ==> all_unit(
                (#[trigger] blend_network(parent, noise, ONE as int)[k]).biases,
            ),
{
    let child = blend_network(parent, noise, ONE as int);
    assert forall|k: int| 0 <= k < parent.len() implies (#[trigger] child[k]).biases
        == noise[k].biases && child[k].weights == noise[k].weights && all_unit(child[k].biases) by {
        lemma_blend_level(parent[k], noise[k], ONE as int);
    }
}

/// A blend of two well-formed networks of one topology is well-formed and
/// of that topology.
pub proof fn lemma_blend_network(parent: Seq<LevelModel>, noise: Seq<LevelModel>, rate: int)
    requires
        network_wf(parent),
        network_wf(noise),
        same_topology(parent, noise),
        is_ratio(rate),
    ensures
        network_wf(blend_network(parent, noise, rate)),
        same_topology(blend_network(parent, noise, rate), parent),
{
    let child = blend_network(parent, noise, rate);
    assert forall|k: int| 0 <= k < child.len() implies level_wf(#[trigger] child[k]) && same_shape(
        child[k],
        parent[k],
    ) by {
        lemma_blend_level(parent[k], noise[k], rate);
    }
}

/// A feed-forward network: levels in the order the signal passes them.
#[derive(Debug, Clone)]
pub struct NeuralNetwork {
    levels: Vec<Level>,
}

impl View for NeuralNetwork {
    type V = Seq<LevelModel>;

    closed spec fn view(&self) -> Seq<LevelModel> {
        Seq::new(self.levels@.len(), |k: int| self.levels@[k]@)
    }
}

impl NeuralNetwork {
    /// Every level keeps its shape and its ranges.
    pub open spec fn wf(&self) -> bool {
        network_wf(self@)
    }

    /// A network with one level per consecutive pair of layer sizes, every
    /// weight and bias drawn from `rng` between -1.0 and 1.0. Fewer than
    /// two sizes give a network without levels.
    pub fn new<R: RandomSource>(neuron_counts: &[usize], rng: &mut R) -> (network: Self)
        ensures
            network.wf(),
            topology_matches(network@, neuron_counts@),
    {
        let pairs = adjacent_pairs(neuron_counts);
        let mut levels: Vec<Level> = Vec::new();
        let mut k: usize = 0;
        while k < pairs.len()
            invariant
                k <= pairs@.len(),
                pairs@ == adjacent(neuron_counts@),
                levels@.len() == k,
                forall|m: int| 0 <= m < k ==> (#[trigger] levels@[m]).wf(),
                forall|m: int|
                    0 <= m < k ==> (#[trigger] levels@[m])@.inputs.len() == neuron_counts@[m]
                        && levels@[m]@.outputs.len() == neuron_counts@[m + 1],
            decreases pairs@.len() - k,
        {
            let (input_count, output_count) = pairs[k];
            let level = Level::new(input_count, output_count, rng);
            levels.push(level);
            k += 1;
        }
        let network = NeuralNetwork { levels };
        network
    }

    /// A network of the given levels, in the order the signal passes
    /// them.
    pub fn from_levels(levels: Vec<Level>) -> (network: Self)
        ensures
            network@.len() == levels@.len(),
            forall|k: int| 0 <= k < levels@.len() ==> #[trigger] network@[k] == levels@[k]@,
            (forall|k: int| 0 <= k < levels@.len() ==> (#[trigger] levels@[k]).wf()) ==> network.wf(),
    {
        let network = NeuralNetwork { levels };
        network
    }

    /// How many levels the network has.
    pub fn depth(&self) -> (count: usize)
        ensures
            count == self@.len(),
    {
        self.levels.len()
    }

    /// The levels, in the order the signal passes them.
    pub fn levels(&self) -> (levels: &Vec<Level>)
        ensures
            levels@.len() == self@.len(),
            forall|k: int| 0 <= k < levels@.len() ==> (#[trigger] levels@[k])@ == self@[k],
    {
        &self.levels
    }

    /// Runs the inputs through the levels in order, each level's outputs
    /// being the next level's inputs, and returns the last level's
    /// outputs: the decision `[throttle, left, right, brake]`, each 0.0 or
    /// 1.0. The inputs may be any scalars up to `SIZE_LIMIT` either way. A
    /// network without levels hands the inputs back.
    pub fn feed_forward(&mut self, inputs: Vec<i64>) -> (outputs: Vec<i64>)
        requires
            old(self).wf(),
            signal_fits(inputs@),
        ensures
            outputs@ == network_outputs(old(self)@, inputs@),
            final(self)@ == network_after(old(self)@, inputs@),
            final(self).wf(),
            same_topology(final(self)@, old(self)@),
            old(self)@.len() > 0 ==> outputs@.len() == old(self)@.last().outputs.len() && all_binary(
                outputs@,
            ),
    {
        let ghost before = self@;
        let ghost given = inputs@;
        let mut signal = inputs;
        let mut k: usize = 0;
        while k < self.levels.len()
            invariant
                k <= self.levels@.len(),
                self.levels@.len() == before.len(),
                network_wf(before),
                signal_fits(given),
                signal@ == signal_after(before, given, k as int),
                forall|m: int| 0 <= m < k ==> (#[trigger] self.levels@[m])@ == level_after(
                    before[m],
                    signal_after(before, given, m),
                ),
                forall|m: int| k <= m < before.len() ==> (#[trigger] self.levels@[m])@ == before[m],
            decreases self.levels@.len() - k,
        {
            let ghost levels_before = self.levels@;
            let next = self.levels[k].feed_forward(signal.as_slice());
            assert(forall|m: int|
                0 <= m < before.len() && m != k ==> #[trigger] self.levels@[m] == levels_before[m]);
            signal = next;
            k += 1;
        }
        signal
    }

    /// Runs the inputs through the network and leaves the decision in the
    /// last level's stored outputs.
    pub fn feed_forward_2(&mut self, inputs: Vec<i64>)
        requires
            old(self).wf(),
            signal_fits(inputs@),
        ensures
            final(self)@ == network_after(old(self)@, inputs@),
            final(self).wf(),
            same_topology(final(self)@, old(self)@),
    {
        let _ = self.feed_forward(inputs);
    }

    /// The network whose every bias and weight is this network's, moved
    /// toward that of `noise` at the same place by the fraction `rate`.
    pub fn blend(&self, noise: &NeuralNetwork, rate: i64) -> (child: Self)
        requires
            self.wf(),
            noise.wf(),
            same_topology(self@, noise@),
            is_ratio(rate as int),
        ensures
            child@ == blend_network(self@, noise@, rate as int),
            child.wf(),
            same_topology(child@, self@),
    {
        proof {
            lemma_blend_network(self@, noise@, rate as int);
        }
        let mut levels: Vec<Level> = Vec::new();
        let mut k: usize = 0;
        while k < self.levels.len()
            invariant
                k <= self.levels@.len(),
                self.wf(),
                noise.wf(),
                same_topology(self@, noise@),
                is_ratio(rate as int),
                levels@.len() == k,
                forall|m: int| 0 <= m < k ==> (#[trigger] levels@[m])@ == blend_level(
                    self@[m],
                    noise@[m],
                    rate as int,
                ),
            decreases self.levels@.len() - k,
        {
            assert(same_shape(self@[k as int], noise@[k as int]));
            let level = self.levels[k].blend(&noise.levels[k], rate);
            levels.push(level);
            k += 1;
        }
        let child = NeuralNetwork { levels };
        child
    }

    /// A network of the same topology with fresh random weights and
    /// biases.
    pub fn noise<R: RandomSource>(&self, rng: &mut R) -> (fresh: Self)
        requires
            self.wf(),
        ensures
            fresh.wf(),
            same_topology(fresh@, self@),
    {
        let mut levels: Vec<Level> = Vec::new();
        let mut k: usize = 0;
        while k < self.levels.len()
            invariant
                k <= self.levels@.len(),
                self.wf(),
                levels@.len() == k,
                forall|m: int| 0 <= m < k ==> (#[trigger] levels@[m]).wf() && same_shape(
                    levels@[m]@,
                    self@[m],
                ),
            decreases self.levels@.len() - k,
        {
            assert(level_wf(self@[k as int]));
            let level = self.levels[k].noise(rng);
            levels.push(level);
            k += 1;
        }
        let fresh = NeuralNetwork { levels };
        fresh
    }

    /// A child of this network: every weight and bias moved toward a fresh
    /// random value between -1.0 and 1.0 by the fraction `mutation_rate`.
    /// At rate 0.0 the child is the parent; at rate 1.0 nothing of the
    /// parent's weights and biases is left.
    pub fn mutate<R: RandomSource>(&self, mutation_rate: i64, rng: &mut R) -> (child: Self)
        requires
            self.wf(),
            is_ratio(mutation_rate as int),
        ensures
            child.wf(),
            same_topology(child@, self@),
            exists|noise: Seq<LevelModel>|
                network_wf(noise) && same_topology(noise, self@) && child@ == #[trigger] blend_network(
                    self@,
                    noise,
                    mutation_rate as int,
                ),
            mutation_rate == 0 ==> child@ == self@,
    {
        let noise = self.noise(rng);
        let child = self.blend(&noise, mutation_rate);
        proof {
            if mutation_rate == 0 {
                lemma_mutation_at_zero_keeps_parent(self@, noise@);
            }
        }
        child
    }

    /// A copy of the network.
    pub fn duplicate(&self) -> (copy: Self)
        ensures
            copy@ == self@,
    {
        let mut levels: Vec<Level> = Vec::new();
        let mut k: usize = 0;
        while k < self.levels.len()
            invariant
                k <= self.levels@.len(),
                levels@.len() == k,
                forall|m: int| 0 <= m < k ==> (#[trigger] levels@[m])@ == self.levels@[m]@,
            decreases self.levels@.len() - k,
        {
            levels.push(self.levels[k].duplicate());
            k += 1;
        }
        let copy = NeuralNetwork { levels };
        copy
    }
}

} // verus!
