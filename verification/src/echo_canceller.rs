//! Adaptive echo cancellation.
//!
//! [`EchoCanceller`] subtracts an estimate of the signal most recently sent
//! to the speakers from the microphone signal, adapting a FIR filter by the
//! normalized least-mean-squares (NLMS) rule.  [`VoiceActivityDetector`]
//! tracks smoothed signal energy and gates that adaptation.

use vstd::prelude::*;
use vstd::pervasive::VecAdditionalExecFns;
use crate::fixed::{ONE, q_ok, spec_qadd, spec_qsub, spec_qmul, spec_qdiv, spec_exp_neg,
    qadd, qsub, qmul, qdiv, exp_neg_q, lemma_qmul_contract, lemma_qmul_square_nonneg};

verus! {

/// Regularization constant ε: 10⁻⁶ scaled by `ONE`, rounded up so that it is
/// strictly positive.
pub const EPS_Q: i64 = 4295;

/// Largest supported filter length.
pub const MAX_TAPS: usize = 0x0100_0000;

/// The ring position holding the reference sample that pairs with filter tap
/// `i`: tap 0 pairs with the sample just written at `pos`, tap `i` with the
/// sample `i` steps older.
pub open spec fn ring_index(pos: int, len: int, i: int) -> int {
    (pos + len - i) % len
}

/// The first `n` terms of the echo estimate Σ w[i]·r[ring_index(i)],
/// accumulated in tap order with saturating fixed-point operations.
pub open spec fn est_prefix(w: Seq<i64>, r: Seq<i64>, pos: int, n: int) -> int
    decreases n,
{
    if n <= 0 {
        0
    } else {
        spec_qadd(
            est_prefix(w, r, pos, n - 1),
            spec_qmul(w[n - 1] as int, r[ring_index(pos, r.len() as int, n - 1)] as int),
        )
    }
}

/// The echo estimate over the whole filter.
pub open spec fn aec_estimate(w: Seq<i64>, r: Seq<i64>, pos: int) -> int {
    est_prefix(w, r, pos, w.len() as int)
}

/// The first `n` terms of the reference power Σ r[ring_index(i)]².
pub open spec fn power_prefix(r: Seq<i64>, pos: int, n: int) -> int
    decreases n,
{
    if n <= 0 {
        0
    } else {
        spec_qadd(
            power_prefix(r, pos, n - 1),
            spec_qmul(
                r[ring_index(pos, r.len() as int, n - 1)] as int,
                r[ring_index(pos, r.len() as int, n - 1)] as int,
            ),
        )
    }
}

/// The reference power over the whole ring.
pub open spec fn aec_power(r: Seq<i64>, pos: int) -> int {
    power_prefix(r, pos, r.len() as int)
}

/// The NLMS normalized step μ′ = μ/(P + ε).
pub open spec fn normalized_step(step: int, power: int, reg: int) -> int {
    spec_qdiv(step, spec_qadd(power, reg))
}

/// One updated filter weight: w[i] + gain·r[ring_index(i)], where the gain
/// is the normalized step times the error.
pub open spec fn updated_weight(w: Seq<i64>, r: Seq<i64>, pos: int, gain: int, i: int) -> int {
    spec_qadd(w[i] as int, spec_qmul(gain, r[ring_index(pos, r.len() as int, i)] as int))
}

/// Adaptive NLMS echo canceller: a FIR filter over a ring of recent
/// reference (speaker) samples, adapted toward the microphone signal.
pub struct EchoCanceller {
    pub filter_weights: Vec<i64>,
    pub reference_buffer: Vec<i64>,
    pub buffer_pos: usize,
    pub step_size: i64,
    pub regularization: i64,
    pub adaptation_enabled: bool,
}

impl EchoCanceller {
    /// Well-formedness: matching lengths, the write position in range, the
    /// step size in [0, 1], and every stored value in fixed-point range.
    pub open spec fn wf(self) -> bool {
        &&& self.filter_weights@.len() == self.reference_buffer@.len()
        &&& 1 <= self.filter_weights@.len() <= MAX_TAPS
        &&& self.buffer_pos < self.filter_weights@.len()
        &&& 0 <= self.step_size <= ONE
        &&& self.regularization == EPS_Q
        &&& forall|i: int|
            0 <= i < self.filter_weights@.len() ==> q_ok(
                (#[trigger] self.filter_weights@[i]) as int,
            )
        &&& forall|i: int|
            0 <= i < self.reference_buffer@.len() ==> q_ok(
                (#[trigger] self.reference_buffer@[i]) as int,
            )
    }

    pub open spec fn taps(self) -> int {
        self.filter_weights@.len() as int
    }

    pub open spec fn weights(self) -> Seq<i64> {
        self.filter_weights@
    }

    pub open spec fn reference(self) -> Seq<i64> {
        self.reference_buffer@
    }

    pub open spec fn pos(self) -> int {
        self.buffer_pos as int
    }

    pub open spec fn step(self) -> int {
        self.step_size as int
    }

    pub open spec fn adapting(self) -> bool {
        self.adaptation_enabled
    }

    /// A fresh canceller: zero weights, zero reference history, adaptation
    /// enabled.
    pub fn new(filter_length: usize, step_size: i64) -> (r: Self)
        requires
            1 <= filter_length <= MAX_TAPS,
            0 <= step_size <= ONE,
        ensures
            r.wf(),
            r.taps() == filter_length,
            forall|i: int| 0 <= i < filter_length ==> #[trigger] r.weights()[i] == 0i64,
            forall|i: int| 0 <= i < filter_length ==> #[trigger] r.reference()[i] == 0i64,
            r.pos() == 0,
            r.step() == step_size,
            r.adapting(),
    {
        EchoCanceller {
            filter_weights: zero_vec(filter_length),
            reference_buffer: zero_vec(filter_length),
            buffer_pos: 0,
            step_size,
            regularization: EPS_Q,
            adaptation_enabled: true,
        }
    }

    /// Advance one sample time: store the reference sample, subtract the
    /// echo estimate from the microphone sample, and, when adaptation is
    /// enabled, apply the NLMS update to every weight.
    pub fn process(&mut self, mic_input: i64, speaker_output: i64) -> (r: i64)
        requires
            old(self).wf(),
            q_ok(mic_input as int),
            q_ok(speaker_output as int),
        ensures
            final(self).wf(),
            q_ok(r as int),
            final(self).taps() == old(self).taps(),
            final(self).reference() =~= old(self).reference().update(old(self).pos(), speaker_output),
            final(self).pos() == (old(self).pos() + 1) % old(self).taps(),
            final(self).step_size == old(self).step_size,
            final(self).adaptation_enabled == old(self).adaptation_enabled,
            ({
                let r1 = old(self).reference().update(old(self).pos(), speaker_output);
                let est = aec_estimate(old(self).weights(), r1, old(self).pos());
                &&& r == spec_qsub(mic_input as int, est)
                &&& if old(self).adapting() {
                    let gain = spec_qmul(
                        normalized_step(
                            old(self).step() as int,
                            aec_power(r1, old(self).pos()),
                            EPS_Q as int,
                        ),
                        r as int,
                    );
                    forall|i: int|
                        0 <= i < old(self).taps() ==> (#[trigger] final(self).weights()[i]) as int
                            == updated_weight(old(self).weights(), r1, old(self).pos(), gain, i)
                } else {
                    final(self).weights() == old(self).weights()
                }
            }),
    {
        let len: usize = self.filter_weights.len();
        self.reference_buffer.set(self.buffer_pos, speaker_output);
        proof {
            assert(self.reference() =~= old(self).reference().update(
                old(self).pos(), speaker_output));
        }
        let echo_estimate: i64 = self.compute_echo_estimate();
        let error_signal: i64 = qsub(mic_input, echo_estimate);
        if self.adaptation_enabled {
            self.update_filter_weights(error_signal);
        }
        let ghost s2 = *self;
        self.buffer_pos = (self.buffer_pos + 1) % len;
        proof {
            if old(self).adaptation_enabled {
                let r1 = old(self).reference().update(old(self).pos(), speaker_output);
                let gain = spec_qmul(
                    normalized_step(
                        old(self).step() as int,
                        aec_power(r1, old(self).pos()),
                        EPS_Q as int,
                    ),
                    error_signal as int,
                );
                assert forall|i: int| 0 <= i < old(self).taps() implies (
                #[trigger] self.weights()[i]) as int == updated_weight(
                    old(self).weights(),
                    r1,
                    old(self).pos(),
                    gain,
                    i,
                ) by {
                    assert((s2.weights()[i]) as int == updated_weight(
                        old(self).weights(), r1, old(self).pos(), gain, i));
                }
            }
        }
        error_signal
    }

    /// The convolution of the weights with the reference ring, read in
    /// reverse chronological order from the write position.
    fn compute_echo_estimate(&self) -> (r: i64)
        requires
            self.wf(),
        ensures
            r as int == aec_estimate(self.weights(), self.reference(), self.pos()),
            q_ok(r as int),
    {
        let mut echo: i64 = 0;
        let filter_len: usize = self.filter_weights.len();
        let mut i: usize = 0;
        while i < filter_len
            invariant
                self.wf(),
                i <= filter_len,
                filter_len == self.taps(),
                echo as int == est_prefix(self.weights(), self.reference(), self.pos(), i as int),
                q_ok(echo as int),
            decreases filter_len - i,
        {
            let buffer_idx: usize = (self.buffer_pos + filter_len - i) % filter_len;
            echo = qadd(echo, qmul(self.filter_weights[i], self.reference_buffer[buffer_idx]));
            i = i + 1;
        }
        echo
    }

    /// The NLMS weight update w[i] += μ′·e·r[ring_index(i)], with
    /// μ′ = μ/(P + ε).
    fn update_filter_weights(&mut self, error: i64)
        requires
            old(self).wf(),
            q_ok(error as int),
        ensures
            final(self).wf(),
            final(self).taps() == old(self).taps(),
            final(self).reference() == old(self).reference(),
            final(self).buffer_pos == old(self).buffer_pos,
            final(self).step_size == old(self).step_size,
            final(self).adaptation_enabled == old(self).adaptation_enabled,
            ({
                let gain = spec_qmul(
                    normalized_step(
                        old(self).step() as int,
                        aec_power(old(self).reference(), old(self).pos()),
                        EPS_Q as int,
                    ),
                    error as int,
                );
                forall|i: int|
                    0 <= i < old(self).taps() ==> (#[trigger] final(self).weights()[i]) as int
                        == updated_weight(
                        old(self).weights(),
                        old(self).reference(),
                        old(self).pos(),
                        gain,
                        i,
                    )
            }),
    {
        let mut power: i64 = 0;
        let filter_len: usize = self.filter_weights.len();
        let mut i: usize = 0;
        while i < filter_len
            invariant
                self.wf(),
                i <= filter_len,
                filter_len == self.taps(),
                power as int == power_prefix(self.reference(), self.pos(), i as int),
                0 <= power,
            decreases filter_len - i,
        {
            let buffer_idx: usize = (self.buffer_pos + filter_len - i) % filter_len;
            let sample: i64 = self.reference_buffer[buffer_idx];
            proof {
                lemma_qmul_square_nonneg(sample as int);
            }
            power = qadd(power, qmul(sample, sample));
            i = i + 1;
        }
        let normalized: i64 = qdiv(self.step_size, qadd(power, self.regularization));
        let gain: i64 = qmul(normalized, error);
        let ghost w0 = self.weights();
        let mut j: usize = 0;
        while j < filter_len
            invariant
                self.wf(),
                j <= filter_len,
                filter_len == self.taps(),
                self.reference() == old(self).reference(),
                self.buffer_pos == old(self).buffer_pos,
                self.step_size == old(self).step_size,
                self.adaptation_enabled == old(self).adaptation_enabled,
                w0 == old(self).weights(),
                q_ok(gain as int),
                gain as int == spec_qmul(
                    normalized_step(
                        old(self).step() as int,
                        aec_power(old(self).reference(), old(self).pos()),
                        EPS_Q as int,
                    ),
                    error as int,
                ),
                forall|k: int|
                    0 <= k < j ==> (#[trigger] self.weights()[k]) as int == updated_weight(
                        w0,
                        old(self).reference(),
                        old(self).pos(),
                        gain as int,
                        k,
                    ),
                forall|k: int| j <= k < filter_len ==> self.weights()[k] == w0[k],
            decreases filter_len - j,
        {
            let buffer_idx: usize = (self.buffer_pos + filter_len - j) % filter_len;
            let reference_sample: i64 = self.reference_buffer[buffer_idx];
            let updated: i64 = qadd(self.filter_weights[j], qmul(gain, reference_sample));
            let ghost sold = *self;
            self.filter_weights.set(j, updated);
            proof {
                assert(self.weights() == sold.weights().update(j as int, updated));
                assert forall|k: int| 0 <= k < j + 1 implies (#[trigger] self.weights()[k]) as int
                    == updated_weight(w0, old(self).reference(), old(self).pos(), gain as int, k) by {
                    if k < j {
                        assert(sold.weights()[k] == self.weights()[k]);
                    }
                }
                assert forall|k: int| j + 1 <= k < filter_len implies #[trigger] self.weights()[k] == w0[k] by {
                    assert(sold.weights()[k] == w0[k]);
                }
            }
            j = j + 1;
        }
    }

    /// Forget the learned model: zero every weight and every stored
    /// reference sample.  The write position and settings are untouched.
    pub fn reset(&mut self)
        requires
            old(self).wf(),
        ensures
            final(self).wf(),
            final(self).taps() == old(self).taps(),
            forall|i: int| 0 <= i < final(self).taps() ==> #[trigger] final(self).weights()[i] == 0i64,
            forall|i: int| 0 <= i < final(self).taps() ==> #[trigger] final(self).reference()[i] == 0i64,
            final(self).buffer_pos == old(self).buffer_pos,
            final(self).step_size == old(self).step_size,
            final(self).adaptation_enabled == old(self).adaptation_enabled,
    {
        let filter_len: usize = self.filter_weights.len();
        let mut i: usize = 0;
        while i < filter_len
            invariant
                self.wf(),
                i <= filter_len,
                filter_len == self.taps(),
                self.reference() == old(self).reference(),
                self.buffer_pos == old(self).buffer_pos,
                self.step_size == old(self).step_size,
                self.adaptation_enabled == old(self).adaptation_enabled,
                forall|k: int| 0 <= k < i ==> #[trigger] self.weights()[k] == 0i64,
            decreases filter_len - i,
        {
            let ghost sold = *self;
            self.filter_weights.set(i, 0);
            proof {
                assert(self.weights() == sold.weights().update(i as int, 0i64));
                assert forall|k: int| 0 <= k < i + 1 implies #[trigger] self.weights()[k] == 0i64 by {
                    if k < i {
                        assert(sold.weights()[k] == 0i64);
                    }
                }
            }
            i = i + 1;
        }
        let mut j: usize = 0;
        while j < filter_len
            invariant
                self.wf(),
                j <= filter_len,
                filter_len == self.taps(),
                self.buffer_pos == old(self).buffer_pos,
                self.step_size == old(self).step_size,
                self.adaptation_enabled == old(self).adaptation_enabled,
                forall|k: int| 0 <= k < self.taps() ==> #[trigger] self.weights()[k] == 0i64,
                forall|k: int| 0 <= k < j ==> #[trigger] self.reference()[k] == 0i64,
            decreases filter_len - j,
        {
            let ghost sold = *self;
            self.reference_buffer.set(j, 0);
            proof {
                assert(self.weights() == sold.weights());
                assert forall|k: int| 0 <= k < self.taps() implies #[trigger] self.weights()[k] == 0i64 by {
                    assert(sold.weights()[k] == 0i64);
                }
                assert forall|k: int| 0 <= k < j + 1 implies #[trigger] self.reference()[k] == 0i64 by {
                    if k < j {
                        assert(sold.reference()[k] == 0i64);
                    }
                }
            }
            j = j + 1;
        }
    }

    /// Enable or disable filter adaptation.
    pub fn set_adaptation_enabled(&mut self, enabled: bool)
        requires
            old(self).wf(),
        ensures
            final(self).wf(),
            final(self).adaptation_enabled == enabled,
            final(self).weights() == old(self).weights(),
            final(self).reference() == old(self).reference(),
            final(self).buffer_pos == old(self).buffer_pos,
            final(self).step_size == old(self).step_size,
    {
        self.adaptation_enabled = enabled;
    }

    /// Replace the learning rate, clamped into [0, 1].
    pub fn set_step_size(&mut self, step_size: i64)
        requires
            old(self).wf(),
        ensures
            final(self).wf(),
            final(self).step_size == if step_size < 0 {
                0i64
            } else if step_size > ONE {
                ONE
            } else {
                step_size
            },
            final(self).weights() == old(self).weights(),
            final(self).reference() == old(self).reference(),
            final(self).buffer_pos == old(self).buffer_pos,
            final(self).adaptation_enabled == old(self).adaptation_enabled,
    {
        self.step_size = if step_size < 0 {
            0
        } else if step_size > ONE {
            ONE
        } else {
            step_size
        };
    }
}

/// A vector of `n` zeros.
fn zero_vec(n: usize) -> (r: Vec<i64>)
    ensures
        r@.len() == n,
        forall|i: int| 0 <= i < n ==> #[trigger] r@[i] == 0i64,
{
    let mut v: Vec<i64> = Vec::new();
    let mut i: usize = 0;
    while i < n
        invariant
            i <= n,
            v@.len() == i,
            forall|k: int| 0 <= k < i ==> #[trigger] v@[k] == 0i64,
        decreases n - i,
    {
        v.push(0);
        i = i + 1;
    }
    v
}

/// A zero filter contributes nothing: every prefix of the echo estimate is
/// zero when the weights are zero, whatever the reference holds.
pub proof fn lemma_est_zero_weights(w: Seq<i64>, r: Seq<i64>, pos: int, n: int)
    requires
        n <= w.len(),
        forall|i: int| 0 <= i < w.len() ==> #[trigger] w[i] == 0i64,
    ensures
        est_prefix(w, r, pos, n) == 0,
    decreases n,
{
    if n > 0 {
        lemma_est_zero_weights(w, r, pos, n - 1);
    }
}

/// Law: while the filter is all zeros (as after construction or reset), the
/// canceller passes the microphone sample through exactly, whatever
/// reference sample arrives.
pub proof fn lemma_aec_pass_through(w: Seq<i64>, r: Seq<i64>, pos: int, mic: int, refin: i64)
    requires
        w.len() == r.len(),
        1 <= w.len(),
        0 <= pos < w.len(),
        forall|i: int| 0 <= i < w.len() ==> #[trigger] w[i] == 0i64,
        q_ok(mic),
    ensures
        spec_qsub(mic, aec_estimate(w, r.update(pos, refin), pos)) == mic,
{
    lemma_est_zero_weights(w, r.update(pos, refin), pos, w.len() as int);
}

/// Law: with a zero reference history and a zero reference input, the NLMS
/// update leaves every weight unchanged, whatever the gain: each correction
/// term is a multiple of a zero reference sample.
pub proof fn lemma_aec_zero_reference_keeps_weights(
    w: Seq<i64>,
    r: Seq<i64>,
    pos: int,
    gain: int,
    i: int,
)
    requires
        w.len() == r.len(),
        1 <= w.len(),
        0 <= pos < w.len(),
        0 <= i < w.len(),
        forall|k: int| 0 <= k < r.len() ==> #[trigger] r[k] == 0i64,
        forall|k: int| 0 <= k < w.len() ==> q_ok((#[trigger] w[k]) as int),
    ensures
        updated_weight(w, r.update(pos, 0i64), pos, gain, i) == w[i] as int,
{
    let r1 = r.update(pos, 0i64);
    assert(0 <= ring_index(pos, r1.len() as int, i) < r1.len());
    assert(r1[ring_index(pos, r1.len() as int, i)] == 0i64);
}

/// Voice activity detection by a threshold on asymmetrically smoothed
/// signal energy: a fast attack when energy rises, a slow release when it
/// falls.
pub struct VoiceActivityDetector {
    pub threshold: i64,
    pub energy: i64,
    pub attack: i64,
    pub release: i64,
}

/// One smoothing step: e + (1 − α)·(i − e), the one-pole smoother toward
/// the instantaneous energy `inst` with coefficient `alpha`.
pub open spec fn smoothed_energy(e: int, alpha: int, inst: int) -> int {
    spec_qadd(e, spec_qmul(ONE - alpha, spec_qsub(inst, e)))
}

impl VoiceActivityDetector {
    /// Well-formedness: both coefficients in [0, 1] and a non-negative
    /// energy estimate.
    pub open spec fn wf(self) -> bool {
        &&& 0 <= self.attack <= ONE
        &&& 0 <= self.release <= ONE
        &&& 0 <= self.energy
    }

    pub open spec fn energy_s(self) -> int {
        self.energy as int
    }

    pub open spec fn threshold_s(self) -> int {
        self.threshold as int
    }

    pub open spec fn attack_s(self) -> int {
        self.attack as int
    }

    pub open spec fn release_s(self) -> int {
        self.release as int
    }

    /// A fresh detector.  The smoothing coefficients follow α = exp(−1/(R·t))
    /// for a 10 ms attack and a 100 ms release at sample rate R.
    pub fn new(sample_rate: u32, threshold: i64) -> (r: Self)
        requires
            100 <= sample_rate <= 1000000,
            0 < threshold,
        ensures
            r.wf(),
            r.energy_s() == 0,
            r.threshold_s() == threshold,
            r.attack_s() == spec_exp_neg((ONE as int) / ((sample_rate as int) / 100)),
            r.release_s() == spec_exp_neg((ONE as int) / ((sample_rate as int) / 10)),
    {
        let attack_samples: u32 = sample_rate / 100;
        let release_samples: u32 = sample_rate / 10;
        let xa: u64 = (ONE as u64) / (attack_samples as u64);
        let xr: u64 = (ONE as u64) / (release_samples as u64);
        VoiceActivityDetector {
            threshold,
            energy: 0,
            attack: exp_neg_q(xa as i64),
            release: exp_neg_q(xr as i64),
        }
    }

    /// Advance the smoothed energy by one sample and report whether it
    /// exceeds the threshold.
    pub fn process(&mut self, sample: i64) -> (r: bool)
        requires
            old(self).wf(),
            q_ok(sample as int),
        ensures
            final(self).wf(),
            final(self).threshold == old(self).threshold,
            final(self).attack == old(self).attack,
            final(self).release == old(self).release,
            ({
                let inst = spec_qmul(sample as int, sample as int);
                let alpha = if inst > old(self).energy_s() {
                    old(self).attack_s()
                } else {
                    old(self).release_s()
                };
                &&& final(self).energy_s() == smoothed_energy(old(self).energy_s(), alpha, inst)
                &&& r == (final(self).energy_s() > final(self).threshold_s())
            }),
    {
        let instant_energy: i64 = qmul(sample, sample);
        proof {
            lemma_qmul_square_nonneg(sample as int);
        }
        let alpha: i64 = if instant_energy > self.energy {
            self.attack
        } else {
            self.release
        };
        let delta: i64 = qmul(ONE - alpha, qsub(instant_energy, self.energy));
        proof {
            lemma_qmul_contract(
                ONE - alpha,
                spec_qsub(instant_energy as int, self.energy as int),
            );
        }
        self.energy = qadd(self.energy, delta);
        self.energy > self.threshold
    }

    /// Replace the detection threshold.
    pub fn set_threshold(&mut self, threshold: i64)
        requires
            old(self).wf(),
        ensures
            final(self).wf(),
            final(self).threshold == threshold,
            final(self).energy == old(self).energy,
            final(self).attack == old(self).attack,
            final(self).release == old(self).release,
    {
        self.threshold = threshold;
    }
}

/// Law: while the instantaneous energy stays at or above the smoothed
/// energy, a smoothing step never moves the estimate down, and never past
/// the instantaneous energy — the estimate converges upward.
pub proof fn lemma_energy_monotone_rise(e: int, alpha: int, inst: int)
    requires
        0 <= alpha <= ONE,
        0 <= e <= inst,
        q_ok(inst),
    ensures
        e <= smoothed_energy(e, alpha, inst) <= inst,
{
    lemma_qmul_contract(ONE - alpha, spec_qsub(inst, e));
}

/// Law: when the instantaneous energy falls below the smoothed energy, the
/// step releases downward, never past the instantaneous energy.
pub proof fn lemma_energy_monotone_fall(e: int, alpha: int, inst: int)
    requires
        0 <= alpha <= ONE,
        0 <= inst <= e,
        q_ok(e),
    ensures
        inst <= smoothed_energy(e, alpha, inst) <= e,
{
    lemma_qmul_contract(ONE - alpha, spec_qsub(inst, e));
}

} // verus!
