//! Per-sample orchestration of the dreamy chain.
//!
//! Each tick takes one microphone sample and produces one output sample:
//! echo cancellation against the previous output, a voice-activity gate on
//! that same reference deciding whether the canceller adapts next tick,
//! granular resynthesis of the cleaned signal, and the tone chain.  The
//! echo reference for sample n is the chain's output for sample n−1.

use vstd::prelude::*;
use crate::fixed::{HALF, q_ok, spec_qadd, spec_qsub, spec_qmul};
use crate::echo_canceller::{EchoCanceller, VoiceActivityDetector, aec_estimate, aec_power,
    normalized_step, updated_weight, smoothed_energy, EPS_Q};
use crate::granular::{GranularEngine, DreamyPreset, EngineView, engine_next, engine_output};
use crate::effects::{EffectsChain, onepole_next, chorus_phase_next, chorus_offset,
    reverb_out, CHORUS_LEN, CHORUS_DRY, CHORUS_WET};

verus! {

/// The default echo filter length: about 23 ms of room response at
/// 44.1 kHz.
pub const AEC_TAPS: usize = 1024;

/// The default voice-activity threshold: 10⁻⁴, truncated to fixed point.
pub const VAD_THRESHOLD: i64 = 429496;

/// The recording buffer length handed to the engine, in fixed-point
/// milliseconds (two seconds).
pub const ENGINE_BUFFER_MS: i64 = 2000 * 0x1_0000_0000;

/// The default grain cap.
pub const ENGINE_MAX_GRAINS: usize = 64;

/// The whole realtime chain and the one-sample feedback path.
pub struct Pipeline {
    pub echo_canceller: EchoCanceller,
    pub vad: VoiceActivityDetector,
    pub engine: GranularEngine,
    pub effects: EffectsChain,
    pub previous_output: i64,
}

impl Pipeline {
    pub open spec fn wf(self) -> bool {
        &&& self.echo_canceller.wf()
        &&& self.vad.wf()
        &&& self.engine.wf()
        &&& self.effects.wf()
        &&& q_ok(self.previous_output as int)
    }

    /// The dreamy pipeline at a sample rate: a 1024-tap canceller at step
    /// size ½, the voice-activity gate, the granular engine under the
    /// dreamy preset, and the dreamy tone chain.
    pub fn new(sample_rate: u32) -> (r: Self)
        requires
            8000 <= sample_rate <= 192000,
        ensures
            r.wf(),
            r.previous_output == 0,
            r.echo_canceller.taps() == AEC_TAPS,
            r.echo_canceller.step() == HALF,
            r.engine@.max_grains == ENGINE_MAX_GRAINS,
            r.engine@.rate == sample_rate,
            r.effects.sample_rate == sample_rate,
            r.vad.threshold_s() == VAD_THRESHOLD,
    {
        let echo_canceller: EchoCanceller = EchoCanceller::new(AEC_TAPS, HALF);
        let vad: VoiceActivityDetector = VoiceActivityDetector::new(sample_rate, VAD_THRESHOLD);
        let mut engine: GranularEngine = GranularEngine::new(
            sample_rate,
            ENGINE_BUFFER_MS,
            ENGINE_MAX_GRAINS,
        );
        DreamyPreset::configure_engine(&mut engine);
        let effects: EffectsChain = EffectsChain::new_dreamy(sample_rate);
        Pipeline { echo_canceller, vad, engine, effects, previous_output: 0 }
    }

    /// One sample through the whole chain.  The canceller subtracts the
    /// previous output, the detector gates adaptation on it, and the new
    /// output becomes the next tick's echo reference.
    pub fn tick(&mut self, input: i64) -> (r: i64)
        requires
            old(self).wf(),
            q_ok(input as int),
        ensures
            final(self).wf(),
            q_ok(r as int),
            final(self).previous_output == r,
            ({
                let prev = old(self).previous_output;
                let aec0 = old(self).echo_canceller;
                let r1 = aec0.reference().update(aec0.pos(), prev);
                let cleaned = spec_qsub(input as int, aec_estimate(aec0.weights(), r1, aec0.pos()));
                let pa = if prev < 0 { -(prev as int) } else { prev as int };
                let inst = spec_qmul(pa, pa);
                let alpha = if inst > old(self).vad.energy_s() {
                    old(self).vad.attack_s()
                } else {
                    old(self).vad.release_s()
                };
                let energy1 = smoothed_energy(old(self).vad.energy_s(), alpha, inst);
                let v1 = EngineView {
                    buf: old(self).engine@.buf.update(old(self).engine@.wpos, cleaned as i64),
                    wpos: (old(self).engine@.wpos + 1) % old(self).engine@.cap,
                    ..old(self).engine@
                };
                let granular = engine_output(v1);
                let fx = old(self).effects;
                let lp1 = onepole_next(fx.lowpass.state as int, fx.lowpass.coeff as int, granular);
                let ph = chorus_phase_next(fx.chorus_phase as int, fx.sample_rate as int);
                let off = chorus_offset(ph);
                let dpos = (fx.chorus_pos + CHORUS_LEN - off) % (CHORUS_LEN as int);
                let ch = spec_qadd(
                    spec_qmul(CHORUS_DRY as int, lp1),
                    spec_qmul(CHORUS_WET as int, fx.chorus_delay@[dpos] as int),
                );
                &&& r as int == reverb_out(
                    fx.reverb.combs@,
                    fx.reverb.allpasses@,
                    fx.reverb.wet as int,
                    fx.reverb.dry as int,
                    ch,
                )
                &&& final(self).vad.energy_s() == energy1
                &&& final(self).echo_canceller.adaptation_enabled == (energy1
                    > old(self).vad.threshold_s())
                &&& final(self).echo_canceller.reference() =~= r1
                &&& final(self).echo_canceller.pos() == (aec0.pos() + 1) % aec0.taps()
                &&& (if aec0.adapting() {
                    let gain = spec_qmul(
                        normalized_step(aec0.step() as int, aec_power(r1, aec0.pos()), EPS_Q as int),
                        cleaned,
                    );
                    forall|i: int|
                        0 <= i < aec0.taps() ==> (
                        #[trigger] final(self).echo_canceller.weights()[i]) as int
                            == updated_weight(aec0.weights(), r1, aec0.pos(), gain, i)
                } else {
                    final(self).echo_canceller.weights() == aec0.weights()
                })
                &&& final(self).engine@ == engine_next(v1)
            }),
    {
        let prev: i64 = self.previous_output;
        let echo_cancelled: i64 = self.echo_canceller.process(input, prev);
        let prev_abs: i64 = if prev < 0 { -prev } else { prev };
        let speaker_active: bool = self.vad.process(prev_abs);
        self.echo_canceller.set_adaptation_enabled(speaker_active);
        self.engine.write_input(echo_cancelled);
        let granular_output: i64 = self.engine.process();
        let processed: i64 = self.effects.process(granular_output);
        self.previous_output = processed;
        processed
    }
}

} // verus!
