//! Granular resynthesis.
//!
//! A long circular buffer records the incoming (cleaned) signal.  On its own
//! clock the engine spawns short grains that re-read the buffer at randomized
//! offsets and playback rates under a Hann envelope; overlapping grains are
//! summed and normalized by the square root of their count.

use vstd::prelude::*;
use crate::fixed::{ONE, HALF, PI_Q, QMAX, q_ok, tdiv, spec_qadd, spec_qsub, spec_qmul,
    spec_qdiv, spec_sin_half, qadd, qsub, qmul, qdiv, emod, sin_half_q, whole_sqrt,
    is_sqrt_of, spec_sqrt, lemma_sqrt_unique};

verus! {

/// Largest supported buffer capacity, in samples.
pub const MAX_CAPACITY: usize = 0x4000_0000;

/// Largest supported grain length, in samples.
pub const MAX_GRAIN_LEN: usize = 0x0400_0000;

/// What a fractional-position read returns: resolve the position modulo the
/// buffer length (in fixed-point samples), split it into whole and
/// fractional parts, and interpolate linearly between the two neighbours.
pub open spec fn buf_read(buf: Seq<i64>, position: int) -> int {
    let m = buf.len() as int * (ONE as int);
    let p = position % m;
    let idx = p / (ONE as int);
    let frac = p % (ONE as int);
    let s1 = buf[idx] as int;
    let s2 = buf[(idx + 1) % (buf.len() as int)] as int;
    spec_qadd(s1, spec_qmul(frac, spec_qsub(s2, s1)))
}

/// Circular buffer of recorded samples with a single advancing write index.
pub struct GrainBuffer {
    pub buffer: Vec<i64>,
    pub write_pos: usize,
    pub capacity: usize,
}

impl GrainBuffer {
    /// Well-formedness: the stated capacity is the real one, the write index
    /// is in range, and every stored sample is in fixed-point range.
    pub open spec fn wf(self) -> bool {
        &&& self.capacity == self.buffer@.len()
        &&& 1 <= self.capacity <= MAX_CAPACITY
        &&& self.write_pos < self.capacity
        &&& forall|i: int|
            0 <= i < self.buffer@.len() ==> q_ok((#[trigger] self.buffer@[i]) as int)
    }

    /// A silent buffer of the given capacity.
    pub fn new(capacity_samples: usize) -> (r: Self)
        requires
            1 <= capacity_samples <= MAX_CAPACITY,
        ensures
            r.wf(),
            r.capacity == capacity_samples,
            r.write_pos == 0,
            forall|i: int| 0 <= i < capacity_samples ==> #[trigger] r.buffer@[i] == 0i64,
    {
        let mut v: Vec<i64> = Vec::new();
        let mut i: usize = 0;
        while i < capacity_samples
            invariant
                i <= capacity_samples,
                v@.len() == i,
                forall|k: int| 0 <= k < i ==> #[trigger] v@[k] == 0i64,
            decreases capacity_samples - i,
        {
            v.push(0);
            i = i + 1;
        }
        GrainBuffer { buffer: v, write_pos: 0, capacity: capacity_samples }
    }

    /// Record one sample at the write index and advance it modulo the
    /// capacity.
    pub fn write(&mut self, sample: i64)
        requires
            old(self).wf(),
            q_ok(sample as int),
        ensures
            final(self).wf(),
            final(self).capacity == old(self).capacity,
            final(self).buffer@ =~= old(self).buffer@.update(old(self).write_pos as int, sample),
            final(self).write_pos == (old(self).write_pos + 1) % (old(self).capacity as int),
    {
        let ghost sold = *self;
        self.buffer.set(self.write_pos, sample);
        proof {
            assert forall|i: int| 0 <= i < self.buffer@.len() implies q_ok(
                (#[trigger] self.buffer@[i]) as int,
            ) by {
                if i != sold.write_pos {
                    assert(q_ok((sold.buffer@[i]) as int));
                }
            }
        }
        self.write_pos = (self.write_pos + 1) % self.capacity;
    }

    /// Read at a fractional fixed-point position, wrapping around the buffer
    /// and interpolating linearly between the two neighbouring samples.
    pub fn read(&self, position: i64) -> (r: i64)
        requires
            self.wf(),
        ensures
            r as int == buf_read(self.buffer@, position as int),
            q_ok(r as int),
    {
        let m: i64 = (self.capacity as i64) * ONE;
        let p: i64 = emod(position, m);
        let idx_q: u64 = (p as u64) / (ONE as u64);
        proof {
            assert((ONE as int) * (self.capacity as int) == m) by (nonlinear_arith)
                requires
                    m == (self.capacity as int) * (ONE as int),
            ;
            vstd::arithmetic::div_mod::lemma_multiply_divide_lt(
                p as int, ONE as int, self.capacity as int);
        }
        let idx: usize = idx_q as usize;
        let frac: i64 = ((p as u64) % (ONE as u64)) as i64;
        let s1: i64 = self.buffer[idx];
        let s2: i64 = self.buffer[(idx + 1) % self.capacity];
        qadd(s1, qmul(frac, qsub(s2, s1)))
    }
}

/// Law: a read at a whole-sample position returns the stored sample
/// exactly — interpolation contributes nothing when the fraction is zero.
pub proof fn lemma_read_whole_sample(buf: Seq<i64>, k: int)
    requires
        1 <= buf.len(),
        0 <= k < buf.len(),
        forall|i: int| 0 <= i < buf.len() ==> q_ok((#[trigger] buf[i]) as int),
    ensures
        buf_read(buf, k * (ONE as int)) == buf[k],
{
    let m = buf.len() as int * (ONE as int);
    assert(0 <= k * (ONE as int) < m) by (nonlinear_arith)
        requires
            0 <= k < buf.len(),
            m == buf.len() as int * (ONE as int),
    ;
    vstd::arithmetic::div_mod::lemma_small_mod((k * (ONE as int)) as nat, m as nat);
    vstd::arithmetic::div_mod::lemma_fundamental_div_mod_converse_div(
        k * (ONE as int), ONE as int, k, 0);
    vstd::arithmetic::div_mod::lemma_fundamental_div_mod_converse_mod(
        k * (ONE as int), ONE as int, k, 0);
}

/// Law: a read halfway between two whole-sample positions returns the
/// midpoint of the two stored neighbours (their difference halved, truncated
/// toward zero, added to the first).
pub proof fn lemma_read_midpoint(buf: Seq<i64>, k: int)
    requires
        1 <= buf.len(),
        0 <= k < buf.len(),
        forall|i: int| 0 <= i < buf.len() ==> q_ok((#[trigger] buf[i]) as int),
        q_ok(buf[(k + 1) % (buf.len() as int)] as int - buf[k] as int),
    ensures
        buf_read(buf, k * (ONE as int) + HALF) == buf[k] as int + tdiv(
            buf[(k + 1) % (buf.len() as int)] as int - buf[k] as int,
            2,
        ),
{
    let m = buf.len() as int * (ONE as int);
    let pos = k * (ONE as int) + HALF;
    assert(0 <= pos < m) by (nonlinear_arith)
        requires
            0 <= k < buf.len(),
            m == buf.len() as int * (ONE as int),
            pos == k * (ONE as int) + HALF,
    ;
    vstd::arithmetic::div_mod::lemma_small_mod(pos as nat, m as nat);
    vstd::arithmetic::div_mod::lemma_fundamental_div_mod_converse_div(
        pos, ONE as int, k, HALF as int);
    vstd::arithmetic::div_mod::lemma_fundamental_div_mod_converse_mod(
        pos, ONE as int, k, HALF as int);
    let s1 = buf[k] as int;
    let s2 = buf[(k + 1) % (buf.len() as int)] as int;
    let d = spec_qsub(s2, s1);
    assert(d == s2 - s1);
    lemma_half_mul(d);
    if d >= 0 {
        vstd::arithmetic::div_mod::lemma_div_nonincreasing(d, 2);
        vstd::arithmetic::div_mod::lemma_div_pos_is_pos(d, 2);
    } else {
        vstd::arithmetic::div_mod::lemma_div_nonincreasing(-d, 2);
        vstd::arithmetic::div_mod::lemma_div_pos_is_pos(-d, 2);
    }
}

/// Multiplying by `HALF` is division by two, truncated toward zero.
pub proof fn lemma_half_mul(d: int)
    requires
        q_ok(d),
    ensures
        spec_qmul(HALF as int, d) == tdiv(d, 2),
        spec_qmul(d, HALF as int) == tdiv(d, 2),
{
    if d >= 0 {
        assert((HALF as int) * d == d * (HALF as int)) by (nonlinear_arith);
        assert(d * (HALF as int) == (d / 2) * (ONE as int) + (d % 2) * (HALF as int))
            by (nonlinear_arith);
        assert(0 <= (d % 2) * (HALF as int) < ONE as int) by (nonlinear_arith);
        vstd::arithmetic::div_mod::lemma_fundamental_div_mod_converse_div(
            d * (HALF as int), ONE as int, d / 2, (d % 2) * (HALF as int));
        assert(tdiv(d * (HALF as int), ONE as int) == d / 2);
        assert(tdiv(d, 2) == d / 2);
    } else {
        let nd = -d;
        assert((HALF as int) * d == -((HALF as int) * nd)) by (nonlinear_arith)
            requires
                nd == -d,
        ;
        assert(d * (HALF as int) == (HALF as int) * d) by (nonlinear_arith);
        assert(nd * (HALF as int) == (nd / 2) * (ONE as int) + (nd % 2) * (HALF as int))
            by (nonlinear_arith);
        assert(0 <= (nd % 2) * (HALF as int) < ONE as int) by (nonlinear_arith);
        assert((HALF as int) * nd == nd * (HALF as int)) by (nonlinear_arith);
        vstd::arithmetic::div_mod::lemma_fundamental_div_mod_converse_div(
            nd * (HALF as int), ONE as int, nd / 2, (nd % 2) * (HALF as int));
        assert(tdiv((HALF as int) * d, ONE as int) == -(nd / 2));
        assert(tdiv(d, 2) == -(nd / 2));
    }
}

/// The grain phase: elapsed ticks over the grain length, in fixed point.
pub open spec fn grain_phase(cur: int, len: int) -> int {
    (cur * (ONE as int)) / len
}

/// The Hann envelope 0.5·(1 − cos 2πφ), computed as sin²(πφ) with the
/// parabolic sine approximation: exactly 0 at φ ∈ {0, 1} and exactly 1 at
/// φ = ½.
pub open spec fn hann_window(phase: int) -> int {
    let th = (phase * (PI_Q as int)) / (ONE as int);
    let s = spec_sin_half(th);
    (s * s) / (ONE as int)
}

/// The Hann envelope, executable.
pub fn hann_q(phase: i64) -> (r: i64)
    requires
        0 <= phase <= ONE,
    ensures
        r as int == hann_window(phase as int),
        0 <= r <= ONE,
{
    proof {
        assert((phase as int) * (PI_Q as int) <= (ONE as int) * (PI_Q as int))
            by (nonlinear_arith)
            requires
                0 <= phase <= ONE as int,
        ;
        assert((phase as int) * (PI_Q as int) >= 0) by (nonlinear_arith)
            requires
                0 <= phase,
        ;
        vstd::arithmetic::div_mod::lemma_div_is_ordered(
            (phase as int) * (PI_Q as int), (ONE as int) * (PI_Q as int), ONE as int);
        vstd::arithmetic::div_mod::lemma_div_multiples_vanish(PI_Q as int, ONE as int);
        vstd::arithmetic::div_mod::lemma_div_pos_is_pos(
            (phase as int) * (PI_Q as int), ONE as int);
    }
    let th: i64 = (((phase as u128) * (PI_Q as u128)) / (ONE as u128)) as i64;
    let s: i64 = sin_half_q(th);
    proof {
        assert((s as int) * (s as int) <= (ONE as int) * (s as int)) by (nonlinear_arith)
            requires
                0 <= s <= ONE as int,
        ;
        assert((ONE as int) * (s as int) <= (ONE as int) * (ONE as int)) by (nonlinear_arith)
            requires
                0 <= s <= ONE as int,
        ;
        assert((s as int) * (s as int) >= 0) by (nonlinear_arith);
        vstd::arithmetic::div_mod::lemma_div_is_ordered(
            (s as int) * (s as int), (ONE as int) * (ONE as int), ONE as int);
        vstd::arithmetic::div_mod::lemma_div_multiples_vanish(ONE as int, ONE as int);
        vstd::arithmetic::div_mod::lemma_div_pos_is_pos((s as int) * (s as int), ONE as int);
    }
    (((s as u128) * (s as u128)) / (ONE as u128)) as i64
}

/// Law: the Hann envelope vanishes at both endpoints of the grain and
/// reaches its peak value, exactly one, at the midpoint.
pub proof fn lemma_hann_endpoints_and_peak()
    ensures
        hann_window(0) == 0,
        hann_window(ONE as int) == 0,
        hann_window(HALF as int) == ONE,
{
    assert((0 * (PI_Q as int)) / (ONE as int) == 0);
    assert(spec_sin_half(0) == 0);
    assert(hann_window(0) == 0);
    assert(((ONE as int) * (PI_Q as int)) / (ONE as int) == PI_Q) by {
        vstd::arithmetic::div_mod::lemma_div_multiples_vanish(PI_Q as int, ONE as int);
    }
    assert(4 * (PI_Q as int) * ((PI_Q as int) - (PI_Q as int)) * (ONE as int) == 0);
    assert(spec_sin_half(PI_Q as int) == 0);
    assert(hann_window(ONE as int) == 0);
    let th: int = ((HALF as int) * (PI_Q as int)) / (ONE as int);
    assert(th == 6746518852);
    assert(4 * th * ((PI_Q as int) - th) == (PI_Q as int) * (PI_Q as int));
    assert(spec_sin_half(th) == ONE) by {
        vstd::arithmetic::div_mod::lemma_div_multiples_vanish(
            ONE as int, (PI_Q as int) * (PI_Q as int));
    }
    assert(((ONE as int) * (ONE as int)) / (ONE as int) == ONE) by {
        vstd::arithmetic::div_mod::lemma_div_multiples_vanish(ONE as int, ONE as int);
    }
    assert(hann_window(HALF as int) == ONE);
}

/// One grain: a read head into the buffer with a Hann envelope.
#[derive(Clone, Copy)]
pub struct Grain {
    pub start_pos: i64,
    pub current_pos: usize,
    pub length: usize,
    pub pitch: i64,
    pub amplitude: i64,
    pub pan: i64,
    pub active: bool,
}

/// The grain envelope: zero once the grain is spent or inactive, otherwise
/// the Hann window at the grain phase.
pub open spec fn grain_window_spec(g: Grain) -> int {
    if !g.active {
        0
    } else if g.current_pos >= g.length {
        0
    } else {
        hann_window(grain_phase(g.current_pos as int, g.length as int))
    }
}

/// Where the grain reads this tick: its start plus the elapsed ticks scaled
/// by its playback rate.
pub open spec fn grain_read_pos(g: Grain) -> int {
    spec_qadd(g.start_pos as int, spec_qmul(g.current_pos as int * (ONE as int), g.pitch as int))
}

/// What the grain emits this tick: the interpolated buffer sample under the
/// envelope, scaled by its amplitude.
pub open spec fn grain_step_out(g: Grain, buf: Seq<i64>) -> int {
    if !g.active {
        0
    } else {
        spec_qmul(
            spec_qmul(buf_read(buf, grain_read_pos(g)), grain_window_spec(g)),
            g.amplitude as int,
        )
    }
}

/// The grain after one tick: one step further, deactivated once it has
/// played its full length.
pub open spec fn grain_step_state(g: Grain) -> Grain {
    if !g.active {
        g
    } else {
        Grain {
            current_pos: (g.current_pos + 1) as usize,
            active: g.current_pos + 1 < g.length,
            ..g
        }
    }
}

impl Grain {
    /// Well-formedness: a positive bounded length, the playhead within the
    /// grain, and every coefficient in fixed-point range.
    pub open spec fn wf(self) -> bool {
        &&& 1 <= self.length <= MAX_GRAIN_LEN
        &&& self.current_pos <= self.length
        &&& (self.active ==> self.current_pos < self.length)
        &&& q_ok(self.start_pos as int)
        &&& q_ok(self.pitch as int)
        &&& q_ok(self.amplitude as int)
        &&& q_ok(self.pan as int)
    }

    /// A fresh, active grain at full amplitude, centred pan.
    pub fn new(start_pos: i64, length: usize, pitch: i64) -> (r: Self)
        requires
            1 <= length <= MAX_GRAIN_LEN,
            q_ok(start_pos as int),
            q_ok(pitch as int),
        ensures
            r.wf(),
            r == (Grain {
                start_pos,
                current_pos: 0,
                length,
                pitch,
                amplitude: ONE,
                pan: HALF,
                active: true,
            }),
    {
        Grain {
            start_pos,
            current_pos: 0,
            length,
            pitch,
            amplitude: ONE,
            pan: HALF,
            active: true,
        }
    }

    /// The Hann envelope at the grain phase.
    pub fn window(&self) -> (r: i64)
        requires
            self.wf(),
        ensures
            r as int == grain_window_spec(*self),
            0 <= r <= ONE,
    {
        if !self.active {
            return 0;
        }
        if self.current_pos >= self.length {
            return 0;
        }
        proof {
            assert((self.current_pos as int) * (ONE as int) <= (self.length as int) * (
            ONE as int)) by (nonlinear_arith)
                requires
                    self.current_pos <= self.length as int,
            ;
            assert((self.current_pos as int) * (ONE as int) >= 0) by (nonlinear_arith)
                requires
                    self.current_pos >= 0,
            ;
            assert((self.length as int) * (ONE as int) <= (MAX_GRAIN_LEN as int) * (
            ONE as int)) by (nonlinear_arith)
                requires
                    self.length <= MAX_GRAIN_LEN as int,
            ;
            vstd::arithmetic::div_mod::lemma_multiply_divide_le(
                (self.current_pos as int) * (ONE as int), self.length as int, ONE as int);
            assert((self.length as int) * (ONE as int) == (ONE as int) * (self.length as int))
                by (nonlinear_arith);
            vstd::arithmetic::div_mod::lemma_div_pos_is_pos(
                (self.current_pos as int) * (ONE as int), self.length as int);
        }
        let phase: i64 = (((self.current_pos as u64) * (ONE as u64)) / (self.length as u64))
            as i64;
        hann_q(phase)
    }

    /// Advance the grain one tick against the buffer, returning its
    /// enveloped contribution.
    pub fn process(&mut self, buffer: &GrainBuffer) -> (r: i64)
        requires
            old(self).wf(),
            buffer.wf(),
        ensures
            final(self).wf(),
            *final(self) == grain_step_state(*old(self)),
            r as int == grain_step_out(*old(self), buffer.buffer@),
            q_ok(r as int),
    {
        if !self.active {
            return 0;
        }
        let w: i64 = self.window();
        proof {
            assert((self.current_pos as int) * (ONE as int) <= (MAX_GRAIN_LEN as int) * (
            ONE as int)) by (nonlinear_arith)
                requires
                    0 <= self.current_pos <= MAX_GRAIN_LEN as int,
            ;
            assert((self.current_pos as int) * (ONE as int) >= 0) by (nonlinear_arith)
                requires
                    self.current_pos >= 0,
            ;
        }
        let cur_q: i64 = (self.current_pos as i64) * ONE;
        let read_pos: i64 = qadd(self.start_pos, qmul(cur_q, self.pitch));
        let sample: i64 = qmul(qmul(buffer.read(read_pos), w), self.amplitude);
        self.current_pos = self.current_pos + 1;
        if self.current_pos >= self.length {
            self.active = false;
        }
        sample
    }
}

/// SplitMix64 constants: the golden-ratio increment and the two mixing
/// multipliers.
pub const SM_GAMMA: u64 = 0x9E3779B97F4A7C15;

pub const SM_MIX1: u64 = 0xBF58476D1CE4E5B9;

pub const SM_MIX2: u64 = 0x94D049BB133111EB;

/// The SplitMix64 state advance: add the golden-ratio increment, wrapping.
pub open spec fn splitmix_next(s: u64) -> u64 {
    vstd::wrapping::u64_specs::wrapping_add(s, SM_GAMMA)
}

/// The SplitMix64 output mix of a state.
pub open spec fn splitmix_mix(s: u64) -> u64 {
    let z1 = vstd::wrapping::u64_specs::wrapping_mul(s ^ (s >> 30u64), SM_MIX1);
    let z2 = vstd::wrapping::u64_specs::wrapping_mul(z1 ^ (z1 >> 27u64), SM_MIX2);
    z2 ^ (z2 >> 31u64)
}

/// One uniform fixed-point draw in [0, 1): the high 32 bits of the mix.
pub open spec fn splitmix_unit(s: u64) -> int {
    (splitmix_mix(s) >> 32u64) as int
}

/// The grain scheduler's seedable pseudo-random generator (SplitMix64).
/// Its whole behaviour is the three spec functions above, so a fixed seed
/// yields a fully determined draw sequence.
pub struct GrainRng {
    pub state: u64,
}

impl GrainRng {
    /// Start from an explicit seed.
    pub fn from_seed(seed: u64) -> (r: Self)
        ensures
            r.state == seed,
    {
        GrainRng { state: seed }
    }

    /// Advance the state and return a uniform fixed-point value in [0, 1).
    pub fn next_unit(&mut self) -> (r: i64)
        ensures
            final(self).state == splitmix_next(old(self).state),
            r as int == splitmix_unit(final(self).state),
            0 <= r < ONE,
    {
        self.state = self.state.wrapping_add(SM_GAMMA);
        let z0: u64 = self.state;
        let z1: u64 = (z0 ^ (z0 >> 30u64)).wrapping_mul(SM_MIX1);
        let z2: u64 = (z1 ^ (z1 >> 27u64)).wrapping_mul(SM_MIX2);
        let out: u64 = z2 ^ (z2 >> 31u64);
        let hi: u64 = out >> 32u64;
        proof {
            assert(out >> 32u64 < 0x1_0000_0000u64) by (bit_vector);
        }
        hi as i64
    }
}

/// Relies on rand::random::<u64>: one fresh value from the thread-local
/// generator, used only to seed the grain scheduler when no explicit seed
/// is given.  Nothing is assumed about the value drawn.
#[verifier::external_body]
fn entropy_seed() -> u64 {
    rand::random::<u64>()
}

/// The mathematical state of the engine: plain values only, so that every
/// step function below is visibly a function of this state.
#[verifier::ext_equal]
pub ghost struct EngineView {
    pub buf: Seq<i64>,
    pub wpos: int,
    pub cap: int,
    pub grains: Seq<Grain>,
    pub max_grains: int,
    pub rate: int,
    pub grain_size_ms: int,
    pub grain_density: int,
    pub pitch_shift: int,
    pub pitch_randomness: int,
    pub time_randomness: int,
    pub timer: int,
    pub rng: u64,
}

/// The spawned grain length in samples: grain_size_ms·rate/1000, truncated,
/// clamped into [1, MAX_GRAIN_LEN].
pub open spec fn spawn_length(grain_size_ms: int, rate: int) -> int {
    let n = (grain_size_ms * rate) / (1000 * (ONE as int));
    if n < 1 {
        1
    } else if n > MAX_GRAIN_LEN {
        MAX_GRAIN_LEN as int
    } else {
        n
    }
}

/// The grain spawned from the given state: reads back a uniform fraction of
/// up to half the buffer, with the pitch perturbed uniformly within
/// ±pitch_randomness.
pub open spec fn spawned_grain(
    rng: u64,
    wpos: int,
    cap: int,
    pitch_shift: int,
    pitch_randomness: int,
    grain_size_ms: int,
    rate: int,
) -> Grain {
    let u1 = splitmix_unit(splitmix_next(rng));
    let u2 = splitmix_unit(splitmix_next(splitmix_next(rng)));
    let lookback = spec_qmul(u1, HALF as int);
    let start = spec_qsub(wpos * (ONE as int), spec_qmul(lookback, cap * (ONE as int)));
    let pv = spec_qsub(
        spec_qmul(u2, spec_qadd(pitch_randomness, pitch_randomness)),
        pitch_randomness,
    );
    let pitch = spec_qmul(pitch_shift, spec_qadd(ONE as int, pv));
    Grain {
        start_pos: start as i64,
        current_pos: 0,
        length: spawn_length(grain_size_ms, rate) as usize,
        pitch: pitch as i64,
        amplitude: ONE,
        pan: HALF,
        active: true,
    }
}

/// Whether this tick spawns a grain: the countdown has run out and the
/// grain cap leaves room.
pub open spec fn engine_spawns(v: EngineView) -> bool {
    spec_qsub(v.timer, ONE as int) <= 0 && v.grains.len() < v.max_grains
}

/// The grains this tick mixes: the live ones, plus the newly spawned one.
pub open spec fn pre_grains(v: EngineView) -> Seq<Grain> {
    if engine_spawns(v) {
        v.grains.push(
            spawned_grain(
                v.rng,
                v.wpos,
                v.cap,
                v.pitch_shift,
                v.pitch_randomness,
                v.grain_size_ms,
                v.rate,
            ),
        )
    } else {
        v.grains
    }
}

/// The generator state after the tick: three draws on a spawning tick
/// (lookback, pitch, timing jitter), none otherwise.
pub open spec fn rng_after(v: EngineView) -> u64 {
    if engine_spawns(v) {
        splitmix_next(splitmix_next(splitmix_next(v.rng)))
    } else {
        v.rng
    }
}

/// The countdown after the tick: reset to the density interval with uniform
/// jitter of ±interval·time_randomness on a spawning tick, otherwise just
/// decremented.
pub open spec fn timer_after(v: EngineView) -> int {
    if engine_spawns(v) {
        let interval = spec_qdiv(v.rate * (ONE as int), v.grain_density);
        let randomness = spec_qmul(interval, v.time_randomness);
        let u3 = splitmix_unit(rng_after(v));
        spec_qadd(
            interval,
            spec_qsub(spec_qmul(u3, spec_qadd(randomness, randomness)), randomness),
        )
    } else {
        spec_qsub(v.timer, ONE as int)
    }
}

/// The first `n` grains, each advanced one tick.
pub open spec fn stepped_prefix(gs: Seq<Grain>, n: int) -> Seq<Grain>
    decreases n,
{
    if n <= 0 {
        Seq::empty()
    } else {
        stepped_prefix(gs, n - 1).push(grain_step_state(gs[n - 1]))
    }
}

/// The mixed output of the first `n` grains (only live ones contribute).
pub open spec fn mix_prefix(gs: Seq<Grain>, buf: Seq<i64>, n: int) -> int
    decreases n,
{
    if n <= 0 {
        0
    } else {
        let p = mix_prefix(gs, buf, n - 1);
        if gs[n - 1].active {
            spec_qadd(p, grain_step_out(gs[n - 1], buf))
        } else {
            p
        }
    }
}

/// How many of the first `n` grains are live this tick.
pub open spec fn count_prefix(gs: Seq<Grain>, n: int) -> int
    decreases n,
{
    if n <= 0 {
        0
    } else {
        count_prefix(gs, n - 1) + if gs[n - 1].active {
            1int
        } else {
            0int
        }
    }
}

/// The first `n` grains with the inactive ones removed, order kept.
pub open spec fn compact_prefix(gs: Seq<Grain>, n: int) -> Seq<Grain>
    decreases n,
{
    if n <= 0 {
        Seq::empty()
    } else {
        let p = compact_prefix(gs, n - 1);
        if gs[n - 1].active {
            p.push(gs[n - 1])
        } else {
            p
        }
    }
}

/// The raw mixed output of the tick.
pub open spec fn engine_mix(v: EngineView) -> int {
    mix_prefix(pre_grains(v), v.buf, pre_grains(v).len() as int)
}

/// How many grains were live this tick.
pub open spec fn engine_active_count(v: EngineView) -> int {
    count_prefix(pre_grains(v), pre_grains(v).len() as int)
}

/// The live grains carried into the next tick.
pub open spec fn grains_after(v: EngineView) -> Seq<Grain> {
    let st = stepped_prefix(pre_grains(v), pre_grains(v).len() as int);
    compact_prefix(st, st.len() as int)
}

/// The tick's output: the mix, divided by √k for k live grains.
pub open spec fn engine_output(v: EngineView) -> int {
    let k = engine_active_count(v);
    if k > 0 {
        spec_qdiv(engine_mix(v), spec_sqrt(k * (ONE as int) * (ONE as int)))
    } else {
        engine_mix(v)
    }
}

/// The whole state after one tick.
pub open spec fn engine_next(v: EngineView) -> EngineView {
    EngineView {
        grains: grains_after(v),
        rng: rng_after(v),
        timer: timer_after(v),
        ..v
    }
}

/// Law: every position of a stepped prefix is the stepped grain.
pub proof fn lemma_stepped_prefix_index(gs: Seq<Grain>, n: int, k: int)
    requires
        0 <= k < n,
    ensures
        stepped_prefix(gs, n).len() == n,
        stepped_prefix(gs, n)[k] == grain_step_state(gs[k]),
    decreases n,
{
    lemma_stepped_prefix_len(gs, n);
    if k < n - 1 {
        lemma_stepped_prefix_index(gs, n - 1, k);
    }
}

pub proof fn lemma_stepped_prefix_len(gs: Seq<Grain>, n: int)
    requires
        0 <= n,
    ensures
        stepped_prefix(gs, n).len() == n,
    decreases n,
{
    if n > 0 {
        lemma_stepped_prefix_len(gs, n - 1);
    }
}

/// Law: compaction never grows the collection — with the spawn guard this
/// is the grain cap: the live-grain count never exceeds the cap.
pub proof fn lemma_compact_len(gs: Seq<Grain>, n: int)
    requires
        0 <= n,
    ensures
        compact_prefix(gs, n).len() <= n,
    decreases n,
{
    if n > 0 {
        lemma_compact_len(gs, n - 1);
    }
}

/// Law (grain cap): starting under the cap, the grains carried out of a
/// tick never exceed the cap, however high the density.
pub proof fn lemma_grain_cap(v: EngineView)
    requires
        v.grains.len() <= v.max_grains,
    ensures
        grains_after(v).len() <= v.max_grains,
{
    let pre = pre_grains(v);
    lemma_stepped_prefix_len(pre, pre.len() as int);
    lemma_compact_len(stepped_prefix(pre, pre.len() as int), pre.len() as int);
}

/// Law (determinism): the tick functions are functions of the state alone —
/// two engines in equal states, in particular two runs from the same seed
/// over the same input, produce equal outputs and equal successor states.
pub proof fn lemma_engine_deterministic(a: EngineView, b: EngineView)
    requires
        a == b,
    ensures
        engine_output(a) == engine_output(b),
        engine_next(a) == engine_next(b),
{
}

/// The circular-buffer capacity for a requested length in milliseconds:
/// buffer_size_ms·rate/1000, truncated, clamped into [1, MAX_CAPACITY].
pub open spec fn buffer_capacity(buffer_size_ms: int, rate: int) -> int {
    let n = (buffer_size_ms * rate) / (1000 * (ONE as int));
    if n < 1 {
        1
    } else if n > MAX_CAPACITY {
        MAX_CAPACITY as int
    } else {
        n
    }
}

/// The granular synthesis engine: the recording buffer, the live grains, a
/// spawn countdown, and the scheduling parameters (all fixed-point).
pub struct GranularEngine {
    pub buffer: GrainBuffer,
    pub grains: Vec<Grain>,
    pub max_grains: usize,
    pub sample_rate: u32,
    pub grain_size_ms: i64,
    pub grain_density: i64,
    pub pitch_shift: i64,
    pub pitch_randomness: i64,
    pub time_randomness: i64,
    pub time_until_next_grain: i64,
    pub rng: GrainRng,
}

impl View for GranularEngine {
    type V = EngineView;

    open spec fn view(&self) -> EngineView {
        EngineView {
            buf: self.buffer.buffer@,
            wpos: self.buffer.write_pos as int,
            cap: self.buffer.capacity as int,
            grains: self.grains@,
            max_grains: self.max_grains as int,
            rate: self.sample_rate as int,
            grain_size_ms: self.grain_size_ms as int,
            grain_density: self.grain_density as int,
            pitch_shift: self.pitch_shift as int,
            pitch_randomness: self.pitch_randomness as int,
            time_randomness: self.time_randomness as int,
            timer: self.time_until_next_grain as int,
            rng: self.rng.state,
        }
    }
}

impl GranularEngine {
    /// Well-formedness: a sound buffer, at most `max_grains` live grains,
    /// each of them well-formed, and parameters in range (a positive
    /// density, a non-negative grain size and pitch spread).
    pub open spec fn wf(self) -> bool {
        &&& self.buffer.wf()
        &&& self.grains@.len() <= self.max_grains
        &&& 1 <= self.max_grains <= 0x10000
        &&& forall|i: int| 0 <= i < self.grains@.len() ==> (#[trigger] self.grains@[i]).wf()
        &&& 100 <= self.sample_rate <= 1000000
        &&& 0 <= self.grain_size_ms
        &&& 0 < self.grain_density
        &&& q_ok(self.pitch_shift as int)
        &&& 0 <= self.pitch_randomness
        &&& q_ok(self.time_randomness as int)
    }

    /// A fresh engine with a silent buffer and default parameters
    /// (100 ms grains, 20 grains/s, unshifted pitch, 0.05 pitch spread and
    /// 0.3 timing spread, truncated to fixed point).  The scheduler is
    /// seeded from the host generator; see `set_seed` for explicit seeding.
    pub fn new(sample_rate: u32, buffer_size_ms: i64, max_grains: usize) -> (r: Self)
        requires
            100 <= sample_rate <= 1000000,
            0 <= buffer_size_ms,
            1 <= max_grains <= 0x10000,
        ensures
            r.wf(),
            r@.cap == buffer_capacity(buffer_size_ms as int, sample_rate as int),
            r@.wpos == 0,
            forall|i: int| 0 <= i < r@.cap ==> #[trigger] r@.buf[i] == 0i64,
            r@.grains == Seq::<Grain>::empty(),
            r@.max_grains == max_grains,
            r@.rate == sample_rate,
            r@.grain_size_ms == 100 * (ONE as int),
            r@.grain_density == 20 * (ONE as int),
            r@.pitch_shift == ONE,
            r@.pitch_randomness == 214748364,
            r@.time_randomness == 1288490188,
            r@.timer == 0,
    {
        proof {
            assert((buffer_size_ms as int) * (sample_rate as int) <= (QMAX as int) * 1000000)
                by (nonlinear_arith)
                requires
                    0 <= buffer_size_ms <= QMAX as int,
                    0 <= sample_rate <= 1000000,
            ;
            assert((buffer_size_ms as int) * (sample_rate as int) >= 0) by (nonlinear_arith)
                requires
                    0 <= buffer_size_ms,
                    0 <= sample_rate,
            ;
        }
        let cap128: u128 = ((buffer_size_ms as u128) * (sample_rate as u128)) / (1000u128 * (
        ONE as u128));
        let capacity: usize = if cap128 < 1 {
            1
        } else if cap128 > (MAX_CAPACITY as u128) {
            MAX_CAPACITY
        } else {
            cap128 as usize
        };
        GranularEngine {
            buffer: GrainBuffer::new(capacity),
            grains: Vec::new(),
            max_grains,
            sample_rate,
            grain_size_ms: 100 * ONE,
            grain_density: 20 * ONE,
            pitch_shift: ONE,
            pitch_randomness: 214748364,
            time_randomness: 1288490188,
            time_until_next_grain: 0,
            rng: GrainRng { state: entropy_seed() },
        }
    }

    /// Reseed the grain scheduler.  Every scheduling decision is a function
    /// of the engine state, so a fixed seed makes the grain cloud
    /// reproducible.
    pub fn set_seed(&mut self, seed: u64)
        requires
            old(self).wf(),
        ensures
            final(self).wf(),
            final(self)@ == (EngineView { rng: seed, ..old(self)@ }),
    {
        self.rng = GrainRng::from_seed(seed);
        proof {
            assert(self@ =~= (EngineView { rng: seed, ..old(self)@ }));
        }
    }

    /// Record one cleaned input sample into the circular buffer.
    pub fn write_input(&mut self, sample: i64)
        requires
            old(self).wf(),
            q_ok(sample as int),
        ensures
            final(self).wf(),
            final(self)@ == (EngineView {
                buf: old(self)@.buf.update(old(self)@.wpos, sample),
                wpos: (old(self)@.wpos + 1) % old(self)@.cap,
                ..old(self)@
            }),
    {
        self.buffer.write(sample);
        proof {
            assert(self@ =~= (EngineView {
                buf: old(self)@.buf.update(old(self)@.wpos, sample),
                wpos: (old(self)@.wpos + 1) % old(self)@.cap,
                ..old(self)@
            }));
        }
    }

    /// Spawn one grain: draw a lookback within the last half of the buffer
    /// and a pitch perturbation within ±pitch_randomness, and push the
    /// grain.
    fn spawn_grain(&mut self)
        requires
            old(self).wf(),
            old(self).grains@.len() < old(self).max_grains,
        ensures
            final(self).wf(),
            final(self).grains@.len() == old(self).grains@.len() + 1,
            final(self)@ == (EngineView {
                grains: old(self)@.grains.push(
                    spawned_grain(
                        old(self)@.rng,
                        old(self)@.wpos,
                        old(self)@.cap,
                        old(self)@.pitch_shift,
                        old(self)@.pitch_randomness,
                        old(self)@.grain_size_ms,
                        old(self)@.rate,
                    ),
                ),
                rng: splitmix_next(splitmix_next(old(self)@.rng)),
                ..old(self)@
            }),
    {
        let u1: i64 = self.rng.next_unit();
        let lookback: i64 = qmul(u1, HALF);
        let wpos_q: i64 = (self.buffer.write_pos as i64) * ONE;
        let cap_q: i64 = (self.buffer.capacity as i64) * ONE;
        let start_pos: i64 = qsub(wpos_q, qmul(lookback, cap_q));
        let u2: i64 = self.rng.next_unit();
        let two_pr: i64 = qadd(self.pitch_randomness, self.pitch_randomness);
        let pitch_variation: i64 = qsub(qmul(u2, two_pr), self.pitch_randomness);
        let pitch: i64 = qmul(self.pitch_shift, qadd(ONE, pitch_variation));
        proof {
            assert((self.grain_size_ms as int) * (self.sample_rate as int) <= (QMAX as int)
                * 1000000) by (nonlinear_arith)
                requires
                    0 <= self.grain_size_ms <= QMAX as int,
                    0 <= self.sample_rate <= 1000000,
            ;
            assert((self.grain_size_ms as int) * (self.sample_rate as int) >= 0)
                by (nonlinear_arith)
                requires
                    0 <= self.grain_size_ms,
                    0 <= self.sample_rate,
            ;
        }
        let len128: u128 = ((self.grain_size_ms as u128) * (self.sample_rate as u128)) / (
        1000u128 * (ONE as u128));
        let length: usize = if len128 < 1 {
            1
        } else if len128 > (MAX_GRAIN_LEN as u128) {
            MAX_GRAIN_LEN
        } else {
            len128 as usize
        };
        let grain: Grain = Grain::new(start_pos, length, pitch);
        let ghost sold = *self;
        self.grains.push(grain);
        proof {
            assert(grain == spawned_grain(
                old(self)@.rng,
                old(self)@.wpos,
                old(self)@.cap,
                old(self)@.pitch_shift,
                old(self)@.pitch_randomness,
                old(self)@.grain_size_ms,
                old(self)@.rate,
            ));
            assert forall|i: int| 0 <= i < self.grains@.len() implies (
            #[trigger] self.grains@[i]).wf() by {
                if i < sold.grains@.len() {
                    assert(sold.grains@[i].wf());
                }
            }
            assert(self@ =~= (EngineView {
                grains: old(self)@.grains.push(grain),
                rng: splitmix_next(splitmix_next(old(self)@.rng)),
                ..old(self)@
            }));
        }
    }

    /// Advance the spawn clock (spawning when it runs out and the cap
    /// allows), mix every live grain, compact the collection, and return
    /// the mix normalized by the square root of the live-grain count.
    pub fn process(&mut self) -> (r: i64)
        requires
            old(self).wf(),
        ensures
            final(self).wf(),
            q_ok(r as int),
            final(self)@ == engine_next(old(self)@),
            r as int == engine_output(old(self)@),
    {
        let ghost v0 = old(self)@;
        self.time_until_next_grain = qsub(self.time_until_next_grain, ONE);
        let will_spawn: bool = self.time_until_next_grain <= 0
            && self.grains.len() < self.max_grains;
        proof {
            assert(will_spawn == engine_spawns(v0));
        }
        if will_spawn {
            self.spawn_grain();
            let rate_q: i64 = (self.sample_rate as i64) * ONE;
            let interval: i64 = qdiv(rate_q, self.grain_density);
            let randomness: i64 = qmul(interval, self.time_randomness);
            let u3: i64 = self.rng.next_unit();
            let jitter: i64 = qsub(qmul(u3, qadd(randomness, randomness)), randomness);
            self.time_until_next_grain = qadd(interval, jitter);
        }
        proof {
            assert(self.grains@ == pre_grains(v0));
            assert(self.rng.state == rng_after(v0));
            assert(self.time_until_next_grain as int == timer_after(v0));
        }
        let ghost pre = self.grains@;
        let ghost bufseq = self.buffer.buffer@;
        let ghost v1 = self@;
        let n: usize = self.grains.len();
        let mut output: i64 = 0;
        let mut active_count: usize = 0;
        let mut i: usize = 0;
        while i < n
            invariant
                i <= n,
                n == self.grains@.len(),
                n <= 0x10000,
                self@ == (EngineView { grains: self.grains@, ..v1 }),
                pre == v1.grains,
                bufseq == v1.buf,
                self.buffer.wf(),
                forall|k: int| 0 <= k < n ==> (#[trigger] pre[k]).wf(),
                forall|k: int| i <= k < n ==> #[trigger] self.grains@[k] == pre[k],
                forall|k: int|
                    0 <= k < i ==> #[trigger] self.grains@[k] == grain_step_state(pre[k]),
                forall|k: int| 0 <= k < i ==> (#[trigger] self.grains@[k]).wf(),
                output as int == mix_prefix(pre, bufseq, i as int),
                q_ok(output as int),
                active_count as int == count_prefix(pre, i as int),
                active_count <= i,
            decreases n - i,
        {
            let g0: Grain = self.grains[i];
            proof {
                assert(self.grains@[i as int] == pre[i as int]);
            }
            if g0.active {
                let mut g: Grain = g0;
                let s: i64 = g.process(&self.buffer);
                output = qadd(output, s);
                active_count = active_count + 1;
                let ghost sold = *self;
                self.grains.set(i, g);
                proof {
                    assert forall|k: int| 0 <= k < i + 1 implies #[trigger] self.grains@[k]
                        == grain_step_state(pre[k]) by {
                        if k < i {
                            assert(sold.grains@[k] == grain_step_state(pre[k]));
                        }
                    }
                    assert forall|k: int| 0 <= k < i + 1 implies (
                    #[trigger] self.grains@[k]).wf() by {
                        if k < i {
                            assert(sold.grains@[k].wf());
                        }
                    }
                    assert forall|k: int| i + 1 <= k < n implies #[trigger] self.grains@[k]
                        == pre[k] by {
                        assert(sold.grains@[k] == pre[k]);
                    }
                    assert(self@ == (EngineView { grains: self.grains@, ..v1 }));
                }
            } else {
                proof {
                    assert(grain_step_state(pre[i as int]) == pre[i as int]);
                }
            }
            i = i + 1;
        }
        let ghost stepped = self.grains@;
        proof {
            lemma_stepped_prefix_len(pre, n as int);
            assert forall|k: int| 0 <= k < n implies stepped[k] == #[trigger] stepped_prefix(
                pre,
                n as int,
            )[k] by {
                lemma_stepped_prefix_index(pre, n as int, k);
            }
            assert(stepped =~= stepped_prefix(pre, n as int));
        }
        let mut kept: Vec<Grain> = Vec::new();
        let mut j: usize = 0;
        while j < n
            invariant
                j <= n,
                n == self.grains@.len(),
                self@ == (EngineView { grains: self.grains@, ..v1 }),
                stepped == self.grains@,
                forall|k: int| 0 <= k < n ==> (#[trigger] self.grains@[k]).wf(),
                kept@ == compact_prefix(stepped, j as int),
                kept@.len() <= j,
                forall|k: int| 0 <= k < kept@.len() ==> (#[trigger] kept@[k]).wf(),
            decreases n - j,
        {
            let g: Grain = self.grains[j];
            if g.active {
                kept.push(g);
            }
            j = j + 1;
        }
        self.grains = kept;
        let result: i64;
        if active_count > 0 {
            let s: i64 = whole_sqrt(active_count);
            proof {
                let x = (active_count as int) * (ONE as int) * (ONE as int);
                assert(is_sqrt_of(s as int, x));
                lemma_sqrt_unique(s as int, spec_sqrt(x), x);
            }
            result = qdiv(output, s);
        } else {
            result = output;
        }
        proof {
            lemma_compact_len(stepped, n as int);
            assert(self@ =~= engine_next(v0));
        }
        result
    }
}

/// The dreamy preset: long soft grains at moderate density, pitched just
/// below unison with a wide shimmer and heavy timing spread (fixed-point
/// truncations of 120 ms, 15 grains/s, 0.92, 0.12 and 0.6).
pub struct DreamyPreset;

impl DreamyPreset {
    pub fn configure_engine(engine: &mut GranularEngine)
        requires
            old(engine).wf(),
        ensures
            final(engine).wf(),
            final(engine)@ == (EngineView {
                grain_size_ms: 120 * (ONE as int),
                grain_density: 15 * (ONE as int),
                pitch_shift: 3951369912,
                pitch_randomness: 515396075,
                time_randomness: 2576980377,
                ..old(engine)@
            }),
    {
        engine.grain_size_ms = 120 * ONE;
        engine.grain_density = 15 * ONE;
        engine.pitch_shift = 3951369912;
        engine.pitch_randomness = 515396075;
        engine.time_randomness = 2576980377;
        proof {
            assert(engine@ =~= (EngineView {
                grain_size_ms: 120 * (ONE as int),
                grain_density: 15 * (ONE as int),
                pitch_shift: 3951369912,
                pitch_randomness: 515396075,
                time_randomness: 2576980377,
                ..old(engine)@
            }));
        }
    }
}

} // verus!
