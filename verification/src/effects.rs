//! The tone and space chain: a one-pole low-pass, a modulated-delay chorus,
//! and a Schroeder reverb of eight parallel damped combs followed by four
//! serial all-passes, mixed wet against dry.

use vstd::prelude::*;
use vstd::pervasive::VecAdditionalExecFns;
use crate::fixed::{ONE, HALF, PI_Q, TWO_PI_Q, QMAX, q_ok, tdiv, spec_qadd, spec_qsub, spec_qmul,
    spec_qdiv, spec_sin, qadd, qsub, qmul, qdiv, sin_q, lemma_qmul_contract, lemma_qmul_mag,
    lemma_div_sum_le};

verus! {

/// Largest supported delay-line length.
pub const MAX_DELAY: usize = 0x0100_0000;

/// The comb feedback 0.84 and damping 0.2, truncated to fixed point.
pub const COMB_FEEDBACK: i64 = 3607772528;

pub const COMB_DAMPING: i64 = 858993459;

/// The all-pass feedback, exactly 0.5.
pub const ALLPASS_FEEDBACK: i64 = HALF;

/// The dreamy reverb mix: wet 0.4, dry 0.6, truncated to fixed point.
pub const REVERB_WET: i64 = 1717986918;

pub const REVERB_DRY: i64 = 2576980377;

/// The chorus mix: 0.7 dry, 0.3 delayed, truncated to fixed point.
pub const CHORUS_DRY: i64 = 3006477107;

pub const CHORUS_WET: i64 = 1288490188;

/// The chorus delay-line length (about 100 ms at 44.1 kHz).
pub const CHORUS_LEN: usize = 4410;

/// The dreamy low-pass cutoff.
pub const LOWPASS_CUTOFF_HZ: u32 = 4000;

/// Schroeder all-pass: a delay line with feedback `g`, output −x + delayed.
pub struct AllPass {
    pub buffer: Vec<i64>,
    pub pos: usize,
    pub feedback: i64,
}

/// The sample an all-pass reads this step.
pub open spec fn ap_delayed(a: AllPass) -> int {
    a.buffer@[a.pos as int] as int
}

/// What an all-pass stores this step: x + delayed·g.
pub open spec fn ap_store(a: AllPass, x: int) -> int {
    spec_qadd(x, spec_qmul(ap_delayed(a), a.feedback as int))
}

/// What an all-pass emits this step: −x + delayed.
pub open spec fn ap_out(a: AllPass, x: int) -> int {
    spec_qsub(ap_delayed(a), x)
}

impl AllPass {
    pub open spec fn wf(self) -> bool {
        &&& 1 <= self.buffer@.len() <= MAX_DELAY
        &&& self.pos < self.buffer@.len()
        &&& -ONE <= self.feedback <= ONE
        &&& forall|i: int|
            0 <= i < self.buffer@.len() ==> q_ok((#[trigger] self.buffer@[i]) as int)
    }

    /// A silent all-pass.
    pub fn new(delay_samples: usize, feedback: i64) -> (r: Self)
        requires
            1 <= delay_samples <= MAX_DELAY,
            -ONE <= feedback <= ONE,
        ensures
            r.wf(),
            r.buffer@.len() == delay_samples,
            forall|i: int| 0 <= i < delay_samples ==> #[trigger] r.buffer@[i] == 0i64,
            r.pos == 0,
            r.feedback == feedback,
    {
        AllPass { buffer: zero_line(delay_samples), pos: 0, feedback }
    }

    /// One step of the classic Schroeder all-pass recurrence.
    pub fn process(&mut self, input: i64) -> (r: i64)
        requires
            old(self).wf(),
            q_ok(input as int),
        ensures
            final(self).wf(),
            q_ok(r as int),
            r as int == ap_out(*old(self), input as int),
            final(self).buffer@ =~= old(self).buffer@.update(
                old(self).pos as int,
                ap_store(*old(self), input as int) as i64,
            ),
            final(self).pos == (old(self).pos + 1) % (old(self).buffer@.len() as int),
            final(self).feedback == old(self).feedback,
    {
        let len: usize = self.buffer.len();
        let delayed: i64 = self.buffer[self.pos];
        let output: i64 = qsub(delayed, input);
        let stored: i64 = qadd(input, qmul(delayed, self.feedback));
        let ghost sold = *self;
        self.buffer.set(self.pos, stored);
        proof {
            assert forall|i: int| 0 <= i < self.buffer@.len() implies q_ok(
                (#[trigger] self.buffer@[i]) as int,
            ) by {
                if i != sold.pos {
                    assert(q_ok((sold.buffer@[i]) as int));
                }
            }
        }
        self.pos = (self.pos + 1) % len;
        output
    }
}

/// Feedback comb with a one-pole low-pass in the feedback path.
pub struct Comb {
    pub buffer: Vec<i64>,
    pub pos: usize,
    pub feedback: i64,
    pub damping: i64,
    pub filter_state: i64,
}

/// The sample a comb reads (and emits) this step.
pub open spec fn comb_delayed(c: Comb) -> int {
    c.buffer@[c.pos as int] as int
}

/// The damped feedback state after the step: delayed·(1−d) + state·d.
pub open spec fn comb_lp_next(c: Comb) -> int {
    spec_qadd(
        spec_qmul(comb_delayed(c), ONE - c.damping as int),
        spec_qmul(c.filter_state as int, c.damping as int),
    )
}

/// What the comb stores this step: x + lp′·g.
pub open spec fn comb_store(c: Comb, x: int) -> int {
    spec_qadd(x, spec_qmul(comb_lp_next(c), c.feedback as int))
}

impl Comb {
    pub open spec fn wf(self) -> bool {
        &&& 1 <= self.buffer@.len() <= MAX_DELAY
        &&& self.pos < self.buffer@.len()
        &&& -ONE <= self.feedback <= ONE
        &&& 0 <= self.damping <= ONE
        &&& q_ok(self.filter_state as int)
        &&& forall|i: int|
            0 <= i < self.buffer@.len() ==> q_ok((#[trigger] self.buffer@[i]) as int)
    }

    /// A silent comb.
    pub fn new(delay_samples: usize, feedback: i64, damping: i64) -> (r: Self)
        requires
            1 <= delay_samples <= MAX_DELAY,
            -ONE <= feedback <= ONE,
            0 <= damping <= ONE,
        ensures
            r.wf(),
            r.buffer@.len() == delay_samples,
            forall|i: int| 0 <= i < delay_samples ==> #[trigger] r.buffer@[i] == 0i64,
            r.pos == 0,
            r.feedback == feedback,
            r.damping == damping,
            r.filter_state == 0,
    {
        Comb { buffer: zero_line(delay_samples), pos: 0, feedback, damping, filter_state: 0 }
    }

    /// One step of the damped feedback comb recurrence.
    pub fn process(&mut self, input: i64) -> (r: i64)
        requires
            old(self).wf(),
            q_ok(input as int),
        ensures
            final(self).wf(),
            q_ok(r as int),
            r as int == comb_delayed(*old(self)),
            final(self).buffer@ =~= old(self).buffer@.update(
                old(self).pos as int,
                comb_store(*old(self), input as int) as i64,
            ),
            final(self).pos == (old(self).pos + 1) % (old(self).buffer@.len() as int),
            final(self).filter_state as int == comb_lp_next(*old(self)),
            final(self).feedback == old(self).feedback,
            final(self).damping == old(self).damping,
    {
        let len: usize = self.buffer.len();
        let delayed: i64 = self.buffer[self.pos];
        self.filter_state = qadd(
            qmul(delayed, ONE - self.damping),
            qmul(self.filter_state, self.damping),
        );
        let stored: i64 = qadd(input, qmul(self.filter_state, self.feedback));
        let ghost sold = *self;
        self.buffer.set(self.pos, stored);
        proof {
            assert forall|i: int| 0 <= i < self.buffer@.len() implies q_ok(
                (#[trigger] self.buffer@[i]) as int,
            ) by {
                if i != sold.pos {
                    assert(q_ok((sold.buffer@[i]) as int));
                }
            }
        }
        self.pos = (self.pos + 1) % len;
        delayed
    }
}

/// A zero-filled delay line.
fn zero_line(n: usize) -> (r: Vec<i64>)
    ensures
        r@.len() == n,
        forall|i: int| 0 <= i < n ==> #[trigger] r@[i] == 0i64,
{
    let mut v: Vec<i64> = Vec::new();
    let mut i: usize = 0;
    while i < n
        invariant
            i <= n,
            v@.len() == i,
            forall|k: int| 0 <= k < i ==> #[trigger] v@[k] == 0i64,
        decreases n - i,
    {
        v.push(0);
        i = i + 1;
    }
    v
}

/// The canonical Schroeder comb delays at 44.1 kHz.
pub open spec fn comb_base_delay(i: int) -> int {
    if i == 0 {
        1557
    } else if i == 1 {
        1617
    } else if i == 2 {
        1491
    } else if i == 3 {
        1422
    } else if i == 4 {
        1277
    } else if i == 5 {
        1356
    } else if i == 6 {
        1188
    } else {
        1116
    }
}

/// The canonical Schroeder all-pass delays at 44.1 kHz.
pub open spec fn allpass_base_delay(i: int) -> int {
    if i == 0 {
        225
    } else if i == 1 {
        556
    } else if i == 2 {
        441
    } else {
        341
    }
}

/// A canonical delay scaled to the sample rate: base·rate/44100, truncated.
fn scale_delay(base: u64, sample_rate: u32) -> (r: usize)
    requires
        225 <= base <= 1617,
        8000 <= sample_rate <= 192000,
    ensures
        r == (base as int * sample_rate as int) / 44100,
        1 <= r <= MAX_DELAY,
{
    proof {
        assert(225 * 8000 <= (base as int) * (sample_rate as int) <= 1617 * 192000)
            by (nonlinear_arith)
            requires
                225 <= base <= 1617,
                8000 <= sample_rate <= 192000,
        ;
        vstd::arithmetic::div_mod::lemma_div_is_ordered(
            (225 * 8000) as int, (base as int) * (sample_rate as int), 44100);
        vstd::arithmetic::div_mod::lemma_div_is_ordered(
            (base as int) * (sample_rate as int), (1617 * 192000) as int, 44100);
    }
    ((base * (sample_rate as u64)) / 44100u64) as usize
}

/// The sum of the first `n` comb outputs on input `x`.
pub open spec fn comb_sum_prefix(cs: Seq<Comb>, n: int) -> int
    decreases n,
{
    if n <= 0 {
        0
    } else {
        spec_qadd(comb_sum_prefix(cs, n - 1), comb_delayed(cs[n - 1]))
    }
}

/// The signal after the first `n` all-pass stages, starting from `y0`.
pub open spec fn ap_chain_out(aps: Seq<AllPass>, y0: int, n: int) -> int
    decreases n,
{
    if n <= 0 {
        y0
    } else {
        ap_out(aps[n - 1], ap_chain_out(aps, y0, n - 1))
    }
}

/// The averaged comb bank output for a reverb on input `x`.
pub open spec fn reverb_comb_sum(combs: Seq<Comb>, x: int) -> int {
    spec_qdiv(comb_sum_prefix(combs, combs.len() as int), combs.len() as int * (ONE as int))
}

/// The reverb output on input `x`: dry·x + wet·(all-pass chain of the
/// averaged comb bank).
pub open spec fn reverb_out(combs: Seq<Comb>, aps: Seq<AllPass>, wet: int, dry: int, x: int)
    -> int {
    let y = ap_chain_out(aps, reverb_comb_sum(combs, x), aps.len() as int);
    spec_qadd(spec_qmul(dry, x), spec_qmul(wet, y))
}

/// Schroeder reverb: parallel damped combs, serial all-passes, wet/dry mix.
pub struct Reverb {
    pub combs: Vec<Comb>,
    pub allpasses: Vec<AllPass>,
    pub wet: i64,
    pub dry: i64,
}

impl Reverb {
    pub open spec fn wf(self) -> bool {
        &&& 1 <= self.combs@.len() <= 64
        &&& self.allpasses@.len() <= 64
        &&& forall|i: int| 0 <= i < self.combs@.len() ==> (#[trigger] self.combs@[i]).wf()
        &&& forall|i: int|
            0 <= i < self.allpasses@.len() ==> (#[trigger] self.allpasses@[i]).wf()
        &&& q_ok(self.wet as int)
        &&& q_ok(self.dry as int)
    }

    /// A silent reverb at the given rate: eight combs and four all-passes
    /// on the canonical delays scaled by rate/44100.
    pub fn new(sample_rate: u32, wet: i64, dry: i64) -> (r: Self)
        requires
            8000 <= sample_rate <= 192000,
            q_ok(wet as int),
            q_ok(dry as int),
        ensures
            r.wf(),
            r.combs@.len() == 8,
            r.allpasses@.len() == 4,
            forall|i: int|
                0 <= i < 8 ==> {
                    let c = #[trigger] r.combs@[i];
                    &&& c.buffer@.len() == (comb_base_delay(i) * sample_rate as int) / 44100
                    &&& c.pos == 0
                    &&& c.feedback == COMB_FEEDBACK
                    &&& c.damping == COMB_DAMPING
                    &&& c.filter_state == 0
                    &&& forall|j: int| 0 <= j < c.buffer@.len() ==> #[trigger] c.buffer@[j] == 0i64
                },
            forall|i: int|
                0 <= i < 4 ==> {
                    let a = #[trigger] r.allpasses@[i];
                    &&& a.buffer@.len() == (allpass_base_delay(i) * sample_rate as int) / 44100
                    &&& a.pos == 0
                    &&& a.feedback == ALLPASS_FEEDBACK
                    &&& forall|j: int| 0 <= j < a.buffer@.len() ==> #[trigger] a.buffer@[j] == 0i64
                },
            r.wet == wet,
            r.dry == dry,
    {
        let mut combs: Vec<Comb> = Vec::new();
        combs.push(Comb::new(scale_delay(1557, sample_rate), COMB_FEEDBACK, COMB_DAMPING));
        combs.push(Comb::new(scale_delay(1617, sample_rate), COMB_FEEDBACK, COMB_DAMPING));
        combs.push(Comb::new(scale_delay(1491, sample_rate), COMB_FEEDBACK, COMB_DAMPING));
        combs.push(Comb::new(scale_delay(1422, sample_rate), COMB_FEEDBACK, COMB_DAMPING));
        combs.push(Comb::new(scale_delay(1277, sample_rate), COMB_FEEDBACK, COMB_DAMPING));
        combs.push(Comb::new(scale_delay(1356, sample_rate), COMB_FEEDBACK, COMB_DAMPING));
        combs.push(Comb::new(scale_delay(1188, sample_rate), COMB_FEEDBACK, COMB_DAMPING));
        combs.push(Comb::new(scale_delay(1116, sample_rate), COMB_FEEDBACK, COMB_DAMPING));
        let mut allpasses: Vec<AllPass> = Vec::new();
        allpasses.push(AllPass::new(scale_delay(225, sample_rate), ALLPASS_FEEDBACK));
        allpasses.push(AllPass::new(scale_delay(556, sample_rate), ALLPASS_FEEDBACK));
        allpasses.push(AllPass::new(scale_delay(441, sample_rate), ALLPASS_FEEDBACK));
        allpasses.push(AllPass::new(scale_delay(341, sample_rate), ALLPASS_FEEDBACK));
        Reverb { combs, allpasses, wet, dry }
    }

    /// One reverb step: feed every comb, average, diffuse through the
    /// all-pass chain, and mix with the dry signal.
    pub fn process(&mut self, input: i64) -> (r: i64)
        requires
            old(self).wf(),
            q_ok(input as int),
        ensures
            final(self).wf(),
            q_ok(r as int),
            r as int == reverb_out(
                old(self).combs@,
                old(self).allpasses@,
                old(self).wet as int,
                old(self).dry as int,
                input as int,
            ),
            final(self).combs@.len() == old(self).combs@.len(),
            final(self).allpasses@.len() == old(self).allpasses@.len(),
            forall|i: int|
                0 <= i < old(self).combs@.len() ==> {
                    let c0 = old(self).combs@[i];
                    let c1 = #[trigger] final(self).combs@[i];
                    &&& c1.buffer@ =~= c0.buffer@.update(
                        c0.pos as int,
                        comb_store(c0, input as int) as i64,
                    )
                    &&& c1.pos == (c0.pos + 1) % (c0.buffer@.len() as int)
                    &&& c1.filter_state as int == comb_lp_next(c0)
                    &&& c1.feedback == c0.feedback
                    &&& c1.damping == c0.damping
                },
            forall|i: int|
                0 <= i < old(self).allpasses@.len() ==> {
                    let a0 = old(self).allpasses@[i];
                    let a1 = #[trigger] final(self).allpasses@[i];
                    let yi = ap_chain_out(
                        old(self).allpasses@,
                        reverb_comb_sum(old(self).combs@, input as int),
                        i,
                    );
                    &&& a1.buffer@ =~= a0.buffer@.update(a0.pos as int, ap_store(a0, yi) as i64)
                    &&& a1.pos == (a0.pos + 1) % (a0.buffer@.len() as int)
                    &&& a1.feedback == a0.feedback
                },
            final(self).wet == old(self).wet,
            final(self).dry == old(self).dry,
    {
        let ghost combs0 = self.combs@;
        let ghost aps0 = self.allpasses@;
        let ncombs: usize = self.combs.len();
        let mut comb_sum: i64 = 0;
        let mut i: usize = 0;
        while i < ncombs
            invariant
                i <= ncombs,
                ncombs == self.combs@.len(),
                combs0.len() == ncombs,
                q_ok(input as int),
                self.allpasses@ == aps0,
                self.wet == old(self).wet,
                self.dry == old(self).dry,
                forall|k: int| 0 <= k < ncombs ==> (#[trigger] combs0[k]).wf(),
                forall|k: int| i <= k < ncombs ==> #[trigger] self.combs@[k] == combs0[k],
                forall|k: int|
                    0 <= k < i ==> {
                        let c0 = combs0[k];
                        let c1 = #[trigger] self.combs@[k];
                        &&& c1.wf()
                        &&& c1.buffer@ =~= c0.buffer@.update(
                            c0.pos as int,
                            comb_store(c0, input as int) as i64,
                        )
                        &&& c1.pos == (c0.pos + 1) % (c0.buffer@.len() as int)
                        &&& c1.filter_state as int == comb_lp_next(c0)
                        &&& c1.feedback == c0.feedback
                        &&& c1.damping == c0.damping
                    },
                comb_sum as int == comb_sum_prefix(combs0, i as int),
                q_ok(comb_sum as int),
            decreases ncombs - i,
        {
            let mut c: Comb = Comb {
                buffer: Vec::new(),
                pos: 0,
                feedback: 0,
                damping: 0,
                filter_state: 0,
            };
            self.combs.set_and_swap(i, &mut c);
            proof {
                assert(c == combs0[i as int]);
            }
            let out: i64 = c.process(input);
            comb_sum = qadd(comb_sum, out);
            let ghost sold = *self;
            self.combs.set_and_swap(i, &mut c);
            proof {
                assert forall|k: int| i + 1 <= k < ncombs implies #[trigger] self.combs@[k]
                    == combs0[k] by {
                    assert(sold.combs@[k] == combs0[k]);
                }
                assert forall|k: int| 0 <= k < i + 1 implies {
                    let c0 = combs0[k];
                    let c1 = #[trigger] self.combs@[k];
                    &&& c1.wf()
                    &&& c1.buffer@ =~= c0.buffer@.update(
                        c0.pos as int,
                        comb_store(c0, input as int) as i64,
                    )
                    &&& c1.pos == (c0.pos + 1) % (c0.buffer@.len() as int)
                    &&& c1.filter_state as int == comb_lp_next(c0)
                    &&& c1.feedback == c0.feedback
                    &&& c1.damping == c0.damping
                } by {
                    if k < i {
                        assert(sold.combs@[k] == self.combs@[k]);
                        assert({
                            let c0 = combs0[k];
                            let c1 = sold.combs@[k];
                            &&& c1.wf()
                            &&& c1.buffer@ =~= c0.buffer@.update(
                                c0.pos as int,
                                comb_store(c0, input as int) as i64,
                            )
                            &&& c1.pos == (c0.pos + 1) % (c0.buffer@.len() as int)
                            &&& c1.filter_state as int == comb_lp_next(c0)
                            &&& c1.feedback == c0.feedback
                            &&& c1.damping == c0.damping
                        });
                    }
                }
            }
            i = i + 1;
        }
        let ncombs_q: i64 = (ncombs as i64) * ONE;
        let averaged: i64 = qdiv(comb_sum, ncombs_q);
        let naps: usize = self.allpasses.len();
        let mut y: i64 = averaged;
        let mut j: usize = 0;
        while j < naps
            invariant
                j <= naps,
                naps == self.allpasses@.len(),
                aps0.len() == naps,
                ncombs == self.combs@.len(),
                combs0.len() == ncombs,
                1 <= ncombs <= 64,
                naps <= 64,
                q_ok(input as int),
                forall|k: int|
                    0 <= k < ncombs ==> {
                        let c0 = combs0[k];
                        let c1 = #[trigger] self.combs@[k];
                        &&& c1.wf()
                        &&& c1.buffer@ =~= c0.buffer@.update(
                            c0.pos as int,
                            comb_store(c0, input as int) as i64,
                        )
                        &&& c1.pos == (c0.pos + 1) % (c0.buffer@.len() as int)
                        &&& c1.filter_state as int == comb_lp_next(c0)
                        &&& c1.feedback == c0.feedback
                        &&& c1.damping == c0.damping
                    },
                q_ok(y as int),
                q_ok(averaged as int),
                averaged as int == reverb_comb_sum(combs0, input as int),
                self.wet == old(self).wet,
                self.dry == old(self).dry,
                forall|k: int| 0 <= k < naps ==> (#[trigger] aps0[k]).wf(),
                forall|k: int| j <= k < naps ==> #[trigger] self.allpasses@[k] == aps0[k],
                forall|k: int|
                    0 <= k < j ==> {
                        let a0 = aps0[k];
                        let a1 = #[trigger] self.allpasses@[k];
                        let yi = ap_chain_out(aps0, averaged as int, k);
                        &&& a1.wf()
                        &&& a1.buffer@ =~= a0.buffer@.update(
                            a0.pos as int,
                            ap_store(a0, yi) as i64,
                        )
                        &&& a1.pos == (a0.pos + 1) % (a0.buffer@.len() as int)
                        &&& a1.feedback == a0.feedback
                    },
                y as int == ap_chain_out(aps0, averaged as int, j as int),
            decreases naps - j,
        {
            let mut a: AllPass = AllPass { buffer: Vec::new(), pos: 0, feedback: 0 };
            self.allpasses.set_and_swap(j, &mut a);
            proof {
                assert(a == aps0[j as int]);
            }
            let y1: i64 = a.process(y);
            let ghost sold = *self;
            self.allpasses.set_and_swap(j, &mut a);
            proof {
                assert forall|k: int| j + 1 <= k < naps implies #[trigger] self.allpasses@[k]
                    == aps0[k] by {
                    assert(sold.allpasses@[k] == aps0[k]);
                }
                assert(self.combs@ == sold.combs@);
                assert forall|k: int| 0 <= k < ncombs implies {
                    let c0 = combs0[k];
                    let c1 = #[trigger] self.combs@[k];
                    &&& c1.wf()
                    &&& c1.buffer@ =~= c0.buffer@.update(
                        c0.pos as int,
                        comb_store(c0, input as int) as i64,
                    )
                    &&& c1.pos == (c0.pos + 1) % (c0.buffer@.len() as int)
                    &&& c1.filter_state as int == comb_lp_next(c0)
                    &&& c1.feedback == c0.feedback
                    &&& c1.damping == c0.damping
                } by {
                    assert(sold.combs@[k] == self.combs@[k]);
                    assert({
                        let c0 = combs0[k];
                        let c1 = sold.combs@[k];
                        &&& c1.wf()
                        &&& c1.buffer@ =~= c0.buffer@.update(
                            c0.pos as int,
                            comb_store(c0, input as int) as i64,
                        )
                        &&& c1.pos == (c0.pos + 1) % (c0.buffer@.len() as int)
                        &&& c1.filter_state as int == comb_lp_next(c0)
                        &&& c1.feedback == c0.feedback
                        &&& c1.damping == c0.damping
                    });
                }
                assert forall|k: int| 0 <= k < j + 1 implies {
                    let a0 = aps0[k];
                    let a1 = #[trigger] self.allpasses@[k];
                    let yi = ap_chain_out(aps0, averaged as int, k);
                    &&& a1.wf()
                    &&& a1.buffer@ =~= a0.buffer@.update(a0.pos as int, ap_store(a0, yi) as i64)
                    &&& a1.pos == (a0.pos + 1) % (a0.buffer@.len() as int)
                    &&& a1.feedback == a0.feedback
                } by {
                    if k < j {
                        assert(sold.allpasses@[k] == self.allpasses@[k]);
                        assert({
                            let a0 = aps0[k];
                            let a1 = sold.allpasses@[k];
                            let yi = ap_chain_out(aps0, averaged as int, k);
                            &&& a1.wf()
                            &&& a1.buffer@ =~= a0.buffer@.update(
                                a0.pos as int,
                                ap_store(a0, yi) as i64,
                            )
                            &&& a1.pos == (a0.pos + 1) % (a0.buffer@.len() as int)
                            &&& a1.feedback == a0.feedback
                        });
                    }
                }
            }
            y = y1;
            j = j + 1;
        }
        qadd(qmul(self.dry, input), qmul(self.wet, y))
    }

    /// Replace the wet/dry mix coefficients.
    pub fn set_mix(&mut self, wet: i64, dry: i64)
        requires
            old(self).wf(),
            q_ok(wet as int),
            q_ok(dry as int),
        ensures
            final(self).wf(),
            final(self).wet == wet,
            final(self).dry == dry,
            final(self).combs@ == old(self).combs@,
            final(self).allpasses@ == old(self).allpasses@,
    {
        self.wet = wet;
        self.dry = dry;
    }
}

/// One-pole low-pass: y += c·(x − y).
pub struct OnePole {
    pub state: i64,
    pub coeff: i64,
}

/// The one-pole coefficient for a cutoff: ω/(1+ω) with ω = 2π·fc/rate.
pub open spec fn onepole_coeff(rate: int, cutoff_hz: int) -> int {
    let omega = ((TWO_PI_Q as int) * cutoff_hz) / rate;
    spec_qdiv(omega, spec_qadd(ONE as int, omega))
}

/// The next low-pass state: y + c·(x − y).
pub open spec fn onepole_next(state: int, coeff: int, x: int) -> int {
    spec_qadd(state, spec_qmul(coeff, spec_qsub(x, state)))
}

impl OnePole {
    pub open spec fn wf(self) -> bool {
        &&& q_ok(self.state as int)
        &&& 0 <= self.coeff <= ONE
    }

    /// A fresh low-pass at the given cutoff.
    pub fn new(sample_rate: u32, cutoff_hz: u32) -> (r: Self)
        requires
            100 <= sample_rate <= 1000000,
            cutoff_hz <= 1000000,
        ensures
            r.wf(),
            r.state == 0,
            r.coeff as int == onepole_coeff(sample_rate as int, cutoff_hz as int),
    {
        let coeff: i64 = Self::calculate_coeff(sample_rate, cutoff_hz);
        OnePole { state: 0, coeff }
    }

    /// ω/(1+ω), a value in [0, 1).
    fn calculate_coeff(sample_rate: u32, cutoff_hz: u32) -> (r: i64)
        requires
            100 <= sample_rate <= 1000000,
            cutoff_hz <= 1000000,
        ensures
            r as int == onepole_coeff(sample_rate as int, cutoff_hz as int),
            0 <= r <= ONE,
    {
        let omega: i64 = (((TWO_PI_Q as u64) * (cutoff_hz as u64)) / (sample_rate as u64))
            as i64;
        proof {
            assert((TWO_PI_Q as int) * (cutoff_hz as int) <= (TWO_PI_Q as int) * 1000000)
                by (nonlinear_arith)
                requires
                    0 <= cutoff_hz <= 1000000,
            ;
            assert((TWO_PI_Q as int) * (cutoff_hz as int) >= 0) by (nonlinear_arith)
                requires
                    0 <= cutoff_hz,
            ;
            vstd::arithmetic::div_mod::lemma_div_pos_is_pos(
                (TWO_PI_Q as int) * (cutoff_hz as int), sample_rate as int);
        }
        let c: i64 = qdiv(omega, qadd(ONE, omega));
        proof {
            assert((omega as int) * (ONE as int) <= (omega as int + ONE as int) * (ONE as int))
                by (nonlinear_arith)
                requires
                    omega >= 0,
            ;
            vstd::arithmetic::div_mod::lemma_div_is_ordered(
                (omega as int) * (ONE as int),
                (omega as int + ONE as int) * (ONE as int),
                omega as int + ONE as int,
            );
            vstd::arithmetic::div_mod::lemma_div_multiples_vanish(
                ONE as int, omega as int + ONE as int);
            assert((omega as int + ONE as int) * (ONE as int) == (omega as int + ONE as int)
                * (ONE as int));
            vstd::arithmetic::div_mod::lemma_div_pos_is_pos(
                (omega as int) * (ONE as int), omega as int + ONE as int);
        }
        c
    }

    /// One smoothing step toward the input.
    pub fn process(&mut self, input: i64) -> (r: i64)
        requires
            old(self).wf(),
            q_ok(input as int),
        ensures
            final(self).wf(),
            q_ok(r as int),
            final(self).state as int == onepole_next(
                old(self).state as int,
                old(self).coeff as int,
                input as int,
            ),
            r == final(self).state,
            final(self).coeff == old(self).coeff,
    {
        self.state = qadd(self.state, qmul(self.coeff, qsub(input, self.state)));
        self.state
    }

    /// Recompute the coefficient for a new cutoff; the state is kept.
    pub fn set_cutoff(&mut self, sample_rate: u32, cutoff_hz: u32)
        requires
            old(self).wf(),
            100 <= sample_rate <= 1000000,
            cutoff_hz <= 1000000,
        ensures
            final(self).wf(),
            final(self).state == old(self).state,
            final(self).coeff as int == onepole_coeff(sample_rate as int, cutoff_hz as int),
    {
        self.coeff = Self::calculate_coeff(sample_rate, cutoff_hz);
    }
}

/// Law (DC convergence): each low-pass step moves the state toward the
/// input and never past it, so on constant input the state converges to
/// that input monotonically.
pub proof fn lemma_onepole_step_toward_input(state: int, coeff: int, x: int)
    requires
        0 <= coeff <= ONE,
        q_ok(state),
        q_ok(x),
        q_ok(x - state),
    ensures
        state <= x ==> state <= onepole_next(state, coeff, x) <= x,
        x <= state ==> x <= onepole_next(state, coeff, x) <= state,
{
    lemma_qmul_contract(coeff, spec_qsub(x, state));
}

/// The chorus LFO phase after one tick: advance by π/rate (a 0.5 Hz sine)
/// and wrap at 2π.
pub open spec fn chorus_phase_next(phase: int, rate: int) -> int {
    let ph = spec_qadd(phase, (PI_Q as int) / rate);
    if ph > TWO_PI_Q {
        ph - TWO_PI_Q
    } else {
        ph
    }
}

/// The chorus delay tap for a phase: ⌊sin(φ)·1000 + 2000⌋ samples, a value
/// in [1000, 3000].  The offset is in samples, roughly 23–68 ms at
/// 44.1 kHz.
pub open spec fn chorus_offset(phase: int) -> int {
    (spec_sin(phase) * 1000 + 2000 * (ONE as int)) / (ONE as int)
}

/// The dreamy tone chain: one-pole low-pass, then chorus, then reverb.
pub struct EffectsChain {
    pub reverb: Reverb,
    pub lowpass: OnePole,
    pub chorus_delay: Vec<i64>,
    pub chorus_pos: usize,
    pub chorus_phase: i64,
    pub sample_rate: u32,
}

impl EffectsChain {
    pub open spec fn wf(self) -> bool {
        &&& self.reverb.wf()
        &&& self.lowpass.wf()
        &&& self.chorus_delay@.len() == CHORUS_LEN
        &&& self.chorus_pos < CHORUS_LEN
        &&& 0 <= self.chorus_phase <= TWO_PI_Q
        &&& 8000 <= self.sample_rate <= 192000
        &&& forall|i: int|
            0 <= i < self.chorus_delay@.len() ==> q_ok((#[trigger] self.chorus_delay@[i]) as int)
    }

    /// The dreamy preset: reverb at wet 0.4 / dry 0.6, a 4 kHz low-pass,
    /// and a silent 4410-sample chorus line.
    pub fn new_dreamy(sample_rate: u32) -> (r: Self)
        requires
            8000 <= sample_rate <= 192000,
        ensures
            r.wf(),
            r.reverb.wet == REVERB_WET,
            r.reverb.dry == REVERB_DRY,
            r.reverb.combs@.len() == 8,
            r.reverb.allpasses@.len() == 4,
            forall|i: int|
                0 <= i < 8 ==> {
                    let c = #[trigger] r.reverb.combs@[i];
                    &&& c.buffer@.len() == (comb_base_delay(i) * sample_rate as int) / 44100
                    &&& c.pos == 0
                    &&& c.feedback == COMB_FEEDBACK
                    &&& c.damping == COMB_DAMPING
                    &&& c.filter_state == 0
                    &&& forall|j: int| 0 <= j < c.buffer@.len() ==> #[trigger] c.buffer@[j] == 0i64
                },
            forall|i: int|
                0 <= i < 4 ==> {
                    let a = #[trigger] r.reverb.allpasses@[i];
                    &&& a.buffer@.len() == (allpass_base_delay(i) * sample_rate as int) / 44100
                    &&& a.pos == 0
                    &&& a.feedback == ALLPASS_FEEDBACK
                    &&& forall|j: int| 0 <= j < a.buffer@.len() ==> #[trigger] a.buffer@[j] == 0i64
                },
            r.lowpass.state == 0,
            r.lowpass.coeff as int == onepole_coeff(sample_rate as int, LOWPASS_CUTOFF_HZ as int),
            r.chorus_delay@.len() == CHORUS_LEN,
            forall|i: int| 0 <= i < CHORUS_LEN ==> #[trigger] r.chorus_delay@[i] == 0i64,
            r.chorus_pos == 0,
            r.chorus_phase == 0,
            r.sample_rate == sample_rate,
    {
        EffectsChain {
            reverb: Reverb::new(sample_rate, REVERB_WET, REVERB_DRY),
            lowpass: OnePole::new(sample_rate, LOWPASS_CUTOFF_HZ),
            chorus_delay: zero_line(CHORUS_LEN),
            chorus_pos: 0,
            chorus_phase: 0,
            sample_rate,
        }
    }

    /// One tick of the whole chain: low-pass, chorus, reverb.
    pub fn process(&mut self, input: i64) -> (r: i64)
        requires
            old(self).wf(),
            q_ok(input as int),
        ensures
            final(self).wf(),
            q_ok(r as int),
            final(self).sample_rate == old(self).sample_rate,
            final(self).lowpass.coeff == old(self).lowpass.coeff,
            final(self).reverb.wet == old(self).reverb.wet,
            final(self).reverb.dry == old(self).reverb.dry,
            final(self).reverb.combs@.len() == old(self).reverb.combs@.len(),
            final(self).reverb.allpasses@.len() == old(self).reverb.allpasses@.len(),
            ({
                let lp1 = onepole_next(
                    old(self).lowpass.state as int,
                    old(self).lowpass.coeff as int,
                    input as int,
                );
                let ph = chorus_phase_next(old(self).chorus_phase as int, old(self).sample_rate as int);
                let off = chorus_offset(ph);
                let dpos = (old(self).chorus_pos + CHORUS_LEN - off) % (CHORUS_LEN as int);
                let delayed = old(self).chorus_delay@[dpos] as int;
                let ch = spec_qadd(
                    spec_qmul(CHORUS_DRY as int, lp1),
                    spec_qmul(CHORUS_WET as int, delayed),
                );
                &&& final(self).lowpass.state as int == lp1
                &&& final(self).chorus_phase as int == ph
                &&& final(self).chorus_delay@ =~= old(self).chorus_delay@.update(
                    old(self).chorus_pos as int,
                    lp1 as i64,
                )
                &&& final(self).chorus_pos == (old(self).chorus_pos + 1) % (CHORUS_LEN as int)
                &&& r as int == reverb_out(
                    old(self).reverb.combs@,
                    old(self).reverb.allpasses@,
                    old(self).reverb.wet as int,
                    old(self).reverb.dry as int,
                    ch,
                )
            }),
    {
        let filtered: i64 = self.lowpass.process(input);
        let chorus: i64 = self.process_chorus(filtered);
        let with_reverb: i64 = self.reverb.process(chorus);
        with_reverb
    }

    /// One tick of the chorus: advance the 0.5 Hz LFO, read the modulated
    /// tap, record the input, and mix 0.7 dry with 0.3 delayed.
    fn process_chorus(&mut self, input: i64) -> (r: i64)
        requires
            old(self).wf(),
            q_ok(input as int),
        ensures
            final(self).wf(),
            q_ok(r as int),
            final(self).reverb == old(self).reverb,
            final(self).lowpass == old(self).lowpass,
            final(self).sample_rate == old(self).sample_rate,
            ({
                let ph = chorus_phase_next(old(self).chorus_phase as int, old(self).sample_rate as int);
                let off = chorus_offset(ph);
                let dpos = (old(self).chorus_pos + CHORUS_LEN - off) % (CHORUS_LEN as int);
                let delayed = old(self).chorus_delay@[dpos] as int;
                &&& final(self).chorus_phase as int == ph
                &&& final(self).chorus_delay@ =~= old(self).chorus_delay@.update(
                    old(self).chorus_pos as int,
                    input,
                )
                &&& final(self).chorus_pos == (old(self).chorus_pos + 1) % (CHORUS_LEN as int)
                &&& r as int == spec_qadd(
                    spec_qmul(CHORUS_DRY as int, input as int),
                    spec_qmul(CHORUS_WET as int, delayed),
                )
            }),
    {
        let inc: i64 = ((PI_Q as u64) / (self.sample_rate as u64)) as i64;
        proof {
            vstd::arithmetic::div_mod::lemma_div_pos_is_pos(PI_Q as int, self.sample_rate as int);
            vstd::arithmetic::div_mod::lemma_div_is_ordered(
                PI_Q as int, TWO_PI_Q as int, self.sample_rate as int);
            assert((TWO_PI_Q as int) / (self.sample_rate as int) <= TWO_PI_Q) by {
                vstd::arithmetic::div_mod::lemma_div_nonincreasing(
                    TWO_PI_Q as int, self.sample_rate as int);
            }
        }
        self.chorus_phase = qadd(self.chorus_phase, inc);
        if self.chorus_phase > TWO_PI_Q {
            self.chorus_phase = self.chorus_phase - TWO_PI_Q;
        }
        let lfo: i64 = sin_q(self.chorus_phase);
        let num: i64 = lfo * 1000 + 2000 * ONE;
        let offset_q: u64 = (num as u64) / (ONE as u64);
        proof {
            assert(1000 * (ONE as int) <= num <= 3000 * (ONE as int));
            assert((num as int) / (ONE as int) >= 1000) by {
                vstd::arithmetic::div_mod::lemma_div_is_ordered(
                    1000 * (ONE as int), num as int, ONE as int);
                assert((1000 * (ONE as int)) == ((ONE as int) * 1000));
                vstd::arithmetic::div_mod::lemma_div_multiples_vanish(1000, ONE as int);
            }
            assert((num as int) / (ONE as int) <= 3000) by {
                vstd::arithmetic::div_mod::lemma_div_is_ordered(
                    num as int, 3000 * (ONE as int), ONE as int);
                assert((3000 * (ONE as int)) == ((ONE as int) * 3000));
                vstd::arithmetic::div_mod::lemma_div_multiples_vanish(3000, ONE as int);
            }
        }
        let offset: usize = offset_q as usize;
        let dpos: usize = (self.chorus_pos + CHORUS_LEN - offset) % CHORUS_LEN;
        let delayed: i64 = self.chorus_delay[dpos];
        let ghost sold = *self;
        self.chorus_delay.set(self.chorus_pos, input);
        proof {
            assert forall|i: int| 0 <= i < self.chorus_delay@.len() implies q_ok(
                (#[trigger] self.chorus_delay@[i]) as int,
            ) by {
                if i != sold.chorus_pos {
                    assert(q_ok((sold.chorus_delay@[i]) as int));
                }
            }
        }
        self.chorus_pos = (self.chorus_pos + 1) % CHORUS_LEN;
        qadd(qmul(CHORUS_DRY, input), qmul(CHORUS_WET, delayed))
    }
}

/// Law (bounded feedback, comb): with feedback magnitude below one, a comb
/// whose stored samples and damping state lie within `m` keeps them within
/// `m` on any input within `bnd`, provided `m` absorbs one input on top of
/// the fed-back tail: bnd + ⌊m·|g|⌋ ≤ m.  For the preset feedback 0.84,
/// m = 7·bnd satisfies this; the comb bank therefore never diverges.
pub proof fn lemma_comb_step_bounded(c: Comb, x: int, bnd: int, m: int)
    requires
        c.wf(),
        0 <= bnd,
        0 <= m <= QMAX,
        forall|i: int| 0 <= i < c.buffer@.len() ==> -m <= (#[trigger] c.buffer@[i]) as int <= m,
        -m <= c.filter_state as int <= m,
        -bnd <= x <= bnd,
        bnd + tdiv(
            m * (if c.feedback < 0 {
                -(c.feedback as int)
            } else {
                c.feedback as int
            }),
            ONE as int,
        ) <= m,
    ensures
        -m <= comb_delayed(c) <= m,
        -m <= comb_lp_next(c) <= m,
        -m <= comb_store(c, x) <= m,
{
    let d = c.damping as int;
    let delayed = comb_delayed(c);
    assert(-m <= c.buffer@[c.pos as int] as int <= m);
    lemma_qmul_mag(delayed, ONE - d, m, ONE - d);
    lemma_qmul_mag(c.filter_state as int, d, m, d);
    assert(m * (ONE - d) >= 0) by (nonlinear_arith)
        requires
            0 <= m,
            d <= ONE as int,
    ;
    assert(m * d >= 0) by (nonlinear_arith)
        requires
            0 <= m,
            0 <= d,
    ;
    lemma_div_sum_le(m * (ONE - d), m * d, ONE as int);
    assert(m * (ONE - d) + m * d == m * (ONE as int)) by (nonlinear_arith);
    vstd::arithmetic::div_mod::lemma_div_multiples_vanish(m, ONE as int);
    assert(m * (ONE as int) == (ONE as int) * m) by (nonlinear_arith);
    let gm = if c.feedback < 0 {
        -(c.feedback as int)
    } else {
        c.feedback as int
    };
    lemma_qmul_mag(comb_lp_next(c), c.feedback as int, m, gm);
}

/// Law (bounded feedback, all-pass): an all-pass with feedback magnitude
/// below one keeps its stored samples within `m` on inputs within `bnd`
/// whenever bnd + ⌊m·|g|⌋ ≤ m, and its output within bnd + m.  For the
/// preset feedback ½, m = 2·bnd satisfies this exactly.
pub proof fn lemma_allpass_step_bounded(a: AllPass, x: int, bnd: int, m: int)
    requires
        a.wf(),
        0 <= bnd,
        0 <= m <= QMAX,
        forall|i: int| 0 <= i < a.buffer@.len() ==> -m <= (#[trigger] a.buffer@[i]) as int <= m,
        -bnd <= x <= bnd,
        bnd + tdiv(
            m * (if a.feedback < 0 {
                -(a.feedback as int)
            } else {
                a.feedback as int
            }),
            ONE as int,
        ) <= m,
    ensures
        -m <= ap_store(a, x) <= m,
        -(bnd + m) <= ap_out(a, x) <= bnd + m,
{
    assert(-m <= a.buffer@[a.pos as int] as int <= m);
    let gm = if a.feedback < 0 {
        -(a.feedback as int)
    } else {
        a.feedback as int
    };
    lemma_qmul_mag(ap_delayed(a), a.feedback as int, m, gm);
}

/// The preset comb feedback satisfies the absorption condition at seven
/// times the input bound: bnd + ⌊7·bnd·0.84⌋ ≤ 7·bnd.
pub proof fn lemma_comb_preset_margin(bnd: int)
    requires
        0 <= bnd,
        7 * bnd <= QMAX,
    ensures
        bnd + tdiv(7 * bnd * (COMB_FEEDBACK as int), ONE as int) <= 7 * bnd,
{
    assert(7 * bnd * (COMB_FEEDBACK as int) <= 6 * bnd * (ONE as int)) by (nonlinear_arith)
        requires
            0 <= bnd,
    ;
    assert(7 * bnd * (COMB_FEEDBACK as int) >= 0) by (nonlinear_arith)
        requires
            0 <= bnd,
    ;
    vstd::arithmetic::div_mod::lemma_div_is_ordered(
        7 * bnd * (COMB_FEEDBACK as int), 6 * bnd * (ONE as int), ONE as int);
    assert(6 * bnd * (ONE as int) == (ONE as int) * (6 * bnd)) by (nonlinear_arith);
    vstd::arithmetic::div_mod::lemma_div_multiples_vanish(6 * bnd, ONE as int);
    vstd::arithmetic::div_mod::lemma_div_pos_is_pos(
        7 * bnd * (COMB_FEEDBACK as int), ONE as int);
}

} // verus!
