use dreamscape::fixed::{ONE, HALF, PI_Q};
use dreamscape::fixed::{qmul, qdiv, emod, whole_sqrt, sin_q};
use dreamscape::effects::{AllPass, Comb, Reverb, OnePole, EffectsChain};

fn q(x: f64) -> i64 {
    (x * 4294967296.0).round() as i64
}

fn to_f(x: i64) -> f64 {
    x as f64 / 4294967296.0
}

// Exact fixed-point arithmetic spot checks.
#[test]
fn fixed_point_exact_values() {
    assert_eq!(qmul(q(1.5), q(2.0)), q(3.0));
    assert_eq!(qmul(q(-1.5), q(2.0)), q(-3.0));
    assert_eq!(qdiv(q(3.0), q(2.0)), q(1.5));
    assert_eq!(emod(-5 * ONE, 3 * ONE), ONE);
    assert_eq!(whole_sqrt(4), 2 * ONE);
    assert_eq!(whole_sqrt(1), ONE);
    // The parabolic sine is exact at 0, π/2 and π.
    assert_eq!(sin_q(0), 0);
    assert_eq!(sin_q(PI_Q / 2), ONE);
    assert_eq!(sin_q(PI_Q), 0);
    assert!(sin_q(PI_Q + PI_Q / 2) == -ONE);
}

// One-pole DC gain: a constant input drives the state to that constant,
// monotonically.
#[test]
fn onepole_dc_convergence() {
    let mut lp = OnePole::new(44100, 4000);
    let target = q(0.8);
    let mut last = 0i64;
    for _ in 0..20000 {
        let y = lp.process(target);
        assert!(y >= last, "state fell while converging upward");
        assert!(y <= target);
        last = y;
    }
    assert!((to_f(last) - 0.8).abs() < 1e-4, "state {}", to_f(last));
}

// At feedback one half the damping-free all-pass recurrence has unity
// gain at zero frequency: a sustained constant comes back at its own
// level.  (Across the whole band this recurrence is not unity-magnitude:
// white noise gains energy through it, by roughly a factor of two.)
#[test]
fn allpass_dc_unity_gain() {
    let mut ap = AllPass::new(225, HALF);
    let x = q(0.3);
    let mut y = 0i64;
    for _ in 0..200000 {
        y = ap.process(x);
    }
    assert!((to_f(y) - 0.3).abs() < 1e-4, "dc output {}", to_f(y));
}

// A comb echoes its input after the delay length.
#[test]
fn comb_echoes_after_delay() {
    let mut comb = Comb::new(10, q(0.5), 0);
    let mut outs = Vec::new();
    outs.push(comb.process(ONE));
    for _ in 0..30 {
        outs.push(comb.process(0));
    }
    assert_eq!(outs[0], 0);
    assert!((to_f(outs[10]) - 1.0).abs() < 1e-6);
    assert!((to_f(outs[20]) - 0.5).abs() < 1e-6);
    assert!((to_f(outs[30]) - 0.25).abs() < 1e-6);
}

// Reverb decay: an impulse produces a tail whose envelope decays, still
// audible at 0.5 s (RT60 at least 0.5 s) and at least 40 dB down after
// 2 s.
#[test]
fn reverb_impulse_decay() {
    let rate = 44100u32;
    let mut rv = Reverb::new(rate, ONE, 0);
    let n = 3 * rate as usize;
    let mut outs: Vec<f64> = Vec::with_capacity(n);
    outs.push(to_f(rv.process(ONE)));
    for _ in 1..n {
        outs.push(to_f(rv.process(0)));
    }
    let win = (rate / 20) as usize;
    let rms = |from: usize| -> f64 {
        let s: f64 = outs[from..from + win].iter().map(|x| x * x).sum();
        (s / win as f64).sqrt()
    };
    let mut peak = 0.0f64;
    let mut k = 0;
    while k + win <= n {
        let e = rms(k);
        if e > peak {
            peak = e;
        }
        k += win;
    }
    let at_half_s = rms(rate as usize / 2);
    let at_two_s = rms(2 * rate as usize);
    assert!(peak > 0.0);
    assert!(at_half_s > peak * 0.001, "tail dead at 0.5 s: {} vs peak {}", at_half_s, peak);
    assert!(at_two_s < peak * 0.01, "tail too hot at 2 s: {} vs peak {}", at_two_s, peak);
}

// The reverb tail envelope decays monotonically after the build-up
// (allowing a little measurement jitter between windows).
#[test]
fn reverb_envelope_decays() {
    let rate = 44100u32;
    let mut rv = Reverb::new(rate, ONE, 0);
    let n = 2 * rate as usize;
    let mut outs: Vec<f64> = Vec::with_capacity(n);
    outs.push(to_f(rv.process(ONE)));
    for _ in 1..n {
        outs.push(to_f(rv.process(0)));
    }
    let win = (rate / 10) as usize;
    let mut envs: Vec<f64> = Vec::new();
    let mut k = 0;
    while k + win <= n {
        let s: f64 = outs[k..k + win].iter().map(|x| x * x).sum();
        envs.push((s / win as f64).sqrt());
        k += win;
    }
    let peak_idx = envs
        .iter()
        .enumerate()
        .max_by(|a, b| a.1.partial_cmp(b.1).unwrap())
        .unwrap()
        .0;
    for i in (peak_idx + 1)..envs.len() {
        assert!(envs[i] <= envs[i - 1] * 1.10, "envelope rose at window {}", i);
    }
}

// set_mix replaces the wet/dry coefficients.
#[test]
fn reverb_set_mix() {
    let mut rv = Reverb::new(44100, q(0.4), q(0.6));
    rv.set_mix(q(0.9), q(0.1));
    assert_eq!(rv.wet, q(0.9));
    assert_eq!(rv.dry, q(0.1));
}

// The full effects chain keeps bounded inputs bounded, and darkens the
// spectrum: energy at 1 kHz passes while 8 kHz is attenuated.
#[test]
fn effects_chain_bounded_and_lowpassed() {
    let rate = 48000u32;
    let mut fx = EffectsChain::new_dreamy(rate);
    let mut seed: u64 = 31;
    let n = 5 * rate as usize;
    let mut outs: Vec<f64> = Vec::with_capacity(n);
    // Pink-ish noise via a one-pole cascade over white noise.
    let mut b0 = 0.0f64;
    let mut b1 = 0.0f64;
    let mut b2 = 0.0f64;
    for _ in 0..n {
        seed = seed.wrapping_mul(6364136223846793005).wrapping_add(1442695040888963407);
        let white = ((seed >> 11) as f64 / (1u64 << 53) as f64) * 2.0 - 1.0;
        b0 = 0.99765 * b0 + white * 0.0990460;
        b1 = 0.96300 * b1 + white * 0.2965164;
        b2 = 0.57000 * b2 + white * 1.0526913;
        let pink = (b0 + b1 + b2 + white * 0.1848) * 0.2;
        let x = q(pink.clamp(-1.0, 1.0));
        let y = fx.process(x);
        let yf = to_f(y);
        assert!(yf.abs() <= 4.0, "output {} exceeds bound", yf);
        outs.push(yf);
    }
    let tail = &outs[outs.len() - rate as usize..];
    let low = goertzel(tail, 1000.0, rate as f64);
    let high = goertzel(tail, 8000.0, rate as f64);
    assert!(low > 2.0 * high, "low {} high {}", low, high);
}

fn goertzel(samples: &[f64], freq: f64, rate: f64) -> f64 {
    let w = 2.0 * std::f64::consts::PI * freq / rate;
    let coeff = 2.0 * w.cos();
    let mut s0 = 0.0f64;
    let mut s1 = 0.0f64;
    for &x in samples {
        let s = x + coeff * s0 - s1;
        s1 = s0;
        s0 = s;
    }
    s0 * s0 + s1 * s1 - coeff * s0 * s1
}

// The low-pass cutoff setter changes the smoothing speed.
#[test]
fn onepole_set_cutoff() {
    let mut a = OnePole::new(44100, 400);
    let mut b = OnePole::new(44100, 400);
    b.set_cutoff(44100, 8000);
    let mut ya = 0i64;
    let mut yb = 0i64;
    for _ in 0..50 {
        ya = a.process(ONE);
        yb = b.process(ONE);
    }
    assert!(yb > ya, "higher cutoff should converge faster");
}
