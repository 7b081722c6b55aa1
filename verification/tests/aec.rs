use dreamscape::fixed::ONE;
use dreamscape::echo_canceller::{EchoCanceller, VoiceActivityDetector};

fn q(x: f64) -> i64 {
    (x * 4294967296.0).round() as i64
}

fn to_f(x: i64) -> f64 {
    x as f64 / 4294967296.0
}

#[test]
fn test_echo_canceller_basic() {
    let mut aec = EchoCanceller::new(128, q(0.5));

    // Simple impulse test
    let mic_input = q(1.0);
    let speaker_output = 0;
    let result = aec.process(mic_input, speaker_output);

    // Should pass through when no echo
    assert!((to_f(result) - to_f(mic_input)).abs() < 0.01);
}

#[test]
fn test_vad_silence() {
    let mut vad = VoiceActivityDetector::new(44100, q(0.001));

    // Silent samples should not trigger VAD
    for _ in 0..100 {
        assert!(!vad.process(0));
    }
}

#[test]
fn test_vad_active() {
    let mut vad = VoiceActivityDetector::new(44100, q(0.001));

    // Loud samples should trigger VAD
    for _ in 0..100 {
        vad.process(q(0.5));
    }
    assert!(vad.process(q(0.5)));
}

// With a zero reference the canceller passes any microphone sequence
// through exactly and its weights stay zero.
#[test]
fn aec_zero_reference_passes_through() {
    let mut aec = EchoCanceller::new(16, q(0.5));
    let mics = [q(0.25), q(-0.5), q(0.75), q(0.0), q(1.0), q(-1.0), q(0.3)];
    for &m in mics.iter() {
        let out = aec.process(m, 0);
        assert_eq!(out, m);
    }
    for &w in aec.filter_weights.iter() {
        assert_eq!(w, 0);
    }
    for &r in aec.reference_buffer.iter() {
        assert_eq!(r, 0);
    }
}

// After reset, weights and reference are zero and the next sample passes
// through exactly, whatever the reference input is.
#[test]
fn aec_reset_forgets_model() {
    let mut aec = EchoCanceller::new(8, q(0.5));
    // Learn something first.
    for i in 0..200 {
        let r = q(if i % 3 == 0 { 0.8 } else { -0.4 });
        let m = q(0.2);
        aec.process(m, r);
    }
    aec.reset();
    for &w in aec.filter_weights.iter() {
        assert_eq!(w, 0);
    }
    for &r in aec.reference_buffer.iter() {
        assert_eq!(r, 0);
    }
    let out = aec.process(q(0.6), q(0.9));
    assert_eq!(out, q(0.6));
}

// NLMS convergence: mic is a short FIR of the reference; after adaptation
// the residual energy falls below 5% of the mic energy.
#[test]
fn aec_converges_on_echo() {
    let taps = 8;
    let mut aec = EchoCanceller::new(taps, q(0.5));
    let h = [0.5f64, -0.25, 0.125];
    let mut hist = vec![0.0f64; h.len()];
    let mut seed: u64 = 12345;
    let mut outs: Vec<f64> = Vec::new();
    let mut mics: Vec<f64> = Vec::new();
    let n = 8000;
    for _ in 0..n {
        seed = seed.wrapping_mul(6364136223846793005).wrapping_add(1442695040888963407);
        let white = ((seed >> 11) as f64 / (1u64 << 53) as f64) * 2.0 - 1.0;
        hist.rotate_right(1);
        hist[0] = white;
        let mic: f64 = h.iter().zip(hist.iter()).map(|(a, b)| a * b).sum();
        let out = aec.process(q(mic), q(white));
        outs.push(to_f(out));
        mics.push(mic);
    }
    let tail = n / 10;
    let err_ms: f64 = outs[n - tail..].iter().map(|x| x * x).sum::<f64>() / tail as f64;
    let mic_ms: f64 = mics[n - tail..].iter().map(|x| x * x).sum::<f64>() / tail as f64;
    assert!(err_ms < 0.05 * mic_ms, "residual {} vs mic {}", err_ms, mic_ms);
}

// The concrete two-sample echo: the weight at lag 2 converges near 0.5 and
// the others near zero.
#[test]
fn aec_learns_two_sample_echo() {
    let mut aec = EchoCanceller::new(4, q(0.5));
    let refs = [1.0f64, 0.0, 0.0, 0.0];
    let mics = [0.0f64, 0.0, 0.5, 0.0];
    for _ in 0..300 {
        for k in 0..4 {
            aec.process(q(mics[k]), q(refs[k]));
        }
    }
    let w: Vec<f64> = aec.filter_weights.iter().map(|&x| to_f(x)).collect();
    assert!((w[2] - 0.5).abs() < 0.05, "w = {:?}", w);
    assert!(w[0].abs() < 0.05 && w[1].abs() < 0.05 && w[3].abs() < 0.05, "w = {:?}", w);
}

// VAD scenario: silence stays below threshold, onset of a loud signal trips
// the detector within 100 samples, and the energy rises monotonically on
// the way up.
#[test]
fn vad_onset_detection() {
    let mut vad = VoiceActivityDetector::new(44100, q(0.0001));
    for _ in 0..100 {
        assert!(!vad.process(0));
    }
    let mut tripped_at = None;
    let mut last_energy = vad.energy;
    for i in 0..1000 {
        let active = vad.process(q(0.5));
        assert!(vad.energy >= last_energy, "energy fell while rising");
        last_energy = vad.energy;
        if active && tripped_at.is_none() {
            tripped_at = Some(i);
        }
    }
    let t = tripped_at.expect("VAD never tripped");
    assert!(t <= 100, "tripped at {}", t);
}

// The step-size setter clamps into [0, 1].
#[test]
fn step_size_is_clamped() {
    let mut aec = EchoCanceller::new(4, q(0.5));
    aec.set_step_size(q(7.0));
    assert_eq!(aec.step_size, ONE);
    aec.set_step_size(q(-3.0));
    assert_eq!(aec.step_size, 0);
    aec.set_step_size(q(0.25));
    assert_eq!(aec.step_size, q(0.25));
}
