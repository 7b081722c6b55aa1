use dreamscape::pipeline::Pipeline;
use dreamscape::granular::hann_q;
use dreamscape::fixed::{ONE, HALF};

fn q(x: f64) -> i64 {
    (x * 4294967296.0).round() as i64
}

fn to_f(x: i64) -> f64 {
    x as f64 / 4294967296.0
}

// The Hann window function itself: exact at the edges and the midpoint.
#[test]
fn hann_exact_landmarks() {
    assert_eq!(hann_q(0), 0);
    assert_eq!(hann_q(HALF), ONE);
    assert_eq!(hann_q(ONE), 0);
}

// The full dreamy pipeline keeps sustained pink noise within the fixed
// output bound.
#[test]
fn pipeline_bounded_on_pink_noise() {
    let rate = 16000u32;
    let mut p = Pipeline::new(rate);
    p.engine.set_seed(2024);
    let mut seed: u64 = 99;
    let mut b0 = 0.0f64;
    let mut b1 = 0.0f64;
    let mut b2 = 0.0f64;
    for _ in 0..(2 * rate as usize) {
        seed = seed.wrapping_mul(6364136223846793005).wrapping_add(1442695040888963407);
        let white = ((seed >> 11) as f64 / (1u64 << 53) as f64) * 2.0 - 1.0;
        b0 = 0.99765 * b0 + white * 0.0990460;
        b1 = 0.96300 * b1 + white * 0.2965164;
        b2 = 0.57000 * b2 + white * 1.0526913;
        let pink = (b0 + b1 + b2 + white * 0.1848) * 0.2;
        let y = p.tick(q(pink.clamp(-1.0, 1.0)));
        assert!(to_f(y).abs() <= 4.0, "pipeline output {} out of bound", to_f(y));
    }
}

// The pipeline remembers its own output as the next echo reference.
#[test]
fn pipeline_feeds_back_previous_output() {
    let mut p = Pipeline::new(44100);
    p.engine.set_seed(1);
    let mut last = 0i64;
    for i in 0..1500 {
        let x = q((i as f64 * 0.02).sin() * 0.3);
        last = p.tick(x);
        assert_eq!(p.previous_output, last);
    }
}

// Two pipelines with the same seed agree sample for sample.
#[test]
fn pipeline_deterministic_with_seed() {
    let mut a = Pipeline::new(44100);
    let mut b = Pipeline::new(44100);
    a.engine.set_seed(555);
    b.engine.set_seed(555);
    for i in 0..3000 {
        let x = q((i as f64 * 0.017).sin() * 0.4);
        assert_eq!(a.tick(x), b.tick(x));
    }
}
