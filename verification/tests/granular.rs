use dreamscape::fixed::{ONE, HALF};
use dreamscape::granular::{GrainBuffer, Grain, GranularEngine, DreamyPreset};

fn q(x: f64) -> i64 {
    (x * 4294967296.0).round() as i64
}

fn to_f(x: i64) -> f64 {
    x as f64 / 4294967296.0
}

// Reads at whole-sample positions return the stored samples exactly.
#[test]
fn buffer_read_whole_positions() {
    let mut buf = GrainBuffer::new(8);
    for k in 0..8 {
        buf.write(q(0.1 * k as f64 - 0.3));
    }
    for k in 0..8i64 {
        let expected = buf.buffer[k as usize];
        assert_eq!(buf.read(k * ONE), expected);
    }
}

// A read halfway between two samples is their midpoint.
#[test]
fn buffer_read_interpolates_midpoint() {
    let mut buf = GrainBuffer::new(4);
    buf.write(q(0.2));
    buf.write(q(0.6));
    buf.write(q(-0.4));
    buf.write(q(0.0));
    let r = buf.read(0 * ONE + HALF);
    assert_eq!(r, (q(0.2) + q(0.6)) / 2);
    let r2 = buf.read(1 * ONE + HALF);
    assert_eq!(r2, q(0.6) + (q(-0.4) - q(0.6)) / 2);
}

// Reads wrap: a negative position indexes from the end.
#[test]
fn buffer_read_wraps_around() {
    let mut buf = GrainBuffer::new(4);
    for k in 0..4 {
        buf.write(q(0.1 * (k + 1) as f64));
    }
    assert_eq!(buf.read(-1 * ONE), buf.buffer[3]);
    assert_eq!(buf.read(4 * ONE), buf.buffer[0]);
}

// The Hann envelope is zero at the grain edges and exactly one at the
// midpoint; it never exceeds one.
#[test]
fn grain_window_shape() {
    let mut g = Grain::new(0, 100, ONE);
    assert_eq!(g.window(), 0);
    g.current_pos = 50;
    assert_eq!(g.window(), ONE);
    g.current_pos = 99;
    let near_end = g.window();
    assert!(near_end >= 0 && near_end < ONE / 100);
    for cur in 0..100 {
        g.current_pos = cur;
        let w = g.window();
        assert!(w >= 0 && w <= ONE);
    }
    g.current_pos = 25;
    let quarter = g.window();
    assert!((to_f(quarter) - 0.5).abs() < 0.08);
}

// An inactive or spent grain emits nothing.
#[test]
fn grain_deactivates_after_length() {
    let buf = GrainBuffer::new(16);
    let mut g = Grain::new(0, 3, ONE);
    for _ in 0..3 {
        g.process(&buf);
    }
    assert!(!g.active);
    assert_eq!(g.process(&buf), 0);
}

// The live-grain count never exceeds the cap, however dense the schedule.
#[test]
fn engine_grain_cap_holds() {
    let mut engine = GranularEngine::new(48000, q(2000.0), 8);
    engine.grain_density = q(1000.0);
    engine.grain_size_ms = q(10.0);
    engine.set_seed(99);
    for i in 0..10000 {
        engine.write_input(q((i as f64 * 0.01).sin() * 0.5));
        engine.process();
        assert!(engine.grains.len() <= 8);
    }
}

// Silence in, silence out: grains reading a silent buffer emit exact zero.
#[test]
fn engine_silent_input_gives_silence() {
    let mut engine = GranularEngine::new(48000, q(2000.0), 8);
    engine.grain_density = q(1000.0);
    engine.grain_size_ms = q(10.0);
    engine.set_seed(5);
    for _ in 0..48000 {
        engine.write_input(0);
        assert_eq!(engine.process(), 0);
    }
}

// A fixed seed reproduces the output sequence exactly.
#[test]
fn engine_is_deterministic_with_seed() {
    let mut a = GranularEngine::new(44100, q(2000.0), 16);
    let mut b = GranularEngine::new(44100, q(2000.0), 16);
    DreamyPreset::configure_engine(&mut a);
    DreamyPreset::configure_engine(&mut b);
    a.set_seed(424242);
    b.set_seed(424242);
    for i in 0..20000 {
        let s = q((i as f64 * 0.013).sin() * 0.7);
        a.write_input(s);
        b.write_input(s);
        assert_eq!(a.process(), b.process());
    }
}

// Pitch shift 2.0 doubles the dominant frequency: a 440 Hz input comes out
// around 880 Hz.
#[test]
fn engine_pitch_shift_doubles_frequency() {
    let rate = 48000u32;
    let mut engine = GranularEngine::new(rate, q(2000.0), 8);
    engine.grain_size_ms = q(50.0);
    engine.grain_density = q(20.0);
    engine.pitch_shift = q(2.0);
    engine.pitch_randomness = 0;
    engine.time_randomness = 0;
    engine.set_seed(31337);
    let mut outs: Vec<f64> = Vec::new();
    for i in 0..(3 * rate as usize) {
        let t = i as f64 / rate as f64;
        engine.write_input(q((2.0 * std::f64::consts::PI * 440.0 * t).sin() * 0.5));
        let o = engine.process();
        outs.push(to_f(o));
    }
    let tail = &outs[outs.len() - rate as usize..];
    let e880 = goertzel(tail, 880.0, rate as f64);
    let e440 = goertzel(tail, 440.0, rate as f64);
    assert!(e880 > 2.0 * e440, "e880 {} e440 {}", e880, e440);
}

fn goertzel(samples: &[f64], freq: f64, rate: f64) -> f64 {
    let w = 2.0 * std::f64::consts::PI * freq / rate;
    let coeff = 2.0 * w.cos();
    let mut s0 = 0.0f64;
    let mut s1 = 0.0f64;
    for &x in samples {
        let s = x + coeff * s0 - s1;
        s1 = s0;
        s0 = s;
    }
    s0 * s0 + s1 * s1 - coeff * s0 * s1
}

// The dreamy preset sets the documented parameters.
#[test]
fn dreamy_preset_values() {
    let mut engine = GranularEngine::new(44100, q(2000.0), 64);
    DreamyPreset::configure_engine(&mut engine);
    assert_eq!(engine.grain_size_ms, 120 * ONE);
    assert_eq!(engine.grain_density, 15 * ONE);
    assert!((to_f(engine.pitch_shift) - 0.92).abs() < 1e-6);
    assert!((to_f(engine.pitch_randomness) - 0.12).abs() < 1e-6);
    assert!((to_f(engine.time_randomness) - 0.6).abs() < 1e-6);
}
