//! A realtime audio transformation library: an adaptive echo canceller with a
//! voice-activity gate, a granular resynthesis engine, and a tone/space
//! effects chain (one-pole low-pass, chorus, Schroeder reverb).
//!
//! All signal processing is carried out in 32.32 fixed-point arithmetic so
//! that every stage has an exact, machine-checked contract.  Host audio I/O
//! converts to and from this representation at the edges.

pub mod echo_canceller;
pub mod effects;
pub mod fixed;
pub mod granular;
pub mod pipeline;

pub use fixed::{ONE, HALF, PI_Q, TWO_PI_Q};
