//! Prediction-based MIDI clock shifting: the verified core of a tool that
//! receives MIDI clock, models it, and re-emits it with a phase offset.
pub mod clock;
pub mod config;
pub mod display;
pub mod engine;
pub mod logging;
pub mod ports;
pub mod sim;
