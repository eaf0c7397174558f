//! Verified core of a PipeWire mixer.
//!
//! Quantities that the mixer shows as fractional numbers (gains in dB, gate
//! amounts, application levels and meter readings) are held as integers in
//! thousandths: a gain of -2.5 dB is `-2500`, a level of 0.8 is `800`.
pub mod text;
pub mod json;
pub mod model;
pub mod demo;
pub mod persistence;
pub mod backend;
pub mod controller;
pub mod pipewire;
pub mod mixing;
pub mod mock;
pub mod ui;
