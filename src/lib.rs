//! Keeps an audio device's output gain in step with a target value.
//!
//! Gains are held as whole hundredths of a decibel. The device reports and
//! accepts gains with one fractional digit, so two gains are told apart only
//! after rounding them to tenths.
pub mod codec;
pub mod controller;
pub mod error;
pub mod gain;
pub mod keys;
