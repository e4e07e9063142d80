//! Normalises audio held in memory to 16 kHz, mono, 16-bit signed PCM.
//!
//! The crate holds the decisions and the arithmetic of the conversion; the
//! work that needs a subprocess or a resampling engine is described as an
//! action that the caller performs and reports back.

pub mod convert;
pub mod decode;
pub mod encode;
pub mod fallback;
pub mod format;
pub mod ieee;
pub mod mix;
pub mod resample;
pub mod wav;
