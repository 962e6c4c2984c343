//! Verified core of a music visualiser: the user's look settings, pattern
//! sequencing, audio sample buffering, spectrum bookkeeping, audio device
//! selection and per-frame renderer bookkeeping.
pub mod config;
pub mod devices;
pub mod events;
pub mod frame;
pub mod pattern;
pub mod ring;
pub mod spectrum;
pub mod text;
