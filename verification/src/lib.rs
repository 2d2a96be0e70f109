//! Vocabulary extraction for Korean text.
//!
//! A sentence is trimmed to its Hangul core, split into tokens, and every
//! token is reduced to a dictionary form by removing particles and endings.
//! The lemmas are then counted together with the sentences they came from.

pub mod aggregator;
pub mod particles;
pub mod repair;
pub mod stripper;
pub mod syllable;
pub mod text;
