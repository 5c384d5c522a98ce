//! Extraction of inscriptions and of ordinal ranges from Bitcoin blocks.
//!
//! Two independent parts: a byte-level automaton that recognises inscription
//! envelopes in script bytes, and the arithmetic of numbered satoshis under
//! the halving schedule.

pub mod block;
pub mod btc;
pub mod codec;
pub mod envelope;
pub mod inscriptions;
pub mod models;
pub mod pb;
pub mod sats_utils;
