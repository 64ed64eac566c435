//! Single-pass weighted sampling without replacement.
//!
//! Records arrive one at a time; each one is classified against a forced
//! list and an exclude list, given a sampling key, and offered to a bounded
//! selector that keeps the candidates with the largest keys.
pub mod config;
pub mod engine;
pub mod filter;
pub mod key;
pub mod selector;
pub mod laws;
