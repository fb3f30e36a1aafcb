//! A synthetic log-traffic generator.
//!
//! The library resolves a textual interval and total-count configuration,
//! synthesizes log records with randomized severity and message content
//! drawn from fixed vocabularies, and drives the bounded or unbounded
//! emission loop. Everything except the random draws themselves is verified.

pub mod config;
pub mod emitter;
pub mod record;
