//! Core of a test-gating attribute: a test function is rewritten so that its
//! body first checks a list of required environment variables and skips
//! itself (prints one diagnostic line and returns early) when one is unset.
//!
//! The crate holds the attribute's logic on plain values: parsing the
//! attribute payload into the required-variable list ([`args`]), building
//! the rewritten function body ([`rewrite`]), and the run-time skip/run
//! semantics of the emitted guards ([`guard`]).

pub mod args;
pub mod guard;
pub mod rewrite;
mod strutil;
