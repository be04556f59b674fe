//! Decision core of a test-case-reduction wrapper: it runs a shell command
//! in several parallel instances, polls them with a capped Fibonacci
//! backoff, decides each round against a required-pass threshold, and
//! repeats rounds with fail-fast semantics behind an optional validator.
//!
//! The library holds every decision as a verified state machine; the
//! program around it launches, polls, sleeps and kills.
pub mod backoff;
pub mod policy;
pub mod run;
pub mod session;
pub mod template;
