//! Wordlist-driven HTTP content-discovery core.
//!
//! The crate models the pure heart of a content-discovery probe: a
//! normalized [`model::Target`], validated wordlist [`model::Candidate`]s,
//! a [`resolve`] step that joins the two into a request URL, outcome
//! classification, a bounded-concurrency [`engine::Engine`] that
//! decides what to admit and records what completed, and the
//! [`report`] layout of one result line.  The surrounding process
//! (file loading, the HTTP client, printing) drives the engine and
//! performs its actions.

pub mod model;
pub mod resolve;
pub mod wordlist;
pub mod report;
pub mod engine;
