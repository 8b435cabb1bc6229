//! Two-party protocols for discovering the common elements of two private
//! data sets, one element at a time, without either side handing over its
//! whole set in the clear.
//!
//! - [`simple`] and [`node`] compare two sequences position by position,
//!   trusting the peer's answers.
//! - [`challenge`] runs a salted-hash challenge/response session in which a
//!   leader proposes digests and cryptographically re-checks every claim the
//!   follower makes before recording an element as common.

pub mod challenge;
pub mod node;
pub mod simple;
