//! Verified core of a liquid-democracy polling service.
//!
//! Entities (users, topics, plans, one-time codes, access tokens) are
//! content-addressed: each record's id is derived from its identifying
//! bytes. The library verifies the persistence contract over a key-value
//! store model, the identity state machine (sign-up, one-time code,
//! bearer token, per-request authorization), and the vote-application
//! logic with hash-gated memoization of tally results. Network I/O, mail
//! transport and the external tally engine live outside the library.

pub mod bytes;
pub mod codec;
pub mod hashing;
pub mod store;
pub mod keyed;
pub mod mail;
pub mod user;
pub mod plan;
pub mod setting;
pub mod topic;
pub mod auth;
pub mod identity;
pub mod vote;
pub mod laws;
