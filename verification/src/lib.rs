//! Authentication and session identity: password hashing, bearer-token
//! validation against a published key set, sealed session cookies, and the
//! guard that write paths depend on.
//!
//! Every function states what it returns over a mathematical model of its
//! arguments, and is proved to meet that statement. The library does no I/O
//! and reads no clock: the time, fresh randomness and what a fetch of the key
//! set brought are handed in by the caller.
//!
//! - [`auth`]: password digests, derived and checked with Argon2.
//! - [`token`]: bearer tokens, taken apart and validated.
//! - [`keyset`]: the published keys and the cache that decides when to fetch
//!   them again, one fetch at a time.
//! - [`session`]: the principal sealed into a cookie value.
//! - [`gate`]: the one decision that protected operations depend on.
//! - [`errors`]: the kinds of failure and what is shown of them.
//! - [`config`]: the process-wide configuration.
//! - [`base64url`], [`json`], [`json_object`]: the encodings that tokens and
//!   cookies are written in.
//! - [`canonical`]: the proof of what validation answers to every plainly
//!   written token.
//! - [`routes`], [`post`]: what the request handlers decide around storage.

pub mod auth;
pub mod base64url;
pub mod canonical;
pub mod config;
pub mod errors;
pub mod gate;
pub mod json;
pub mod json_object;
pub mod keyset;
pub mod post;
pub mod principal;
pub mod routes;
pub mod session;
pub mod signature;
pub mod token;
