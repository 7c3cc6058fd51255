//! An encrypted single-user credential vault: the `aidb` file format, its
//! cipher and password check, the decrypted-record cache, and the session
//! and rate-limit rules that gate access to it.
use vstd::prelude::*;

pub mod cipher;
pub mod codec;
pub mod record;
pub mod store;
pub mod token;
pub mod session;
pub mod limiter;
pub mod auth;
pub mod service;
pub mod http;
pub mod config;
pub mod keepass;

verus! {

} // verus!
