//! Credential and session authority: issues, verifies and revokes bearer
//! sessions, enforces double-submit CSRF protection, and manages the signed,
//! time-boxed claims used for signup and password reset.
pub mod ascii;
pub mod auth;
pub mod b64;
pub mod claims;
pub mod csrf;
pub mod decimal;
pub mod error;
pub mod flows;
pub mod jsonstr;
pub mod laws;
pub mod mail;
pub mod pipeline;
pub mod registry;
pub mod signer;
pub mod signup;
pub mod skippy;
pub mod store;
pub mod token;
pub mod uuidfmt;
