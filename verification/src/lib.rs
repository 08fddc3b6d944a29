//! Account-identity maintenance for a package registry: profile and update-feed
//! assembly, verified-email address changes, one-time confirmation tokens, and
//! batch synchronization of per-package notification preferences.
//!
//! All state lives in an in-memory [`model::Store`]; every operation is
//! specified against a mathematical view of that store and verified.

pub mod errors;
pub mod laws;
pub mod model;
pub mod prefs;
pub mod profile;
pub mod strutil;
pub mod verify_email;
