//! A builder for symmetric security tokens.
//!
//! Callers register named claims on a [`TokenBuilder`], optionally attach a
//! footer, and then `build` a token with a 32-byte shared key.  The builder
//! merges the claims into one canonical JSON object, frames it together with
//! the footer, and hands the frame to an authenticated-encryption codec.
//! `decode` inverts the process and returns the exact payload bytes.

pub mod claims;
pub mod codec;
pub mod errors;
pub mod json;
pub mod keys;
pub mod registry;
pub mod builder;
pub mod version;

pub use builder::TokenBuilder;
pub use claims::Claim;
pub use claims::ClaimValue;
pub use errors::TokenError;
pub use keys::SharedKey;
pub use version::Local;
pub use version::V2;
