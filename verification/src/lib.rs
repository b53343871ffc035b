//! One-time-password generation and verification: the HOTP algorithm over a
//! keyed HMAC, and the TOTP variant that derives the counter from wall-clock
//! time with a symmetric skew window.

use vstd::prelude::*;

pub mod digits;
pub mod hotp;
pub mod totp;

pub use hotp::Hotp;
pub use totp::TOTP;

verus! {

/// Hash function selecting the underlying HMAC primitive.
pub enum Algorithm {
    /// SHA-1, the historical default; kept for compatibility with legacy
    /// authenticator implementations.
    SHA1,
    /// SHA-256.
    SHA256,
    /// SHA-512.
    SHA512,
}

impl Default for Algorithm {
    fn default() -> (r: Self)
        ensures
            r == Algorithm::SHA1,
    {
        Algorithm::SHA1
    }
}

} // verus!
