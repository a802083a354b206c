//! One-time password generation (HOTP and TOTP) and a registry of named
//! credentials, with `otpauth://` import.
pub mod error;
pub mod otp;
pub mod credential;
pub mod uri;
pub mod registry;
pub mod operations;
