use vstd::prelude::*;
use crate::error::TotpError;
use crate::otp::{base32_decoded, compute_hotp, compute_totp, decode_base32, hotp_spec, totp_spec, valid_digits};

verus! {

/// A stored secret profile: a Base32 secret, the code length and the
/// TOTP step in seconds.
#[derive(Debug)]
pub struct Credential {
    pub secret: String,
    pub digits: u32,
    pub period: u32,
}

/// The plain values of a credential.
pub struct CredentialView {
    pub secret: Seq<char>,
    pub digits: u32,
    pub period: u32,
}

impl View for Credential {
    type V = CredentialView;

    open spec fn view(&self) -> CredentialView {
        CredentialView { secret: self.secret@, digits: self.digits, period: self.period }
    }
}

/// Why a credential cannot give codes, if it cannot: a secret that is not
/// Base32 or decodes to nothing, a digit count out of range, a zero period.
pub open spec fn credential_error(c: CredentialView) -> Option<TotpError> {
    match base32_decoded(c.secret) {
        None => Some(TotpError::Decode),
        Some(key) => if key.len() == 0 {
            Some(TotpError::Decode)
        } else if !valid_digits(c.digits) {
            Some(TotpError::Config)
        } else if c.period == 0 {
            Some(TotpError::Config)
        } else {
            None
        },
    }
}

impl Credential {
    /// Checks that this credential can give codes.
    pub fn validate(&self) -> (r: Result<(), TotpError>)
        ensures
            match credential_error(self@) {
                None => r is Ok,
                Some(e) => r == Err::<(), TotpError>(e),
            },
    {
        match decode_base32(self.secret.as_str()) {
            None => Err(TotpError::Decode),
            Some(key) => if key.len() == 0 {
                Err(TotpError::Decode)
            } else if self.digits < 1 || self.digits > 9 {
                Err(TotpError::Config)
            } else if self.period == 0 {
                Err(TotpError::Config)
            } else {
                Ok(())
            },
        }
    }

    /// A credential with the given fields.
    pub fn new(secret: String, digits: u32, period: u32) -> (r: Credential)
        ensures
            r@ == (CredentialView { secret: secret@, digits, period }),
    {
        Credential { secret, digits, period }
    }

    /// A copy with the same secret, digit count and period.
    pub fn duplicate(&self) -> (r: Credential)
        ensures
            r@ == self@,
    {
        Credential { secret: self.secret.clone(), digits: self.digits, period: self.period }
    }

    /// The HOTP code of this credential at `counter`.
    pub fn get_hotp(&self, counter: u64) -> (r: Result<String, TotpError>)
        ensures
            match r {
                Ok(s) => hotp_spec(self.secret@, counter, self.digits) == Ok::<Seq<char>, TotpError>(s@),
                Err(e) => hotp_spec(self.secret@, counter, self.digits) == Err::<Seq<char>, TotpError>(e),
            },
    {
        compute_hotp(self.secret.as_str(), counter, self.digits)
    }

    /// The TOTP code of this credential at Unix time `now`.
    pub fn get_totp(&self, now: u64) -> (r: Result<String, TotpError>)
        ensures
            match r {
                Ok(s) => totp_spec(self.secret@, self.digits, self.period as u64, now) == Ok::<
                    Seq<char>,
                    TotpError,
                >(s@),
                Err(e) => totp_spec(self.secret@, self.digits, self.period as u64, now) == Err::<
                    Seq<char>,
                    TotpError,
                >(e),
            },
    {
        compute_totp(self.secret.as_str(), self.digits, self.period as u64, now)
    }
}

} // verus!
