use vstd::prelude::*;

verus! {

/// Every failure that the library reports to its caller.
#[derive(Debug, Clone, Copy, PartialEq, Eq, Structural)]
pub enum TotpError {
    /// The secret is not valid Base32, or decodes to no bytes.
    Decode,
    /// The digit count or the period is out of range.
    Config,
    /// The `otpauth://` URI names another mode than `totp`.
    UnsupportedMode,
    /// The `otpauth://` URI has no `secret` parameter.
    MissingSecret,
    /// A `digits` or `period` parameter is not a small positive integer.
    MalformedParameter,
    /// The text is not a well-formed `otpauth://` URI, or its label is empty.
    MalformedUri,
    /// The name is already taken.
    DuplicateName,
    /// No credential has that name.
    NotFound,
    /// A stored registry is present but cannot be read back.
    CorruptStore,
}

} // verus!
