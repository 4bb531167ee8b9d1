use vstd::prelude::*;

verus! {

/// Why a row failed to decode.
///
/// All three conditions are unrecoverable at this layer and propagate to the
/// caller, which decides whether to resynchronize or close the connection.
#[derive(Clone, Copy, Debug, PartialEq, Eq, Structural)]
pub enum DecodeError {
    /// The header byte of a binary-protocol row was not `0x00`.
    ProtocolViolation,
    /// A length prefix, the null bitmap, or a value extends past the
    /// available bytes.
    Truncated,
    /// A column wire-type with no known size rule.
    UnsupportedType,
}

} // verus!
