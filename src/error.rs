//! What can go wrong while encoding or decoding.

use vstd::prelude::*;

verus! {

/// The ways an encode or a decode call can fail.
#[derive(Clone, Copy, Debug, PartialEq, Eq, Structural)]
pub enum CodecError {
    /// An exchange, pair, period or other string is absent from the code tables.
    UnknownEnumString,
    /// A value does not fit the width that the wire format gives it.
    EncodeOverflow,
    /// The buffer ends in the middle of a field.
    TruncatedInput,
    /// A decoded side block has a length that is not a multiple of ten.
    InvariantViolation,
    /// A decimal text is not made of digits with at most one decimal point.
    InvalidNumber,
}

} // verus!
