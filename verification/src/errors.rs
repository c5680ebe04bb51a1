use vstd::prelude::*;

verus! {

/// Every failure the pipeline can report. A decode or parse failure aborts
/// the whole containing batch; a value that merely does not mean "revoked"
/// is skipped silently and is not an error.
#[derive(Clone, Copy, Debug, PartialEq, Eq, Structural)]
pub enum Error {
    /// The buffer ends before the encoding it announces.
    KeyTooShort,
    /// The indefinite-length BER form (length byte 0x80) is not supported.
    UnsupportedIndefiniteLength,
    /// A long-form length that should have used a shorter, canonical form.
    BadDerLength,
    /// A length-of-length of three bytes or more is not supported.
    KeyTooLong,
    /// A DER distinguished name could not be parsed.
    NameParseFailure,
    /// The embedded store could not be read.
    StoreAccessFailure,
    /// A tabular-feed serial number is not a valid hex string.
    BadSerialHex,
}

} // verus!
