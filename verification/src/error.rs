//! The failure signal that attribute visitors hand back.

use vstd::prelude::*;

verus! {

/// Why a visitor gave up on an attribute.
///
/// The tables never look inside this value: whatever a visitor returns is
/// handed to the caller unchanged.
#[derive(Clone, Copy, Debug, PartialEq, Eq, Structural)]
pub enum Error {
    /// A length did not fit the buffer or the protocol limit.
    InvalidLength,
    /// A value was outside of what the protocol allows.
    InvalidValue,
    /// The buffer ended before the data did.
    Eof,
    /// Data was left over after parsing.
    IncompleteParse,
}

} // verus!
