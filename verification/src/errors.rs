//! The errors the document facade surfaces to its caller.

use vstd::prelude::*;
use crate::convert::ConvError;

verus! {

/// Every facade operation reports its failure synchronously through this
/// type. Conversion failures are recoverable and leave the document
/// unchanged; an apply failure means the merge engine rejected a change; a
/// deserialization failure means a snapshot or change byte sequence is
/// malformed.
#[derive(Clone, Copy, PartialEq, Eq, Structural, Debug)]
pub enum DocError {
    /// A host value matches no supported kind.
    UnsupportedValueType,
    /// A mapping carries a key that is not a string.
    UnsupportedKeyType,
    /// The merge engine rejected a local or remote change.
    ApplyError,
    /// A supplied snapshot or change byte sequence is malformed.
    DeserializationError,
}

/// The facade's error for a conversion failure.
pub open spec fn doc_error_of_conv(e: ConvError) -> DocError {
    match e {
        ConvError::UnsupportedKeyType => DocError::UnsupportedKeyType,
        ConvError::UnsupportedValueType => DocError::UnsupportedValueType,
    }
}

/// Maps a conversion failure onto the facade's error type.
pub fn conv_to_doc_error(e: ConvError) -> (r: DocError)
    ensures
        r == doc_error_of_conv(e),
{
    match e {
        ConvError::UnsupportedKeyType => DocError::UnsupportedKeyType,
        ConvError::UnsupportedValueType => DocError::UnsupportedValueType,
    }
}

} // verus!
