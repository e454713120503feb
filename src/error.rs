use vstd::prelude::*;

verus! {

/// The two ways a conversion can fail.
#[derive(Debug, PartialEq, Eq, Structural, Clone, Copy)]
pub enum ProcessError {
    /// A binary value, at some depth, has no counterpart in the textual tree.
    FromBsonConvertError,
    /// The bson crate could not build a binary value from the textual tree,
    /// or could not write it as bytes.
    FromJsonConvertError,
}

} // verus!
