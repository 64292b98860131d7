//! Runtime signature tags.

use vstd::prelude::*;

verus! {

/// Runtime identity of a (result type, argument-tuple type) pair.
///
/// Two tags are equal exactly when both the result token and the argument
/// token agree; the integration layer that produces the tokens must assign
/// equal tokens only to identical runtime types. Tags are compared for
/// equality only, never ordered or hashed.
#[derive(Clone, Copy, PartialEq, Eq, Structural, Debug)]
pub struct SigTag {
    /// Token identifying the result type.
    pub result_ty: u64,
    /// Token identifying the argument-tuple type.
    pub args_ty: u64,
}

impl SigTag {
    /// Build a tag from a result-type token and an argument-tuple token.
    pub fn new(result_ty: u64, args_ty: u64) -> (t: SigTag)
        ensures
            t.result_ty == result_ty,
            t.args_ty == args_ty,
    {
        SigTag { result_ty, args_ty }
    }
}

} // verus!
