//! Declarations of the `evalexpr` types this crate's signatures
//! carry.  Verus treats values of them as opaque.

use vstd::prelude::*;

verus! {

#[verifier::external_type_specification]
#[verifier::external_body]
pub struct ExNode(evalexpr::Node);

#[verifier::external_type_specification]
#[verifier::external_body]
pub struct ExHashMapContext(evalexpr::HashMapContext);

#[verifier::external_type_specification]
#[verifier::external_body]
pub struct ExEvalValue(evalexpr::Value);

} // verus!
