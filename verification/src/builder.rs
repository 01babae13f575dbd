//! Turning a validated document into the contract.
use vstd::prelude::*;
use crate::ast::Contract;
use crate::validator::ValidatedDocument;

verus! {

/// The contract of a validated document: the same meta map, formulas,
/// invariants and operations.
pub fn build_contract(document: ValidatedDocument) -> (c: Contract)
    ensures
        c@ == document@,
{
    Contract {
        meta: document.meta,
        formulas: document.formulas,
        invariants: document.invariants,
        pipeline: document.pipeline,
    }
}

} // verus!
