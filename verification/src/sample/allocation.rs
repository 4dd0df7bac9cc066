//! Expected allocations in a sample.
use vstd::prelude::*;

use super::address::Address;

verus! {

/// An expectation on the pages a program has allocated.
#[derive(Debug, PartialEq)]
pub struct Allocation {
    pub actor: Address,
    pub filter: Option<AllocationFilter>,
    pub kind: AllocationExpectationKind,
}

/// Which pages an expectation speaks of.
#[derive(Debug, Clone, Copy, PartialEq)]
pub enum AllocationFilter {
    Static,
    Dynamic,
}

/// What is expected of the pages.
#[derive(Debug, PartialEq)]
pub enum AllocationExpectationKind {
    PageCount(u64),
    ExactPages(Vec<u32>),
    ContainsPages(Vec<u32>),
}

} // verus!
