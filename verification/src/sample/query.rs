//! Queries in a sample.
use vstd::prelude::*;

use super::address::Address;
use super::payload::PayloadInput;

verus! {

/// A query sent to an actor.
#[derive(Debug, PartialEq)]
pub struct Query {
    pub actor: Address,
    pub payload: PayloadInput,
}

} // verus!
