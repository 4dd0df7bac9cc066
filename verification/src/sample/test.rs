//! A sample test.
use vstd::prelude::*;

use super::actor::Actor;
use super::fixture::Fixture;

verus! {

/// A test as a file describes it.
#[derive(Debug, PartialEq)]
pub struct Test {
    pub title: String,
    pub purpose: Option<String>,
    pub description: Option<String>,
    pub actors: Vec<Actor>,
    pub fixtures: Vec<Fixture>,
}

} // verus!
