//! Fixtures of a sample.
use vstd::prelude::*;

use super::message::Message;
use super::step::Step;

verus! {

/// One fixture or several.
#[derive(Debug, PartialEq)]
pub enum FixtureInput {
    Fixture(Fixture),
    Fixtures(Vec<Fixture>),
}

/// The fixtures that a `FixtureInput` stands for.
pub open spec fn fixture_input_seq(input: FixtureInput) -> Seq<Fixture> {
    match input {
        FixtureInput::Fixture(f) => seq![f],
        FixtureInput::Fixtures(v) => v@,
    }
}

impl FixtureInput {
    /// The fixtures as a list: one fixture becomes a list of one.
    pub fn into_vec(self) -> (r: Vec<Fixture>)
        ensures
            r@ == fixture_input_seq(self),
    {
        match self {
            FixtureInput::Fixture(f) => vec![f],
            FixtureInput::Fixtures(v) => v,
        }
    }
}

/// A fixture: an optional name, the messages that initialize the programs,
/// and the steps.
#[derive(Debug, PartialEq)]
pub struct Fixture {
    pub name: Option<String>,
    pub inits: Option<Vec<Message>>,
    pub steps: Vec<Step>,
}

} // verus!
