//! Steps of a sample fixture.
use vstd::prelude::*;

use super::allocation::Allocation;
use super::memory::Memory;
use super::message::Message;
use super::query::Query;

verus! {

/// One step or several.
#[derive(Debug, PartialEq)]
pub enum StepInput {
    Step(Step),
    Steps(Vec<Step>),
}

/// The steps that a `StepInput` stands for.
pub open spec fn step_input_seq(input: StepInput) -> Seq<Step> {
    match input {
        StepInput::Step(s) => seq![s],
        StepInput::Steps(v) => v@,
    }
}

impl StepInput {
    /// The steps as a list: one step becomes a list of one.
    pub fn into_vec(self) -> (r: Vec<Step>)
        ensures
            r@ == step_input_seq(self),
    {
        match self {
            StepInput::Step(s) => vec![s],
            StepInput::Steps(v) => v,
        }
    }
}

/// A step: its number (none for the final step), and what it sends and
/// expects.
#[derive(Debug, PartialEq)]
pub struct Step {
    pub number: Option<u8>,
    pub immortal: Option<bool>,
    pub messages: Option<Vec<Message>>,
    pub memory: Option<Vec<Memory>>,
    pub allocations: Option<Vec<Allocation>>,
    pub waitlist: Option<Vec<Message>>,
    pub query: Option<Vec<Query>>,
    pub mailbox: Option<Vec<Message>>,
}

} // verus!
