//! Resolved messages and programs.
use vstd::prelude::*;

use crate::ids::{MessageId, ProgramId};
use crate::sample::allocation::{AllocationExpectationKind, AllocationFilter};

verus! {

/// A message ready to be sent: identifier, resolved source and
/// destination, payload, gas limit, value, and the message it replies to
/// with its exit code.
#[derive(Debug)]
pub struct Message {
    pub id: MessageId,
    pub source: ProgramId,
    pub dest: ProgramId,
    pub payload: Vec<u8>,
    pub gas_limit: u64,
    pub value: u128,
    pub reply: Option<(MessageId, i32)>,
}

/// A message as a value: identifiers and payload by their bytes.
pub struct MessageView {
    pub id: Seq<u8>,
    pub source: Seq<u8>,
    pub dest: Seq<u8>,
    pub payload: Seq<u8>,
    pub gas_limit: u64,
    pub value: u128,
    pub reply: Option<(Seq<u8>, i32)>,
}

/// The bytes of the message a reply answers, with the exit code.
pub open spec fn reply_view(reply: Option<(MessageId, i32)>) -> Option<(Seq<u8>, i32)> {
    match reply {
        Some((id, code)) => Some((id@, code)),
        None => None,
    }
}

impl View for Message {
    type V = MessageView;

    open spec fn view(&self) -> MessageView {
        MessageView {
            id: self.id@,
            source: self.source@,
            dest: self.dest@,
            payload: self.payload@,
            gas_limit: self.gas_limit,
            value: self.value,
            reply: reply_view(self.reply),
        }
    }
}

/// The views of a list of messages.
pub open spec fn message_views(s: Seq<Message>) -> Seq<MessageView> {
    s.map_values(|m: Message| m@)
}

/// The views of an optional list of messages.
pub open spec fn opt_message_views(o: Option<Vec<Message>>) -> Option<Seq<MessageView>> {
    match o {
        Some(v) => Some(message_views(v@)),
        None => None,
    }
}

/// The view of an optional message.
pub open spec fn opt_message_view(m: Option<Message>) -> Option<MessageView> {
    match m {
        Some(m) => Some(m@),
        None => None,
    }
}

/// A program to upload: the path of its binary, its code, and the message
/// that initializes it.
#[derive(Debug)]
pub struct WasmProgram {
    pub path: String,
    pub code: Vec<u8>,
    pub init: Option<Message>,
}

/// A program as a value.
pub struct WasmProgramView {
    pub path: Seq<char>,
    pub code: Seq<u8>,
    pub init: Option<MessageView>,
}

impl View for WasmProgram {
    type V = WasmProgramView;

    open spec fn view(&self) -> WasmProgramView {
        WasmProgramView { path: self.path@, code: self.code@, init: opt_message_view(self.init) }
    }
}

/// Expected memory contents of a program.
#[derive(Debug)]
pub struct Memory {
    pub program_id: ProgramId,
    pub address: usize,
    pub bytes: Vec<u8>,
}

/// An expectation on the pages a program has allocated.
#[derive(Debug)]
pub struct Allocation {
    pub program_id: ProgramId,
    pub filter: Option<AllocationFilter>,
    pub kind: AllocationExpectationKind,
}

/// A query sent to a program.
#[derive(Debug)]
pub struct Query {
    pub program_id: ProgramId,
    pub payload: Payload,
}

/// The bytes of a message.
pub type Payload = Vec<u8>;

/// The number of a step: the final step, or an ordered one.
#[derive(Clone, Copy, Debug, PartialEq, Eq, Structural)]
pub enum StepNumber {
    Final,
    Ordered(u8),
}

/// A step of a fixture: its number, whether it is immortal, the messages it
/// sends, and what it expects (memory, allocations, wait list, query
/// answers, mailbox).
#[derive(Debug)]
pub struct Step {
    pub number: StepNumber,
    pub immortal: bool,
    pub messages: Option<Vec<Message>>,
    pub memory: Option<Vec<Memory>>,
    pub allocations: Option<Vec<Allocation>>,
    pub waitlist: Option<Vec<Message>>,
    pub query: Option<Vec<Query>>,
    pub mailbox: Option<Vec<Message>>,
}

/// The items of an optional list.
pub open spec fn opt_seq<T>(o: Option<Vec<T>>) -> Option<Seq<T>> {
    match o {
        Some(v) => Some(v@),
        None => None,
    }
}

/// A step as a value.
pub struct StepView {
    pub number: StepNumber,
    pub immortal: bool,
    pub messages: Option<Seq<MessageView>>,
    pub memory: Option<Seq<Memory>>,
    pub allocations: Option<Seq<Allocation>>,
    pub waitlist: Option<Seq<MessageView>>,
    pub query: Option<Seq<Query>>,
    pub mailbox: Option<Seq<MessageView>>,
}

impl View for Step {
    type V = StepView;

    open spec fn view(&self) -> StepView {
        StepView {
            number: self.number,
            immortal: self.immortal,
            messages: opt_message_views(self.messages),
            memory: opt_seq(self.memory),
            allocations: opt_seq(self.allocations),
            waitlist: opt_message_views(self.waitlist),
            query: opt_seq(self.query),
            mailbox: opt_message_views(self.mailbox),
        }
    }
}

/// The views of a list of steps.
pub open spec fn step_views(s: Seq<Step>) -> Seq<StepView> {
    s.map_values(|st: Step| st@)
}

} // verus!
