//! Sample messages.
use vstd::prelude::*;

use super::address::Address;
use super::payload::{payload_copy, PayloadInput};

verus! {

/// One message or several.
#[derive(Debug, PartialEq)]
pub enum MessageInput {
    Message(Message),
    Messages(Vec<Message>),
}

/// One init message or several.
#[derive(Debug, PartialEq)]
pub enum InitMessageInput {
    Init(Message),
    Inits(Vec<Message>),
}

impl MessageInput {
    /// The messages as a list: one message becomes a list of one.
    pub fn into_vec(self) -> (r: Vec<Message>)
        ensures
            r@ == message_input_seq(self),
    {
        match self {
            MessageInput::Message(m) => vec![m],
            MessageInput::Messages(v) => v,
        }
    }
}

/// The messages that a `MessageInput` stands for.
pub open spec fn message_input_seq(input: MessageInput) -> Seq<Message> {
    match input {
        MessageInput::Message(m) => seq![m],
        MessageInput::Messages(v) => v@,
    }
}

impl InitMessageInput {
    /// The init messages as a list: one message becomes a list of one.
    pub fn into_vec(self) -> (r: Vec<Message>)
        ensures
            r@ == init_message_input_seq(self),
    {
        match self {
            InitMessageInput::Init(m) => vec![m],
            InitMessageInput::Inits(v) => v,
        }
    }
}

/// The messages that an `InitMessageInput` stands for.
pub open spec fn init_message_input_seq(input: InitMessageInput) -> Seq<Message> {
    match input {
        InitMessageInput::Init(m) => seq![m],
        InitMessageInput::Inits(v) => v@,
    }
}

/// A message as a sample describes it; every part may be left out.
#[derive(Debug, PartialEq)]
pub struct Message {
    pub id: Option<u64>,
    pub source: Option<Address>,
    pub dest: Option<Address>,
    pub payload: Option<PayloadInput>,
    pub gas_limit: Option<u64>,
    pub value: Option<u128>,
    pub reply_to: Option<u64>,
    pub exit_code: Option<i32>,
}

/// Whether `c` is a copy of `m`: the same in every part, the payload copied
/// (see `payload_copy`).
pub open spec fn is_copy_of(m: Message, c: Message) -> bool {
    &&& c.id == m.id
    &&& c.source == m.source
    &&& c.dest == m.dest
    &&& payload_copy(m.payload, c.payload)
    &&& c.gas_limit == m.gas_limit
    &&& c.value == m.value
    &&& c.reply_to == m.reply_to
    &&& c.exit_code == m.exit_code
}

/// Whether `c` is a copy, item by item, of the optional list `m`.
pub open spec fn is_list_copy_of(m: Option<Seq<Message>>, c: Option<Seq<Message>>) -> bool {
    match (m, c) {
        (None, None) => true,
        (Some(a), Some(b)) => a.len() == b.len() && forall|i: int|
            0 <= i < a.len() ==> #[trigger] is_copy_of(a[i], b[i]),
        _ => false,
    }
}

fn duplicate_address(a: &Option<Address>) -> (r: Option<Address>)
    ensures
        r == *a,
{
    match a {
        Some(a) => Some(a.duplicate()),
        None => None,
    }
}

impl Message {
    /// A copy of the message.
    pub fn duplicate(&self) -> (r: Message)
        ensures
            is_copy_of(*self, r),
    {
        Message {
            id: self.id,
            source: duplicate_address(&self.source),
            dest: duplicate_address(&self.dest),
            payload: match &self.payload {
                Some(p) => Some(p.duplicate()),
                None => None,
            },
            gas_limit: self.gas_limit,
            value: self.value,
            reply_to: self.reply_to,
            exit_code: self.exit_code,
        }
    }
}

/// A copy, message by message, of an optional list of messages.
pub fn duplicate_messages(m: &Option<Vec<Message>>) -> (r: Option<Vec<Message>>)
    ensures
        is_list_copy_of(
            match *m {
                Some(v) => Some(v@),
                None => None,
            },
            match r {
                Some(v) => Some(v@),
                None => None,
            },
        ),
{
    match m {
        None => None,
        Some(v) => {
            let mut out: Vec<Message> = Vec::new();
            let mut i: usize = 0;
            while i < v.len()
                invariant
                    i <= v@.len(),
                    out@.len() == i,
                    forall|j: int| 0 <= j < i ==> #[trigger] is_copy_of(v@[j], out@[j]),
                decreases v@.len() - i,
            {
                out.push(v[i].duplicate());
                i = i + 1;
            }
            Some(out)
        },
    }
}

} // verus!
