//! Actors of a sample: programs and users.
use vstd::prelude::*;

use super::address::{ChainAddress, Keyword};
use super::message::Message;

verus! {

/// Path to a program's binary.
pub type BinaryPath = String;

/// One actor or several.
#[derive(Debug, PartialEq)]
pub enum ActorInput {
    Actor(Actor),
    Actors(Vec<Actor>),
}

/// The actors that an `ActorInput` stands for.
pub open spec fn actor_input_seq(input: ActorInput) -> Seq<Actor> {
    match input {
        ActorInput::Actor(a) => seq![a],
        ActorInput::Actors(v) => v@,
    }
}

impl ActorInput {
    /// The actors as a list: one actor becomes a list of one.
    pub fn into_vec(self) -> (r: Vec<Actor>)
        ensures
            r@ == actor_input_seq(self),
    {
        match self {
            ActorInput::Actor(a) => vec![a],
            ActorInput::Actors(v) => v,
        }
    }
}

/// An actor: a program to upload, or a user.
#[derive(Debug, PartialEq)]
pub enum Actor {
    Program(Program),
    User(User),
}

/// A program: its binary, and the message that initializes it.
#[derive(Debug, PartialEq)]
pub struct Program {
    pub bind: Option<Keyword>,
    pub address: ChainAddress,
    pub binary: BinaryPath,
    pub message: Option<Message>,
}

/// A user.
#[derive(Debug, PartialEq)]
pub struct User {
    pub bind: Option<Keyword>,
    pub address: ChainAddress,
}

/// The keyword an actor is bound to, if any.
pub open spec fn actor_bind(a: Actor) -> Option<Keyword> {
    match a {
        Actor::Program(p) => p.bind,
        Actor::User(u) => u.bind,
    }
}

/// The chain address of an actor.
pub open spec fn actor_address(a: Actor) -> ChainAddress {
    match a {
        Actor::Program(p) => p.address,
        Actor::User(u) => u.address,
    }
}

impl Actor {
    /// The keyword the actor is bound to (if any) and its chain address.
    pub fn get_bind(&self) -> (r: (Option<Keyword>, ChainAddress))
        ensures
            r.1 == actor_address(*self),
            match actor_bind(*self) {
                Some(k) => r.0 matches Some(k2) && k2@ == k@,
                None => r.0 is None,
            },
    {
        let (bind, address) = match self {
            Actor::Program(p) => (&p.bind, p.address),
            Actor::User(u) => (&u.bind, u.address),
        };
        let keyword = match bind {
            Some(k) => Some(k.clone()),
            None => None,
        };
        (keyword, address)
    }
}

} // verus!
