//! Test-fixture construction for Gear programs: the sample description of a
//! test (actors, fixtures, steps, messages) is resolved into messages with
//! identifiers, sources, destinations and replies.
pub mod assoc;
pub mod common;
pub mod ids;
pub mod runner;
pub mod sample;
