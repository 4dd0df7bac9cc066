//! The sample description of a test, as a test file states it: actors,
//! fixtures, steps and messages, before any name or identifier is resolved.
pub mod actor;
pub mod address;
pub mod allocation;
pub mod fixture;
pub mod memory;
pub mod message;
pub mod payload;
pub mod query;
pub mod step;
pub mod test;
