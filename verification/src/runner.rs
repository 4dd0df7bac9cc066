//! Running fixtures: what the runner is handed to initialize a program.
use vstd::prelude::*;

use crate::common::{Test, WasmProgram};
use crate::ids::{MessageId, ProgramId};

verus! {

/// The message that initializes a program, as the runner takes it.
#[derive(Debug)]
pub struct ExtMessage {
    pub id: MessageId,
    pub payload: Vec<u8>,
    pub gas_limit: u64,
    pub value: u128,
}

/// What the runner needs to initialize a program: its new identifier, the
/// source of its init message, its code and the init message.
#[derive(Debug)]
pub struct InitializeProgramInfo {
    pub new_program_id: ProgramId,
    pub source_id: ProgramId,
    pub code: Vec<u8>,
    pub message: ExtMessage,
}

/// The initialization of a program from its init message, which fixture
/// construction guarantees.
pub fn init_program_info(program_id: ProgramId, program: WasmProgram) -> (r: InitializeProgramInfo)
    requires
        program.init is Some,
    ensures
        ({
            let m = program.init->0;
            &&& r.new_program_id == program_id
            &&& r.source_id@ == m.source@
            &&& r.code@ == program.code@
            &&& r.message.id@ == m.id@
            &&& r.message.payload@ == m.payload@
            &&& r.message.gas_limit == m.gas_limit
            &&& r.message.value == m.value
        }),
{
    let message = program.init.expect("Checked in fixture generation. Can't fail");
    InitializeProgramInfo {
        new_program_id: program_id,
        source_id: message.source,
        code: program.code,
        message: ExtMessage {
            id: message.id,
            payload: message.payload,
            gas_limit: message.gas_limit,
            value: message.value,
        },
    }
}

/// Checks the outcome of a run; nothing is checked yet.
pub fn check() {
}

/// Runs tests; nothing is run yet.
pub fn process_tests(_tests: Vec<Test>) {
}

/// Runs a test; nothing is run yet.
pub fn process_test(_test: Test) {
}

} // verus!
