use std::collections::BTreeMap;

use gear_test::common::tables::{Notebook, Programs};
use gear_test::common::{
    code_load_error, create_allocation, create_fixture, create_memory, create_payload,
    create_query, create_steps, create_test, Message, StepNumber, WasmProgram,
};
use gear_test::ids::{MessageId, ProgramId};
use gear_test::runner::{check, init_program_info, process_test};
use gear_test::sample::actor::{Actor, ActorInput, Program, User};
use gear_test::sample::address::{Address, ChainAddress};
use gear_test::sample::allocation::{Allocation, AllocationExpectationKind};
use gear_test::sample::fixture::{Fixture as SampleFixture, FixtureInput};
use gear_test::sample::memory::Memory;
use gear_test::sample::message::Message as SampleMessage;
use gear_test::sample::payload::PayloadInput;
use gear_test::sample::query::Query;
use gear_test::sample::step::{Step as SampleStep, StepInput};
use gear_test::sample::test::Test as SampleTest;

fn id_bytes(n: u64) -> [u8; 32] {
    let mut b = [0u8; 32];
    b[..8].copy_from_slice(&n.to_le_bytes());
    b
}

fn to_id(n: u64) -> Option<Address> {
    Some(Address::ChainAddress(ChainAddress::Id(n)))
}

fn msg(dest: Option<Address>) -> SampleMessage {
    SampleMessage {
        id: None,
        source: None,
        dest,
        payload: None,
        gas_limit: None,
        value: None,
        reply_to: None,
        exit_code: None,
    }
}

fn step(number: Option<u8>) -> SampleStep {
    SampleStep {
        number,
        immortal: None,
        messages: None,
        memory: None,
        allocations: None,
        waitlist: None,
        query: None,
        mailbox: None,
    }
}

fn memory() -> Memory {
    Memory { program_id: Address::Bind("a".to_string()), address: 0, bytes: vec![] }
}

#[test]
fn steps_in_order() {
    let nb = Notebook::new();
    let mut msgs = BTreeMap::new();
    let mut nonce = 0u64;
    let mut s2 = step(Some(2));
    s2.immortal = Some(true);
    s2.messages = Some(vec![msg(to_id(1))]);
    let mut last = step(None);
    last.mailbox = Some(vec![msg(to_id(1))]);
    let steps = vec![step(Some(1)), s2, step(Some(2)), last];
    let out = create_steps(steps, &mut nonce, &nb, &mut msgs).unwrap();
    let numbers: Vec<StepNumber> = out.iter().map(|s| s.number).collect();
    assert_eq!(
        numbers,
        vec![StepNumber::Ordered(1), StepNumber::Ordered(2), StepNumber::Ordered(2), StepNumber::Final]
    );
    assert!(out[1].immortal);
    assert!(!out[0].immortal);
    // the messages, the wait list and the mailbox are each built from the
    // step's message list, in that order
    assert_eq!(out[1].messages.as_ref().unwrap()[0].id.bytes, id_bytes(0));
    assert_eq!(out[1].waitlist.as_ref().unwrap()[0].id.bytes, id_bytes(1));
    assert_eq!(out[1].mailbox.as_ref().unwrap()[0].id.bytes, id_bytes(2));
    // a step without messages has no mailbox, whatever its own list holds
    assert!(out[3].mailbox.is_none());
    assert_eq!(nonce, 3);
}

#[test]
fn steps_number_going_down_is_refused() {
    let nb = Notebook::new();
    let mut msgs = BTreeMap::new();
    let mut nonce = 0u64;
    let steps = vec![step(Some(3)), step(Some(2))];
    assert_eq!(create_steps(steps, &mut nonce, &nb, &mut msgs).unwrap_err(), "");
}

#[test]
fn steps_after_final_are_refused() {
    let nb = Notebook::new();
    let mut msgs = BTreeMap::new();
    let mut nonce = 0u64;
    let steps = vec![step(Some(1)), step(None), step(Some(5))];
    assert!(create_steps(steps, &mut nonce, &nb, &mut msgs).is_err());
    let steps = vec![step(None), step(None)];
    assert!(create_steps(steps, &mut nonce, &nb, &mut msgs).is_err());
}

#[test]
fn steps_expectations() {
    let nb = Notebook::new();
    let mut msgs = BTreeMap::new();
    let mut nonce = 0u64;
    let mut s = step(Some(0));
    s.memory = Some(vec![]);
    s.allocations = Some(vec![]);
    s.query = Some(vec![]);
    let out = create_steps(vec![s], &mut nonce, &nb, &mut msgs).unwrap();
    assert_eq!(out[0].memory.as_ref().map(|m| m.len()), Some(0));
    assert_eq!(out[0].query.as_ref().map(|m| m.len()), Some(0));

    let mut s = step(Some(0));
    s.messages = Some(vec![msg(to_id(1))]);
    s.memory = Some(vec![memory()]);
    assert!(create_steps(vec![s], &mut nonce, &nb, &mut msgs).is_err());
    // the step's messages were built before its memory was refused
    assert_eq!(nonce, 1);
}

#[test]
fn unsupported_expectations() {
    assert_eq!(create_memory(memory()).unwrap_err(), "");
    let a = Allocation {
        actor: Address::Bind("a".to_string()),
        filter: None,
        kind: AllocationExpectationKind::PageCount(1),
    };
    assert!(create_allocation(a).is_err());
    assert!(create_payload(PayloadInput::PayloadBytes("00".to_string())).is_err());
    let q = Query { actor: to_id(1).unwrap(), payload: PayloadInput::PayloadBytes(String::new()) };
    assert!(create_query(q).is_err());
}

fn program(n: u64, init: bool) -> (ProgramId, WasmProgram) {
    let init = if init {
        Some(Message {
            id: MessageId { bytes: [0; 32] },
            source: ProgramId { bytes: [0; 32] },
            dest: ProgramId { bytes: id_bytes(n) },
            payload: vec![],
            gas_limit: 1,
            value: 0,
            reply: None,
        })
    } else {
        None
    };
    (
        ProgramId { bytes: id_bytes(n) },
        WasmProgram { path: format!("p{}.wasm", n), code: vec![n as u8], init },
    )
}

#[test]
fn fixture_built() {
    let mut programs = Programs::new();
    let (id, p) = program(1, false);
    programs.insert(id, p);
    let (id, p) = program(2, false);
    programs.insert(id, p);
    let mut init2 = msg(to_id(2));
    init2.id = Some(1);
    let mut last = step(None);
    last.messages = Some(vec![msg(to_id(2))]);
    let s = SampleFixture {
        name: None,
        inits: Some(vec![msg(to_id(1)), init2]),
        steps: vec![step(Some(1)), last],
    };
    let f = create_fixture("main".to_string(), Notebook::new(), programs, s).unwrap();
    assert_eq!(f.name, "main");
    assert_eq!(f.programs.len(), 2);
    for (id, p) in f.programs.entries() {
        // init messages are numbered from the number of programs on
        let init = p.init.as_ref().unwrap();
        assert_eq!(init.dest.bytes, id.bytes);
        if id.bytes == id_bytes(1) {
            assert_eq!(init.id.bytes, id_bytes(2));
        } else {
            assert_eq!(init.id.bytes, id_bytes(3));
        }
    }
    assert_eq!(f.steps.len(), 2);
    assert_eq!(f.steps[1].messages.as_ref().unwrap()[0].id.bytes, id_bytes(4));
    assert_eq!(f.steps[1].waitlist.as_ref().unwrap()[0].id.bytes, id_bytes(5));
    assert_eq!(f.steps[1].mailbox.as_ref().unwrap()[0].id.bytes, id_bytes(6));
    // the registry of the fixture holds what its steps recorded, not its inits
    assert!(f.messages.is_empty());
}

#[test]
fn fixture_name_given() {
    let mut programs = Programs::new();
    let (id, p) = program(1, true);
    programs.insert(id, p);
    let fixture = SampleFixture { name: Some("given".to_string()), inits: None, steps: vec![] };
    let f = create_fixture("main".to_string(), Notebook::new(), programs, fixture).unwrap();
    assert_eq!(f.name, "given");
}

#[test]
fn fixture_init_to_unknown_program_is_refused() {
    let mut programs = Programs::new();
    let (id, p) = program(1, false);
    programs.insert(id, p);
    let fixture = SampleFixture { name: None, inits: Some(vec![msg(to_id(9))]), steps: vec![] };
    assert!(create_fixture("main".to_string(), Notebook::new(), programs, fixture).is_err());
}

#[test]
fn fixture_program_without_init_is_refused() {
    let mut programs = Programs::new();
    let (id, p) = program(1, false);
    programs.insert(id, p);
    let (id, p) = program(2, false);
    programs.insert(id, p);
    let fixture = SampleFixture { name: None, inits: Some(vec![msg(to_id(1))]), steps: vec![] };
    assert!(create_fixture("main".to_string(), Notebook::new(), programs, fixture).is_err());
}

fn sample_test(actors: Vec<Actor>) -> SampleTest {
    SampleTest {
        title: "Title".to_string(),
        purpose: None,
        description: Some("About".to_string()),
        actors,
        fixtures: vec![],
    }
}

#[test]
fn test_built() {
    let mut init = msg(Some(Address::Bind("prog".to_string())));
    init.source = Some(Address::Bind("user".to_string()));
    let actors = vec![
        Actor::User(User { bind: Some("user".to_string()), address: ChainAddress::Id(100) }),
        Actor::Program(Program {
            bind: Some("prog".to_string()),
            address: ChainAddress::Id(1),
            binary: "prog.wasm".to_string(),
            message: Some(init),
        }),
    ];
    let t = create_test(sample_test(actors), vec![None, Some(vec![0, 97, 115, 109])]).unwrap();
    assert_eq!(t.title, "Title");
    assert_eq!(t.purpose, "Undefined");
    assert_eq!(t.description, "About");
    assert_eq!(t.notebook.get(&"user".to_string()).unwrap().bytes, id_bytes(100));
    assert_eq!(t.notebook.get(&"prog".to_string()).unwrap().bytes, id_bytes(1));
    assert_eq!(t.programs.len(), 1);
    let (id, p) = &t.programs.entries()[0];
    assert_eq!(id.bytes, id_bytes(1));
    assert_eq!(p.code, vec![0, 97, 115, 109]);
    let m = p.init.as_ref().unwrap();
    assert_eq!(m.id.bytes, id_bytes(0));
    assert_eq!(m.source.bytes, id_bytes(100));
    assert_eq!(m.dest.bytes, id_bytes(1));
    assert!(t.fixtures.is_empty());
}

#[test]
fn test_missing_code_is_refused() {
    let actors = vec![Actor::Program(Program {
        bind: None,
        address: ChainAddress::Id(1),
        binary: "missing.wasm".to_string(),
        message: None,
    })];
    let e = create_test(sample_test(actors), vec![]).unwrap_err();
    assert_eq!(e, "Unable to load program's code: missing.wasm");
    assert_eq!(code_load_error(&"x".to_string()), "Unable to load program's code: x");
}

#[test]
fn actor_bindings() {
    let a = Actor::User(User { bind: Some("k".to_string()), address: ChainAddress::Id(4) });
    let (k, addr) = a.get_bind();
    assert_eq!(k, Some("k".to_string()));
    assert_eq!(addr, ChainAddress::Id(4));
    assert_eq!(ProgramId::from(ChainAddress::Id(4)).bytes, id_bytes(4));
    assert_eq!(ProgramId::from(ChainAddress::Account([7; 32])).bytes, [7; 32]);
    assert_eq!(ActorInput::Actor(a).into_vec().len(), 1);
    assert_eq!(StepInput::Steps(vec![step(None), step(None)]).into_vec().len(), 2);
    let f = SampleFixture { name: None, inits: None, steps: vec![] };
    assert_eq!(FixtureInput::Fixture(f).into_vec().len(), 1);
}

#[test]
fn initialization_info() {
    let (id, p) = program(3, true);
    let info = init_program_info(id, p);
    assert_eq!(info.new_program_id.bytes, id_bytes(3));
    assert_eq!(info.code, vec![3]);
    assert_eq!(info.message.gas_limit, 1);
    check();
    let t = create_test(sample_test(vec![]), vec![]).unwrap();
    process_test(t);
}
