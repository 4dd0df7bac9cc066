use gear_test::common::tables::{Notebook, Programs};
use gear_test::common::{Message, WasmProgram};
use gear_test::assoc::Order;
use gear_test::sample::address::keyword_order;
use gear_test::ids::{MessageId, ProgramId};

fn pid(b: u8) -> ProgramId {
    ProgramId { bytes: [b; 32] }
}

#[test]
fn notebook_binds_and_rebinds() {
    let mut nb = Notebook::new();
    assert!(nb.get(&"a".to_string()).is_none());
    nb.insert("a".to_string(), pid(1));
    nb.insert("b".to_string(), pid(2));
    nb.insert("a".to_string(), pid(3));
    assert_eq!(nb.get(&"a".to_string()), Some(pid(3)));
    assert_eq!(nb.get(&"b".to_string()), Some(pid(2)));
    assert_eq!(nb.entries().len(), 2);
}

#[test]
fn notebook_kept_in_keyword_order() {
    let mut nb = Notebook::new();
    nb.insert("prog".to_string(), pid(1));
    nb.insert("alice".to_string(), pid(2));
    nb.insert("pro".to_string(), pid(3));
    nb.insert("Zed".to_string(), pid(4));
    nb.insert("alice".to_string(), pid(5));
    let keys: Vec<&str> = nb.entries().iter().map(|(k, _)| k.as_str()).collect();
    assert_eq!(keys, vec!["Zed", "alice", "pro", "prog"]);
    assert_eq!(nb.get(&"alice".to_string()), Some(pid(5)));
    assert_eq!(keyword_order(&"pro".to_string(), &"prog".to_string()), Order::Before);
    assert_eq!(keyword_order(&"b".to_string(), &"abc".to_string()), Order::After);
    assert_eq!(keyword_order(&"same".to_string(), &"same".to_string()), Order::Same);
}

#[test]
fn programs_table() {
    let mut programs = Programs::new();
    let wasm = |n: u8| WasmProgram { path: format!("{}", n), code: vec![n], init: None };
    programs.insert(pid(1), wasm(1));
    programs.insert(pid(2), wasm(2));
    programs.insert(pid(1), wasm(9));
    assert_eq!(programs.len(), 2);
    assert!(!programs.all_initialized());
    let init = Message {
        id: MessageId { bytes: [5; 32] },
        source: pid(0),
        dest: pid(1),
        payload: vec![],
        gas_limit: 0,
        value: 0,
        reply: None,
    };
    assert!(programs.set_init(&pid(1), init));
    assert!(!programs.all_initialized());
    let init = Message {
        id: MessageId { bytes: [6; 32] },
        source: pid(0),
        dest: pid(7),
        payload: vec![],
        gas_limit: 0,
        value: 0,
        reply: None,
    };
    assert!(!programs.set_init(&pid(7), init));
    let entry = programs.entries().iter().find(|(id, _)| *id == pid(1)).unwrap();
    assert_eq!(entry.1.code, vec![9]);
    assert_eq!(entry.1.init.as_ref().unwrap().id.bytes, [5; 32]);
    assert!(pid(1).same_as(&pid(1)));
    assert!(!pid(1).same_as(&pid(2)));
}

#[test]
fn programs_kept_in_id_order() {
    let mut programs = Programs::new();
    let wasm = |n: u8| WasmProgram { path: format!("{}", n), code: vec![n], init: None };
    let mut late = [0u8; 32];
    late[31] = 1;
    programs.insert(pid(9), wasm(9));
    programs.insert(pid(2), wasm(2));
    programs.insert(ProgramId { bytes: late }, wasm(0));
    programs.insert(pid(5), wasm(5));
    programs.insert(pid(2), wasm(3));
    let ids: Vec<[u8; 32]> = programs.entries().iter().map(|(id, _)| id.bytes).collect();
    assert_eq!(ids, vec![late, [2; 32], [5; 32], [9; 32]]);
    let codes: Vec<Vec<u8>> = programs.into_entries().into_iter().map(|(_, p)| p.code).collect();
    assert_eq!(codes, vec![vec![0], vec![3], vec![5], vec![9]]);
}

#[test]
fn identifier_order() {
    let mut a = [1u8; 32];
    a[4] = 0;
    assert_eq!(pid(1).order_to(&pid(2)), Order::Before);
    assert_eq!(pid(2).order_to(&pid(1)), Order::After);
    assert_eq!(pid(7).order_to(&pid(7)), Order::Same);
    assert_eq!(ProgramId { bytes: a }.order_to(&pid(1)), Order::Before);
    assert_eq!(pid(1).order_to(&ProgramId { bytes: a }), Order::After);
}
