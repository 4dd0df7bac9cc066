use std::collections::BTreeMap;

use gear_test::common::tables::Notebook;
use gear_test::common::{create_message, transform, transform_messages, Result};
use gear_test::ids::{MessageId, ProgramId};
use gear_test::sample::address::{Address, ChainAddress};
use gear_test::sample::message::{InitMessageInput, Message as SampleMessage, MessageInput};
use gear_test::sample::payload::PayloadInput;

fn id_bytes(n: u64) -> [u8; 32] {
    let mut b = [0u8; 32];
    b[..8].copy_from_slice(&n.to_le_bytes());
    b
}

fn sample(dest: Option<Address>) -> SampleMessage {
    SampleMessage {
        id: None,
        source: None,
        dest,
        payload: None,
        gas_limit: None,
        value: None,
        reply_to: None,
        exit_code: None,
    }
}

fn to_id(n: u64) -> Option<Address> {
    Some(Address::ChainAddress(ChainAddress::Id(n)))
}

#[test]
fn message_defaults() {
    let nb = Notebook::new();
    let mut msgs: BTreeMap<u64, MessageId> = BTreeMap::new();
    let mut nonce = 5u64;
    let m = create_message(sample(to_id(7)), &mut nonce, &nb, &mut msgs).unwrap();
    assert_eq!(nonce, 6);
    assert_eq!(m.id.bytes, id_bytes(5));
    assert_eq!(m.source.bytes, id_bytes(0));
    assert_eq!(m.dest.bytes, id_bytes(7));
    assert_eq!(m.gas_limit, u64::MAX);
    assert_eq!(m.value, 0);
    assert!(m.payload.is_empty());
    assert!(m.reply.is_none());
    assert!(msgs.is_empty());
}

#[test]
fn message_id_is_not_the_nonce_unchanged() {
    let nb = Notebook::new();
    let mut msgs = BTreeMap::new();
    let mut nonce = 0x0102u64;
    let m = create_message(sample(to_id(1)), &mut nonce, &nb, &mut msgs).unwrap();
    assert_eq!(m.id.bytes[0], 0x02);
    assert_eq!(m.id.bytes[1], 0x01);
    assert!(m.id.bytes[2..].iter().all(|b| *b == 0));
}

#[test]
fn message_account_address() {
    let nb = Notebook::new();
    let mut msgs = BTreeMap::new();
    let mut nonce = 0u64;
    let account = [9u8; 32];
    let mut s = sample(Some(Address::ChainAddress(ChainAddress::Account(account))));
    s.source = to_id(3);
    s.gas_limit = Some(100);
    s.value = Some(42);
    let m = create_message(s, &mut nonce, &nb, &mut msgs).unwrap();
    assert_eq!(m.dest.bytes, account);
    assert_eq!(m.source.bytes, id_bytes(3));
    assert_eq!(m.gas_limit, 100);
    assert_eq!(m.value, 42);
}

#[test]
fn message_without_destination_is_refused() {
    let nb = Notebook::new();
    let mut msgs = BTreeMap::new();
    let mut nonce = 0u64;
    let mut s = sample(None);
    s.id = Some(11);
    let r = create_message(s, &mut nonce, &nb, &mut msgs);
    assert_eq!(r.unwrap_err(), "");
    // the nonce advances and the message is recorded even so
    assert_eq!(nonce, 1);
    assert_eq!(msgs.get(&11).map(|id| id.bytes), Some(id_bytes(0)));
}

#[test]
fn message_keywords() {
    let mut nb = Notebook::new();
    nb.insert("alice".to_string(), ProgramId { bytes: [1u8; 32] });
    let mut msgs = BTreeMap::new();
    let mut nonce = 0u64;
    let mut s = sample(Some(Address::Bind("alice".to_string())));
    s.source = Some(Address::Bind("alice".to_string()));
    let m = create_message(s, &mut nonce, &nb, &mut msgs).unwrap();
    assert_eq!(m.dest.bytes, [1u8; 32]);
    assert_eq!(m.source.bytes, [1u8; 32]);

    let s = sample(Some(Address::Bind("bob".to_string())));
    assert_eq!(create_message(s, &mut nonce, &nb, &mut msgs).unwrap_err(), "");
    let mut s = sample(to_id(1));
    s.source = Some(Address::Bind("bob".to_string()));
    assert_eq!(create_message(s, &mut nonce, &nb, &mut msgs).unwrap_err(), "");
    assert_eq!(nonce, 3);
}

#[test]
fn message_payload_is_refused() {
    let nb = Notebook::new();
    let mut msgs = BTreeMap::new();
    let mut nonce = 0u64;
    let mut s = sample(to_id(1));
    s.payload = Some(PayloadInput::PayloadBytes("0x00".to_string()));
    assert!(create_message(s, &mut nonce, &nb, &mut msgs).is_err());
    let mut s = sample(to_id(1));
    s.payload = Some(PayloadInput::Payload(serde_yaml::Value::Null));
    assert!(create_message(s, &mut nonce, &nb, &mut msgs).is_err());
}

#[test]
fn message_replies() {
    let nb = Notebook::new();
    let mut msgs = BTreeMap::new();
    let mut nonce = 0u64;
    let mut first = sample(to_id(1));
    first.id = Some(7);
    create_message(first, &mut nonce, &nb, &mut msgs).unwrap();

    let mut reply = sample(to_id(1));
    reply.reply_to = Some(7);
    reply.exit_code = Some(-3);
    let m = create_message(reply, &mut nonce, &nb, &mut msgs).unwrap();
    assert_eq!(m.reply.map(|(id, c)| (id.bytes, c)), Some((id_bytes(0), -3)));

    let mut reply = sample(to_id(1));
    reply.reply_to = Some(7);
    let m = create_message(reply, &mut nonce, &nb, &mut msgs).unwrap();
    assert_eq!(m.reply.map(|(_, c)| c), Some(0));

    let mut unknown = sample(to_id(1));
    unknown.reply_to = Some(8);
    assert!(create_message(unknown, &mut nonce, &nb, &mut msgs).is_err());

    let mut code_only = sample(to_id(1));
    code_only.exit_code = Some(1);
    assert!(create_message(code_only, &mut nonce, &nb, &mut msgs).is_err());

    // a message may answer the number it is itself recorded under
    let mut own = sample(to_id(1));
    own.id = Some(20);
    own.reply_to = Some(20);
    let m = create_message(own, &mut nonce, &nb, &mut msgs).unwrap();
    assert_eq!(m.reply.map(|(id, _)| id.bytes), Some(m.id.bytes));
}

#[test]
fn messages_numbered_in_order() {
    let nb = Notebook::new();
    let mut msgs = BTreeMap::new();
    let mut nonce = 10u64;
    let data = vec![sample(to_id(1)), sample(to_id(2)), sample(to_id(3))];
    let out = transform_messages(Some(data), &mut nonce, &nb, &mut msgs).unwrap().unwrap();
    assert_eq!(nonce, 13);
    let ids: Vec<[u8; 32]> = out.iter().map(|m| m.id.bytes).collect();
    assert_eq!(ids, vec![id_bytes(10), id_bytes(11), id_bytes(12)]);
    for i in 0..ids.len() {
        for j in (i + 1)..ids.len() {
            assert_ne!(ids[i], ids[j]);
        }
    }
}

#[test]
fn messages_stop_at_first_refusal() {
    let nb = Notebook::new();
    let mut msgs = BTreeMap::new();
    let mut nonce = 0u64;
    let mut third = sample(to_id(3));
    third.id = Some(1);
    let data = vec![sample(to_id(1)), sample(None), third];
    assert!(transform_messages(Some(data), &mut nonce, &nb, &mut msgs).is_err());
    assert_eq!(nonce, 2);
    assert!(msgs.is_empty());
    assert!(transform_messages(None, &mut nonce, &nb, &mut msgs).unwrap().is_none());
    assert_eq!(nonce, 2);
}

fn halve(x: u32) -> Result<u32> {
    if x % 2 == 0 {
        Ok(x / 2)
    } else {
        Err(format!("odd {}", x))
    }
}

#[test]
fn transform_lists() {
    assert_eq!(transform(None, &halve).unwrap(), None);
    assert_eq!(transform(Some(vec![]), &halve).unwrap(), Some(vec![]));
    assert_eq!(transform(Some(vec![2, 4, 8]), &halve).unwrap(), Some(vec![1, 2, 4]));
    assert_eq!(transform(Some(vec![2, 3, 5]), &halve).unwrap_err(), "odd 3");
}

#[test]
fn transform_joined_lists() {
    let a = vec![2u32, 4];
    let b = vec![6u32, 10];
    let joined = transform(Some([a.clone(), b.clone()].concat()), &halve).unwrap().unwrap();
    let mut parts = transform(Some(a.clone()), &halve).unwrap().unwrap();
    parts.extend(transform(Some(b), &halve).unwrap().unwrap());
    assert_eq!(joined, parts);
    // an error in the second list is the error of the joined list
    let bad = vec![6u32, 7, 9];
    assert_eq!(transform(Some([a, bad].concat()), &halve).unwrap_err(), "odd 7");
}

#[test]
fn message_inputs_as_lists() {
    assert_eq!(MessageInput::Message(sample(None)).into_vec().len(), 1);
    assert_eq!(MessageInput::Messages(vec![sample(None), sample(None)]).into_vec().len(), 2);
    assert_eq!(InitMessageInput::Init(sample(None)).into_vec().len(), 1);
    assert_eq!(InitMessageInput::Inits(vec![]).into_vec().len(), 0);
}
