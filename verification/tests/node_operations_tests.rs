#![allow(non_snake_case)]

use dht::finger::Endpoint;
use dht::node::Node;
use dht::proto::{
    create_udp_message, encode_frame, encode_request, parse_reply, Operation, Reply, Request,
    Status,
};

const KEY_VALUE_SIZE_BYTES: usize = 64;

fn new_node() -> Node {
    let addr = Endpoint { text: b"127.0.0.1:8080".to_vec() };
    Node::new(addr, Vec::new(), 0, 32, 8, 31337).unwrap()
}

fn send_request(node: &mut Node, operation: u32, key: Option<Vec<u8>>, value: Option<Vec<u8>>) -> Reply {
    let request = Request { operation, key, value };
    let payload = encode_request(&request);
    let frame = create_udp_message(payload, &b"127.0.0.1".to_vec(), 9001).unwrap();
    let reply_bytes = node.handle_datagram(encode_frame(&frame)).unwrap();
    parse_reply(&reply_bytes).unwrap()
}

fn get_bytes(len: usize) -> Vec<u8> {
    (0..len).map(|i| (i % 251) as u8).collect()
}

#[test]
fn GetPid_Success() {
    let mut node = new_node();
    let reply = send_request(&mut node, Operation::GetPid.code(), None, None);
    assert_eq!(reply.status, Status::Success.code());
    assert_eq!(reply.pid, Some(31337));
}

#[test]
fn Put_InvalidValueSize() {
    // The largest accepted value payload is 10 KiB.
    const VALUE_SIZE_BYTES: usize = 11 * 1024;
    let mut node = new_node();
    let key = get_bytes(KEY_VALUE_SIZE_BYTES);
    let value = get_bytes(VALUE_SIZE_BYTES);
    let reply = send_request(&mut node, Operation::Put.code(), Some(key), Some(value));
    assert_eq!(reply.status, Status::InvalidValueSize.code());
}

#[test]
fn Put_MissingKey() {
    let mut node = new_node();
    let value = get_bytes(KEY_VALUE_SIZE_BYTES);
    let reply = send_request(&mut node, Operation::Put.code(), None, Some(value));
    assert_eq!(reply.status, Status::MissingKey.code());
}

#[test]
fn Put_MissingValue() {
    let mut node = new_node();
    let key = get_bytes(KEY_VALUE_SIZE_BYTES);
    let reply = send_request(&mut node, Operation::Put.code(), Some(key), None);
    assert_eq!(reply.status, Status::MissingValue.code());
}

#[test]
fn Get_MissingKey() {
    let mut node = new_node();
    let reply = send_request(&mut node, Operation::Get.code(), None, None);
    assert_eq!(reply.status, Status::MissingKey.code());
}

#[test]
fn Get_KeyNotFound() {
    let mut node = new_node();
    let key = get_bytes(KEY_VALUE_SIZE_BYTES);
    let reply = send_request(&mut node, Operation::Get.code(), Some(key), None);
    assert_eq!(reply.status, Status::KeyNotFound.code());
}

#[test]
fn Delete_MissingKey() {
    let mut node = new_node();
    let reply = send_request(&mut node, Operation::Delete.code(), None, None);
    assert_eq!(reply.status, Status::MissingKey.code());
}

#[test]
fn Put_Get_Wipe_Get_KeyNotFound() {
    let mut node = new_node();
    let key = get_bytes(KEY_VALUE_SIZE_BYTES);
    let value = get_bytes(KEY_VALUE_SIZE_BYTES);

    let reply = send_request(&mut node, Operation::Put.code(), Some(key.clone()), Some(value.clone()));
    assert_eq!(reply.status, Status::Success.code());

    let reply = send_request(&mut node, Operation::Get.code(), Some(key.clone()), None);
    assert_eq!(reply.status, Status::Success.code());
    let retrieved = reply.value.expect("GET failed. No value present");
    assert_eq!(retrieved, value);

    let reply = send_request(&mut node, Operation::Wipe.code(), None, None);
    assert_eq!(reply.status, Status::Success.code());

    let reply = send_request(&mut node, Operation::Get.code(), Some(key), None);
    assert_eq!(reply.status, Status::KeyNotFound.code());
}

#[test]
fn Put_Get_Delete_Get_KeyNotFound() {
    let mut node = new_node();
    let key = get_bytes(KEY_VALUE_SIZE_BYTES);
    let value = get_bytes(KEY_VALUE_SIZE_BYTES);

    let reply = send_request(&mut node, Operation::Put.code(), Some(key.clone()), Some(value.clone()));
    assert_eq!(reply.status, Status::Success.code());

    let reply = send_request(&mut node, Operation::Get.code(), Some(key.clone()), None);
    assert_eq!(reply.status, Status::Success.code());
    let retrieved = reply.value.expect("GET failed. No value present");
    assert_eq!(retrieved, value);

    let reply = send_request(&mut node, Operation::Delete.code(), Some(key.clone()), None);
    assert_eq!(reply.status, Status::Success.code());
    let deleted = reply.value.expect("DELETE failed. No value present");
    assert_eq!(deleted, value);

    let reply = send_request(&mut node, Operation::Get.code(), Some(key), None);
    assert_eq!(reply.status, Status::KeyNotFound.code());
}

#[test]
fn Put_Get_Delete_Delete_KeyNotFound() {
    let mut node = new_node();
    let key = get_bytes(KEY_VALUE_SIZE_BYTES);
    let value = get_bytes(KEY_VALUE_SIZE_BYTES);

    let reply = send_request(&mut node, Operation::Put.code(), Some(key.clone()), Some(value.clone()));
    assert_eq!(reply.status, Status::Success.code());

    let reply = send_request(&mut node, Operation::Get.code(), Some(key.clone()), None);
    assert_eq!(reply.status, Status::Success.code());
    let retrieved = reply.value.expect("GET failed. No value present");
    assert_eq!(retrieved, value);

    let reply = send_request(&mut node, Operation::Delete.code(), Some(key.clone()), None);
    assert_eq!(reply.status, Status::Success.code());
    let deleted = reply.value.expect("DELETE failed. No value present");
    assert_eq!(deleted, value);

    let reply = send_request(&mut node, Operation::Delete.code(), Some(key), None);
    assert_eq!(reply.status, Status::KeyNotFound.code());
}

#[test]
fn Put_Delete_Get_KeyNotFound() {
    let mut node = new_node();
    let key = get_bytes(KEY_VALUE_SIZE_BYTES);
    let value = get_bytes(KEY_VALUE_SIZE_BYTES);

    let reply = send_request(&mut node, Operation::Put.code(), Some(key.clone()), Some(value.clone()));
    assert_eq!(reply.status, Status::Success.code());

    let reply = send_request(&mut node, Operation::Delete.code(), Some(key.clone()), None);
    assert_eq!(reply.status, Status::Success.code());
    let deleted = reply.value.expect("DELETE failed. No value present");
    assert_eq!(deleted, value);

    let reply = send_request(&mut node, Operation::Get.code(), Some(key), None);
    assert_eq!(reply.status, Status::KeyNotFound.code());
}

#[test]
fn Undefined_Operation() {
    let mut node = new_node();
    let reply = send_request(&mut node, u32::MAX, None, None);
    assert_eq!(reply.status, Status::UndefinedOperation.code());
}
