#![allow(non_snake_case)]

use dht::finger::Endpoint;
use dht::node::Node;
use dht::proto::{
    create_udp_message, encode_frame, encode_request, parse_reply, Operation, Reply, Request,
    Status,
};

fn new_node() -> Node {
    let addr = Endpoint { text: b"127.0.0.1:8080".to_vec() };
    Node::new(addr, Vec::new(), 0, 32, 8, 4242).unwrap()
}

fn send_request(node: &mut Node, operation: u32, key: Option<Vec<u8>>, value: Option<Vec<u8>>) -> Reply {
    let request = Request { operation, key, value };
    let payload = encode_request(&request);
    let frame = create_udp_message(payload, &b"127.0.0.1".to_vec(), 9000).unwrap();
    let reply_bytes = node.handle_datagram(encode_frame(&frame)).unwrap();
    parse_reply(&reply_bytes).unwrap()
}

fn bytes_of(len: usize, fill: u8) -> Vec<u8> {
    vec![fill; len]
}

#[test]
fn test01_Ping_Success() {
    let mut node = new_node();
    let reply = send_request(&mut node, Operation::Ping.code(), None, None);
    assert_eq!(reply.status, Status::Success.code());
}

#[test]
fn test02_Put_Get_Success() {
    let mut node = new_node();
    let key = bytes_of(64, 0x6b);
    let value = bytes_of(64, 0x76);

    let reply = send_request(&mut node, Operation::Put.code(), Some(key.clone()), Some(value.clone()));
    assert_eq!(reply.status, Status::Success.code());

    let reply = send_request(&mut node, Operation::Get.code(), Some(key), None);
    assert_eq!(reply.status, Status::Success.code());
    let retrieved = reply.value.expect("GET failed. No value present");
    assert_eq!(retrieved, value);
}

#[test]
fn put_get_round_trips_the_exact_bytes() {
    let mut node = new_node();
    let key: Vec<u8> = vec![0x6b, 0x65, 0x79];
    let value: Vec<u8> = vec![0x76, 0x61, 0x6c, 0x75, 0x65];
    let reply = send_request(&mut node, Operation::Put.code(), Some(key.clone()), Some(value.clone()));
    assert_eq!(reply.status, Status::Success.code());
    let reply = send_request(&mut node, Operation::Get.code(), Some(key), None);
    assert_eq!(reply.status, Status::Success.code());
    assert_eq!(reply.value, Some(value));
}

#[test]
fn test03_Put_MissingKey() {
    let mut node = new_node();
    let value = bytes_of(64, 0x01);
    let reply = send_request(&mut node, Operation::Put.code(), None, Some(value));
    assert_eq!(reply.status, Status::MissingKey.code());
}

#[test]
fn test04_Put_MissingValue() {
    let mut node = new_node();
    let key = bytes_of(64, 0x02);
    let reply = send_request(&mut node, Operation::Put.code(), Some(key), None);
    assert_eq!(reply.status, Status::MissingValue.code());
}

#[test]
fn test05_Get_MissingKey() {
    let mut node = new_node();
    let reply = send_request(&mut node, Operation::Get.code(), None, None);
    assert_eq!(reply.status, Status::MissingKey.code());
}

#[test]
fn test06_Get_KeyNotFound() {
    let mut node = new_node();
    let key = bytes_of(64, 0x03);
    let reply = send_request(&mut node, Operation::Get.code(), Some(key), None);
    assert_eq!(reply.status, Status::KeyNotFound.code());
}

#[test]
fn test07_Delete_MissingKey() {
    let mut node = new_node();
    let reply = send_request(&mut node, Operation::Delete.code(), None, None);
    assert_eq!(reply.status, Status::MissingKey.code());
}

#[test]
fn test08_Put_Get_Wipe_Get_KeyNotFound() {
    let mut node = new_node();
    let key = bytes_of(10, 0x04);
    let value = bytes_of(10, 0x05);

    let reply = send_request(&mut node, Operation::Put.code(), Some(key.clone()), Some(value.clone()));
    assert_eq!(reply.status, Status::Success.code());

    let reply = send_request(&mut node, Operation::Get.code(), Some(key.clone()), None);
    assert_eq!(reply.status, Status::Success.code());
    let retrieved = reply.value.expect("GET failed. No value present");
    assert_eq!(retrieved, value);

    let reply = send_request(&mut node, Operation::Wipe.code(), None, None);
    assert_eq!(reply.status, Status::Success.code());

    let reply = send_request(&mut node, Operation::Get.code(), Some(key), None);
    assert_eq!(reply.status, Status::KeyNotFound.code());
}

#[test]
fn test09_Put_Get_Delete_Get_KeyNotFound() {
    let mut node = new_node();
    let key = bytes_of(64, 0x06);
    let value = bytes_of(64, 0x07);

    let reply = send_request(&mut node, Operation::Put.code(), Some(key.clone()), Some(value.clone()));
    assert_eq!(reply.status, Status::Success.code());

    let reply = send_request(&mut node, Operation::Get.code(), Some(key.clone()), None);
    assert_eq!(reply.status, Status::Success.code());
    let retrieved = reply.value.expect("GET failed. No value present");
    assert_eq!(retrieved, value);

    let reply = send_request(&mut node, Operation::Delete.code(), Some(key.clone()), None);
    assert_eq!(reply.status, Status::Success.code());
    let deleted = reply.value.expect("DELETE failed. No value present");
    assert_eq!(deleted, value);

    let reply = send_request(&mut node, Operation::Get.code(), Some(key), None);
    assert_eq!(reply.status, Status::KeyNotFound.code());
}
