#![allow(non_snake_case)]

use dht::finger::Endpoint;
use dht::node::Node;
use dht::proto::{
    create_udp_message, encode_frame, encode_request, parse_reply, Operation, Reply, Request,
    Status,
};

fn new_node_with_memory(max_mem_mb: u32) -> Node {
    let addr = Endpoint { text: b"127.0.0.1:8080".to_vec() };
    Node::new(addr, Vec::new(), 0, max_mem_mb, 8, 99).unwrap()
}

fn make_datagram(operation: u32, key: Option<Vec<u8>>, value: Option<Vec<u8>>) -> Vec<u8> {
    let request = Request { operation, key, value };
    let payload = encode_request(&request);
    let frame = create_udp_message(payload, &b"127.0.0.1".to_vec(), 9002).unwrap();
    encode_frame(&frame)
}

fn send_request(node: &mut Node, operation: u32, key: Option<Vec<u8>>, value: Option<Vec<u8>>) -> Reply {
    let reply_bytes = node.handle_datagram(make_datagram(operation, key, value)).unwrap();
    parse_reply(&reply_bytes).unwrap()
}

#[test]
fn Ping_Success() {
    let mut node = new_node_with_memory(32);
    let reply = send_request(&mut node, Operation::Ping.code(), None, None);
    assert_eq!(reply.status, Status::Success.code());
}

#[test]
fn Shutdown_Success() {
    let mut node = new_node_with_memory(32);
    assert!(node.is_running());
    let reply = send_request(&mut node, Operation::Shutdown.code(), None, None);
    assert_eq!(reply.status, Status::Success.code());
    assert!(!node.is_running());
}

#[test]
fn test_memory_capacity() {
    const KEY_SIZE: usize = 1024;
    const VALUE_SIZE: usize = 8192;
    let mut node = new_node_with_memory(32);
    let max_bytes: u64 = 32 * 1024 * 1024;

    let mut inserted: u64 = 0;
    let mut count: u64 = 0;
    loop {
        let mut key = vec![0u8; KEY_SIZE];
        key[0] = (count & 0xff) as u8;
        key[1] = ((count >> 8) & 0xff) as u8;
        key[2] = ((count >> 16) & 0xff) as u8;
        let value = vec![0x5au8; VALUE_SIZE];
        let reply = send_request(&mut node, Operation::Put.code(), Some(key), Some(value));
        if reply.status == Status::Success.code() {
            inserted += (KEY_SIZE + VALUE_SIZE) as u64;
            count += 1;
            assert!(inserted <= max_bytes);
        } else {
            assert_eq!(reply.status, Status::OutOfMemory.code());
            // The refused entry would not have fit.
            assert!(inserted + (KEY_SIZE + VALUE_SIZE) as u64 > max_bytes);
            break;
        }
    }
    assert_eq!(node.get_current_memory_usage(), inserted);

    let reply = send_request(&mut node, Operation::Wipe.code(), None, None);
    assert_eq!(reply.status, Status::Success.code());
    assert_eq!(node.get_current_memory_usage(), 0);

    let reply = send_request(
        &mut node,
        Operation::Put.code(),
        Some(vec![1u8; KEY_SIZE]),
        Some(vec![2u8; VALUE_SIZE]),
    );
    assert_eq!(reply.status, Status::Success.code());
}

#[test]
fn store_accounting_tracks_every_mutation() {
    let mut node = new_node_with_memory(1);
    assert_eq!(node.get_current_memory_usage(), 0);

    let reply = send_request(&mut node, Operation::Put.code(), Some(vec![1, 2, 3]), Some(vec![4, 5]));
    assert_eq!(reply.status, Status::Success.code());
    assert_eq!(node.get_current_memory_usage(), 5);

    // Overwriting charges only the difference between the values.
    let reply = send_request(
        &mut node,
        Operation::Put.code(),
        Some(vec![1, 2, 3]),
        Some(vec![6, 7, 8, 9]),
    );
    assert_eq!(reply.status, Status::Success.code());
    assert_eq!(node.get_current_memory_usage(), 7);

    let reply = send_request(&mut node, Operation::Put.code(), Some(vec![9]), Some(vec![9, 9]));
    assert_eq!(reply.status, Status::Success.code());
    assert_eq!(node.get_current_memory_usage(), 10);

    let reply = send_request(&mut node, Operation::Delete.code(), Some(vec![1, 2, 3]), None);
    assert_eq!(reply.status, Status::Success.code());
    assert_eq!(reply.value, Some(vec![6, 7, 8, 9]));
    assert_eq!(node.get_current_memory_usage(), 3);

    let reply = send_request(&mut node, Operation::Wipe.code(), None, None);
    assert_eq!(reply.status, Status::Success.code());
    assert_eq!(node.get_current_memory_usage(), 0);
}

#[test]
fn retransmitted_frame_yields_byte_identical_reply() {
    let mut node = new_node_with_memory(32);
    let key = vec![7u8; 16];
    let value = vec![8u8; 16];

    let reply = send_request(&mut node, Operation::Put.code(), Some(key.clone()), Some(value.clone()));
    assert_eq!(reply.status, Status::Success.code());

    // One delete frame, transmitted twice: the second answer must be
    // served from the reply cache, byte for byte, without deleting
    // anything a second time.
    let delete_frame = make_datagram(Operation::Delete.code(), Some(key.clone()), None);
    let first = node.handle_datagram(delete_frame.clone()).unwrap();
    let first_reply = parse_reply(&first).unwrap();
    assert_eq!(first_reply.status, Status::Success.code());
    assert_eq!(first_reply.value, Some(value.clone()));

    let second = node.handle_datagram(delete_frame).unwrap();
    assert_eq!(second, first);

    // A fresh delete of the same key, under a new frame id, finds
    // nothing: the retransmission did not run the operation again.
    let reply = send_request(&mut node, Operation::Delete.code(), Some(key), None);
    assert_eq!(reply.status, Status::KeyNotFound.code());
}

#[test]
fn corrupted_datagram_is_refused() {
    let mut node = new_node_with_memory(32);
    let mut datagram = make_datagram(Operation::Ping.code(), None, None);
    let last = datagram.len() - 1;
    datagram[last] ^= 0x01;
    let err = node.handle_datagram(datagram).unwrap_err();
    assert_eq!(err, dht::errors::DhtError::InvalidData);
}
