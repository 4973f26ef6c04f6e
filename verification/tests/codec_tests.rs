use dht::errors::DhtError;
use dht::proto::{
    calculate_checksum, create_udp_message, encode_frame, encode_reply, encode_request,
    generate_message_id, parse_message, parse_reply, parse_request, validate_checksum, Frame,
    NodeInfo, Operation, Reply, Request, Status,
};

#[test]
fn frame_round_trip_preserves_id_and_payload() {
    let id: Vec<u8> = vec![1, 2, 3, 250, 0, 77];
    let payload: Vec<u8> = vec![9, 8, 7, 6, 5];
    let checksum = calculate_checksum(&id, &payload);
    let frame = Frame { id: id.clone(), payload: payload.clone(), checksum };
    let bytes = encode_frame(&frame);
    let parsed = parse_message(bytes).unwrap();
    assert_eq!(parsed.id, id);
    assert_eq!(parsed.payload, payload);
    assert_eq!(parsed.checksum, checksum);
    assert!(validate_checksum(&parsed).is_ok());
}

#[test]
fn frame_round_trip_with_empty_payload() {
    let id: Vec<u8> = vec![42];
    let payload: Vec<u8> = Vec::new();
    let checksum = calculate_checksum(&id, &payload);
    let frame = Frame { id: id.clone(), payload, checksum };
    let bytes = encode_frame(&frame);
    let parsed = parse_message(bytes).unwrap();
    assert_eq!(parsed.id, id);
    assert_eq!(parsed.payload, Vec::<u8>::new());
    assert!(validate_checksum(&parsed).is_ok());
}

#[test]
fn tampering_with_any_bit_fails_validation() {
    let id: Vec<u8> = vec![0x10, 0x20];
    let payload: Vec<u8> = vec![0xAA, 0x55, 0x00];
    let checksum = calculate_checksum(&id, &payload);

    for byte_index in 0..id.len() {
        for bit in 0..8 {
            let mut tampered = id.clone();
            tampered[byte_index] ^= 1u8 << bit;
            let frame = Frame { id: tampered, payload: payload.clone(), checksum };
            assert!(validate_checksum(&frame).is_err());
        }
    }
    for byte_index in 0..payload.len() {
        for bit in 0..8 {
            let mut tampered = payload.clone();
            tampered[byte_index] ^= 1u8 << bit;
            let frame = Frame { id: id.clone(), payload: tampered, checksum };
            assert!(validate_checksum(&frame).is_err());
        }
    }
}

#[test]
fn checksum_matches_the_published_check_value() {
    // The CRC-32/CKSUM check value for the nine ASCII digits.
    let id: Vec<u8> = b"12345".to_vec();
    let payload: Vec<u8> = b"6789".to_vec();
    assert_eq!(calculate_checksum(&id, &payload), 0x765e7680u64);
}

#[test]
fn garbage_bytes_are_invalid_data() {
    let garbage: Vec<u8> = vec![0xFF, 0xFF, 0xFF];
    assert_eq!(parse_message(garbage).unwrap_err(), DhtError::InvalidData);
    let truncated: Vec<u8> = vec![0x0a, 0x05, 1, 2];
    assert_eq!(parse_message(truncated).unwrap_err(), DhtError::InvalidData);
}

#[test]
fn request_round_trip() {
    let req = Request {
        operation: Operation::Put.code(),
        key: Some(vec![1, 2, 3]),
        value: Some(Vec::new()),
    };
    let bytes = encode_request(&req);
    let parsed = parse_request(&bytes).unwrap();
    assert_eq!(parsed.operation, 0);
    assert_eq!(parsed.key, Some(vec![1, 2, 3]));
    assert_eq!(parsed.value, Some(Vec::new()));

    let req2 = Request { operation: Operation::Ping.code(), key: None, value: None };
    let bytes2 = encode_request(&req2);
    let parsed2 = parse_request(&bytes2).unwrap();
    assert_eq!(parsed2.operation, 4);
    assert_eq!(parsed2.key, None);
    assert_eq!(parsed2.value, None);
}

#[test]
fn reply_round_trip_with_node_info() {
    let reply = Reply {
        status: Status::Success.code(),
        value: Some(vec![5, 6]),
        pid: Some(0),
        node_info: Some(NodeInfo { node_position: 7, node_address: b"127.0.0.1:9000".to_vec() }),
    };
    let bytes = encode_reply(&reply);
    let parsed = parse_reply(&bytes).unwrap();
    assert_eq!(parsed.status, 0);
    assert_eq!(parsed.value, Some(vec![5, 6]));
    assert_eq!(parsed.pid, Some(0));
    let ni = parsed.node_info.unwrap();
    assert_eq!(ni.node_position, 7);
    assert_eq!(ni.node_address, b"127.0.0.1:9000".to_vec());
}

#[test]
fn message_ids_are_laid_out_byte_for_byte() {
    let ip = b"10.0.0.1".to_vec();
    let id = dht::proto::compose_message_id(&ip, 0x1f90, 0x0102, &vec![0xAB, 0xCD]);
    let mut expected = ip.clone();
    expected.extend_from_slice(&[0x1f, 0x90]);
    expected.extend_from_slice(&[0u8; 14]);
    expected.extend_from_slice(&[0x01, 0x02]);
    expected.extend_from_slice(&[0xAB, 0xCD]);
    assert_eq!(id, expected);
}

#[test]
fn message_ids_carry_the_sender_and_differ_between_attempts() {
    let ip = b"127.0.0.1".to_vec();
    let mut ids: Vec<Vec<u8>> = Vec::new();
    for _ in 0..5 {
        let id = generate_message_id(&ip, 0x1f90, 2).unwrap();
        assert_eq!(id.len(), ip.len() + 2 + 16 + 2);
        assert_eq!(&id[0..ip.len()], ip.as_slice());
        assert_eq!(id[ip.len()], 0x1f);
        assert_eq!(id[ip.len() + 1], 0x90);
        ids.push(id);
    }
    for a in 0..ids.len() {
        for b in (a + 1)..ids.len() {
            assert_ne!(ids[a], ids[b]);
        }
    }
}

#[test]
fn framed_messages_validate() {
    let ip = b"10.0.0.2".to_vec();
    let payload = encode_request(&Request { operation: 4, key: None, value: None });
    let frame = create_udp_message(payload.clone(), &ip, 8081).unwrap();
    assert_eq!(frame.payload, payload);
    assert!(validate_checksum(&frame).is_ok());
    let parsed = parse_message(encode_frame(&frame)).unwrap();
    assert_eq!(parsed.id, frame.id);
    assert_eq!(parsed.payload, payload);
}

#[test]
fn extract_reply_reads_a_framed_reply() {
    let reply = Reply { status: Status::KeyNotFound.code(), value: None, pid: None, node_info: None };
    let payload = encode_reply(&reply);
    let frame = create_udp_message(payload, &b"127.0.0.1".to_vec(), 8080).unwrap();
    let extracted = dht::proto::extract_reply(&frame).unwrap();
    assert_eq!(extracted.status, Status::KeyNotFound.code());
}

#[test]
fn operation_and_status_codes_are_wire_stable() {
    assert_eq!(Operation::Put.code(), 0);
    assert_eq!(Operation::GetSuccessor.code(), 8);
    assert!(matches!(Operation::from_code(7), Some(Operation::GetNearestPrecedingNodeToKey)));
    assert!(Operation::from_code(9).is_none());
    assert_eq!(Status::Success.code(), 0);
    assert_eq!(Status::InvalidValueSize.code(), 9);
    assert!(matches!(Status::from_code(8), Some(Status::InternalError)));
    assert!(matches!(Status::from_code(9), Some(Status::InvalidValueSize)));
    assert!(Status::from_code(10).is_none());
}
