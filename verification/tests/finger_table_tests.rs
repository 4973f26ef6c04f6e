use dht::finger::{Endpoint, FingerTable};
use dht::hash::position_of;
use dht::retry::{RetryDecision, RetryPolicy, MAX_RETRIES, SEND_RECV_TIMEOUT_MILLIS};
use dht::route::{RouteAction, RouteEvent};

fn endpoint(text: &[u8]) -> Endpoint {
    Endpoint { text: text.to_vec() }
}

#[test]
fn test_single_node() {
    let node_addr = endpoint(b"127.0.0.1:8080");
    let peer_addrs: Vec<Endpoint> = Vec::new();
    const SIZE_FACTOR: u32 = 1;

    let finger_table = FingerTable::new(node_addr, peer_addrs, SIZE_FACTOR).unwrap();

    let finger_start_positions = finger_table.get_finger_start_positions();
    assert_eq!(finger_start_positions.len(), 1);

    let finger_node_positions = finger_table.get_finger_node_positions();
    assert_eq!(finger_node_positions.len(), 1);
    assert_eq!(finger_start_positions, finger_node_positions);

    let finger_node_addrs = finger_table.get_finger_node_socket_addrs();
    assert_eq!(finger_node_addrs.len(), 1);
    assert_eq!(finger_node_addrs[0].text, b"127.0.0.1:8080".to_vec());
}

#[test]
fn test_multiple_nodes() {
    let node_addr = endpoint(b"127.0.0.1:8080");
    let mut peer_addrs: Vec<Endpoint> = Vec::new();
    const NUM_PEERS: usize = 10;
    for _ in 0..NUM_PEERS {
        peer_addrs.push(endpoint(b"127.0.0.1:0"));
    }
    const SIZE_FACTOR: u32 = 8;
    let _finger_table = FingerTable::new(node_addr, peer_addrs, SIZE_FACTOR).unwrap();
}

#[test]
fn start_positions_follow_the_ring_geometry() {
    const M: u32 = 8;
    let self_text = b"10.1.2.3:4000".to_vec();
    let table = FingerTable::new(
        Endpoint { text: self_text.clone() },
        vec![endpoint(b"10.1.2.4:4000"), endpoint(b"10.1.2.5:4000")],
        M,
    )
    .unwrap();
    let starts = table.get_finger_start_positions();
    let self_position = position_of(&self_text, M);
    assert_eq!(starts.len(), M as usize);
    assert_eq!(starts[0], self_position);
    for i in 1..starts.len() {
        let expected = ((self_position as u64) + (1u64 << i)) % (1u64 << M);
        assert_eq!(starts[i] as u64, expected);
    }
    // From finger 1 on, each start is 2^i past the one before it.
    for i in 1..starts.len() - 1 {
        let expected = ((starts[i] as u64) + (1u64 << i)) % (1u64 << M);
        assert_eq!(starts[i + 1] as u64, expected);
    }
}

#[test]
fn fingers_point_at_ring_successors_of_their_starts() {
    const M: u32 = 8;
    let ring: u64 = 1u64 << M;
    let peer_texts: Vec<Vec<u8>> = vec![
        b"10.0.0.1:7001".to_vec(),
        b"10.0.0.2:7002".to_vec(),
        b"10.0.0.3:7003".to_vec(),
        b"10.0.0.4:7004".to_vec(),
    ];
    let peers: Vec<Endpoint> = peer_texts.iter().map(|t| Endpoint { text: t.clone() }).collect();
    let peer_positions: Vec<u32> = peer_texts.iter().map(|t| position_of(t, M)).collect();

    let table = FingerTable::new(endpoint(b"10.0.0.9:7000"), peers, M).unwrap();
    let starts = table.get_finger_start_positions();
    let node_positions = table.get_finger_node_positions();

    for f in 1..(M as usize) {
        let start = starts[f] as u64;
        let dist = |p: u64| (p + ring - start) % ring;
        let best = peer_positions.iter().map(|&p| dist(p as u64)).min().unwrap();
        assert_eq!(dist(node_positions[f] as u64), best);
    }
}

#[test]
fn nearest_preceding_finger_on_a_lone_node_is_not_found() {
    let table = FingerTable::new(endpoint(b"127.0.0.1:8080"), Vec::new(), 4).unwrap();
    // Every finger is the node itself, and a node never strictly
    // precedes a key relative to itself.
    let r = table.find_nearest_preceding_finger(b"some key".to_vec());
    assert_eq!(r.unwrap_err(), dht::errors::DhtError::NotFound);
}

#[test]
fn predecessor_search_walks_the_ring() {
    const M: u32 = 8;
    let table = FingerTable::new(
        endpoint(b"10.0.0.9:7000"),
        vec![endpoint(b"10.0.0.1:7001"), endpoint(b"10.0.0.2:7002")],
        M,
    )
    .unwrap();

    // Pick a key. Whatever the hash landed on, the machine must either
    // answer at once or ask a remote node and then follow its answers.
    let key = b"route me".to_vec();
    let (mut search, action) = table.begin_find_predecessor(&key);
    match action {
        RouteAction::FoundPredecessor(a) => {
            assert_eq!(a.text, b"10.0.0.9:7000".to_vec());
        },
        RouteAction::AskSuccessor(first_hop) => {
            // Simulate a peer whose successor owns everything: it
            // names a successor right behind the key, so the finger is
            // the predecessor.
            let key_position = table.calculate_key_position(&key);
            let ev = RouteEvent::NodeReply(key_position, first_hop.duplicate());
            match search.on_event(&table, ev) {
                RouteAction::FoundPredecessor(p) => {
                    assert_eq!(p.text, first_hop.text);
                },
                RouteAction::AskNearestPreceding(next) => {
                    // The finger's successor did not cover the key;
                    // the machine must now hop through that finger.
                    assert_eq!(next.text, first_hop.text);
                },
                _ => panic!("unexpected action"),
            }
        },
        RouteAction::Failed(_) => panic!("a populated table must route"),
        _ => panic!("unexpected first action"),
    }
}

#[test]
fn failed_queries_end_the_search() {
    const M: u32 = 4;
    let table = FingerTable::new(
        endpoint(b"10.0.0.9:7000"),
        vec![endpoint(b"10.0.0.1:7001")],
        M,
    )
    .unwrap();
    let key = b"another key".to_vec();
    let (mut search, action) = table.begin_find_predecessor(&key);
    if let RouteAction::AskSuccessor(_) = action {
        let r = search.on_event(&table, RouteEvent::QueryFailed);
        match r {
            RouteAction::Failed(e) => assert_eq!(e, dht::errors::DhtError::BadPeerReply),
            _ => panic!("a failed query must fail the search"),
        }
    }
}

#[test]
fn retry_doubles_the_timeout_and_gives_up() {
    let mut policy = RetryPolicy::new(MAX_RETRIES, SEND_RECV_TIMEOUT_MILLIS);
    match policy.on_timeout() {
        RetryDecision::Retry(t) => assert_eq!(t, 200),
        RetryDecision::GiveUp => panic!("attempts remain"),
    }
    match policy.on_timeout() {
        RetryDecision::Retry(t) => assert_eq!(t, 400),
        RetryDecision::GiveUp => panic!("attempts remain"),
    }
    match policy.on_timeout() {
        RetryDecision::Retry(t) => assert_eq!(t, 800),
        RetryDecision::GiveUp => panic!("attempts remain"),
    }
    match policy.on_timeout() {
        RetryDecision::Retry(_) => panic!("the fourth timeout spends the last attempt"),
        RetryDecision::GiveUp => {},
    }
}
