//! Unit tests: the key-space embedding, the neighbours store, the search
//! engine's event discipline, framing, the envelope, and the byte codec.

use kipa::api::{
    check_key_id, key_id_value, Address, ApiError, ApiErrorType, Key, MessageSender, Node,
    RequestMessage, RequestPayload, ResponseMessage, ResponsePayload,
};
use kipa::codec::DataTransformer;
use kipa::envelope::{decrypt_and_verify, encrypt_and_sign, SecretKey};
use kipa::framing::{decode_frame, encode_frame, parse_length};
use kipa::graph_search::GraphSearch;
use kipa::key_space::{
    distance_squared, node_angle_le, node_distance, sort_nodes_by_angle, sort_nodes_by_distance,
    KeySpace,
};
use kipa::neighbours_store::NeighboursStore;

fn key(id: &str) -> Key {
    Key::new(String::from(id), vec![9, 9]).unwrap()
}

fn node(id: &str, port: u16) -> Node {
    Node {
        key: key(id),
        address: Address::new(vec![10, 0, 0, 1], port).unwrap(),
    }
}

#[test]
fn key_ids_are_eight_hex_digits() {
    assert!(check_key_id(&String::from("AAAAAAAA")));
    assert!(check_key_id(&String::from("0123abcD")));
    assert!(!check_key_id(&String::from("AAAAAAA")));
    assert!(!check_key_id(&String::from("AAAAAAAAA")));
    assert!(!check_key_id(&String::from("AAAAAAAG")));
    let err = Key::new(String::from("nonsense"), vec![]).unwrap_err();
    assert_eq!(err.error_type, ApiErrorType::Configuration);
}

#[test]
fn key_id_value_reads_hexadecimal() {
    assert_eq!(key_id_value(&String::from("000000FF")), 255);
    assert_eq!(key_id_value(&String::from("000000ff")), 255);
    assert_eq!(key_id_value(&String::from("00000100")), 256);
    assert_eq!(key_id_value(&String::from("AAAAAAAA")), 0xAAAA_AAAA);
}

#[test]
fn embedding_is_deterministic() {
    let k1 = Key::new(String::from("AAAAAAAA"), vec![1]).unwrap();
    let k2 = Key::new(String::from("aaaaaaaa"), vec![2, 3]).unwrap();
    let a = KeySpace::from_key(&k1, 2);
    let b = KeySpace::from_key(&k1, 2);
    let c = KeySpace::from_key(&k2, 2);
    assert_eq!(a.coords, b.coords);
    // The embedding depends only on the short id's value, not the material.
    assert_eq!(a.coords, c.coords);
    assert_eq!(a.coords.len(), 2);
    // Different dimensions share their common prefix.
    let d = KeySpace::from_key(&k1, 5);
    assert_eq!(d.coords[0], a.coords[0]);
    assert_eq!(d.coords.len(), 5);
}

#[test]
fn distance_is_exact_squared_euclidean() {
    let a = KeySpace {
        coords: vec![0, 3],
    };
    let b = KeySpace {
        coords: vec![4, 0],
    };
    assert_eq!(distance_squared(&a, &b), 25);
    assert_eq!(distance_squared(&a, &a), 0);
}

#[test]
fn sorting_by_distance_is_ascending_and_keeps_the_nodes() {
    let pivot_key = key("00000000");
    let pivot = KeySpace::from_key(&pivot_key, 2);
    let items = vec![
        node("AAAAAAAA", 1),
        node("0000000F", 2),
        node("CCCCCCCC", 3),
        node("12345678", 4),
    ];
    let sorted = sort_nodes_by_distance(items.clone(), &pivot);
    assert_eq!(sorted.len(), items.len());
    for w in sorted.windows(2) {
        assert!(node_distance(&w[0], &pivot) <= node_distance(&w[1], &pivot));
    }
    for n in &items {
        assert!(sorted.iter().any(|m| m.key.key_id == n.key.key_id));
    }
}

#[test]
fn sorting_is_stable_for_equal_distances() {
    // Two nodes with the same key lie at the same distance from any pivot;
    // the sort must keep their original order.
    let pivot = KeySpace::from_key(&key("00000000"), 2);
    let items = vec![
        node("CCCCCCCC", 1),
        node("AAAAAAAA", 2),
        node("CCCCCCCC", 3),
        node("AAAAAAAA", 4),
    ];
    let sorted = sort_nodes_by_distance(items, &pivot);
    let c_ports: Vec<u16> = sorted
        .iter()
        .filter(|n| n.key.key_id == "CCCCCCCC")
        .map(|n| n.address.port)
        .collect();
    let a_ports: Vec<u16> = sorted
        .iter()
        .filter(|n| n.key.key_id == "AAAAAAAA")
        .map(|n| n.address.port)
        .collect();
    assert_eq!(c_ports, vec![1, 3]);
    assert_eq!(a_ports, vec![2, 4]);
}

#[test]
fn sorting_by_angle_orders_adjacent_pairs() {
    let centre_key = key("00000000");
    let reference_key = key("11111111");
    let centre = KeySpace::from_key(&centre_key, 2);
    let reference = KeySpace::from_key(&reference_key, 2);
    let items = vec![
        node("AAAAAAAA", 1),
        node("BBBBBBBB", 2),
        node("CCCCCCCC", 3),
        node("DDDDDDDD", 4),
    ];
    let sorted = sort_nodes_by_angle(items.clone(), &centre, &reference);
    assert_eq!(sorted.len(), items.len());
    for w in sorted.windows(2) {
        assert!(node_angle_le(&w[0], &w[1], &centre, &reference));
    }
}

#[test]
fn store_is_bounded_and_keeps_the_closest() {
    let local = key("00000000");
    let local_space = KeySpace::from_key(&local, 2);
    let mut store = NeighboursStore::new(local.clone(), 3, 2);
    let candidates = vec![
        node("AAAAAAAA", 1),
        node("BBBBBBBB", 2),
        node("CCCCCCCC", 3),
        node("DDDDDDDD", 4),
        node("12345678", 5),
    ];
    for c in &candidates {
        store.consider_candidate(c);
    }
    let stored = store.get_all();
    assert_eq!(stored.len(), 3);
    // Ascending by distance to the local key.
    for w in stored.windows(2) {
        assert!(node_distance(&w[0], &local_space) <= node_distance(&w[1], &local_space));
    }
    // Exactly the three closest candidates.
    let mut by_distance = candidates.clone();
    by_distance.sort_by_key(|n| node_distance(n, &local_space));
    for (s, c) in stored.iter().zip(by_distance.iter()) {
        assert_eq!(s.key.key_id, c.key.key_id);
    }
}

#[test]
fn store_never_keeps_the_local_key_and_is_idempotent() {
    let local = key("AAAAAAAA");
    let mut store = NeighboursStore::new(local.clone(), 3, 2);
    store.consider_candidate(&node("AAAAAAAA", 9));
    assert_eq!(store.len(), 0);
    let b = node("BBBBBBBB", 2);
    store.consider_candidate(&b);
    store.consider_candidate(&b);
    store.consider_candidate(&b);
    assert_eq!(store.len(), 1);
}

#[test]
fn closest_lookup_orders_by_the_target() {
    let local = key("00000000");
    let mut store = NeighboursStore::new(local, 3, 2);
    store.consider_candidate(&node("AAAAAAAA", 1));
    store.consider_candidate(&node("BBBBBBBB", 2));
    let target = key("BBBBBBBB");
    let closest = store.get_n_closest(&target, 1);
    assert_eq!(closest.len(), 1);
    assert_eq!(closest[0].key.key_id, "BBBBBBBB");
    let both = store.get_n_closest(&target, 10);
    assert_eq!(both.len(), 2);
    assert_eq!(both[0].key.key_id, "BBBBBBBB");
}

#[test]
fn search_events_fire_at_most_once_per_key() {
    let target = key("FFFFFFFF");
    let mut engine = GraphSearch::new(&target, 2);
    let a = node("AAAAAAAA", 1);
    let a_again = node("AAAAAAAA", 99); // same key, different address
    assert!(engine.add_found(&a));
    assert!(!engine.add_found(&a));
    assert!(!engine.add_found(&a_again));
    // Not explored before its query was dispatched.
    assert!(!engine.mark_explored(&a));
    let next = engine.next_to_query().expect("one node waits in the frontier");
    assert_eq!(next.key.key_id, "AAAAAAAA");
    assert!(engine.next_to_query().is_none());
    assert!(engine.mark_explored(&a));
    assert!(!engine.mark_explored(&a));
    assert!(engine.is_exhausted());
}

#[test]
fn frontier_hands_out_the_closest_first() {
    let target = key("AAAAAAAA");
    let target_space = KeySpace::from_key(&target, 2);
    let mut engine = GraphSearch::new(&target, 2);
    let ns = vec![node("BBBBBBBB", 1), node("CCCCCCCC", 2), node("DDDDDDDD", 3)];
    for n in &ns {
        engine.add_found(&n);
    }
    let first = engine.next_to_query().unwrap();
    for n in &ns {
        assert!(node_distance(&first, &target_space) <= node_distance(n, &target_space));
    }
}

#[test]
fn framing_round_trips() {
    for payload in [vec![], vec![42], vec![7; 300]] {
        let data = payload.clone();
        let frame = encode_frame(&data).unwrap();
        assert_eq!(frame.len(), 4 + data.len());
        let (back, consumed) = decode_frame(&frame).unwrap();
        assert_eq!(back, data);
        assert_eq!(consumed, frame.len());
    }
}

#[test]
fn framing_rejects_a_short_body() {
    // A length prefix claiming more bytes than follow.
    let bytes = vec![0, 0, 0, 5, 1, 2, 3];
    let err = decode_frame(&bytes).unwrap_err();
    assert_eq!(err.error_type, ApiErrorType::Parse);
    let err = decode_frame(&vec![0, 0, 1]).unwrap_err();
    assert_eq!(err.error_type, ApiErrorType::Parse);
}

#[test]
fn length_prefixes_read_back_exactly() {
    assert_eq!(parse_length(&vec![0, 0, 1, 4]).unwrap(), 260);
    assert_eq!(parse_length(&vec![0, 0, 0, 0]).unwrap(), 0);
    assert_eq!(parse_length(&vec![255, 255, 255, 255]).unwrap(), u32::MAX);
    assert!(parse_length(&vec![0, 0, 1]).is_err());
}

#[test]
fn envelope_round_trips() {
    let sender = SecretKey::new(key("AAAAAAAA"));
    let recipient = SecretKey::new(key("BBBBBBBB"));
    let plaintext = vec![1, 2, 3, 4, 5];
    let sealed = encrypt_and_sign(&plaintext, &sender, &recipient.public);
    assert_ne!(sealed, plaintext);
    let opened = decrypt_and_verify(&sealed, &sender.public, &recipient).unwrap();
    assert_eq!(opened, plaintext);
}

#[test]
fn envelope_rejects_a_forged_sender() {
    let sender = SecretKey::new(key("AAAAAAAA"));
    let forger = SecretKey::new(key("CCCCCCCC"));
    let recipient = SecretKey::new(key("BBBBBBBB"));
    let plaintext = vec![1, 2, 3];
    // Forged: sealed under the forger's key, claimed to be from the sender.
    let sealed = encrypt_and_sign(&plaintext, &forger, &recipient.public);
    let err = decrypt_and_verify(&sealed, &sender.public, &recipient).unwrap_err();
    assert_eq!(err.error_type, ApiErrorType::Parse);
    // Wrong recipient is rejected too.
    let other = SecretKey::new(key("DDDDDDDD"));
    let sealed = encrypt_and_sign(&plaintext, &sender, &recipient.public);
    assert!(decrypt_and_verify(&sealed, &sender.public, &other).is_err());
    // Garbage is rejected.
    assert!(decrypt_and_verify(&vec![1, 2], &sender.public, &recipient).is_err());
}

fn request(payload: RequestPayload) -> RequestMessage {
    RequestMessage {
        payload,
        sender: MessageSender::Node(node("AAAAAAAA", 20001)),
        id: 42,
        version: String::from("0.1.0"),
    }
}

fn response(payload: ResponsePayload) -> ResponseMessage {
    ResponseMessage {
        payload,
        sender: MessageSender::Cli,
        id: 43,
        version: String::from("0.1.0"),
    }
}

#[test]
fn request_codec_round_trips_every_payload() {
    let t = DataTransformer::new();
    let payloads = vec![
        RequestPayload::QueryRequest(key("BBBBBBBB")),
        RequestPayload::SearchRequest(key("CCCCCCCC")),
        RequestPayload::ConnectRequest(node("DDDDDDDD", 9)),
        RequestPayload::ListNeighboursRequest,
    ];
    for p in payloads {
        let msg = request(p);
        let bytes = t.request_to_bytes(&msg).unwrap();
        let back = t.bytes_to_request(&bytes).unwrap();
        assert_eq!(back.id, msg.id);
        assert_eq!(back.version, msg.version);
        match (&back.payload, &msg.payload) {
            (RequestPayload::QueryRequest(a), RequestPayload::QueryRequest(b)) => {
                assert_eq!(a.key_id, b.key_id);
                assert_eq!(a.data, b.data);
            }
            (RequestPayload::SearchRequest(a), RequestPayload::SearchRequest(b)) => {
                assert_eq!(a.key_id, b.key_id);
            }
            (RequestPayload::ConnectRequest(a), RequestPayload::ConnectRequest(b)) => {
                assert_eq!(a.key.key_id, b.key.key_id);
                assert_eq!(a.address.ip_data, b.address.ip_data);
                assert_eq!(a.address.port, b.address.port);
            }
            (RequestPayload::ListNeighboursRequest, RequestPayload::ListNeighboursRequest) => {}
            _ => panic!("the payload changed shape in flight"),
        }
        match (&back.sender, &msg.sender) {
            (MessageSender::Node(a), MessageSender::Node(b)) => {
                assert_eq!(a.key.key_id, b.key.key_id)
            }
            _ => panic!("the sender changed shape in flight"),
        }
    }
}

#[test]
fn response_codec_round_trips_every_payload() {
    let t = DataTransformer::new();
    let payloads = vec![
        ResponsePayload::QueryResponse(vec![node("AAAAAAAA", 1), node("BBBBBBBB", 2)]),
        ResponsePayload::SearchResponse(Some(node("CCCCCCCC", 3))),
        ResponsePayload::SearchResponse(None),
        ResponsePayload::ConnectResponse,
        ResponsePayload::ListNeighboursResponse(vec![]),
        ResponsePayload::Error(ApiError::new(
            ApiErrorType::External,
            String::from("the peer misbehaved"),
        )),
    ];
    for p in payloads {
        let msg = response(p);
        let bytes = t.response_to_bytes(&msg).unwrap();
        let back = t.bytes_to_response(&bytes).unwrap();
        assert_eq!(back.id, msg.id);
        match (&back.payload, &msg.payload) {
            (ResponsePayload::QueryResponse(a), ResponsePayload::QueryResponse(b)) => {
                assert_eq!(a.len(), b.len());
                assert_eq!(a[0].key.key_id, b[0].key.key_id);
                assert_eq!(a[1].address.port, b[1].address.port);
            }
            (
                ResponsePayload::SearchResponse(Some(a)),
                ResponsePayload::SearchResponse(Some(b)),
            ) => {
                assert_eq!(a.key.key_id, b.key.key_id);
            }
            (ResponsePayload::SearchResponse(None), ResponsePayload::SearchResponse(None)) => {}
            (ResponsePayload::ConnectResponse, ResponsePayload::ConnectResponse) => {}
            (
                ResponsePayload::ListNeighboursResponse(a),
                ResponsePayload::ListNeighboursResponse(b),
            ) => {
                assert_eq!(a.len(), b.len());
            }
            (ResponsePayload::Error(a), ResponsePayload::Error(b)) => {
                assert_eq!(a.error_type, b.error_type);
                assert_eq!(a.msg, b.msg);
            }
            _ => panic!("the payload changed shape in flight"),
        }
    }
}

#[test]
fn codec_rejects_malformed_bytes() {
    let t = DataTransformer::new();
    // Too short for a correlation id.
    assert_eq!(
        t.bytes_to_request(&vec![1, 2]).unwrap_err().error_type,
        ApiErrorType::Parse
    );
    // A valid message, truncated.
    let msg = request(RequestPayload::QueryRequest(key("BBBBBBBB")));
    let bytes = t.request_to_bytes(&msg).unwrap();
    let truncated = bytes[..bytes.len() - 1].to_vec();
    assert!(t.bytes_to_request(&truncated).is_err());
    // A valid message with a trailing byte.
    let mut extended = bytes.clone();
    extended.push(0);
    assert!(t.bytes_to_request(&extended).is_err());
    // A key id that is not hexadecimal is rejected during decoding: take a
    // valid message whose only key id is "BBBBBBBB" and overwrite those
    // bytes in place with a non-hex letter.
    let msg = RequestMessage {
        payload: RequestPayload::QueryRequest(key("BBBBBBBB")),
        sender: MessageSender::Cli,
        id: 1,
        version: String::from("0"),
    };
    let bytes = t.request_to_bytes(&msg).unwrap();
    let corrupted: Vec<u8> = bytes
        .iter()
        .map(|b| if *b == b'B' { b'G' } else { *b })
        .collect();
    assert_eq!(
        t.bytes_to_request(&corrupted).unwrap_err().error_type,
        ApiErrorType::Parse
    );
}

#[test]
fn the_global_pipeline_round_trips_end_to_end() {
    // Encode, seal, frame — then unframe, open, decode.
    let t = DataTransformer::new();
    let msg = request(RequestPayload::QueryRequest(key("BBBBBBBB")));
    let sender_secret = SecretKey::new(key("AAAAAAAA"));
    let recipient_secret = SecretKey::new(key("BBBBBBBB"));

    let bytes = t.request_to_bytes(&msg).unwrap();
    let sealed = encrypt_and_sign(&bytes, &sender_secret, &recipient_secret.public);
    let framed = encode_frame(&sealed).unwrap();

    let (sealed_back, consumed) = decode_frame(&framed).unwrap();
    assert_eq!(consumed, framed.len());
    let opened = decrypt_and_verify(&sealed_back, &sender_secret.public, &recipient_secret).unwrap();
    let back = t.bytes_to_request(&opened).unwrap();
    assert_eq!(back.id, msg.id);
    match back.payload {
        RequestPayload::QueryRequest(k) => assert_eq!(k.key_id, "BBBBBBBB"),
        _ => panic!("the payload changed shape in flight"),
    }
}
