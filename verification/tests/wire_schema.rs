//! The wire schema records: accessor behaviour and the conversions between
//! wire records and the internal model.

use kipa::api::{self, ApiErrorType};
use kipa::schema::{
    from_api_key, from_api_node, from_request_message, from_response_message, to_api_address,
    to_api_key, to_api_node, to_request_message, to_response_message,
};
use kipa::wire;

#[test]
fn scalar_and_string_accessors() {
    let mut k = wire::Key::new();
    assert_eq!(k.get_key_id(), "");
    assert_eq!(k.get_data(), &[] as &[u8]);
    k.set_key_id(String::from("AAAAAAAA"));
    k.set_data(vec![1, 2, 3]);
    assert_eq!(k.get_key_id(), "AAAAAAAA");
    assert_eq!(k.get_data(), &[1, 2, 3]);
    let taken = k.take_key_id();
    assert_eq!(taken, "AAAAAAAA");
    assert_eq!(k.get_key_id(), "");
    k.mut_key_id().push_str("BBBBBBBB");
    assert_eq!(k.get_key_id(), "BBBBBBBB");
    k.clear_data();
    assert_eq!(k.get_data(), &[] as &[u8]);

    let mut a = wire::Address::new();
    assert_eq!(a.get_port(), 0);
    a.set_port(10842);
    assert_eq!(a.get_port(), 10842);
    a.set_ip_data(vec![127, 0, 0, 1]);
    assert_eq!(a.get_ip_data(), &[127, 0, 0, 1]);
    a.clear_port();
    assert_eq!(a.get_port(), 0);
}

#[test]
fn sub_message_accessors() {
    let mut n = wire::Node::new();
    assert!(!n.has_key());
    assert!(!n.has_address());
    let mut k = wire::Key::new();
    k.set_key_id(String::from("CCCCCCCC"));
    n.set_key(k);
    assert!(n.has_key());
    assert_eq!(n.get_key().get_key_id(), "CCCCCCCC");
    // Borrowing a missing sub-message inserts its default.
    n.mut_address().set_port(7);
    assert!(n.has_address());
    assert_eq!(n.get_address().get_port(), 7);
    let taken = n.take_key();
    assert_eq!(taken.get_key_id(), "CCCCCCCC");
    assert!(!n.has_key());
    // Taking a missing sub-message yields the default.
    let taken = n.take_key();
    assert_eq!(taken.get_key_id(), "");
    n.clear_address();
    assert!(!n.has_address());
}

#[test]
fn repeated_and_error_accessors() {
    let mut r = wire::QueryResponse::new();
    assert!(r.get_nodes().is_empty());
    r.mut_nodes().push(wire::Node::new());
    r.mut_nodes().push(wire::Node::new());
    assert_eq!(r.get_nodes().len(), 2);
    let taken = r.take_nodes();
    assert_eq!(taken.len(), 2);
    assert!(r.get_nodes().is_empty());

    let mut e = wire::ApiError::new();
    assert_eq!(e.get_error_type(), ApiErrorType::NoError);
    e.set_error_type(ApiErrorType::External);
    e.set_msg(String::from("no route"));
    assert_eq!(e.get_error_type(), ApiErrorType::External);
    assert_eq!(e.get_msg(), "no route");
}

#[test]
fn request_records_carry_one_variant() {
    let mut g = wire::GeneralRequest::new();
    assert!(!g.has_query_request());
    assert!(!g.has_sender());
    g.set_id(5);
    g.set_version(String::from("0.1.0"));
    let mut q = wire::QueryRequest::new();
    let mut k = wire::Key::new();
    k.set_key_id(String::from("ABCDEF01"));
    q.set_key(k);
    g.set_query_request(q);
    assert!(g.has_query_request());
    assert_eq!(g.get_id(), 5);
    assert_eq!(g.get_version(), "0.1.0");
    assert_eq!(g.get_query_request().get_key().get_key_id(), "ABCDEF01");
}

fn api_key(id: &str) -> api::Key {
    api::Key::new(String::from(id), vec![4, 5]).unwrap()
}

fn api_node(id: &str, port: u16) -> api::Node {
    api::Node {
        key: api_key(id),
        address: api::Address::new(vec![192, 168, 0, 1], port).unwrap(),
    }
}

#[test]
fn key_conversions_validate_the_short_id() {
    let w = from_api_key(&api_key("AAAAAAAA"));
    assert_eq!(w.get_key_id(), "AAAAAAAA");
    let back = to_api_key(w).unwrap();
    assert_eq!(back.key_id, "AAAAAAAA");
    assert_eq!(back.data, vec![4, 5]);

    let mut bad = wire::Key::new();
    bad.set_key_id(String::from("not hex!"));
    assert_eq!(to_api_key(bad).unwrap_err().error_type, ApiErrorType::Parse);
}

#[test]
fn address_conversions_validate_octets_and_port() {
    let mut a = wire::Address::new();
    a.set_ip_data(vec![1, 2, 3, 4]);
    a.set_port(20001);
    let v = to_api_address(a).unwrap();
    assert_eq!(v.port, 20001);

    let mut too_big = wire::Address::new();
    too_big.set_ip_data(vec![1, 2, 3, 4]);
    too_big.set_port(0x1_0000);
    assert!(to_api_address(too_big).is_err());

    let mut bad_ip = wire::Address::new();
    bad_ip.set_ip_data(vec![1, 2, 3]);
    bad_ip.set_port(1);
    assert!(to_api_address(bad_ip).is_err());
}

#[test]
fn node_conversions_require_both_sub_messages() {
    let n = from_api_node(&api_node("ABCD1234", 9));
    let back = to_api_node(n).unwrap();
    assert_eq!(back.key.key_id, "ABCD1234");
    assert_eq!(back.address.port, 9);

    let incomplete = wire::Node::new();
    assert!(to_api_node(incomplete).is_err());
}

#[test]
fn request_record_round_trips_through_the_model() {
    let msg = api::RequestMessage {
        payload: api::RequestPayload::ConnectRequest(api_node("AAAAAAAA", 20001)),
        sender: api::MessageSender::Node(api_node("BBBBBBBB", 20002)),
        id: 9,
        version: String::from("0.1.0"),
    };
    let record = from_request_message(&msg);
    assert!(record.has_connect_request());
    assert!(!record.has_query_request());
    assert!(record.has_sender());
    let back = to_request_message(record, vec![192, 168, 0, 1]).unwrap();
    assert_eq!(back.id, 9);
    match back.payload {
        api::RequestPayload::ConnectRequest(n) => assert_eq!(n.key.key_id, "AAAAAAAA"),
        _ => panic!("the payload changed shape"),
    }
    match back.sender {
        api::MessageSender::Node(n) => {
            assert_eq!(n.key.key_id, "BBBBBBBB");
            assert_eq!(n.address.port, 20002);
            assert_eq!(n.address.ip_data, vec![192, 168, 0, 1]);
        }
        _ => panic!("the sender changed shape"),
    }
}

#[test]
fn request_record_with_no_variant_is_rejected() {
    let mut g = wire::GeneralRequest::new();
    g.set_id(1);
    assert!(to_request_message(g, vec![127, 0, 0, 1]).is_err());
    // Two variants at once are rejected too.
    let mut g = wire::GeneralRequest::new();
    g.set_query_request(wire::QueryRequest::new());
    g.set_list_neighbours_request(wire::ListNeighboursRequest::new());
    assert!(to_request_message(g, vec![127, 0, 0, 1]).is_err());
}

#[test]
fn response_record_round_trips_through_the_model() {
    let msg = api::ResponseMessage {
        payload: api::ResponsePayload::SearchResponse(Some(api_node("CCCCCCCC", 20003))),
        sender: api::MessageSender::Cli,
        id: 11,
        version: String::from("0.1.0"),
    };
    let record = from_response_message(&msg);
    assert!(record.has_search_response());
    assert!(!record.has_api_error());
    let back = to_response_message(record, vec![127, 0, 0, 1]).unwrap();
    assert_eq!(back.id, 11);
    match back.payload {
        api::ResponsePayload::SearchResponse(Some(n)) => {
            assert_eq!(n.key.key_id, "CCCCCCCC");
        }
        _ => panic!("the payload changed shape"),
    }
}
