//! Error kinds and the remaining reply-handling rules on concrete values.

use kipa::api::{
    Address, ApiError, ApiErrorType, Key, MessageSender, Node, RequestMessage, RequestPayload,
    ResponsePayload,
};
use kipa::message_handler::GraphRequestHandler;

fn key(id: &str) -> Key {
    Key::new(String::from(id), vec![]).unwrap()
}

fn node(id: &str, port: u16) -> Node {
    Node {
        key: key(id),
        address: Address::new(vec![127, 0, 0, 1], port).unwrap(),
    }
}

#[test]
fn a_query_reply_must_be_a_query_response() {
    let handler = GraphRequestHandler::new(key("AAAAAAAA"), 3, 2);
    let good = ResponsePayload::QueryResponse(vec![node("BBBBBBBB", 2)]);
    let ns = handler.unwrap_query_reply(good).unwrap();
    assert_eq!(ns.len(), 1);

    let bad = ResponsePayload::ConnectResponse;
    let err = handler.unwrap_query_reply(bad).unwrap_err();
    assert_eq!(err.error_type, ApiErrorType::External);
}

#[test]
fn a_failed_query_is_an_empty_reply_and_never_fails_the_search() {
    let mut nodes_known = GraphRequestHandler::new(key("AAAAAAAA"), 3, 2);
    let unreachable = node("BBBBBBBB", 2);
    nodes_known.consider(&unreachable);
    let mut driver = nodes_known.start_search(key("CCCCCCCC"));
    let peer = driver.next_query().expect("one node to ask");
    assert_eq!(peer.key.key_id, "BBBBBBBB");
    driver.handle_failure(&peer);
    assert!(driver.next_query().is_none());
    assert!(driver.result().is_none());
}

#[test]
fn a_connect_via_an_unreachable_node_still_finishes() {
    let handler = GraphRequestHandler::new(key("AAAAAAAA"), 3, 2);
    let bootstrap = node("BBBBBBBB", 2);
    let mut driver = handler.start_connect(&bootstrap);
    let peer = driver.next_query().expect("the bootstrap node to ask");
    driver.handle_failure(&peer);
    // The bootstrap node was explored (with an empty reply), so the tracked
    // list is fully explored and the overlay counts as joined.
    assert!(driver.next_query().is_none() || driver.is_joined());
}

#[test]
fn listing_an_empty_store_is_empty() {
    let mut handler = GraphRequestHandler::new(key("AAAAAAAA"), 3, 2);
    let msg = RequestMessage {
        payload: RequestPayload::ListNeighboursRequest,
        sender: MessageSender::Cli,
        id: 77,
        version: String::from("0.1.0"),
    };
    match handler.receive(&msg) {
        kipa::message_handler::HandlerAction::Reply(ResponsePayload::ListNeighboursResponse(
            ns,
        )) => assert!(ns.is_empty()),
        _ => panic!("a listing must come back as a listing response"),
    }
}

#[test]
fn every_error_kind_is_reachable() {
    // Parse: malformed bytes.
    let t = kipa::codec::DataTransformer::new();
    assert_eq!(
        t.bytes_to_request(&vec![]).unwrap_err().error_type,
        ApiErrorType::Parse
    );
    // Configuration: an invalid local key id.
    assert_eq!(
        Key::new(String::from("xyz"), vec![]).unwrap_err().error_type,
        ApiErrorType::Configuration
    );
    // External: a protocol violation by a peer.
    let handler = GraphRequestHandler::new(key("AAAAAAAA"), 3, 2);
    assert_eq!(
        handler
            .unwrap_query_reply(ResponsePayload::ConnectResponse)
            .unwrap_err()
            .error_type,
        ApiErrorType::External
    );
    // Internal: an invariant violation; errors can carry the kind even
    // though the verified core never produces one.
    let e = ApiError::new(ApiErrorType::Internal, String::from("unreachable"));
    assert_eq!(e.error_type, ApiErrorType::Internal);
}

#[test]
fn a_connect_reply_reports_exactly_the_new_nodes() {
    let handler = GraphRequestHandler::new(key("AAAAAAAA"), 3, 2);
    let bootstrap = node("BBBBBBBB", 2);
    let mut driver = handler.start_connect(&bootstrap);
    let peer = driver.next_query().expect("the bootstrap node to ask");
    // The reply repeats the bootstrap node and brings two new ones, one of
    // them twice.
    let reply = vec![
        node("BBBBBBBB", 2),
        node("CCCCCCCC", 3),
        node("CCCCCCCC", 30),
        node("DDDDDDDD", 4),
    ];
    let fresh = driver.handle_reply(&peer, &reply);
    let ids: Vec<&str> = fresh.iter().map(|n| n.key.key_id.as_str()).collect();
    assert_eq!(ids, vec!["CCCCCCCC", "DDDDDDDD"]);
}
