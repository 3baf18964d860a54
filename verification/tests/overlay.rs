//! End-to-end overlay scenarios: several nodes wired together in process,
//! exchanging the same messages they would exchange over a socket.

use kipa::api::{
    Address, ApiErrorType, ApiVisibility, Key, MessageSender, Node, RequestMessage,
    RequestPayload, ResponsePayload,
};
use kipa::message_handler::check_request;
use kipa::message_handler::{GraphRequestHandler, HandlerAction};

fn key(id: &str) -> Key {
    Key::new(String::from(id), vec![1, 2, 3]).unwrap()
}

fn node(id: &str, port: u16) -> Node {
    Node {
        key: key(id),
        address: Address::new(vec![127, 0, 0, 1], port).unwrap(),
    }
}

fn request(payload: RequestPayload, sender: MessageSender) -> RequestMessage {
    RequestMessage {
        payload,
        sender,
        id: 7,
        version: String::from("0.1.0"),
    }
}

/// One in-process node: its identity and its handler.
struct TestNode {
    me: Node,
    handler: GraphRequestHandler,
}

fn make_node(id: &str, port: u16) -> TestNode {
    TestNode {
        me: node(id, port),
        handler: GraphRequestHandler::new(key(id), 3, 2),
    }
}

fn find_peer(nodes: &[TestNode], target: &Node) -> Option<usize> {
    nodes.iter().position(|t| t.me.key.same_key(&target.key))
}

/// Answer one query at the peer that owns `to`, as its server loop would.
fn deliver_query(
    nodes: &mut Vec<TestNode>,
    to: &Node,
    target_key: &Key,
    sender: MessageSender,
) -> Option<Vec<Node>> {
    let idx = find_peer(nodes, to)?;
    let msg = request(RequestPayload::QueryRequest(target_key.clone()), sender);
    match nodes[idx].handler.receive(&msg) {
        HandlerAction::Reply(ResponsePayload::QueryResponse(ns)) => Some(ns),
        _ => panic!("a query must come back as a query response"),
    }
}

/// Run a locate-key search at `origin`, delivering every query in process.
fn run_search(nodes: &mut Vec<TestNode>, origin: usize, target: &Key) -> Option<Node> {
    let mut driver = nodes[origin].handler.start_search(target.clone());
    let me = nodes[origin].me.clone();
    loop {
        match driver.next_query() {
            None => break,
            Some(peer) => {
                match deliver_query(nodes, &peer, target, MessageSender::Node(me.clone())) {
                    Some(ns) => driver.handle_reply(&peer, &ns),
                    None => driver.handle_failure(&peer),
                }
            }
        }
    }
    driver.result()
}

/// Run a join search at `origin` from `bootstrap`, delivering every query in
/// process and feeding every new node to the origin's store.
fn run_connect(nodes: &mut Vec<TestNode>, origin: usize, bootstrap: &Node) {
    let local_key = nodes[origin].me.key.clone();
    let me = nodes[origin].me.clone();
    nodes[origin].handler.consider(bootstrap);
    let mut driver = nodes[origin].handler.start_connect(bootstrap);
    loop {
        match driver.next_query() {
            None => break,
            Some(peer) => {
                match deliver_query(nodes, &peer, &local_key, MessageSender::Node(me.clone())) {
                    Some(ns) => {
                        let fresh = driver.handle_reply(&peer, &ns);
                        for n in &fresh {
                            nodes[origin].handler.consider(n);
                        }
                    }
                    None => driver.handle_failure(&peer),
                }
            }
        }
    }
}

fn query_at(nodes: &mut Vec<TestNode>, at: usize, target: &Key) -> Vec<Node> {
    let msg = request(
        RequestPayload::QueryRequest(target.clone()),
        MessageSender::Cli,
    );
    match nodes[at].handler.receive(&msg) {
        HandlerAction::Reply(ResponsePayload::QueryResponse(ns)) => ns,
        _ => panic!("a query must come back as a query response"),
    }
}

#[test]
fn single_node_query_comes_back_empty() {
    let mut nodes = vec![make_node("AAAAAAAA", 20001)];
    let ns = query_at(&mut nodes, 0, &key("BBBBBBBB"));
    assert!(ns.is_empty());
}

#[test]
fn two_node_connect_then_query_both_ways() {
    let mut nodes = vec![make_node("AAAAAAAA", 20001), make_node("BBBBBBBB", 20002)];
    let a = nodes[0].me.clone();

    // Send to B: Connect(node = A).
    let msg = request(RequestPayload::ConnectRequest(a.clone()), MessageSender::Cli);
    let bootstrap = match nodes[1].handler.receive(&msg) {
        HandlerAction::StartConnect(n) => n,
        _ => panic!("a connect request must start a join search"),
    };
    run_connect(&mut nodes, 1, &bootstrap);

    // B now knows A.
    let ns = query_at(&mut nodes, 1, &key("AAAAAAAA"));
    assert_eq!(ns.len(), 1);
    assert_eq!(ns[0].key.key_id, "AAAAAAAA");

    // And A knows B, because B contacted it.
    let ns = query_at(&mut nodes, 0, &key("BBBBBBBB"));
    assert_eq!(ns.len(), 1);
    assert_eq!(ns[0].key.key_id, "BBBBBBBB");
}

#[test]
fn three_node_search_finds_the_target() {
    let mut nodes = vec![
        make_node("AAAAAAAA", 20001),
        make_node("BBBBBBBB", 20002),
        make_node("CCCCCCCC", 20003),
    ];
    let a = nodes[0].me.clone();
    let b = nodes[1].me.clone();
    run_connect(&mut nodes, 1, &a); // B joins via A.
    run_connect(&mut nodes, 2, &b); // C joins via B.

    // Send to A: Search(CCCCCCCC).
    let msg = request(
        RequestPayload::SearchRequest(key("CCCCCCCC")),
        MessageSender::Cli,
    );
    let target = match nodes[0].handler.receive(&msg) {
        HandlerAction::StartSearch(k) => k,
        _ => panic!("a search request must start a locate-key search"),
    };
    let found = run_search(&mut nodes, 0, &target);
    let found = found.expect("the search must locate the target");
    assert_eq!(found.key.key_id, "CCCCCCCC");
    assert_eq!(found.address.port, 20003);
}

#[test]
fn unknown_key_search_comes_back_empty() {
    let mut nodes = vec![
        make_node("AAAAAAAA", 20001),
        make_node("BBBBBBBB", 20002),
        make_node("CCCCCCCC", 20003),
    ];
    let a = nodes[0].me.clone();
    let b = nodes[1].me.clone();
    run_connect(&mut nodes, 1, &a);
    run_connect(&mut nodes, 2, &b);

    let found = run_search(&mut nodes, 0, &key("FFFFFFFF"));
    assert!(found.is_none());
}

#[test]
fn inbound_node_request_strengthens_the_store() {
    let mut nodes = vec![make_node("AAAAAAAA", 20001)];
    let b = node("BBBBBBBB", 20002);
    let msg = request(
        RequestPayload::QueryRequest(key("0000000F")),
        MessageSender::Node(b),
    );
    match nodes[0].handler.receive(&msg) {
        HandlerAction::Reply(ResponsePayload::QueryResponse(_)) => {}
        _ => panic!("a query must come back as a query response"),
    }
    let ns = query_at(&mut nodes, 0, &key("BBBBBBBB"));
    assert_eq!(ns.len(), 1);
    assert_eq!(ns[0].key.key_id, "BBBBBBBB");
}

#[test]
fn cli_requests_do_not_change_the_store() {
    let mut nodes = vec![make_node("AAAAAAAA", 20001)];
    let _ = query_at(&mut nodes, 0, &key("BBBBBBBB"));
    let msg = request(
        RequestPayload::ListNeighboursRequest,
        MessageSender::Cli,
    );
    match nodes[0].handler.receive(&msg) {
        HandlerAction::Reply(ResponsePayload::ListNeighboursResponse(ns)) => {
            assert!(ns.is_empty());
        }
        _ => panic!("a listing must come back as a listing response"),
    }
}

#[test]
fn visibility_rejects_search_and_connect_on_the_global_transport() {
    let search = request(
        RequestPayload::SearchRequest(key("CCCCCCCC")),
        MessageSender::Cli,
    );
    let err = check_request(&search, &ApiVisibility::Global).unwrap_err();
    assert_eq!(err.error_type, ApiErrorType::External);
    assert!(check_request(&search, &ApiVisibility::Local).is_ok());

    let connect = request(
        RequestPayload::ConnectRequest(node("AAAAAAAA", 20001)),
        MessageSender::Cli,
    );
    assert!(check_request(&connect, &ApiVisibility::Global).is_err());
    assert!(check_request(&connect, &ApiVisibility::Local).is_ok());

    let query = request(
        RequestPayload::QueryRequest(key("AAAAAAAA")),
        MessageSender::Cli,
    );
    assert!(check_request(&query, &ApiVisibility::Global).is_ok());
    assert!(check_request(&query, &ApiVisibility::Local).is_ok());

    let listing = request(RequestPayload::ListNeighboursRequest, MessageSender::Cli);
    assert!(check_request(&listing, &ApiVisibility::Global).is_ok());
}
