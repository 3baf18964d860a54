//! Conversions between the wire schema records and the internal model: the
//! wire shape is a record of optional fields, the internal shape a sum type.
//! Converting inward validates — short ids, address lengths, ports, and that
//! exactly one request or response variant is present; converting outward is
//! total.

use vstd::prelude::*;
use crate::api;
use crate::api::{ApiError, ApiErrorType, valid_key_id};
use crate::wire;

verus! {

/// A schema-level parse failure.
fn schema_error() -> (e: ApiError)
    ensures
        e@.error_type == ApiErrorType::Parse,
{
    ApiError::new(ApiErrorType::Parse, String::from_str("malformed wire record"))
}

/// A wire key names an internal key exactly when its short id is valid.
pub fn to_api_key(k: wire::Key) -> (r: Result<api::Key, ApiError>)
    ensures
        valid_key_id(k@.key_id) ==> (r matches Ok(v) && v@.key_id == k@.key_id && v@.data
            == k@.data && v@.wf()),
        !valid_key_id(k@.key_id) ==> (r matches Err(e) && e@.error_type == ApiErrorType::Parse),
{
    let wire::Key { key_id, data } = k;
    if !api::check_key_id(&key_id) {
        return Err(schema_error());
    }
    Ok(api::Key { key_id, data })
}

/// Any internal key writes out as a wire key.
pub fn from_api_key(k: &api::Key) -> (r: wire::Key)
    ensures
        r@.key_id == k@.key_id,
        r@.data == k@.data,
{
    wire::Key { key_id: k.key_id.clone(), data: api::clone_bytes(&k.data) }
}

/// A wire address names an internal address exactly when it holds four or
/// sixteen octets and a sixteen-bit port.
pub fn to_api_address(a: wire::Address) -> (r: Result<api::Address, ApiError>)
    ensures
        ((a@.ip_data.len() == 4 || a@.ip_data.len() == 16) && a@.port <= 0xFFFF) ==> (
        r matches Ok(v) && v@.ip_data == a@.ip_data && v@.port == a@.port && v@.wf()),
        !((a@.ip_data.len() == 4 || a@.ip_data.len() == 16) && a@.port <= 0xFFFF) ==> (
        r matches Err(e) && e@.error_type == ApiErrorType::Parse),
{
    let wire::Address { ip_data, port } = a;
    if !(ip_data.len() == 4 || ip_data.len() == 16) {
        return Err(schema_error());
    }
    if port > 0xFFFF {
        return Err(schema_error());
    }
    Ok(api::Address { ip_data, port: port as u16 })
}

/// Any internal address writes out as a wire address.
pub fn from_api_address(a: &api::Address) -> (r: wire::Address)
    ensures
        r@.ip_data == a@.ip_data,
        r@.port == a@.port,
{
    wire::Address { ip_data: api::clone_bytes(&a.ip_data), port: a.port as u32 }
}

/// Whether a wire node carries everything an internal node needs.
pub open spec fn wire_node_ok(n: wire::NodeView) -> bool {
    &&& n.key matches Some(k) && valid_key_id(k.key_id)
    &&& n.address matches Some(a) && (a.ip_data.len() == 4 || a.ip_data.len() == 16) && a.port
        <= 0xFFFF
}

/// The internal node a wire node names, when it names one.
pub open spec fn wire_node_view(n: wire::NodeView) -> api::NodeView
    recommends
        wire_node_ok(n),
{
    api::NodeView {
        key: api::KeyView { key_id: n.key->Some_0.key_id, data: n.key->Some_0.data },
        address: api::AddressView {
            ip_data: n.address->Some_0.ip_data,
            port: n.address->Some_0.port as u16,
        },
    }
}

/// A wire node names an internal node exactly when both sub-messages are
/// present and valid.
pub fn to_api_node(n: wire::Node) -> (r: Result<api::Node, ApiError>)
    ensures
        wire_node_ok(n@) ==> (r matches Ok(v) && v@ == wire_node_view(n@) && v@.wf()),
        !wire_node_ok(n@) ==> (r matches Err(e) && e@.error_type == ApiErrorType::Parse),
{
    let wire::Node { key, address } = n;
    let key = match key {
        Some(k) => k,
        None => {
            return Err(schema_error());
        },
    };
    let address = match address {
        Some(a) => a,
        None => {
            return Err(schema_error());
        },
    };
    let key = match to_api_key(key) {
        Ok(k) => k,
        Err(e) => {
            return Err(e);
        },
    };
    let address = match to_api_address(address) {
        Ok(a) => a,
        Err(e) => {
            return Err(e);
        },
    };
    Ok(api::Node { key, address })
}

/// Any internal node writes out as a wire node with both sub-messages.
pub fn from_api_node(n: &api::Node) -> (r: wire::Node)
    ensures
        r@.key matches Some(k) && k.key_id == n@.key.key_id && k.data == n@.key.data,
        r@.address matches Some(a) && a.ip_data == n@.address.ip_data && a.port
            == n@.address.port,
        n@.wf() ==> wire_node_ok(r@) && wire_node_view(r@) == n@,
{
    let r = wire::Node { key: Some(from_api_key(&n.key)), address: Some(from_api_address(&n.address)) };
    proof {
        if n@.wf() {
            assert(wire_node_view(r@) =~= n@);
        }
    }
    r
}

/// Whether a wire request record carries exactly one request and what an
/// internal request needs.
pub open spec fn wire_request_ok(m: wire::GeneralRequestView) -> bool {
    &&& {
        ||| (m.query_request matches Some(q) && m.search_request is None && m.connect_request is None
            && m.list_neighbours_request is None && valid_key_id(q.key->Some_0.key_id)
            && q.key is Some)
        ||| (m.search_request matches Some(q) && m.query_request is None && m.connect_request is None
            && m.list_neighbours_request is None && valid_key_id(q.key->Some_0.key_id)
            && q.key is Some)
        ||| (m.connect_request matches Some(q) && m.query_request is None && m.search_request is None
            && m.list_neighbours_request is None && q.node is Some && wire_node_ok(q.node->Some_0))
        ||| (m.list_neighbours_request is Some && m.query_request is None && m.search_request is None
            && m.connect_request is None)
    }
    &&& match m.sender {
        Some(s) => s.key is Some ==> valid_key_id(s.key->Some_0.key_id),
        None => true,
    }
}

/// Whether a wire sender, with the transport's peer data, admits an
/// internal sender.
pub open spec fn wire_sender_admissible(
    s: Option<wire::MessageSenderView>,
    peer_ip: Seq<u8>,
) -> bool {
    match s {
        Some(ms) => match ms.key {
            Some(k) => valid_key_id(k.key_id) && (peer_ip.len() == 4 || peer_ip.len() == 16)
                && ms.port <= 0xFFFF,
            None => true,
        },
        None => true,
    }
}

/// The internal sender a wire record names: a node assembled from its key,
/// the transport's peer IP and the advertised port, or the local client.
pub open spec fn wire_sender_view(
    s: Option<wire::MessageSenderView>,
    peer_ip: Seq<u8>,
) -> api::MessageSenderView {
    match s {
        Some(ms) => match ms.key {
            Some(k) => api::MessageSenderView::Node(
                api::NodeView {
                    key: api::KeyView { key_id: k.key_id, data: k.data },
                    address: api::AddressView { ip_data: peer_ip, port: ms.port as u16 },
                },
            ),
            None => api::MessageSenderView::Cli,
        },
        None => api::MessageSenderView::Cli,
    }
}

/// The internal payload a wire request record names, when it names one.
pub open spec fn wire_request_payload_view(m: wire::GeneralRequestView) -> api::RequestPayloadView
    recommends
        wire_request_ok(m),
{
    if m.query_request is Some {
        api::RequestPayloadView::QueryRequest(
            api::KeyView {
                key_id: m.query_request->Some_0.key->Some_0.key_id,
                data: m.query_request->Some_0.key->Some_0.data,
            },
        )
    } else if m.search_request is Some {
        api::RequestPayloadView::SearchRequest(
            api::KeyView {
                key_id: m.search_request->Some_0.key->Some_0.key_id,
                data: m.search_request->Some_0.key->Some_0.data,
            },
        )
    } else if m.connect_request is Some {
        api::RequestPayloadView::ConnectRequest(
            wire_node_view(m.connect_request->Some_0.node->Some_0),
        )
    } else {
        api::RequestPayloadView::ListNeighboursRequest
    }
}

/// Whether a wire request record, with the transport's peer data, admits an
/// internal request message.
pub open spec fn wire_request_admissible(m: wire::GeneralRequestView, peer_ip: Seq<u8>) -> bool {
    wire_request_ok(m) && wire_sender_admissible(m.sender, peer_ip)
}

/// Read a wire request record into an internal request message. The sender's
/// address is assembled from the transport's peer IP and the advertised
/// port; a record with no sender key is a local client. Exactly one request
/// variant must be present; the read succeeds exactly on admissible records
/// and names their payload and sender.
pub fn to_request_message(m: wire::GeneralRequest, peer_ip: Vec<u8>) -> (r: Result<
    api::RequestMessage,
    ApiError,
>)
    ensures
        (r is Ok) == wire_request_admissible(m@, peer_ip@),
        r matches Ok(v) ==> v@.payload == wire_request_payload_view(m@) && v@.sender
            == wire_sender_view(m@.sender, peer_ip@) && v@.id == m@.id && v@.version
            == m@.version,
        r matches Err(e) ==> e@.error_type == ApiErrorType::Parse,
{
    let wire::GeneralRequest {
        query_request,
        search_request,
        connect_request,
        list_neighbours_request,
        sender,
        id,
        version,
    } = m;
    let n_present: u32 = if query_request.is_some() {
        1
    } else {
        0
    } + if search_request.is_some() {
        1
    } else {
        0
    } + if connect_request.is_some() {
        1
    } else {
        0
    } + if list_neighbours_request.is_some() {
        1
    } else {
        0
    };
    if n_present != 1 {
        return Err(schema_error());
    }
    let payload: api::RequestPayload = if let Some(q) = query_request {
        match q.key {
            Some(k) => match to_api_key(k) {
                Ok(k) => api::RequestPayload::QueryRequest(k),
                Err(e) => {
                    return Err(e);
                },
            },
            None => {
                return Err(schema_error());
            },
        }
    } else if let Some(q) = search_request {
        match q.key {
            Some(k) => match to_api_key(k) {
                Ok(k) => api::RequestPayload::SearchRequest(k),
                Err(e) => {
                    return Err(e);
                },
            },
            None => {
                return Err(schema_error());
            },
        }
    } else if let Some(q) = connect_request {
        match q.node {
            Some(n) => match to_api_node(n) {
                Ok(n) => api::RequestPayload::ConnectRequest(n),
                Err(e) => {
                    return Err(e);
                },
            },
            None => {
                return Err(schema_error());
            },
        }
    } else {
        api::RequestPayload::ListNeighboursRequest
    };
    let sender: api::MessageSender = match sender {
        Some(s) => {
            let wire::MessageSender { key, port } = s;
            match key {
                Some(k) => {
                    let k = match to_api_key(k) {
                        Ok(k) => k,
                        Err(e) => {
                            return Err(e);
                        },
                    };
                    if !(peer_ip.len() == 4 || peer_ip.len() == 16) {
                        return Err(schema_error());
                    }
                    if port > 0xFFFF {
                        return Err(schema_error());
                    }
                    api::MessageSender::Node(
                        api::Node {
                            key: k,
                            address: api::Address { ip_data: peer_ip, port: port as u16 },
                        },
                    )
                },
                None => api::MessageSender::Cli,
            }
        },
        None => api::MessageSender::Cli,
    };
    Ok(api::RequestMessage { payload, sender, id, version })
}

/// Write an internal request message out as a wire request record, carrying
/// the payload's and sender's contents.
pub fn from_request_message(m: &api::RequestMessage) -> (r: wire::GeneralRequest)
    ensures
        r@.id == m@.id,
        r@.version == m@.version,
        (m@.payload is QueryRequest) == (r@.query_request is Some),
        (m@.payload is SearchRequest) == (r@.search_request is Some),
        (m@.payload is ConnectRequest) == (r@.connect_request is Some),
        (m@.payload is ListNeighboursRequest) == (r@.list_neighbours_request is Some),
        m@.payload matches api::RequestPayloadView::QueryRequest(k) ==> (
        r@.query_request matches Some(q) && q.key matches Some(kk) && kk.key_id == k.key_id
            && kk.data == k.data),
        m@.payload matches api::RequestPayloadView::SearchRequest(k) ==> (
        r@.search_request matches Some(q) && q.key matches Some(kk) && kk.key_id == k.key_id
            && kk.data == k.data),
        m@.payload matches api::RequestPayloadView::ConnectRequest(n) ==> (
        r@.connect_request matches Some(q) && q.node matches Some(nn) && (n.wf()
            ==> wire_node_ok(nn) && wire_node_view(nn) == n)),
        m@.sender matches api::MessageSenderView::Node(n) ==> (r@.sender matches Some(sv)
            && sv.key matches Some(kk) && kk.key_id == n.key.key_id && kk.data == n.key.data
            && sv.port == n.address.port),
        m@.sender is Cli ==> r@.sender is None,
{
    let mut out = wire::GeneralRequest::new();
    out.set_id(m.id);
    out.set_version(m.version.clone());
    match &m.payload {
        api::RequestPayload::QueryRequest(k) => {
            let mut q = wire::QueryRequest::new();
            q.set_key(from_api_key(k));
            out.set_query_request(q);
        },
        api::RequestPayload::SearchRequest(k) => {
            let mut q = wire::SearchRequest::new();
            q.set_key(from_api_key(k));
            out.set_search_request(q);
        },
        api::RequestPayload::ConnectRequest(n) => {
            let mut q = wire::ConnectRequest::new();
            q.set_node(from_api_node(n));
            out.set_connect_request(q);
        },
        api::RequestPayload::ListNeighboursRequest => {
            out.set_list_neighbours_request(wire::ListNeighboursRequest::new());
        },
    }
    match &m.sender {
        api::MessageSender::Node(n) => {
            let mut s = wire::MessageSender::new();
            s.set_key(from_api_key(&n.key));
            s.set_port(n.address.port as u32);
            out.set_sender(s);
        },
        api::MessageSender::Cli => {},
    }
    out
}

} // verus!

verus! {

/// Whether every node of a wire list is complete and valid.
pub open spec fn wire_nodes_ok(s: Seq<wire::NodeView>) -> bool {
    forall|i: int| 0 <= i < s.len() ==> wire_node_ok(#[trigger] s[i])
}

/// The internal nodes a wire list names, when it names them.
pub open spec fn wire_nodes_view(s: Seq<wire::NodeView>) -> Seq<api::NodeView> {
    Seq::new(s.len(), |i: int| wire_node_view(s[i]))
}

/// The view of each wire node in a list.
pub open spec fn views_of_wire_nodes(s: Seq<wire::Node>) -> Seq<wire::NodeView> {
    Seq::new(s.len(), |i: int| s[i]@)
}

/// A wire response record carries exactly one response and what an internal
/// response needs.
pub open spec fn wire_response_ok(m: wire::GeneralResponseView) -> bool {
    &&& {
        ||| (m.query_response matches Some(q) && m.search_response is None
            && m.connect_response is None && m.list_neighbours_response is None
            && m.api_error is None && wire_nodes_ok(q.nodes))
        ||| (m.search_response matches Some(q) && m.query_response is None
            && m.connect_response is None && m.list_neighbours_response is None
            && m.api_error is None && (q.node matches Some(n) ==> wire_node_ok(n)))
        ||| (m.connect_response is Some && m.query_response is None && m.search_response is None
            && m.list_neighbours_response is None && m.api_error is None)
        ||| (m.list_neighbours_response matches Some(q) && m.query_response is None
            && m.search_response is None && m.connect_response is None && m.api_error is None
            && wire_nodes_ok(q.nodes))
        ||| (m.api_error is Some && m.query_response is None && m.search_response is None
            && m.connect_response is None && m.list_neighbours_response is None)
    }
    &&& match m.sender {
        Some(s) => s.key is Some ==> valid_key_id(s.key->Some_0.key_id),
        None => true,
    }
}

/// The internal payload a wire response record names, when it names one.
pub open spec fn wire_response_payload_view(m: wire::GeneralResponseView) -> api::ResponsePayloadView
    recommends
        wire_response_ok(m),
{
    if m.query_response is Some {
        api::ResponsePayloadView::QueryResponse(wire_nodes_view(m.query_response->Some_0.nodes))
    } else if m.search_response is Some {
        api::ResponsePayloadView::SearchResponse(
            match m.search_response->Some_0.node {
                Some(n) => Some(wire_node_view(n)),
                None => None,
            },
        )
    } else if m.connect_response is Some {
        api::ResponsePayloadView::ConnectResponse
    } else if m.list_neighbours_response is Some {
        api::ResponsePayloadView::ListNeighboursResponse(
            wire_nodes_view(m.list_neighbours_response->Some_0.nodes),
        )
    } else {
        api::ResponsePayloadView::Error(
            api::ApiErrorView {
                error_type: m.api_error->Some_0.error_type,
                msg: m.api_error->Some_0.msg,
            },
        )
    }
}

/// Whether a wire response record, with the transport's peer data, admits an
/// internal response message.
pub open spec fn wire_response_admissible(m: wire::GeneralResponseView, peer_ip: Seq<u8>) -> bool {
    wire_response_ok(m) && wire_sender_admissible(m.sender, peer_ip)
}

/// Read a wire response record into an internal response message. Exactly
/// one response variant must be present; the sender is read like a
/// request's. The read succeeds exactly on admissible records and names
/// their payload and sender.
pub fn to_response_message(m: wire::GeneralResponse, peer_ip: Vec<u8>) -> (r: Result<
    api::ResponseMessage,
    ApiError,
>)
    ensures
        (r is Ok) == wire_response_admissible(m@, peer_ip@),
        r matches Ok(v) ==> v@.payload == wire_response_payload_view(m@) && v@.sender
            == wire_sender_view(m@.sender, peer_ip@) && v@.id == m@.id && v@.version
            == m@.version,
        r matches Err(e) ==> e@.error_type == ApiErrorType::Parse,
{
    let wire::GeneralResponse {
        query_response,
        search_response,
        connect_response,
        list_neighbours_response,
        api_error,
        sender,
        id,
        version,
    } = m;
    let n_present: u32 = if query_response.is_some() {
        1
    } else {
        0
    } + if search_response.is_some() {
        1
    } else {
        0
    } + if connect_response.is_some() {
        1
    } else {
        0
    } + if list_neighbours_response.is_some() {
        1
    } else {
        0
    } + if api_error.is_some() {
        1
    } else {
        0
    };
    if n_present != 1 {
        return Err(schema_error());
    }
    let payload: api::ResponsePayload = if let Some(q) = query_response {
        match nodes_to_api(q.nodes) {
            Ok(ns) => api::ResponsePayload::QueryResponse(ns),
            Err(e) => {
                return Err(e);
            },
        }
    } else if let Some(q) = search_response {
        match q.node {
            Some(n) => match to_api_node(n) {
                Ok(n) => api::ResponsePayload::SearchResponse(Some(n)),
                Err(e) => {
                    return Err(e);
                },
            },
            None => api::ResponsePayload::SearchResponse(None),
        }
    } else if let Some(_q) = connect_response {
        api::ResponsePayload::ConnectResponse
    } else if let Some(q) = list_neighbours_response {
        match nodes_to_api(q.nodes) {
            Ok(ns) => api::ResponsePayload::ListNeighboursResponse(ns),
            Err(e) => {
                return Err(e);
            },
        }
    } else {
        let e = match api_error {
            Some(e) => e,
            None => {
                return Err(schema_error());
            },
        };
        api::ResponsePayload::Error(api::ApiError { error_type: e.error_type, msg: e.msg })
    };
    let sender: api::MessageSender = match sender {
        Some(s) => {
            let wire::MessageSender { key, port } = s;
            match key {
                Some(k) => {
                    let k = match to_api_key(k) {
                        Ok(k) => k,
                        Err(e) => {
                            return Err(e);
                        },
                    };
                    if !(peer_ip.len() == 4 || peer_ip.len() == 16) {
                        return Err(schema_error());
                    }
                    if port > 0xFFFF {
                        return Err(schema_error());
                    }
                    api::MessageSender::Node(
                        api::Node {
                            key: k,
                            address: api::Address { ip_data: peer_ip, port: port as u16 },
                        },
                    )
                },
                None => api::MessageSender::Cli,
            }
        },
        None => api::MessageSender::Cli,
    };
    Ok(api::ResponseMessage { payload, sender, id, version })
}

/// Convert a list of wire nodes: succeeds exactly when every one is
/// complete and valid, naming each.
pub fn nodes_to_api(ns: Vec<wire::Node>) -> (r: Result<Vec<api::Node>, ApiError>)
    ensures
        (r is Ok) == wire_nodes_ok(views_of_wire_nodes(ns@)),
        r matches Ok(v) ==> v@.len() == ns@.len() && forall|i: int|
            0 <= i < v@.len() ==> (#[trigger] v@[i])@ == wire_node_view(ns@[i]@)
                && v@[i]@.wf(),
        r matches Err(e) ==> e@.error_type == ApiErrorType::Parse,
{
    let ghost orig = ns@;
    let mut out: Vec<api::Node> = Vec::new();
    let mut rest = ns;
    while rest.len() > 0
        invariant
            orig == ns@,
            out@.len() + rest@.len() == orig.len(),
            forall|i: int| 0 <= i < rest@.len() ==> (#[trigger] rest@[i]) == orig[out@.len() + i],
            forall|i: int|
                0 <= i < out@.len() ==> (#[trigger] out@[i])@ == wire_node_view(orig[i]@)
                    && out@[i]@.wf() && wire_node_ok(orig[i]@),
        decreases rest@.len(),
    {
        let ghost k = out@.len() as int;
        let n = rest.remove(0);
        proof {
            assert(n == orig[k]);
        }
        match to_api_node(n) {
            Ok(v) => {
                out.push(v);
            },
            Err(e) => {
                proof {
                    assert(!wire_node_ok(orig[k]@));
                    assert(views_of_wire_nodes(orig)[k] == orig[k]@);
                    assert(!wire_nodes_ok(views_of_wire_nodes(orig)));
                }
                return Err(e);
            },
        }
    }
    proof {
        assert forall|i: int|
            0 <= i < views_of_wire_nodes(orig).len() implies wire_node_ok(
            #[trigger] views_of_wire_nodes(orig)[i],
        ) by {
            assert(out@[i]@ == wire_node_view(orig[i]@));
            assert(views_of_wire_nodes(orig)[i] == orig[i]@);
        };
    }
    Ok(out)
}

/// Write an internal response message out as a wire response record,
/// carrying the payload's and sender's contents.
pub fn from_response_message(m: &api::ResponseMessage) -> (r: wire::GeneralResponse)
    ensures
        r@.id == m@.id,
        r@.version == m@.version,
        (m@.payload is QueryResponse) == (r@.query_response is Some),
        (m@.payload is SearchResponse) == (r@.search_response is Some),
        (m@.payload is ConnectResponse) == (r@.connect_response is Some),
        (m@.payload is ListNeighboursResponse) == (r@.list_neighbours_response is Some),
        (m@.payload is Error) == (r@.api_error is Some),
        m@.payload matches api::ResponsePayloadView::QueryResponse(ns) ==> (
        r@.query_response matches Some(q) && q.nodes.len() == ns.len() && ((forall|i: int|
            0 <= i < ns.len() ==> (#[trigger] ns[i]).wf()) ==> wire_nodes_ok(q.nodes)
            && wire_nodes_view(q.nodes) == ns)),
        m@.payload matches api::ResponsePayloadView::ListNeighboursResponse(ns) ==> (
        r@.list_neighbours_response matches Some(q) && q.nodes.len() == ns.len() && ((forall|
            i: int,
        |
            0 <= i < ns.len() ==> (#[trigger] ns[i]).wf()) ==> wire_nodes_ok(q.nodes)
            && wire_nodes_view(q.nodes) == ns)),
        m@.payload matches api::ResponsePayloadView::SearchResponse(opt) ==> (
        r@.search_response matches Some(q) && (match opt {
            Some(nv) => q.node matches Some(nn) && (nv.wf() ==> wire_node_ok(nn)
                && wire_node_view(nn) == nv),
            None => q.node is None,
        })),
        m@.payload matches api::ResponsePayloadView::Error(e) ==> (r@.api_error matches Some(w)
            && w.error_type == e.error_type && w.msg == e.msg),
        m@.sender matches api::MessageSenderView::Node(n) ==> (r@.sender matches Some(sv)
            && sv.key matches Some(kk) && kk.key_id == n.key.key_id && kk.data == n.key.data
            && sv.port == n.address.port),
        m@.sender is Cli ==> r@.sender is None,
{
    let mut out = wire::GeneralResponse::new();
    out.set_id(m.id);
    out.set_version(m.version.clone());
    match &m.payload {
        api::ResponsePayload::QueryResponse(ns) => {
            let converted = nodes_from_api(ns);
            let ghost cv = converted@;
            let mut q = wire::QueryResponse::new();
            q.set_nodes(converted);
            out.set_query_response(q);
            proof {
                lemma_wire_nodes_carry(ns@, cv, out@.query_response->Some_0.nodes);
            }
        },
        api::ResponsePayload::SearchResponse(n) => {
            let mut q = wire::SearchResponse::new();
            match n {
                Some(n) => {
                    q.set_node(from_api_node(n));
                },
                None => {},
            }
            out.set_search_response(q);
        },
        api::ResponsePayload::ConnectResponse => {
            out.set_connect_response(wire::ConnectResponse::new());
        },
        api::ResponsePayload::ListNeighboursResponse(ns) => {
            let converted = nodes_from_api(ns);
            let ghost cv = converted@;
            let mut q = wire::ListNeighboursResponse::new();
            q.set_nodes(converted);
            out.set_list_neighbours_response(q);
            proof {
                lemma_wire_nodes_carry(ns@, cv, out@.list_neighbours_response->Some_0.nodes);
            }
        },
        api::ResponsePayload::Error(e) => {
            let mut q = wire::ApiError::new();
            q.set_error_type(e.error_type);
            q.set_msg(e.msg.clone());
            out.set_api_error(q);
        },
    }
    match &m.sender {
        api::MessageSender::Node(n) => {
            let mut s = wire::MessageSender::new();
            s.set_key(from_api_key(&n.key));
            s.set_port(n.address.port as u32);
            out.set_sender(s);
        },
        api::MessageSender::Cli => {},
    }
    out
}

/// A converted node list carries the internal nodes: when every source node
/// is well formed, the wire views are valid and name the sources.
proof fn lemma_wire_nodes_carry(src: Seq<api::Node>, cv: Seq<wire::Node>, wn: Seq<wire::NodeView>)
    requires
        cv.len() == src.len(),
        wn == Seq::new(cv.len(), |i: int| cv[i]@),
        forall|i: int|
            0 <= i < cv.len() && (#[trigger] src[i])@.wf() ==> wire_node_ok(cv[i]@)
                && wire_node_view(cv[i]@) == src[i]@,
    ensures
        wn.len() == crate::api::views_of_nodes(src).len(),
        (forall|i: int|
            0 <= i < crate::api::views_of_nodes(src).len() ==> (#[trigger] crate::api::views_of_nodes(
                src,
            )[i]).wf()) ==> wire_nodes_ok(wn) && wire_nodes_view(wn)
            == crate::api::views_of_nodes(src),
{
    let vs = crate::api::views_of_nodes(src);
    if forall|i: int| 0 <= i < vs.len() ==> (#[trigger] vs[i]).wf() {
        assert forall|i: int| 0 <= i < wn.len() implies wire_node_ok(#[trigger] wn[i]) by {
            assert(vs[i] == src[i]@);
            assert(src[i]@.wf());
            assert(wn[i] == cv[i]@);
        };
        assert forall|i: int| 0 <= i < wn.len() implies #[trigger] wire_nodes_view(wn)[i]
            == vs[i] by {
            assert(vs[i] == src[i]@);
            assert(src[i]@.wf());
            assert(wn[i] == cv[i]@);
            assert(wire_nodes_view(wn)[i] == wire_node_view(wn[i]));
        };
        assert(wire_nodes_view(wn) =~= vs);
    }
}

/// Convert a list of internal nodes to wire nodes, carrying each node's
/// contents.
pub fn nodes_from_api(ns: &Vec<api::Node>) -> (r: Vec<wire::Node>)
    ensures
        r@.len() == ns@.len(),
        forall|i: int|
            0 <= i < r@.len() ==> ((#[trigger] r@[i])@.key matches Some(kk) && kk.key_id
                == ns@[i]@.key.key_id && kk.data == ns@[i]@.key.data) && (r@[i]@.address matches Some(a)
                && a.ip_data == ns@[i]@.address.ip_data && a.port == ns@[i]@.address.port),
        forall|i: int|
            0 <= i < r@.len() && (#[trigger] ns@[i])@.wf() ==> wire_node_ok(r@[i]@)
                && wire_node_view(r@[i]@) == ns@[i]@,
{
    let mut out: Vec<wire::Node> = Vec::new();
    let mut i: usize = 0;
    while i < ns.len()
        invariant
            0 <= i <= ns@.len(),
            out@.len() == i,
            forall|k: int|
                0 <= k < i ==> ((#[trigger] out@[k])@.key matches Some(kk) && kk.key_id
                    == ns@[k]@.key.key_id && kk.data == ns@[k]@.key.data) && (
                out@[k]@.address matches Some(a) && a.ip_data == ns@[k]@.address.ip_data
                    && a.port == ns@[k]@.address.port),
            forall|k: int|
                0 <= k < i && (#[trigger] ns@[k])@.wf() ==> wire_node_ok(out@[k]@)
                    && wire_node_view(out@[k]@) == ns@[k]@,
        decreases ns@.len() - i,
    {
        out.push(from_api_node(&ns[i]));
        i += 1;
    }
    out
}

} // verus!
