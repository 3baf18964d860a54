//! The byte codec for messages: a fixed, canonical binary layout for the
//! request and response messages of the protocol. Strings and byte fields
//! are length-prefixed, sub-messages follow in a fixed order, and tagged
//! unions carry one tag byte. Decoding checks every invariant a message must
//! satisfy — eight-hex-digit key ids, four- or sixteen-octet addresses,
//! known tags — so every decoded message is well formed.

use vstd::prelude::*;
use vstd::utf8::{encode_utf8, decode_utf8, valid_utf8};
use crate::api::{
    KeyView, AddressView, NodeView, MessageSenderView, ApiErrorView, ApiErrorType,
    RequestPayloadView, ResponsePayloadView, RequestMessageView, ResponseMessageView, valid_key_id,
};
use crate::framing::{be_bytes, be_val, lemma_be_round_trip};

verus! {

// ------------------------------------------------------------------
// Primitives: 32-bit values, byte strings, character strings, ports.
// ------------------------------------------------------------------

/// A length-prefixed byte string.
pub open spec fn enc_bytes(d: Seq<u8>) -> Seq<u8> {
    be_bytes(d.len() as u32) + d
}

/// Whether a byte string fits its length prefix.
pub open spec fn bytes_ok(d: Seq<u8>) -> bool {
    d.len() <= 0xFFFF_FFFF
}

/// Read a length-prefixed byte string off the front.
pub open spec fn dec_bytes(b: Seq<u8>) -> Option<(Seq<u8>, Seq<u8>)> {
    if b.len() < 4 {
        None
    } else {
        let n = be_val(b[0], b[1], b[2], b[3]);
        if b.len() < 4 + n {
            None
        } else {
            Some((b.subrange(4, 4 + n), b.skip(4 + n)))
        }
    }
}

/// A length-prefixed byte string reads back as itself.
pub proof fn lemma_dec_bytes(d: Seq<u8>, rest: Seq<u8>)
    requires
        bytes_ok(d),
    ensures
        dec_bytes(enc_bytes(d) + rest) == Some((d, rest)),
{
    let b = enc_bytes(d) + rest;
    lemma_be_round_trip(d.len() as u32);
    assert(b[0] == be_bytes(d.len() as u32)[0] && b[1] == be_bytes(d.len() as u32)[1] && b[2]
        == be_bytes(d.len() as u32)[2] && b[3] == be_bytes(d.len() as u32)[3]);
    assert(b.subrange(4, 4 + d.len() as int) =~= d);
    assert(b.skip(4 + d.len() as int) =~= rest);
}

/// A length-prefixed character string: its UTF-8 bytes, length-prefixed.
pub open spec fn enc_str(s: Seq<char>) -> Seq<u8> {
    enc_bytes(encode_utf8(s))
}

/// Whether a character string fits its length prefix.
pub open spec fn str_ok(s: Seq<char>) -> bool {
    encode_utf8(s).len() <= 0xFFFF_FFFF
}

/// Read a length-prefixed character string off the front; the bytes must be
/// valid UTF-8.
pub open spec fn dec_str(b: Seq<u8>) -> Option<(Seq<char>, Seq<u8>)> {
    match dec_bytes(b) {
        Some((d, rest)) => if valid_utf8(d) {
            Some((decode_utf8(d), rest))
        } else {
            None
        },
        None => None,
    }
}

/// A length-prefixed string reads back as itself.
pub proof fn lemma_dec_str(s: Seq<char>, rest: Seq<u8>)
    requires
        str_ok(s),
    ensures
        dec_str(enc_str(s) + rest) == Some((s, rest)),
{
    lemma_dec_bytes(encode_utf8(s), rest);
    vstd::utf8::encode_utf8_valid_utf8(s);
    vstd::utf8::encode_utf8_decode_utf8(s);
}

/// A two-byte big-endian port.
pub open spec fn enc_port(p: u16) -> Seq<u8> {
    seq![(p / 0x100) as u8, (p % 0x100) as u8]
}

/// Read a two-byte big-endian port off the front.
pub open spec fn dec_port(b: Seq<u8>) -> Option<(u16, Seq<u8>)> {
    if b.len() < 2 {
        None
    } else {
        Some(((b[0] * 0x100 + b[1]) as u16, b.skip(2)))
    }
}

/// A port reads back as itself.
pub proof fn lemma_dec_port(p: u16, rest: Seq<u8>)
    ensures
        dec_port(enc_port(p) + rest) == Some((p, rest)),
{
    let b = enc_port(p) + rest;
    assert(b[0] == (p / 0x100) as u8 && b[1] == (p % 0x100) as u8);
    assert((p / 0x100) * 0x100 + (p % 0x100) == p);
    assert(b.skip(2) =~= rest);
}

// ------------------------------------------------------------------
// Keys, addresses, nodes, senders, errors.
// ------------------------------------------------------------------

/// A key: its short id then its key material.
pub open spec fn enc_key(k: KeyView) -> Seq<u8> {
    enc_str(k.key_id) + enc_bytes(k.data)
}

/// Whether a key fits the wire: a valid short id and bounded key material.
pub open spec fn key_ok(k: KeyView) -> bool {
    k.wf() && bytes_ok(k.data)
}

/// Read a key off the front; its short id must be eight hexadecimal digits.
pub open spec fn dec_key(b: Seq<u8>) -> Option<(KeyView, Seq<u8>)> {
    match dec_str(b) {
        Some((kid, r1)) => if valid_key_id(kid) {
            match dec_bytes(r1) {
                Some((d, r2)) => Some((KeyView { key_id: kid, data: d }, r2)),
                None => None,
            }
        } else {
            None
        },
        None => None,
    }
}

/// The UTF-8 encoding of a string takes at most four bytes per character.
pub proof fn lemma_encode_utf8_len(s: Seq<char>)
    ensures
        encode_utf8(s).len() <= 4 * s.len(),
    decreases s.len(),
{
    if s.len() > 0 {
        lemma_encode_utf8_len(s.drop_first());
    }
}

/// A valid key id is eight characters, so it always fits the wire.
pub proof fn lemma_key_id_str_ok(kid: Seq<char>)
    requires
        valid_key_id(kid),
    ensures
        str_ok(kid),
{
    lemma_encode_utf8_len(kid);
}

/// A key reads back as itself; what is read is well formed.
pub proof fn lemma_dec_key(k: KeyView, rest: Seq<u8>)
    requires
        key_ok(k),
    ensures
        dec_key(enc_key(k) + rest) == Some((k, rest)),
{
    lemma_key_id_str_ok(k.key_id);
    assert(enc_key(k) + rest =~= enc_str(k.key_id) + (enc_bytes(k.data) + rest));
    lemma_dec_str(k.key_id, enc_bytes(k.data) + rest);
    lemma_dec_bytes(k.data, rest);
    assert(dec_key(enc_key(k) + rest) matches Some(p) && p.0 =~= k && p.1 == rest);
}

/// An address: its octets then its port.
pub open spec fn enc_address(a: AddressView) -> Seq<u8> {
    enc_bytes(a.ip_data) + enc_port(a.port)
}

/// Whether an address fits the wire.
pub open spec fn address_ok(a: AddressView) -> bool {
    a.wf()
}

/// Read an address off the front; it must hold four or sixteen octets.
pub open spec fn dec_address(b: Seq<u8>) -> Option<(AddressView, Seq<u8>)> {
    match dec_bytes(b) {
        Some((ip, r1)) => if ip.len() == 4 || ip.len() == 16 {
            match dec_port(r1) {
                Some((p, r2)) => Some((AddressView { ip_data: ip, port: p }, r2)),
                None => None,
            }
        } else {
            None
        },
        None => None,
    }
}

/// An address reads back as itself.
pub proof fn lemma_dec_address(a: AddressView, rest: Seq<u8>)
    requires
        address_ok(a),
    ensures
        dec_address(enc_address(a) + rest) == Some((a, rest)),
{
    assert(enc_address(a) + rest =~= enc_bytes(a.ip_data) + (enc_port(a.port) + rest));
    lemma_dec_bytes(a.ip_data, enc_port(a.port) + rest);
    lemma_dec_port(a.port, rest);
    assert(dec_address(enc_address(a) + rest) matches Some(p) && p.0 =~= a && p.1 == rest);
}

/// A node: its key then its address.
pub open spec fn enc_node(n: NodeView) -> Seq<u8> {
    enc_key(n.key) + enc_address(n.address)
}

/// Whether a node fits the wire.
pub open spec fn node_ok(n: NodeView) -> bool {
    key_ok(n.key) && address_ok(n.address)
}

/// Read a node off the front.
pub open spec fn dec_node(b: Seq<u8>) -> Option<(NodeView, Seq<u8>)> {
    match dec_key(b) {
        Some((k, r1)) => match dec_address(r1) {
            Some((a, r2)) => Some((NodeView { key: k, address: a }, r2)),
            None => None,
        },
        None => None,
    }
}

/// A node reads back as itself.
pub proof fn lemma_dec_node(n: NodeView, rest: Seq<u8>)
    requires
        node_ok(n),
    ensures
        dec_node(enc_node(n) + rest) == Some((n, rest)),
{
    assert(enc_node(n) + rest =~= enc_key(n.key) + (enc_address(n.address) + rest));
    lemma_dec_key(n.key, enc_address(n.address) + rest);
    lemma_dec_address(n.address, rest);
    assert(dec_node(enc_node(n) + rest) matches Some(p) && p.0 =~= n && p.1 == rest);
}

/// A sender: a tag byte, then the node for a node sender.
pub open spec fn enc_sender(s: MessageSenderView) -> Seq<u8> {
    match s {
        MessageSenderView::Cli => seq![0u8],
        MessageSenderView::Node(n) => seq![1u8] + enc_node(n),
    }
}

/// Whether a sender fits the wire.
pub open spec fn sender_ok(s: MessageSenderView) -> bool {
    match s {
        MessageSenderView::Cli => true,
        MessageSenderView::Node(n) => node_ok(n),
    }
}

/// Read a sender off the front.
pub open spec fn dec_sender(b: Seq<u8>) -> Option<(MessageSenderView, Seq<u8>)> {
    if b.len() < 1 {
        None
    } else if b[0] == 0 {
        Some((MessageSenderView::Cli, b.skip(1)))
    } else if b[0] == 1 {
        match dec_node(b.skip(1)) {
            Some((n, r)) => Some((MessageSenderView::Node(n), r)),
            None => None,
        }
    } else {
        None
    }
}

/// A sender reads back as itself.
pub proof fn lemma_dec_sender(s: MessageSenderView, rest: Seq<u8>)
    requires
        sender_ok(s),
    ensures
        dec_sender(enc_sender(s) + rest) == Some((s, rest)),
{
    match s {
        MessageSenderView::Cli => {
            assert((enc_sender(s) + rest).skip(1) =~= rest);
        },
        MessageSenderView::Node(n) => {
            assert((enc_sender(s) + rest).skip(1) =~= enc_node(n) + rest);
            lemma_dec_node(n, rest);
        },
    }
}

/// The fixed numbering of error kinds on the wire.
pub open spec fn error_type_tag(t: ApiErrorType) -> u8 {
    match t {
        ApiErrorType::NoError => 0,
        ApiErrorType::Parse => 1,
        ApiErrorType::Configuration => 2,
        ApiErrorType::External => 3,
        ApiErrorType::Internal => 4,
    }
}

/// The error kind a tag byte names.
pub open spec fn error_type_of_tag(b: u8) -> Option<ApiErrorType> {
    if b == 0 {
        Some(ApiErrorType::NoError)
    } else if b == 1 {
        Some(ApiErrorType::Parse)
    } else if b == 2 {
        Some(ApiErrorType::Configuration)
    } else if b == 3 {
        Some(ApiErrorType::External)
    } else if b == 4 {
        Some(ApiErrorType::Internal)
    } else {
        None
    }
}

/// An error: its kind's tag, then its message.
pub open spec fn enc_api_error(e: ApiErrorView) -> Seq<u8> {
    seq![error_type_tag(e.error_type)] + enc_str(e.msg)
}

/// Whether an error fits the wire.
pub open spec fn api_error_ok(e: ApiErrorView) -> bool {
    str_ok(e.msg)
}

/// Read an error off the front.
pub open spec fn dec_api_error(b: Seq<u8>) -> Option<(ApiErrorView, Seq<u8>)> {
    if b.len() < 1 {
        None
    } else {
        match error_type_of_tag(b[0]) {
            Some(t) => match dec_str(b.skip(1)) {
                Some((m, r)) => Some((ApiErrorView { error_type: t, msg: m }, r)),
                None => None,
            },
            None => None,
        }
    }
}

/// An error reads back as itself.
pub proof fn lemma_dec_api_error(e: ApiErrorView, rest: Seq<u8>)
    requires
        api_error_ok(e),
    ensures
        dec_api_error(enc_api_error(e) + rest) == Some((e, rest)),
{
    assert((enc_api_error(e) + rest).skip(1) =~= enc_str(e.msg) + rest);
    lemma_dec_str(e.msg, rest);
    assert(dec_api_error(enc_api_error(e) + rest) matches Some(p) && p.0 =~= e && p.1 == rest);
}

// ------------------------------------------------------------------
// Node lists.
// ------------------------------------------------------------------

/// The nodes of a list, one after another.
#[verifier::opaque]
pub open spec fn enc_node_items(s: Seq<NodeView>) -> Seq<u8>
    decreases s.len(),
{
    if s.len() == 0 {
        Seq::empty()
    } else {
        enc_node(s.first()) + enc_node_items(s.drop_first())
    }
}

/// A node list: its length, then the nodes.
pub open spec fn enc_nodes(s: Seq<NodeView>) -> Seq<u8> {
    be_bytes(s.len() as u32) + enc_node_items(s)
}

/// Whether a node list fits the wire.
pub open spec fn nodes_ok(s: Seq<NodeView>) -> bool {
    s.len() <= 0xFFFF_FFFF && forall|i: int| 0 <= i < s.len() ==> node_ok(#[trigger] s[i])
}

/// Read `n` nodes off the front.
#[verifier::opaque]
pub open spec fn dec_node_items(b: Seq<u8>, n: nat) -> Option<(Seq<NodeView>, Seq<u8>)>
    decreases n,
{
    if n == 0 {
        Some((Seq::empty(), b))
    } else {
        match dec_node(b) {
            Some((v, r1)) => match dec_node_items(r1, (n - 1) as nat) {
                Some((vs, r2)) => Some((seq![v] + vs, r2)),
                None => None,
            },
            None => None,
        }
    }
}

/// Read a node list off the front.
pub open spec fn dec_nodes(b: Seq<u8>) -> Option<(Seq<NodeView>, Seq<u8>)> {
    if b.len() < 4 {
        None
    } else {
        let n = be_val(b[0], b[1], b[2], b[3]);
        dec_node_items(b.skip(4), n as nat)
    }
}

/// Sequence concatenation associates.
proof fn lemma_concat_assoc<A>(a: Seq<A>, b: Seq<A>, c: Seq<A>)
    ensures
        (a + b) + c == a + (b + c),
{
    assert((a + b) + c =~= a + (b + c));
}

/// A non-empty sequence is its first element followed by the rest.
proof fn lemma_cons_first<A>(s: Seq<A>)
    requires
        s.len() > 0,
    ensures
        seq![s.first()] + s.drop_first() == s,
{
    assert(seq![s.first()] + s.drop_first() =~= s);
}

/// A run of encoded nodes reads back as itself.
pub proof fn lemma_dec_node_items(s: Seq<NodeView>, rest: Seq<u8>)
    requires
        forall|i: int| 0 <= i < s.len() ==> node_ok(#[trigger] s[i]),
    ensures
        dec_node_items(enc_node_items(s) + rest, s.len() as nat) == Some((s, rest)),
    decreases s.len(),
{
    if s.len() == 0 {
        assert(enc_node_items(s) == Seq::<u8>::empty()) by {
            reveal(enc_node_items);
        };
        assert(enc_node_items(s) + rest =~= rest);
        assert(dec_node_items(rest, 0) == Some((Seq::<NodeView>::empty(), rest))) by {
            reveal(dec_node_items);
        };
        assert(s =~= Seq::<NodeView>::empty());
    } else {
        let hd = s.first();
        let tl = s.drop_first();
        let tail_bytes = enc_node_items(tl) + rest;
        assert(enc_node_items(s) == enc_node(hd) + enc_node_items(tl)) by {
            reveal(enc_node_items);
        };
        lemma_concat_assoc(enc_node(hd), enc_node_items(tl), rest);
        assert(node_ok(hd));
        lemma_dec_node(hd, tail_bytes);
        assert(forall|i: int| 0 <= i < tl.len() ==> node_ok(#[trigger] tl[i]));
        lemma_dec_node_items(tl, rest);
        assert(dec_node_items(enc_node_items(s) + rest, s.len() as nat) == Some((
            seq![hd] + tl,
            rest,
        ))) by {
            reveal(dec_node_items);
        };
        lemma_cons_first(s);
    }
}

/// A node list reads back as itself.
#[verifier::rlimit(100)]
pub proof fn lemma_dec_nodes(s: Seq<NodeView>, rest: Seq<u8>)
    requires
        nodes_ok(s),
    ensures
        dec_nodes(enc_nodes(s) + rest) == Some((s, rest)),
{
    let b = enc_nodes(s) + rest;
    lemma_be_round_trip(s.len() as u32);
    assert(b[0] == be_bytes(s.len() as u32)[0] && b[1] == be_bytes(s.len() as u32)[1] && b[2]
        == be_bytes(s.len() as u32)[2] && b[3] == be_bytes(s.len() as u32)[3]);
    assert(b.skip(4) =~= enc_node_items(s) + rest);
    lemma_dec_node_items(s, rest);
}

// ------------------------------------------------------------------
// Payloads and messages.
// ------------------------------------------------------------------

/// A request payload: a tag byte, then the request's own fields.
pub open spec fn enc_request_payload(p: RequestPayloadView) -> Seq<u8> {
    match p {
        RequestPayloadView::QueryRequest(k) => seq![1u8] + enc_key(k),
        RequestPayloadView::SearchRequest(k) => seq![2u8] + enc_key(k),
        RequestPayloadView::ConnectRequest(n) => seq![3u8] + enc_node(n),
        RequestPayloadView::ListNeighboursRequest => seq![4u8],
    }
}

/// Whether a request payload fits the wire.
pub open spec fn request_payload_ok(p: RequestPayloadView) -> bool {
    match p {
        RequestPayloadView::QueryRequest(k) => key_ok(k),
        RequestPayloadView::SearchRequest(k) => key_ok(k),
        RequestPayloadView::ConnectRequest(n) => node_ok(n),
        RequestPayloadView::ListNeighboursRequest => true,
    }
}

/// Read a request payload off the front.
pub open spec fn dec_request_payload(b: Seq<u8>) -> Option<(RequestPayloadView, Seq<u8>)> {
    if b.len() < 1 {
        None
    } else if b[0] == 1 {
        match dec_key(b.skip(1)) {
            Some((k, r)) => Some((RequestPayloadView::QueryRequest(k), r)),
            None => None,
        }
    } else if b[0] == 2 {
        match dec_key(b.skip(1)) {
            Some((k, r)) => Some((RequestPayloadView::SearchRequest(k), r)),
            None => None,
        }
    } else if b[0] == 3 {
        match dec_node(b.skip(1)) {
            Some((n, r)) => Some((RequestPayloadView::ConnectRequest(n), r)),
            None => None,
        }
    } else if b[0] == 4 {
        Some((RequestPayloadView::ListNeighboursRequest, b.skip(1)))
    } else {
        None
    }
}

/// A request payload reads back as itself.
#[verifier::rlimit(100)]
pub proof fn lemma_dec_request_payload(p: RequestPayloadView, rest: Seq<u8>)
    requires
        request_payload_ok(p),
    ensures
        dec_request_payload(enc_request_payload(p) + rest) == Some((p, rest)),
{
    match p {
        RequestPayloadView::QueryRequest(k) => {
            assert((enc_request_payload(p) + rest).skip(1) =~= enc_key(k) + rest);
            lemma_dec_key(k, rest);
        },
        RequestPayloadView::SearchRequest(k) => {
            assert((enc_request_payload(p) + rest).skip(1) =~= enc_key(k) + rest);
            lemma_dec_key(k, rest);
        },
        RequestPayloadView::ConnectRequest(n) => {
            assert((enc_request_payload(p) + rest).skip(1) =~= enc_node(n) + rest);
            lemma_dec_node(n, rest);
        },
        RequestPayloadView::ListNeighboursRequest => {
            assert((enc_request_payload(p) + rest).skip(1) =~= rest);
        },
    }
}

/// A response payload: a tag byte, then the response's own fields.
pub open spec fn enc_response_payload(p: ResponsePayloadView) -> Seq<u8> {
    match p {
        ResponsePayloadView::QueryResponse(ns) => seq![1u8] + enc_nodes(ns),
        ResponsePayloadView::SearchResponse(opt) => match opt {
            Some(n) => seq![2u8, 1u8] + enc_node(n),
            None => seq![2u8, 0u8],
        },
        ResponsePayloadView::ConnectResponse => seq![3u8],
        ResponsePayloadView::ListNeighboursResponse(ns) => seq![4u8] + enc_nodes(ns),
        ResponsePayloadView::Error(e) => seq![5u8] + enc_api_error(e),
    }
}

/// Whether a response payload fits the wire.
pub open spec fn response_payload_ok(p: ResponsePayloadView) -> bool {
    match p {
        ResponsePayloadView::QueryResponse(ns) => nodes_ok(ns),
        ResponsePayloadView::SearchResponse(opt) => match opt {
            Some(n) => node_ok(n),
            None => true,
        },
        ResponsePayloadView::ConnectResponse => true,
        ResponsePayloadView::ListNeighboursResponse(ns) => nodes_ok(ns),
        ResponsePayloadView::Error(e) => api_error_ok(e),
    }
}

/// Read a response payload off the front.
pub open spec fn dec_response_payload(b: Seq<u8>) -> Option<(ResponsePayloadView, Seq<u8>)> {
    if b.len() < 1 {
        None
    } else if b[0] == 1 {
        match dec_nodes(b.skip(1)) {
            Some((ns, r)) => Some((ResponsePayloadView::QueryResponse(ns), r)),
            None => None,
        }
    } else if b[0] == 2 {
        if b.len() < 2 {
            None
        } else if b[1] == 0 {
            Some((ResponsePayloadView::SearchResponse(None), b.skip(2)))
        } else if b[1] == 1 {
            match dec_node(b.skip(2)) {
                Some((n, r)) => Some((ResponsePayloadView::SearchResponse(Some(n)), r)),
                None => None,
            }
        } else {
            None
        }
    } else if b[0] == 3 {
        Some((ResponsePayloadView::ConnectResponse, b.skip(1)))
    } else if b[0] == 4 {
        match dec_nodes(b.skip(1)) {
            Some((ns, r)) => Some((ResponsePayloadView::ListNeighboursResponse(ns), r)),
            None => None,
        }
    } else if b[0] == 5 {
        match dec_api_error(b.skip(1)) {
            Some((e, r)) => Some((ResponsePayloadView::Error(e), r)),
            None => None,
        }
    } else {
        None
    }
}

/// A response payload reads back as itself.
#[verifier::rlimit(100)]
pub proof fn lemma_dec_response_payload(p: ResponsePayloadView, rest: Seq<u8>)
    requires
        response_payload_ok(p),
    ensures
        dec_response_payload(enc_response_payload(p) + rest) == Some((p, rest)),
{
    match p {
        ResponsePayloadView::QueryResponse(ns) => {
            assert((enc_response_payload(p) + rest).skip(1) =~= enc_nodes(ns) + rest);
            lemma_dec_nodes(ns, rest);
        },
        ResponsePayloadView::SearchResponse(opt) => {
            match opt {
                Some(n) => {
                    assert((enc_response_payload(p) + rest).skip(2) =~= enc_node(n) + rest);
                    lemma_dec_node(n, rest);
                },
                None => {
                    assert((enc_response_payload(p) + rest).skip(2) =~= rest);
                },
            }
        },
        ResponsePayloadView::ConnectResponse => {
            assert((enc_response_payload(p) + rest).skip(1) =~= rest);
        },
        ResponsePayloadView::ListNeighboursResponse(ns) => {
            assert((enc_response_payload(p) + rest).skip(1) =~= enc_nodes(ns) + rest);
            lemma_dec_nodes(ns, rest);
        },
        ResponsePayloadView::Error(e) => {
            assert((enc_response_payload(p) + rest).skip(1) =~= enc_api_error(e) + rest);
            lemma_dec_api_error(e, rest);
        },
    }
}

/// A request message: correlation id, version, sender, payload.
pub open spec fn enc_request_message(m: RequestMessageView) -> Seq<u8> {
    be_bytes(m.id) + enc_str(m.version) + enc_sender(m.sender) + enc_request_payload(m.payload)
}

/// Whether a request message fits the wire.
pub open spec fn request_message_ok(m: RequestMessageView) -> bool {
    str_ok(m.version) && sender_ok(m.sender) && request_payload_ok(m.payload)
}

/// Read a whole request message: every byte must belong to it.
pub open spec fn dec_request_message(b: Seq<u8>) -> Option<RequestMessageView> {
    if b.len() < 4 {
        None
    } else {
        let id = be_val(b[0], b[1], b[2], b[3]) as u32;
        match dec_str(b.skip(4)) {
            Some((version, r1)) => match dec_sender(r1) {
                Some((sender, r2)) => match dec_request_payload(r2) {
                    Some((payload, r3)) => if r3.len() == 0 {
                        Some(RequestMessageView { payload, sender, id, version })
                    } else {
                        None
                    },
                    None => None,
                },
                None => None,
            },
            None => None,
        }
    }
}

/// Law: a request message reads back as itself.
pub proof fn lemma_request_round_trip(m: RequestMessageView)
    requires
        request_message_ok(m),
    ensures
        dec_request_message(enc_request_message(m)) == Some(m),
{
    let b = enc_request_message(m);
    lemma_be_round_trip(m.id);
    assert(b[0] == be_bytes(m.id)[0] && b[1] == be_bytes(m.id)[1] && b[2] == be_bytes(m.id)[2]
        && b[3] == be_bytes(m.id)[3]);
    assert(b.skip(4) =~= enc_str(m.version) + (enc_sender(m.sender) + (enc_request_payload(
        m.payload,
    ) + Seq::<u8>::empty())));
    lemma_dec_str(m.version, enc_sender(m.sender) + (enc_request_payload(m.payload)
        + Seq::<u8>::empty()));
    lemma_dec_sender(m.sender, enc_request_payload(m.payload) + Seq::<u8>::empty());
    lemma_dec_request_payload(m.payload, Seq::<u8>::empty());
    assert(dec_request_message(b) matches Some(v) && v =~= m);
}

/// A response message: correlation id, version, sender, payload.
pub open spec fn enc_response_message(m: ResponseMessageView) -> Seq<u8> {
    be_bytes(m.id) + enc_str(m.version) + enc_sender(m.sender) + enc_response_payload(m.payload)
}

/// Whether a response message fits the wire.
pub open spec fn response_message_ok(m: ResponseMessageView) -> bool {
    str_ok(m.version) && sender_ok(m.sender) && response_payload_ok(m.payload)
}

/// Read a whole response message: every byte must belong to it.
pub open spec fn dec_response_message(b: Seq<u8>) -> Option<ResponseMessageView> {
    if b.len() < 4 {
        None
    } else {
        let id = be_val(b[0], b[1], b[2], b[3]) as u32;
        match dec_str(b.skip(4)) {
            Some((version, r1)) => match dec_sender(r1) {
                Some((sender, r2)) => match dec_response_payload(r2) {
                    Some((payload, r3)) => if r3.len() == 0 {
                        Some(ResponseMessageView { payload, sender, id, version })
                    } else {
                        None
                    },
                    None => None,
                },
                None => None,
            },
            None => None,
        }
    }
}

/// Law: a response message reads back as itself.
pub proof fn lemma_response_round_trip(m: ResponseMessageView)
    requires
        response_message_ok(m),
    ensures
        dec_response_message(enc_response_message(m)) == Some(m),
{
    let b = enc_response_message(m);
    lemma_be_round_trip(m.id);
    assert(b[0] == be_bytes(m.id)[0] && b[1] == be_bytes(m.id)[1] && b[2] == be_bytes(m.id)[2]
        && b[3] == be_bytes(m.id)[3]);
    assert(b.skip(4) =~= enc_str(m.version) + (enc_sender(m.sender) + (enc_response_payload(
        m.payload,
    ) + Seq::<u8>::empty())));
    lemma_dec_str(m.version, enc_sender(m.sender) + (enc_response_payload(m.payload)
        + Seq::<u8>::empty()));
    lemma_dec_sender(m.sender, enc_response_payload(m.payload) + Seq::<u8>::empty());
    lemma_dec_response_payload(m.payload, Seq::<u8>::empty());
    assert(dec_response_message(b) matches Some(v) && v =~= m);
}


} // verus!

use crate::api::{
    Key, Address, Node, MessageSender, ApiError, RequestPayload, ResponsePayload, RequestMessage,
    ResponseMessage, views_of_nodes,
};
use crate::envelope::append_bytes;
use crate::framing::{u32_to_be, copy_byte_range};

verus! {

// ------------------------------------------------------------------
// Executable encoders.
// ------------------------------------------------------------------

/// Append a 32-bit value, big-endian.
fn write_u32(out: &mut Vec<u8>, n: u32)
    ensures
        final(out)@ == old(out)@ + be_bytes(n),
{
    let b = u32_to_be(n);
    append_bytes(out, &b);
}

/// Append a length-prefixed byte field.
fn write_bytes_field(out: &mut Vec<u8>, d: &Vec<u8>)
    requires
        bytes_ok(d@),
    ensures
        final(out)@ == old(out)@ + enc_bytes(d@),
{
    write_u32(out, d.len() as u32);
    append_bytes(out, d);
    proof {
        assert(final(out)@ =~= old(out)@ + enc_bytes(d@));
    }
}

/// Append a length-prefixed string field as UTF-8.
fn write_str_field(out: &mut Vec<u8>, s: &String)
    requires
        str_ok(s@),
    ensures
        final(out)@ == old(out)@ + enc_str(s@),
{
    let b = s.as_str().as_bytes();
    write_u32(out, b.len() as u32);
    let mut i: usize = 0;
    while i < b.len()
        invariant
            0 <= i <= b@.len(),
            b@ == encode_utf8(s@),
            out@ =~= old(out)@ + be_bytes(b@.len() as u32) + b@.take(i as int),
        decreases b@.len() - i,
    {
        out.push(b[i]);
        assert(out@ =~= old(out)@ + be_bytes(b@.len() as u32) + b@.take(i + 1));
        i += 1;
    }
    proof {
        assert(out@ =~= old(out)@ + enc_str(s@));
    }
}

/// Append a key.
fn write_key(out: &mut Vec<u8>, k: &Key)
    requires
        key_ok(k@),
    ensures
        final(out)@ == old(out)@ + enc_key(k@),
{
    proof {
        lemma_key_id_str_ok(k@.key_id);
    }
    write_str_field(out, &k.key_id);
    write_bytes_field(out, &k.data);
    proof {
        assert(final(out)@ =~= old(out)@ + enc_key(k@));
    }
}

/// Append an address.
fn write_address(out: &mut Vec<u8>, a: &Address)
    requires
        address_ok(a@),
    ensures
        final(out)@ == old(out)@ + enc_address(a@),
{
    write_bytes_field(out, &a.ip_data);
    out.push((a.port / 0x100) as u8);
    out.push((a.port % 0x100) as u8);
    proof {
        assert(final(out)@ =~= old(out)@ + enc_address(a@));
    }
}

/// Append a node.
fn write_node(out: &mut Vec<u8>, n: &Node)
    requires
        node_ok(n@),
    ensures
        final(out)@ == old(out)@ + enc_node(n@),
{
    write_key(out, &n.key);
    write_address(out, &n.address);
    proof {
        assert(final(out)@ =~= old(out)@ + enc_node(n@));
    }
}

/// Append a sender.
fn write_sender(out: &mut Vec<u8>, s: &MessageSender)
    requires
        sender_ok(s@),
    ensures
        final(out)@ == old(out)@ + enc_sender(s@),
{
    match s {
        MessageSender::Cli => {
            out.push(0u8);
            proof {
                assert(final(out)@ =~= old(out)@ + enc_sender(s@));
            }
        },
        MessageSender::Node(n) => {
            out.push(1u8);
            write_node(out, n);
            proof {
                assert(final(out)@ =~= old(out)@ + enc_sender(s@));
            }
        },
    }
}

/// The wire tag of an error kind.
fn error_type_byte(t: ApiErrorType) -> (r: u8)
    ensures
        r == error_type_tag(t),
{
    match t {
        ApiErrorType::NoError => 0,
        ApiErrorType::Parse => 1,
        ApiErrorType::Configuration => 2,
        ApiErrorType::External => 3,
        ApiErrorType::Internal => 4,
    }
}

/// Append an error.
fn write_api_error(out: &mut Vec<u8>, e: &ApiError)
    requires
        api_error_ok(e@),
    ensures
        final(out)@ == old(out)@ + enc_api_error(e@),
{
    let t = error_type_byte(e.error_type);
    out.push(t);
    write_str_field(out, &e.msg);
    proof {
        assert(final(out)@ =~= old(out)@ + enc_api_error(e@));
    }
}

/// Appending one more node extends an encoded run at the back.
proof fn lemma_enc_node_items_push(s: Seq<NodeView>, x: NodeView)
    ensures
        enc_node_items(s.push(x)) == enc_node_items(s) + enc_node(x),
    decreases s.len(),
{
    reveal_with_fuel(enc_node_items, 2);
    if s.len() == 0 {
        assert(s.push(x).len() == 1 && s.push(x).first() == x);
        assert(s.push(x).drop_first() =~= Seq::<NodeView>::empty());
        assert(enc_node_items(Seq::<NodeView>::empty()) == Seq::<u8>::empty());
        assert(s =~= Seq::<NodeView>::empty());
        assert(enc_node_items(s.push(x)) == enc_node(x) + Seq::<u8>::empty());
        assert(enc_node_items(s.push(x)) =~= enc_node_items(s) + enc_node(x));
    } else {
        assert(s.push(x).drop_first() =~= s.drop_first().push(x));
        lemma_enc_node_items_push(s.drop_first(), x);
        assert(enc_node_items(s.push(x)) =~= enc_node_items(s) + enc_node(x));
    }
}

/// Append a node list.
fn write_nodes(out: &mut Vec<u8>, ns: &Vec<Node>)
    requires
        nodes_ok(views_of_nodes(ns@)),
    ensures
        final(out)@ == old(out)@ + enc_nodes(views_of_nodes(ns@)),
{
    let ghost vs = views_of_nodes(ns@);
    write_u32(out, ns.len() as u32);
    let mut i: usize = 0;
    proof {
        reveal(enc_node_items);
        assert(vs.take(0) =~= Seq::<NodeView>::empty());
        assert(enc_node_items(vs.take(0)) =~= Seq::<u8>::empty());
        assert(out@ =~= old(out)@ + be_bytes(vs.len() as u32) + enc_node_items(vs.take(0)));
    }
    while i < ns.len()
        invariant
            0 <= i <= ns@.len(),
            vs == views_of_nodes(ns@),
            vs.len() == ns@.len(),
            nodes_ok(vs),
            out@ =~= old(out)@ + be_bytes(vs.len() as u32) + enc_node_items(vs.take(i as int)),
        decreases ns@.len() - i,
    {
        proof {
            assert(vs[i as int] == ns@[i as int]@);
            assert(node_ok(ns@[i as int]@));
        }
        write_node(out, &ns[i]);
        proof {
            assert(vs.take(i + 1) =~= vs.take(i as int).push(vs[i as int]));
            lemma_enc_node_items_push(vs.take(i as int), vs[i as int]);
            assert(out@ =~= old(out)@ + be_bytes(vs.len() as u32) + enc_node_items(
                vs.take(i + 1),
            ));
        }
        i += 1;
    }
    proof {
        assert(vs.take(vs.len() as int) =~= vs);
        assert(out@ =~= old(out)@ + enc_nodes(vs));
    }
}

/// Append a request payload.
fn write_request_payload(out: &mut Vec<u8>, p: &RequestPayload)
    requires
        request_payload_ok(p@),
    ensures
        final(out)@ == old(out)@ + enc_request_payload(p@),
{
    match p {
        RequestPayload::QueryRequest(k) => {
            out.push(1u8);
            write_key(out, k);
        },
        RequestPayload::SearchRequest(k) => {
            out.push(2u8);
            write_key(out, k);
        },
        RequestPayload::ConnectRequest(n) => {
            out.push(3u8);
            write_node(out, n);
        },
        RequestPayload::ListNeighboursRequest => {
            out.push(4u8);
        },
    }
    proof {
        assert(final(out)@ =~= old(out)@ + enc_request_payload(p@));
    }
}

/// Append a response payload.
fn write_response_payload(out: &mut Vec<u8>, p: &ResponsePayload)
    requires
        response_payload_ok(p@),
    ensures
        final(out)@ == old(out)@ + enc_response_payload(p@),
{
    match p {
        ResponsePayload::QueryResponse(ns) => {
            out.push(1u8);
            write_nodes(out, ns);
        },
        ResponsePayload::SearchResponse(opt) => {
            out.push(2u8);
            match opt {
                Some(n) => {
                    out.push(1u8);
                    write_node(out, n);
                },
                None => {
                    out.push(0u8);
                },
            }
        },
        ResponsePayload::ConnectResponse => {
            out.push(3u8);
        },
        ResponsePayload::ListNeighboursResponse(ns) => {
            out.push(4u8);
            write_nodes(out, ns);
        },
        ResponsePayload::Error(e) => {
            out.push(5u8);
            write_api_error(out, e);
        },
    }
    proof {
        assert(final(out)@ =~= old(out)@ + enc_response_payload(p@));
    }
}

/// Encode a whole request message.
pub fn encode_request_message(m: &RequestMessage) -> (r: Vec<u8>)
    requires
        request_message_ok(m@),
    ensures
        r@ == enc_request_message(m@),
{
    let mut out: Vec<u8> = Vec::new();
    write_u32(&mut out, m.id);
    write_str_field(&mut out, &m.version);
    write_sender(&mut out, &m.sender);
    write_request_payload(&mut out, &m.payload);
    proof {
        assert(out@ =~= enc_request_message(m@));
    }
    out
}

/// Encode a whole response message.
pub fn encode_response_message(m: &ResponseMessage) -> (r: Vec<u8>)
    requires
        response_message_ok(m@),
    ensures
        r@ == enc_response_message(m@),
{
    let mut out: Vec<u8> = Vec::new();
    write_u32(&mut out, m.id);
    write_str_field(&mut out, &m.version);
    write_sender(&mut out, &m.sender);
    write_response_payload(&mut out, &m.payload);
    proof {
        assert(out@ =~= enc_response_message(m@));
    }
    out
}

} // verus!

verus! {

// ------------------------------------------------------------------
// Executable decoders. Each reads one element at a byte position and
// reports where the next begins; each matches its specification decoder
// on the remaining bytes exactly.
// ------------------------------------------------------------------

/// A parse failure.
fn parse_error() -> (e: ApiError)
    ensures
        e@.error_type == ApiErrorType::Parse,
{
    ApiError::new(ApiErrorType::Parse, String::from_str("malformed message bytes"))
}

/// Relies on String::from_utf8: accepts exactly valid UTF-8, and decodes
/// those bytes to their character sequence.
#[verifier::external_body]
fn bytes_to_string(b: Vec<u8>) -> (r: Option<String>)
    ensures
        (r is Some) == valid_utf8(b@),
        r matches Some(s) ==> s@ == decode_utf8(b@),
{
    match String::from_utf8(b) {
        Ok(s) => Some(s),
        Err(_) => None,
    }
}

/// Read a big-endian 32-bit value.
fn read_u32_at(bytes: &Vec<u8>, pos: usize) -> (r: Result<(u32, usize), ApiError>)
    requires
        pos <= bytes@.len(),
    ensures
        bytes@.len() - pos >= 4 ==> (r matches Ok(v) && v.0 == be_val(
            bytes@[pos as int],
            bytes@[pos + 1],
            bytes@[pos + 2],
            bytes@[pos + 3],
        ) && v.1 == pos + 4),
        bytes@.len() - pos < 4 ==> (r matches Err(e) && e@.error_type == ApiErrorType::Parse),
{
    if bytes.len() - pos < 4 {
        return Err(parse_error());
    }
    let v: u32 = (bytes[pos] as u32) * 0x100_0000 + (bytes[pos + 1] as u32) * 0x1_0000 + (bytes[pos
        + 2] as u32) * 0x100 + (bytes[pos + 3] as u32);
    Ok((v, pos + 4))
}

/// Read a length-prefixed byte field.
fn read_bytes_at(bytes: &Vec<u8>, pos: usize) -> (r: Result<(Vec<u8>, usize), ApiError>)
    requires
        pos <= bytes@.len(),
    ensures
        dec_bytes(bytes@.skip(pos as int)) matches Some(p) ==> (r matches Ok(v) && v.0@ == p.0
            && pos <= v.1 <= bytes@.len() && bytes@.skip(v.1 as int) == p.1),
        dec_bytes(bytes@.skip(pos as int)) is None ==> (r matches Err(e) && e@.error_type
            == ApiErrorType::Parse),
{
    let ghost b = bytes@.skip(pos as int);
    let n32 = match read_u32_at(bytes, pos) {
        Ok((n, p)) => (n, p),
        Err(e) => {
            return Err(e);
        },
    };
    let n = n32.0 as usize;
    let after_len = n32.1;
    proof {
        assert(b[0] == bytes@[pos as int] && b[1] == bytes@[pos + 1] && b[2] == bytes@[pos + 2]
            && b[3] == bytes@[pos + 3]);
    }
    if bytes.len() - after_len < n {
        return Err(parse_error());
    }
    let field = copy_byte_range(bytes, after_len, after_len + n);
    proof {
        assert(field@ =~= b.subrange(4, 4 + n as int));
        assert(bytes@.skip(after_len + n as int) =~= b.skip(4 + n as int));
    }
    Ok((field, after_len + n))
}

/// Read a length-prefixed UTF-8 string field.
fn read_str_at(bytes: &Vec<u8>, pos: usize) -> (r: Result<(String, usize), ApiError>)
    requires
        pos <= bytes@.len(),
    ensures
        dec_str(bytes@.skip(pos as int)) matches Some(p) ==> (r matches Ok(v) && v.0@ == p.0 && pos
            <= v.1 <= bytes@.len() && bytes@.skip(v.1 as int) == p.1),
        dec_str(bytes@.skip(pos as int)) is None ==> (r matches Err(e) && e@.error_type
            == ApiErrorType::Parse),
{
    let field = match read_bytes_at(bytes, pos) {
        Ok(v) => v,
        Err(e) => {
            return Err(e);
        },
    };
    let next = field.1;
    match bytes_to_string(field.0) {
        Some(s) => Ok((s, next)),
        None => Err(parse_error()),
    }
}

/// Read a key; its short id must be eight hexadecimal digits.
fn read_key_at(bytes: &Vec<u8>, pos: usize) -> (r: Result<(Key, usize), ApiError>)
    requires
        pos <= bytes@.len(),
    ensures
        dec_key(bytes@.skip(pos as int)) matches Some(p) ==> (r matches Ok(v) && v.0@ == p.0 && pos
            <= v.1 <= bytes@.len() && bytes@.skip(v.1 as int) == p.1),
        dec_key(bytes@.skip(pos as int)) is None ==> (r matches Err(e) && e@.error_type
            == ApiErrorType::Parse),
{
    let kid = match read_str_at(bytes, pos) {
        Ok(v) => v,
        Err(e) => {
            return Err(e);
        },
    };
    if !crate::api::check_key_id(&kid.0) {
        return Err(parse_error());
    }
    let data = match read_bytes_at(bytes, kid.1) {
        Ok(v) => v,
        Err(e) => {
            return Err(e);
        },
    };
    Ok((Key { key_id: kid.0, data: data.0 }, data.1))
}

/// Read an address; it must hold four or sixteen octets.
fn read_address_at(bytes: &Vec<u8>, pos: usize) -> (r: Result<(Address, usize), ApiError>)
    requires
        pos <= bytes@.len(),
    ensures
        dec_address(bytes@.skip(pos as int)) matches Some(p) ==> (r matches Ok(v) && v.0@ == p.0
            && pos <= v.1 <= bytes@.len() && bytes@.skip(v.1 as int) == p.1),
        dec_address(bytes@.skip(pos as int)) is None ==> (r matches Err(e) && e@.error_type
            == ApiErrorType::Parse),
{
    let ip = match read_bytes_at(bytes, pos) {
        Ok(v) => v,
        Err(e) => {
            return Err(e);
        },
    };
    if !(ip.0.len() == 4 || ip.0.len() == 16) {
        return Err(parse_error());
    }
    let after_ip = ip.1;
    if bytes.len() - after_ip < 2 {
        return Err(parse_error());
    }
    let port: u16 = (bytes[after_ip] as u16) * 0x100 + (bytes[after_ip + 1] as u16);
    proof {
        let rest = bytes@.skip(after_ip as int);
        assert(rest[0] == bytes@[after_ip as int] && rest[1] == bytes@[after_ip + 1]);
        assert(bytes@.skip(after_ip + 2) =~= rest.skip(2));
    }
    Ok((Address { ip_data: ip.0, port }, after_ip + 2))
}

/// Read a node.
fn read_node_at(bytes: &Vec<u8>, pos: usize) -> (r: Result<(Node, usize), ApiError>)
    requires
        pos <= bytes@.len(),
    ensures
        dec_node(bytes@.skip(pos as int)) matches Some(p) ==> (r matches Ok(v) && v.0@ == p.0
            && pos <= v.1 <= bytes@.len() && bytes@.skip(v.1 as int) == p.1),
        dec_node(bytes@.skip(pos as int)) is None ==> (r matches Err(e) && e@.error_type
            == ApiErrorType::Parse),
{
    let key = match read_key_at(bytes, pos) {
        Ok(v) => v,
        Err(e) => {
            return Err(e);
        },
    };
    let addr = match read_address_at(bytes, key.1) {
        Ok(v) => v,
        Err(e) => {
            return Err(e);
        },
    };
    Ok((Node { key: key.0, address: addr.0 }, addr.1))
}

/// Read a sender.
fn read_sender_at(bytes: &Vec<u8>, pos: usize) -> (r: Result<(MessageSender, usize), ApiError>)
    requires
        pos <= bytes@.len(),
    ensures
        dec_sender(bytes@.skip(pos as int)) matches Some(p) ==> (r matches Ok(v) && v.0@ == p.0
            && pos <= v.1 <= bytes@.len() && bytes@.skip(v.1 as int) == p.1),
        dec_sender(bytes@.skip(pos as int)) is None ==> (r matches Err(e) && e@.error_type
            == ApiErrorType::Parse),
{
    if bytes.len() - pos < 1 {
        return Err(parse_error());
    }
    let tag = bytes[pos];
    proof {
        assert(bytes@.skip(pos as int)[0] == bytes@[pos as int]);
        assert(bytes@.skip(pos + 1) =~= bytes@.skip(pos as int).skip(1));
    }
    if tag == 0 {
        Ok((MessageSender::Cli, pos + 1))
    } else if tag == 1 {
        let node = match read_node_at(bytes, pos + 1) {
            Ok(v) => v,
            Err(e) => {
                return Err(e);
            },
        };
        Ok((MessageSender::Node(node.0), node.1))
    } else {
        Err(parse_error())
    }
}

/// Read an error.
fn read_api_error_at(bytes: &Vec<u8>, pos: usize) -> (r: Result<(ApiError, usize), ApiError>)
    requires
        pos <= bytes@.len(),
    ensures
        dec_api_error(bytes@.skip(pos as int)) matches Some(p) ==> (r matches Ok(v) && v.0@ == p.0
            && pos <= v.1 <= bytes@.len() && bytes@.skip(v.1 as int) == p.1),
        dec_api_error(bytes@.skip(pos as int)) is None ==> (r matches Err(e) && e@.error_type
            == ApiErrorType::Parse),
{
    if bytes.len() - pos < 1 {
        return Err(parse_error());
    }
    let tag = bytes[pos];
    proof {
        assert(bytes@.skip(pos as int)[0] == bytes@[pos as int]);
        assert(bytes@.skip(pos + 1) =~= bytes@.skip(pos as int).skip(1));
    }
    let t: ApiErrorType = if tag == 0 {
        ApiErrorType::NoError
    } else if tag == 1 {
        ApiErrorType::Parse
    } else if tag == 2 {
        ApiErrorType::Configuration
    } else if tag == 3 {
        ApiErrorType::External
    } else if tag == 4 {
        ApiErrorType::Internal
    } else {
        return Err(parse_error());
    };
    let msg = match read_str_at(bytes, pos + 1) {
        Ok(v) => v,
        Err(e) => {
            return Err(e);
        },
    };
    Ok((ApiError { error_type: t, msg: msg.0 }, msg.1))
}

/// Read a node list.
#[verifier::rlimit(100)]
fn read_nodes_at(bytes: &Vec<u8>, pos: usize) -> (r: Result<(Vec<Node>, usize), ApiError>)
    requires
        pos <= bytes@.len(),
    ensures
        dec_nodes(bytes@.skip(pos as int)) matches Some(p) ==> (r matches Ok(v) && views_of_nodes(
            v.0@,
        ) == p.0 && pos <= v.1 <= bytes@.len() && bytes@.skip(v.1 as int) == p.1),
        dec_nodes(bytes@.skip(pos as int)) is None ==> (r matches Err(e) && e@.error_type
            == ApiErrorType::Parse),
{
    let ghost b0 = bytes@.skip(pos as int);
    let n32 = match read_u32_at(bytes, pos) {
        Ok(v) => v,
        Err(e) => {
            return Err(e);
        },
    };
    let total = n32.0 as usize;
    let start = n32.1;
    proof {
        assert(b0[0] == bytes@[pos as int] && b0[1] == bytes@[pos + 1] && b0[2] == bytes@[pos + 2]
            && b0[3] == bytes@[pos + 3]);
        assert(bytes@.skip(start as int) =~= b0.skip(4));
        reveal(dec_node_items);
    }
    let mut out: Vec<Node> = Vec::new();
    let mut cur = start;
    let mut k: usize = 0;
    proof {
        assert(views_of_nodes(out@) =~= Seq::<NodeView>::empty());
        assert(dec_node_items(b0.skip(4), total as nat) == (match dec_node_items(
            bytes@.skip(cur as int),
            (total - k) as nat,
        ) {
            Some((vs, r)) => Some((views_of_nodes(out@) + vs, r)),
            None => None,
        })) by {
            let opt = dec_node_items(bytes@.skip(cur as int), (total - k) as nat);
            if opt is Some {
                assert(views_of_nodes(out@) + opt->Some_0.0 =~= opt->Some_0.0);
            }
        };
    }
    while k < total
        invariant
            0 <= k <= total,
            pos <= cur <= bytes@.len(),
            b0 == bytes@.skip(pos as int),
            b0.len() >= 4,
            total == be_val(b0[0], b0[1], b0[2], b0[3]),
            forall|i: int| 0 <= i < out@.len() ==> (#[trigger] out@[i])@.wf(),
            dec_node_items(b0.skip(4), total as nat) == (match dec_node_items(
                bytes@.skip(cur as int),
                (total - k) as nat,
            ) {
                Some((vs, r)) => Some((views_of_nodes(out@) + vs, r)),
                None => None,
            }),
        decreases total - k,
    {
        let ghost out_pre = out@;
        let ghost cur_pre = cur as int;
        let node = match read_node_at(bytes, cur) {
            Ok(v) => v,
            Err(e) => {
                proof {
                    assert(dec_node_items(bytes@.skip(cur as int), (total - k) as nat) is None)
                        by {
                        reveal(dec_node_items);
                    };
                }
                return Err(e);
            },
        };
        out.push(node.0);
        cur = node.1;
        k = k + 1;
        proof {
            reveal(dec_node_items);
            let v = choose|v: NodeView, rest: Seq<u8>|
                dec_node(bytes@.skip(cur_pre)) == Some::<(NodeView, Seq<u8>)>((v, rest));
            assert(views_of_nodes(out@) =~= views_of_nodes(out_pre).push(node.0@));
            assert(dec_node_items(b0.skip(4), total as nat) == (match dec_node_items(
                bytes@.skip(cur as int),
                (total - k) as nat,
            ) {
                Some((vs, r)) => Some((views_of_nodes(out@) + vs, r)),
                None => None,
            })) by {
                let opt = dec_node_items(bytes@.skip(cur as int), (total - k) as nat);
                if opt is Some {
                    assert(views_of_nodes(out_pre) + (seq![node.0@] + opt->Some_0.0)
                        =~= views_of_nodes(out_pre).push(node.0@) + opt->Some_0.0);
                }
            };
        }
    }
    proof {
        reveal(dec_node_items);
        assert(dec_node_items(bytes@.skip(cur as int), 0) == Some::<(Seq<NodeView>, Seq<u8>)>((
            Seq::<NodeView>::empty(),
            bytes@.skip(cur as int),
        )));
        assert(views_of_nodes(out@) + Seq::<NodeView>::empty() =~= views_of_nodes(out@));
    }
    Ok((out, cur))
}

} // verus!

verus! {

/// Read a request payload.
fn read_request_payload_at(bytes: &Vec<u8>, pos: usize) -> (r: Result<
    (RequestPayload, usize),
    ApiError,
>)
    requires
        pos <= bytes@.len(),
    ensures
        dec_request_payload(bytes@.skip(pos as int)) matches Some(p) ==> (r matches Ok(v) && v.0@
            == p.0 && pos <= v.1 <= bytes@.len() && bytes@.skip(v.1 as int) == p.1),
        dec_request_payload(bytes@.skip(pos as int)) is None ==> (r matches Err(e) && e@.error_type
            == ApiErrorType::Parse),
{
    if bytes.len() - pos < 1 {
        return Err(parse_error());
    }
    let tag = bytes[pos];
    proof {
        assert(bytes@.skip(pos as int)[0] == bytes@[pos as int]);
        assert(bytes@.skip(pos + 1) =~= bytes@.skip(pos as int).skip(1));
    }
    if tag == 1 {
        let key = match read_key_at(bytes, pos + 1) {
            Ok(v) => v,
            Err(e) => {
                return Err(e);
            },
        };
        Ok((RequestPayload::QueryRequest(key.0), key.1))
    } else if tag == 2 {
        let key = match read_key_at(bytes, pos + 1) {
            Ok(v) => v,
            Err(e) => {
                return Err(e);
            },
        };
        Ok((RequestPayload::SearchRequest(key.0), key.1))
    } else if tag == 3 {
        let node = match read_node_at(bytes, pos + 1) {
            Ok(v) => v,
            Err(e) => {
                return Err(e);
            },
        };
        Ok((RequestPayload::ConnectRequest(node.0), node.1))
    } else if tag == 4 {
        Ok((RequestPayload::ListNeighboursRequest, pos + 1))
    } else {
        Err(parse_error())
    }
}

/// Read a response payload.
fn read_response_payload_at(bytes: &Vec<u8>, pos: usize) -> (r: Result<
    (ResponsePayload, usize),
    ApiError,
>)
    requires
        pos <= bytes@.len(),
    ensures
        dec_response_payload(bytes@.skip(pos as int)) matches Some(p) ==> (r matches Ok(v) && v.0@
            == p.0 && pos <= v.1 <= bytes@.len() && bytes@.skip(v.1 as int) == p.1),
        dec_response_payload(bytes@.skip(pos as int)) is None ==> (r matches Err(e)
            && e@.error_type == ApiErrorType::Parse),
{
    if bytes.len() - pos < 1 {
        return Err(parse_error());
    }
    let tag = bytes[pos];
    proof {
        assert(bytes@.skip(pos as int)[0] == bytes@[pos as int]);
        assert(bytes@.skip(pos + 1) =~= bytes@.skip(pos as int).skip(1));
    }
    if tag == 1 {
        let ns = match read_nodes_at(bytes, pos + 1) {
            Ok(v) => v,
            Err(e) => {
                return Err(e);
            },
        };
        Ok((ResponsePayload::QueryResponse(ns.0), ns.1))
    } else if tag == 2 {
        if bytes.len() - pos < 2 {
            return Err(parse_error());
        }
        let opt_tag = bytes[pos + 1];
        proof {
            assert(bytes@.skip(pos as int)[1] == bytes@[pos + 1]);
            assert(bytes@.skip(pos + 2) =~= bytes@.skip(pos as int).skip(2));
        }
        if opt_tag == 0 {
            Ok((ResponsePayload::SearchResponse(None), pos + 2))
        } else if opt_tag == 1 {
            let node = match read_node_at(bytes, pos + 2) {
                Ok(v) => v,
                Err(e) => {
                    return Err(e);
                },
            };
            Ok((ResponsePayload::SearchResponse(Some(node.0)), node.1))
        } else {
            Err(parse_error())
        }
    } else if tag == 3 {
        Ok((ResponsePayload::ConnectResponse, pos + 1))
    } else if tag == 4 {
        let ns = match read_nodes_at(bytes, pos + 1) {
            Ok(v) => v,
            Err(e) => {
                return Err(e);
            },
        };
        Ok((ResponsePayload::ListNeighboursResponse(ns.0), ns.1))
    } else if tag == 5 {
        let e = match read_api_error_at(bytes, pos + 1) {
            Ok(v) => v,
            Err(e) => {
                return Err(e);
            },
        };
        Ok((ResponsePayload::Error(e.0), e.1))
    } else {
        Err(parse_error())
    }
}

/// Decode a whole request message; every byte must belong to it.
pub fn decode_request_message(bytes: &Vec<u8>) -> (r: Result<RequestMessage, ApiError>)
    ensures
        dec_request_message(bytes@) matches Some(m) ==> (r matches Ok(v) && v@ == m),
        dec_request_message(bytes@) is None ==> (r matches Err(e) && e@.error_type
            == ApiErrorType::Parse),
{
    let id = match read_u32_at(bytes, 0) {
        Ok(v) => v,
        Err(e) => {
            return Err(e);
        },
    };
    proof {
        assert(bytes@.skip(0) =~= bytes@);
    }
    let version = match read_str_at(bytes, id.1) {
        Ok(v) => v,
        Err(e) => {
            return Err(e);
        },
    };
    let sender = match read_sender_at(bytes, version.1) {
        Ok(v) => v,
        Err(e) => {
            return Err(e);
        },
    };
    let payload = match read_request_payload_at(bytes, sender.1) {
        Ok(v) => v,
        Err(e) => {
            return Err(e);
        },
    };
    if payload.1 != bytes.len() {
        return Err(parse_error());
    }
    Ok(RequestMessage { payload: payload.0, sender: sender.0, id: id.0, version: version.0 })
}

/// Decode a whole response message; every byte must belong to it.
pub fn decode_response_message(bytes: &Vec<u8>) -> (r: Result<ResponseMessage, ApiError>)
    ensures
        dec_response_message(bytes@) matches Some(m) ==> (r matches Ok(v) && v@ == m),
        dec_response_message(bytes@) is None ==> (r matches Err(e) && e@.error_type
            == ApiErrorType::Parse),
{
    let id = match read_u32_at(bytes, 0) {
        Ok(v) => v,
        Err(e) => {
            return Err(e);
        },
    };
    proof {
        assert(bytes@.skip(0) =~= bytes@);
    }
    let version = match read_str_at(bytes, id.1) {
        Ok(v) => v,
        Err(e) => {
            return Err(e);
        },
    };
    let sender = match read_sender_at(bytes, version.1) {
        Ok(v) => v,
        Err(e) => {
            return Err(e);
        },
    };
    let payload = match read_response_payload_at(bytes, sender.1) {
        Ok(v) => v,
        Err(e) => {
            return Err(e);
        },
    };
    if payload.1 != bytes.len() {
        return Err(parse_error());
    }
    Ok(ResponseMessage { payload: payload.0, sender: sender.0, id: id.0, version: version.0 })
}

/// Serialises requests and responses for the wire and reads them back. The
/// byte layout is this codec's; anything that the specification decoders
/// reject comes back as a parse error.
pub struct DataTransformer {}

impl DataTransformer {
    pub fn new() -> DataTransformer {
        DataTransformer {  }
    }

    /// A request, encoded.
    pub fn request_to_bytes(&self, request: &RequestMessage) -> (r: Result<Vec<u8>, ApiError>)
        requires
            request_message_ok(request@),
        ensures
            r matches Ok(b) && b@ == enc_request_message(request@),
    {
        Ok(encode_request_message(request))
    }

    /// Bytes, decoded as a request.
    pub fn bytes_to_request(&self, data: &Vec<u8>) -> (r: Result<RequestMessage, ApiError>)
        ensures
            dec_request_message(data@) matches Some(m) ==> (r matches Ok(v) && v@ == m),
            dec_request_message(data@) is None ==> (r matches Err(e) && e@.error_type
                == ApiErrorType::Parse),
    {
        decode_request_message(data)
    }

    /// A response, encoded.
    pub fn response_to_bytes(&self, response: &ResponseMessage) -> (r: Result<Vec<u8>, ApiError>)
        requires
            response_message_ok(response@),
        ensures
            r matches Ok(b) && b@ == enc_response_message(response@),
    {
        Ok(encode_response_message(response))
    }

    /// Bytes, decoded as a response.
    pub fn bytes_to_response(&self, data: &Vec<u8>) -> (r: Result<ResponseMessage, ApiError>)
        ensures
            dec_response_message(data@) matches Some(m) ==> (r matches Ok(v) && v@ == m),
            dec_response_message(data@) is None ==> (r matches Err(e) && e@.error_type
                == ApiErrorType::Parse),
    {
        decode_response_message(data)
    }
}

/// Every request the decoder accepts is well formed throughout: its keys
/// have valid short ids and its addresses hold four or sixteen octets.
pub proof fn lemma_decoded_request_wf(b: Seq<u8>)
    ensures
        dec_request_message(b) matches Some(m) ==> crate::message_handler::request_wf(m),
{
}

} // verus!
