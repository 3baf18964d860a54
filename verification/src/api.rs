//! Core data model: keys, addresses, nodes, message senders, payloads.
//!
//! A `Key` is an identifier carrying an eight-hex-character short id and the
//! raw public-key material. Keys compare by the numeric value of their short
//! id. A `Node` is a key together with a network address; nodes compare by
//! key alone.

use vstd::prelude::*;

verus! {

/// Whether `c` is an ASCII hexadecimal digit.
pub open spec fn is_hex_digit(c: char) -> bool {
    (48 <= c as u32 && c as u32 <= 57)  // '0'..'9'
    || (65 <= c as u32 && c as u32 <= 70)  // 'A'..'F'
    || (97 <= c as u32 && c as u32 <= 102)  // 'a'..'f'
}

/// The value of one hexadecimal digit.
pub open spec fn hex_digit_val(c: char) -> int {
    if 48 <= c as u32 && c as u32 <= 57 {
        c as u32 - 48
    } else if 65 <= c as u32 && c as u32 <= 70 {
        c as u32 - 65 + 10
    } else {
        c as u32 - 97 + 10
    }
}

/// A key id is exactly eight hexadecimal digits.
pub open spec fn valid_key_id(s: Seq<char>) -> bool {
    s.len() == 8 && forall|i: int| 0 <= i < s.len() ==> is_hex_digit(#[trigger] s[i])
}

/// The numeric value of a hexadecimal string, most significant digit first.
pub open spec fn hex_val(s: Seq<char>) -> int
    decreases s.len(),
{
    if s.len() == 0 {
        0
    } else {
        hex_val(s.drop_last()) * 16 + hex_digit_val(s.last())
    }
}

/// 16 to the power `n`.
pub open spec fn pow16(n: nat) -> int
    decreases n,
{
    if n == 0 {
        1
    } else {
        16 * pow16((n - 1) as nat)
    }
}

/// A hexadecimal string of digits denotes a value below 16^len.
pub proof fn lemma_hex_val_bound(s: Seq<char>)
    requires
        forall|i: int| 0 <= i < s.len() ==> is_hex_digit(#[trigger] s[i]),
    ensures
        0 <= hex_val(s) < pow16(s.len()),
    decreases s.len(),
{
    if s.len() > 0 {
        lemma_hex_val_bound(s.drop_last());
    }
}

/// Error kinds surfaced on the API.
#[derive(Clone, Copy, Debug, PartialEq, Eq, Structural)]
pub enum ApiErrorType {
    NoError,
    Parse,
    Configuration,
    External,
    Internal,
}

/// Mathematical content of an `ApiError`.
#[verifier::ext_equal]
pub struct ApiErrorView {
    pub error_type: ApiErrorType,
    pub msg: Seq<char>,
}

/// An error surfaced on the API: a kind together with a message.
#[derive(Debug)]
pub struct ApiError {
    pub error_type: ApiErrorType,
    pub msg: String,
}

impl View for ApiError {
    type V = ApiErrorView;

    open spec fn view(&self) -> ApiErrorView {
        ApiErrorView { error_type: self.error_type, msg: self.msg@ }
    }
}

impl ApiError {
    /// Build an error of the given kind.
    pub fn new(error_type: ApiErrorType, msg: String) -> (r: ApiError)
        ensures
            r@.error_type == error_type,
            r@.msg == msg@,
    {
        ApiError { error_type, msg }
    }
}

impl Clone for ApiError {
    fn clone(&self) -> (r: Self)
        ensures
            r@ == self@,
    {
        ApiError { error_type: self.error_type, msg: self.msg.clone() }
    }
}

/// Mathematical content of a `Key`.
#[verifier::ext_equal]
pub struct KeyView {
    pub key_id: Seq<char>,
    pub data: Seq<u8>,
}

impl KeyView {
    /// A key is well formed when its short id is eight hexadecimal digits.
    pub open spec fn wf(self) -> bool {
        valid_key_id(self.key_id)
    }

    /// The numeric value of the short id; keys compare by this value.
    pub open spec fn id_val(self) -> int {
        hex_val(self.key_id)
    }
}

/// An identity key: an eight-hex-character short id plus the raw public key
/// material. Two keys are the same key exactly when their short ids denote
/// the same value.
#[derive(Debug)]
pub struct Key {
    pub key_id: String,
    pub data: Vec<u8>,
}

impl View for Key {
    type V = KeyView;

    open spec fn view(&self) -> KeyView {
        KeyView { key_id: self.key_id@, data: self.data@ }
    }
}

impl Key {
    /// Build a key from a short id and key material, rejecting a short id
    /// that is not eight hexadecimal digits.
    pub fn new(key_id: String, data: Vec<u8>) -> (r: Result<Key, ApiError>)
        ensures
            valid_key_id(key_id@) ==> (r matches Ok(k) && k@.key_id == key_id@ && k@.data
                == data@),
            !valid_key_id(key_id@) ==> (r matches Err(e) && e@.error_type
                == ApiErrorType::Configuration),
    {
        if check_key_id(&key_id) {
            Ok(Key { key_id, data })
        } else {
            Err(ApiError::new(
                ApiErrorType::Configuration,
                String::from_str("key id is not eight hexadecimal digits"),
            ))
        }
    }

    /// Whether two keys are the same key: equal short-id values.
    pub fn same_key(&self, other: &Key) -> (r: bool)
        requires
            self@.wf(),
            other@.wf(),
        ensures
            r == (self@.id_val() == other@.id_val()),
    {
        key_id_value(&self.key_id) == key_id_value(&other.key_id)
    }
}

impl Clone for Key {
    fn clone(&self) -> (r: Self)
        ensures
            r@ == self@,
    {
        Key { key_id: self.key_id.clone(), data: clone_bytes(&self.data) }
    }
}

/// Clone a byte vector, keeping its contents.
pub fn clone_bytes(v: &Vec<u8>) -> (r: Vec<u8>)
    ensures
        r@ == v@,
{
    let r = v.clone();
    assert(r@ =~= v@);
    r
}

/// Whether `s` is a valid key id: exactly eight hexadecimal digits.
pub fn check_key_id(s: &String) -> (r: bool)
    ensures
        r == valid_key_id(s@),
{
    let n = s.as_str().unicode_len();
    if n != 8 {
        return false;
    }
    let mut i: usize = 0;
    while i < 8
        invariant
            0 <= i <= 8,
            s@.len() == 8,
            forall|j: int| 0 <= j < i ==> is_hex_digit(#[trigger] s@[j]),
        decreases 8 - i,
    {
        let c = s.as_str().get_char(i) as u32;
        if !((48 <= c && c <= 57) || (65 <= c && c <= 70) || (97 <= c && c <= 102)) {
            return false;
        }
        i += 1;
    }
    true
}

/// The numeric value of a valid key id.
pub fn key_id_value(s: &String) -> (r: u32)
    requires
        valid_key_id(s@),
    ensures
        r == hex_val(s@),
{
    let mut acc: u32 = 0;
    let mut i: usize = 0;
    proof {
        assert(s@.take(0) =~= Seq::<char>::empty());
    }
    while i < 8
        invariant
            0 <= i <= 8,
            valid_key_id(s@),
            acc == hex_val(s@.take(i as int)),
            0 <= acc < pow16(i as nat),
        decreases 8 - i,
    {
        let c = s.as_str().get_char(i) as u32;
        let d: u32 = if 48 <= c && c <= 57 {
            c - 48
        } else if 65 <= c && c <= 70 {
            c - 65 + 10
        } else {
            c - 97 + 10
        };
        proof {
            assert(is_hex_digit(s@[i as int]));
            assert(pow16(7) == 0x1000_0000) by {
                reveal_with_fuel(pow16, 8);
            };
            assert(pow16(i as nat) <= pow16(7)) by {
                lemma_pow16_le(i as nat, 7);
            };
            assert(s@.take(i + 1).drop_last() =~= s@.take(i as int));
            assert(s@.take(i + 1).last() == s@[i as int]);
        }
        acc = acc * 16 + d;
        i += 1;
    }
    proof {
        assert(s@.take(8) =~= s@);
    }
    acc
}

/// 16^m divides into 16^n for m at most n.
proof fn lemma_pow16_le(m: nat, n: nat)
    requires
        m <= n,
    ensures
        pow16(m) <= pow16(n),
        pow16(m) >= 1,
    decreases n,
{
    if m < n {
        lemma_pow16_le(m, (n - 1) as nat);
    } else if n > 0 {
        lemma_pow16_le((m - 1) as nat, (n - 1) as nat);
    }
}

/// Mathematical content of an `Address`.
#[verifier::ext_equal]
pub struct AddressView {
    pub ip_data: Seq<u8>,
    pub port: u16,
}

impl AddressView {
    /// An address is well formed when it holds IPv4 or IPv6 octets.
    pub open spec fn wf(self) -> bool {
        self.ip_data.len() == 4 || self.ip_data.len() == 16
    }
}

/// A network address: the IP octets (four for IPv4, sixteen for IPv6) and a
/// port.
#[derive(Debug)]
pub struct Address {
    pub ip_data: Vec<u8>,
    pub port: u16,
}

impl View for Address {
    type V = AddressView;

    open spec fn view(&self) -> AddressView {
        AddressView { ip_data: self.ip_data@, port: self.port }
    }
}

impl Address {
    /// Build an address, rejecting octet strings of any length other than
    /// four or sixteen.
    pub fn new(ip_data: Vec<u8>, port: u16) -> (r: Result<Address, ApiError>)
        ensures
            (ip_data@.len() == 4 || ip_data@.len() == 16) ==> (r matches Ok(a) && a@.ip_data
                == ip_data@ && a@.port == port),
            !(ip_data@.len() == 4 || ip_data@.len() == 16) ==> (r matches Err(e) && e@.error_type
                == ApiErrorType::Parse),
    {
        if ip_data.len() == 4 || ip_data.len() == 16 {
            Ok(Address { ip_data, port })
        } else {
            Err(ApiError::new(
                ApiErrorType::Parse,
                String::from_str("address must hold four or sixteen octets"),
            ))
        }
    }
}

impl Clone for Address {
    fn clone(&self) -> (r: Self)
        ensures
            r@ == self@,
    {
        Address { ip_data: clone_bytes(&self.ip_data), port: self.port }
    }
}

/// Mathematical content of a `Node`.
#[verifier::ext_equal]
pub struct NodeView {
    pub key: KeyView,
    pub address: AddressView,
}

impl NodeView {
    /// A node is well formed when its key and address are.
    pub open spec fn wf(self) -> bool {
        self.key.wf() && self.address.wf()
    }

    /// The node's short-id value; nodes compare by this value.
    pub open spec fn id_val(self) -> int {
        self.key.id_val()
    }
}

/// A participant: a key and the address it can be reached at. Nodes compare
/// by key alone.
#[derive(Debug)]
pub struct Node {
    pub key: Key,
    pub address: Address,
}

impl View for Node {
    type V = NodeView;

    open spec fn view(&self) -> NodeView {
        NodeView { key: self.key@, address: self.address@ }
    }
}

impl Node {
    pub fn new(key: Key, address: Address) -> (r: Node)
        ensures
            r@.key == key@,
            r@.address == address@,
    {
        Node { key, address }
    }

    /// Whether two nodes are the same participant: equal key values.
    pub fn same_node(&self, other: &Node) -> (r: bool)
        requires
            self@.wf(),
            other@.wf(),
        ensures
            r == (self@.id_val() == other@.id_val()),
    {
        self.key.same_key(&other.key)
    }
}

impl Clone for Node {
    fn clone(&self) -> (r: Self)
        ensures
            r@ == self@,
    {
        Node { key: self.key.clone(), address: self.address.clone() }
    }
}

/// Whether some node in `s` has exactly the content `v`.
pub open spec fn appears_in(v: NodeView, s: Seq<Node>) -> bool {
    exists|p: int| 0 <= p < s.len() && v == (#[trigger] s[p])@
}

/// The views of a sequence of nodes, element by element.
pub open spec fn views_of_nodes(s: Seq<Node>) -> Seq<NodeView> {
    Seq::new(s.len(), |i: int| s[i]@)
}

/// Clone a vector of nodes, keeping its contents.
pub fn clone_nodes(v: &Vec<Node>) -> (r: Vec<Node>)
    ensures
        views_of_nodes(r@) == views_of_nodes(v@),
        r@.len() == v@.len(),
{
    let mut r: Vec<Node> = Vec::new();
    let mut i: usize = 0;
    while i < v.len()
        invariant
            0 <= i <= v.len(),
            r@.len() == i,
            forall|j: int| 0 <= j < i ==> #[trigger] r@[j]@ == v@[j]@,
        decreases v.len() - i,
    {
        r.push(v[i].clone());
        i += 1;
    }
    proof {
        assert(views_of_nodes(r@) =~= views_of_nodes(v@));
    }
    r
}

/// Mathematical content of a `MessageSender`.
#[verifier::ext_equal]
pub enum MessageSenderView {
    Node(NodeView),
    Cli,
}

/// Who sent a request: another node, or the local command-line client.
#[derive(Debug)]
pub enum MessageSender {
    Node(Node),
    Cli,
}

impl View for MessageSender {
    type V = MessageSenderView;

    open spec fn view(&self) -> MessageSenderView {
        match self {
            MessageSender::Node(n) => MessageSenderView::Node(n@),
            MessageSender::Cli => MessageSenderView::Cli,
        }
    }
}

impl Clone for MessageSender {
    fn clone(&self) -> (r: Self)
        ensures
            r@ == self@,
    {
        match self {
            MessageSender::Node(n) => MessageSender::Node(n.clone()),
            MessageSender::Cli => MessageSender::Cli,
        }
    }
}

/// Where a request may arrive from: the global node-to-node transport or the
/// local client transport.
#[derive(Clone, Copy, PartialEq, Eq, Structural)]
pub enum ApiVisibility {
    Global,
    Local,
}

/// Mathematical content of a `RequestPayload`.
#[verifier::ext_equal]
pub enum RequestPayloadView {
    QueryRequest(KeyView),
    SearchRequest(KeyView),
    ConnectRequest(NodeView),
    ListNeighboursRequest,
}

impl RequestPayloadView {
    /// Which transports may carry this payload: queries and neighbour
    /// listings travel on both, searches and connects only on the local one.
    pub open spec fn visible(self, v: ApiVisibility) -> bool {
        match self {
            RequestPayloadView::QueryRequest(_) => true,
            RequestPayloadView::SearchRequest(_) => v == ApiVisibility::Local,
            RequestPayloadView::ConnectRequest(_) => v == ApiVisibility::Local,
            RequestPayloadView::ListNeighboursRequest => true,
        }
    }
}

/// A request payload: the four operations a node answers.
#[derive(Debug)]
pub enum RequestPayload {
    QueryRequest(Key),
    SearchRequest(Key),
    ConnectRequest(Node),
    ListNeighboursRequest,
}

impl View for RequestPayload {
    type V = RequestPayloadView;

    open spec fn view(&self) -> RequestPayloadView {
        match self {
            RequestPayload::QueryRequest(k) => RequestPayloadView::QueryRequest(k@),
            RequestPayload::SearchRequest(k) => RequestPayloadView::SearchRequest(k@),
            RequestPayload::ConnectRequest(n) => RequestPayloadView::ConnectRequest(n@),
            RequestPayload::ListNeighboursRequest => RequestPayloadView::ListNeighboursRequest,
        }
    }
}

impl RequestPayload {
    /// Whether this payload may arrive over the given transport.
    pub fn is_visible(&self, v: &ApiVisibility) -> (r: bool)
        ensures
            r == self@.visible(*v),
    {
        match self {
            RequestPayload::QueryRequest(_) => true,
            RequestPayload::SearchRequest(_) => *v == ApiVisibility::Local,
            RequestPayload::ConnectRequest(_) => *v == ApiVisibility::Local,
            RequestPayload::ListNeighboursRequest => true,
        }
    }
}

impl Clone for RequestPayload {
    fn clone(&self) -> (r: Self)
        ensures
            r@ == self@,
    {
        match self {
            RequestPayload::QueryRequest(k) => RequestPayload::QueryRequest(k.clone()),
            RequestPayload::SearchRequest(k) => RequestPayload::SearchRequest(k.clone()),
            RequestPayload::ConnectRequest(n) => RequestPayload::ConnectRequest(n.clone()),
            RequestPayload::ListNeighboursRequest => RequestPayload::ListNeighboursRequest,
        }
    }
}

/// Mathematical content of a `ResponsePayload`.
#[verifier::ext_equal]
pub enum ResponsePayloadView {
    QueryResponse(Seq<NodeView>),
    SearchResponse(Option<NodeView>),
    ConnectResponse,
    ListNeighboursResponse(Seq<NodeView>),
    Error(ApiErrorView),
}

/// A response payload: one per request payload, or an error.
#[derive(Debug)]
pub enum ResponsePayload {
    QueryResponse(Vec<Node>),
    SearchResponse(Option<Node>),
    ConnectResponse,
    ListNeighboursResponse(Vec<Node>),
    Error(ApiError),
}

impl View for ResponsePayload {
    type V = ResponsePayloadView;

    open spec fn view(&self) -> ResponsePayloadView {
        match self {
            ResponsePayload::QueryResponse(ns) => ResponsePayloadView::QueryResponse(
                views_of_nodes(ns@),
            ),
            ResponsePayload::SearchResponse(n) => ResponsePayloadView::SearchResponse(
                match n {
                    Some(n) => Some(n@),
                    None => None,
                },
            ),
            ResponsePayload::ConnectResponse => ResponsePayloadView::ConnectResponse,
            ResponsePayload::ListNeighboursResponse(ns) => ResponsePayloadView::ListNeighboursResponse(
                views_of_nodes(ns@),
            ),
            ResponsePayload::Error(e) => ResponsePayloadView::Error(e@),
        }
    }
}

impl Clone for ResponsePayload {
    fn clone(&self) -> (r: Self)
        ensures
            r@ == self@,
    {
        match self {
            ResponsePayload::QueryResponse(ns) => ResponsePayload::QueryResponse(clone_nodes(ns)),
            ResponsePayload::SearchResponse(n) => ResponsePayload::SearchResponse(
                match n {
                    Some(n) => Some(n.clone()),
                    None => None,
                },
            ),
            ResponsePayload::ConnectResponse => ResponsePayload::ConnectResponse,
            ResponsePayload::ListNeighboursResponse(ns) => ResponsePayload::ListNeighboursResponse(
                clone_nodes(ns),
            ),
            ResponsePayload::Error(e) => ResponsePayload::Error(e.clone()),
        }
    }
}

/// Mathematical content of a `RequestMessage`.
#[verifier::ext_equal]
pub struct RequestMessageView {
    pub payload: RequestPayloadView,
    pub sender: MessageSenderView,
    pub id: u32,
    pub version: Seq<char>,
}

/// A request on the wire: a correlation id, the sender's protocol version,
/// who sent it, and the payload.
#[derive(Debug)]
pub struct RequestMessage {
    pub payload: RequestPayload,
    pub sender: MessageSender,
    pub id: u32,
    pub version: String,
}

impl View for RequestMessage {
    type V = RequestMessageView;

    open spec fn view(&self) -> RequestMessageView {
        RequestMessageView {
            payload: self.payload@,
            sender: self.sender@,
            id: self.id,
            version: self.version@,
        }
    }
}

/// Mathematical content of a `ResponseMessage`.
#[verifier::ext_equal]
pub struct ResponseMessageView {
    pub payload: ResponsePayloadView,
    pub sender: MessageSenderView,
    pub id: u32,
    pub version: Seq<char>,
}

/// A response on the wire, mirroring the request's correlation id.
#[derive(Debug)]
pub struct ResponseMessage {
    pub payload: ResponsePayload,
    pub sender: MessageSender,
    pub id: u32,
    pub version: String,
}

impl View for ResponseMessage {
    type V = ResponseMessageView;

    open spec fn view(&self) -> ResponseMessageView {
        ResponseMessageView {
            payload: self.payload@,
            sender: self.sender@,
            id: self.id,
            version: self.version@,
        }
    }
}

} // verus!
