//! The wire schema: the records that cross between nodes, one struct per
//! message of the protocol, with protobuf-style accessors. Optional
//! sub-messages are `Option` fields; every accessor states exactly what it
//! reads or writes.

use vstd::prelude::*;
use vstd::pervasive::unreached;
use crate::api::ApiErrorType;

verus! {

/// Mathematical content of a wire `Key`.
#[verifier::ext_equal]
pub struct KeyView {
    pub key_id: Seq<char>,
    pub data: Seq<u8>,
}

/// The default wire `Key`: every field cleared.
pub open spec fn key_default() -> KeyView {
    KeyView {
        key_id: Seq::<char>::empty(),
        data: Seq::<u8>::empty(),
    }
}

/// Wire record `Key`.
pub struct Key {
    pub key_id: String,
    pub data: Vec<u8>,
}

impl View for Key {
    type V = KeyView;

    open spec fn view(&self) -> KeyView {
        KeyView {
            key_id: (self.key_id@),
            data: (self.data@),
        }
    }
}

impl Key {
    /// A record with every field cleared.
    pub fn new() -> (r: Key)
        ensures
            r@ == key_default(),
    {
        Key {
            key_id: String::new(),
            data: Vec::new(),
        }
    }

    /// Clear `key_id` to its default.
    pub fn clear_key_id(&mut self)
        ensures
            final(self)@ == (KeyView { key_id: Seq::<char>::empty(), ..old(self)@ }),
    {
        self.key_id = String::new();
    }

    /// Overwrite `key_id`.
    pub fn set_key_id(&mut self, v: String)
        ensures
            final(self)@ == (KeyView { key_id: v@, ..old(self)@ }),
    {
        self.key_id = v;
    }

    /// Borrow `key_id` for writing.
    pub fn mut_key_id(&mut self) -> (r: &mut String)
        ensures
            *r == old(self).key_id,
            final(self)@ == (KeyView { key_id: (*final(r))@, ..old(self)@ }),
    {
        &mut self.key_id
    }

    /// Move `key_id` out, leaving its default.
    pub fn take_key_id(&mut self) -> (r: String)
        ensures
            r@ == old(self)@.key_id,
            final(self)@ == (KeyView { key_id: Seq::<char>::empty(), ..old(self)@ }),
    {
        let mut taken = String::new();
        core::mem::swap(&mut taken, &mut self.key_id);
        taken
    }

    /// Read `key_id`.
    pub fn get_key_id(&self) -> (r: &str)
        ensures
            r@ == self@.key_id,
    {
        self.key_id.as_str()
    }

    /// Clear `data` to its default.
    pub fn clear_data(&mut self)
        ensures
            final(self)@ == (KeyView { data: Seq::<u8>::empty(), ..old(self)@ }),
    {
        self.data = Vec::new();
    }

    /// Overwrite `data`.
    pub fn set_data(&mut self, v: Vec<u8>)
        ensures
            final(self)@ == (KeyView { data: v@, ..old(self)@ }),
    {
        self.data = v;
    }

    /// Borrow `data` for writing.
    pub fn mut_data(&mut self) -> (r: &mut Vec<u8>)
        ensures
            *r == old(self).data,
            final(self)@ == (KeyView { data: (*final(r))@, ..old(self)@ }),
    {
        &mut self.data
    }

    /// Move `data` out, leaving its default.
    pub fn take_data(&mut self) -> (r: Vec<u8>)
        ensures
            r@ == old(self)@.data,
            final(self)@ == (KeyView { data: Seq::<u8>::empty(), ..old(self)@ }),
    {
        let mut taken = Vec::new();
        core::mem::swap(&mut taken, &mut self.data);
        taken
    }

    /// Read `data`.
    pub fn get_data(&self) -> (r: &[u8])
        ensures
            r@ == self@.data,
    {
        self.data.as_slice()
    }
}

/// Mathematical content of a wire `Address`.
#[verifier::ext_equal]
pub struct AddressView {
    pub ip_data: Seq<u8>,
    pub port: u32,
}

/// The default wire `Address`: every field cleared.
pub open spec fn address_default() -> AddressView {
    AddressView {
        ip_data: Seq::<u8>::empty(),
        port: 0,
    }
}

/// Wire record `Address`.
pub struct Address {
    pub ip_data: Vec<u8>,
    pub port: u32,
}

impl View for Address {
    type V = AddressView;

    open spec fn view(&self) -> AddressView {
        AddressView {
            ip_data: (self.ip_data@),
            port: (self.port),
        }
    }
}

impl Address {
    /// A record with every field cleared.
    pub fn new() -> (r: Address)
        ensures
            r@ == address_default(),
    {
        Address {
            ip_data: Vec::new(),
            port: 0,
        }
    }

    /// Clear `ip_data` to its default.
    pub fn clear_ip_data(&mut self)
        ensures
            final(self)@ == (AddressView { ip_data: Seq::<u8>::empty(), ..old(self)@ }),
    {
        self.ip_data = Vec::new();
    }

    /// Overwrite `ip_data`.
    pub fn set_ip_data(&mut self, v: Vec<u8>)
        ensures
            final(self)@ == (AddressView { ip_data: v@, ..old(self)@ }),
    {
        self.ip_data = v;
    }

    /// Borrow `ip_data` for writing.
    pub fn mut_ip_data(&mut self) -> (r: &mut Vec<u8>)
        ensures
            *r == old(self).ip_data,
            final(self)@ == (AddressView { ip_data: (*final(r))@, ..old(self)@ }),
    {
        &mut self.ip_data
    }

    /// Move `ip_data` out, leaving its default.
    pub fn take_ip_data(&mut self) -> (r: Vec<u8>)
        ensures
            r@ == old(self)@.ip_data,
            final(self)@ == (AddressView { ip_data: Seq::<u8>::empty(), ..old(self)@ }),
    {
        let mut taken = Vec::new();
        core::mem::swap(&mut taken, &mut self.ip_data);
        taken
    }

    /// Read `ip_data`.
    pub fn get_ip_data(&self) -> (r: &[u8])
        ensures
            r@ == self@.ip_data,
    {
        self.ip_data.as_slice()
    }

    /// Clear `port` to its default.
    pub fn clear_port(&mut self)
        ensures
            final(self)@ == (AddressView { port: 0, ..old(self)@ }),
    {
        self.port = 0;
    }

    /// Overwrite `port`.
    pub fn set_port(&mut self, v: u32)
        ensures
            final(self)@ == (AddressView { port: v, ..old(self)@ }),
    {
        self.port = v;
    }

    /// Read `port`.
    pub fn get_port(&self) -> (r: u32)
        ensures
            r == self@.port,
    {
        self.port
    }
}

/// Mathematical content of a wire `Node`.
#[verifier::ext_equal]
pub struct NodeView {
    pub key: Option<KeyView>,
    pub address: Option<AddressView>,
}

/// The default wire `Node`: every field cleared.
pub open spec fn node_default() -> NodeView {
    NodeView {
        key: None,
        address: None,
    }
}

/// Wire record `Node`.
pub struct Node {
    pub key: Option<Key>,
    pub address: Option<Address>,
}

impl View for Node {
    type V = NodeView;

    open spec fn view(&self) -> NodeView {
        NodeView {
            key: (match &self.key {
                Some(v) => Some(v@),
                None => None,
            }),
            address: (match &self.address {
                Some(v) => Some(v@),
                None => None,
            }),
        }
    }
}

impl Node {
    /// A record with every field cleared.
    pub fn new() -> (r: Node)
        ensures
            r@ == node_default(),
    {
        Node {
            key: None,
            address: None,
        }
    }

    /// Clear `key`: no sub-message.
    pub fn clear_key(&mut self)
        ensures
            final(self)@ == (NodeView { key: None, ..old(self)@ }),
    {
        self.key = None;
    }

    /// Whether `key` is present.
    pub fn has_key(&self) -> (r: bool)
        ensures
            r == (self@.key is Some),
    {
        self.key.is_some()
    }

    /// Overwrite `key`.
    pub fn set_key(&mut self, v: Key)
        ensures
            final(self)@ == (NodeView { key: Some(v@), ..old(self)@ }),
    {
        self.key = Some(v);
    }

    /// Borrow `key` for writing, inserting a default sub-message if none
    /// is present.
    pub fn mut_key(&mut self) -> (r: &mut Key)
        ensures
            (*r)@ == (match old(self)@.key {
                Some(v) => v,
                None => key_default(),
            }),
            final(self)@ == (NodeView { key: Some((*final(r))@), ..old(self)@ }),
    {
        if self.key.is_none() {
            self.key = Some(Key::new());
        }
        match &mut self.key {
            Some(v) => v,
            None => unreached(),
        }
    }

    /// Move `key` out, leaving none; a missing sub-message comes out as
    /// the default.
    pub fn take_key(&mut self) -> (r: Key)
        ensures
            r@ == (match old(self)@.key {
                Some(v) => v,
                None => key_default(),
            }),
            final(self)@ == (NodeView { key: None, ..old(self)@ }),
    {
        let mut taken: Option<Key> = None;
        core::mem::swap(&mut taken, &mut self.key);
        match taken {
            Some(v) => v,
            None => Key::new(),
        }
    }

    /// Read `key`; it must be present.
    pub fn get_key(&self) -> (r: &Key)
        requires
            self@.key is Some,
        ensures
            (self@.key matches Some(v) && r@ == v),
    {
        match &self.key {
            Some(v) => v,
            None => unreached(),
        }
    }

    /// Clear `address`: no sub-message.
    pub fn clear_address(&mut self)
        ensures
            final(self)@ == (NodeView { address: None, ..old(self)@ }),
    {
        self.address = None;
    }

    /// Whether `address` is present.
    pub fn has_address(&self) -> (r: bool)
        ensures
            r == (self@.address is Some),
    {
        self.address.is_some()
    }

    /// Overwrite `address`.
    pub fn set_address(&mut self, v: Address)
        ensures
            final(self)@ == (NodeView { address: Some(v@), ..old(self)@ }),
    {
        self.address = Some(v);
    }

    /// Borrow `address` for writing, inserting a default sub-message if none
    /// is present.
    pub fn mut_address(&mut self) -> (r: &mut Address)
        ensures
            (*r)@ == (match old(self)@.address {
                Some(v) => v,
                None => address_default(),
            }),
            final(self)@ == (NodeView { address: Some((*final(r))@), ..old(self)@ }),
    {
        if self.address.is_none() {
            self.address = Some(Address::new());
        }
        match &mut self.address {
            Some(v) => v,
            None => unreached(),
        }
    }

    /// Move `address` out, leaving none; a missing sub-message comes out as
    /// the default.
    pub fn take_address(&mut self) -> (r: Address)
        ensures
            r@ == (match old(self)@.address {
                Some(v) => v,
                None => address_default(),
            }),
            final(self)@ == (NodeView { address: None, ..old(self)@ }),
    {
        let mut taken: Option<Address> = None;
        core::mem::swap(&mut taken, &mut self.address);
        match taken {
            Some(v) => v,
            None => Address::new(),
        }
    }

    /// Read `address`; it must be present.
    pub fn get_address(&self) -> (r: &Address)
        requires
            self@.address is Some,
        ensures
            (self@.address matches Some(v) && r@ == v),
    {
        match &self.address {
            Some(v) => v,
            None => unreached(),
        }
    }
}

/// Mathematical content of a wire `ApiError`.
#[verifier::ext_equal]
pub struct ApiErrorView {
    pub msg: Seq<char>,
    pub error_type: ApiErrorType,
}

/// The default wire `ApiError`: every field cleared.
pub open spec fn api_error_default() -> ApiErrorView {
    ApiErrorView {
        msg: Seq::<char>::empty(),
        error_type: ApiErrorType::NoError,
    }
}

/// Wire record `ApiError`.
pub struct ApiError {
    pub msg: String,
    pub error_type: ApiErrorType,
}

impl View for ApiError {
    type V = ApiErrorView;

    open spec fn view(&self) -> ApiErrorView {
        ApiErrorView {
            msg: (self.msg@),
            error_type: (self.error_type),
        }
    }
}

impl ApiError {
    /// A record with every field cleared.
    pub fn new() -> (r: ApiError)
        ensures
            r@ == api_error_default(),
    {
        ApiError {
            msg: String::new(),
            error_type: ApiErrorType::NoError,
        }
    }

    /// Clear `msg` to its default.
    pub fn clear_msg(&mut self)
        ensures
            final(self)@ == (ApiErrorView { msg: Seq::<char>::empty(), ..old(self)@ }),
    {
        self.msg = String::new();
    }

    /// Overwrite `msg`.
    pub fn set_msg(&mut self, v: String)
        ensures
            final(self)@ == (ApiErrorView { msg: v@, ..old(self)@ }),
    {
        self.msg = v;
    }

    /// Borrow `msg` for writing.
    pub fn mut_msg(&mut self) -> (r: &mut String)
        ensures
            *r == old(self).msg,
            final(self)@ == (ApiErrorView { msg: (*final(r))@, ..old(self)@ }),
    {
        &mut self.msg
    }

    /// Move `msg` out, leaving its default.
    pub fn take_msg(&mut self) -> (r: String)
        ensures
            r@ == old(self)@.msg,
            final(self)@ == (ApiErrorView { msg: Seq::<char>::empty(), ..old(self)@ }),
    {
        let mut taken = String::new();
        core::mem::swap(&mut taken, &mut self.msg);
        taken
    }

    /// Read `msg`.
    pub fn get_msg(&self) -> (r: &str)
        ensures
            r@ == self@.msg,
    {
        self.msg.as_str()
    }

    /// Clear `error_type` to its default.
    pub fn clear_error_type(&mut self)
        ensures
            final(self)@ == (ApiErrorView { error_type: ApiErrorType::NoError, ..old(self)@ }),
    {
        self.error_type = ApiErrorType::NoError;
    }

    /// Overwrite `error_type`.
    pub fn set_error_type(&mut self, v: ApiErrorType)
        ensures
            final(self)@ == (ApiErrorView { error_type: v, ..old(self)@ }),
    {
        self.error_type = v;
    }

    /// Read `error_type`.
    pub fn get_error_type(&self) -> (r: ApiErrorType)
        ensures
            r == self@.error_type,
    {
        self.error_type
    }
}

/// Mathematical content of a wire `MessageSender`.
#[verifier::ext_equal]
pub struct MessageSenderView {
    pub key: Option<KeyView>,
    pub port: u32,
}

/// The default wire `MessageSender`: every field cleared.
pub open spec fn message_sender_default() -> MessageSenderView {
    MessageSenderView {
        key: None,
        port: 0,
    }
}

/// Wire record `MessageSender`.
pub struct MessageSender {
    pub key: Option<Key>,
    pub port: u32,
}

impl View for MessageSender {
    type V = MessageSenderView;

    open spec fn view(&self) -> MessageSenderView {
        MessageSenderView {
            key: (match &self.key {
                Some(v) => Some(v@),
                None => None,
            }),
            port: (self.port),
        }
    }
}

impl MessageSender {
    /// A record with every field cleared.
    pub fn new() -> (r: MessageSender)
        ensures
            r@ == message_sender_default(),
    {
        MessageSender {
            key: None,
            port: 0,
        }
    }

    /// Clear `key`: no sub-message.
    pub fn clear_key(&mut self)
        ensures
            final(self)@ == (MessageSenderView { key: None, ..old(self)@ }),
    {
        self.key = None;
    }

    /// Whether `key` is present.
    pub fn has_key(&self) -> (r: bool)
        ensures
            r == (self@.key is Some),
    {
        self.key.is_some()
    }

    /// Overwrite `key`.
    pub fn set_key(&mut self, v: Key)
        ensures
            final(self)@ == (MessageSenderView { key: Some(v@), ..old(self)@ }),
    {
        self.key = Some(v);
    }

    /// Borrow `key` for writing, inserting a default sub-message if none
    /// is present.
    pub fn mut_key(&mut self) -> (r: &mut Key)
        ensures
            (*r)@ == (match old(self)@.key {
                Some(v) => v,
                None => key_default(),
            }),
            final(self)@ == (MessageSenderView { key: Some((*final(r))@), ..old(self)@ }),
    {
        if self.key.is_none() {
            self.key = Some(Key::new());
        }
        match &mut self.key {
            Some(v) => v,
            None => unreached(),
        }
    }

    /// Move `key` out, leaving none; a missing sub-message comes out as
    /// the default.
    pub fn take_key(&mut self) -> (r: Key)
        ensures
            r@ == (match old(self)@.key {
                Some(v) => v,
                None => key_default(),
            }),
            final(self)@ == (MessageSenderView { key: None, ..old(self)@ }),
    {
        let mut taken: Option<Key> = None;
        core::mem::swap(&mut taken, &mut self.key);
        match taken {
            Some(v) => v,
            None => Key::new(),
        }
    }

    /// Read `key`; it must be present.
    pub fn get_key(&self) -> (r: &Key)
        requires
            self@.key is Some,
        ensures
            (self@.key matches Some(v) && r@ == v),
    {
        match &self.key {
            Some(v) => v,
            None => unreached(),
        }
    }

    /// Clear `port` to its default.
    pub fn clear_port(&mut self)
        ensures
            final(self)@ == (MessageSenderView { port: 0, ..old(self)@ }),
    {
        self.port = 0;
    }

    /// Overwrite `port`.
    pub fn set_port(&mut self, v: u32)
        ensures
            final(self)@ == (MessageSenderView { port: v, ..old(self)@ }),
    {
        self.port = v;
    }

    /// Read `port`.
    pub fn get_port(&self) -> (r: u32)
        ensures
            r == self@.port,
    {
        self.port
    }
}

/// Mathematical content of a wire `GeneralRequest`.
#[verifier::ext_equal]
pub struct GeneralRequestView {
    pub query_request: Option<QueryRequestView>,
    pub search_request: Option<SearchRequestView>,
    pub connect_request: Option<ConnectRequestView>,
    pub list_neighbours_request: Option<ListNeighboursRequestView>,
    pub sender: Option<MessageSenderView>,
    pub id: u32,
    pub version: Seq<char>,
}

/// The default wire `GeneralRequest`: every field cleared.
pub open spec fn general_request_default() -> GeneralRequestView {
    GeneralRequestView {
        query_request: None,
        search_request: None,
        connect_request: None,
        list_neighbours_request: None,
        sender: None,
        id: 0,
        version: Seq::<char>::empty(),
    }
}

/// Wire record `GeneralRequest`.
pub struct GeneralRequest {
    pub query_request: Option<QueryRequest>,
    pub search_request: Option<SearchRequest>,
    pub connect_request: Option<ConnectRequest>,
    pub list_neighbours_request: Option<ListNeighboursRequest>,
    pub sender: Option<MessageSender>,
    pub id: u32,
    pub version: String,
}

impl View for GeneralRequest {
    type V = GeneralRequestView;

    open spec fn view(&self) -> GeneralRequestView {
        GeneralRequestView {
            query_request: (match &self.query_request {
                Some(v) => Some(v@),
                None => None,
            }),
            search_request: (match &self.search_request {
                Some(v) => Some(v@),
                None => None,
            }),
            connect_request: (match &self.connect_request {
                Some(v) => Some(v@),
                None => None,
            }),
            list_neighbours_request: (match &self.list_neighbours_request {
                Some(v) => Some(v@),
                None => None,
            }),
            sender: (match &self.sender {
                Some(v) => Some(v@),
                None => None,
            }),
            id: (self.id),
            version: (self.version@),
        }
    }
}

impl GeneralRequest {
    /// A record with every field cleared.
    pub fn new() -> (r: GeneralRequest)
        ensures
            r@ == general_request_default(),
    {
        GeneralRequest {
            query_request: None,
            search_request: None,
            connect_request: None,
            list_neighbours_request: None,
            sender: None,
            id: 0,
            version: String::new(),
        }
    }

    /// Clear `query_request`: no sub-message.
    pub fn clear_query_request(&mut self)
        ensures
            final(self)@ == (GeneralRequestView { query_request: None, ..old(self)@ }),
    {
        self.query_request = None;
    }

    /// Whether `query_request` is present.
    pub fn has_query_request(&self) -> (r: bool)
        ensures
            r == (self@.query_request is Some),
    {
        self.query_request.is_some()
    }

    /// Overwrite `query_request`.
    pub fn set_query_request(&mut self, v: QueryRequest)
        ensures
            final(self)@ == (GeneralRequestView { query_request: Some(v@), ..old(self)@ }),
    {
        self.query_request = Some(v);
    }

    /// Borrow `query_request` for writing, inserting a default sub-message if none
    /// is present.
    pub fn mut_query_request(&mut self) -> (r: &mut QueryRequest)
        ensures
            (*r)@ == (match old(self)@.query_request {
                Some(v) => v,
                None => query_request_default(),
            }),
            final(self)@ == (GeneralRequestView { query_request: Some((*final(r))@), ..old(self)@ }),
    {
        if self.query_request.is_none() {
            self.query_request = Some(QueryRequest::new());
        }
        match &mut self.query_request {
            Some(v) => v,
            None => unreached(),
        }
    }

    /// Move `query_request` out, leaving none; a missing sub-message comes out as
    /// the default.
    pub fn take_query_request(&mut self) -> (r: QueryRequest)
        ensures
            r@ == (match old(self)@.query_request {
                Some(v) => v,
                None => query_request_default(),
            }),
            final(self)@ == (GeneralRequestView { query_request: None, ..old(self)@ }),
    {
        let mut taken: Option<QueryRequest> = None;
        core::mem::swap(&mut taken, &mut self.query_request);
        match taken {
            Some(v) => v,
            None => QueryRequest::new(),
        }
    }

    /// Read `query_request`; it must be present.
    pub fn get_query_request(&self) -> (r: &QueryRequest)
        requires
            self@.query_request is Some,
        ensures
            (self@.query_request matches Some(v) && r@ == v),
    {
        match &self.query_request {
            Some(v) => v,
            None => unreached(),
        }
    }

    /// Clear `search_request`: no sub-message.
    pub fn clear_search_request(&mut self)
        ensures
            final(self)@ == (GeneralRequestView { search_request: None, ..old(self)@ }),
    {
        self.search_request = None;
    }

    /// Whether `search_request` is present.
    pub fn has_search_request(&self) -> (r: bool)
        ensures
            r == (self@.search_request is Some),
    {
        self.search_request.is_some()
    }

    /// Overwrite `search_request`.
    pub fn set_search_request(&mut self, v: SearchRequest)
        ensures
            final(self)@ == (GeneralRequestView { search_request: Some(v@), ..old(self)@ }),
    {
        self.search_request = Some(v);
    }

    /// Borrow `search_request` for writing, inserting a default sub-message if none
    /// is present.
    pub fn mut_search_request(&mut self) -> (r: &mut SearchRequest)
        ensures
            (*r)@ == (match old(self)@.search_request {
                Some(v) => v,
                None => search_request_default(),
            }),
            final(self)@ == (GeneralRequestView { search_request: Some((*final(r))@), ..old(self)@ }),
    {
        if self.search_request.is_none() {
            self.search_request = Some(SearchRequest::new());
        }
        match &mut self.search_request {
            Some(v) => v,
            None => unreached(),
        }
    }

    /// Move `search_request` out, leaving none; a missing sub-message comes out as
    /// the default.
    pub fn take_search_request(&mut self) -> (r: SearchRequest)
        ensures
            r@ == (match old(self)@.search_request {
                Some(v) => v,
                None => search_request_default(),
            }),
            final(self)@ == (GeneralRequestView { search_request: None, ..old(self)@ }),
    {
        let mut taken: Option<SearchRequest> = None;
        core::mem::swap(&mut taken, &mut self.search_request);
        match taken {
            Some(v) => v,
            None => SearchRequest::new(),
        }
    }

    /// Read `search_request`; it must be present.
    pub fn get_search_request(&self) -> (r: &SearchRequest)
        requires
            self@.search_request is Some,
        ensures
            (self@.search_request matches Some(v) && r@ == v),
    {
        match &self.search_request {
            Some(v) => v,
            None => unreached(),
        }
    }

    /// Clear `connect_request`: no sub-message.
    pub fn clear_connect_request(&mut self)
        ensures
            final(self)@ == (GeneralRequestView { connect_request: None, ..old(self)@ }),
    {
        self.connect_request = None;
    }

    /// Whether `connect_request` is present.
    pub fn has_connect_request(&self) -> (r: bool)
        ensures
            r == (self@.connect_request is Some),
    {
        self.connect_request.is_some()
    }

    /// Overwrite `connect_request`.
    pub fn set_connect_request(&mut self, v: ConnectRequest)
        ensures
            final(self)@ == (GeneralRequestView { connect_request: Some(v@), ..old(self)@ }),
    {
        self.connect_request = Some(v);
    }

    /// Borrow `connect_request` for writing, inserting a default sub-message if none
    /// is present.
    pub fn mut_connect_request(&mut self) -> (r: &mut ConnectRequest)
        ensures
            (*r)@ == (match old(self)@.connect_request {
                Some(v) => v,
                None => connect_request_default(),
            }),
            final(self)@ == (GeneralRequestView { connect_request: Some((*final(r))@), ..old(self)@ }),
    {
        if self.connect_request.is_none() {
            self.connect_request = Some(ConnectRequest::new());
        }
        match &mut self.connect_request {
            Some(v) => v,
            None => unreached(),
        }
    }

    /// Move `connect_request` out, leaving none; a missing sub-message comes out as
    /// the default.
    pub fn take_connect_request(&mut self) -> (r: ConnectRequest)
        ensures
            r@ == (match old(self)@.connect_request {
                Some(v) => v,
                None => connect_request_default(),
            }),
            final(self)@ == (GeneralRequestView { connect_request: None, ..old(self)@ }),
    {
        let mut taken: Option<ConnectRequest> = None;
        core::mem::swap(&mut taken, &mut self.connect_request);
        match taken {
            Some(v) => v,
            None => ConnectRequest::new(),
        }
    }

    /// Read `connect_request`; it must be present.
    pub fn get_connect_request(&self) -> (r: &ConnectRequest)
        requires
            self@.connect_request is Some,
        ensures
            (self@.connect_request matches Some(v) && r@ == v),
    {
        match &self.connect_request {
            Some(v) => v,
            None => unreached(),
        }
    }

    /// Clear `list_neighbours_request`: no sub-message.
    pub fn clear_list_neighbours_request(&mut self)
        ensures
            final(self)@ == (GeneralRequestView { list_neighbours_request: None, ..old(self)@ }),
    {
        self.list_neighbours_request = None;
    }

    /// Whether `list_neighbours_request` is present.
    pub fn has_list_neighbours_request(&self) -> (r: bool)
        ensures
            r == (self@.list_neighbours_request is Some),
    {
        self.list_neighbours_request.is_some()
    }

    /// Overwrite `list_neighbours_request`.
    pub fn set_list_neighbours_request(&mut self, v: ListNeighboursRequest)
        ensures
            final(self)@ == (GeneralRequestView { list_neighbours_request: Some(v@), ..old(self)@ }),
    {
        self.list_neighbours_request = Some(v);
    }

    /// Borrow `list_neighbours_request` for writing, inserting a default sub-message if none
    /// is present.
    pub fn mut_list_neighbours_request(&mut self) -> (r: &mut ListNeighboursRequest)
        ensures
            (*r)@ == (match old(self)@.list_neighbours_request {
                Some(v) => v,
                None => list_neighbours_request_default(),
            }),
            final(self)@ == (GeneralRequestView { list_neighbours_request: Some((*final(r))@), ..old(self)@ }),
    {
        if self.list_neighbours_request.is_none() {
            self.list_neighbours_request = Some(ListNeighboursRequest::new());
        }
        match &mut self.list_neighbours_request {
            Some(v) => v,
            None => unreached(),
        }
    }

    /// Move `list_neighbours_request` out, leaving none; a missing sub-message comes out as
    /// the default.
    pub fn take_list_neighbours_request(&mut self) -> (r: ListNeighboursRequest)
        ensures
            r@ == (match old(self)@.list_neighbours_request {
                Some(v) => v,
                None => list_neighbours_request_default(),
            }),
            final(self)@ == (GeneralRequestView { list_neighbours_request: None, ..old(self)@ }),
    {
        let mut taken: Option<ListNeighboursRequest> = None;
        core::mem::swap(&mut taken, &mut self.list_neighbours_request);
        match taken {
            Some(v) => v,
            None => ListNeighboursRequest::new(),
        }
    }

    /// Read `list_neighbours_request`; it must be present.
    pub fn get_list_neighbours_request(&self) -> (r: &ListNeighboursRequest)
        requires
            self@.list_neighbours_request is Some,
        ensures
            (self@.list_neighbours_request matches Some(v) && r@ == v),
    {
        match &self.list_neighbours_request {
            Some(v) => v,
            None => unreached(),
        }
    }

    /// Clear `sender`: no sub-message.
    pub fn clear_sender(&mut self)
        ensures
            final(self)@ == (GeneralRequestView { sender: None, ..old(self)@ }),
    {
        self.sender = None;
    }

    /// Whether `sender` is present.
    pub fn has_sender(&self) -> (r: bool)
        ensures
            r == (self@.sender is Some),
    {
        self.sender.is_some()
    }

    /// Overwrite `sender`.
    pub fn set_sender(&mut self, v: MessageSender)
        ensures
            final(self)@ == (GeneralRequestView { sender: Some(v@), ..old(self)@ }),
    {
        self.sender = Some(v);
    }

    /// Borrow `sender` for writing, inserting a default sub-message if none
    /// is present.
    pub fn mut_sender(&mut self) -> (r: &mut MessageSender)
        ensures
            (*r)@ == (match old(self)@.sender {
                Some(v) => v,
                None => message_sender_default(),
            }),
            final(self)@ == (GeneralRequestView { sender: Some((*final(r))@), ..old(self)@ }),
    {
        if self.sender.is_none() {
            self.sender = Some(MessageSender::new());
        }
        match &mut self.sender {
            Some(v) => v,
            None => unreached(),
        }
    }

    /// Move `sender` out, leaving none; a missing sub-message comes out as
    /// the default.
    pub fn take_sender(&mut self) -> (r: MessageSender)
        ensures
            r@ == (match old(self)@.sender {
                Some(v) => v,
                None => message_sender_default(),
            }),
            final(self)@ == (GeneralRequestView { sender: None, ..old(self)@ }),
    {
        let mut taken: Option<MessageSender> = None;
        core::mem::swap(&mut taken, &mut self.sender);
        match taken {
            Some(v) => v,
            None => MessageSender::new(),
        }
    }

    /// Read `sender`; it must be present.
    pub fn get_sender(&self) -> (r: &MessageSender)
        requires
            self@.sender is Some,
        ensures
            (self@.sender matches Some(v) && r@ == v),
    {
        match &self.sender {
            Some(v) => v,
            None => unreached(),
        }
    }

    /// Clear `id` to its default.
    pub fn clear_id(&mut self)
        ensures
            final(self)@ == (GeneralRequestView { id: 0, ..old(self)@ }),
    {
        self.id = 0;
    }

    /// Overwrite `id`.
    pub fn set_id(&mut self, v: u32)
        ensures
            final(self)@ == (GeneralRequestView { id: v, ..old(self)@ }),
    {
        self.id = v;
    }

    /// Read `id`.
    pub fn get_id(&self) -> (r: u32)
        ensures
            r == self@.id,
    {
        self.id
    }

    /// Clear `version` to its default.
    pub fn clear_version(&mut self)
        ensures
            final(self)@ == (GeneralRequestView { version: Seq::<char>::empty(), ..old(self)@ }),
    {
        self.version = String::new();
    }

    /// Overwrite `version`.
    pub fn set_version(&mut self, v: String)
        ensures
            final(self)@ == (GeneralRequestView { version: v@, ..old(self)@ }),
    {
        self.version = v;
    }

    /// Borrow `version` for writing.
    pub fn mut_version(&mut self) -> (r: &mut String)
        ensures
            *r == old(self).version,
            final(self)@ == (GeneralRequestView { version: (*final(r))@, ..old(self)@ }),
    {
        &mut self.version
    }

    /// Move `version` out, leaving its default.
    pub fn take_version(&mut self) -> (r: String)
        ensures
            r@ == old(self)@.version,
            final(self)@ == (GeneralRequestView { version: Seq::<char>::empty(), ..old(self)@ }),
    {
        let mut taken = String::new();
        core::mem::swap(&mut taken, &mut self.version);
        taken
    }

    /// Read `version`.
    pub fn get_version(&self) -> (r: &str)
        ensures
            r@ == self@.version,
    {
        self.version.as_str()
    }
}

/// Mathematical content of a wire `GeneralResponse`.
#[verifier::ext_equal]
pub struct GeneralResponseView {
    pub query_response: Option<QueryResponseView>,
    pub search_response: Option<SearchResponseView>,
    pub connect_response: Option<ConnectResponseView>,
    pub list_neighbours_response: Option<ListNeighboursResponseView>,
    pub api_error: Option<ApiErrorView>,
    pub sender: Option<MessageSenderView>,
    pub id: u32,
    pub version: Seq<char>,
}

/// The default wire `GeneralResponse`: every field cleared.
pub open spec fn general_response_default() -> GeneralResponseView {
    GeneralResponseView {
        query_response: None,
        search_response: None,
        connect_response: None,
        list_neighbours_response: None,
        api_error: None,
        sender: None,
        id: 0,
        version: Seq::<char>::empty(),
    }
}

/// Wire record `GeneralResponse`.
pub struct GeneralResponse {
    pub query_response: Option<QueryResponse>,
    pub search_response: Option<SearchResponse>,
    pub connect_response: Option<ConnectResponse>,
    pub list_neighbours_response: Option<ListNeighboursResponse>,
    pub api_error: Option<ApiError>,
    pub sender: Option<MessageSender>,
    pub id: u32,
    pub version: String,
}

impl View for GeneralResponse {
    type V = GeneralResponseView;

    open spec fn view(&self) -> GeneralResponseView {
        GeneralResponseView {
            query_response: (match &self.query_response {
                Some(v) => Some(v@),
                None => None,
            }),
            search_response: (match &self.search_response {
                Some(v) => Some(v@),
                None => None,
            }),
            connect_response: (match &self.connect_response {
                Some(v) => Some(v@),
                None => None,
            }),
            list_neighbours_response: (match &self.list_neighbours_response {
                Some(v) => Some(v@),
                None => None,
            }),
            api_error: (match &self.api_error {
                Some(v) => Some(v@),
                None => None,
            }),
            sender: (match &self.sender {
                Some(v) => Some(v@),
                None => None,
            }),
            id: (self.id),
            version: (self.version@),
        }
    }
}

impl GeneralResponse {
    /// A record with every field cleared.
    pub fn new() -> (r: GeneralResponse)
        ensures
            r@ == general_response_default(),
    {
        GeneralResponse {
            query_response: None,
            search_response: None,
            connect_response: None,
            list_neighbours_response: None,
            api_error: None,
            sender: None,
            id: 0,
            version: String::new(),
        }
    }

    /// Clear `query_response`: no sub-message.
    pub fn clear_query_response(&mut self)
        ensures
            final(self)@ == (GeneralResponseView { query_response: None, ..old(self)@ }),
    {
        self.query_response = None;
    }

    /// Whether `query_response` is present.
    pub fn has_query_response(&self) -> (r: bool)
        ensures
            r == (self@.query_response is Some),
    {
        self.query_response.is_some()
    }

    /// Overwrite `query_response`.
    pub fn set_query_response(&mut self, v: QueryResponse)
        ensures
            final(self)@ == (GeneralResponseView { query_response: Some(v@), ..old(self)@ }),
    {
        self.query_response = Some(v);
    }

    /// Borrow `query_response` for writing, inserting a default sub-message if none
    /// is present.
    pub fn mut_query_response(&mut self) -> (r: &mut QueryResponse)
        ensures
            (*r)@ == (match old(self)@.query_response {
                Some(v) => v,
                None => query_response_default(),
            }),
            final(self)@ == (GeneralResponseView { query_response: Some((*final(r))@), ..old(self)@ }),
    {
        if self.query_response.is_none() {
            self.query_response = Some(QueryResponse::new());
        }
        match &mut self.query_response {
            Some(v) => v,
            None => unreached(),
        }
    }

    /// Move `query_response` out, leaving none; a missing sub-message comes out as
    /// the default.
    pub fn take_query_response(&mut self) -> (r: QueryResponse)
        ensures
            r@ == (match old(self)@.query_response {
                Some(v) => v,
                None => query_response_default(),
            }),
            final(self)@ == (GeneralResponseView { query_response: None, ..old(self)@ }),
    {
        let mut taken: Option<QueryResponse> = None;
        core::mem::swap(&mut taken, &mut self.query_response);
        match taken {
            Some(v) => v,
            None => QueryResponse::new(),
        }
    }

    /// Read `query_response`; it must be present.
    pub fn get_query_response(&self) -> (r: &QueryResponse)
        requires
            self@.query_response is Some,
        ensures
            (self@.query_response matches Some(v) && r@ == v),
    {
        match &self.query_response {
            Some(v) => v,
            None => unreached(),
        }
    }

    /// Clear `search_response`: no sub-message.
    pub fn clear_search_response(&mut self)
        ensures
            final(self)@ == (GeneralResponseView { search_response: None, ..old(self)@ }),
    {
        self.search_response = None;
    }

    /// Whether `search_response` is present.
    pub fn has_search_response(&self) -> (r: bool)
        ensures
            r == (self@.search_response is Some),
    {
        self.search_response.is_some()
    }

    /// Overwrite `search_response`.
    pub fn set_search_response(&mut self, v: SearchResponse)
        ensures
            final(self)@ == (GeneralResponseView { search_response: Some(v@), ..old(self)@ }),
    {
        self.search_response = Some(v);
    }

    /// Borrow `search_response` for writing, inserting a default sub-message if none
    /// is present.
    pub fn mut_search_response(&mut self) -> (r: &mut SearchResponse)
        ensures
            (*r)@ == (match old(self)@.search_response {
                Some(v) => v,
                None => search_response_default(),
            }),
            final(self)@ == (GeneralResponseView { search_response: Some((*final(r))@), ..old(self)@ }),
    {
        if self.search_response.is_none() {
            self.search_response = Some(SearchResponse::new());
        }
        match &mut self.search_response {
            Some(v) => v,
            None => unreached(),
        }
    }

    /// Move `search_response` out, leaving none; a missing sub-message comes out as
    /// the default.
    pub fn take_search_response(&mut self) -> (r: SearchResponse)
        ensures
            r@ == (match old(self)@.search_response {
                Some(v) => v,
                None => search_response_default(),
            }),
            final(self)@ == (GeneralResponseView { search_response: None, ..old(self)@ }),
    {
        let mut taken: Option<SearchResponse> = None;
        core::mem::swap(&mut taken, &mut self.search_response);
        match taken {
            Some(v) => v,
            None => SearchResponse::new(),
        }
    }

    /// Read `search_response`; it must be present.
    pub fn get_search_response(&self) -> (r: &SearchResponse)
        requires
            self@.search_response is Some,
        ensures
            (self@.search_response matches Some(v) && r@ == v),
    {
        match &self.search_response {
            Some(v) => v,
            None => unreached(),
        }
    }

    /// Clear `connect_response`: no sub-message.
    pub fn clear_connect_response(&mut self)
        ensures
            final(self)@ == (GeneralResponseView { connect_response: None, ..old(self)@ }),
    {
        self.connect_response = None;
    }

    /// Whether `connect_response` is present.
    pub fn has_connect_response(&self) -> (r: bool)
        ensures
            r == (self@.connect_response is Some),
    {
        self.connect_response.is_some()
    }

    /// Overwrite `connect_response`.
    pub fn set_connect_response(&mut self, v: ConnectResponse)
        ensures
            final(self)@ == (GeneralResponseView { connect_response: Some(v@), ..old(self)@ }),
    {
        self.connect_response = Some(v);
    }

    /// Borrow `connect_response` for writing, inserting a default sub-message if none
    /// is present.
    pub fn mut_connect_response(&mut self) -> (r: &mut ConnectResponse)
        ensures
            (*r)@ == (match old(self)@.connect_response {
                Some(v) => v,
                None => connect_response_default(),
            }),
            final(self)@ == (GeneralResponseView { connect_response: Some((*final(r))@), ..old(self)@ }),
    {
        if self.connect_response.is_none() {
            self.connect_response = Some(ConnectResponse::new());
        }
        match &mut self.connect_response {
            Some(v) => v,
            None => unreached(),
        }
    }

    /// Move `connect_response` out, leaving none; a missing sub-message comes out as
    /// the default.
    pub fn take_connect_response(&mut self) -> (r: ConnectResponse)
        ensures
            r@ == (match old(self)@.connect_response {
                Some(v) => v,
                None => connect_response_default(),
            }),
            final(self)@ == (GeneralResponseView { connect_response: None, ..old(self)@ }),
    {
        let mut taken: Option<ConnectResponse> = None;
        core::mem::swap(&mut taken, &mut self.connect_response);
        match taken {
            Some(v) => v,
            None => ConnectResponse::new(),
        }
    }

    /// Read `connect_response`; it must be present.
    pub fn get_connect_response(&self) -> (r: &ConnectResponse)
        requires
            self@.connect_response is Some,
        ensures
            (self@.connect_response matches Some(v) && r@ == v),
    {
        match &self.connect_response {
            Some(v) => v,
            None => unreached(),
        }
    }

    /// Clear `list_neighbours_response`: no sub-message.
    pub fn clear_list_neighbours_response(&mut self)
        ensures
            final(self)@ == (GeneralResponseView { list_neighbours_response: None, ..old(self)@ }),
    {
        self.list_neighbours_response = None;
    }

    /// Whether `list_neighbours_response` is present.
    pub fn has_list_neighbours_response(&self) -> (r: bool)
        ensures
            r == (self@.list_neighbours_response is Some),
    {
        self.list_neighbours_response.is_some()
    }

    /// Overwrite `list_neighbours_response`.
    pub fn set_list_neighbours_response(&mut self, v: ListNeighboursResponse)
        ensures
            final(self)@ == (GeneralResponseView { list_neighbours_response: Some(v@), ..old(self)@ }),
    {
        self.list_neighbours_response = Some(v);
    }

    /// Borrow `list_neighbours_response` for writing, inserting a default sub-message if none
    /// is present.
    pub fn mut_list_neighbours_response(&mut self) -> (r: &mut ListNeighboursResponse)
        ensures
            (*r)@ == (match old(self)@.list_neighbours_response {
                Some(v) => v,
                None => list_neighbours_response_default(),
            }),
            final(self)@ == (GeneralResponseView { list_neighbours_response: Some((*final(r))@), ..old(self)@ }),
    {
        if self.list_neighbours_response.is_none() {
            self.list_neighbours_response = Some(ListNeighboursResponse::new());
        }
        match &mut self.list_neighbours_response {
            Some(v) => v,
            None => unreached(),
        }
    }

    /// Move `list_neighbours_response` out, leaving none; a missing sub-message comes out as
    /// the default.
    pub fn take_list_neighbours_response(&mut self) -> (r: ListNeighboursResponse)
        ensures
            r@ == (match old(self)@.list_neighbours_response {
                Some(v) => v,
                None => list_neighbours_response_default(),
            }),
            final(self)@ == (GeneralResponseView { list_neighbours_response: None, ..old(self)@ }),
    {
        let mut taken: Option<ListNeighboursResponse> = None;
        core::mem::swap(&mut taken, &mut self.list_neighbours_response);
        match taken {
            Some(v) => v,
            None => ListNeighboursResponse::new(),
        }
    }

    /// Read `list_neighbours_response`; it must be present.
    pub fn get_list_neighbours_response(&self) -> (r: &ListNeighboursResponse)
        requires
            self@.list_neighbours_response is Some,
        ensures
            (self@.list_neighbours_response matches Some(v) && r@ == v),
    {
        match &self.list_neighbours_response {
            Some(v) => v,
            None => unreached(),
        }
    }

    /// Clear `api_error`: no sub-message.
    pub fn clear_api_error(&mut self)
        ensures
            final(self)@ == (GeneralResponseView { api_error: None, ..old(self)@ }),
    {
        self.api_error = None;
    }

    /// Whether `api_error` is present.
    pub fn has_api_error(&self) -> (r: bool)
        ensures
            r == (self@.api_error is Some),
    {
        self.api_error.is_some()
    }

    /// Overwrite `api_error`.
    pub fn set_api_error(&mut self, v: ApiError)
        ensures
            final(self)@ == (GeneralResponseView { api_error: Some(v@), ..old(self)@ }),
    {
        self.api_error = Some(v);
    }

    /// Borrow `api_error` for writing, inserting a default sub-message if none
    /// is present.
    pub fn mut_api_error(&mut self) -> (r: &mut ApiError)
        ensures
            (*r)@ == (match old(self)@.api_error {
                Some(v) => v,
                None => api_error_default(),
            }),
            final(self)@ == (GeneralResponseView { api_error: Some((*final(r))@), ..old(self)@ }),
    {
        if self.api_error.is_none() {
            self.api_error = Some(ApiError::new());
        }
        match &mut self.api_error {
            Some(v) => v,
            None => unreached(),
        }
    }

    /// Move `api_error` out, leaving none; a missing sub-message comes out as
    /// the default.
    pub fn take_api_error(&mut self) -> (r: ApiError)
        ensures
            r@ == (match old(self)@.api_error {
                Some(v) => v,
                None => api_error_default(),
            }),
            final(self)@ == (GeneralResponseView { api_error: None, ..old(self)@ }),
    {
        let mut taken: Option<ApiError> = None;
        core::mem::swap(&mut taken, &mut self.api_error);
        match taken {
            Some(v) => v,
            None => ApiError::new(),
        }
    }

    /// Read `api_error`; it must be present.
    pub fn get_api_error(&self) -> (r: &ApiError)
        requires
            self@.api_error is Some,
        ensures
            (self@.api_error matches Some(v) && r@ == v),
    {
        match &self.api_error {
            Some(v) => v,
            None => unreached(),
        }
    }

    /// Clear `sender`: no sub-message.
    pub fn clear_sender(&mut self)
        ensures
            final(self)@ == (GeneralResponseView { sender: None, ..old(self)@ }),
    {
        self.sender = None;
    }

    /// Whether `sender` is present.
    pub fn has_sender(&self) -> (r: bool)
        ensures
            r == (self@.sender is Some),
    {
        self.sender.is_some()
    }

    /// Overwrite `sender`.
    pub fn set_sender(&mut self, v: MessageSender)
        ensures
            final(self)@ == (GeneralResponseView { sender: Some(v@), ..old(self)@ }),
    {
        self.sender = Some(v);
    }

    /// Borrow `sender` for writing, inserting a default sub-message if none
    /// is present.
    pub fn mut_sender(&mut self) -> (r: &mut MessageSender)
        ensures
            (*r)@ == (match old(self)@.sender {
                Some(v) => v,
                None => message_sender_default(),
            }),
            final(self)@ == (GeneralResponseView { sender: Some((*final(r))@), ..old(self)@ }),
    {
        if self.sender.is_none() {
            self.sender = Some(MessageSender::new());
        }
        match &mut self.sender {
            Some(v) => v,
            None => unreached(),
        }
    }

    /// Move `sender` out, leaving none; a missing sub-message comes out as
    /// the default.
    pub fn take_sender(&mut self) -> (r: MessageSender)
        ensures
            r@ == (match old(self)@.sender {
                Some(v) => v,
                None => message_sender_default(),
            }),
            final(self)@ == (GeneralResponseView { sender: None, ..old(self)@ }),
    {
        let mut taken: Option<MessageSender> = None;
        core::mem::swap(&mut taken, &mut self.sender);
        match taken {
            Some(v) => v,
            None => MessageSender::new(),
        }
    }

    /// Read `sender`; it must be present.
    pub fn get_sender(&self) -> (r: &MessageSender)
        requires
            self@.sender is Some,
        ensures
            (self@.sender matches Some(v) && r@ == v),
    {
        match &self.sender {
            Some(v) => v,
            None => unreached(),
        }
    }

    /// Clear `id` to its default.
    pub fn clear_id(&mut self)
        ensures
            final(self)@ == (GeneralResponseView { id: 0, ..old(self)@ }),
    {
        self.id = 0;
    }

    /// Overwrite `id`.
    pub fn set_id(&mut self, v: u32)
        ensures
            final(self)@ == (GeneralResponseView { id: v, ..old(self)@ }),
    {
        self.id = v;
    }

    /// Read `id`.
    pub fn get_id(&self) -> (r: u32)
        ensures
            r == self@.id,
    {
        self.id
    }

    /// Clear `version` to its default.
    pub fn clear_version(&mut self)
        ensures
            final(self)@ == (GeneralResponseView { version: Seq::<char>::empty(), ..old(self)@ }),
    {
        self.version = String::new();
    }

    /// Overwrite `version`.
    pub fn set_version(&mut self, v: String)
        ensures
            final(self)@ == (GeneralResponseView { version: v@, ..old(self)@ }),
    {
        self.version = v;
    }

    /// Borrow `version` for writing.
    pub fn mut_version(&mut self) -> (r: &mut String)
        ensures
            *r == old(self).version,
            final(self)@ == (GeneralResponseView { version: (*final(r))@, ..old(self)@ }),
    {
        &mut self.version
    }

    /// Move `version` out, leaving its default.
    pub fn take_version(&mut self) -> (r: String)
        ensures
            r@ == old(self)@.version,
            final(self)@ == (GeneralResponseView { version: Seq::<char>::empty(), ..old(self)@ }),
    {
        let mut taken = String::new();
        core::mem::swap(&mut taken, &mut self.version);
        taken
    }

    /// Read `version`.
    pub fn get_version(&self) -> (r: &str)
        ensures
            r@ == self@.version,
    {
        self.version.as_str()
    }
}

/// Mathematical content of a wire `QueryRequest`.
#[verifier::ext_equal]
pub struct QueryRequestView {
    pub key: Option<KeyView>,
}

/// The default wire `QueryRequest`: every field cleared.
pub open spec fn query_request_default() -> QueryRequestView {
    QueryRequestView {
        key: None,
    }
}

/// Wire record `QueryRequest`.
pub struct QueryRequest {
    pub key: Option<Key>,
}

impl View for QueryRequest {
    type V = QueryRequestView;

    open spec fn view(&self) -> QueryRequestView {
        QueryRequestView {
            key: (match &self.key {
                Some(v) => Some(v@),
                None => None,
            }),
        }
    }
}

impl QueryRequest {
    /// A record with every field cleared.
    pub fn new() -> (r: QueryRequest)
        ensures
            r@ == query_request_default(),
    {
        QueryRequest {
            key: None,
        }
    }

    /// Clear `key`: no sub-message.
    pub fn clear_key(&mut self)
        ensures
            final(self)@ == (QueryRequestView { key: None, ..old(self)@ }),
    {
        self.key = None;
    }

    /// Whether `key` is present.
    pub fn has_key(&self) -> (r: bool)
        ensures
            r == (self@.key is Some),
    {
        self.key.is_some()
    }

    /// Overwrite `key`.
    pub fn set_key(&mut self, v: Key)
        ensures
            final(self)@ == (QueryRequestView { key: Some(v@), ..old(self)@ }),
    {
        self.key = Some(v);
    }

    /// Borrow `key` for writing, inserting a default sub-message if none
    /// is present.
    pub fn mut_key(&mut self) -> (r: &mut Key)
        ensures
            (*r)@ == (match old(self)@.key {
                Some(v) => v,
                None => key_default(),
            }),
            final(self)@ == (QueryRequestView { key: Some((*final(r))@), ..old(self)@ }),
    {
        if self.key.is_none() {
            self.key = Some(Key::new());
        }
        match &mut self.key {
            Some(v) => v,
            None => unreached(),
        }
    }

    /// Move `key` out, leaving none; a missing sub-message comes out as
    /// the default.
    pub fn take_key(&mut self) -> (r: Key)
        ensures
            r@ == (match old(self)@.key {
                Some(v) => v,
                None => key_default(),
            }),
            final(self)@ == (QueryRequestView { key: None, ..old(self)@ }),
    {
        let mut taken: Option<Key> = None;
        core::mem::swap(&mut taken, &mut self.key);
        match taken {
            Some(v) => v,
            None => Key::new(),
        }
    }

    /// Read `key`; it must be present.
    pub fn get_key(&self) -> (r: &Key)
        requires
            self@.key is Some,
        ensures
            (self@.key matches Some(v) && r@ == v),
    {
        match &self.key {
            Some(v) => v,
            None => unreached(),
        }
    }
}

/// Mathematical content of a wire `QueryResponse`.
#[verifier::ext_equal]
pub struct QueryResponseView {
    pub nodes: Seq<NodeView>,
}

/// The default wire `QueryResponse`: every field cleared.
pub open spec fn query_response_default() -> QueryResponseView {
    QueryResponseView {
        nodes: Seq::<NodeView>::empty(),
    }
}

/// Wire record `QueryResponse`.
pub struct QueryResponse {
    pub nodes: Vec<Node>,
}

impl View for QueryResponse {
    type V = QueryResponseView;

    open spec fn view(&self) -> QueryResponseView {
        QueryResponseView {
            nodes: (Seq::new(self.nodes@.len(), |i: int| self.nodes@[i]@)),
        }
    }
}

impl QueryResponse {
    /// A record with every field cleared.
    pub fn new() -> (r: QueryResponse)
        ensures
            r@ == query_response_default(),
    {
        QueryResponse {
            nodes: Vec::new(),
        }
    }

    /// Clear `nodes` to empty.
    pub fn clear_nodes(&mut self)
        ensures
            final(self)@ == (QueryResponseView { nodes: Seq::<NodeView>::empty(), ..old(self)@ }),
    {
        self.nodes = Vec::new();
    }

    /// Overwrite `nodes`.
    pub fn set_nodes(&mut self, v: Vec<Node>)
        ensures
            final(self)@ == (QueryResponseView { nodes: Seq::new(v@.len(), |i: int| v@[i]@), ..old(self)@ }),
    {
        self.nodes = v;
    }

    /// Borrow `nodes` for writing.
    pub fn mut_nodes(&mut self) -> (r: &mut Vec<Node>)
        ensures
            *r == old(self).nodes,
            final(self)@ == (QueryResponseView { nodes: Seq::new((*final(r))@.len(), |i: int| (*final(r))@[i]@), ..old(self)@ }),
    {
        &mut self.nodes
    }

    /// Move `nodes` out, leaving it empty.
    pub fn take_nodes(&mut self) -> (r: Vec<Node>)
        ensures
            Seq::new(r@.len(), |i: int| r@[i]@) == old(self)@.nodes,
            final(self)@ == (QueryResponseView { nodes: Seq::<NodeView>::empty(), ..old(self)@ }),
    {
        let mut taken: Vec<Node> = Vec::new();
        core::mem::swap(&mut taken, &mut self.nodes);
        taken
    }

    /// Read `nodes`.
    pub fn get_nodes(&self) -> (r: &[Node])
        ensures
            r@ == self.nodes@,
    {
        self.nodes.as_slice()
    }
}

/// Mathematical content of a wire `SearchRequest`.
#[verifier::ext_equal]
pub struct SearchRequestView {
    pub key: Option<KeyView>,
}

/// The default wire `SearchRequest`: every field cleared.
pub open spec fn search_request_default() -> SearchRequestView {
    SearchRequestView {
        key: None,
    }
}

/// Wire record `SearchRequest`.
pub struct SearchRequest {
    pub key: Option<Key>,
}

impl View for SearchRequest {
    type V = SearchRequestView;

    open spec fn view(&self) -> SearchRequestView {
        SearchRequestView {
            key: (match &self.key {
                Some(v) => Some(v@),
                None => None,
            }),
        }
    }
}

impl SearchRequest {
    /// A record with every field cleared.
    pub fn new() -> (r: SearchRequest)
        ensures
            r@ == search_request_default(),
    {
        SearchRequest {
            key: None,
        }
    }

    /// Clear `key`: no sub-message.
    pub fn clear_key(&mut self)
        ensures
            final(self)@ == (SearchRequestView { key: None, ..old(self)@ }),
    {
        self.key = None;
    }

    /// Whether `key` is present.
    pub fn has_key(&self) -> (r: bool)
        ensures
            r == (self@.key is Some),
    {
        self.key.is_some()
    }

    /// Overwrite `key`.
    pub fn set_key(&mut self, v: Key)
        ensures
            final(self)@ == (SearchRequestView { key: Some(v@), ..old(self)@ }),
    {
        self.key = Some(v);
    }

    /// Borrow `key` for writing, inserting a default sub-message if none
    /// is present.
    pub fn mut_key(&mut self) -> (r: &mut Key)
        ensures
            (*r)@ == (match old(self)@.key {
                Some(v) => v,
                None => key_default(),
            }),
            final(self)@ == (SearchRequestView { key: Some((*final(r))@), ..old(self)@ }),
    {
        if self.key.is_none() {
            self.key = Some(Key::new());
        }
        match &mut self.key {
            Some(v) => v,
            None => unreached(),
        }
    }

    /// Move `key` out, leaving none; a missing sub-message comes out as
    /// the default.
    pub fn take_key(&mut self) -> (r: Key)
        ensures
            r@ == (match old(self)@.key {
                Some(v) => v,
                None => key_default(),
            }),
            final(self)@ == (SearchRequestView { key: None, ..old(self)@ }),
    {
        let mut taken: Option<Key> = None;
        core::mem::swap(&mut taken, &mut self.key);
        match taken {
            Some(v) => v,
            None => Key::new(),
        }
    }

    /// Read `key`; it must be present.
    pub fn get_key(&self) -> (r: &Key)
        requires
            self@.key is Some,
        ensures
            (self@.key matches Some(v) && r@ == v),
    {
        match &self.key {
            Some(v) => v,
            None => unreached(),
        }
    }
}

/// Mathematical content of a wire `SearchResponse`.
#[verifier::ext_equal]
pub struct SearchResponseView {
    pub node: Option<NodeView>,
}

/// The default wire `SearchResponse`: every field cleared.
pub open spec fn search_response_default() -> SearchResponseView {
    SearchResponseView {
        node: None,
    }
}

/// Wire record `SearchResponse`.
pub struct SearchResponse {
    pub node: Option<Node>,
}

impl View for SearchResponse {
    type V = SearchResponseView;

    open spec fn view(&self) -> SearchResponseView {
        SearchResponseView {
            node: (match &self.node {
                Some(v) => Some(v@),
                None => None,
            }),
        }
    }
}

impl SearchResponse {
    /// A record with every field cleared.
    pub fn new() -> (r: SearchResponse)
        ensures
            r@ == search_response_default(),
    {
        SearchResponse {
            node: None,
        }
    }

    /// Clear `node`: no sub-message.
    pub fn clear_node(&mut self)
        ensures
            final(self)@ == (SearchResponseView { node: None, ..old(self)@ }),
    {
        self.node = None;
    }

    /// Whether `node` is present.
    pub fn has_node(&self) -> (r: bool)
        ensures
            r == (self@.node is Some),
    {
        self.node.is_some()
    }

    /// Overwrite `node`.
    pub fn set_node(&mut self, v: Node)
        ensures
            final(self)@ == (SearchResponseView { node: Some(v@), ..old(self)@ }),
    {
        self.node = Some(v);
    }

    /// Borrow `node` for writing, inserting a default sub-message if none
    /// is present.
    pub fn mut_node(&mut self) -> (r: &mut Node)
        ensures
            (*r)@ == (match old(self)@.node {
                Some(v) => v,
                None => node_default(),
            }),
            final(self)@ == (SearchResponseView { node: Some((*final(r))@), ..old(self)@ }),
    {
        if self.node.is_none() {
            self.node = Some(Node::new());
        }
        match &mut self.node {
            Some(v) => v,
            None => unreached(),
        }
    }

    /// Move `node` out, leaving none; a missing sub-message comes out as
    /// the default.
    pub fn take_node(&mut self) -> (r: Node)
        ensures
            r@ == (match old(self)@.node {
                Some(v) => v,
                None => node_default(),
            }),
            final(self)@ == (SearchResponseView { node: None, ..old(self)@ }),
    {
        let mut taken: Option<Node> = None;
        core::mem::swap(&mut taken, &mut self.node);
        match taken {
            Some(v) => v,
            None => Node::new(),
        }
    }

    /// Read `node`; it must be present.
    pub fn get_node(&self) -> (r: &Node)
        requires
            self@.node is Some,
        ensures
            (self@.node matches Some(v) && r@ == v),
    {
        match &self.node {
            Some(v) => v,
            None => unreached(),
        }
    }
}

/// Mathematical content of a wire `ConnectRequest`.
#[verifier::ext_equal]
pub struct ConnectRequestView {
    pub node: Option<NodeView>,
}

/// The default wire `ConnectRequest`: every field cleared.
pub open spec fn connect_request_default() -> ConnectRequestView {
    ConnectRequestView {
        node: None,
    }
}

/// Wire record `ConnectRequest`.
pub struct ConnectRequest {
    pub node: Option<Node>,
}

impl View for ConnectRequest {
    type V = ConnectRequestView;

    open spec fn view(&self) -> ConnectRequestView {
        ConnectRequestView {
            node: (match &self.node {
                Some(v) => Some(v@),
                None => None,
            }),
        }
    }
}

impl ConnectRequest {
    /// A record with every field cleared.
    pub fn new() -> (r: ConnectRequest)
        ensures
            r@ == connect_request_default(),
    {
        ConnectRequest {
            node: None,
        }
    }

    /// Clear `node`: no sub-message.
    pub fn clear_node(&mut self)
        ensures
            final(self)@ == (ConnectRequestView { node: None, ..old(self)@ }),
    {
        self.node = None;
    }

    /// Whether `node` is present.
    pub fn has_node(&self) -> (r: bool)
        ensures
            r == (self@.node is Some),
    {
        self.node.is_some()
    }

    /// Overwrite `node`.
    pub fn set_node(&mut self, v: Node)
        ensures
            final(self)@ == (ConnectRequestView { node: Some(v@), ..old(self)@ }),
    {
        self.node = Some(v);
    }

    /// Borrow `node` for writing, inserting a default sub-message if none
    /// is present.
    pub fn mut_node(&mut self) -> (r: &mut Node)
        ensures
            (*r)@ == (match old(self)@.node {
                Some(v) => v,
                None => node_default(),
            }),
            final(self)@ == (ConnectRequestView { node: Some((*final(r))@), ..old(self)@ }),
    {
        if self.node.is_none() {
            self.node = Some(Node::new());
        }
        match &mut self.node {
            Some(v) => v,
            None => unreached(),
        }
    }

    /// Move `node` out, leaving none; a missing sub-message comes out as
    /// the default.
    pub fn take_node(&mut self) -> (r: Node)
        ensures
            r@ == (match old(self)@.node {
                Some(v) => v,
                None => node_default(),
            }),
            final(self)@ == (ConnectRequestView { node: None, ..old(self)@ }),
    {
        let mut taken: Option<Node> = None;
        core::mem::swap(&mut taken, &mut self.node);
        match taken {
            Some(v) => v,
            None => Node::new(),
        }
    }

    /// Read `node`; it must be present.
    pub fn get_node(&self) -> (r: &Node)
        requires
            self@.node is Some,
        ensures
            (self@.node matches Some(v) && r@ == v),
    {
        match &self.node {
            Some(v) => v,
            None => unreached(),
        }
    }
}

/// Mathematical content of a wire `ConnectResponse`.
#[verifier::ext_equal]
pub struct ConnectResponseView {
}

/// The default wire `ConnectResponse`: every field cleared.
pub open spec fn connect_response_default() -> ConnectResponseView {
    ConnectResponseView {  }
}

/// Wire record `ConnectResponse`.
pub struct ConnectResponse {
}

impl View for ConnectResponse {
    type V = ConnectResponseView;

    open spec fn view(&self) -> ConnectResponseView {
        ConnectResponseView {  }
    }
}

impl ConnectResponse {
    /// A record with every field cleared.
    pub fn new() -> (r: ConnectResponse)
        ensures
            r@ == connect_response_default(),
    {
        ConnectResponse {
        }
    }
}

/// Mathematical content of a wire `ListNeighboursRequest`.
#[verifier::ext_equal]
pub struct ListNeighboursRequestView {
}

/// The default wire `ListNeighboursRequest`: every field cleared.
pub open spec fn list_neighbours_request_default() -> ListNeighboursRequestView {
    ListNeighboursRequestView {  }
}

/// Wire record `ListNeighboursRequest`.
pub struct ListNeighboursRequest {
}

impl View for ListNeighboursRequest {
    type V = ListNeighboursRequestView;

    open spec fn view(&self) -> ListNeighboursRequestView {
        ListNeighboursRequestView {  }
    }
}

impl ListNeighboursRequest {
    /// A record with every field cleared.
    pub fn new() -> (r: ListNeighboursRequest)
        ensures
            r@ == list_neighbours_request_default(),
    {
        ListNeighboursRequest {
        }
    }
}

/// Mathematical content of a wire `ListNeighboursResponse`.
#[verifier::ext_equal]
pub struct ListNeighboursResponseView {
    pub nodes: Seq<NodeView>,
}

/// The default wire `ListNeighboursResponse`: every field cleared.
pub open spec fn list_neighbours_response_default() -> ListNeighboursResponseView {
    ListNeighboursResponseView {
        nodes: Seq::<NodeView>::empty(),
    }
}

/// Wire record `ListNeighboursResponse`.
pub struct ListNeighboursResponse {
    pub nodes: Vec<Node>,
}

impl View for ListNeighboursResponse {
    type V = ListNeighboursResponseView;

    open spec fn view(&self) -> ListNeighboursResponseView {
        ListNeighboursResponseView {
            nodes: (Seq::new(self.nodes@.len(), |i: int| self.nodes@[i]@)),
        }
    }
}

impl ListNeighboursResponse {
    /// A record with every field cleared.
    pub fn new() -> (r: ListNeighboursResponse)
        ensures
            r@ == list_neighbours_response_default(),
    {
        ListNeighboursResponse {
            nodes: Vec::new(),
        }
    }

    /// Clear `nodes` to empty.
    pub fn clear_nodes(&mut self)
        ensures
            final(self)@ == (ListNeighboursResponseView { nodes: Seq::<NodeView>::empty(), ..old(self)@ }),
    {
        self.nodes = Vec::new();
    }

    /// Overwrite `nodes`.
    pub fn set_nodes(&mut self, v: Vec<Node>)
        ensures
            final(self)@ == (ListNeighboursResponseView { nodes: Seq::new(v@.len(), |i: int| v@[i]@), ..old(self)@ }),
    {
        self.nodes = v;
    }

    /// Borrow `nodes` for writing.
    pub fn mut_nodes(&mut self) -> (r: &mut Vec<Node>)
        ensures
            *r == old(self).nodes,
            final(self)@ == (ListNeighboursResponseView { nodes: Seq::new((*final(r))@.len(), |i: int| (*final(r))@[i]@), ..old(self)@ }),
    {
        &mut self.nodes
    }

    /// Move `nodes` out, leaving it empty.
    pub fn take_nodes(&mut self) -> (r: Vec<Node>)
        ensures
            Seq::new(r@.len(), |i: int| r@[i]@) == old(self)@.nodes,
            final(self)@ == (ListNeighboursResponseView { nodes: Seq::<NodeView>::empty(), ..old(self)@ }),
    {
        let mut taken: Vec<Node> = Vec::new();
        core::mem::swap(&mut taken, &mut self.nodes);
        taken
    }

    /// Read `nodes`.
    pub fn get_nodes(&self) -> (r: &[Node])
        ensures
            r@ == self.nodes@,
    {
        self.nodes.as_slice()
    }
}

} // verus!
