//! KIPA: a key-based distributed node-locator network.
//!
//! Given a public identity key, any participating node can resolve that key
//! to the network address of the node that owns it, without a central
//! registry. Nodes are identified by their keys, embedded into a
//! fixed-dimensional key-space; each node keeps a bounded set of neighbours
//! chosen for closeness in that space, and lookups run as an iterative graph
//! search over the resulting overlay.

pub mod api;
pub mod framing;
pub mod key_space;
pub mod neighbours_store;
pub mod graph_search;
pub mod message_handler;
pub mod envelope;
pub mod wire;
pub mod codec;
pub mod schema;

use vstd::prelude::*;

verus! {

/// The port the global transport listens on when none is configured.
pub const DEFAULT_PORT: u16 = 10842;

/// Law: the whole outbound pipeline of the global transport round-trips.
/// A request encoded, sealed for its recipient, and framed is recovered
/// exactly by reading the frame, opening the envelope as the recipient, and
/// decoding — for any request that fits the wire.
pub proof fn lemma_global_pipeline_round_trip(m: api::RequestMessageView, sid: u32, rid: u32)
    requires
        codec::request_message_ok(m),
        codec::enc_request_message(m).len() + 10 <= 0xFFFF_FFFF,
    ensures
        ({
            let sealed = envelope::seal_spec(codec::enc_request_message(m), sid, rid);
            let framed = framing::frame_spec(sealed);
            &&& framing::unframe_spec(framed) == Some(sealed)
            &&& envelope::open_spec(sealed, sid, rid) == Some(codec::enc_request_message(m))
            &&& codec::dec_request_message(codec::enc_request_message(m)) == Some(m)
        }),
{
    let bytes = codec::enc_request_message(m);
    let sealed = envelope::seal_spec(bytes, sid, rid);
    framing::lemma_frame_round_trip(sealed);
    envelope::lemma_envelope_round_trip(bytes, sid, rid);
    codec::lemma_request_round_trip(m);
}

} // verus!
