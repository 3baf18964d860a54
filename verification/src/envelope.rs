//! The crypto envelope around every global (node-to-node) message.
//!
//! The envelope is an interface: sign-and-encrypt on the way out, decrypt-
//! and-verify on the way in, with only accept or reject observable. This
//! backend is the identity-with-a-tag envelope: a fixed tag, the sender's and
//! the intended recipient's key values, then the plaintext. Verification
//! demands exactly the expected sender and recipient, so a message sealed
//! under one sender never opens under another.
//!
//! A PGP backend — sign with the sender's private key, encrypt to the
//! recipient's certificate — can stand behind the same two operations; this
//! build ships none, because the PGP libraries need system crypto libraries
//! that cannot be assumed here. The envelope offers no confidentiality or
//! authenticity against an adversary until such a backend replaces it.

use vstd::prelude::*;
use crate::api::{ApiError, ApiErrorType, Key};
use crate::framing::{be_bytes, be_val, lemma_be_round_trip, u32_to_be};

verus! {

/// First tag byte of every envelope.
pub const ENVELOPE_TAG_0: u8 = 0x4B;

/// Second tag byte of every envelope.
pub const ENVELOPE_TAG_1: u8 = 0x50;

/// A secret key. In this backend a secret key is named by its public half;
/// whoever holds the value can sign for it and read what is sealed to it.
pub struct SecretKey {
    pub public: Key,
}

impl SecretKey {
    /// A secret key is well formed when its public half is.
    pub open spec fn wf(self) -> bool {
        self.public@.wf()
    }

    pub fn new(public: Key) -> (r: SecretKey)
        ensures
            r.public@ == public@,
    {
        SecretKey { public }
    }
}

/// The sealed form of `plaintext`, signed by the key valued `sid` and
/// addressed to the key valued `rid`.
pub open spec fn seal_spec(plaintext: Seq<u8>, sid: u32, rid: u32) -> Seq<u8> {
    seq![ENVELOPE_TAG_0, ENVELOPE_TAG_1] + be_bytes(sid) + be_bytes(rid) + plaintext
}

/// Opening an envelope: the plaintext, exactly when the tag is present, the
/// signer is the expected sender, and the message was addressed to the
/// recipient doing the opening.
pub open spec fn open_spec(b: Seq<u8>, sid: u32, rid: u32) -> Option<Seq<u8>> {
    if b.len() >= 10 && b[0] == ENVELOPE_TAG_0 && b[1] == ENVELOPE_TAG_1 && be_val(
        b[2],
        b[3],
        b[4],
        b[5],
    ) == sid && be_val(b[6], b[7], b[8], b[9]) == rid {
        Some(b.skip(10))
    } else {
        None
    }
}

/// Law: the envelope round-trips. Sealing a plaintext and opening it with
/// the matching sender and recipient gives the plaintext back.
pub proof fn lemma_envelope_round_trip(plaintext: Seq<u8>, sid: u32, rid: u32)
    ensures
        open_spec(seal_spec(plaintext, sid, rid), sid, rid) == Some(plaintext),
{
    let b = seal_spec(plaintext, sid, rid);
    lemma_be_round_trip(sid);
    lemma_be_round_trip(rid);
    assert(b[2] == be_bytes(sid)[0] && b[3] == be_bytes(sid)[1] && b[4] == be_bytes(sid)[2] && b[5]
        == be_bytes(sid)[3]);
    assert(b[6] == be_bytes(rid)[0] && b[7] == be_bytes(rid)[1] && b[8] == be_bytes(rid)[2] && b[9]
        == be_bytes(rid)[3]);
    assert(b.skip(10) =~= plaintext);
}

/// Law: an envelope opens only under the sender it was sealed by and the
/// recipient it was sealed for; any other pair is rejected.
pub proof fn lemma_envelope_rejects_forgery(
    plaintext: Seq<u8>,
    sid: u32,
    rid: u32,
    sid2: u32,
    rid2: u32,
)
    requires
        sid != sid2 || rid != rid2,
    ensures
        open_spec(seal_spec(plaintext, sid, rid), sid2, rid2) is None,
{
    let b = seal_spec(plaintext, sid, rid);
    lemma_be_round_trip(sid);
    lemma_be_round_trip(rid);
    assert(b[2] == be_bytes(sid)[0] && b[3] == be_bytes(sid)[1] && b[4] == be_bytes(sid)[2] && b[5]
        == be_bytes(sid)[3]);
    assert(b[6] == be_bytes(rid)[0] && b[7] == be_bytes(rid)[1] && b[8] == be_bytes(rid)[2] && b[9]
        == be_bytes(rid)[3]);
}

/// Seal `plaintext` for `recipient`, signed by `sender`.
pub fn encrypt_and_sign(plaintext: &Vec<u8>, sender: &SecretKey, recipient: &Key) -> (r: Vec<u8>)
    requires
        sender.wf(),
        recipient@.wf(),
    ensures
        r@ == seal_spec(
            plaintext@,
            crate::api::hex_val(sender.public@.key_id) as u32,
            crate::api::hex_val(recipient@.key_id) as u32,
        ),
{
    proof {
        crate::api::lemma_hex_val_bound(sender.public@.key_id);
        crate::api::lemma_hex_val_bound(recipient@.key_id);
        assert(crate::api::pow16(8) == 0x1_0000_0000) by {
            reveal_with_fuel(crate::api::pow16, 9);
        };
    }
    let sid = crate::api::key_id_value(&sender.public.key_id);
    let rid = crate::api::key_id_value(&recipient.key_id);
    let mut out: Vec<u8> = Vec::new();
    out.push(ENVELOPE_TAG_0);
    out.push(ENVELOPE_TAG_1);
    let sid_bytes = u32_to_be(sid);
    let rid_bytes = u32_to_be(rid);
    append_bytes(&mut out, &sid_bytes);
    append_bytes(&mut out, &rid_bytes);
    append_bytes(&mut out, plaintext);
    proof {
        assert(out@ =~= seal_spec(plaintext@, sid, rid));
    }
    out
}

/// Open an envelope: the plaintext exactly when it carries the tag, was
/// signed by `expected_sender`, and was addressed to `recipient`; anything
/// else is rejected with a parse error and nothing more is revealed.
pub fn decrypt_and_verify(data: &Vec<u8>, expected_sender: &Key, recipient: &SecretKey) -> (r:
    Result<Vec<u8>, ApiError>)
    requires
        expected_sender@.wf(),
        recipient.wf(),
    ensures
        open_spec(
            data@,
            crate::api::hex_val(expected_sender@.key_id) as u32,
            crate::api::hex_val(recipient.public@.key_id) as u32,
        ) matches Some(p) ==> (r matches Ok(v) && v@ == p),
        open_spec(
            data@,
            crate::api::hex_val(expected_sender@.key_id) as u32,
            crate::api::hex_val(recipient.public@.key_id) as u32,
        ) is None ==> (r matches Err(e) && e@.error_type == ApiErrorType::Parse),
{
    proof {
        crate::api::lemma_hex_val_bound(expected_sender@.key_id);
        crate::api::lemma_hex_val_bound(recipient.public@.key_id);
        assert(crate::api::pow16(8) == 0x1_0000_0000) by {
            reveal_with_fuel(crate::api::pow16, 9);
        };
    }
    let sid = crate::api::key_id_value(&expected_sender.key_id);
    let rid = crate::api::key_id_value(&recipient.public.key_id);
    if data.len() < 10 {
        return Err(reject());
    }
    if data[0] != ENVELOPE_TAG_0 || data[1] != ENVELOPE_TAG_1 {
        return Err(reject());
    }
    let sid_bytes = u32_to_be(sid);
    let rid_bytes = u32_to_be(rid);
    let mut i: usize = 0;
    while i < 4
        invariant
            0 <= i <= 4,
            data@.len() >= 10,
            data@[0] == ENVELOPE_TAG_0,
            data@[1] == ENVELOPE_TAG_1,
            sid == crate::api::hex_val(expected_sender@.key_id),
            rid == crate::api::hex_val(recipient.public@.key_id),
            sid_bytes@ == be_bytes(sid),
            rid_bytes@ == be_bytes(rid),
            forall|m: int| 0 <= m < i ==> data@[2 + m] == be_bytes(sid)[m],
            forall|m: int| 0 <= m < i ==> data@[6 + m] == be_bytes(rid)[m],
        decreases 4 - i,
    {
        if data[2 + i] != sid_bytes[i] || data[6 + i] != rid_bytes[i] {
            proof {
                assert(open_spec(data@, sid, rid) is None) by {
                    if !(open_spec(data@, sid, rid) is None) {
                        assert(be_val(data@[2], data@[3], data@[4], data@[5]) == sid);
                        assert(be_val(data@[6], data@[7], data@[8], data@[9]) == rid);
                        lemma_be_unique(data@[2], data@[3], data@[4], data@[5], sid);
                        lemma_be_unique(data@[6], data@[7], data@[8], data@[9], rid);
                        if i == 0 {
                            assert(data@[2] == be_bytes(sid)[0] && data@[6] == be_bytes(rid)[0]);
                        } else if i == 1 {
                            assert(data@[3] == be_bytes(sid)[1] && data@[7] == be_bytes(rid)[1]);
                        } else if i == 2 {
                            assert(data@[4] == be_bytes(sid)[2] && data@[8] == be_bytes(rid)[2]);
                        } else {
                            assert(data@[5] == be_bytes(sid)[3] && data@[9] == be_bytes(rid)[3]);
                        }
                        assert(false);
                    }
                };
            }
            return Err(reject());
        }
        i += 1;
    }
    let payload = crate::framing::copy_byte_range(data, 10, data.len());
    proof {
        assert(be_val(data@[2], data@[3], data@[4], data@[5]) == be_val(
            be_bytes(sid)[0],
            be_bytes(sid)[1],
            be_bytes(sid)[2],
            be_bytes(sid)[3],
        ));
        assert(be_val(data@[6], data@[7], data@[8], data@[9]) == be_val(
            be_bytes(rid)[0],
            be_bytes(rid)[1],
            be_bytes(rid)[2],
            be_bytes(rid)[3],
        ));
        lemma_be_round_trip(sid);
        lemma_be_round_trip(rid);
        assert(payload@ =~= data@.skip(10));
    }
    Ok(payload)
}

/// The payload bytes of an envelope, without verifying it. A server that
/// does not yet know the sender reads the claimed sender out of these bytes,
/// then verifies the envelope against that sender's key; nothing read this
/// way may be trusted until `decrypt_and_verify` accepts the envelope.
pub fn envelope_payload(data: &Vec<u8>) -> (r: Result<Vec<u8>, ApiError>)
    ensures
        (data@.len() >= 10 && data@[0] == ENVELOPE_TAG_0 && data@[1] == ENVELOPE_TAG_1) ==> (
        r matches Ok(v) && v@ == data@.skip(10)),
        !(data@.len() >= 10 && data@[0] == ENVELOPE_TAG_0 && data@[1] == ENVELOPE_TAG_1) ==> (
        r matches Err(e) && e@.error_type == ApiErrorType::Parse),
{
    if data.len() < 10 {
        return Err(reject());
    }
    if data[0] != ENVELOPE_TAG_0 || data[1] != ENVELOPE_TAG_1 {
        return Err(reject());
    }
    Ok(crate::framing::copy_byte_range(data, 10, data.len()))
}

/// A rejected envelope: nothing but the rejection is revealed.
fn reject() -> (e: ApiError)
    ensures
        e@.error_type == ApiErrorType::Parse,
{
    ApiError::new(ApiErrorType::Parse, String::from_str("envelope rejected"))
}

/// Four base-256 digits determine their value, and the value its digits.
proof fn lemma_be_unique(b0: u8, b1: u8, b2: u8, b3: u8, n: u32)
    requires
        be_val(b0, b1, b2, b3) == n,
    ensures
        b0 == be_bytes(n)[0],
        b1 == be_bytes(n)[1],
        b2 == be_bytes(n)[2],
        b3 == be_bytes(n)[3],
{
    assert(((b0 as u64) * 0x100_0000 + (b1 as u64) * 0x1_0000 + (b2 as u64) * 0x100 + (b3 as u64))
        / 0x100_0000 == b0 as u64) by (bit_vector);
    assert((((b0 as u64) * 0x100_0000 + (b1 as u64) * 0x1_0000 + (b2 as u64) * 0x100 + (
    b3 as u64)) / 0x1_0000) % 0x100 == b1 as u64) by (bit_vector);
    assert((((b0 as u64) * 0x100_0000 + (b1 as u64) * 0x1_0000 + (b2 as u64) * 0x100 + (
    b3 as u64)) / 0x100) % 0x100 == b2 as u64) by (bit_vector);
    assert(((b0 as u64) * 0x100_0000 + (b1 as u64) * 0x1_0000 + (b2 as u64) * 0x100 + (b3 as u64))
        % 0x100 == b3 as u64) by (bit_vector);
}

/// Append the bytes of `src` to `dst`.
pub fn append_bytes(dst: &mut Vec<u8>, src: &Vec<u8>)
    ensures
        final(dst)@ == old(dst)@ + src@,
{
    let mut i: usize = 0;
    while i < src.len()
        invariant
            0 <= i <= src@.len(),
            dst@ =~= old(dst)@ + src@.take(i as int),
        decreases src@.len() - i,
    {
        dst.push(src[i]);
        assert(dst@ =~= old(dst)@ + src@.take(i + 1));
        i += 1;
    }
    proof {
        assert(old(dst)@ + src@.take(src@.len() as int) =~= old(dst)@ + src@);
    }
}

} // verus!
