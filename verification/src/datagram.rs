//! Datagram codec: frames one self-contained packet as a fresh random salt
//! followed by the payload sealed under a key derived from the long-term
//! key and that salt. No state survives between packets; each decodes on
//! its own.
use vstd::prelude::*;

verus! {

use vstd::slice::slice_subrange;
use crate::CodecError;
use crate::cipher::{
    AEAD_SALT_SIZE, AEAD_TAG_SIZE, CipherType, MAX_SEAL_INPUT, new_aead_decryptor,
    new_aead_encryptor, push_all, spec_seal, spec_session_key, zero_nonce,
};

/// `pkt` is the well-formed datagram packet that carries payload `p` under
/// the long-term key `key`: its leading bytes are a full-size salt and the
/// rest is `p` sealed under the key derived from `key` and that salt, at
/// nonce zero.
#[verifier::opaque]
pub open spec fn datagram_has_payload(key: Seq<u8>, pkt: Seq<u8>, p: Seq<u8>) -> bool {
    &&& pkt.len() == AEAD_SALT_SIZE + p.len() + AEAD_TAG_SIZE
    &&& pkt.skip(AEAD_SALT_SIZE as int) == spec_seal(
        spec_session_key(key, pkt.take(AEAD_SALT_SIZE as int)),
        zero_nonce(),
        p,
    )
}

/// Law: round trip. For every long-term key, every full-size salt and every
/// payload, the salt followed by the sealed body the datagram encoder
/// promises to produce is exactly a packet from which the datagram decoder
/// is bound to return that payload.
pub proof fn lemma_datagram_round_trip(key: Seq<u8>, salt: Seq<u8>, body: Seq<u8>, p: Seq<u8>)
    requires
        salt.len() == AEAD_SALT_SIZE,
        body == spec_seal(spec_session_key(key, salt), zero_nonce(), p),
        body.len() == p.len() + AEAD_TAG_SIZE,
    ensures
        datagram_has_payload(key, salt + body, p),
{
    reveal(datagram_has_payload);
    assert((salt + body).take(AEAD_SALT_SIZE as int) =~= salt);
    assert((salt + body).skip(AEAD_SALT_SIZE as int) =~= body);
}

/// Frames one datagram: draws a fresh random salt, derives a one-shot
/// cipher instance from the key and that salt, and returns
/// salt followed by the sealed payload. Whatever salt the generator
/// returned, the packet carries exactly the given payload.
pub fn encrypt_payload_aead(t: CipherType, key: &[u8], payload: &[u8]) -> (r: Vec<u8>)
    requires
        payload@.len() <= MAX_SEAL_INPUT,
    ensures
        r@.len() == AEAD_SALT_SIZE + payload@.len() + AEAD_TAG_SIZE,
        datagram_has_payload(key@, r@, payload@),
{
    let salt = t.gen_salt();
    let mut cipher = new_aead_encryptor(t, key, salt.as_slice());
    let body = cipher.encrypt(payload);
    let ghost salt_view = salt@;
    let mut out = salt;
    push_all(&mut out, body.as_slice());
    proof {
        lemma_datagram_round_trip(key@, salt_view, body@, payload@);
    }
    out
}

/// Unframes one datagram: rejects, before any cipher operation, a packet
/// too short to hold a salt and a tag; otherwise splits off the salt,
/// derives the one-shot decryptor, and authenticates and opens the body. A
/// well-formed packet is always accepted and returns exactly the payload it
/// carries; an authentication failure is reported, never treated as an
/// empty payload.
pub fn decrypt_payload_aead(t: CipherType, key: &[u8], payload: &[u8]) -> (r: Result<
    Vec<u8>,
    CodecError,
>)
    ensures
        r == Err::<Vec<u8>, CodecError>(CodecError::TooShort) <==> payload@.len() < AEAD_TAG_SIZE
            + AEAD_SALT_SIZE,
        forall|p: Seq<u8>| #[trigger]
            datagram_has_payload(key@, payload@, p) ==> (r matches Ok(out) && out@ == p),
        r matches Ok(out) ==> datagram_has_payload(key@, payload@, out@) && out@.len() == payload@.len()
            - AEAD_TAG_SIZE - AEAD_SALT_SIZE,
        r matches Err(e) ==> (e == CodecError::TooShort || e == CodecError::AuthFailed),
{
    let tag_size = t.tag_size();
    let salt_size = t.salt_size();
    if payload.len() < tag_size + salt_size {
        proof {
            assert forall|p: Seq<u8>| #[trigger] datagram_has_payload(key@, payload@, p)
                implies false by {
                reveal(datagram_has_payload);
            };
        }
        return Err(CodecError::TooShort);
    }
    let salt = slice_subrange(payload, 0, salt_size);
    let data = slice_subrange(payload, salt_size, payload.len());
    let mut cipher = new_aead_decryptor(t, key, salt);
    let res = cipher.decrypt(data);
    match res {
        Ok(v) => {
            proof {
                reveal(datagram_has_payload);
                assert(payload@.take(AEAD_SALT_SIZE as int) =~= salt@);
                assert(payload@.skip(AEAD_SALT_SIZE as int) =~= data@);
                assert(datagram_has_payload(key@, payload@, v@));
                assert forall|p: Seq<u8>| #[trigger] datagram_has_payload(key@, payload@, p)
                    implies v@ == p by {
                    assert(data@ == spec_seal(spec_session_key(key@, salt@), zero_nonce(), p));
                };
            }
            Ok(v)
        },
        Err(e) => {
            proof {
                assert forall|p: Seq<u8>| #[trigger] datagram_has_payload(key@, payload@, p)
                    implies false by {
                    reveal(datagram_has_payload);
                    assert(payload@.skip(AEAD_SALT_SIZE as int) =~= data@);
                    assert(data@ == spec_seal(spec_session_key(key@, salt@), zero_nonce(), p));
                };
            }
            Err(e)
        },
    }
}

} // verus!
