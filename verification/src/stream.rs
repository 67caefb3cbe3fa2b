//! Stream chunk codec: frames a continuous byte stream into bounded,
//! length-prefixed chunks, each carried as two independently-authenticated
//! ciphertext units over one persistent cipher session, and recovers a
//! chunk's payload from received bytes.
use vstd::prelude::*;

verus! {

use vstd::slice::slice_subrange;
use vstd::arithmetic::div_mod::lemma_fundamental_div_mod;
use crate::MAX_PACKET_SIZE;
use crate::CodecError;
use crate::cipher::{
    AEAD_TAG_SIZE, BoxAeadDecryptor, BoxAeadEncryptor, CipherType, push_all, spec_inc_nonce,
    spec_seal,
};

/// The 2-byte big-endian encoding of a chunk length.
pub open spec fn be16(len: nat) -> Seq<u8> {
    seq![((len / 256) % 256) as u8, (len % 256) as u8]
}

/// The value a 2-byte big-endian length field carries.
pub open spec fn be16_val(b: Seq<u8>) -> nat {
    b[0] as nat * 256 + b[1] as nat
}

/// A length below 0x10000 survives the trip through its 2-byte encoding.
pub proof fn lemma_be16_round_trip(len: nat)
    requires
        len < 0x10000,
    ensures
        be16(len).len() == 2,
        be16_val(be16(len)) == len,
{
    lemma_fundamental_div_mod(len as int, 256);
}

/// A 2-byte field is exactly the encoding of the value it carries.
pub proof fn lemma_be16_inverse(b: Seq<u8>)
    requires
        b.len() == 2,
    ensures
        be16(be16_val(b)) == b,
{
    let x = b[0] as nat;
    let y = b[1] as nat;
    assert((x * 256 + y) / 256 == x) by (nonlinear_arith)
        requires
            y < 256,
    ;
    assert((x * 256 + y) % 256 == y) by (nonlinear_arith)
        requires
            y < 256,
    ;
    assert(be16(be16_val(b)) =~= b);
}

/// The bytes one chunk occupies on the wire: the sealed 2-byte length field,
/// then the sealed payload, the second unit under the once-advanced nonce.
pub open spec fn chunk_encoding(key: Seq<u8>, nonce: Seq<u8>, p: Seq<u8>) -> Seq<u8> {
    spec_seal(key, nonce, be16(p.len())) + spec_seal(key, spec_inc_nonce(nonce), p)
}

/// `src` begins with the complete, well-formed chunk that carries payload
/// `p` for a session whose next two nonces are `nonce` and its successor.
#[verifier::opaque]
pub open spec fn chunk_at_start(key: Seq<u8>, nonce: Seq<u8>, src: Seq<u8>, p: Seq<u8>) -> bool {
    &&& p.len() <= MAX_PACKET_SIZE
    &&& spec_seal(key, nonce, be16(p.len())).len() == 2 + AEAD_TAG_SIZE
    &&& spec_seal(key, spec_inc_nonce(nonce), p).len() == p.len() + AEAD_TAG_SIZE
    &&& src.len() >= 2 + AEAD_TAG_SIZE + p.len() + AEAD_TAG_SIZE
    &&& src.subrange(0, 2 + AEAD_TAG_SIZE as int) == spec_seal(key, nonce, be16(p.len()))
    &&& src.subrange(2 + AEAD_TAG_SIZE as int, 2 + AEAD_TAG_SIZE + p.len() + AEAD_TAG_SIZE)
        == spec_seal(key, spec_inc_nonce(nonce), p)
}

/// Law: round trip. For every session key, nonce and payload within bounds,
/// the two ciphertext units the stream encoder promises to produce form,
/// concatenated, exactly a byte sequence from whose start the stream
/// decoder is bound to return that payload.
pub proof fn lemma_chunk_round_trip(
    key: Seq<u8>,
    nonce: Seq<u8>,
    len_unit: Seq<u8>,
    payload_unit: Seq<u8>,
    p: Seq<u8>,
)
    requires
        p.len() <= MAX_PACKET_SIZE,
        len_unit == spec_seal(key, nonce, be16(p.len())),
        len_unit.len() == 2 + AEAD_TAG_SIZE,
        payload_unit == spec_seal(key, spec_inc_nonce(nonce), p),
        payload_unit.len() == p.len() + AEAD_TAG_SIZE,
    ensures
        len_unit + payload_unit == chunk_encoding(key, nonce, p),
        chunk_at_start(key, nonce, len_unit + payload_unit, p),
{
    reveal(chunk_at_start);
    let enc = len_unit + payload_unit;
    assert(enc.subrange(0, 2 + AEAD_TAG_SIZE as int) =~= len_unit);
    assert(enc.subrange(2 + AEAD_TAG_SIZE as int, 2 + AEAD_TAG_SIZE + p.len() + AEAD_TAG_SIZE)
        =~= payload_unit);
}

/// The 2-byte big-endian form of a length.
fn be16_encode(len: u16) -> (r: Vec<u8>)
    ensures
        r@ == be16(len as nat),
        r@.len() == 2,
{
    let mut v: Vec<u8> = Vec::new();
    v.push((len / 256) as u8);
    v.push((len % 256) as u8);
    proof {
        assert(v@ =~= be16(len as nat));
    }
    v
}

/// The length a 2-byte big-endian field carries.
fn be16_decode(b: &[u8]) -> (r: u16)
    requires
        b@.len() == 2,
    ensures
        r as nat == be16_val(b@),
{
    (b[0] as u16) * 256 + (b[1] as u16)
}

/// Frames one chunk: seals the payload's length as a 2-byte big-endian
/// field, then the payload itself, writes the two units consecutively into
/// `dst` and returns the total number of bytes written. A payload above
/// `MAX_PACKET_SIZE` is a caller contract violation and is excluded, so
/// encoding cannot fail.
pub fn ahead_encrypted_write(
    cipher: &mut BoxAeadEncryptor,
    buf: &[u8],
    dst: &mut Vec<u8>,
    t: CipherType,
) -> (r: usize)
    requires
        old(cipher).wf(),
        buf@.len() <= MAX_PACKET_SIZE,
    ensures
        final(cipher).wf(),
        final(cipher).key() == old(cipher).key(),
        final(cipher).nonce() == spec_inc_nonce(spec_inc_nonce(old(cipher).nonce())),
        final(dst)@ == chunk_encoding(old(cipher).key(), old(cipher).nonce(), buf@),
        chunk_at_start(old(cipher).key(), old(cipher).nonce(), final(dst)@, buf@),
        r == final(dst)@.len(),
        r == 2 + AEAD_TAG_SIZE + buf@.len() + AEAD_TAG_SIZE,
{
    let len_bytes = be16_encode(buf.len() as u16);
    proof {
        assert(buf.len() as u16 as nat == buf@.len());
    }
    let len_unit = cipher.encrypt(len_bytes.as_slice());
    let payload_unit = cipher.encrypt(buf);
    dst.clear();
    push_all(dst, len_unit.as_slice());
    push_all(dst, payload_unit.as_slice());
    proof {
        lemma_chunk_round_trip(
            old(cipher).key(),
            old(cipher).nonce(),
            len_unit@,
            payload_unit@,
            buf@,
        );
    }
    dst.len()
}

/// Step one of the two-step chunk decode: authenticates and opens the
/// sealed 2-byte length field and range-checks the claimed length against
/// `MAX_PACKET_SIZE`, strictly before any payload read is sized by it. A
/// unit sealed under the session's current nonce is always opened; its
/// claimed length is returned exactly when it is in range and rejected as
/// invalid data otherwise.
pub fn decode_length_unit(cipher: &mut BoxAeadDecryptor, unit: &[u8]) -> (r: Result<
    usize,
    CodecError,
>)
    requires
        old(cipher).wf(),
        unit@.len() == 2 + AEAD_TAG_SIZE,
    ensures
        final(cipher).wf(),
        final(cipher).key() == old(cipher).key(),
        r matches Ok(l) ==> {
            &&& l <= MAX_PACKET_SIZE
            &&& unit@ == spec_seal(old(cipher).key(), old(cipher).nonce(), be16(l as nat))
            &&& final(cipher).nonce() == spec_inc_nonce(old(cipher).nonce())
        },
        forall|v: Seq<u8>|
            (v.len() == 2 && unit@ == #[trigger] spec_seal(old(cipher).key(), old(cipher).nonce(), v))
                ==> if be16_val(v) <= MAX_PACKET_SIZE {
                    r == Ok::<usize, CodecError>(be16_val(v) as usize)
                } else {
                    r == Err::<usize, CodecError>(CodecError::InvalidData)
                },
        r matches Err(e) ==> (e == CodecError::AuthFailed || e == CodecError::InvalidData),
        r == Err::<usize, CodecError>(CodecError::AuthFailed) ==> final(cipher).nonce()
            == old(cipher).nonce(),
{
    let res = cipher.decrypt(unit);
    let len_plain = match res {
        Ok(v) => v,
        Err(e) => {
            return Err(e);
        },
    };
    let len = be16_decode(len_plain.as_slice()) as usize;
    if len > MAX_PACKET_SIZE {
        return Err(CodecError::InvalidData);
    }
    proof {
        lemma_be16_inverse(len_plain@);
    }
    Ok(len)
}

/// Unframes one chunk from the start of `src`: authenticates and opens the
/// sealed length field, rejects a claimed length above `MAX_PACKET_SIZE`
/// strictly before sizing any further read, then authenticates and opens
/// the payload unit. Returns the payload and the number of bytes the chunk
/// occupied. An empty `src` is clean termination; a partial unit is a
/// truncation error.
pub fn ahead_decrypted_read(
    cipher: &mut BoxAeadDecryptor,
    src: &[u8],
    t: CipherType,
) -> (r: Result<(Vec<u8>, usize), CodecError>)
    requires
        old(cipher).wf(),
    ensures
        final(cipher).wf(),
        final(cipher).key() == old(cipher).key(),
        forall|p: Seq<u8>|
            #[trigger] chunk_at_start(old(cipher).key(), old(cipher).nonce(), src@, p)
                ==> (r matches Ok(out) && out.0@ == p),
        r matches Ok(out) ==> {
            &&& chunk_at_start(old(cipher).key(), old(cipher).nonce(), src@, out.0@)
            &&& out.1 == 2 + AEAD_TAG_SIZE + out.0@.len() + AEAD_TAG_SIZE
            &&& final(cipher).nonce() == spec_inc_nonce(spec_inc_nonce(old(cipher).nonce()))
        },
        r == Err::<(Vec<u8>, usize), CodecError>(CodecError::CleanEof) <==> src@.len() == 0,
        0 < src@.len() < 2 + AEAD_TAG_SIZE ==> r == Err::<(Vec<u8>, usize), CodecError>(CodecError::Truncated),
        r matches Err(e) ==> (e == CodecError::CleanEof || e == CodecError::Truncated
            || e == CodecError::AuthFailed || e == CodecError::InvalidData),
{
    let ghost k = old(cipher).key();
    let ghost n0 = old(cipher).nonce();
    let tag_size = t.tag_size();
    if src.len() == 0 {
        proof {
            assert forall|p: Seq<u8>| #[trigger] chunk_at_start(k, n0, src@, p) implies false by {
                reveal(chunk_at_start);
            };
        }
        return Err(CodecError::CleanEof);
    }
    if src.len() < 2 + tag_size {
        proof {
            assert forall|p: Seq<u8>| #[trigger] chunk_at_start(k, n0, src@, p) implies false by {
                reveal(chunk_at_start);
            };
        }
        return Err(CodecError::Truncated);
    }
    let len_unit = slice_subrange(src, 0, 2 + tag_size);
    let res1 = decode_length_unit(cipher, len_unit);
    let len = match res1 {
        Ok(l) => l,
        Err(e) => {
            proof {
                assert forall|p: Seq<u8>| #[trigger] chunk_at_start(k, n0, src@, p)
                    implies false by {
                    reveal(chunk_at_start);
                    lemma_be16_round_trip(p.len());
                    assert(len_unit@ == spec_seal(k, n0, be16(p.len())));
                };
            }
            return Err(e);
        },
    };
    proof {
        assert forall|p: Seq<u8>| #[trigger] chunk_at_start(k, n0, src@, p)
            implies p.len() == len by {
            reveal(chunk_at_start);
            lemma_be16_round_trip(p.len());
            assert(len_unit@ == spec_seal(k, n0, be16(p.len())));
        };
    }
    if src.len() < 2 + tag_size + len + tag_size {
        proof {
            assert forall|p: Seq<u8>| #[trigger] chunk_at_start(k, n0, src@, p) implies false by {
                reveal(chunk_at_start);
            };
        }
        return Err(CodecError::Truncated);
    }
    let payload_unit = slice_subrange(src, 2 + tag_size, 2 + tag_size + len + tag_size);
    let res2 = cipher.decrypt(payload_unit);
    let payload = match res2 {
        Ok(v) => v,
        Err(e) => {
            proof {
                assert forall|p: Seq<u8>| #[trigger] chunk_at_start(k, n0, src@, p)
                    implies false by {
                    reveal(chunk_at_start);
                    assert(payload_unit@ == spec_seal(k, spec_inc_nonce(n0), p));
                };
            }
            return Err(e);
        },
    };
    proof {
        reveal(chunk_at_start);
        assert(len_unit@ == spec_seal(k, n0, be16(len as nat)));
        assert(chunk_at_start(k, n0, src@, payload@));
        assert forall|p: Seq<u8>| #[trigger] chunk_at_start(k, n0, src@, p)
            implies payload@ == p by {
            assert(payload_unit@ == spec_seal(k, spec_inc_nonce(n0), p));
        };
    }
    Ok((payload, 2 + tag_size + len + tag_size))
}

} // verus!
