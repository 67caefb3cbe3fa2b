//! The AEAD cipher capability both codecs run over: a suite descriptor, key
//! derivation from a pass-phrase, salt generation, and per-session encryptor
//! and decryptor handles whose nonce advances with every sealed unit.
use vstd::prelude::*;
use aes_gcm::aead::{Aead, KeyInit};
use md5::Digest;
use rand::Rng;

verus! {

use vstd::slice::slice_subrange;
use crate::CodecError;

/// Bytes the AEAD suite appends to every sealed unit to authenticate it.
pub const AEAD_TAG_SIZE: usize = 16;

/// Bytes of key material a cipher instance is keyed with.
pub const AEAD_KEY_SIZE: usize = 32;

/// Bytes of the per-instance nonce counter.
pub const AEAD_NONCE_SIZE: usize = 12;

/// Bytes of random salt a session or datagram key is derived with.
pub const AEAD_SALT_SIZE: usize = 32;

/// Bytes of one digest block of the key-derivation chain.
pub const DIGEST_LEN: usize = 16;

/// Largest plaintext a single seal operation accepts; far below the AEAD
/// engine's own message limit, so sealing never fails.
pub const MAX_SEAL_INPUT: usize = 0xFFFF_FFFF;

/// What sealing a plaintext under a key and nonce produces: the ciphertext
/// with its authentication tag appended. The bytes are a function of the
/// three arguments alone.
pub uninterp spec fn spec_seal(key: Seq<u8>, nonce: Seq<u8>, plaintext: Seq<u8>) -> Seq<u8>;

/// The digest the key-derivation chain is built from; a function of the
/// input bytes alone.
pub uninterp spec fn md5_of(data: Seq<u8>) -> Seq<u8>;

/// The AEAD suites this library frames for.
#[derive(Clone, Copy, Debug, PartialEq, Eq, Structural)]
pub enum CipherType {
    Aes256Gcm,
}

/// One key's worth of material drawn from the digest chain over `material`:
/// the first block digests the material itself, the second digests the first
/// block followed by the material again.
pub open spec fn spec_derive_key(material: Seq<u8>) -> Seq<u8> {
    md5_of(material) + md5_of(md5_of(material) + material)
}

/// The key a session derives from a long-term key and a salt.
pub open spec fn spec_session_key(key: Seq<u8>, salt: Seq<u8>) -> Seq<u8> {
    spec_derive_key(key + salt)
}

/// The all-zero nonce every fresh cipher instance starts from.
pub open spec fn zero_nonce() -> Seq<u8> {
    Seq::new(AEAD_NONCE_SIZE as nat, |i: int| 0u8)
}

/// The nonce counter after one sealed unit: the byte string read as a
/// little-endian integer, plus one, wrapping at the full width.
pub open spec fn spec_inc_nonce(n: Seq<u8>) -> Seq<u8>
    decreases n.len(),
{
    if n.len() == 0 {
        n
    } else if n[0] == 0xFFu8 {
        seq![0u8] + spec_inc_nonce(n.skip(1))
    } else {
        seq![(n[0] + 1) as u8] + n.skip(1)
    }
}

/// Relies on aes_gcm::Aes256Gcm (aead::Aead::encrypt): seals a plaintext
/// under a 32-byte key and 12-byte nonce, returning the ciphertext with the
/// 16-byte tag appended; infallible below the engine's message limit.
#[verifier::external_body]
fn aead_seal(key: &[u8], nonce: &[u8], plaintext: &[u8]) -> (r: Vec<u8>)
    requires
        key@.len() == AEAD_KEY_SIZE,
        nonce@.len() == AEAD_NONCE_SIZE,
        plaintext@.len() <= MAX_SEAL_INPUT,
    ensures
        r@ == spec_seal(key@, nonce@, plaintext@),
        r@.len() == plaintext@.len() + AEAD_TAG_SIZE,
{
    let cipher = aes_gcm::Aes256Gcm::new_from_slice(key).unwrap();
    let nonce_arr = nonce.try_into().unwrap();
    cipher.encrypt(&nonce_arr, plaintext).unwrap()
}

/// Relies on aes_gcm::Aes256Gcm (aead::Aead::decrypt): verifies the tag and
/// inverts `aead_seal`. Decrypting a sealed unit under the same key and
/// nonce returns exactly the plaintext that was sealed; a success always
/// exhibits a matching seal.
#[verifier::external_body]
fn aead_open(key: &[u8], nonce: &[u8], ciphertext: &[u8]) -> (r: Option<Vec<u8>>)
    requires
        key@.len() == AEAD_KEY_SIZE,
        nonce@.len() == AEAD_NONCE_SIZE,
    ensures
        r matches Some(p) ==> ciphertext@ == spec_seal(key@, nonce@, p@)
            && p@.len() + AEAD_TAG_SIZE == ciphertext@.len(),
        r matches Some(q) ==> forall|p: Seq<u8>|
            ciphertext@ == #[trigger] spec_seal(key@, nonce@, p) ==> q@ == p,
        r is None ==> forall|p: Seq<u8>|
            ciphertext@ != #[trigger] spec_seal(key@, nonce@, p),
{
    let cipher = aes_gcm::Aes256Gcm::new_from_slice(key).unwrap();
    let nonce_arr = nonce.try_into().unwrap();
    match cipher.decrypt(&nonce_arr, ciphertext) {
        Ok(p) => Some(p),
        Err(_) => None,
    }
}

/// Relies on md5::Md5 (digest::Digest::digest): the 16-byte digest of the
/// input, a function of the input bytes alone.
#[verifier::external_body]
fn md5_digest(data: &[u8]) -> (r: Vec<u8>)
    ensures
        r@ == md5_of(data@),
        r@.len() == DIGEST_LEN,
{
    md5::Md5::digest(data).to_vec()
}

/// Relies on rand::rng (rand_core::RngCore::fill_bytes): `n` bytes from the
/// thread-local cryptographic generator; nothing holds of their values.
#[verifier::external_body]
fn random_bytes(n: usize) -> (r: Vec<u8>)
    ensures
        r@.len() == n,
{
    let mut buf = vec![0u8; n];
    rand::rng().fill_bytes(&mut buf);
    buf
}

/// Appends every byte of `src` to `dst`.
pub(crate) fn push_all(dst: &mut Vec<u8>, src: &[u8])
    ensures
        final(dst)@ == old(dst)@ + src@,
{
    let mut i: usize = 0;
    while i < src.len()
        invariant
            i <= src@.len(),
            dst@ == old(dst)@ + src@.take(i as int),
        decreases src@.len() - i,
    {
        dst.push(src[i]);
        proof {
            assert(src@.take(i + 1) =~= src@.take(i as int).push(src@[i as int]));
            assert(dst@ =~= old(dst)@ + src@.take(i + 1));
        }
        i = i + 1;
    }
    proof {
        assert(dst@ =~= old(dst)@ + src@);
    }
}

/// The incremented nonce as a fresh vector.
fn inc_nonce_vec(nonce: &[u8]) -> (r: Vec<u8>)
    ensures
        r@ == spec_inc_nonce(nonce@),
        r@.len() == nonce@.len(),
    decreases nonce@.len(),
{
    let mut out: Vec<u8> = Vec::new();
    if nonce.len() == 0 {
        assert(out@ =~= spec_inc_nonce(nonce@));
        return out;
    }
    if nonce[0] == 0xFF {
        out.push(0u8);
        let rest = inc_nonce_vec(slice_subrange(nonce, 1, nonce.len()));
        push_all(&mut out, rest.as_slice());
        proof {
            assert(out@ =~= seq![0u8] + spec_inc_nonce(nonce@.skip(1)));
        }
    } else {
        out.push(nonce[0] + 1);
        push_all(&mut out, slice_subrange(nonce, 1, nonce.len()));
        proof {
            assert(out@ =~= seq![(nonce@[0] + 1) as u8] + nonce@.skip(1));
        }
    }
    out
}

/// A 12-byte zero nonce as a vector.
fn zero_nonce_vec() -> (r: Vec<u8>)
    ensures
        r@ == zero_nonce(),
{
    let mut v: Vec<u8> = Vec::new();
    let mut i: usize = 0;
    while i < AEAD_NONCE_SIZE
        invariant
            i <= AEAD_NONCE_SIZE,
            v@ =~= zero_nonce().take(i as int),
        decreases AEAD_NONCE_SIZE - i,
    {
        v.push(0u8);
        proof {
            assert(v@ =~= zero_nonce().take(i + 1));
        }
        i = i + 1;
    }
    proof {
        assert(v@ =~= zero_nonce());
    }
    v
}

/// One key's worth of material derived from arbitrary input bytes by the
/// digest chain.
pub fn derive_key_bytes(material: &[u8]) -> (r: Vec<u8>)
    ensures
        r@ == spec_derive_key(material@),
        r@.len() == AEAD_KEY_SIZE,
{
    let d1 = md5_digest(material);
    let mut chain: Vec<u8> = Vec::new();
    push_all(&mut chain, d1.as_slice());
    push_all(&mut chain, material);
    let d2 = md5_digest(chain.as_slice());
    let mut out = d1;
    push_all(&mut out, d2.as_slice());
    out
}

impl CipherType {
    /// Bytes the suite appends to each sealed unit.
    pub fn tag_size(&self) -> (r: usize)
        ensures
            r == AEAD_TAG_SIZE,
    {
        AEAD_TAG_SIZE
    }

    /// Bytes of salt a session or datagram carries for key derivation.
    pub fn salt_size(&self) -> (r: usize)
        ensures
            r == AEAD_SALT_SIZE,
    {
        AEAD_SALT_SIZE
    }

    /// Bytes of key material the suite is keyed with.
    pub fn key_size(&self) -> (r: usize)
        ensures
            r == AEAD_KEY_SIZE,
    {
        AEAD_KEY_SIZE
    }

    /// A fresh random salt of the suite's salt size.
    pub fn gen_salt(&self) -> (r: Vec<u8>)
        ensures
            r@.len() == AEAD_SALT_SIZE,
    {
        random_bytes(AEAD_SALT_SIZE)
    }

    /// The fixed-size key the suite derives from a pass-phrase.
    pub fn bytes_to_key(&self, passphrase: &[u8]) -> (r: Vec<u8>)
        ensures
            r@ == spec_derive_key(passphrase@),
            r@.len() == AEAD_KEY_SIZE,
    {
        derive_key_bytes(passphrase)
    }
}

/// A one-session AEAD sealing handle: a derived key and a nonce counter
/// that advances with every sealed unit.
pub struct BoxAeadEncryptor {
    key: Vec<u8>,
    nonce: Vec<u8>,
}

/// A one-session AEAD opening handle: a derived key and a nonce counter
/// that advances with every unit it authenticates.
pub struct BoxAeadDecryptor {
    key: Vec<u8>,
    nonce: Vec<u8>,
}

impl BoxAeadEncryptor {
    /// The key this handle seals under.
    pub closed spec fn key(&self) -> Seq<u8> {
        self.key@
    }

    /// The nonce the next sealed unit will use.
    pub closed spec fn nonce(&self) -> Seq<u8> {
        self.nonce@
    }

    /// The handle carries a full-size key and nonce.
    pub open spec fn wf(&self) -> bool {
        self.key().len() == AEAD_KEY_SIZE && self.nonce().len() == AEAD_NONCE_SIZE
    }

    /// Seals one plaintext unit under the current nonce and advances the
    /// nonce; the unit is the plaintext's length plus the tag.
    pub fn encrypt(&mut self, plaintext: &[u8]) -> (r: Vec<u8>)
        requires
            old(self).wf(),
            plaintext@.len() <= MAX_SEAL_INPUT,
        ensures
            final(self).wf(),
            final(self).key() == old(self).key(),
            final(self).nonce() == spec_inc_nonce(old(self).nonce()),
            r@ == spec_seal(old(self).key(), old(self).nonce(), plaintext@),
            r@.len() == plaintext@.len() + AEAD_TAG_SIZE,
    {
        let out = aead_seal(self.key.as_slice(), self.nonce.as_slice(), plaintext);
        self.nonce = inc_nonce_vec(self.nonce.as_slice());
        out
    }
}

impl BoxAeadDecryptor {
    /// The key this handle opens under.
    pub closed spec fn key(&self) -> Seq<u8> {
        self.key@
    }

    /// The nonce the next unit is authenticated against.
    pub closed spec fn nonce(&self) -> Seq<u8> {
        self.nonce@
    }

    /// The handle carries a full-size key and nonce.
    pub open spec fn wf(&self) -> bool {
        self.key().len() == AEAD_KEY_SIZE && self.nonce().len() == AEAD_NONCE_SIZE
    }

    /// Authenticates and opens one sealed unit against the current nonce.
    /// Success advances the nonce and always exhibits the matching seal; a
    /// unit sealed under the current key and nonce is always accepted and
    /// returns exactly the plaintext that was sealed. Failure leaves the
    /// handle unchanged.
    pub fn decrypt(&mut self, ciphertext: &[u8]) -> (r: Result<Vec<u8>, CodecError>)
        requires
            old(self).wf(),
        ensures
            final(self).wf(),
            final(self).key() == old(self).key(),
            r matches Ok(p) ==> {
                &&& ciphertext@ == spec_seal(old(self).key(), old(self).nonce(), p@)
                &&& p@.len() + AEAD_TAG_SIZE == ciphertext@.len()
                &&& final(self).nonce() == spec_inc_nonce(old(self).nonce())
            },
            forall|p: Seq<u8>| ciphertext@ == spec_seal(old(self).key(), old(self).nonce(), p)
                ==> (r matches Ok(q) && q@ == p),
            r matches Err(e) ==> e == CodecError::AuthFailed
                && final(self).nonce() == old(self).nonce(),
    {
        let out = aead_open(self.key.as_slice(), self.nonce.as_slice(), ciphertext);
        match out {
            Some(p) => {
                self.nonce = inc_nonce_vec(self.nonce.as_slice());
                Ok(p)
            },
            None => Err(CodecError::AuthFailed),
        }
    }
}

/// A fresh sealing handle for one session or one datagram: keyed with the
/// key derived from the long-term key and the salt, nonce at zero.
pub fn new_aead_encryptor(t: CipherType, key: &[u8], salt: &[u8]) -> (r: BoxAeadEncryptor)
    ensures
        r.wf(),
        r.key() == spec_session_key(key@, salt@),
        r.nonce() == zero_nonce(),
{
    let mut material: Vec<u8> = Vec::new();
    push_all(&mut material, key);
    push_all(&mut material, salt);
    BoxAeadEncryptor { key: derive_key_bytes(material.as_slice()), nonce: zero_nonce_vec() }
}

/// A fresh opening handle matching `new_aead_encryptor` for the same key
/// and salt.
pub fn new_aead_decryptor(t: CipherType, key: &[u8], salt: &[u8]) -> (r: BoxAeadDecryptor)
    ensures
        r.wf(),
        r.key() == spec_session_key(key@, salt@),
        r.nonce() == zero_nonce(),
{
    let mut material: Vec<u8> = Vec::new();
    push_all(&mut material, key);
    push_all(&mut material, salt);
    BoxAeadDecryptor { key: derive_key_bytes(material.as_slice()), nonce: zero_nonce_vec() }
}

} // verus!
