use md5::Digest;
use ssclient::cipher::CipherType;
use ssclient::datagram::{decrypt_payload_aead, encrypt_payload_aead};
use ssclient::CodecError;

#[test]
fn test_encrypt_and_decrypt_payload() {
    let cipher_type = CipherType::Aes256Gcm;
    let key = cipher_type.bytes_to_key("key".as_bytes());
    let payload = "payload".as_bytes();
    let packet = encrypt_payload_aead(cipher_type, &key, payload);
    assert_eq!(
        packet.len(),
        cipher_type.salt_size() + payload.len() + cipher_type.tag_size()
    );
    let plain = decrypt_payload_aead(cipher_type, &key, &packet).unwrap();
    assert_eq!(&plain[..], payload);
}

#[test]
fn datagram_fresh_salts_differ_but_decode_alike() {
    let t = CipherType::Aes256Gcm;
    let key = t.bytes_to_key(b"independence");
    let payload = b"same payload twice";
    let first = encrypt_payload_aead(t, &key, payload);
    let second = encrypt_payload_aead(t, &key, payload);
    assert_ne!(first, second);
    assert_eq!(decrypt_payload_aead(t, &key, &first).unwrap(), payload.to_vec());
    assert_eq!(decrypt_payload_aead(t, &key, &second).unwrap(), payload.to_vec());
}

#[test]
fn datagram_below_minimum_size_is_rejected() {
    let t = CipherType::Aes256Gcm;
    let key = t.bytes_to_key(b"short");
    let pkt = vec![0u8; t.tag_size() + t.salt_size() - 1];
    assert_eq!(decrypt_payload_aead(t, &key, &pkt), Err(CodecError::TooShort));
    assert_eq!(decrypt_payload_aead(t, &key, &[]), Err(CodecError::TooShort));
}

#[test]
fn datagram_wrong_key_fails_authentication() {
    let t = CipherType::Aes256Gcm;
    let key = t.bytes_to_key(b"right key");
    let other = t.bytes_to_key(b"wrong key");
    let packet = encrypt_payload_aead(t, &key, b"payload");
    assert_eq!(decrypt_payload_aead(t, &other, &packet), Err(CodecError::AuthFailed));
}

#[test]
fn datagram_empty_payload_round_trips() {
    let t = CipherType::Aes256Gcm;
    let key = t.bytes_to_key(b"empty");
    let packet = encrypt_payload_aead(t, &key, &[]);
    assert_eq!(packet.len(), t.salt_size() + t.tag_size());
    let plain = decrypt_payload_aead(t, &key, &packet).unwrap();
    assert!(plain.is_empty());
}

#[test]
fn datagram_body_is_not_the_plaintext() {
    let t = CipherType::Aes256Gcm;
    let key = t.bytes_to_key(b"opacity");
    let payload = b"payload";
    let packet = encrypt_payload_aead(t, &key, payload);
    let body = &packet[t.salt_size()..t.salt_size() + payload.len()];
    assert_ne!(body, payload);
}

#[test]
fn bytes_to_key_matches_the_digest_chain() {
    let t = CipherType::Aes256Gcm;
    let key = t.bytes_to_key(b"key");
    assert_eq!(key.len(), t.key_size());
    let d1 = md5::Md5::digest(b"key");
    assert_eq!(&key[..16], d1.as_slice());
    let mut chain = d1.to_vec();
    chain.extend_from_slice(b"key");
    let d2 = md5::Md5::digest(&chain);
    assert_eq!(&key[16..], d2.as_slice());
    assert_ne!(t.bytes_to_key(b"key"), t.bytes_to_key(b"yek"));
}

#[test]
fn gen_salt_has_suite_size_and_varies() {
    let t = CipherType::Aes256Gcm;
    let a = t.gen_salt();
    let b = t.gen_salt();
    assert_eq!(a.len(), t.salt_size());
    assert_eq!(b.len(), t.salt_size());
    assert_ne!(a, b);
}
