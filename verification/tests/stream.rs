use ssclient::buffer_size;
use ssclient::cipher::{new_aead_decryptor, new_aead_encryptor, CipherType};
use ssclient::stream::{ahead_decrypted_read, ahead_encrypted_write, decode_length_unit};
use ssclient::CodecError;
use ssclient::MAX_PACKET_SIZE;

#[test]
fn test_encrypt_and_decrypt_stream() {
    let cipher_type = CipherType::Aes256Gcm;
    let key = cipher_type.bytes_to_key("keasdfsdfy".as_bytes());
    let iv = cipher_type.gen_salt();
    let mut encrypter_cipher = new_aead_encryptor(cipher_type, &key, &iv);
    let mut decrypter_cipher = new_aead_decryptor(cipher_type, &key, &iv);

    let buf = "hello".as_bytes();
    let mut dst: Vec<u8> = Vec::new();

    let size = ahead_encrypted_write(&mut encrypter_cipher, buf, &mut dst, cipher_type);
    assert_eq!(size, dst.len());

    let (output, consumed) =
        ahead_decrypted_read(&mut decrypter_cipher, &dst, cipher_type).unwrap();
    assert_eq!(consumed, size);
    assert_eq!(&output[..], buf);
    assert_eq!(output.len(), 5);
}

#[test]
fn buffer_size_is_the_exact_chunk_size() {
    assert_eq!(buffer_size(16, &[0u8; 10]), 2 + 16 + 10 + 16);
    assert_eq!(buffer_size(16, &[]), 34);
    let t = CipherType::Aes256Gcm;
    let key = t.bytes_to_key(b"sizing");
    let iv = t.gen_salt();
    let mut enc = new_aead_encryptor(t, &key, &iv);
    let data = b"some chunk payload";
    let mut dst: Vec<u8> = Vec::new();
    let written = ahead_encrypted_write(&mut enc, data, &mut dst, t);
    assert_eq!(written, buffer_size(t.tag_size(), data));
}

#[test]
fn stream_chunk_at_max_size_round_trips() {
    let t = CipherType::Aes256Gcm;
    let key = t.bytes_to_key(b"boundary");
    let iv = t.gen_salt();
    let mut enc = new_aead_encryptor(t, &key, &iv);
    let mut dec = new_aead_decryptor(t, &key, &iv);
    let buf = vec![0xA5u8; MAX_PACKET_SIZE];
    let mut dst: Vec<u8> = Vec::new();
    let size = ahead_encrypted_write(&mut enc, &buf, &mut dst, t);
    assert_eq!(size, buffer_size(t.tag_size(), &buf));
    let (out, consumed) = ahead_decrypted_read(&mut dec, &dst, t).unwrap();
    assert_eq!(out, buf);
    assert_eq!(consumed, size);
}

#[test]
fn stream_decode_rejects_oversized_claimed_length() {
    let t = CipherType::Aes256Gcm;
    let key = t.bytes_to_key(b"oversize");
    let iv = t.gen_salt();
    let mut enc = new_aead_encryptor(t, &key, &iv);
    let mut dec = new_aead_decryptor(t, &key, &iv);
    // A length field claiming MAX_PACKET_SIZE + 1 = 0x4000, sealed under the
    // session's first nonce so that it authenticates.
    let len_unit = enc.encrypt(&[0x40, 0x00]);
    let mut src = len_unit;
    src.extend(std::iter::repeat(0u8).take(MAX_PACKET_SIZE + 1 + t.tag_size()));
    let r = ahead_decrypted_read(&mut dec, &src, t);
    assert_eq!(r, Err(CodecError::InvalidData));
}

#[test]
fn length_unit_step_validates_before_payload() {
    let t = CipherType::Aes256Gcm;
    let key = t.bytes_to_key(b"two step");
    let iv = t.gen_salt();
    let mut enc = new_aead_encryptor(t, &key, &iv);
    let mut dec = new_aead_decryptor(t, &key, &iv);
    let unit_ok = enc.encrypt(&[0x3F, 0xFF]);
    assert_eq!(decode_length_unit(&mut dec, &unit_ok), Ok(MAX_PACKET_SIZE));
    let unit_bad = enc.encrypt(&[0x40, 0x00]);
    assert_eq!(decode_length_unit(&mut dec, &unit_bad), Err(CodecError::InvalidData));
}

#[test]
fn stream_decode_distinguishes_eof_from_truncation() {
    let t = CipherType::Aes256Gcm;
    let key = t.bytes_to_key(b"endings");
    let iv = t.gen_salt();
    let mut enc = new_aead_encryptor(t, &key, &iv);
    let buf = b"hello";
    let mut dst: Vec<u8> = Vec::new();
    ahead_encrypted_write(&mut enc, buf, &mut dst, t);

    let mut dec = new_aead_decryptor(t, &key, &iv);
    assert_eq!(ahead_decrypted_read(&mut dec, &[], t), Err(CodecError::CleanEof));

    let mut dec = new_aead_decryptor(t, &key, &iv);
    assert_eq!(
        ahead_decrypted_read(&mut dec, &dst[..10], t),
        Err(CodecError::Truncated)
    );

    // The whole length unit arrived but the payload unit is incomplete.
    let mut dec = new_aead_decryptor(t, &key, &iv);
    assert_eq!(
        ahead_decrypted_read(&mut dec, &dst[..20], t),
        Err(CodecError::Truncated)
    );
}

#[test]
fn stream_decode_rejects_any_single_bit_flip() {
    let t = CipherType::Aes256Gcm;
    let key = t.bytes_to_key(b"tamper");
    let iv = t.gen_salt();
    let mut enc = new_aead_encryptor(t, &key, &iv);
    let buf = b"hello";
    let mut dst: Vec<u8> = Vec::new();
    ahead_encrypted_write(&mut enc, buf, &mut dst, t);
    for i in 0..dst.len() {
        for bit in 0..8 {
            let mut bad = dst.clone();
            bad[i] ^= 1u8 << bit;
            let mut dec = new_aead_decryptor(t, &key, &iv);
            let r = ahead_decrypted_read(&mut dec, &bad, t);
            assert_eq!(r, Err(CodecError::AuthFailed));
        }
    }
}

#[test]
fn stream_chunks_decode_in_sequence() {
    let t = CipherType::Aes256Gcm;
    let key = t.bytes_to_key(b"sequence");
    let iv = t.gen_salt();
    let mut enc = new_aead_encryptor(t, &key, &iv);
    let mut dec = new_aead_decryptor(t, &key, &iv);
    let mut wire: Vec<u8> = Vec::new();
    let mut chunk: Vec<u8> = Vec::new();
    ahead_encrypted_write(&mut enc, b"hello", &mut chunk, t);
    wire.extend_from_slice(&chunk);
    ahead_encrypted_write(&mut enc, b"world!", &mut chunk, t);
    wire.extend_from_slice(&chunk);

    let (first, used) = ahead_decrypted_read(&mut dec, &wire, t).unwrap();
    assert_eq!(&first[..], b"hello");
    let (second, used2) = ahead_decrypted_read(&mut dec, &wire[used..], t).unwrap();
    assert_eq!(&second[..], b"world!");
    assert_eq!(used + used2, wire.len());
    // Nothing left: the stream ends cleanly at the chunk boundary.
    assert_eq!(
        ahead_decrypted_read(&mut dec, &wire[used + used2..], t),
        Err(CodecError::CleanEof)
    );
}

#[test]
fn stream_empty_chunk_round_trips() {
    let t = CipherType::Aes256Gcm;
    let key = t.bytes_to_key(b"nothing");
    let iv = t.gen_salt();
    let mut enc = new_aead_encryptor(t, &key, &iv);
    let mut dec = new_aead_decryptor(t, &key, &iv);
    let mut dst: Vec<u8> = Vec::new();
    let size = ahead_encrypted_write(&mut enc, &[], &mut dst, t);
    assert_eq!(size, 2 + 2 * t.tag_size());
    let (out, consumed) = ahead_decrypted_read(&mut dec, &dst, t).unwrap();
    assert!(out.is_empty());
    assert_eq!(consumed, size);
}
