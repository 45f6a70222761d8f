use aes_ecb_cipher::aes_ecb::AesEcbCipher;
use aes_ecb_cipher::finger::Finger;
use aes_ecb_cipher::packet::NetPacket;
use aes_ecb_cipher::CipherError;

fn tp_packet(capacity: usize, payload: &[u8]) -> NetPacket {
    let mut p = NetPacket::new(vec![0u8; capacity]).unwrap();
    p.set_source(&vec![10, 1, 2, 3]);
    p.set_destination(&vec![10, 4, 5, 6]);
    p.set_protocol(6);
    p.set_transport_protocol(17);
    p.set_source_ttl(64);
    p.set_gateway_flag(false);
    p.set_encrypt_flag(false);
    p.set_payload(&payload.to_vec()).unwrap();
    p
}

fn tp_cipher() -> AesEcbCipher {
    let finger = Finger::new(&b"integrity token".to_vec());
    AesEcbCipher::new_128([0x21u8; 16], Some(finger))
}

#[test]
fn tamper_any_payload_bit_fails_integrity() {
    let cipher = tp_cipher();
    let mut p = tp_packet(256, b"hello");
    cipher.encrypt_ipv4(&mut p).unwrap();
    let wire = p.payload();
    // every bit of the ciphertext and of the tag
    for byte in 0..wire.len() {
        for bit in 0..8 {
            let mut corrupt = wire.clone();
            corrupt[byte] ^= 1u8 << bit;
            let mut q = tp_packet(256, b"hello");
            q.set_payload(&corrupt).unwrap();
            q.set_encrypt_flag(true);
            assert_eq!(cipher.decrypt_ipv4(&mut q), Err(CipherError::IntegrityFailure));
            assert!(q.is_encrypt());
            assert_eq!(q.payload(), corrupt);
        }
    }
}

#[test]
fn tamper_header_fields_fail_integrity() {
    let cipher = tp_cipher();
    let mut p = tp_packet(256, b"payload bytes");
    cipher.encrypt_ipv4(&mut p).unwrap();
    let wire = p.payload();

    let fresh = |wire: &Vec<u8>| {
        let mut q = tp_packet(256, b"payload bytes");
        q.set_payload(wire).unwrap();
        q.set_encrypt_flag(true);
        q
    };

    for bit in 0..8 {
        let mut q = fresh(&wire);
        let mut src = q.source();
        src[1] ^= 1u8 << bit;
        q.set_source(&src);
        assert_eq!(cipher.decrypt_ipv4(&mut q), Err(CipherError::IntegrityFailure));

        let mut q = fresh(&wire);
        let mut dst = q.destination();
        dst[3] ^= 1u8 << bit;
        q.set_destination(&dst);
        assert_eq!(cipher.decrypt_ipv4(&mut q), Err(CipherError::IntegrityFailure));

        let mut q = fresh(&wire);
        q.set_protocol(q.protocol() ^ (1u8 << bit));
        assert_eq!(cipher.decrypt_ipv4(&mut q), Err(CipherError::IntegrityFailure));

        let mut q = fresh(&wire);
        q.set_transport_protocol(q.transport_protocol() ^ (1u8 << bit));
        assert_eq!(cipher.decrypt_ipv4(&mut q), Err(CipherError::IntegrityFailure));

        let mut q = fresh(&wire);
        q.set_source_ttl(q.source_ttl() ^ (1u8 << bit));
        assert_eq!(cipher.decrypt_ipv4(&mut q), Err(CipherError::IntegrityFailure));
    }

    let mut q = fresh(&wire);
    q.set_gateway_flag(true);
    assert_eq!(cipher.decrypt_ipv4(&mut q), Err(CipherError::IntegrityFailure));
}

#[test]
fn ciphertext_differs_between_encryptions() {
    let cipher = tp_cipher();
    let mut a = tp_packet(256, b"same payload");
    let mut b = tp_packet(256, b"same payload");
    cipher.encrypt_ipv4(&mut a).unwrap();
    cipher.encrypt_ipv4(&mut b).unwrap();
    assert_ne!(a.payload(), b.payload());
}

#[test]
fn short_payload_is_malformed() {
    let cipher = tp_cipher();
    for len in 0..16usize {
        let mut p = tp_packet(128, &vec![1u8; len]);
        p.set_encrypt_flag(true);
        assert_eq!(cipher.decrypt_ipv4(&mut p), Err(CipherError::MalformedPacket));
        assert!(p.is_encrypt());
        assert_eq!(p.payload(), vec![1u8; len]);
    }
}

#[test]
fn unencrypted_packet_is_rejected() {
    let cipher = tp_cipher();
    let mut p = tp_packet(128, &[7u8; 32]);
    assert_eq!(cipher.decrypt_ipv4(&mut p), Err(CipherError::NotEncrypted));
    assert_eq!(p.payload(), vec![7u8; 32]);
}

#[test]
fn double_decrypt_is_rejected() {
    let cipher = tp_cipher();
    let mut p = tp_packet(256, b"once only");
    cipher.encrypt_ipv4(&mut p).unwrap();
    cipher.decrypt_ipv4(&mut p).unwrap();
    assert_eq!(p.payload(), b"once only".to_vec());
    assert_eq!(cipher.decrypt_ipv4(&mut p), Err(CipherError::NotEncrypted));
}

#[test]
fn bad_padding_is_a_decrypt_failure() {
    // no fingerprint, so the padding check is the only defense
    let cipher = AesEcbCipher::new_128([7u8; 16], None);
    let mut p = tp_packet(128, &[0u8; 16]);
    p.set_encrypt_flag(true);
    assert_eq!(cipher.decrypt_ipv4(&mut p), Err(CipherError::DecryptFailure));
    assert!(p.is_encrypt());
}

#[test]
fn odd_length_ciphertext_is_a_decrypt_failure() {
    let cipher = AesEcbCipher::new_128([7u8; 16], None);
    let mut p = tp_packet(128, &[5u8; 17]);
    p.set_encrypt_flag(true);
    assert_eq!(cipher.decrypt_ipv4(&mut p), Err(CipherError::DecryptFailure));
}

#[test]
fn missing_working_room_exceeds_capacity() {
    let cipher = AesEcbCipher::new_128([7u8; 16], None);
    let mut p = tp_packet(20, &[3u8; 8]);
    assert_eq!(cipher.encrypt_ipv4(&mut p), Err(CipherError::LengthExceedsCapacity));
    assert_eq!(p.payload(), vec![3u8; 8]);
    assert!(!p.is_encrypt());
}

#[test]
fn missing_padding_room_is_an_encrypt_failure() {
    let cipher = AesEcbCipher::new_128([7u8; 16], None);
    let mut p = tp_packet(24, &[3u8; 8]);
    assert_eq!(cipher.encrypt_ipv4(&mut p), Err(CipherError::EncryptFailure));
    assert_eq!(p.payload(), vec![3u8; 8]);
    assert!(!p.is_encrypt());
}

#[test]
fn missing_tag_room_exceeds_capacity() {
    let cipher = tp_cipher();
    let mut p = tp_packet(36, &[3u8; 8]);
    assert_eq!(cipher.encrypt_ipv4(&mut p), Err(CipherError::LengthExceedsCapacity));
    assert_eq!(p.payload(), vec![3u8; 8]);
    assert!(!p.is_encrypt());
}
