use aes_ecb_cipher::aes_ecb::AesEcbCipher;
use aes_ecb_cipher::body::SecretBody;
use aes_ecb_cipher::finger::Finger;
use aes_ecb_cipher::packet::NetPacket;
use aes_ecb_cipher::CipherError;

#[test]
fn body_partitions_tagged_buffer() {
    let buffer: Vec<u8> = (0u8..20).collect();
    let body = SecretBody::new(buffer, true).unwrap();
    assert_eq!(body.en_body(), (0u8..8).collect::<Vec<u8>>());
    assert_eq!(body.finger().unwrap(), (8u8..20).collect::<Vec<u8>>());
}

#[test]
fn body_without_tag_uses_whole_buffer() {
    let buffer: Vec<u8> = (0u8..20).collect();
    let mut body = SecretBody::new(buffer, false).unwrap();
    assert_eq!(body.en_body(), (0u8..20).collect::<Vec<u8>>());
    assert_eq!(body.finger(), Err(CipherError::MalformedBody));
    assert_eq!(body.set_finger(&vec![0u8; 12]), Err(CipherError::MalformedBody));
}

#[test]
fn body_too_short_for_tag_is_malformed() {
    assert!(matches!(SecretBody::new(vec![0u8; 12], true), Err(CipherError::MalformedBody)));
    assert!(matches!(SecretBody::new(vec![], false), Err(CipherError::MalformedBody)));
    assert!(SecretBody::new(vec![0u8; 13], true).is_ok());
    assert!(SecretBody::new(vec![0u8; 1], false).is_ok());
}

#[test]
fn body_set_random_writes_last_four_plain_bytes() {
    let mut body = SecretBody::new(vec![0u8; 20], true).unwrap();
    body.set_random(0x0102_0304);
    assert_eq!(body.en_body(), vec![0, 0, 0, 0, 1, 2, 3, 4]);
    assert_eq!(body.finger().unwrap(), vec![0u8; 12]);

    let mut plain = SecretBody::new(vec![9u8; 6], false).unwrap();
    plain.set_random(0xA1B2_C3D4);
    assert_eq!(plain.en_body(), vec![9, 9, 0xA1, 0xB2, 0xC3, 0xD4]);
}

#[test]
fn body_set_finger_replaces_tag_only() {
    let mut body = SecretBody::new(vec![1u8; 16], true).unwrap();
    let tag: Vec<u8> = (40u8..52).collect();
    body.set_finger(&tag).unwrap();
    assert_eq!(body.en_body(), vec![1u8; 4]);
    assert_eq!(body.finger().unwrap(), tag);
    let mut expected = vec![1u8; 4];
    expected.extend(40u8..52);
    assert_eq!(body.into_buffer(), expected);
}

#[test]
fn packet_header_accessors_round_trip() {
    let mut p = NetPacket::new(vec![0u8; 64]).unwrap();
    p.set_source(&vec![1, 2, 3, 4]);
    p.set_destination(&vec![5, 6, 7, 8]);
    p.set_protocol(9);
    p.set_transport_protocol(10);
    p.set_source_ttl(11);
    p.set_gateway_flag(true);
    p.set_encrypt_flag(true);
    assert_eq!(p.source(), vec![1, 2, 3, 4]);
    assert_eq!(p.destination(), vec![5, 6, 7, 8]);
    assert_eq!(p.protocol(), 9);
    assert_eq!(p.transport_protocol(), 10);
    assert_eq!(p.source_ttl(), 11);
    assert!(p.is_gateway());
    assert!(p.is_encrypt());
    p.set_encrypt_flag(false);
    assert!(!p.is_encrypt());
    assert!(p.is_gateway());
    p.set_gateway_flag(false);
    assert!(!p.is_gateway());
    assert!(!p.is_encrypt());
}

#[test]
fn packet_payload_and_lengths() {
    let mut p = NetPacket::new(vec![0u8; 32]).unwrap();
    assert_eq!(p.capacity(), 32);
    assert_eq!(p.data_len(), 32);
    assert_eq!(p.payload(), vec![0u8; 20]);
    p.set_payload(&vec![42u8; 5]).unwrap();
    assert_eq!(p.data_len(), 17);
    assert_eq!(p.payload(), vec![42u8; 5]);
    assert_eq!(p.set_payload(&vec![1u8; 21]), Err(CipherError::LengthExceedsCapacity));
    assert_eq!(p.payload(), vec![42u8; 5]);
}

#[test]
fn packet_rejects_bad_buffers() {
    assert!(matches!(NetPacket::new(vec![0u8; 11]), Err(CipherError::MalformedPacket)));
    assert!(matches!(NetPacket::new(vec![0u8; 65537]), Err(CipherError::LengthExceedsCapacity)));
    assert!(NetPacket::new(vec![0u8; 12]).is_ok());
}

#[test]
fn finger_is_deterministic_and_keyed() {
    let f = Finger::new(&b"token".to_vec());
    let g = Finger::new(&b"token".to_vec());
    let other = Finger::new(&b"other".to_vec());
    let context = vec![3u8; 12];
    let data = vec![1, 2, 3, 4, 5];
    let t1 = f.calculate_finger(&context, &data);
    let t2 = g.calculate_finger(&context, &data);
    assert_eq!(t1.len(), 12);
    assert_eq!(t1, t2);
    assert_ne!(other.calculate_finger(&context, &data), t1);
    let mut context2 = context.clone();
    context2[0] ^= 1;
    assert_ne!(f.calculate_finger(&context2, &data), t1);
    let mut data2 = data.clone();
    data2[4] ^= 0x80;
    assert_ne!(f.calculate_finger(&context, &data2), t1);
}

#[test]
fn key_accessor_returns_key_bytes() {
    let cipher = AesEcbCipher::new_128([0xAB; 16], None);
    assert_eq!(cipher.key(), &[0xABu8; 16][..]);
    let finger = Finger::new(&b"k".to_vec());
    let cipher = AesEcbCipher::new_256([0xCD; 32], Some(finger));
    assert_eq!(cipher.key(), &[0xCDu8; 32][..]);
}
