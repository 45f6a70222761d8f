use aes_ecb_cipher::aes_ecb::AesEcbCipher;
use aes_ecb_cipher::finger::Finger;
use aes_ecb_cipher::packet::NetPacket;

fn rt_packet(capacity: usize, payload: &[u8]) -> NetPacket {
    let mut p = NetPacket::new(vec![0u8; capacity]).unwrap();
    p.set_source(&vec![192, 168, 1, 10]);
    p.set_destination(&vec![192, 168, 1, 20]);
    p.set_protocol(4);
    p.set_transport_protocol(17);
    p.set_source_ttl(32);
    p.set_gateway_flag(true);
    p.set_encrypt_flag(false);
    p.set_payload(&payload.to_vec()).unwrap();
    p
}

fn rt_check(cipher: &AesEcbCipher, payload: &[u8]) {
    let mut p = rt_packet(256, payload);
    cipher.encrypt_ipv4(&mut p).unwrap();
    assert!(p.is_encrypt());
    assert_ne!(p.payload(), payload.to_vec());
    cipher.decrypt_ipv4(&mut p).unwrap();
    assert!(!p.is_encrypt());
    assert_eq!(p.payload(), payload.to_vec());
    assert_eq!(p.source(), vec![192, 168, 1, 10]);
    assert_eq!(p.destination(), vec![192, 168, 1, 20]);
    assert_eq!(p.protocol(), 4);
    assert_eq!(p.transport_protocol(), 17);
    assert_eq!(p.source_ttl(), 32);
    assert!(p.is_gateway());
}

#[test]
fn round_trip_128_plain() {
    let cipher = AesEcbCipher::new_128([1u8; 16], None);
    for len in 1..=64usize {
        let payload: Vec<u8> = (0..len).map(|i| (i * 7 + 3) as u8).collect();
        rt_check(&cipher, &payload);
    }
}

#[test]
fn round_trip_256_plain() {
    let cipher = AesEcbCipher::new_256([2u8; 32], None);
    for len in 1..=64usize {
        let payload: Vec<u8> = (0..len).map(|i| (i * 13 + 1) as u8).collect();
        rt_check(&cipher, &payload);
    }
}

#[test]
fn round_trip_128_finger() {
    let finger = Finger::new(&b"shared token".to_vec());
    let cipher = AesEcbCipher::new_128([3u8; 16], Some(finger));
    for len in 1..=64usize {
        let payload: Vec<u8> = (0..len).map(|i| (i * 11 + 5) as u8).collect();
        rt_check(&cipher, &payload);
    }
}

#[test]
fn round_trip_256_finger() {
    let finger = Finger::new(&b"another token".to_vec());
    let cipher = AesEcbCipher::new_256([4u8; 32], Some(finger));
    for len in 1..=64usize {
        let payload: Vec<u8> = (0..len).map(|i| (i * 3 + 9) as u8).collect();
        rt_check(&cipher, &payload);
    }
}

#[test]
fn hello_scenario() {
    let cipher = AesEcbCipher::new_128([0x42u8; 16], None);
    let mut p = NetPacket::new(vec![0u8; 128]).unwrap();
    p.set_source(&vec![10, 0, 0, 1]);
    p.set_destination(&vec![10, 0, 0, 2]);
    p.set_protocol(6);
    p.set_transport_protocol(1);
    p.set_gateway_flag(false);
    p.set_source_ttl(64);
    p.set_payload(&b"hello".to_vec()).unwrap();
    cipher.encrypt_ipv4(&mut p).unwrap();
    // 5 payload bytes + 4 nonce bytes + 7 padding bytes round up to one block
    assert_eq!(p.payload().len(), 16);
    assert!(p.is_encrypt());
    cipher.decrypt_ipv4(&mut p).unwrap();
    assert_eq!(p.payload(), b"hello".to_vec());
    assert!(!p.is_encrypt());
}

#[test]
fn encrypted_lengths_with_finger() {
    let finger = Finger::new(&b"t".to_vec());
    let cipher = AesEcbCipher::new_128([5u8; 16], Some(finger));
    let mut p = rt_packet(256, b"hello");
    cipher.encrypt_ipv4(&mut p).unwrap();
    // one 16-byte block plus the 12-byte tag
    assert_eq!(p.payload().len(), 28);
    // exact multiples still gain a whole padding block: 12 + 4 -> 32
    let mut q = rt_packet(256, &[9u8; 12]);
    cipher.encrypt_ipv4(&mut q).unwrap();
    assert_eq!(q.payload().len(), 32 + 12);
}
