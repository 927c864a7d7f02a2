use mosh_client::crypto::{
    make_nonce, nonce_to_wire, parse_nonce, wire_to_nonce, Base64Key, CryptoError, Direction,
    Session,
};

#[test]
fn test_nonce_roundtrip() {
    let nonce = make_nonce(Direction::ToClient, 42);
    let wire = nonce_to_wire(&nonce);
    let (dir, seq) = parse_nonce(&wire);
    assert_eq!(dir, Direction::ToClient);
    assert_eq!(seq, 42);
}

#[test]
fn test_nonce_direction_encoding() {
    let nonce_server = make_nonce(Direction::ToServer, 1);
    let wire_server = nonce_to_wire(&nonce_server);
    let (dir, seq) = parse_nonce(&wire_server);
    assert_eq!(dir, Direction::ToServer);
    assert_eq!(seq, 1);

    let nonce_client = make_nonce(Direction::ToClient, 1);
    let wire_client = nonce_to_wire(&nonce_client);
    let (dir, seq) = parse_nonce(&wire_client);
    assert_eq!(dir, Direction::ToClient);
    assert_eq!(seq, 1);

    // They should differ in the high bit
    assert_ne!(wire_server, wire_client);
}

#[test]
fn test_encrypt_decrypt_roundtrip() {
    let key = Base64Key::from_octets(&[0u8; 16]);
    let session = Session::new(&key).unwrap();

    let plaintext = b"Hello, Mosh!";
    let nonce = make_nonce(Direction::ToServer, 1);

    let encrypted = session.encrypt(&nonce, plaintext).unwrap();
    let (dec_nonce, decrypted) = session.decrypt(&encrypted).unwrap();

    assert_eq!(nonce, dec_nonce);
    assert_eq!(decrypted, plaintext);
}

#[test]
fn test_base64_key_parse() {
    // "AAAAAAAAAAAAAAAAAAAAAA" is 16 zero bytes in base64
    let key = Base64Key::from_str("AAAAAAAAAAAAAAAAAAAAAA").unwrap();
    assert_eq!(key.as_bytes(), &[0u8; 16]);
}

#[test]
fn test_tampered_datagram_fails() {
    let key = Base64Key::from_octets(&[0u8; 16]);
    let session = Session::new(&key).unwrap();

    let nonce = make_nonce(Direction::ToServer, 1);
    let mut encrypted = session.encrypt(&nonce, b"test").unwrap();

    // Tamper with the ciphertext
    if let Some(byte) = encrypted.last_mut() {
        *byte ^= 0xFF;
    }

    assert!(session.decrypt(&encrypted).is_err());
}

#[test]
fn nonce_wire_bytes_carry_direction_and_sequence() {
    let to_client = nonce_to_wire(&make_nonce(Direction::ToClient, 42));
    assert_eq!(to_client, [0x80, 0, 0, 0, 0, 0, 0, 0x2A]);
    let to_server = nonce_to_wire(&make_nonce(Direction::ToServer, 1));
    assert_eq!(to_server, [0, 0, 0, 0, 0, 0, 0, 1]);
}

#[test]
fn nonce_starts_with_four_zero_octets() {
    let nonce = make_nonce(Direction::ToClient, 0x0102_0304_0506_0708);
    assert_eq!(nonce, [0, 0, 0, 0, 0x81, 2, 3, 4, 5, 6, 7, 8]);
    assert_eq!(wire_to_nonce(&nonce_to_wire(&nonce)), nonce);
}

#[test]
fn sequence_number_is_reduced_to_63_bits() {
    let wire = nonce_to_wire(&make_nonce(Direction::ToServer, u64::MAX));
    assert_eq!(parse_nonce(&wire), (Direction::ToServer, 0x7FFF_FFFF_FFFF_FFFF));
}

#[test]
fn key_of_wrong_length_is_refused() {
    assert_eq!(Base64Key::from_str("AAAA").err(), Some(CryptoError::KeyLength));
    assert_eq!(
        Base64Key::from_str("AAAAAAAAAAAAAAAAAAAAAAA").err(),
        Some(CryptoError::KeyLength)
    );
}

#[test]
fn key_that_is_not_base64_is_refused() {
    assert_eq!(
        Base64Key::from_str("!!!!!!!!!!!!!!!!!!!!!!").err(),
        Some(CryptoError::KeyEncoding)
    );
}

#[test]
fn key_decodes_to_its_octets() {
    // 16 octets 0x00..0x0f in base64, without padding.
    let key = Base64Key::from_str("AAECAwQFBgcICQoLDA0ODw").unwrap();
    let want: Vec<u8> = (0u8..16).collect();
    assert_eq!(key.as_bytes().to_vec(), want);
}

#[test]
fn short_datagram_is_too_short() {
    let key = Base64Key::from_octets(&[7u8; 16]);
    let session = Session::new(&key).unwrap();
    assert_eq!(session.decrypt(&[0u8; 23]).err(), Some(CryptoError::TooShort));
    assert_eq!(session.decrypt(&[]).err(), Some(CryptoError::TooShort));
}

#[test]
fn forged_datagram_fails_integrity() {
    let key = Base64Key::from_octets(&[7u8; 16]);
    let session = Session::new(&key).unwrap();
    assert_eq!(session.decrypt(&[0u8; 24]).err(), Some(CryptoError::Integrity));
}

#[test]
fn datagram_is_wire_nonce_then_ciphertext_and_tag() {
    let key = Base64Key::from_octets(&[1u8; 16]);
    let session = Session::new(&key).unwrap();
    let nonce = make_nonce(Direction::ToClient, 5);
    let plaintext = b"abc";
    let datagram = session.encrypt(&nonce, plaintext).unwrap();
    assert_eq!(datagram.len(), 8 + 3 + 16);
    assert_eq!(&datagram[..8], &nonce_to_wire(&nonce));
    assert_ne!(&datagram[8..11], plaintext);
}

#[test]
fn empty_message_round_trips() {
    let key = Base64Key::from_octets(&[9u8; 16]);
    let session = Session::new(&key).unwrap();
    let nonce = make_nonce(Direction::ToServer, 0);
    let datagram = session.encrypt(&nonce, &[]).unwrap();
    assert_eq!(datagram.len(), 24);
    let (n, p) = session.decrypt(&datagram).unwrap();
    assert_eq!(n, nonce);
    assert!(p.is_empty());
}

#[test]
fn datagram_of_another_key_fails() {
    let a = Session::new(&Base64Key::from_octets(&[1u8; 16])).unwrap();
    let b = Session::new(&Base64Key::from_octets(&[2u8; 16])).unwrap();
    let datagram = a.encrypt(&make_nonce(Direction::ToServer, 3), b"secret").unwrap();
    assert_eq!(b.decrypt(&datagram).err(), Some(CryptoError::Integrity));
}

#[test]
fn tampering_with_any_octet_fails() {
    let session = Session::new(&Base64Key::from_octets(&[3u8; 16])).unwrap();
    let datagram = session.encrypt(&make_nonce(Direction::ToServer, 9), b"payload").unwrap();
    for i in 0..datagram.len() {
        let mut bad = datagram.clone();
        bad[i] ^= 0x01;
        assert!(session.decrypt(&bad).is_err());
    }
}

#[test]
fn known_answer_of_the_cipher() {
    // RFC 7253, appendix A: key 000102..0F, nonce BBAA99887766554433221100,
    // empty plaintext and associated data.
    let key: Vec<u8> = (0u8..16).collect();
    let session = Session::new(&Base64Key::from_octets(&key)).unwrap();
    let nonce: [u8; 12] = [
        0xBB, 0xAA, 0x99, 0x88, 0x77, 0x66, 0x55, 0x44, 0x33, 0x22, 0x11, 0x00,
    ];
    let datagram = session.encrypt(&nonce, &[]).unwrap();
    let tag: [u8; 16] = [
        0x78, 0x54, 0x07, 0xBF, 0xFF, 0xC8, 0xAD, 0x9E, 0xDC, 0xC5, 0x52, 0x0A, 0xC9, 0x11, 0x1E,
        0xE6,
    ];
    assert_eq!(&datagram[..8], &nonce[4..]);
    assert_eq!(&datagram[8..], &tag);
}

#[test]
fn longest_message_is_one_octet_below_the_table_of_the_cipher() {
    assert!(mosh_client::crypto::within_cipher_limit(0));
    assert!(mosh_client::crypto::within_cipher_limit(65_535));
    if usize::BITS == 64 {
        assert!(mosh_client::crypto::within_cipher_limit(0xF_FFFF_FFFF));
        assert!(!mosh_client::crypto::within_cipher_limit(0x10_0000_0000));
    } else {
        assert!(mosh_client::crypto::within_cipher_limit(0xF_FFFF));
        assert!(!mosh_client::crypto::within_cipher_limit(0x10_0000));
    }
    assert!(!mosh_client::crypto::within_cipher_limit(usize::MAX));
}
