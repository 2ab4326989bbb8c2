use securerx::crypto::{generate_keypair, sign_message, verify_strict, well_shaped, Keypair};

const SECRET: [u8; 32] = [
    157, 97, 177, 157, 239, 253, 90, 96, 186, 132, 74, 244, 146, 236, 44, 196, 68, 73, 197, 105,
    123, 50, 105, 25, 112, 59, 172, 3, 28, 174, 127, 96,
];

const PUBLIC: [u8; 32] = [
    215, 90, 152, 1, 130, 177, 10, 183, 213, 75, 254, 211, 201, 100, 7, 58, 14, 225, 114, 243, 218,
    166, 35, 37, 175, 2, 26, 104, 247, 7, 81, 26,
];

const SIGNATURE_OF_EMPTY: [u8; 64] = [
    0xe5, 0x56, 0x43, 0x00, 0xc3, 0x60, 0xac, 0x72, 0x90, 0x86, 0xe2, 0xcc, 0x80, 0x6e, 0x82, 0x8a,
    0x84, 0x87, 0x7f, 0x1e, 0xb8, 0xe5, 0xd9, 0x74, 0xd8, 0x73, 0xe0, 0x65, 0x22, 0x49, 0x01, 0x55,
    0x5f, 0xb8, 0x82, 0x15, 0x90, 0xa3, 0x3b, 0xac, 0xc6, 0x1e, 0x39, 0x70, 0x1c, 0xf9, 0xb4, 0x6b,
    0xd2, 0x5b, 0xf5, 0xf0, 0x59, 0x5b, 0xbe, 0x24, 0x65, 0x51, 0x41, 0x43, 0x8e, 0x7a, 0x10, 0x0b,
];

#[test]
fn test_keypair_generation() {
    let keypair = generate_keypair();
    // Verify keypair has valid public key
    let _pubkey = keypair.public_key();
    assert_eq!(keypair.public_key().len(), 32);
}

#[test]
fn test_unique_keypairs() {
    let keypair1 = generate_keypair();
    let keypair2 = generate_keypair();
    assert_ne!(
        keypair1.public_key(),
        keypair2.public_key(),
        "Generated keypairs should be unique"
    );
}

#[test]
fn test_sign_and_verify() {
    let keypair = generate_keypair();
    let message = b"Test prescription data";
    let signature = sign_message(&keypair, message);

    // Verify signature
    assert!(
        verify_strict(&keypair.public_key(), message, &signature),
        "Signature should verify"
    );
}

#[test]
fn test_sign_different_messages() {
    let keypair = generate_keypair();
    let message1 = b"Message 1";
    let message2 = b"Message 2";
    let sig1 = sign_message(&keypair, message1);
    let sig2 = sign_message(&keypair, message2);

    assert_ne!(sig1, sig2, "Different messages should have different signatures");
}

#[test]
fn keypair_keeps_its_secret_bytes() {
    let keypair = Keypair::from_bytes(SECRET);
    assert_eq!(keypair.to_bytes(), SECRET);
}

#[test]
fn public_key_is_derived_from_the_secret() {
    let keypair = Keypair::from_bytes(SECRET);
    assert_eq!(keypair.public_key(), PUBLIC);
    assert_ne!(keypair.public_key(), SECRET);
}

#[test]
fn signature_matches_the_known_vector() {
    let keypair = Keypair::from_bytes(SECRET);
    assert_eq!(sign_message(&keypair, b""), SIGNATURE_OF_EMPTY);
    assert_eq!(keypair.sign(b""), SIGNATURE_OF_EMPTY);
    assert_ne!(keypair.sign(b"x"), SIGNATURE_OF_EMPTY);
}

#[test]
fn signing_is_deterministic() {
    let keypair = generate_keypair();
    assert_eq!(sign_message(&keypair, b"Aspirin"), sign_message(&keypair, b"Aspirin"));
}

#[test]
fn known_signature_verifies() {
    assert!(verify_strict(&PUBLIC, b"", &SIGNATURE_OF_EMPTY));
    assert!(!verify_strict(&PUBLIC, b"x", &SIGNATURE_OF_EMPTY));
}

#[test]
fn verification_tells_inputs_apart() {
    let keypair = generate_keypair();
    let other = generate_keypair();
    let signature = sign_message(&keypair, b"Aspirin");
    assert!(verify_strict(&keypair.public_key(), b"Aspirin", &signature));
    assert!(!verify_strict(&other.public_key(), b"Aspirin", &signature));
    assert!(!verify_strict(&keypair.public_key(), b"Ibuprofen", &signature));
    assert!(!verify_strict(&keypair.public_key(), b"Aspirin", &sign_message(&other, b"Aspirin")));
}

#[test]
fn wrong_lengths_are_rejected_by_shape() {
    assert!(well_shaped(&PUBLIC, &SIGNATURE_OF_EMPTY));
    assert!(!well_shaped(&PUBLIC[..31], &SIGNATURE_OF_EMPTY));
    assert!(!well_shaped(&PUBLIC, &SIGNATURE_OF_EMPTY[..63]));
    assert!(!well_shaped(&[], &[]));

    assert!(!verify_strict(&PUBLIC[..31], b"", &SIGNATURE_OF_EMPTY));
    assert!(!verify_strict(&PUBLIC, b"", &SIGNATURE_OF_EMPTY[..63]));
    assert!(!verify_strict(&[], b"", &[]));
    let mut long_key = PUBLIC.to_vec();
    long_key.push(0);
    assert!(!verify_strict(&long_key, b"", &SIGNATURE_OF_EMPTY));
    let mut long_signature = SIGNATURE_OF_EMPTY.to_vec();
    long_signature.push(0);
    assert!(!verify_strict(&PUBLIC, b"", &long_signature));
}

#[test]
fn key_that_is_no_curve_point_is_rejected() {
    // y = 2 is not the y-coordinate of any point of the curve.
    let mut key = [0u8; 32];
    key[0] = 2;
    assert!(!verify_strict(&key, b"", &SIGNATURE_OF_EMPTY));
}

#[test]
fn every_single_bit_flip_in_the_signature_is_rejected() {
    let keypair = generate_keypair();
    let public_key = keypair.public_key();
    let signature = sign_message(&keypair, b"Aspirin");
    assert!(verify_strict(&public_key, b"Aspirin", &signature));
    for bit in 0..512 {
        let mut forged = signature;
        forged[bit / 8] ^= 1 << (bit % 8);
        assert!(!verify_strict(&public_key, b"Aspirin", &forged), "bit {}", bit);
    }
}

#[test]
fn every_single_bit_flip_in_the_public_key_is_rejected() {
    let keypair = generate_keypair();
    let public_key = keypair.public_key();
    let signature = sign_message(&keypair, b"Aspirin");
    for bit in 0..256 {
        let mut forged = public_key;
        forged[bit / 8] ^= 1 << (bit % 8);
        assert!(!verify_strict(&forged, b"Aspirin", &signature), "bit {}", bit);
    }
}
