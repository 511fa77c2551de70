use silmarils::field::FieldElement;
use silmarils::signature::{
    compute_receipt, demo_channel_key, derive_private_key, derive_public_key, forge_signature,
    sign, sign_from_draws, sign_with_randomness, verify_designated, verify_unauthenticated, verify_with_receipt,
    ChannelKey, Signature,
};

const TEST_CHANNEL_KEY: ChannelKey = [0xABu8; 32];

fn fe(v: u64) -> FieldElement {
    FieldElement::from_u64(v)
}

#[test]
fn test_derive_private_key_deterministic() {
    let seed = "test-seed-123";
    let key1 = derive_private_key(seed);
    let key2 = derive_private_key(seed);

    assert_eq!(key1, key2, "Private key should be deterministic");
}

#[test]
fn test_derive_private_key_different_seeds() {
    let key1 = derive_private_key("seed1");
    let key2 = derive_private_key("seed2");

    assert_ne!(key1, key2, "Different seeds should produce different k");
}

#[test]
fn test_derive_private_key_hex_seed() {
    let hex_seed = "0x1234567890abcdef";
    let key = derive_private_key(hex_seed);

    assert_ne!(key, FieldElement::zero());
}

#[test]
fn test_derive_public_key_deterministic() {
    let private_key = derive_private_key("test-seed");
    let public_key1 = derive_public_key(&private_key);
    let public_key2 = derive_public_key(&private_key);

    assert_eq!(public_key1, public_key2, "Public key should be deterministic");
}

#[test]
fn test_derive_public_key_different_private_keys() {
    let key1 = derive_private_key("seed1");
    let key2 = derive_private_key("seed2");

    let pub1 = derive_public_key(&key1);
    let pub2 = derive_public_key(&key2);

    assert_ne!(pub1, pub2, "Different private keys should produce different public keys");
}

#[test]
fn test_sign_different_messages() {
    let private_key = derive_private_key("test-seed");
    let message1 = b"message 1";
    let message2 = b"message 2";

    let sig1 = sign(message1, &private_key, &TEST_CHANNEL_KEY).unwrap();
    let sig2 = sign(message2, &private_key, &TEST_CHANNEL_KEY).unwrap();

    assert_ne!(
        sig1.sigma_1, sig2.sigma_1,
        "Different messages should produce different signatures"
    );
}

#[test]
fn test_sign_different_keys() {
    let key1 = derive_private_key("seed1");
    let key2 = derive_private_key("seed2");
    let message = b"same message";

    let sig1 = sign(message, &key1, &TEST_CHANNEL_KEY).unwrap();
    let sig2 = sign(message, &key2, &TEST_CHANNEL_KEY).unwrap();

    assert_ne!(
        sig1.sigma_1, sig2.sigma_1,
        "Different keys should produce different signatures"
    );
}

#[test]
fn test_verify_designated_valid_signature() {
    let private_key = derive_private_key("test-seed");
    let public_key = derive_public_key(&private_key);
    let message = b"test message";

    let signature = sign(message, &private_key, &TEST_CHANNEL_KEY).unwrap();
    assert!(
        verify_designated(message, &signature, &public_key, &TEST_CHANNEL_KEY),
        "Valid signature should pass designated verification"
    );
}

#[test]
fn test_verify_with_receipt_valid() {
    let private_key = derive_private_key("test-seed");
    let public_key = derive_public_key(&private_key);
    let message = b"test message";

    let signature = sign(message, &private_key, &TEST_CHANNEL_KEY).unwrap();
    let receipt = compute_receipt(message, &TEST_CHANNEL_KEY);
    assert!(
        verify_with_receipt(&signature, &public_key, receipt),
        "Valid signature should pass receipt-based verification"
    );
}

#[test]
fn test_verify_wrong_message() {
    let private_key = derive_private_key("test-seed");
    let public_key = derive_public_key(&private_key);
    let message = b"original message";
    let wrong_message = b"wrong message";

    let signature = sign(message, &private_key, &TEST_CHANNEL_KEY).unwrap();
    assert!(
        !verify_designated(wrong_message, &signature, &public_key, &TEST_CHANNEL_KEY),
        "Signature for wrong message should be rejected"
    );
}

#[test]
fn test_verify_wrong_public_key() {
    let private_key1 = derive_private_key("seed1");
    let private_key2 = derive_private_key("seed2");
    let public_key2 = derive_public_key(&private_key2);
    let message = b"test message";

    let signature = sign(message, &private_key1, &TEST_CHANNEL_KEY).unwrap();
    assert!(
        !verify_designated(message, &signature, &public_key2, &TEST_CHANNEL_KEY),
        "Signature with wrong public key should be rejected"
    );
}

#[test]
fn test_verify_wrong_channel_key() {
    let private_key = derive_private_key("test-seed");
    let public_key = derive_public_key(&private_key);
    let message = b"test message";
    let wrong_key: ChannelKey = [0xCDu8; 32];

    let signature = sign(message, &private_key, &TEST_CHANNEL_KEY).unwrap();
    assert!(
        !verify_designated(message, &signature, &public_key, &wrong_key),
        "Signature with wrong channel key should be rejected"
    );
}

#[test]
fn test_verify_tampered_signature() {
    let private_key = derive_private_key("test-seed");
    let public_key = derive_public_key(&private_key);
    let message = b"test message";

    let mut signature = sign(message, &private_key, &TEST_CHANNEL_KEY).unwrap();
    signature.sigma_1 = signature.sigma_1.add(&fe(1));

    assert!(
        !verify_designated(message, &signature, &public_key, &TEST_CHANNEL_KEY),
        "Tampered signature should be rejected"
    );
}

#[test]
fn test_verify_empty_message() {
    let private_key = derive_private_key("test-seed");
    let public_key = derive_public_key(&private_key);
    let message = b"";

    let signature = sign(message, &private_key, &TEST_CHANNEL_KEY).unwrap();
    assert!(
        verify_designated(message, &signature, &public_key, &TEST_CHANNEL_KEY),
        "Empty message should verify correctly"
    );
}

#[test]
fn test_verify_long_message() {
    let private_key = derive_private_key("test-seed");
    let public_key = derive_public_key(&private_key);
    let message: &[u8] = b"This is a very long message that tests if the signature scheme \
works with longer messages. It should still work correctly.";

    let signature = sign(message, &private_key, &TEST_CHANNEL_KEY).unwrap();
    assert!(
        verify_designated(message, &signature, &public_key, &TEST_CHANNEL_KEY),
        "Long message should verify correctly"
    );
}

#[test]
fn test_sign_verify_roundtrip() {
    let private_key = derive_private_key("test-seed");
    let public_key = derive_public_key(&private_key);
    let messages: Vec<&[u8]> = vec![b"message 1", b"message 2", b"another message", b""];

    for message in messages {
        let signature = sign(message, &private_key, &TEST_CHANNEL_KEY).unwrap();
        assert!(
            verify_designated(message, &signature, &public_key, &TEST_CHANNEL_KEY),
            "Roundtrip sign/verify should work for message: {:?}",
            message
        );
        let receipt = compute_receipt(message, &TEST_CHANNEL_KEY);
        assert!(
            verify_with_receipt(&signature, &public_key, receipt),
            "Roundtrip sign/verify_with_receipt should work for message: {:?}",
            message
        );
    }
}

#[test]
fn test_receipt_not_transferable_to_other_messages() {
    let private_key = derive_private_key("test-seed");
    let public_key = derive_public_key(&private_key);
    let message_a = b"message A";
    let message_b = b"message B";

    let receipt_a = compute_receipt(message_a, &TEST_CHANNEL_KEY);
    let signature_b = sign(message_b, &private_key, &TEST_CHANNEL_KEY).unwrap();

    assert!(
        !verify_with_receipt(&signature_b, &public_key, receipt_a),
        "Receipt for message A must not verify signature on message B"
    );
}

#[test]
fn test_algebraic_forgery_succeeds_unauthenticated() {
    let private_key = derive_private_key("attack-test-seed");
    let public_key = derive_public_key(&private_key);
    let original_message = b"original message";
    let forged_message = b"forged message";

    let original_signature = sign(original_message, &private_key, &TEST_CHANNEL_KEY).unwrap();

    let forged_signature =
        forge_signature(original_message, &original_signature, forged_message, &public_key);

    // Unauthenticated verification uses r = H(M') -- the forgery succeeds
    assert!(
        verify_unauthenticated(forged_message, &forged_signature, &public_key),
        "Forgery should succeed against unauthenticated verification"
    );

    // Designated verification uses r = H(M', HMAC_k(M')) -- the forgery fails
    assert!(
        !verify_designated(forged_message, &forged_signature, &public_key, &TEST_CHANNEL_KEY),
        "Forgery should be rejected by designated verifier"
    );
}

#[test]
fn test_sigma4_zero_attack_prevented() {
    // Setting sigma_4 = 0 removes r from the verification equation; verification rejects it.
    let private_key = derive_private_key("attack-test-seed");
    let public_key = derive_public_key(&private_key);
    let message = b"any message";

    // Arbitrary sigma_1, sigma_2, sigma_3 with sigma_4 = 0.
    // The verification equation reduces to: sigma_1 sigma_2 + sigma_3 - 2 sigma_5 = 0
    let sigma_1 = fe(7);
    let sigma_2 = fe(11);
    let sigma_3 = fe(13);
    let sigma_4 = FieldElement::zero();
    let sigma_5 = sigma_1.mul(&sigma_2).add(&sigma_3).div(&fe(2));

    let forged = Signature { sigma_1, sigma_2, sigma_3, sigma_4, sigma_5 };

    assert!(
        !verify_designated(message, &forged, &public_key, &TEST_CHANNEL_KEY),
        "σ₄ = 0 forgery should be rejected"
    );

    let receipt = compute_receipt(message, &TEST_CHANNEL_KEY);
    assert!(
        !verify_with_receipt(&forged, &public_key, receipt),
        "σ₄ = 0 forgery should also be rejected via receipt verification"
    );
}

// ----- further scenarios -----

#[test]
fn demo_channel_key_is_sha256_of_prefixed_seed() {
    assert_eq!(
        demo_channel_key("abc").to_vec(),
        hex::decode("424de20dffb8f8b65f776999b483eabf843b53518f0e3003ee9fde6847b0403e").unwrap()
    );
}

#[test]
fn compute_receipt_known_value() {
    let receipt = compute_receipt(b"test message", &TEST_CHANNEL_KEY);
    assert_eq!(
        receipt.to_bytes_be(),
        hex::decode("5ff29548a609c9209b4326cfd09c1f11eb2549b248e1386f1a1a863117f118c6").unwrap()
    );
}

#[test]
fn derive_public_key_known_value() {
    let public_key = derive_public_key(&fe(7));
    assert_eq!(
        public_key.w0.to_bytes_be(),
        hex::decode("9de6747225fe854c0154d9cbdc90f2733066c37b33a69362abdc6d629db7feac").unwrap()
    );
    assert_eq!(
        public_key.w1.to_bytes_be(),
        hex::decode("3f690f344b119c205f4ad23d3ad20f59ed50da11cc636980326cf9ec4575f3ed").unwrap()
    );
}

#[test]
fn hex_seed_stands_for_its_bytes() {
    // "0x616263" writes the bytes of "abc"; mixed case digits are accepted
    assert_eq!(derive_private_key("0x616263"), derive_private_key("abc"));
    assert_eq!(derive_private_key("0x6A6b"), derive_private_key("jk"));
    // not hexadecimal: the seed's own bytes "0xzz" = 30 78 7a 7a
    assert_eq!(derive_private_key("0xzz"), derive_private_key("0x30787a7a"));
    // odd number of digits: the seed's own bytes "0x123" = 30 78 31 32 33
    assert_eq!(derive_private_key("0x123"), derive_private_key("0x3078313233"));
    assert_ne!(derive_private_key("0x616263"), derive_private_key("0x616264"));
}

#[test]
fn seed_is_truncated_to_32_bytes() {
    let base = "0123456789abcdef0123456789abcdef";
    assert_eq!(derive_private_key(base), derive_private_key("0123456789abcdef0123456789abcdefXYZ"));
    assert_ne!(derive_private_key(base), derive_private_key("0123456789abcdef0123456789abcdeX"));
}

#[test]
fn seed_is_zero_padded() {
    // the short seed "ab" is padded with zeros, as is "0x6162" decoded, and "0x616200"
    assert_eq!(derive_private_key("ab"), derive_private_key("0x6162"));
    assert_eq!(derive_private_key("ab"), derive_private_key("0x616200"));
}

#[test]
fn sign_with_fixed_randomness_is_deterministic_and_verifies() {
    let private_key = derive_private_key("test-seed");
    let public_key = derive_public_key(&private_key);
    let message = b"fixed randomness";
    let key = &TEST_CHANNEL_KEY;
    let s1 = sign_with_randomness(message, &private_key, key, fe(3), fe(5), fe(7), fe(11), fe(13));
    let s2 = sign_with_randomness(message, &private_key, key, fe(3), fe(5), fe(7), fe(11), fe(13));
    assert_eq!(s1.sigma_1, s2.sigma_1);
    assert_eq!(s1.sigma_5, s2.sigma_5);
    assert!(verify_designated(message, &s1, &public_key, &TEST_CHANNEL_KEY));
    let receipt = compute_receipt(message, &TEST_CHANNEL_KEY);
    assert!(verify_with_receipt(&s1, &public_key, receipt));
    assert!(!verify_designated(b"other", &s1, &public_key, &TEST_CHANNEL_KEY));
}

#[test]
fn signature_with_zero_d_is_rejected() {
    // d = 0 makes sigma_4 zero, which verification rejects
    let private_key = derive_private_key("test-seed");
    let public_key = derive_public_key(&private_key);
    let message = b"zero d";
    let key = &TEST_CHANNEL_KEY;
    let s = sign_with_randomness(message, &private_key, key, fe(3), fe(5), fe(7), fe(0), fe(13));
    assert!(s.sigma_4.is_zero());
    assert!(!verify_designated(message, &s, &public_key, &TEST_CHANNEL_KEY));
}

#[test]
fn forgery_of_any_signature_passes_unauthenticated_check() {
    let public_key = derive_public_key(&fe(99));
    let start =
        Signature { sigma_1: fe(1), sigma_2: fe(2), sigma_3: fe(3), sigma_4: fe(4), sigma_5: fe(5) };
    let forged = forge_signature(b"anything", &start, b"forged message", &public_key);
    assert_eq!(forged.sigma_1, fe(2));
    assert_eq!(forged.sigma_2, fe(4));
    assert_eq!(forged.sigma_3, fe(6));
    assert_eq!(forged.sigma_4, fe(8));
    assert!(verify_unauthenticated(b"forged message", &forged, &public_key));
    assert!(!verify_unauthenticated(b"another message", &forged, &public_key));
}

#[test]
fn draws_with_zero_divisor_give_no_signature() {
    let private_key = derive_private_key("test-seed");
    let message = b"zero draws";
    let key = &TEST_CHANNEL_KEY;
    assert!(sign_from_draws(message, &private_key, key, fe(3), fe(5), fe(0), fe(11), fe(13)).is_none());
    assert!(sign_from_draws(message, &private_key, key, fe(0), fe(5), fe(7), fe(11), fe(13)).is_none());
    assert!(sign_from_draws(message, &private_key, key, fe(3), fe(0), fe(7), fe(11), fe(13)).is_none());
}

#[test]
fn draws_with_nonzero_divisors_sign() {
    let private_key = derive_private_key("test-seed");
    let public_key = derive_public_key(&private_key);
    let message = b"nonzero draws";
    let key = &TEST_CHANNEL_KEY;
    let s = sign_from_draws(message, &private_key, key, fe(3), fe(5), fe(7), fe(11), fe(13)).unwrap();
    let expected = sign_with_randomness(message, &private_key, key, fe(3), fe(5), fe(7), fe(11), fe(13));
    assert_eq!(s.sigma_1, expected.sigma_1);
    assert_eq!(s.sigma_2, expected.sigma_2);
    assert_eq!(s.sigma_3, expected.sigma_3);
    assert_eq!(s.sigma_4, expected.sigma_4);
    assert_eq!(s.sigma_5, expected.sigma_5);
    assert!(verify_designated(message, &s, &public_key, key));
}

#[test]
fn tampering_sigma_3_or_sigma_5_is_rejected() {
    let private_key = derive_private_key("test-seed");
    let public_key = derive_public_key(&private_key);
    let message = b"tamper";
    let key = &TEST_CHANNEL_KEY;
    let s = sign_with_randomness(message, &private_key, key, fe(3), fe(5), fe(7), fe(11), fe(13));
    let receipt = compute_receipt(message, key);
    assert!(verify_with_receipt(&s, &public_key, receipt));
    let mut t3 = s;
    t3.sigma_3 = t3.sigma_3.add(&fe(5));
    assert!(!verify_with_receipt(&t3, &public_key, receipt));
    let mut t5 = s;
    t5.sigma_5 = t5.sigma_5.add(&fe(5));
    assert!(!verify_with_receipt(&t5, &public_key, receipt));
}

#[test]
fn receipt_of_another_message_does_not_verify() {
    let private_key = derive_private_key("test-seed");
    let public_key = derive_public_key(&private_key);
    let key = &TEST_CHANNEL_KEY;
    let s = sign_with_randomness(b"first", &private_key, key, fe(3), fe(5), fe(7), fe(11), fe(13));
    assert!(verify_with_receipt(&s, &public_key, compute_receipt(b"first", key)));
    assert!(!verify_with_receipt(&s, &public_key, compute_receipt(b"second", key)));
    assert!(!verify_with_receipt(&s, &public_key, compute_receipt(b"first", &[0x11u8; 32])));
}
