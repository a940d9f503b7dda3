use autonoetic_gateway::crypto::{
    check_private_mode, verify_attestation_signature, GatewayIdentityKey, ManifestSigner,
    ManifestVerifier, SignatureError,
};
use autonoetic_gateway::digest::{hash_and_truncate, hmac_sign, hmac_verify};

fn bytes_of(text: &str) -> Vec<u8> {
    hex::decode(text).unwrap()
}

#[test]
fn test_sign_and_verify() {
    let secret = [1u8; 32];
    let signer = ManifestSigner::new(&secret);

    let content = "The quick brown fox jumps over the lazy agent.";
    let sig_b64 = signer.sign(content);

    let public_bytes = GatewayIdentityKey { secret }.public_key_bytes();

    assert!(ManifestVerifier::verify(&public_bytes, content, &sig_b64).unwrap());

    let tampered_content = "The quick brown fox jumps over the evil agent.";
    assert!(!ManifestVerifier::verify(&public_bytes, tampered_content, &sig_b64).unwrap());
}

#[test]
fn gateway_identity_key_round_trip_load() {
    let k1 = GatewayIdentityKey::generate();
    let fp1 = k1.fingerprint();
    let stored = k1.secret.to_vec();
    let k2 = GatewayIdentityKey::from_file_bytes(&stored, "key").unwrap();
    assert_eq!(k2.fingerprint(), fp1);
}

#[test]
fn gateway_identity_key_autogenerates_on_first_start() {
    let key = GatewayIdentityKey::generate();
    assert_eq!(key.public_key_bytes().len(), 32);
    assert_eq!(key.fingerprint().len(), 16);
}

#[test]
fn gateway_identity_key_rejects_loose_permissions() {
    assert_eq!(check_private_mode(0o100600, "key"), Ok(()));
    let err = check_private_mode(0o100644, "key").expect_err("loose perms must fail");
    assert!(err.contains("overly permissive"), "{}", err);
    assert_eq!(
        err,
        "Gateway identity key key has overly permissive mode 644; expected 0o600. Tighten with `chmod 600 key` and restart, or delete the file to regenerate."
    );
}

#[test]
fn signature_round_trip_via_verify_helper() {
    let key = GatewayIdentityKey::generate();
    let payload = b"{\"agent_id\":\"a\",\"turn\":3}";
    let sig = key.sign(payload);
    let pub_bytes = key.public_key_bytes();
    assert!(verify_attestation_signature(&pub_bytes, payload, &sig).unwrap());
    assert!(
        !verify_attestation_signature(&pub_bytes, b"{\"agent_id\":\"b\",\"turn\":3}", &sig)
            .unwrap()
    );
}

#[test]
fn keys_and_signatures_are_those_of_ed25519() {
    let secret = bytes_of("9d61b19deffd5a60ba844af492ec2cc44449c5697b326919703bac031cae7f60");
    let key = GatewayIdentityKey::from_file_bytes(&secret, "key").unwrap();
    assert_eq!(
        key.public_key_bytes().to_vec(),
        bytes_of("d75a980182b10ab7d54bfed3c964073a0ee172f3daa62325af021a68f707511a")
    );
    assert_eq!(key.fingerprint(), "d75a980182b10ab7");
    assert_eq!(
        key.sign(b""),
        "5VZDAMNgrHKQhuLMgG6CioSHfx645dl02HPgZSJJAVVfuIIVkKM7rMYeOXAc+bRr0lv18FlbviRlUUFDjnoQCw=="
    );
}

#[test]
fn bad_keys_and_signatures_are_told_apart() {
    let key = GatewayIdentityKey { secret: [7u8; 32] };
    let public = key.public_key_bytes();
    let short = GatewayIdentityKey::from_file_bytes(&[1, 2, 3], "key").err();
    assert_eq!(
        short.as_deref(),
        Some("Gateway identity key at key has wrong length (3 bytes, expected 32). Refusing to operate on a malformed signing key.")
    );
    assert_eq!(
        verify_attestation_signature(&public, b"x", "not base64!"),
        Err(SignatureError::InvalidEncoding)
    );
    assert_eq!(verify_attestation_signature(&public, b"x", "AAAA"), Ok(false));
    let mut no_key = [0u8; 32];
    no_key[0] = 2;
    assert_eq!(
        verify_attestation_signature(&no_key, b"x", "AAAA"),
        Err(SignatureError::InvalidPublicKey)
    );
}

#[test]
fn tags_are_hmac_sha256() {
    let tag = "f7bc83f430538424b13298e6aa6fb143ef4d59a14946175997479dbc2d1a3cd8";
    let data = b"The quick brown fox jumps over the lazy dog";
    assert_eq!(hmac_sign("key", data), tag);
    assert!(hmac_verify("key", data, tag));
    assert!(!hmac_verify("Key", data, tag));
    assert!(!hmac_verify("key", data, &tag.to_uppercase()));
    let long = "k".repeat(100);
    assert_eq!(hmac_sign(&long, data).len(), 64);
    assert_eq!(hash_and_truncate("abc", 16), "ba7816bf8f01cfea");
}
