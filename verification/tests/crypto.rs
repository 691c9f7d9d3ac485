use cred::crypto::{
    argon2_kdf, decrypt, decrypt_recovery, decrypt_recovery_v2, derive_key_from_passphrase,
    derive_key_from_yubikey_response, encrypt, encrypt_recovery, encrypt_recovery_v2,
    encrypt_recovery_with_salt, encrypt_with_nonce, generate_hmac_secret, make_bundle,
    passphrase_argon2_kdf, read_bundle, CryptoError, Key,
};
use cred::primitives::KdfError;

#[test]
fn test_encrypt_decrypt_roundtrip() {
    let hmac_response = b"01234567890123456789"; // 20 bytes
    let key = derive_key_from_yubikey_response(hmac_response).unwrap();
    let plaintext = b"my-secret-password";

    let encrypted = encrypt(&key, plaintext).unwrap();
    let decrypted = decrypt(&key, &encrypted).unwrap();

    assert_eq!(decrypted, plaintext);
}

#[test]
fn test_wrong_key_fails() {
    let key1 = derive_key_from_yubikey_response(b"aaaaaaaaaaaaaaaaaaaa").unwrap();
    let key2 = derive_key_from_yubikey_response(b"bbbbbbbbbbbbbbbbbbbb").unwrap();

    let encrypted = encrypt(&key1, b"secret").unwrap();
    assert!(decrypt(&key2, &encrypted).is_err());
}

#[test]
fn test_recovery_roundtrip() {
    let secret = generate_hmac_secret();
    let passphrase = "correct horse battery staple";

    let encrypted = encrypt_recovery(passphrase, &secret).unwrap();
    let decrypted = decrypt_recovery(passphrase, &encrypted).unwrap();

    assert_eq!(decrypted, secret);
}

#[test]
fn test_recovery_wrong_passphrase() {
    let secret = generate_hmac_secret();
    let encrypted = encrypt_recovery("right", &secret).unwrap();
    assert!(decrypt_recovery("wrong", &encrypted).is_err());
}

#[test]
fn test_recovery_v2_roundtrip() {
    let secret = generate_hmac_secret();
    let challenge = [0xABu8; 32];
    let passphrase = "correct horse battery staple";

    let encrypted = encrypt_recovery_v2(passphrase, &secret, &challenge).unwrap();
    let (recovered_secret, recovered_challenge) =
        decrypt_recovery_v2(passphrase, &encrypted).unwrap();

    assert_eq!(recovered_secret, secret);
    assert_eq!(recovered_challenge.unwrap(), challenge);
}

#[test]
fn test_recovery_v2_reads_v1() {
    let secret = generate_hmac_secret();
    let passphrase = "correct horse battery staple";

    // v1 format
    let encrypted = encrypt_recovery(passphrase, &secret).unwrap();
    let (recovered_secret, recovered_challenge) =
        decrypt_recovery_v2(passphrase, &encrypted).unwrap();

    assert_eq!(recovered_secret, secret);
    assert!(recovered_challenge.is_none());
}

fn hex(bytes: &[u8]) -> String {
    bytes.iter().map(|b| format!("{:02x}", b)).collect()
}

#[test]
fn known_answers_of_the_cipher() {
    let key = Key::from_bytes([0u8; 32]);
    let empty = encrypt_with_nonce(&key, &[0u8; 12], b"").unwrap();
    assert_eq!(hex(&empty[12..]), "530f8afbc74536b9a963b4f1c4cb738b");
    let block = encrypt_with_nonce(&key, &[0u8; 12], &[0u8; 16]).unwrap();
    assert_eq!(
        hex(&block[12..]),
        "cea7403d4d606b6e074ec5d3baf39d18d0d1c8a799996bf0265b98b5d48ab919"
    );
    assert_eq!(&block[..12], &[0u8; 12]);
    assert_eq!(decrypt(&key, &block).unwrap(), vec![0u8; 16]);
}

#[test]
fn every_encryption_has_its_own_nonce() {
    let key = Key::from_bytes([7u8; 32]);
    let a = encrypt(&key, b"secret").unwrap();
    let b = encrypt(&key, b"secret").unwrap();
    assert_eq!(a.len(), 12 + 6 + 16);
    assert_ne!(a[..12], b[..12]);
    assert_ne!(a, b);
}

#[test]
fn short_and_changed_ciphertexts_are_refused() {
    let key = Key::from_bytes([7u8; 32]);
    assert_eq!(decrypt(&key, &[0u8; 27]), Err(CryptoError::CiphertextTooShort));
    assert_eq!(decrypt(&key, &[0u8; 28]), Err(CryptoError::DecryptionFailed));
    let mut data = encrypt(&key, b"secret").unwrap();
    data[14] ^= 1;
    assert_eq!(decrypt(&key, &data), Err(CryptoError::DecryptionFailed));
}

#[test]
fn keys_are_stretched_with_argon2id() {
    let response = b"01234567890123456789";
    let mut bytes = [0u8; 32];
    let params = argon2::Params::new(19456, 2, 1, Some(32)).unwrap();
    let argon = argon2::Argon2::new(argon2::Algorithm::Argon2id, argon2::Version::V0x13, params);
    argon.hash_password_into(response, b"cred-yubikey-v1\0", &mut bytes).unwrap();
    let ours = derive_key_from_yubikey_response(response).unwrap();
    assert_eq!(
        encrypt_with_nonce(&ours, &[1u8; 12], b"x").unwrap(),
        encrypt_with_nonce(&Key::from_bytes(bytes), &[1u8; 12], b"x").unwrap()
    );
}

fn sealed_with(passphrase: &str, salt: &[u8]) -> Vec<u8> {
    let key = derive_key_from_passphrase(passphrase, salt).unwrap();
    encrypt_with_nonce(&key, &[1u8; 12], b"x").unwrap()
}

#[test]
fn another_salt_gives_another_key() {
    assert_ne!(
        sealed_with("phrase", b"0123456789abcdef"),
        sealed_with("phrase", b"0123456789abcdeg")
    );
}

#[test]
fn another_passphrase_gives_another_key() {
    assert_ne!(
        sealed_with("phrase", b"0123456789abcdef"),
        sealed_with("phrasf", b"0123456789abcdef")
    );
}

#[test]
fn the_same_passphrase_and_salt_give_the_same_key() {
    assert_eq!(
        sealed_with("phrase", b"0123456789abcdef"),
        sealed_with("phrase", b"0123456789abcdef")
    );
}

#[test]
fn short_salts_are_refused() {
    let r = derive_key_from_passphrase("phrase", b"1234567");
    assert!(matches!(
        r,
        Err(CryptoError::PassphraseKeyDerivation(KdfError::SaltTooShort))
    ));
    assert!(derive_key_from_passphrase("phrase", b"12345678").is_ok());
}

#[test]
fn short_recovery_files_are_refused() {
    assert_eq!(decrypt_recovery("phrase", &[0u8; 43]), Err(CryptoError::RecoveryTooShort));
    assert_eq!(decrypt_recovery("phrase", &[0u8; 44]), Err(CryptoError::DecryptionFailed));
}

#[test]
fn recovery_files_start_with_their_salt() {
    let file = encrypt_recovery_with_salt("phrase", &[9u8; 16], b"secret").unwrap();
    assert_eq!(&file[..16], &[9u8; 16]);
    assert_eq!(file.len(), 16 + 12 + 6 + 16);
    assert_eq!(decrypt_recovery("phrase", &file).unwrap(), b"secret");
}

#[test]
fn bundles_have_a_fixed_layout() {
    let bundle = make_bundle(b"cc", b"secret").unwrap();
    assert_eq!(bundle, b"CRv2\x02\x00ccsecret");
    assert_eq!(
        read_bundle(bundle),
        Ok((b"secret".to_vec(), Some(b"cc".to_vec())))
    );
}

#[test]
fn empty_parts_come_back() {
    let file = encrypt_recovery_v2("p", &[], &[]).unwrap();
    assert_eq!(decrypt_recovery_v2("p", &file), Ok((vec![], Some(vec![]))));
}

#[test]
fn bundles_with_empty_parts() {
    for (challenge, secret) in [("", ""), ("", "secret"), ("cc", "")] {
        let bundle = make_bundle(challenge.as_bytes(), secret.as_bytes()).unwrap();
        let want = (secret.as_bytes().to_vec(), Some(challenge.as_bytes().to_vec()));
        assert_eq!(read_bundle(bundle), Ok(want));
    }
    assert_eq!(read_bundle(b"CRv2\x00\x00".to_vec()), Ok((vec![], Some(vec![]))));
    assert_eq!(read_bundle(b"CRv2\x00".to_vec()), Ok((b"CRv2\x00".to_vec(), None)));
}

#[test]
fn bundles_that_end_early_are_refused() {
    assert_eq!(
        read_bundle(b"CRv2\x09\x00cc".to_vec()),
        Err(CryptoError::BundleTruncated)
    );
}

#[test]
fn bare_secrets_are_read_as_they_are() {
    assert_eq!(read_bundle(b"secret".to_vec()), Ok((b"secret".to_vec(), None)));
    assert_eq!(read_bundle(b"CRv2".to_vec()), Ok((b"CRv2".to_vec(), None)));
}

#[test]
fn large_challenges_are_refused() {
    let challenge = vec![0u8; 65536];
    assert_eq!(
        encrypt_recovery_v2("phrase", b"secret", &challenge),
        Err(CryptoError::ChallengeTooLarge)
    );
    let bundle = make_bundle(&challenge[1..], b"secret").unwrap();
    assert_eq!(bundle.len(), 6 + 65535 + 6);
}

#[test]
fn random_secrets_differ() {
    assert_ne!(generate_hmac_secret(), generate_hmac_secret());
}

#[test]
fn costs_of_both_profiles() {
    let token = argon2_kdf();
    assert_eq!((token.m_cost, token.t_cost, token.p_cost), (19 * 1024, 2, 1));
    let phrase = passphrase_argon2_kdf();
    assert_eq!((phrase.m_cost, phrase.t_cost, phrase.p_cost), (64 * 1024, 4, 1));
}

#[test]
fn messages_of_crypto_errors() {
    let cases = [
        (
            CryptoError::KeyDerivation(KdfError::PasswordTooLong),
            "key derivation failed: password is too long",
        ),
        (
            CryptoError::PassphraseKeyDerivation(KdfError::SaltTooShort),
            "passphrase key derivation failed: salt is too short",
        ),
        (
            CryptoError::PassphraseKeyDerivation(KdfError::SaltTooLong),
            "passphrase key derivation failed: salt is too long",
        ),
        (CryptoError::EncryptionFailed, "encryption failed: aead::Error"),
        (CryptoError::CiphertextTooShort, "ciphertext too short"),
        (
            CryptoError::DecryptionFailed,
            "decryption failed (wrong key or corrupted data): aead::Error",
        ),
        (CryptoError::RecoveryTooShort, "recovery file too short or corrupted"),
        (CryptoError::ChallengeTooLarge, "challenge too large"),
        (CryptoError::BundleTruncated, "recovery bundle truncated"),
    ];
    for (e, text) in cases {
        assert_eq!(e.message(), text);
    }
}
