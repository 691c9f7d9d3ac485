use cred::clock::Timestamp;
use cred::crypto::{CryptoError, Key};
use cred::store::{
    assemble, assemble_all, decrypt_ciphertext, deleted, encrypt_secret_value, looked_up,
    not_found, CredStore, Lookup, StoreError,
};
use cred::types::{EnvVars, RawSecret, Secret, SecretValue};

fn s(t: &str) -> String {
    t.to_string()
}

fn env(pairs: &[(&str, &str)]) -> EnvVars {
    let mut vars = EnvVars::new();
    for (name, value) in pairs {
        vars.insert(s(name), s(value));
    }
    vars
}

fn values() -> Vec<SecretValue> {
    vec![
        SecretValue::ApiKey { key: s("k"), url: Some(s("u")), notes: Some(s("n")) },
        SecretValue::Login {
            url: s("u"),
            username: s("me"),
            password: s("pw"),
            totp_seed: Some(s("t")),
        },
        SecretValue::OAuthApp {
            client_id: s("id"),
            client_secret: s("cs"),
            redirect_url: Some(s("r")),
            scopes: Some(s("sc")),
        },
        SecretValue::SshKey {
            private_key: s("priv"),
            public_key: Some(s("pub")),
            passphrase: Some(s("pp")),
        },
        SecretValue::Note { content: s("c") },
        SecretValue::Environment { vars: env(&[("A", "1"), ("url", "2")]) },
    ]
}

#[test]
fn kinds_and_fields() {
    let want = [
        ("api-key", vec!["key", "url", "notes"]),
        ("login", vec!["url", "username", "password", "totp_seed"]),
        ("oauth-app", vec!["client_id", "client_secret", "redirect_url", "scopes"]),
        ("ssh-key", vec!["private_key", "public_key", "passphrase"]),
        ("note", vec!["content"]),
        ("environment", vec!["A", "url"]),
    ];
    for (v, (kind, names)) in values().iter().zip(want) {
        assert_eq!(v.kind(), kind);
        assert_eq!(v.field_names(), names);
    }
}

#[test]
fn optional_fields_may_be_missing() {
    let v = SecretValue::ApiKey { key: s("k"), url: None, notes: Some(s("n")) };
    assert_eq!(v.field_names(), ["key", "notes"]);
    assert_eq!(v.get_field("url"), None);
    assert_eq!(v.get_field("notes"), Some(s("n")));
}

#[test]
fn fields_by_name() {
    let all = values();
    assert_eq!(all[0].get_field("key"), Some(s("k")));
    assert_eq!(all[1].get_field("password"), Some(s("pw")));
    assert_eq!(all[2].get_field("client_secret"), Some(s("cs")));
    assert_eq!(all[3].get_field("private_key"), Some(s("priv")));
    assert_eq!(all[4].get_field("content"), Some(s("c")));
    assert_eq!(all[5].get_field("A"), Some(s("1")));
    assert_eq!(all[5].get_field("B"), None);
}

#[test]
fn the_last_text_of_a_variable_counts() {
    let vars = env(&[("A", "1"), ("B", "2"), ("A", "3")]);
    assert_eq!(vars.pairs(), &vec![(s("A"), s("3")), (s("B"), s("2"))]);
    let v = SecretValue::Environment { vars };
    assert_eq!(v.get_field("A"), Some(s("3")));
    assert_eq!(v.field_names(), ["A", "B"]);
}

#[test]
fn bare_values() {
    let bare: Vec<Option<String>> = values().iter().map(|v| v.bare_value()).collect();
    assert_eq!(bare, [Some(s("k")), None, None, None, Some(s("c")), None]);
}

#[test]
fn previews_hide_secrets() {
    let want = [
        "key=****, url=u, notes=****",
        "url=u, username=me, password=****, totp_seed=****",
        "client_id=id, client_secret=****, redirect_url=r, scopes=sc",
        "private_key=****, public_key=pub, passphrase=****",
        "content=****",
        "A=****, url=****",
    ];
    for (v, w) in values().iter().zip(want) {
        assert_eq!(v.redacted_preview(), w);
    }
}

#[test]
fn new_secrets_are_in_no_backend() {
    let secret = Secret::new("github", "api-key", SecretValue::Note { content: s("c") });
    assert_eq!((secret.service.as_str(), secret.key.as_str()), ("github", "api-key"));
    assert!(secret.engram_id.is_none() && secret.created_at.is_none());
}

fn raw(ciphertext: &str, created_at: Option<&str>) -> RawSecret {
    RawSecret {
        id: 7,
        service: s("github"),
        key: s("api-key"),
        ciphertext: s(ciphertext),
        created_at: created_at.map(s),
    }
}

#[test]
fn stored_json_comes_back() {
    let store = CredStore::new(Key::from_bytes([3; 32]));
    let json = "{\"type\":\"note\",\"content\":\"é\"}";
    let text = store.seal(json).unwrap();
    assert_eq!(text.len(), 2 * (json.len() + 28));
    assert_eq!(text, text.to_lowercase());
    assert!(text.chars().all(|c| "0123456789abcdef".contains(c)));
    assert_eq!(store.open(&raw(&text, None)).unwrap(), json.as_bytes());
    assert_eq!(store.open(&raw(&text.to_uppercase(), None)).unwrap(), json.as_bytes());
    let other = CredStore::new(Key::from_bytes([4; 32]));
    assert_eq!(
        other.open(&raw(&text, None)),
        Err(StoreError::Decryption(CryptoError::DecryptionFailed))
    );
}

#[test]
fn a_stored_secret_comes_back() {
    let store = CredStore::new(Key::from_bytes([3; 32]));
    let secret = Secret::new("github", "api-key", SecretValue::Note { content: s("hush") });
    let json = serde_json::to_string(&secret.value.get_field("content")).unwrap();
    let row = raw(&store.seal(&json).unwrap(), None);
    let read: String = serde_json::from_slice(&store.open(&row).unwrap()).unwrap();
    let got = assemble(&row, Some(SecretValue::Note { content: read })).ok().unwrap();
    assert_eq!((got.service, got.key), (secret.service, secret.key));
    assert_eq!(got.value.bare_value(), Some(s("hush")));
    assert_eq!(got.engram_id, Some(7));
}

#[test]
fn locked_stores_give_nothing() {
    let store = CredStore::locked();
    assert_eq!(store.seal("{}"), Err(StoreError::Locked));
    assert_eq!(store.open(&raw("00", None)), Err(StoreError::Locked));
    assert_eq!(store.open_all(&vec![]), Err(StoreError::Locked));
    assert!(store.require_key().is_err());
}

#[test]
fn bad_ciphertexts() {
    let key = Key::from_bytes([3; 32]);
    assert_eq!(decrypt_ciphertext("xyz0", &key), Err(StoreError::InvalidHex));
    assert_eq!(decrypt_ciphertext("abc", &key), Err(StoreError::InvalidHex));
    assert_eq!(
        decrypt_ciphertext("abcd", &key),
        Err(StoreError::Decryption(CryptoError::CiphertextTooShort))
    );
    let text = encrypt_secret_value("{}", &key).unwrap();
    assert_eq!(decrypt_ciphertext(&text, &key).unwrap(), b"{}");
}

#[test]
fn messages_of_store_errors() {
    for (e, text) in [
        (StoreError::Locked, "no encryption key -- is the YubiKey plugged in?"),
        (
            StoreError::Encryption(CryptoError::EncryptionFailed),
            "encryption failed: aead::Error",
        ),
        (StoreError::InvalidHex, "invalid hex ciphertext"),
        (StoreError::Decryption(CryptoError::DecryptionFailed), "decryption failed"),
        (StoreError::NotAValue, "failed to deserialize secret value"),
    ] {
        assert_eq!(e.message(), text);
    }
}

#[test]
fn secrets_are_assembled() {
    let r = raw("", Some("2024-01-02T03:04:05Z"));
    let secret = assemble(&r, Some(SecretValue::Note { content: s("c") })).ok().unwrap();
    assert_eq!(secret.engram_id, Some(7));
    assert_eq!(secret.service, "github");
    assert_eq!(secret.created_at, Timestamp::new(1_704_164_645, 0));
    let undated = assemble(&raw("", Some("2024-01-02 03:04:05")), Some(values().remove(0)));
    assert!(undated.ok().unwrap().created_at.is_none());
    assert!(matches!(assemble(&r, None), Err(StoreError::NotAValue)));
}

#[test]
fn listings_leave_out_what_cannot_be_read() {
    let store = CredStore::new(Key::from_bytes([3; 32]));
    let good = store.seal("{}").unwrap();
    let raws = vec![raw(&good, None), raw("zz", None), raw(&good, None)];
    let opened = store.open_all(&raws).unwrap();
    assert_eq!(opened, [Some(b"{}".to_vec()), None, Some(b"{}".to_vec())]);
    let parsed = vec![None, None, Some(SecretValue::Note { content: s("c") })];
    let secrets = assemble_all(&raws, parsed);
    assert_eq!(secrets.len(), 1);
    assert_eq!(secrets[0].value.kind(), "note");
}

#[test]
fn what_a_backend_answers() {
    assert_eq!(not_found("a", "b"), "secret not found: a/b");
    assert_eq!(looked_up(Lookup::Row(raw("00", None)), "a", "b").ok().unwrap().id, 7);
    assert_eq!(looked_up(Lookup::NoRow, "a", "b").err(), Some(s("secret not found: a/b")));
    assert_eq!(
        looked_up(Lookup::Failed(s("locked")), "a", "b").err(),
        Some(s("sqlite error: locked"))
    );
    assert_eq!(deleted(1, "a", "b"), Ok(()));
    assert_eq!(deleted(0, "a", "b"), Err(s("secret not found: a/b")));
}
