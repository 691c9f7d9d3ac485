use cred::agent_keys::{
    audit_line, check_scope, constant_time_eq, AgentKey, AgentKeyErrorKind, AgentKeyStore,
};
use cred::clock::Timestamp;

fn at(secs: i64) -> Timestamp {
    Timestamp::new(secs, 0).unwrap()
}

fn texts(v: &[&str]) -> Vec<String> {
    v.iter().map(|s| s.to_string()).collect()
}

fn store_with(scopes: &[&str]) -> (AgentKeyStore, String) {
    let mut store = AgentKeyStore::new();
    let key = store
        .generate_with("bot", "a bot", texts(scopes), &[0xab; 32], at(1000))
        .unwrap();
    (store, key)
}

#[test]
fn comparison_of_bytes() {
    assert!(constant_time_eq(b"", b""));
    assert!(constant_time_eq(b"abc", b"abc"));
    assert!(!constant_time_eq(b"abc", b"abd"));
    assert!(!constant_time_eq(b"abc", b"ab"));
    assert!(!constant_time_eq(b"\x00", b"\x80"));
}

#[test]
fn scopes_in_three_shapes() {
    for scope in ["*", "github/*", "github/api-key", "a.b/c_d"] {
        assert_eq!(check_scope(scope), None, "{}", scope);
    }
    for scope in ["", "github", "/", "/key", "github/"] {
        assert_eq!(check_scope(scope), Some(AgentKeyErrorKind::MalformedScope), "{}", scope);
    }
    for scope in ["git hub/*", "*/key", "é/x"] {
        assert_eq!(check_scope(scope), Some(AgentKeyErrorKind::ScopeService), "{}", scope);
    }
    for scope in ["github/a b", "github/a/b", "github/**"] {
        assert_eq!(check_scope(scope), Some(AgentKeyErrorKind::ScopeKey), "{}", scope);
    }
}

#[test]
fn generated_keys_authenticate() {
    let (store, key) = store_with(&[]);
    assert_eq!(key, "ab".repeat(32));
    assert_eq!(store.validate(&key), Some("bot".to_string()));
    assert_eq!(store.validate(&format!("  {}\n", key)), Some("bot".to_string()));
    assert_eq!(store.validate(&key.to_uppercase()), None);
    assert_eq!(store.validate(""), None);
    assert_eq!(store.validate("   "), None);
}

#[test]
fn random_keys_are_hexadecimal() {
    let mut store = AgentKeyStore::new();
    let a = store.generate("a", "", vec![]).unwrap();
    let b = store.generate("b", "", vec![]).unwrap();
    assert_eq!(a.len(), 64);
    assert!(a.chars().all(|c| "0123456789abcdef".contains(c)));
    assert_ne!(a, b);
    assert_eq!(store.validate(&b), Some("b".to_string()));
    assert_eq!(store.active_count(), 2);
}

#[test]
fn an_active_key_is_not_replaced() {
    let (mut store, key) = store_with(&[]);
    let e = store.generate("bot", "", vec![]).unwrap_err();
    assert_eq!(e.message(), "agent key 'bot' already exists and is active. Revoke it first.");
    assert_eq!(store.validate(&key), Some("bot".to_string()));
}

#[test]
fn bad_scopes_are_refused_first() {
    let (mut store, _) = store_with(&[]);
    let e = store.generate("bot", "", texts(&["*", "github", "a b/c"])).unwrap_err();
    assert_eq!(
        e.message(),
        "invalid scope 'github': must be '*', 'service/*', or 'service/key'"
    );
    let e = store.generate("new", "", texts(&["a b/c"])).unwrap_err();
    assert_eq!(e.message(), "invalid scope 'a b/c': service name contains invalid characters");
    let e = store.generate("new", "", texts(&["a/b c"])).unwrap_err();
    assert_eq!(e.message(), "invalid scope 'a/b c': key name contains invalid characters");
    assert_eq!(store.list().len(), 1);
}

#[test]
fn revoked_keys_do_not_authenticate() {
    let (mut store, key) = store_with(&["*"]);
    let other = store.generate("other", "", vec![]).unwrap();
    store.revoke("bot").unwrap();
    assert_eq!(store.validate(&key), None);
    assert!(!store.has_scope("bot", "github", "api-key"));
    assert_eq!(store.validate(&other), Some("other".to_string()));
    assert_eq!(store.active_count(), 1);
    assert_eq!(store.revoke("bot").unwrap_err().message(), "agent key 'bot' is already revoked");
    assert_eq!(store.revoke("nobody").unwrap_err().message(), "agent key 'nobody' not found");
}

#[test]
fn a_revoked_agent_gets_a_new_key() {
    let (mut store, old) = store_with(&["*"]);
    store.revoke("bot").unwrap();
    let new = store.generate("bot", "again", vec![]).unwrap();
    assert_eq!(store.validate(&old), None);
    assert_eq!(store.validate(&new), Some("bot".to_string()));
    assert!(!store.has_scope("bot", "github", "api-key"));
    assert_eq!(store.list().len(), 1);
}

#[test]
fn scopes_open_what_they_say() {
    let (store, _) = store_with(&["github/*", "aws/api-key"]);
    assert!(store.has_scope("bot", "github", "api-key"));
    assert!(store.has_scope("bot", "github", "other"));
    assert!(store.has_scope("bot", "aws", "api-key"));
    assert!(!store.has_scope("bot", "aws", "other"));
    assert!(!store.has_scope("bot", "gitlab", "api-key"));
    assert!(!store.has_scope("nobody", "github", "api-key"));
    let (all, _) = store_with(&["*"]);
    assert!(all.has_scope("bot", "anything", "at-all"));
    let (none, _) = store_with(&[]);
    assert!(!none.has_scope("bot", "github", "api-key"));
}

#[test]
fn touching_notes_the_time() {
    let (mut store, key) = store_with(&["github/*"]);
    assert!(store.list()[0].last_used.is_none());
    assert!(store.touch_at("bot", at(2000)));
    assert_eq!(store.list()[0].last_used, Some(at(2000)));
    assert_eq!(store.list()[0].created_at, at(1000));
    assert_eq!(store.validate(&key), Some("bot".to_string()));
    assert!(store.has_scope("bot", "github", "x"));
    assert!(!store.touch_at("nobody", at(2000)));
    assert!(store.touch("bot"));
    assert!(at(2000).at_or_before(&store.list()[0].last_used.unwrap()));
}

#[test]
fn listing_by_time_of_creation() {
    let mut store = AgentKeyStore::new();
    for (id, secs) in [("c", 30), ("a", 10), ("d", 20), ("b", 20)] {
        let mut bytes = [0u8; 32];
        bytes[0] = id.as_bytes()[0];
        store.generate_with(id, "", vec![], &bytes, at(secs)).unwrap();
    }
    let ids: Vec<&str> = store.list().iter().map(|k| k.id.as_str()).collect();
    assert_eq!(ids.len(), 4);
    assert_eq!(ids[0], "a");
    assert_eq!(ids[3], "c");
    assert!(ids.contains(&"b") && ids.contains(&"d"));
}

#[test]
fn entries_go_in_and_out() {
    let record = |id: &str, key: &str| AgentKey {
        id: id.to_string(),
        key: key.to_string(),
        created_at: at(1),
        last_used: None,
        revoked: false,
        description: String::new(),
        scopes: vec![],
    };
    let store = AgentKeyStore::from_entries(vec![
        ("a".to_string(), record("a", "first")),
        ("b".to_string(), record("b", "second")),
        ("a".to_string(), record("a", "third")),
    ]);
    assert_eq!(store.entries().len(), 2);
    assert_eq!(store.validate("first"), None);
    assert_eq!(store.validate("second"), Some("b".to_string()));
    assert_eq!(store.validate("third"), Some("a".to_string()));
}

#[test]
fn lines_of_the_audit_log() {
    assert_eq!(
        audit_line(&at(1_704_164_645), "bot", "get_secret", "service=a key=b tier=tier1"),
        "2024-01-02T03:04:05+00:00 agent=bot action=get_secret service=a key=b tier=tier1\n"
    );
}
