use cred::agent_keys::{AgentKey, AgentKeyStore};
use cred::clock::Timestamp;
use cred::rate_limit::{AuthRateLimiter, ClientIp};
use cred::server::{
    authenticate, backend_failure, bearer_token, create_agent_key, create_agent_key_with,
    create_failure, delete_secret, get_secret, get_secret_request, list_agent_keys, list_secrets,
    list_secrets_request,
    require_owner, revoke_agent_key, revoke_failure, secret_not_found, store_secret, ApiFailure,
    AuditRecord, SecretAnswer, Status,
};
use cred::types::{AuthLevel, Secret, SecretValue};

const IP: ClientIp = ClientIp::V4(0x7f00_0001);

fn s(t: &str) -> String {
    t.to_string()
}

fn at(secs: i64) -> Timestamp {
    Timestamp::new(secs, 0).unwrap()
}

fn agent() -> AuthLevel {
    AuthLevel::Agent(s("bot"))
}

fn store_with(scopes: &[&str]) -> (AgentKeyStore, String) {
    let mut store = AgentKeyStore::new();
    let scopes = scopes.iter().map(|t| s(t)).collect();
    let key = store.generate_with("bot", "a bot", scopes, &[0xab; 32], at(1000)).unwrap();
    (store, key)
}

fn login() -> Secret {
    let mut secret = Secret::new(
        "github",
        "admin",
        SecretValue::Login { url: s("u"), username: s("me"), password: s("pw"), totp_seed: None },
    );
    secret.engram_id = Some(7);
    secret
}

fn failed(f: &ApiFailure) -> (u16, &str) {
    (f.status.code(), f.error.as_str())
}

fn logged(a: &AuditRecord) -> (&str, &str, &str) {
    (a.agent_id.as_str(), a.action.as_str(), a.detail.as_str())
}

fn ask(
    header: &str,
    keys: &mut AgentKeyStore,
    limiter: &mut AuthRateLimiter,
) -> Result<AuthLevel, ApiFailure> {
    authenticate(header, "owner-token", keys, limiter, IP, 0, at(5000))
}

#[test]
fn tokens_in_headers() {
    assert_eq!(bearer_token("Bearer abc"), "abc");
    assert_eq!(bearer_token("bearer abc"), "abc");
    assert_eq!(bearer_token("abc"), "abc");
    assert_eq!(bearer_token("BEARER abc"), "BEARER abc");
    assert_eq!(bearer_token("Bearer Bearer abc"), "Bearer abc");
    assert_eq!(bearer_token(""), "");
}

#[test]
fn the_owner_is_let_in() {
    let (mut keys, _) = store_with(&[]);
    let mut limiter = AuthRateLimiter::new();
    assert!(matches!(ask("Bearer owner-token", &mut keys, &mut limiter), Ok(AuthLevel::Owner)));
    assert!(matches!(ask("owner-token", &mut keys, &mut limiter), Ok(AuthLevel::Owner)));
    assert!(keys.list()[0].last_used.is_none());
}

#[test]
fn agents_are_let_in_and_noted() {
    let (mut keys, key) = store_with(&[]);
    let mut limiter = AuthRateLimiter::new();
    match ask(&format!("Bearer {}", key), &mut keys, &mut limiter) {
        Ok(AuthLevel::Agent(id)) => assert_eq!(id, "bot"),
        _ => panic!("not let in"),
    }
    assert_eq!(keys.list()[0].last_used, Some(at(5000)));
}

#[test]
fn revoked_agents_are_kept_out() {
    let (mut keys, key) = store_with(&["*"]);
    keys.revoke("bot").unwrap();
    let mut limiter = AuthRateLimiter::new();
    let e = ask(&format!("Bearer {}", key), &mut keys, &mut limiter).err().unwrap();
    assert_eq!(failed(&e), (401, "invalid key"));
}

#[test]
fn missing_and_wrong_tokens_are_counted() {
    let (mut keys, _) = store_with(&[]);
    let mut limiter = AuthRateLimiter::new();
    for n in 0..5 {
        let header = if n % 2 == 0 { "" } else { "Bearer wrong" };
        let e = ask(header, &mut keys, &mut limiter).err().unwrap();
        let want = if n % 2 == 0 { "missing authorization" } else { "invalid key" };
        assert_eq!(failed(&e), (401, want));
    }
    let e = ask("Bearer owner-token", &mut keys, &mut limiter).err().unwrap();
    assert_eq!(failed(&e), (429, "rate limited, retry in 30s"));
    let other = authenticate(
        "Bearer owner-token",
        "owner-token",
        &mut keys,
        &mut limiter,
        ClientIp::V4(1),
        0,
        at(0),
    );
    assert!(matches!(other, Ok(AuthLevel::Owner)));
    let later = authenticate(
        "Bearer owner-token",
        "owner-token",
        &mut keys,
        &mut limiter,
        IP,
        30_000_000_000,
        at(0),
    );
    assert!(matches!(later, Ok(AuthLevel::Owner)));
    assert_eq!(limiter.check_lockout(&IP, 30_000_000_000), None);
}

#[test]
fn a_bare_scheme_is_no_token() {
    let (mut keys, _) = store_with(&[]);
    let mut limiter = AuthRateLimiter::new();
    let e = ask("Bearer ", &mut keys, &mut limiter).err().unwrap();
    assert_eq!(failed(&e), (401, "missing authorization"));
}

#[test]
fn agents_may_not_do_what_owners_may() {
    assert!(require_owner(&AuthLevel::Owner).is_ok());
    let e = require_owner(&agent()).unwrap_err();
    assert_eq!(failed(&e.failure), (403, "owner access required"));
    assert_eq!(
        logged(&e.audit.unwrap()),
        ("bot", "denied", "attempted owner-only endpoint")
    );
    let (mut keys, _) = store_with(&["*"]);
    let note = SecretValue::Note { content: s("c") };
    let e = store_secret(&agent(), "a", "b", note).err().unwrap();
    assert_eq!(e.failure.status, Status::Forbidden);
    assert_eq!(delete_secret(&agent(), "a", "b").unwrap_err().failure.status, Status::Forbidden);
    let e = create_agent_key(&agent(), &mut keys, "new", "", vec![]).unwrap_err();
    assert_eq!(e.failure.status, Status::Forbidden);
    let e = revoke_agent_key(&agent(), &mut keys, "bot").unwrap_err();
    assert_eq!(e.failure.status, Status::Forbidden);
    assert!(list_agent_keys(&agent(), &keys).is_err());
    assert_eq!(keys.active_count(), 1);
}

#[test]
fn stored_names_are_checked() {
    let note = || SecretValue::Note { content: s("c") };
    let secret = store_secret(&AuthLevel::Owner, "github", "note", note()).ok().unwrap();
    assert_eq!((secret.service.as_str(), secret.key.as_str()), ("github", "note"));
    let e = store_secret(&AuthLevel::Owner, "git hub", "", note()).err().unwrap();
    assert_eq!(e.failure.status.code(), 400);
    assert!(e.failure.error.starts_with("service name"));
    assert!(e.audit.is_none());
    let e = store_secret(&AuthLevel::Owner, "github", "", note()).err().unwrap();
    assert_eq!(failed(&e.failure), (400, "key name cannot be empty"));
    assert!(delete_secret(&AuthLevel::Owner, "github", "note").is_ok());
    assert!(delete_secret(&AuthLevel::Owner, "github", "a/b").is_err());
}

#[test]
fn requests_for_secrets_are_logged() {
    let a = get_secret_request(&AuthLevel::Owner, "github", "admin", None).unwrap();
    assert_eq!(logged(&a), ("owner", "get_secret", "service=github key=admin tier=tier1"));
    let a = get_secret_request(&agent(), "github", "admin", Some("tier2")).unwrap();
    assert_eq!(logged(&a), ("bot", "get_secret", "service=github key=admin tier=tier2"));
    let e = get_secret_request(&agent(), "", "admin", None).unwrap_err();
    assert_eq!(failed(&e), (400, "service name cannot be empty"));
}

#[test]
fn the_owner_gets_the_secret() {
    let (keys, _) = store_with(&[]);
    let (answer, audit) =
        get_secret(&AuthLevel::Owner, &keys, "github", "admin", Some(login())).ok().unwrap();
    assert!(audit.is_none());
    match answer {
        SecretAnswer::Owner(a) => {
            assert_eq!(a.secret_type, "login");
            assert_eq!(a.value.get_field("password"), Some(s("pw")));
        }
        _ => panic!("answered as an agent"),
    }
}

#[test]
fn scoped_agents_get_the_secret() {
    let (keys, _) = store_with(&["github/*"]);
    let (answer, audit) =
        get_secret(&agent(), &keys, "github", "admin", Some(login())).ok().unwrap();
    assert_eq!(
        logged(&audit.unwrap()),
        ("bot", "get_secret_plaintext", "service=github key=admin (scoped)")
    );
    match answer {
        SecretAnswer::Agent(a) => {
            assert_eq!(a.field_names, ["url", "username", "password"]);
            assert_eq!(a.value.unwrap().get_field("password"), Some(s("pw")));
            assert_eq!(a.hint, None);
        }
        _ => panic!("answered as the owner"),
    }
}

#[test]
fn other_agents_get_metadata() {
    let (keys, _) = store_with(&["gitlab/*"]);
    let (answer, audit) =
        get_secret(&agent(), &keys, "github", "admin", Some(login())).ok().unwrap();
    assert_eq!(
        logged(&audit.unwrap()),
        ("bot", "get_secret_metadata", "service=github key=admin (no scope)")
    );
    match answer {
        SecretAnswer::Agent(a) => {
            assert_eq!((a.service.as_str(), a.key.as_str()), ("github", "admin"));
            assert_eq!(a.secret_type, "login");
            assert_eq!(a.field_names, ["url", "username", "password"]);
            assert!(a.value.is_none());
            assert_eq!(
                a.hint.unwrap(),
                "agent does not have scope for this secret -- request owner to add scope"
            );
        }
        _ => panic!("answered as the owner"),
    }
}

#[test]
fn secrets_that_are_not_there() {
    let (keys, _) = store_with(&[]);
    let e = get_secret(&AuthLevel::Owner, &keys, "a", "b", None).err().unwrap();
    assert_eq!(failed(&e), (404, "secret not found: a/b"));
    assert_eq!(failed(&secret_not_found("a", "b")), (404, "secret not found: a/b"));
    assert_eq!(failed(&backend_failure("disk full")), (500, "disk full"));
}

#[test]
fn listings_for_owner_and_agents() {
    let secrets = || {
        vec![login(), Secret::new("aws", "note", SecretValue::Note { content: s("c") })]
    };
    let all = list_secrets(&AuthLevel::Owner, secrets(), None);
    assert_eq!(all.len(), 2);
    assert_eq!(all[0].redacted_preview, "url=u, username=me, password=****");
    assert_eq!(all[0].engram_id, Some(7));
    assert_eq!(all[1].engram_id, None);
    let some = list_secrets(&agent(), secrets(), Some("github"));
    assert_eq!(some.len(), 1);
    assert_eq!(some[0].redacted_preview, "login");
    assert_eq!(some[0].field_names, ["url", "username", "password"]);
    assert_eq!(list_secrets(&agent(), secrets(), Some("GitHub")).len(), 0);
}

#[test]
fn requests_for_listings_are_logged() {
    let a = list_secrets_request(&agent(), None).unwrap();
    assert_eq!(logged(&a), ("bot", "list_secrets", "service=*"));
    let a = list_secrets_request(&agent(), Some("github")).unwrap();
    assert_eq!(logged(&a), ("bot", "list_secrets", "service=github"));
    assert!(list_secrets_request(&AuthLevel::Owner, None).is_none());
}

#[test]
fn agent_keys_are_made_and_revoked() {
    let mut keys = AgentKeyStore::new();
    let (key, audit) = create_agent_key_with(
        &AuthLevel::Owner,
        &mut keys,
        "bot",
        "a bot",
        vec![s("github/*")],
        &[0x01; 32],
        at(1000),
    )
    .unwrap();
    assert_eq!(key, "01".repeat(32));
    assert_eq!(logged(&audit), ("owner", "agent_key_create", "agent_id=bot"));
    let e = create_agent_key(&AuthLevel::Owner, &mut keys, "bot", "", vec![]).unwrap_err();
    assert_eq!(
        failed(&e.failure),
        (409, "agent key 'bot' already exists and is active. Revoke it first.")
    );
    let audit = revoke_agent_key(&AuthLevel::Owner, &mut keys, "bot").unwrap();
    assert_eq!(logged(&audit), ("owner", "agent_key_revoke", "agent_id=bot"));
    let e = revoke_agent_key(&AuthLevel::Owner, &mut keys, "nobody").unwrap_err();
    assert_eq!(failed(&e.failure), (404, "agent key 'nobody' not found"));
    assert!(create_agent_key(&AuthLevel::Owner, &mut keys, "bot", "", vec![]).is_ok());
    assert_eq!(failed(&create_failure(s("x")).failure), (409, "x"));
    assert_eq!(failed(&revoke_failure(s("x")).failure), (404, "x"));
}

#[test]
fn listed_agent_keys_are_cut() {
    let (mut keys, _) = store_with(&["*"]);
    keys.touch_at("bot", at(1_704_164_645));
    let items = list_agent_keys(&AuthLevel::Owner, &keys).unwrap().unwrap();
    assert_eq!(items.len(), 1);
    assert_eq!(items[0].id, "bot");
    assert_eq!(items[0].key_prefix, "abababab...");
    assert_eq!(items[0].created_at, "1970-01-01T00:16:40+00:00");
    assert_eq!(items[0].last_used, Some(s("2024-01-02T03:04:05+00:00")));
    assert_eq!(items[0].scopes, ["*"]);
    assert!(!items[0].revoked);
}

#[test]
fn keys_that_cannot_be_cut() {
    let record = |key: &str| AgentKey {
        id: s("bot"),
        key: s(key),
        created_at: at(1),
        last_used: None,
        revoked: true,
        description: String::new(),
        scopes: vec![],
    };
    let keys = AgentKeyStore::from_entries(vec![(s("bot"), record("abcdefgé"))]);
    assert!(list_agent_keys(&AuthLevel::Owner, &keys).unwrap().is_none());
    let keys = AgentKeyStore::from_entries(vec![(s("bot"), record("abc"))]);
    let items = list_agent_keys(&AuthLevel::Owner, &keys).unwrap().unwrap();
    assert_eq!(items[0].key_prefix, "abc...");
    assert!(items[0].revoked);
}
