use cred::agent_keys::AgentKeyStore;
use cred::ceremony::{
    check_passphrase, recover_closing, recover_plan, recovery_report, said_yes,
    verify_chain, InitAction, InitRun, InitStage, RecoverPlan,
};
use cred::cli::{
    config_dir, generated_lines, restore_dir, shellexpand, show_secret, validate_agent_id,
    GetOutput,
};
use cred::clock::Timestamp;
use cred::crypto::{decrypt, decrypt_recovery_v2, Key};
use cred::import::{parse_import_line, ImportLine, ImportRun, ImportStep};
use cred::store_form::{
    parse_kind, read_var_line, stored_message, FormKind, FormStep, StoreForm, VarLine,
};
use cred::tables::{agent_key_lines, filter_by_service, secret_lines};
use cred::types::{Secret, SecretValue};

fn s(t: &str) -> String {
    t.to_string()
}

fn asks(form: &StoreForm) -> (String, bool) {
    match form.step() {
        FormStep::Ask(label, hidden) => (label, hidden),
        _ => panic!("no question"),
    }
}

fn refused(form: &StoreForm) -> String {
    match form.step() {
        FormStep::Refuse(msg) => msg,
        _ => panic!("not refused"),
    }
}

fn filled(kind: &str, answers: &[&str]) -> StoreForm {
    let mut form = StoreForm::start("github", "admin", kind).ok().unwrap();
    for a in answers {
        asks(&form);
        form.answer(s(a));
    }
    form
}

#[test]
fn kinds_by_name() {
    for (word, kind) in [
        ("login", FormKind::Login),
        ("api-key", FormKind::ApiKey),
        ("apikey", FormKind::ApiKey),
        ("oauth-app", FormKind::OAuthApp),
        ("oauthapp", FormKind::OAuthApp),
        ("ssh-key", FormKind::SshKey),
        ("sshkey", FormKind::SshKey),
        ("note", FormKind::Note),
        ("environment", FormKind::Environment),
        ("env", FormKind::Environment),
    ] {
        assert_eq!(parse_kind(word), Some(kind));
    }
    assert_eq!(parse_kind("Login"), None);
}

#[test]
fn forms_start_with_proper_names_only() {
    let e = |a: &str, b: &str, c: &str| StoreForm::start(a, b, c).err().unwrap();
    assert_eq!(e("", "", "x"), "service name cannot be empty");
    assert_eq!(e("a", "", "x"), "key name cannot be empty");
    assert_eq!(
        e("a", "b", "x"),
        "unknown secret type 'x'. Valid types: api-key, login, oauth-app, ssh-key, note, environment"
    );
}

#[test]
fn a_login_is_asked_for() {
    let mut form = filled("login", &[]);
    for (label, hidden, answer) in [
        ("url", false, "u"),
        ("username", false, "me"),
        ("password", true, "pw"),
        ("totp_seed (leave blank if none)", false, ""),
    ] {
        assert_eq!(asks(&form), (s(label), hidden));
        form.answer(s(answer));
    }
    let secret = form.secret().unwrap();
    assert_eq!(secret.value.kind(), "login");
    assert_eq!(secret.value.field_names(), ["url", "username", "password"]);
    assert_eq!(secret.value.get_field("password"), Some(s("pw")));
    let seeded = filled("login", &["u", "me", "pw", "seed"]).secret().unwrap();
    assert_eq!(seeded.value.get_field("totp_seed"), Some(s("seed")));
}

#[test]
fn a_login_is_refused_at_the_end() {
    let form = filled("login", &["", "me", "pw", ""]);
    assert_eq!(refused(&form), "url, username, and password are required");
    assert!(form.secret().is_none());
}

#[test]
fn an_api_key_is_asked_for() {
    let mut form = filled("apikey", &[]);
    assert_eq!(asks(&form), (s("key"), true));
    form.answer(s("k"));
    assert_eq!(asks(&form), (s("url (leave blank if none)"), false));
    form.answer(s("u"));
    let secret = form.secret().unwrap();
    assert_eq!(secret.value.kind(), "api-key");
    assert_eq!(secret.value.field_names(), ["key", "url"]);
    assert_eq!(refused(&filled("api-key", &[""])), "key cannot be empty");
}

#[test]
fn an_oauth_app_is_asked_for() {
    let mut form = filled("oauth-app", &[]);
    assert_eq!(asks(&form), (s("client_id"), false));
    form.answer(s("id"));
    assert_eq!(asks(&form), (s("client_secret"), true));
    form.answer(s("cs"));
    assert_eq!(asks(&form), (s("redirect_url (leave blank if none)"), false));
    form.answer(s(""));
    assert_eq!(form.secret().unwrap().value.field_names(), ["client_id", "client_secret"]);
    assert_eq!(
        refused(&filled("oauth-app", &["id", ""])),
        "client_id and client_secret are required"
    );
}

#[test]
fn a_private_key_is_read_line_by_line() {
    let mut form = filled("ssh-key", &[]);
    assert!(matches!(form.step(), FormStep::ReadKey));
    assert!(form.key_line("-----BEGIN-----"));
    assert!(form.key_line(" x "));
    assert!(!form.key_line("  ---END---  "));
    form.key_read();
    assert_eq!(asks(&form), (s("passphrase (leave blank if none)"), true));
    form.answer(s("pp"));
    let secret = form.secret().unwrap();
    assert_eq!(secret.value.get_field("private_key"), Some(s("-----BEGIN-----\n x \n")));
    assert_eq!(secret.value.get_field("passphrase"), Some(s("pp")));
    let mut blank = filled("ssh-key", &[]);
    blank.key_line("   ");
    blank.key_read();
    assert_eq!(refused(&blank), "private key cannot be empty");
}

#[test]
fn a_note_is_asked_for() {
    let form = filled("note", &["text"]);
    assert!(matches!(form.step(), FormStep::Ready));
    assert_eq!(form.secret().unwrap().value.bare_value(), Some(s("text")));
    assert_eq!(refused(&filled("note", &[""])), "content cannot be empty");
}

#[test]
fn variables_are_read_line_by_line() {
    let mut form = filled("env", &[]);
    assert!(matches!(form.step(), FormStep::ReadVars));
    assert!(matches!(form.vars_line("A = 1 = 2 "), VarLine::Pair(_, _)));
    assert!(matches!(form.vars_line("B=x"), VarLine::Pair(_, _)));
    assert!(matches!(form.vars_line("A=3"), VarLine::Pair(_, _)));
    match form.vars_line(" nothing ") {
        VarLine::Invalid(msg) => {
            assert_eq!(msg, "  skipping invalid line (expected KEY=VALUE): nothing")
        }
        _ => panic!("taken"),
    }
    assert!(matches!(form.vars_line("  "), VarLine::End));
    form.vars_read();
    let secret = form.secret().unwrap();
    assert_eq!(secret.value.field_names(), ["A", "B"]);
    assert_eq!(secret.value.get_field("A"), Some(s("3")));
    let mut none = filled("env", &[]);
    none.vars_read();
    assert_eq!(refused(&none), "no env vars entered");
    match read_var_line("A = 1 = 2 ") {
        VarLine::Pair(k, v) => assert_eq!((k.as_str(), v.as_str()), ("A", "1 = 2")),
        _ => panic!("not a pair"),
    }
}

#[test]
fn what_is_said_of_a_stored_secret() {
    assert_eq!(stored_message("a", "b", "apikey", 12), "stored a/b (apikey) engram_id=12");
}

#[test]
fn lines_of_an_import() {
    assert!(matches!(parse_import_line("  "), ImportLine::Nothing));
    assert!(matches!(parse_import_line(" # a\tb\tc"), ImportLine::Nothing));
    match parse_import_line(" github \t key \t a\tb ") {
        ImportLine::Entry(a, b, c) => {
            assert_eq!((a.as_str(), b.as_str(), c.as_str()), ("github", "key", "a\tb"))
        }
        _ => panic!("no entry"),
    }
    match parse_import_line("github\tkey") {
        ImportLine::Malformed(n, head) => assert_eq!((n, head), (2, Some(s("github\tkey")))),
        _ => panic!("understood"),
    }
    match parse_import_line(&"x".repeat(50)) {
        ImportLine::Malformed(n, head) => assert_eq!((n, head), (1, Some("x".repeat(40)))),
        _ => panic!("understood"),
    }
    match parse_import_line(&format!("{}é", "x".repeat(39))) {
        ImportLine::Malformed(n, head) => assert_eq!((n, head), (1, None)),
        _ => panic!("understood"),
    }
    assert!(matches!(parse_import_line("a\t \tb"), ImportLine::EmptyField));
}

#[test]
fn an_import_is_counted() {
    let mut run = ImportRun::start(false);
    assert!(run.can_count());
    assert!(matches!(run.line("# comment"), ImportStep::Nothing));
    match run.line("oops") {
        ImportStep::Say(msg) => assert_eq!(
            msg,
            "  line 2: skipping (expected 3 tab-separated fields, got 1): oops"
        ),
        _ => panic!("nothing said"),
    }
    match run.line("a\t \tb") {
        ImportStep::Say(msg) => assert_eq!(msg, "  line 3: skipping (empty field)"),
        _ => panic!("nothing said"),
    }
    for result in [Ok(7u64), Err(s("full"))] {
        match run.line("github\tapi\tvalue") {
            ImportStep::Store(secret) => {
                assert_eq!(secret.value.kind(), "api-key");
                assert_eq!(secret.value.get_field("key"), Some(s("value")));
                let said = run.stored(&secret.service, &secret.key, &result);
                let want = match result {
                    Ok(_) => "  stored: github/api (engram_id=7)",
                    Err(_) => "  ERROR storing github/api: full",
                };
                assert_eq!(said, want);
            }
            _ => panic!("nothing to store"),
        }
    }
    assert!(matches!(
        run.line(&format!("{}é", "x".repeat(39))),
        ImportStep::Unspeakable
    ));
    assert_eq!(run.summary(), "import complete: 1 stored, 3 skipped, 1 errors");
}

#[test]
fn improper_names_are_not_imported() {
    let long = "k".repeat(129);
    for dry_run in [false, true] {
        let mut run = ImportRun::start(dry_run);
        for (line, want) in [
            (
                s("bad name!\tk\tv"),
                "  line 1: skipping (service name may only contain alphanumeric characters, hyphens, underscores and dots)",
            ),
            (
                format!("github\t{}\tv", long),
                "  line 2: skipping (key name too long (max 128 characters))",
            ),
        ] {
            match run.line(&line) {
                ImportStep::Say(msg) => assert_eq!(msg, want),
                _ => panic!("nothing said"),
            }
        }
        let want = if dry_run {
            "dry run complete: 0 would be imported, 2 skipped"
        } else {
            "import complete: 0 stored, 2 skipped, 0 errors"
        };
        assert_eq!(run.summary(), want);
    }
}

#[test]
fn a_dry_run_stores_nothing() {
    let mut run = ImportRun::start(true);
    match run.line("github\tapi\tvé") {
        ImportStep::Say(msg) => {
            assert_eq!(msg, "  [dry run] would store: github/api (3 chars)")
        }
        _ => panic!("nothing said"),
    }
    run.line("oops");
    assert_eq!(run.summary(), "dry run complete: 1 would be imported, 1 skipped");
}

fn login() -> Secret {
    let mut secret = Secret::new(
        "github",
        "admin",
        SecretValue::Login { url: s("u"), username: s("me"), password: s("pw"), totp_seed: None },
    );
    secret.engram_id = Some(7);
    secret
}

#[test]
fn one_field_is_shown() {
    match show_secret(&login(), "github", "admin", Some("password"), true) {
        Ok(GetOutput::Exact(t)) => assert_eq!(t, "pw"),
        _ => panic!("not bare"),
    }
    match show_secret(&login(), "github", "admin", Some("password"), false) {
        Ok(GetOutput::Lines(l)) => assert_eq!(l, ["github/admin.password = pw"]),
        _ => panic!("no line"),
    }
    assert_eq!(
        show_secret(&login(), "github", "admin", Some("x"), true).err(),
        Some(s("field 'x' not found in github/admin (type: login)"))
    );
}

#[test]
fn a_bare_secret_is_shown() {
    assert!(matches!(
        show_secret(&login(), "github", "admin", None, true),
        Ok(GetOutput::Json)
    ));
    let note = Secret::new("a", "b", SecretValue::Note { content: s("c") });
    match show_secret(&note, "a", "b", None, true) {
        Ok(GetOutput::Exact(t)) => assert_eq!(t, "c"),
        _ => panic!("not bare"),
    }
}

#[test]
fn an_overview_is_shown() {
    match show_secret(&login(), "github", "admin", None, false) {
        Ok(GetOutput::Lines(l)) => assert_eq!(
            l,
            [
                "service:  github",
                "key:      admin",
                "type:     login",
                "fields:   url, username, password",
                "preview:  url=u, username=me, password=****",
                "engram:   #7",
                "",
                "use --field <name> to extract a specific value",
                "use --raw to get bare JSON or single field value",
            ]
        ),
        _ => panic!("no overview"),
    }
}

#[test]
fn secrets_in_a_table() {
    assert_eq!(secret_lines(&vec![]), ["no secrets stored"]);
    let note = Secret::new("a", "b", SecretValue::Note { content: s("c") });
    let lines = secret_lines(&vec![login(), note]);
    assert_eq!(
        lines,
        [
            "SERVICE  KEY    TYPE   PREVIEW",
            "-------  -----  -----  ------------------------------",
            "github   admin  login  url=u, username=me, password=****",
            "a        b      note   content=****",
            "",
            "2 secret(s)",
        ]
    );
}

#[test]
fn secrets_of_a_service() {
    let note = || Secret::new("a", "b", SecretValue::Note { content: s("c") });
    assert_eq!(filter_by_service(vec![login(), note()], None).len(), 2);
    let some = filter_by_service(vec![login(), note()], Some("a"));
    assert_eq!(some.len(), 1);
    assert_eq!(some[0].key, "b");
    assert_eq!(filter_by_service(vec![login()], Some("git")).len(), 0);
}

#[test]
fn agent_keys_in_a_table() {
    let mut store = AgentKeyStore::new();
    assert_eq!(
        agent_key_lines(&store.list()).unwrap(),
        [
            "no agent keys configured",
            "generate one with: cred agent-key generate <agent_id>",
        ]
    );
    let at = |secs| Timestamp::new(secs, 0).unwrap();
    let long = "x".repeat(31);
    store.generate_with("deploy-agent", &long, vec![], &[0xab; 32], at(0)).unwrap();
    store.generate_with("ci", "tests", vec![], &[0xcd; 32], at(60)).unwrap();
    store.revoke("ci").unwrap();
    store.touch_at("deploy-agent", at(1_704_164_645));
    assert_eq!(
        agent_key_lines(&store.list()).unwrap(),
        [
            "AGENT ID      KEY PREFIX  STATUS    CREATED               LAST USED             DESCRIPTION".to_string(),
            format!(
                "------------  ----------  --------  --------------------  --------------------  {}",
                "-".repeat(30)
            ),
            format!(
                "deploy-agent  abababab...  active    1970-01-01 00:00      2024-01-02 03:04      {}...",
                "x".repeat(27)
            ),
            s("ci            cdcdcdcd...  REVOKED   1970-01-01 00:01      never                 tests"),
            s(""),
            s("2 key(s) (1 active, 1 revoked)"),
        ]
    );
    store
        .generate_with("odd", &format!("{}éxxxx", "x".repeat(26)), vec![], &[1; 32], at(99))
        .unwrap();
    assert!(agent_key_lines(&store.list()).is_none());
}

#[test]
fn agent_identifiers() {
    for id in ["ci-bot", "a_B9"] {
        assert!(validate_agent_id(id).is_ok());
    }
    assert_eq!(validate_agent_id(""), Err(s("agent_id cannot be empty")));
    for id in ["a.b", "a b", "é"] {
        assert_eq!(
            validate_agent_id(id),
            Err(s("agent_id must contain only alphanumeric characters, hyphens, and underscores"))
        );
    }
}

#[test]
fn what_is_said_of_a_generated_key() {
    let lines = generated_lines("bot", "abc");
    assert_eq!(lines.len(), 12);
    assert_eq!(lines[3], "  Agent:  bot");
    assert_eq!(lines[4], "  Key:    abc");
    assert_eq!(lines[10], "    -H \"Authorization: Bearer abc\"");
}

#[test]
fn places_of_the_configuration() {
    assert_eq!(config_dir(Some("/x"), Some("/h")), ["/x", "cred"]);
    assert_eq!(config_dir(None, Some("/h")), ["/h", ".config", "cred"]);
    assert_eq!(config_dir(None, None), [".", "cred"]);
    assert_eq!(restore_dir(Some("/x"), None, None), ["/x", "cred"]);
    assert_eq!(restore_dir(None, Some("/h"), Some("/p")), ["/h", ".config", "cred"]);
    assert_eq!(restore_dir(None, None, Some("/p")), ["/p", ".config", "cred"]);
    assert_eq!(restore_dir(None, None, None), [".", ".config", "cred"]);
}

#[test]
fn paths_in_the_home_directory() {
    assert_eq!(shellexpand("~/a/b", Some("/h")), "/h/a/b");
    assert_eq!(shellexpand("~/a/b", None), "~/a/b");
    assert_eq!(shellexpand("/a/~/b", Some("/h")), "/a/~/b");
    assert_eq!(shellexpand("~", Some("/h")), "~");
}

#[test]
fn yes_and_no() {
    for line in ["y", "Y", " y\n"] {
        assert!(said_yes(line));
    }
    for line in ["", "\n", "yes", "n", "yy"] {
        assert!(!said_yes(line));
    }
}

#[test]
fn passphrases_are_checked() {
    let good = "correct horse battery";
    assert_eq!(check_passphrase(good, good), None);
    assert_eq!(check_passphrase("a", "b"), Some(s("passphrases do not match")));
    assert_eq!(
        check_passphrase("too short", "too short"),
        Some(s("passphrase too short (minimum 20 characters). use a memorable phrase."))
    );
    let twenty = "é".repeat(10);
    assert_eq!(check_passphrase(&twenty, &twenty), None);
}

#[test]
fn a_token_is_set_up() {
    let (mut run, action) = InitRun::start(true);
    assert!(matches!(action, InitAction::AskOverwrite));
    assert!(matches!(run.overwrite_answer("y\n"), InitAction::FindDevice));
    match run.device_found_with([0xab; 20]) {
        InitAction::ShowSecret(hex) => assert_eq!(hex, "ab".repeat(20)),
        _ => panic!("not shown"),
    }
    match run.written_answer("y") {
        InitAction::ProgramToken(secret) => assert_eq!(secret, [0xab; 20]),
        _ => panic!("not programmed"),
    }
    assert!(matches!(run.programmed(), InitAction::ReadChallenge));
    assert!(matches!(run.challenge_read(vec![1, 2, 3]), InitAction::AskPassphrase));
    let phrase = "correct horse battery staple";
    match run.passphrases(phrase, phrase) {
        InitAction::WriteRecovery(data) => assert_eq!(
            decrypt_recovery_v2(phrase, &data),
            Ok((vec![0xab; 20], Some(vec![1, 2, 3])))
        ),
        _ => panic!("no file"),
    }
    assert!(matches!(run.recovery_written(), InitAction::DeriveKey));
    assert!(matches!(run.key_derived(&Key::from_bytes([1; 32])), InitAction::Finish));
    assert_eq!(run.stage(), InitStage::Done);
}

#[test]
fn setting_up_can_be_cancelled() {
    let (mut run, _) = InitRun::start(true);
    match run.overwrite_answer("\n") {
        InitAction::Cancel(msg) => assert_eq!(msg, "cancelled"),
        _ => panic!("went on"),
    }
    assert_eq!(run.stage(), InitStage::Stopped);
    let (mut run, action) = InitRun::start(false);
    assert!(matches!(action, InitAction::FindDevice));
    match run.device_found() {
        InitAction::ShowSecret(hex) => assert_eq!(hex.len(), 40),
        _ => panic!("not shown"),
    }
    match run.written_answer("n") {
        InitAction::Cancel(msg) => assert_eq!(msg, "cancelled -- secret was NOT programmed"),
        _ => panic!("went on"),
    }
}

#[test]
fn setting_up_needs_a_passphrase() {
    let ready = |challenge: Vec<u8>| {
        let (mut run, _) = InitRun::start(false);
        run.device_found();
        run.written_answer("y");
        run.programmed();
        run.challenge_read(challenge);
        run
    };
    let phrase = "correct horse battery staple";
    for (challenge, a, b, want) in [
        (vec![], phrase, "other", "passphrases do not match"),
        (
            vec![],
            "short",
            "short",
            "passphrase too short (minimum 20 characters). use a memorable phrase.",
        ),
        (vec![0u8; 65536], phrase, phrase, "challenge too large"),
    ] {
        let mut run = ready(challenge);
        match run.passphrases(a, b) {
            InitAction::Fail(msg) => assert_eq!(msg, want),
            _ => panic!("went on"),
        }
        assert_eq!(run.stage(), InitStage::Stopped);
    }
}

#[test]
fn the_chain_works() {
    let key = Key::from_bytes([5; 32]);
    let data = verify_chain(&key).unwrap();
    assert_eq!(decrypt(&key, &data).unwrap(), b"cred-init-verification-test");
}

#[test]
fn plans_of_a_recovery() {
    let c = Some(vec![1u8]);
    assert_eq!(recover_plan(true, "y", &c), RecoverPlan::RestoreChallenge);
    assert_eq!(recover_plan(true, "y", &None), RecoverPlan::NewChallenge);
    assert_eq!(recover_plan(true, "n", &c), RecoverPlan::ShowSecret);
    assert_eq!(recover_plan(false, "y", &c), RecoverPlan::ShowSecret);
}

#[test]
fn what_is_said_of_a_recovery() {
    assert_eq!(
        recovery_report(&vec![0; 20], &Some(vec![0; 32])),
        ["secret recovered (20 bytes)", "challenge file recovered (32 bytes)"]
    );
    let old = recovery_report(&vec![0; 20], &None);
    assert_eq!(old.len(), 4);
    assert_eq!(old[1], "WARNING: v1 recovery file -- no challenge included.");
    let secret = vec![0xabu8, 0x01];
    assert_eq!(
        recover_closing(RecoverPlan::ShowSecret, &secret),
        [
            "HMAC secret (hex): ab01",
            "program a YubiKey manually:",
            "  ykman otp chalresp 2 --force ab01",
        ]
    );
    assert_eq!(
        recover_closing(RecoverPlan::RestoreChallenge, &secret),
        ["challenge file restored.", "ready to use."]
    );
    assert_eq!(recover_closing(RecoverPlan::NewChallenge, &secret).len(), 3);
}
