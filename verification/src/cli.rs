//! The remaining commands of the command line: what they decide and print.

use crate::text;
use crate::types;
use crate::types::{Secret, SecretValue};
use vstd::prelude::*;

verus! {

// ---------------------------------------------------------------------------
// Showing a secret
// ---------------------------------------------------------------------------

/// What is printed of a secret.
pub enum GetOutput {
    /// A text, as it is.
    Exact(String),
    /// Lines.
    Lines(Vec<String>),
    /// The value in JSON.
    Json,
}

/// What is printed of a secret, as contracts see it.
#[verifier::ext_equal]
pub enum GetOutputView {
    Exact(Seq<char>),
    Lines(Seq<Seq<char>>),
    Json,
}

impl View for GetOutput {
    type V = GetOutputView;

    open spec fn view(&self) -> GetOutputView {
        match self {
            GetOutput::Exact(t) => GetOutputView::Exact(t@),
            GetOutput::Lines(l) => GetOutputView::Lines(text::texts(l@)),
            GetOutput::Json => GetOutputView::Json,
        }
    }
}

/// The line on the number under which a backend holds a secret.
pub open spec fn engram_lines(id: Option<u64>) -> Seq<Seq<char>> {
    match id {
        Some(n) => seq!["engram:   #"@ + text::digits(n as nat)],
        None => Seq::empty(),
    }
}

/// The overview of a secret.
pub open spec fn overview(s: Secret) -> Seq<Seq<char>> {
    seq![
        "service:  "@ + s.service@,
        "key:      "@ + s.key@,
        "type:     "@ + types::kind_of(s.value),
        "fields:   "@ + text::joined(types::names_of(types::fields_of(s.value)), ", "@),
        "preview:  "@ + types::preview_of(s.value),
    ] + engram_lines(s.engram_id) + seq![
        ""@,
        "use --field <name> to extract a specific value"@,
        "use --raw to get bare JSON or single field value"@,
    ]
}

/// What is printed of a secret: one field, alone or with its name; the bare
/// text or JSON; or an overview. A field that is not there is an error.
pub open spec fn get_output(
    s: Secret,
    service: Seq<char>,
    key: Seq<char>,
    field: Option<Seq<char>>,
    raw: bool,
) -> Result<GetOutputView, Seq<char>> {
    match field {
        Some(f) => match types::field_text(types::fields_of(s.value), f) {
            None => Err(
                "field '"@ + f + "' not found in "@ + service + "/"@ + key + " (type: "@
                    + types::kind_of(s.value) + ")"@,
            ),
            Some(v) => Ok(
                if raw {
                    GetOutputView::Exact(v)
                } else {
                    GetOutputView::Lines(seq![s.service@ + "/"@ + s.key@ + "."@ + f + " = "@ + v])
                },
            ),
        },
        None => Ok(
            if raw {
                match types::bare_text(s.value) {
                    Some(v) => GetOutputView::Exact(v),
                    None => GetOutputView::Json,
                }
            } else {
                GetOutputView::Lines(overview(s))
            },
        ),
    }
}

fn labelled(label: &str, value: &str) -> (r: String)
    ensures
        r@ == label@ + value@,
{
    let mut line = label.to_owned();
    line.append(value);
    line
}

/// The overview of a secret.
pub fn overview_lines(s: &Secret) -> (r: Vec<String>)
    ensures
        text::texts(r@) == overview(*s),
{
    let names = text::join(&s.value.field_names(), ", ");
    let preview = s.value.redacted_preview();
    let mut out: Vec<String> = Vec::new();
    out.push(labelled("service:  ", s.service.as_str()));
    out.push(labelled("key:      ", s.key.as_str()));
    out.push(labelled("type:     ", s.value.kind()));
    out.push(labelled("fields:   ", names.as_str()));
    out.push(labelled("preview:  ", preview.as_str()));
    match s.engram_id {
        Some(id) => {
            out.push(labelled("engram:   #", text::decimal(id).as_str()));
        },
        None => {},
    }
    out.push("".to_owned());
    out.push("use --field <name> to extract a specific value".to_owned());
    out.push("use --raw to get bare JSON or single field value".to_owned());
    assert(text::texts(out@) =~= overview(*s));
    out
}

/// What is printed of a secret.
pub fn show_secret(s: &Secret, service: &str, key: &str, field: Option<&str>, raw: bool) -> (r:
    Result<GetOutput, String>)
    ensures
        ({
            let want = get_output(
                *s,
                service@,
                key@,
                match field {
                    Some(f) => Some(f@),
                    None => None,
                },
                raw,
            );
            match r {
                Ok(out) => want == Ok::<_, Seq<char>>(out@),
                Err(msg) => want == Err::<GetOutputView, _>(msg@),
            }
        }),
{
    match field {
        Some(f) => match s.value.get_field(f) {
            None => {
                let mut msg = text::concat3("field '", f, "' not found in ");
                msg.append(service);
                msg.append("/");
                msg.append(key);
                msg.append(" (type: ");
                msg.append(s.value.kind());
                msg.append(")");
                Err(msg)
            },
            Some(v) => if raw {
                Ok(GetOutput::Exact(v))
            } else {
                let mut line = text::concat3(s.service.as_str(), "/", s.key.as_str());
                line.append(".");
                line.append(f);
                line.append(" = ");
                line.append(v.as_str());
                let ghost t = line@;
                let mut lines: Vec<String> = Vec::new();
                lines.push(line);
                assert(text::texts(lines@) =~= seq![t]);
                Ok(GetOutput::Lines(lines))
            },
        },
        None => if raw {
            match s.value.bare_value() {
                Some(v) => Ok(GetOutput::Exact(v)),
                None => Ok(GetOutput::Json),
            }
        } else {
            Ok(GetOutput::Lines(overview_lines(s)))
        },
    }
}

// ---------------------------------------------------------------------------
// Agent keys
// ---------------------------------------------------------------------------

/// The characters of agent identifiers: ASCII letters and digits, hyphen,
/// underscore.
pub open spec fn id_char(c: char) -> bool {
    ||| 'a' <= c <= 'z'
    ||| 'A' <= c <= 'Z'
    ||| '0' <= c <= '9'
    ||| c == '-'
    ||| c == '_'
}

/// What is wrong with an agent identifier, if anything is.
pub open spec fn id_problem(agent_id: Seq<char>) -> Option<Seq<char>> {
    if agent_id.len() == 0 {
        Some("agent_id cannot be empty"@)
    } else if exists|i: int| 0 <= i < agent_id.len() && !id_char(#[trigger] agent_id[i]) {
        Some("agent_id must contain only alphanumeric characters, hyphens, and underscores"@)
    } else {
        None
    }
}

/// Accepts a proper agent identifier, and says what is wrong with any other.
pub fn validate_agent_id(agent_id: &str) -> (r: Result<(), String>)
    ensures
        r is Ok <==> id_problem(agent_id@) is None,
        r matches Err(msg) ==> id_problem(agent_id@) == Some(msg@),
{
    let v = text::chars_of(agent_id);
    if v.len() == 0 {
        return Err("agent_id cannot be empty".to_owned());
    }
    let mut i: usize = 0;
    while i < v.len()
        invariant
            v@ == agent_id@,
            v@.len() > 0,
            i <= v@.len(),
            forall|j: int| 0 <= j < i ==> id_char(#[trigger] agent_id@[j]),
        decreases v@.len() - i,
    {
        let c = v[i];
        let fits = ('a' <= c && c <= 'z') || ('A' <= c && c <= 'Z') || ('0' <= c && c <= '9') || c
            == '-' || c == '_';
        if !fits {
            assert(!id_char(agent_id@[i as int]));
            return Err(
                "agent_id must contain only alphanumeric characters, hyphens, and underscores".to_owned(
                ),
            );
        }
        i += 1;
    }
    Ok(())
}

/// What is said of a key that was generated.
pub open spec fn generated_text(agent_id: Seq<char>, key: Seq<char>) -> Seq<Seq<char>> {
    seq![
        ""@,
        "=== AGENT KEY GENERATED ==="@,
        ""@,
        "  Agent:  "@ + agent_id,
        "  Key:    "@ + key,
        ""@,
        "SAVE THIS KEY NOW. It will NOT be shown again."@,
        ""@,
        "Usage:"@,
        "  curl http://localhost:4400/secret/myservice/mykey \\"@,
        "    -H \"Authorization: Bearer "@ + key + "\""@,
        "==========================="@,
    ]
}

/// What is said of a key that was generated.
pub fn generated_lines(agent_id: &str, key: &str) -> (r: Vec<String>)
    ensures
        text::texts(r@) == generated_text(agent_id@, key@),
{
    let mut out: Vec<String> = Vec::new();
    out.push("".to_owned());
    out.push("=== AGENT KEY GENERATED ===".to_owned());
    out.push("".to_owned());
    out.push(labelled("  Agent:  ", agent_id));
    out.push(labelled("  Key:    ", key));
    out.push("".to_owned());
    out.push("SAVE THIS KEY NOW. It will NOT be shown again.".to_owned());
    out.push("".to_owned());
    out.push("Usage:".to_owned());
    out.push("  curl http://localhost:4400/secret/myservice/mykey \\".to_owned());
    out.push(text::concat3("    -H \"Authorization: Bearer ", key, "\""));
    out.push("===========================".to_owned());
    assert(text::texts(out@) =~= generated_text(agent_id@, key@));
    out
}

// ---------------------------------------------------------------------------
// Paths
// ---------------------------------------------------------------------------

/// The steps of the path of the directory that holds challenge, agent keys and
/// audit log.
pub open spec fn config_steps(xdg: Option<Seq<char>>, home: Option<Seq<char>>) -> Seq<Seq<char>> {
    match (xdg, home) {
        (Some(x), _) => seq![x, "cred"@],
        (None, Some(h)) => seq![h, ".config"@, "cred"@],
        (None, None) => seq!["."@, "cred"@],
    }
}

/// The steps of the path to which a challenge is restored. They differ from
/// [`config_steps`] where neither a configuration nor a home directory is set.
pub open spec fn restore_steps(
    xdg: Option<Seq<char>>,
    home: Option<Seq<char>>,
    profile: Option<Seq<char>>,
) -> Seq<Seq<char>> {
    match (xdg, home, profile) {
        (Some(x), _, _) => seq![x, "cred"@],
        (None, Some(h), _) => seq![h, ".config"@, "cred"@],
        (None, None, Some(p)) => seq![p, ".config"@, "cred"@],
        (None, None, None) => seq!["."@, ".config"@, "cred"@],
    }
}

/// A path with `~/` at its start taken for the home directory, if that is set.
pub open spec fn expanded(path: Seq<char>, home: Option<Seq<char>>) -> Seq<char> {
    match (text::after_prefix(path, "~/"@), home) {
        (Some(rest), Some(h)) => h + "/"@ + rest,
        _ => path,
    }
}

/// The view of an optional text.
pub open spec fn str_option(s: Option<&str>) -> Option<Seq<char>> {
    match s {
        Some(t) => Some(t@),
        None => None,
    }
}

/// The steps of the path of the directory that holds challenge, agent keys and
/// audit log.
pub fn config_dir(xdg: Option<&str>, home: Option<&str>) -> (r: Vec<String>)
    ensures
        text::texts(r@) == config_steps(str_option(xdg), str_option(home)),
{
    let mut out: Vec<String> = Vec::new();
    match xdg {
        Some(x) => {
            out.push(x.to_owned());
        },
        None => match home {
            Some(h) => {
                out.push(h.to_owned());
                out.push(".config".to_owned());
            },
            None => {
                out.push(".".to_owned());
            },
        },
    }
    out.push("cred".to_owned());
    assert(text::texts(out@) =~= config_steps(str_option(xdg), str_option(home)));
    out
}

/// The steps of the path of the directory to which a challenge is restored.
pub fn restore_dir(xdg: Option<&str>, home: Option<&str>, profile: Option<&str>) -> (r: Vec<String>)
    ensures
        text::texts(r@) == restore_steps(str_option(xdg), str_option(home), str_option(profile)),
{
    let mut out: Vec<String> = Vec::new();
    match xdg {
        Some(x) => {
            out.push(x.to_owned());
        },
        None => {
            let base = match home {
                Some(h) => h.to_owned(),
                None => match profile {
                    Some(p) => p.to_owned(),
                    None => ".".to_owned(),
                },
            };
            out.push(base);
            out.push(".config".to_owned());
        },
    }
    out.push("cred".to_owned());
    assert(text::texts(out@) =~= restore_steps(
        str_option(xdg),
        str_option(home),
        str_option(profile),
    ));
    out
}

/// Takes `~/` at the start of a path for the home directory.
pub fn shellexpand(path: &str, home: Option<&str>) -> (r: String)
    ensures
        r@ == expanded(path@, str_option(home)),
{
    match text::strip_prefix(path, "~/") {
        Some(rest) => match home {
            Some(h) => {
                return text::concat3(h, "/", rest.as_str());
            },
            None => {},
        },
        None => {},
    }
    path.to_owned()
}

// ---------------------------------------------------------------------------
// Laws
// ---------------------------------------------------------------------------

/// A challenge is restored to where it is looked for, if a configuration or a
/// home directory is set.
pub proof fn law_challenge_is_restored_where_it_is_read(
    xdg: Option<Seq<char>>,
    home: Option<Seq<char>>,
    profile: Option<Seq<char>>,
)
    requires
        xdg is Some || home is Some,
    ensures
        restore_steps(xdg, home, profile) == config_steps(xdg, home),
{
}

/// Without `--raw` and without a field, nothing of a secret field is printed:
/// the overview is the same for any other texts of the secret fields.
pub proof fn law_overview_hides_secrets(a: Secret, b: Secret)
    requires
        a.service@ == b.service@,
        a.key@ == b.key@,
        a.engram_id == b.engram_id,
        types::alike(a.value, b.value),
    ensures
        overview(a) == overview(b),
{
    types::law_preview_hides_secrets(a.value, b.value);
}

/// Asked for a field, raw, nothing is printed but the text of the first field
/// of that name; and it is an error exactly if there is none. Not raw, the text
/// stands behind the names of the secret and of the field.
pub proof fn law_the_field_that_is_asked_for_is_printed(
    s: Secret,
    service: Seq<char>,
    key: Seq<char>,
    field: Seq<char>,
)
    ensures
        get_output(s, service, key, Some(field), true) matches Ok(out) ==> exists|i: int|
            0 <= i < types::fields_of(s.value).len() && (#[trigger] types::fields_of(s.value)[i]).0
                == field && out == GetOutputView::Exact(types::fields_of(s.value)[i].1) && forall|
                j: int,
            |
                0 <= j < i ==> (#[trigger] types::fields_of(s.value)[j]).0 != field,
        get_output(s, service, key, Some(field), false) matches Ok(out) ==> exists|i: int|
            0 <= i < types::fields_of(s.value).len() && (#[trigger] types::fields_of(s.value)[i]).0
                == field && out == GetOutputView::Lines(
                seq![
                    s.service@ + "/"@ + s.key@ + "."@ + field + " = "@ + types::fields_of(
                        s.value,
                    )[i].1,
                ],
            ),
        forall|raw: bool| (#[trigger] get_output(s, service, key, Some(field), raw)) is Err <==> forall|
            i: int,
        |
            0 <= i < types::fields_of(s.value).len() ==> (#[trigger] types::fields_of(s.value)[i]).0
                != field,
{
    let f = types::fields_of(s.value);
    types::law_a_field_is_found_by_its_name(f, field);
    if types::field_text(f, field) is Some {
        let t = types::field_text(f, field)->0;
        let i = choose|i: int|
            0 <= i < f.len() && #[trigger] f[i] == (field, t) && forall|j: int|
                0 <= j < i ==> (#[trigger] f[j]).0 != field;
        assert(f[i].0 == field);
    }
}

/// The fields of each sort of value are printed by their names: the key of an
/// API key, the password of a login, and so on.
pub proof fn law_parts_are_printed_by_their_names(s: Secret, service: Seq<char>, key: Seq<char>)
    ensures
        match s.value {
            SecretValue::ApiKey { key: k, url, .. } => {
                &&& prints(s, service, key, "key"@, k@)
                &&& url matches Some(u) ==> prints(s, service, key, "url"@, u@)
            },
            SecretValue::Login { url, username, password, .. } => {
                &&& prints(s, service, key, "url"@, url@)
                &&& prints(s, service, key, "username"@, username@)
                &&& prints(s, service, key, "password"@, password@)
            },
            SecretValue::OAuthApp { client_id, client_secret, .. } => {
                &&& prints(s, service, key, "client_id"@, client_id@)
                &&& prints(s, service, key, "client_secret"@, client_secret@)
            },
            SecretValue::SshKey { private_key, .. } => prints(
                s,
                service,
                key,
                "private_key"@,
                private_key@,
            ),
            SecretValue::Note { content } => prints(s, service, key, "content"@, content@),
            SecretValue::Environment { .. } => true,
        },
{
    reveal_with_fuel(types::field_text, 4);
    reveal_strlit("key");
    reveal_strlit("url");
    reveal_strlit("username");
    reveal_strlit("password");
    reveal_strlit("client_id");
    reveal_strlit("client_secret");
    assert("key"@[0] == 'k' && "url"@[0] == 'u');
    assert("url"@.len() == 3 && "username"@.len() == 8 && "password"@.len() == 8);
    assert("username"@[0] == 'u' && "password"@[0] == 'p');
    assert("client_id"@.len() == 9 && "client_secret"@.len() == 13);
    let f = types::fields_of(s.value);
    match s.value {
        SecretValue::ApiKey { key: k, url, .. } => {
            assert(f[0] == ("key"@, k@));
            if url is Some {
                assert(f.drop_first()[0] == ("url"@, url->0@));
            }
        },
        SecretValue::Login { url, username, password, .. } => {
            assert(f[0] == ("url"@, url@));
            assert(f.drop_first()[0] == ("username"@, username@));
            assert(f.drop_first().drop_first()[0] == ("password"@, password@));
        },
        SecretValue::OAuthApp { client_id, client_secret, .. } => {
            assert(f[0] == ("client_id"@, client_id@));
            assert(f.drop_first()[0] == ("client_secret"@, client_secret@));
        },
        SecretValue::SshKey { private_key, .. } => {
            assert(f[0] == ("private_key"@, private_key@));
        },
        SecretValue::Note { content } => {
            assert(f[0] == ("content"@, content@));
        },
        SecretValue::Environment { .. } => {},
    }
}

/// Asked for a field, raw, just this text is printed.
pub open spec fn prints(
    s: Secret,
    service: Seq<char>,
    key: Seq<char>,
    field: Seq<char>,
    t: Seq<char>,
) -> bool {
    get_output(s, service, key, Some(field), true) == Ok::<_, Seq<char>>(GetOutputView::Exact(t))
}

/// Without a field and raw, a key or a note is printed as it is, and any other
/// value in JSON; it never fails.
pub proof fn law_raw_output_is_the_bare_value(s: Secret, service: Seq<char>, key: Seq<char>)
    ensures
        s.value matches SecretValue::ApiKey { key: k, .. } ==> get_output(
            s,
            service,
            key,
            None,
            true,
        ) == Ok::<_, Seq<char>>(GetOutputView::Exact(k@)),
        s.value matches SecretValue::Note { content } ==> get_output(s, service, key, None, true)
            == Ok::<_, Seq<char>>(GetOutputView::Exact(content@)),
        !(s.value is ApiKey) && !(s.value is Note) ==> get_output(s, service, key, None, true)
            == Ok::<_, Seq<char>>(GetOutputView::Json),
        get_output(s, service, key, None, false) == Ok::<_, Seq<char>>(
            GetOutputView::Lines(overview(s)),
        ),
{
}

/// The overview has a line for the service, the key, the kind and the preview,
/// and for the number if there is one.
pub proof fn law_the_overview_names_the_secret(s: Secret)
    ensures
        overview(s).contains("service:  "@ + s.service@),
        overview(s).contains("key:      "@ + s.key@),
        overview(s).contains("type:     "@ + types::kind_of(s.value)),
        overview(s).contains("preview:  "@ + types::preview_of(s.value)),
        s.engram_id matches Some(id) ==> overview(s).contains(
            "engram:   #"@ + text::digits(id as nat),
        ),
        overview(s).len() == if s.engram_id is Some {
            9int
        } else {
            8
        },
{
    let o = overview(s);
    assert(o[0] == "service:  "@ + s.service@);
    assert(o[1] == "key:      "@ + s.key@);
    assert(o[2] == "type:     "@ + types::kind_of(s.value));
    assert(o[4] == "preview:  "@ + types::preview_of(s.value));
    if s.engram_id is Some {
        assert(o[5] == "engram:   #"@ + text::digits(s.engram_id->0 as nat));
    }
}

/// Agent identifiers are texts of one or more ASCII letters, digits, hyphens
/// and underscores.
pub proof fn law_proper_agent_ids(agent_id: Seq<char>)
    ensures
        id_problem(agent_id) is None <==> agent_id.len() > 0 && forall|i: int|
            0 <= i < agent_id.len() ==> {
                ||| 'a' <= #[trigger] agent_id[i] <= 'z'
                ||| 'A' <= agent_id[i] <= 'Z'
                ||| '0' <= agent_id[i] <= '9'
                ||| agent_id[i] == '-'
                ||| agent_id[i] == '_'
            },
{
    if id_problem(agent_id) is None {
        assert forall|i: int| 0 <= i < agent_id.len() implies id_char(#[trigger] agent_id[i]) by {}
    }
}

/// A key that was generated is shown, with the agent it is for, in lines that
/// say nothing else.
pub proof fn law_a_generated_key_is_shown(agent_id: Seq<char>, key: Seq<char>)
    ensures
        generated_text(agent_id, key).contains("  Agent:  "@ + agent_id),
        generated_text(agent_id, key).contains("  Key:    "@ + key),
        exists|i: int|
            0 <= i < generated_text(agent_id, key).len() && text::holds(
                #[trigger] generated_text(agent_id, key)[i],
                "Bearer "@ + key,
            ),
{
    let g = generated_text(agent_id, key);
    assert(g[3] == "  Agent:  "@ + agent_id);
    assert(g[4] == "  Key:    "@ + key);
    reveal_strlit("    -H \"Authorization: Bearer ");
    reveal_strlit("Bearer ");
    let head = "    -H \"Authorization: Bearer "@;
    let n = head.len() - 7;
    assert(head =~= head.take(n) + "Bearer "@);
    text::law_what_a_text_holds(head.take(n), "Bearer "@ + key, "\""@);
    assert(g[10] =~= head.take(n) + ("Bearer "@ + key) + "\""@);
}

/// The directory is that of the configuration if it is set, else `.config` in
/// the home directory, else the present one, and `cred` in it.
pub proof fn law_places_of_the_configuration(x: Seq<char>, h: Seq<char>, home: Option<Seq<char>>)
    ensures
        config_steps(Some(x), home) == seq![x, "cred"@],
        config_steps(None, Some(h)) == seq![h, ".config"@, "cred"@],
        config_steps(None, None) == seq!["."@, "cred"@],
        forall|profile: Option<Seq<char>>| #[trigger]
            restore_steps(Some(x), home, profile) == seq![x, "cred"@],
        forall|profile: Option<Seq<char>>| #[trigger]
            restore_steps(None, Some(h), profile) == seq![h, ".config"@, "cred"@],
        restore_steps(None, None, Some(h)) == seq![h, ".config"@, "cred"@],
        restore_steps(None, None, None) == seq!["."@, ".config"@, "cred"@],
{
}

/// A path in the home directory is expanded if that is set; any other path
/// stays as it is.
pub proof fn law_home_paths_are_expanded(rest: Seq<char>, home: Seq<char>, path: Seq<char>)
    ensures
        expanded("~/"@ + rest, Some(home)) == home + "/"@ + rest,
        expanded(path, None) == path,
        path.len() < 2 || path[0] != '~' || path[1] != '/' ==> expanded(path, Some(home)) == path,
{
    reveal_strlit("~/");
    text::law_prefixes_are_taken_off("~/"@ + rest, "~/"@, rest);
    text::law_prefixes_are_taken_off(path, "~/"@, rest);
    if path.len() >= 2 {
        assert(path.take(2)[0] == path[0] && path.take(2)[1] == path[1]);
    }
}

/// A field that is not there is named in the error, with the secret and its
/// kind.
pub proof fn law_a_missing_field_is_named(
    s: Secret,
    service: Seq<char>,
    key: Seq<char>,
    field: Seq<char>,
    raw: bool,
)
    ensures
        get_output(s, service, key, Some(field), raw) matches Err(msg) ==> text::begins(
            msg,
            "field '"@ + field + "'"@,
        ) && text::holds(msg, service + "/"@ + key) && text::holds(msg, types::kind_of(s.value)),
{
    match get_output(s, service, key, Some(field), raw) {
        Err(msg) => {
            assert("' not found in "@ =~= "'"@ + "' not found in "@.drop_first()) by {
                reveal_strlit("' not found in ");
                reveal_strlit("'");
            }
            let head = "field '"@ + field + "'"@;
            assert(msg.take(head.len() as int) =~= head);
            let a = "field '"@ + field + "' not found in "@;
            let name = service + "/"@ + key;
            let kind = types::kind_of(s.value);
            assert(msg =~= a + name + (" (type: "@ + kind + ")"@));
            text::law_what_a_text_holds(a, name, " (type: "@ + kind + ")"@);
            assert(msg =~= (a + name + " (type: "@) + kind + ")"@);
            text::law_what_a_text_holds(a + name + " (type: "@, kind, ")"@);
        },
        _ => {},
    }
}

/// The overview has the names of all fields in one line.
pub proof fn law_the_overview_names_the_fields(s: Secret, i: int)
    requires
        0 <= i < types::fields_of(s.value).len(),
    ensures
        text::begins(overview(s)[3], "fields:   "@),
        text::holds(overview(s)[3], types::fields_of(s.value)[i].0),
{
    let names = types::names_of(types::fields_of(s.value));
    let all = text::joined(names, ", "@);
    text::law_joining_keeps_every_part(names, ", "@, i);
    let (a, b) = text::law_what_is_held_can_be_cut_out(all, names[i]);
    let h = "fields:   "@;
    assert(overview(s)[3] == h + all);
    assert(h + all =~= (h + a) + names[i] + b);
    text::law_what_a_text_holds(h + a, names[i], b);
    text::law_how_a_text_begins(h, all, all);
}

} // verus!
