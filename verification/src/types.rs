//! Secrets, and who asks for them.

use crate::clock::Timestamp;
use crate::text;
use vstd::prelude::*;

verus! {

/// Environment variables, each name once.
pub struct EnvVars {
    pairs: Vec<(String, String)>,
}

impl View for EnvVars {
    type V = Seq<(Seq<char>, Seq<char>)>;

    closed spec fn view(&self) -> Seq<(Seq<char>, Seq<char>)> {
        pair_views(self.pairs@)
    }
}

/// What a secret holds.
pub enum SecretValue {
    /// A key of an API.
    ApiKey { key: String, url: Option<String>, notes: Option<String> },
    /// An account with a password.
    Login { url: String, username: String, password: String, totp_seed: Option<String> },
    /// A client of an OAuth provider.
    OAuthApp {
        client_id: String,
        client_secret: String,
        redirect_url: Option<String>,
        scopes: Option<String>,
    },
    /// A key pair for SSH.
    SshKey { private_key: String, public_key: Option<String>, passphrase: Option<String> },
    /// A text.
    Note { content: String },
    /// Environment variables.
    Environment { vars: EnvVars },
}

/// A secret under the names of its service and key.
pub struct Secret {
    pub service: String,
    pub key: String,
    pub value: SecretValue,
    pub engram_id: Option<u64>,
    pub created_at: Option<Timestamp>,
}

/// A secret as a backend holds it: the value is hexadecimal ciphertext.
pub struct RawSecret {
    pub id: u64,
    pub service: String,
    pub key: String,
    pub ciphertext: String,
    pub created_at: Option<String>,
}

/// Who sent a request.
pub enum AuthLevel {
    /// The owner, who may do everything.
    Owner,
    /// An agent, who may read what its scopes open.
    Agent(String),
}

/// Who sent a request, as contracts see it.
pub enum AuthView {
    Owner,
    Agent(Seq<char>),
}

impl View for AuthLevel {
    type V = AuthView;

    open spec fn view(&self) -> AuthView {
        match self {
            AuthLevel::Owner => AuthView::Owner,
            AuthLevel::Agent(id) => AuthView::Agent(id@),
        }
    }
}

/// A field that is there only if it was given.
pub open spec fn optional_field(name: Seq<char>, value: Option<String>) -> Seq<(
    Seq<char>,
    Seq<char>,
)> {
    match value {
        Some(v) => seq![(name, v@)],
        None => Seq::empty(),
    }
}

/// The fields of a value, in order.
pub open spec fn fields_of(v: SecretValue) -> Seq<(Seq<char>, Seq<char>)> {
    match v {
        SecretValue::ApiKey { key, url, notes } => seq![("key"@, key@)] + optional_field(
            "url"@,
            url,
        ) + optional_field("notes"@, notes),
        SecretValue::Login { url, username, password, totp_seed } => seq![
            ("url"@, url@),
            ("username"@, username@),
            ("password"@, password@),
        ] + optional_field("totp_seed"@, totp_seed),
        SecretValue::OAuthApp { client_id, client_secret, redirect_url, scopes } => seq![
            ("client_id"@, client_id@),
            ("client_secret"@, client_secret@),
        ] + optional_field("redirect_url"@, redirect_url) + optional_field("scopes"@, scopes),
        SecretValue::SshKey { private_key, public_key, passphrase } => seq![
            ("private_key"@, private_key@),
        ] + optional_field("public_key"@, public_key) + optional_field("passphrase"@, passphrase),
        SecretValue::Note { content } => seq![("content"@, content@)],
        SecretValue::Environment { vars } => vars@,
    }
}

/// The views of pairs of strings.
pub open spec fn pair_views(v: Seq<(String, String)>) -> Seq<(Seq<char>, Seq<char>)> {
    v.map_values(|p: (String, String)| (p.0@, p.1@))
}

/// The names of fields.
pub open spec fn names_of(f: Seq<(Seq<char>, Seq<char>)>) -> Seq<Seq<char>> {
    f.map_values(|p: (Seq<char>, Seq<char>)| p.0)
}

/// The text of the first field of a name.
pub open spec fn field_text(f: Seq<(Seq<char>, Seq<char>)>, name: Seq<char>) -> Option<Seq<char>>
    decreases f.len(),
{
    if f.len() == 0 {
        None
    } else if f.first().0 == name {
        Some(f.first().1)
    } else {
        field_text(f.drop_first(), name)
    }
}

/// The name of the kind of a value.
pub open spec fn kind_of(v: SecretValue) -> Seq<char> {
    match v {
        SecretValue::ApiKey { .. } => "api-key"@,
        SecretValue::Login { .. } => "login"@,
        SecretValue::OAuthApp { .. } => "oauth-app"@,
        SecretValue::SshKey { .. } => "ssh-key"@,
        SecretValue::Note { .. } => "note"@,
        SecretValue::Environment { .. } => "environment"@,
    }
}

/// The fields that are no secret, where the value is not an environment.
pub open spec fn open_field(name: Seq<char>) -> bool {
    ||| name == "url"@
    ||| name == "username"@
    ||| name == "client_id"@
    ||| name == "redirect_url"@
    ||| name == "scopes"@
    ||| name == "public_key"@
}

/// What is shown of a field: its name, and its text unless that is secret.
pub open spec fn redacted_field(f: (Seq<char>, Seq<char>), environment: bool) -> Seq<char> {
    f.0 + "="@ + if !environment && open_field(f.0) {
        f.1
    } else {
        "****"@
    }
}

/// What is shown of a value.
pub open spec fn preview_of(v: SecretValue) -> Seq<char> {
    text::joined(
        fields_of(v).map_values(
            |f: (Seq<char>, Seq<char>)| redacted_field(f, v is Environment),
        ),
        ", "@,
    )
}

/// The one text that stands for a value when it is piped, if there is one.
pub open spec fn bare_text(v: SecretValue) -> Option<Seq<char>> {
    match v {
        SecretValue::ApiKey { key, .. } => Some(key@),
        SecretValue::Note { content } => Some(content@),
        _ => None,
    }
}

// ---------------------------------------------------------------------------
// Environment variables
// ---------------------------------------------------------------------------

/// A list of variables after one more was put in: the later text of a name
/// replaces the earlier one.
pub open spec fn with_var(
    vars: Seq<(Seq<char>, Seq<char>)>,
    name: Seq<char>,
    value: Seq<char>,
) -> Seq<(Seq<char>, Seq<char>)>
    decreases vars.len(),
{
    if vars.len() == 0 {
        seq![(name, value)]
    } else if vars.first().0 == name {
        vars.update(0, (name, value))
    } else {
        seq![vars.first()] + with_var(vars.drop_first(), name, value)
    }
}

/// Each name occurs once.
pub open spec fn names_differ(vars: Seq<(Seq<char>, Seq<char>)>) -> bool {
    forall|i: int, j: int|
        0 <= i < j < vars.len() ==> (#[trigger] vars[i]).0 != (#[trigger] vars[j]).0
}

proof fn lemma_with_var_found(vars: Seq<(Seq<char>, Seq<char>)>, i: int, value: Seq<char>)
    requires
        0 <= i < vars.len(),
        forall|j: int| 0 <= j < i ==> (#[trigger] vars[j]).0 != vars[i].0,
    ensures
        with_var(vars, vars[i].0, value) == vars.update(i, (vars[i].0, value)),
    decreases vars.len(),
{
    if i > 0 {
        let rest = vars.drop_first();
        assert(vars[0].0 != vars[i].0);
        assert forall|j: int| 0 <= j < i - 1 implies (#[trigger] rest[j]).0 != rest[i - 1].0 by {
            assert(vars[j + 1].0 != vars[i].0);
        }
        lemma_with_var_found(rest, i - 1, value);
        assert(seq![vars[0]] + rest.update(i - 1, (vars[i].0, value)) =~= vars.update(
            i,
            (vars[i].0, value),
        ));
    }
}

proof fn lemma_with_var_new(vars: Seq<(Seq<char>, Seq<char>)>, name: Seq<char>, value: Seq<char>)
    requires
        forall|j: int| 0 <= j < vars.len() ==> (#[trigger] vars[j]).0 != name,
    ensures
        with_var(vars, name, value) == vars.push((name, value)),
    decreases vars.len(),
{
    if vars.len() > 0 {
        let rest = vars.drop_first();
        assert(vars[0].0 != name);
        assert forall|j: int| 0 <= j < rest.len() implies (#[trigger] rest[j]).0 != name by {
            assert(vars[j + 1].0 != name);
        }
        lemma_with_var_new(rest, name, value);
        assert(seq![vars[0]] + rest.push((name, value)) =~= vars.push((name, value)));
    } else {
        assert(vars.push((name, value)) =~= seq![(name, value)]);
    }
}

fn put_var(vars: &mut Vec<(String, String)>, name: String, value: String)
    ensures
        pair_views(final(vars)@) == with_var(
            pair_views(old(vars)@),
            name@,
            value@,
        ),
{
    let ghost before = pair_views(vars@);
    let ghost pair = (name@, value@);
    let mut i: usize = 0;
    while i < vars.len()
        invariant
            vars@ == old(vars)@,
            before == pair_views(vars@),
            pair == (name@, value@),
            i <= vars@.len(),
            forall|j: int| 0 <= j < i ==> (#[trigger] before[j]).0 != name@,
        decreases vars@.len() - i,
    {
        assert(before[i as int].0 == vars@[i as int].0@);
        if text::same(vars[i].0.as_str(), name.as_str()) {
            proof {
                lemma_with_var_found(before, i as int, value@);
                assert(pair_views(vars@.update(i as int, (name, value)))
                    =~= before.update(i as int, pair));
            }
            vars.set(i, (name, value));
            return;
        }
        i += 1;
    }
    proof {
        lemma_with_var_new(before, name@, value@);
        assert(pair_views(vars@.push((name, value))) =~= before.push(pair));
    }
    vars.push((name, value));
}

impl EnvVars {
    #[verifier::type_invariant]
    closed spec fn single(self) -> bool {
        names_differ(pair_views(self.pairs@))
    }

    /// No variables.
    pub fn new() -> (r: EnvVars)
        ensures
            r@ == Seq::<(Seq<char>, Seq<char>)>::empty(),
    {
        let r = EnvVars { pairs: Vec::new() };
        assert(r@ =~= Seq::<(Seq<char>, Seq<char>)>::empty());
        r
    }

    /// The names and texts, in order.
    pub fn pairs(&self) -> (r: &Vec<(String, String)>)
        ensures
            pair_views(r@) == self@,
            names_differ(self@),
    {
        proof {
            use_type_invariant(self);
        }
        &self.pairs
    }

    /// Puts a variable in. A text that the name had before is replaced.
    pub fn insert(&mut self, name: String, value: String)
        ensures
            final(self)@ == with_var(old(self)@, name@, value@),
    {
        proof {
            use_type_invariant(&*self);
            law_names_stay_different(pair_views(self.pairs@), name@, value@);
        }
        let mut pairs: Vec<(String, String)> = Vec::new();
        std::mem::swap(&mut pairs, &mut self.pairs);
        put_var(&mut pairs, name, value);
        self.pairs = pairs;
    }
}

// ---------------------------------------------------------------------------
// Values
// ---------------------------------------------------------------------------

fn push_field(out: &mut Vec<(String, String)>, name: &str, value: &String)
    ensures
        pair_views(final(out)@) == pair_views(old(out)@).push((name@, value@)),
{
    let ghost before = out@;
    let pair = (name.to_owned(), value.clone());
    out.push(pair);
    assert(pair_views(out@) =~= pair_views(before).push((name@, value@)));
}

fn push_optional(out: &mut Vec<(String, String)>, name: &str, value: &Option<String>)
    ensures
        pair_views(final(out)@) == pair_views(old(out)@) + optional_field(name@, *value),
{
    match value {
        Some(v) => {
            push_field(out, name, v);
            assert(pair_views(out@) =~= pair_views(old(out)@) + optional_field(name@, *value));
        },
        None => {
            assert(pair_views(out@) =~= pair_views(old(out)@) + optional_field(name@, *value));
        },
    }
}

impl SecretValue {
    /// The name of the kind.
    pub fn kind(&self) -> (r: &'static str)
        ensures
            r@ == kind_of(*self),
    {
        match self {
            SecretValue::ApiKey { .. } => "api-key",
            SecretValue::Login { .. } => "login",
            SecretValue::OAuthApp { .. } => "oauth-app",
            SecretValue::SshKey { .. } => "ssh-key",
            SecretValue::Note { .. } => "note",
            SecretValue::Environment { .. } => "environment",
        }
    }

    /// The fields, in order.
    pub fn fields(&self) -> (r: Vec<(String, String)>)
        ensures
            pair_views(r@) == fields_of(*self),
    {
        let mut out: Vec<(String, String)> = Vec::new();
        assert(pair_views(out@) =~= Seq::<(Seq<char>, Seq<char>)>::empty());
        match self {
            SecretValue::ApiKey { key, url, notes } => {
                push_field(&mut out, "key", key);
                push_optional(&mut out, "url", url);
                push_optional(&mut out, "notes", notes);
            },
            SecretValue::Login { url, username, password, totp_seed } => {
                push_field(&mut out, "url", url);
                push_field(&mut out, "username", username);
                push_field(&mut out, "password", password);
                push_optional(&mut out, "totp_seed", totp_seed);
            },
            SecretValue::OAuthApp { client_id, client_secret, redirect_url, scopes } => {
                push_field(&mut out, "client_id", client_id);
                push_field(&mut out, "client_secret", client_secret);
                push_optional(&mut out, "redirect_url", redirect_url);
                push_optional(&mut out, "scopes", scopes);
            },
            SecretValue::SshKey { private_key, public_key, passphrase } => {
                push_field(&mut out, "private_key", private_key);
                push_optional(&mut out, "public_key", public_key);
                push_optional(&mut out, "passphrase", passphrase);
            },
            SecretValue::Note { content } => {
                push_field(&mut out, "content", content);
            },
            SecretValue::Environment { vars } => {
                let pairs = vars.pairs();
                let mut i: usize = 0;
                while i < pairs.len()
                    invariant
                        i <= pairs@.len(),
                        pair_views(out@) == pair_views(pairs@).take(i as int),
                    decreases pairs@.len() - i,
                {
                    push_field(&mut out, pairs[i].0.as_str(), &pairs[i].1);
                    assert(pair_views(pairs@).take(i + 1) =~= pair_views(pairs@).take(
                        i as int,
                    ).push((pairs@[i as int].0@, pairs@[i as int].1@)));
                    i += 1;
                }
                assert(pair_views(pairs@).take(pairs@.len() as int) =~= pair_views(pairs@));
            },
        }
        assert(pair_views(out@) =~= fields_of(*self));
        out
    }

    /// The names of the fields, in order.
    pub fn field_names(&self) -> (r: Vec<String>)
        ensures
            text::texts(r@) == names_of(fields_of(*self)),
    {
        let fields = self.fields();
        let mut out: Vec<String> = Vec::new();
        let mut i: usize = 0;
        while i < fields.len()
            invariant
                i <= fields@.len(),
                out@.len() == i,
                forall|j: int| 0 <= j < i ==> (#[trigger] out@[j])@ == fields@[j].0@,
            decreases fields@.len() - i,
        {
            out.push(fields[i].0.clone());
            i += 1;
        }
        assert(fields_of(*self).len() == fields@.len());
        assert forall|j: int| 0 <= j < out@.len() implies text::texts(out@)[j] == names_of(
            fields_of(*self),
        )[j] by {
            assert(pair_views(fields@)[j] == fields_of(*self)[j]);
        }
        assert(text::texts(out@) =~= names_of(fields_of(*self)));
        out
    }

    /// The text of the field of a name.
    pub fn get_field(&self, name: &str) -> (r: Option<String>)
        ensures
            text::text_option(r) == field_text(fields_of(*self), name@),
    {
        let fields = self.fields();
        let ghost all = fields_of(*self);
        let mut i: usize = 0;
        assert(all.skip(0) =~= all);
        while i < fields.len()
            invariant
                all == fields_of(*self),
                pair_views(fields@) == all,
                i <= fields@.len(),
                field_text(all, name@) == field_text(all.skip(i as int), name@),
            decreases fields@.len() - i,
        {
            assert(all.len() == fields@.len());
            assert(all.skip(i as int).first() == all[i as int]);
            assert(all[i as int] == (fields@[i as int].0@, fields@[i as int].1@));
            assert(all.skip(i as int).drop_first() =~= all.skip(i + 1));
            if text::same(fields[i].0.as_str(), name) {
                return Some(fields[i].1.clone());
            }
            i += 1;
        }
        assert(all.len() == fields@.len());
        None
    }

    /// The one text that stands for the value when it is piped, if there is
    /// one.
    pub fn bare_value(&self) -> (r: Option<String>)
        ensures
            text::text_option(r) == bare_text(*self),
    {
        match self {
            SecretValue::ApiKey { key, .. } => Some(key.clone()),
            SecretValue::Note { content } => Some(content.clone()),
            _ => None,
        }
    }

    /// What may be shown of the value: its fields, without the texts of the
    /// secret ones.
    pub fn redacted_preview(&self) -> (r: String)
        ensures
            r@ == preview_of(*self),
    {
        let fields = self.fields();
        let environment = matches!(self, SecretValue::Environment { .. });
        let ghost show = |f: (Seq<char>, Seq<char>)| redacted_field(f, *self is Environment);
        let mut parts: Vec<String> = Vec::new();
        let mut i: usize = 0;
        while i < fields.len()
            invariant
                environment == (*self is Environment),
                i <= fields@.len(),
                parts@.len() == i,
                forall|j: int|
                    0 <= j < i ==> (#[trigger] parts@[j])@ == redacted_field(
                        (fields@[j].0@, fields@[j].1@),
                        environment,
                    ),
            decreases fields@.len() - i,
        {
            let name = fields[i].0.as_str();
            let shown = !environment && (text::same(name, "url") || text::same(name, "username")
                || text::same(name, "client_id") || text::same(name, "redirect_url") || text::same(
                name,
                "scopes",
            ) || text::same(name, "public_key"));
            let part = if shown {
                text::concat3(name, "=", fields[i].1.as_str())
            } else {
                text::concat3(name, "=", "****")
            };
            parts.push(part);
            i += 1;
        }
        let ghost all = fields_of(*self);
        assert(all.len() == fields@.len());
        assert forall|j: int| 0 <= j < parts@.len() implies text::texts(parts@)[j]
            == all.map_values(show)[j] by {
            assert(pair_views(fields@)[j] == all[j]);
        }
        assert(text::texts(parts@) =~= all.map_values(show));
        text::join(&parts, ", ")
    }
}

impl Secret {
    /// A secret that no backend holds yet.
    pub fn new(service: &str, key: &str, value: SecretValue) -> (r: Secret)
        ensures
            r.service@ == service@,
            r.key@ == key@,
            r.value == value,
            r.engram_id is None,
            r.created_at is None,
    {
        Secret {
            service: service.to_owned(),
            key: key.to_owned(),
            value,
            engram_id: None,
            created_at: None,
        }
    }
}

// ---------------------------------------------------------------------------
// Laws
// ---------------------------------------------------------------------------

/// Putting one more variable in keeps every name single.
pub proof fn law_names_stay_different(
    vars: Seq<(Seq<char>, Seq<char>)>,
    name: Seq<char>,
    value: Seq<char>,
)
    requires
        names_differ(vars),
    ensures
        names_differ(with_var(vars, name, value)),
{
    if exists|i: int| 0 <= i < vars.len() && (#[trigger] vars[i]).0 == name {
        let i = choose|i: int| 0 <= i < vars.len() && (#[trigger] vars[i]).0 == name;
        lemma_with_var_found(vars, i, value);
        let after = vars.update(i, (name, value));
        assert forall|j: int, k: int| 0 <= j < k < after.len() implies (#[trigger] after[j]).0 != (
        #[trigger] after[k]).0 by {
            assert(after[j].0 == vars[j].0);
            assert(after[k].0 == vars[k].0);
        }
    } else {
        lemma_with_var_new(vars, name, value);
    }
}

/// The last text that was given for a variable is the one that counts, and the
/// other variables keep theirs.
pub proof fn law_the_last_text_counts(
    vars: Seq<(Seq<char>, Seq<char>)>,
    name: Seq<char>,
    value: Seq<char>,
    other: Seq<char>,
)
    ensures
        field_text(with_var(vars, name, value), name) == Some(value),
        other != name ==> field_text(with_var(vars, name, value), other)
            == field_text(vars, other),
    decreases vars.len(),
{
    if vars.len() == 0 {
        assert(seq![(name, value)].drop_first() =~= vars);
    } else if vars.first().0 == name {
        assert(vars.update(0, (name, value)).drop_first() =~= vars.drop_first());
    } else {
        law_the_last_text_counts(vars.drop_first(), name, value, other);
        let rest = with_var(vars.drop_first(), name, value);
        assert((seq![vars.first()] + rest).drop_first() =~= rest);
    }
}

/// Fields of the same names, with the same texts where those may be seen.
pub open spec fn fields_alike(
    f: Seq<(Seq<char>, Seq<char>)>,
    g: Seq<(Seq<char>, Seq<char>)>,
    environment: bool,
) -> bool {
    &&& f.len() == g.len()
    &&& forall|i: int|
        0 <= i < f.len() ==> {
            &&& (#[trigger] f[i]).0 == g[i].0
            &&& !environment && open_field(f[i].0) ==> f[i].1 == g[i].1
        }
}

/// Two values of one kind that differ in the texts of secret fields only.
pub open spec fn alike(a: SecretValue, b: SecretValue) -> bool {
    &&& kind_of(a) == kind_of(b)
    &&& (a is Environment) == (b is Environment)
    &&& fields_alike(fields_of(a), fields_of(b), a is Environment)
}

/// A preview says nothing of what it hides: values that differ in the texts of
/// secret fields only have the same one, and the same names of fields.
pub proof fn law_preview_hides_secrets(a: SecretValue, b: SecretValue)
    requires
        alike(a, b),
    ensures
        preview_of(a) == preview_of(b),
        names_of(fields_of(a)) == names_of(fields_of(b)),
{
    let sa = fields_of(a).map_values(
        |f: (Seq<char>, Seq<char>)| redacted_field(f, a is Environment),
    );
    let sb = fields_of(b).map_values(
        |f: (Seq<char>, Seq<char>)| redacted_field(f, b is Environment),
    );
    assert forall|i: int| 0 <= i < sa.len() implies sa[i] == sb[i] by {
        assert(fields_of(a)[i].0 == fields_of(b)[i].0);
    }
    assert(sa =~= sb);
    assert(names_of(fields_of(a)) =~= names_of(fields_of(b)));
}

/// Which fields may be seen.
proof fn lemma_open_fields()
    ensures
        !open_field("key"@),
        !open_field("password"@),
        !open_field("totp_seed"@),
        !open_field("client_secret"@),
        !open_field("private_key"@),
        !open_field("passphrase"@),
        !open_field("content"@),
        !open_field("notes"@),
        open_field("url"@),
        open_field("username"@),
        open_field("client_id"@),
        open_field("redirect_url"@),
        open_field("scopes"@),
        open_field("public_key"@),
{
    reveal_strlit("key");
    reveal_strlit("password");
    reveal_strlit("totp_seed");
    reveal_strlit("client_secret");
    reveal_strlit("private_key");
    reveal_strlit("passphrase");
    reveal_strlit("content");
    reveal_strlit("notes");
    reveal_strlit("url");
    reveal_strlit("username");
    reveal_strlit("client_id");
    reveal_strlit("redirect_url");
    reveal_strlit("scopes");
    reveal_strlit("public_key");
    assert("url"@.len() == 3 && "username"@.len() == 8 && "client_id"@.len() == 9);
    assert("redirect_url"@.len() == 12 && "scopes"@.len() == 6 && "public_key"@.len() == 10);
    assert("key"@.len() == 3 && "password"@.len() == 8 && "totp_seed"@.len() == 9);
    assert("client_secret"@.len() == 13 && "private_key"@.len() == 11);
    assert("passphrase"@.len() == 10 && "content"@.len() == 7 && "notes"@.len() == 5);
    assert("key"@[0] == 'k' && "url"@[0] == 'u');
    assert("password"@[0] == 'p' && "username"@[0] == 'u');
    assert("totp_seed"@[0] == 't' && "client_id"@[0] == 'c');
    assert("passphrase"@[1] == 'a' && "public_key"@[1] == 'u');
}

/// Two values that the user may not tell apart: of one kind, with the same
/// texts where they may be seen, and with the same optional fields present.
pub open spec fn same_face(a: SecretValue, b: SecretValue) -> bool {
    match (a, b) {
        (
            SecretValue::ApiKey { key: _, url: u, notes: n },
            SecretValue::ApiKey { key: _, url: v, notes: m },
        ) => text::text_option(u) == text::text_option(v) && (n is Some) == (m is Some),
        (
            SecretValue::Login { url: u, username: n, password: _, totp_seed: t },
            SecretValue::Login { url: v, username: m, password: _, totp_seed: s },
        ) => u@ == v@ && n@ == m@ && (t is Some) == (s is Some),
        (
            SecretValue::OAuthApp { client_id: c, client_secret: _, redirect_url: r, scopes: x },
            SecretValue::OAuthApp { client_id: d, client_secret: _, redirect_url: s, scopes: y },
        ) => c@ == d@ && text::text_option(r) == text::text_option(s) && text::text_option(x)
            == text::text_option(y),
        (
            SecretValue::SshKey { private_key: _, public_key: p, passphrase: w },
            SecretValue::SshKey { private_key: _, public_key: q, passphrase: z },
        ) => text::text_option(p) == text::text_option(q) && (w is Some) == (z is Some),
        (SecretValue::Note { .. }, SecretValue::Note { .. }) => true,
        (SecretValue::Environment { vars: v }, SecretValue::Environment { vars: w }) => names_of(v@)
            == names_of(w@),
        _ => false,
    }
}

proof fn lemma_alike_together(
    f: Seq<(Seq<char>, Seq<char>)>,
    g: Seq<(Seq<char>, Seq<char>)>,
    x: Seq<(Seq<char>, Seq<char>)>,
    y: Seq<(Seq<char>, Seq<char>)>,
)
    requires
        fields_alike(f, g, false),
        fields_alike(x, y, false),
    ensures
        fields_alike(f + x, g + y, false),
{
    let a = f + x;
    let b = g + y;
    assert forall|i: int| 0 <= i < a.len() implies {
        &&& (#[trigger] a[i]).0 == b[i].0
        &&& open_field(a[i].0) ==> a[i].1 == b[i].1
    } by {
        if i < f.len() {
            assert(a[i] == f[i] && b[i] == g[i]);
        } else {
            assert(a[i] == x[i - f.len()] && b[i] == y[i - f.len()]);
        }
    }
}

proof fn lemma_alike_optional(name: Seq<char>, x: Option<String>, y: Option<String>)
    requires
        (x is Some) == (y is Some),
        open_field(name) ==> text::text_option(x) == text::text_option(y),
    ensures
        fields_alike(optional_field(name, x), optional_field(name, y), false),
{
}

/// Keys, passwords, seeds, private keys, passphrases, notes and the texts of
/// variables do not show: two values that differ in those only are alike.
pub proof fn law_values_with_one_face_are_alike(a: SecretValue, b: SecretValue)
    requires
        same_face(a, b),
    ensures
        alike(a, b),
{
    lemma_open_fields();
    match (a, b) {
        (
            SecretValue::ApiKey { key: k, url: u, notes: n },
            SecretValue::ApiKey { key: l, url: v, notes: m },
        ) => {
            lemma_alike_optional("url"@, u, v);
            lemma_alike_optional("notes"@, n, m);
            let (f, g) = (seq![("key"@, k@)], seq![("key"@, l@)]);
            let (x, y) = (optional_field("url"@, u), optional_field("url"@, v));
            lemma_alike_together(f, g, x, y);
            lemma_alike_together(
                f + x,
                g + y,
                optional_field("notes"@, n),
                optional_field("notes"@, m),
            );
        },
        (
            SecretValue::Login { url: u, username: n, password: p, totp_seed: t },
            SecretValue::Login { url: v, username: m, password: q, totp_seed: s },
        ) => {
            lemma_alike_optional("totp_seed"@, t, s);
            lemma_alike_together(
                seq![("url"@, u@), ("username"@, n@), ("password"@, p@)],
                seq![("url"@, v@), ("username"@, m@), ("password"@, q@)],
                optional_field("totp_seed"@, t),
                optional_field("totp_seed"@, s),
            );
        },
        (
            SecretValue::OAuthApp { client_id: c, client_secret: k, redirect_url: r, scopes: x },
            SecretValue::OAuthApp { client_id: d, client_secret: l, redirect_url: s, scopes: y },
        ) => {
            lemma_alike_optional("redirect_url"@, r, s);
            lemma_alike_optional("scopes"@, x, y);
            let f = seq![("client_id"@, c@), ("client_secret"@, k@)];
            let g = seq![("client_id"@, d@), ("client_secret"@, l@)];
            let (v, w) = (optional_field("redirect_url"@, r), optional_field("redirect_url"@, s));
            lemma_alike_together(f, g, v, w);
            lemma_alike_together(
                f + v,
                g + w,
                optional_field("scopes"@, x),
                optional_field("scopes"@, y),
            );
        },
        (
            SecretValue::SshKey { private_key: k, public_key: p, passphrase: w },
            SecretValue::SshKey { private_key: l, public_key: q, passphrase: z },
        ) => {
            lemma_alike_optional("public_key"@, p, q);
            lemma_alike_optional("passphrase"@, w, z);
            let (f, g) = (seq![("private_key"@, k@)], seq![("private_key"@, l@)]);
            let (x, y) = (optional_field("public_key"@, p), optional_field("public_key"@, q));
            lemma_alike_together(f, g, x, y);
            lemma_alike_together(
                f + x,
                g + y,
                optional_field("passphrase"@, w),
                optional_field("passphrase"@, z),
            );
        },
        (SecretValue::Environment { vars: v }, SecretValue::Environment { vars: w }) => {
            assert(names_of(v@).len() == names_of(w@).len());
            assert forall|i: int| 0 <= i < v@.len() implies (#[trigger] v@[i]).0 == w@[i].0 by {
                assert(names_of(v@)[i] == names_of(w@)[i]);
            }
        },
        _ => {},
    }
}

/// One if something is there, else nothing.
pub open spec fn present(v: Option<String>) -> int {
    if v is Some {
        1
    } else {
        0
    }
}

/// A part that is there is a field of its name.
pub open spec fn holds_part(
    fields: Seq<(Seq<char>, Seq<char>)>,
    name: Seq<char>,
    part: Option<String>,
) -> bool {
    part matches Some(t) ==> fields.contains((name, t@))
}

/// Every part of a value that is there is the field of its name, and there are
/// no other fields.
pub proof fn law_fields_are_the_parts(v: SecretValue)
    ensures
        match v {
            SecretValue::ApiKey { key, url, notes } => {
                let f = fields_of(v);
                &&& f.contains(("key"@, key@))
                &&& holds_part(f, "url"@, url)
                &&& holds_part(f, "notes"@, notes)
                &&& f.len() == 1 + present(url) + present(notes)
            },
            SecretValue::Login { url, username, password, totp_seed } => {
                let f = fields_of(v);
                &&& f.contains(("url"@, url@))
                &&& f.contains(("username"@, username@))
                &&& f.contains(("password"@, password@))
                &&& holds_part(f, "totp_seed"@, totp_seed)
                &&& f.len() == 3 + present(totp_seed)
            },
            SecretValue::OAuthApp { client_id, client_secret, redirect_url, scopes } => {
                let f = fields_of(v);
                &&& f.contains(("client_id"@, client_id@))
                &&& f.contains(("client_secret"@, client_secret@))
                &&& holds_part(f, "redirect_url"@, redirect_url)
                &&& holds_part(f, "scopes"@, scopes)
                &&& f.len() == 2 + present(redirect_url) + present(scopes)
            },
            SecretValue::SshKey { private_key, public_key, passphrase } => {
                let f = fields_of(v);
                &&& f.contains(("private_key"@, private_key@))
                &&& holds_part(f, "public_key"@, public_key)
                &&& holds_part(f, "passphrase"@, passphrase)
                &&& f.len() == 1 + present(public_key) + present(passphrase)
            },
            SecretValue::Note { content } => {
                let f = fields_of(v);
                f.contains(("content"@, content@)) && f.len() == 1
            },
            SecretValue::Environment { vars } => {
                let f = fields_of(v);
                &&& f.len() == vars@.len()
                &&& forall|i: int| 0 <= i < vars@.len() ==> f[i] == #[trigger] vars@[i]
            },
        },
{
    let f = fields_of(v);
    match v {
        SecretValue::ApiKey { key, url, notes } => {
            assert(f[0] == ("key"@, key@));
            if url is Some {
                assert(f[1] == ("url"@, url->0@));
            }
            if notes is Some {
                assert(f[1 + present(url)] == ("notes"@, notes->0@));
            }
        },
        SecretValue::Login { url, username, password, totp_seed } => {
            assert(f[0] == ("url"@, url@));
            assert(f[1] == ("username"@, username@));
            assert(f[2] == ("password"@, password@));
            if totp_seed is Some {
                assert(f[3] == ("totp_seed"@, totp_seed->0@));
            }
        },
        SecretValue::OAuthApp { client_id, client_secret, redirect_url, scopes } => {
            assert(f[0] == ("client_id"@, client_id@));
            assert(f[1] == ("client_secret"@, client_secret@));
            if redirect_url is Some {
                assert(f[2] == ("redirect_url"@, redirect_url->0@));
            }
            if scopes is Some {
                assert(f[2 + present(redirect_url)] == ("scopes"@, scopes->0@));
            }
        },
        SecretValue::SshKey { private_key, public_key, passphrase } => {
            assert(f[0] == ("private_key"@, private_key@));
            if public_key is Some {
                assert(f[1] == ("public_key"@, public_key->0@));
            }
            if passphrase is Some {
                assert(f[1 + present(public_key)] == ("passphrase"@, passphrase->0@));
            }
        },
        SecretValue::Note { content } => {
            assert(f[0] == ("content"@, content@));
        },
        SecretValue::Environment { .. } => {},
    }
}

/// Looking for a field gives the text of the first one of that name, and
/// nothing exactly if there is none.
pub proof fn law_a_field_is_found_by_its_name(
    fields: Seq<(Seq<char>, Seq<char>)>,
    name: Seq<char>,
)
    ensures
        field_text(fields, name) matches Some(t) ==> exists|i: int|
            0 <= i < fields.len() && #[trigger] fields[i] == (name, t) && forall|j: int|
                0 <= j < i ==> (#[trigger] fields[j]).0 != name,
        field_text(fields, name) is None <==> forall|i: int|
            0 <= i < fields.len() ==> (#[trigger] fields[i]).0 != name,
    decreases fields.len(),
{
    if fields.len() > 0 {
        let rest = fields.drop_first();
        if fields[0].0 != name {
            law_a_field_is_found_by_its_name(rest, name);
            if field_text(fields, name) is Some {
                let t = field_text(fields, name)->0;
                let i = choose|i: int|
                    0 <= i < rest.len() && #[trigger] rest[i] == (name, t) && forall|j: int|
                        0 <= j < i ==> (#[trigger] rest[j]).0 != name;
                assert(fields[i + 1] == (name, t));
                assert forall|j: int| 0 <= j < i + 1 implies (#[trigger] fields[j]).0 != name by {
                    if j > 0 {
                        assert(rest[j - 1] == fields[j]);
                    }
                }
            } else {
                assert forall|i: int| 0 <= i < fields.len() implies (#[trigger] fields[i]).0
                    != name by {
                    if i > 0 {
                        assert(rest[i - 1] == fields[i]);
                    }
                }
            }
        } else {
            assert(fields[0] == (name, fields[0].1));
        }
    }
}

/// The kinds tell the six sorts of values apart.
pub proof fn law_kinds_tell_values_apart(v: SecretValue)
    ensures
        kind_of(v) == "api-key"@ <==> v is ApiKey,
        kind_of(v) == "login"@ <==> v is Login,
        kind_of(v) == "oauth-app"@ <==> v is OAuthApp,
        kind_of(v) == "ssh-key"@ <==> v is SshKey,
        kind_of(v) == "note"@ <==> v is Note,
        kind_of(v) == "environment"@ <==> v is Environment,
{
    reveal_strlit("api-key");
    reveal_strlit("login");
    reveal_strlit("oauth-app");
    reveal_strlit("ssh-key");
    reveal_strlit("note");
    reveal_strlit("environment");
    assert("api-key"@.len() == 7 && "login"@.len() == 5 && "oauth-app"@.len() == 9);
    assert("ssh-key"@.len() == 7 && "note"@.len() == 4 && "environment"@.len() == 11);
    assert("api-key"@[0] == 'a' && "ssh-key"@[0] == 's');
}

/// The text that is piped is a field of the value, and the only one that a key
/// or a note must have; other values have none.
pub proof fn law_piped_texts_are_fields(v: SecretValue)
    ensures
        v matches SecretValue::ApiKey { key, .. } ==> bare_text(v) == Some(key@),
        v matches SecretValue::Note { content } ==> bare_text(v) == Some(content@),
        bare_text(v) is Some ==> fields_of(v).len() > 0 && bare_text(v) == Some(fields_of(v)[0].1),
        bare_text(v) is None <==> !(v is ApiKey) && !(v is Note),
{
}

/// A preview names every field, with the text of those that may be seen, and
/// with stars for the others.
pub proof fn law_preview_names_every_field(v: SecretValue, i: int)
    requires
        0 <= i < fields_of(v).len(),
    ensures
        ({
            let f = fields_of(v)[i];
            let seen = !(v is Environment) && (f.0 == "url"@ || f.0 == "username"@ || f.0
                == "client_id"@ || f.0 == "redirect_url"@ || f.0 == "scopes"@ || f.0
                == "public_key"@);
            text::holds(
                preview_of(v),
                f.0 + "="@ + if seen {
                    f.1
                } else {
                    "****"@
                },
            )
        }),
{
    let parts = fields_of(v).map_values(
        |f: (Seq<char>, Seq<char>)| redacted_field(f, v is Environment),
    );
    text::law_joining_keeps_every_part(parts, ", "@, i);
}

/// A variable that was there keeps its place, and a new one comes last; the
/// others stay as and where they were.
pub proof fn law_variables_keep_their_places(
    vars: Seq<(Seq<char>, Seq<char>)>,
    name: Seq<char>,
    value: Seq<char>,
    i: int,
)
    ensures
        (forall|j: int| 0 <= j < vars.len() ==> (#[trigger] vars[j]).0 != name) ==> with_var(
            vars,
            name,
            value,
        ) == vars.push((name, value)),
        0 <= i < vars.len() && vars[i].0 == name && (forall|j: int|
            0 <= j < i ==> (#[trigger] vars[j]).0 != name) ==> with_var(vars, name, value)
            == vars.update(i, (name, value)),
    decreases vars.len(),
{
    if vars.len() == 0 {
        assert(with_var(vars, name, value) =~= vars.push((name, value)));
    } else {
        let rest = vars.drop_first();
        assert(forall|j: int| 0 <= j < rest.len() ==> #[trigger] rest[j] == vars[j + 1]);
        law_variables_keep_their_places(rest, name, value, i - 1);
        if vars.first().0 != name {
            if forall|j: int| 0 <= j < vars.len() ==> (#[trigger] vars[j]).0 != name {
                assert(seq![vars.first()] + rest.push((name, value)) =~= vars.push((name, value)));
            }
            if 0 <= i < vars.len() && vars[i].0 == name && (forall|j: int|
                0 <= j < i ==> (#[trigger] vars[j]).0 != name) {
                assert(i > 0);
                assert(rest[i - 1] == vars[i]);
                assert(seq![vars.first()] + rest.update(i - 1, (name, value)) =~= vars.update(
                    i,
                    (name, value),
                ));
            }
        }
    }
}

/// The fields come in a fixed order: those that must be there first, and behind
/// them those that are there.
pub proof fn law_the_order_of_fields(v: SecretValue)
    ensures
        match v {
            SecretValue::ApiKey { url, notes, .. } => {
                let f = fields_of(v);
                &&& f[0].0 == "key"@
                &&& url is Some ==> f[1].0 == "url"@
                &&& notes is Some ==> f.last().0 == "notes"@
            },
            SecretValue::Login { totp_seed, .. } => {
                let f = fields_of(v);
                &&& f[0].0 == "url"@ && f[1].0 == "username"@ && f[2].0 == "password"@
                &&& totp_seed is Some ==> f.last().0 == "totp_seed"@
            },
            SecretValue::OAuthApp { redirect_url, scopes, .. } => {
                let f = fields_of(v);
                &&& f[0].0 == "client_id"@ && f[1].0 == "client_secret"@
                &&& redirect_url is Some ==> f[2].0 == "redirect_url"@
                &&& scopes is Some ==> f.last().0 == "scopes"@
            },
            SecretValue::SshKey { public_key, passphrase, .. } => {
                let f = fields_of(v);
                &&& f[0].0 == "private_key"@
                &&& public_key is Some ==> f[1].0 == "public_key"@
                &&& passphrase is Some ==> f.last().0 == "passphrase"@
            },
            SecretValue::Note { .. } => fields_of(v)[0].0 == "content"@,
            SecretValue::Environment { .. } => true,
        },
{
}

/// A preview is what is shown of each field, in order, with a comma and a blank
/// between: its name, and its text if that may be seen, else stars.
pub proof fn law_previews_go_field_by_field(v: SecretValue, parts: Seq<Seq<char>>)
    requires
        parts.len() == fields_of(v).len(),
        forall|i: int|
            0 <= i < parts.len() ==> {
                let f = fields_of(v)[i];
                let seen = !(v is Environment) && (f.0 == "url"@ || f.0 == "username"@ || f.0
                    == "client_id"@ || f.0 == "redirect_url"@ || f.0 == "scopes"@ || f.0
                    == "public_key"@);
                #[trigger] parts[i] == f.0 + "="@ + if seen {
                    f.1
                } else {
                    "****"@
                }
            },
    ensures
        preview_of(v) == text::joined(parts, ", "@),
{
    assert(parts =~= fields_of(v).map_values(
        |f: (Seq<char>, Seq<char>)| redacted_field(f, v is Environment),
    ));
}

/// The names of fields are theirs, one for each, in order.
pub proof fn law_names_are_those_of_the_fields(f: Seq<(Seq<char>, Seq<char>)>, i: int)
    ensures
        names_of(f).len() == f.len(),
        0 <= i < f.len() ==> names_of(f)[i] == f[i].0,
{
}

} // verus!
