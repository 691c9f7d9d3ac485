//! Storing a secret from the command line: which questions are asked for each
//! kind of secret, and what the answers make.

use crate::names;
use crate::text;
use crate::types;
use crate::types::{EnvVars, Secret, SecretValue};
use vstd::prelude::*;

verus! {

/// The kind of the secret that is to be stored.
#[derive(Clone, Copy, Debug, PartialEq, Eq, Structural)]
pub enum FormKind {
    ApiKey,
    Login,
    OAuthApp,
    SshKey,
    Note,
    Environment,
}

/// The answers that were given so far.
pub struct StoreForm {
    service: String,
    key: String,
    kind: FormKind,
    answers: Vec<String>,
    key_text: String,
    vars: EnvVars,
    vars_done: bool,
}

/// A form as contracts see it.
#[verifier::ext_equal]
pub struct FormView {
    /// Names that the secret will have.
    pub service: Seq<char>,
    pub key: Seq<char>,
    pub kind: FormKind,
    /// Texts that were entered, in the order of the questions.
    pub answers: Seq<Seq<char>>,
    /// The lines of a private key that were read.
    pub key_text: Seq<char>,
    /// The variables that were read, each name once.
    pub vars: Seq<(Seq<char>, Seq<char>)>,
    /// Whether all variables were read.
    pub vars_done: bool,
}

impl View for StoreForm {
    type V = FormView;

    closed spec fn view(&self) -> FormView {
        FormView {
            service: self.service@,
            key: self.key@,
            kind: self.kind,
            answers: text::texts(self.answers@),
            key_text: self.key_text@,
            vars: self.vars@,
            vars_done: self.vars_done,
        }
    }
}

/// What comes next in a form.
pub enum FormStep {
    /// Ask for a text under a label; the text is hidden while it is typed if
    /// the flag says so.
    Ask(String, bool),
    /// Read the lines of a private key.
    ReadKey,
    /// Read lines with variables.
    ReadVars,
    /// The answers will not do.
    Refuse(String),
    /// All is there.
    Ready,
}

/// A step as contracts see it.
#[verifier::ext_equal]
pub enum FormStepView {
    Ask(Seq<char>, bool),
    ReadKey,
    ReadVars,
    Refuse(Seq<char>),
    Ready,
}

impl View for FormStep {
    type V = FormStepView;

    open spec fn view(&self) -> FormStepView {
        match self {
            FormStep::Ask(label, hidden) => FormStepView::Ask(label@, *hidden),
            FormStep::ReadKey => FormStepView::ReadKey,
            FormStep::ReadVars => FormStepView::ReadVars,
            FormStep::Refuse(msg) => FormStepView::Refuse(msg@),
            FormStep::Ready => FormStepView::Ready,
        }
    }
}

/// The kind that a word on the command line names.
pub open spec fn kind_named(word: Seq<char>) -> Option<FormKind> {
    if word == "login"@ {
        Some(FormKind::Login)
    } else if word == "api-key"@ || word == "apikey"@ {
        Some(FormKind::ApiKey)
    } else if word == "oauth-app"@ || word == "oauthapp"@ {
        Some(FormKind::OAuthApp)
    } else if word == "ssh-key"@ || word == "sshkey"@ {
        Some(FormKind::SshKey)
    } else if word == "note"@ {
        Some(FormKind::Note)
    } else if word == "environment"@ || word == "env"@ {
        Some(FormKind::Environment)
    } else {
        None
    }
}

/// The name of a kind in the secrets that it makes.
pub open spec fn kind_text(kind: FormKind) -> Seq<char> {
    match kind {
        FormKind::ApiKey => "api-key"@,
        FormKind::Login => "login"@,
        FormKind::OAuthApp => "oauth-app"@,
        FormKind::SshKey => "ssh-key"@,
        FormKind::Note => "note"@,
        FormKind::Environment => "environment"@,
    }
}

/// Why a form cannot be started, if it cannot: the service, then the key, then
/// the kind is looked at.
pub open spec fn start_refusal(
    service: Seq<char>,
    key: Seq<char>,
    word: Seq<char>,
) -> Option<Seq<char>> {
    if names::name_problem(service) is Some {
        Some(names::problem_text("service"@, names::name_problem(service)->0))
    } else if names::name_problem(key) is Some {
        Some(names::problem_text("key"@, names::name_problem(key)->0))
    } else if kind_named(word) is None {
        Some(
            "unknown secret type '"@ + word
                + "'. Valid types: api-key, login, oauth-app, ssh-key, note, environment"@,
        )
    } else {
        None
    }
}

/// The form that is started.
pub open spec fn empty_form(service: Seq<char>, key: Seq<char>, kind: FormKind) -> FormView {
    FormView {
        service,
        key,
        kind,
        answers: Seq::empty(),
        key_text: Seq::empty(),
        vars: Seq::empty(),
        vars_done: false,
    }
}

/// What comes next in a form. Every kind has its questions in a fixed order,
/// and the required answers are looked at as soon as the last of them is
/// there; for a login that is at the end.
pub open spec fn next_step(f: FormView) -> FormStepView {
    let a = f.answers;
    let n = a.len();
    match f.kind {
        FormKind::Login => if n == 0 {
            FormStepView::Ask("url"@, false)
        } else if n == 1 {
            FormStepView::Ask("username"@, false)
        } else if n == 2 {
            FormStepView::Ask("password"@, true)
        } else if n == 3 {
            FormStepView::Ask("totp_seed (leave blank if none)"@, false)
        } else if a[0].len() == 0 || a[1].len() == 0 || a[2].len() == 0 {
            FormStepView::Refuse("url, username, and password are required"@)
        } else {
            FormStepView::Ready
        },
        FormKind::ApiKey => if n == 0 {
            FormStepView::Ask("key"@, true)
        } else if a[0].len() == 0 {
            FormStepView::Refuse("key cannot be empty"@)
        } else if n == 1 {
            FormStepView::Ask("url (leave blank if none)"@, false)
        } else {
            FormStepView::Ready
        },
        FormKind::OAuthApp => if n == 0 {
            FormStepView::Ask("client_id"@, false)
        } else if n == 1 {
            FormStepView::Ask("client_secret"@, true)
        } else if a[0].len() == 0 || a[1].len() == 0 {
            FormStepView::Refuse("client_id and client_secret are required"@)
        } else if n == 2 {
            FormStepView::Ask("redirect_url (leave blank if none)"@, false)
        } else {
            FormStepView::Ready
        },
        FormKind::SshKey => if n == 0 {
            FormStepView::ReadKey
        } else if text::trimmed(a[0]).len() == 0 {
            FormStepView::Refuse("private key cannot be empty"@)
        } else if n == 1 {
            FormStepView::Ask("passphrase (leave blank if none)"@, true)
        } else {
            FormStepView::Ready
        },
        FormKind::Note => if n == 0 {
            FormStepView::Ask("content"@, true)
        } else if a[0].len() == 0 {
            FormStepView::Refuse("content cannot be empty"@)
        } else {
            FormStepView::Ready
        },
        FormKind::Environment => if !f.vars_done {
            FormStepView::ReadVars
        } else if f.vars.len() == 0 {
            FormStepView::Refuse("no env vars entered"@)
        } else {
            FormStepView::Ready
        },
    }
}

/// The field of an answer that may be left blank.
pub open spec fn blank_or(name: Seq<char>, answer: Seq<char>) -> Seq<(Seq<char>, Seq<char>)> {
    if answer.len() == 0 {
        Seq::empty()
    } else {
        seq![(name, answer)]
    }
}

/// The fields of the value that a form makes.
pub open spec fn form_fields(f: FormView) -> Seq<(Seq<char>, Seq<char>)> {
    let a = f.answers;
    match f.kind {
        FormKind::Login => seq![("url"@, a[0]), ("username"@, a[1]), ("password"@, a[2])]
            + blank_or("totp_seed"@, a[3]),
        FormKind::ApiKey => seq![("key"@, a[0])] + blank_or("url"@, a[1]),
        FormKind::OAuthApp => seq![("client_id"@, a[0]), ("client_secret"@, a[1])] + blank_or(
            "redirect_url"@,
            a[2],
        ),
        FormKind::SshKey => seq![("private_key"@, a[0])] + blank_or("passphrase"@, a[1]),
        FormKind::Note => seq![("content"@, a[0])],
        FormKind::Environment => f.vars,
    }
}

/// The line that ends a private key.
pub open spec fn ends_key(line: Seq<char>) -> bool {
    text::trimmed(line) == "---END---"@
}

/// What a line says of the variables of an environment.
pub enum VarLine {
    /// There are no more.
    End,
    /// A name and a text.
    Pair(String, String),
    /// The line has no `=`; what is said of it.
    Invalid(String),
}

/// A line of variables as contracts see it.
#[verifier::ext_equal]
pub enum VarLineView {
    End,
    Pair(Seq<char>, Seq<char>),
    Invalid(Seq<char>),
}

impl View for VarLine {
    type V = VarLineView;

    open spec fn view(&self) -> VarLineView {
        match self {
            VarLine::End => VarLineView::End,
            VarLine::Pair(k, v) => VarLineView::Pair(k@, v@),
            VarLine::Invalid(msg) => VarLineView::Invalid(msg@),
        }
    }
}

/// What a line says: a blank one ends the list, and in any other the name
/// stands before the first `=` and the text behind it, both without white
/// space at their ends.
pub open spec fn var_line(line: Seq<char>) -> VarLineView {
    let l = text::trimmed(line);
    let i = text::first_index(l, '=');
    if l.len() == 0 {
        VarLineView::End
    } else if i < l.len() {
        VarLineView::Pair(text::trimmed(l.take(i)), text::trimmed(l.skip(i + 1)))
    } else {
        VarLineView::Invalid("  skipping invalid line (expected KEY=VALUE): "@ + l)
    }
}

// ---------------------------------------------------------------------------
// Lines
// ---------------------------------------------------------------------------

/// Reads a line of variables.
pub fn read_var_line(line: &str) -> (r: VarLine)
    ensures
        r@ == var_line(line@),
{
    let l = text::trim(line);
    if l.as_str().is_empty() {
        return VarLine::End;
    }
    let v = text::chars_of(l.as_str());
    let ghost want = text::first_index(l@, '=');
    proof {
        text::lemma_first_index(l@, '=');
    }
    let mut i: usize = 0;
    while i < v.len() && v[i] != '='
        invariant
            v@ == l@,
            want == text::first_index(l@, '='),
            0 <= want <= l@.len(),
            want < l@.len() ==> l@[want] == '=',
            forall|j: int| 0 <= j < want ==> l@[j] != '=',
            i <= want,
        decreases v@.len() - i,
    {
        i += 1;
    }
    if i < v.len() {
        let name = text::string_of(&v, 0, i);
        let value = text::string_of(&v, i + 1, v.len());
        assert(name@ =~= l@.take(want));
        assert(value@ =~= l@.skip(want + 1));
        VarLine::Pair(text::trim(name.as_str()), text::trim(value.as_str()))
    } else {
        let mut msg = "  skipping invalid line (expected KEY=VALUE): ".to_owned();
        msg.append(l.as_str());
        VarLine::Invalid(msg)
    }
}

// ---------------------------------------------------------------------------
// The form
// ---------------------------------------------------------------------------

/// The kind that a word on the command line names.
pub fn parse_kind(word: &str) -> (r: Option<FormKind>)
    ensures
        r == kind_named(word@),
{
    if text::same(word, "login") {
        Some(FormKind::Login)
    } else if text::same(word, "api-key") || text::same(word, "apikey") {
        Some(FormKind::ApiKey)
    } else if text::same(word, "oauth-app") || text::same(word, "oauthapp") {
        Some(FormKind::OAuthApp)
    } else if text::same(word, "ssh-key") || text::same(word, "sshkey") {
        Some(FormKind::SshKey)
    } else if text::same(word, "note") {
        Some(FormKind::Note)
    } else if text::same(word, "environment") || text::same(word, "env") {
        Some(FormKind::Environment)
    } else {
        None
    }
}

fn ask(label: &str, hidden: bool) -> (r: FormStep)
    ensures
        r@ == FormStepView::Ask(label@, hidden),
{
    FormStep::Ask(label.to_owned(), hidden)
}

fn refuse(msg: &str) -> (r: FormStep)
    ensures
        r@ == FormStepView::Refuse(msg@),
{
    FormStep::Refuse(msg.to_owned())
}

fn optional(answer: &String) -> (r: Option<String>)
    ensures
        forall|name: Seq<char>| #[trigger] types::optional_field(name, r) == blank_or(name, answer@),
{
    let r = if answer.as_str().is_empty() {
        None
    } else {
        Some(answer.clone())
    };
    assert forall|name: Seq<char>| #[trigger]
        types::optional_field(name, r) == blank_or(name, answer@) by {
        assert(types::optional_field(name, r) =~= blank_or(name, answer@));
    }
    r
}

impl StoreForm {
    /// Starts a form.
    pub fn start(service: &str, key: &str, secret_type: &str) -> (r: Result<StoreForm, String>)
        ensures
            r is Ok <==> start_refusal(service@, key@, secret_type@) is None,
            r matches Ok(f) ==> f@ == empty_form(service@, key@, kind_named(secret_type@)->0),
            r matches Err(msg) ==> msg@ == start_refusal(service@, key@, secret_type@)->0,
    {
        match names::validate_name(service, "service") {
            Err(msg) => {
                return Err(msg);
            },
            Ok(_) => {},
        }
        match names::validate_name(key, "key") {
            Err(msg) => {
                return Err(msg);
            },
            Ok(_) => {},
        }
        match parse_kind(secret_type) {
            Some(kind) => {
                let f = StoreForm {
                    service: service.to_owned(),
                    key: key.to_owned(),
                    kind,
                    answers: Vec::new(),
                    key_text: String::new(),
                    vars: EnvVars::new(),
                    vars_done: false,
                };
                assert(f@ =~= empty_form(service@, key@, kind));
                Ok(f)
            },
            None => Err(
                text::concat3(
                    "unknown secret type '",
                    secret_type,
                    "'. Valid types: api-key, login, oauth-app, ssh-key, note, environment",
                ),
            ),
        }
    }

    /// What comes next.
    pub fn step(&self) -> (r: FormStep)
        ensures
            r@ == next_step(self@),
    {
        let n: usize = self.answers.len();
        let ghost a = self@.answers;
        let no_vars = self.vars.pairs().len() == 0;
        assert(no_vars == (self@.vars.len() == 0));
        assert(a.len() == n);
        assert(forall|i: int| 0 <= i < n ==> a[i] == self.answers@[i]@);
        match self.kind {
            FormKind::Login => if n == 0 {
                ask("url", false)
            } else if n == 1 {
                ask("username", false)
            } else if n == 2 {
                ask("password", true)
            } else if n == 3 {
                ask("totp_seed (leave blank if none)", false)
            } else if self.answers[0].as_str().is_empty() || self.answers[1].as_str().is_empty()
                || self.answers[2].as_str().is_empty() {
                refuse("url, username, and password are required")
            } else {
                FormStep::Ready
            },
            FormKind::ApiKey => if n == 0 {
                ask("key", true)
            } else if self.answers[0].as_str().is_empty() {
                refuse("key cannot be empty")
            } else if n == 1 {
                ask("url (leave blank if none)", false)
            } else {
                FormStep::Ready
            },
            FormKind::OAuthApp => if n == 0 {
                ask("client_id", false)
            } else if n == 1 {
                ask("client_secret", true)
            } else if self.answers[0].as_str().is_empty() || self.answers[1].as_str().is_empty() {
                refuse("client_id and client_secret are required")
            } else if n == 2 {
                ask("redirect_url (leave blank if none)", false)
            } else {
                FormStep::Ready
            },
            FormKind::SshKey => if n == 0 {
                FormStep::ReadKey
            } else if text::trim(self.answers[0].as_str()).as_str().is_empty() {
                refuse("private key cannot be empty")
            } else if n == 1 {
                ask("passphrase (leave blank if none)", true)
            } else {
                FormStep::Ready
            },
            FormKind::Note => if n == 0 {
                ask("content", true)
            } else if self.answers[0].as_str().is_empty() {
                refuse("content cannot be empty")
            } else {
                FormStep::Ready
            },
            FormKind::Environment => if !self.vars_done {
                FormStep::ReadVars
            } else if no_vars {
                refuse("no env vars entered")
            } else {
                FormStep::Ready
            },
        }
    }

    /// Takes the answer to a question.
    pub fn answer(&mut self, answer: String)
        ensures
            final(self)@ == (FormView {
                answers: old(self)@.answers.push(answer@),
                ..old(self)@
            }),
    {
        let ghost before = self@;
        let ghost given = answer@;
        self.answers.push(answer);
        assert(self@.answers =~= before.answers.push(given));
    }

    /// Takes a line of a private key, and says whether more are to be read.
    /// The line `---END---` ends the key.
    pub fn key_line(&mut self, line: &str) -> (more: bool)
        ensures
            more == !ends_key(line@),
            more ==> final(self)@ == (FormView {
                key_text: old(self)@.key_text + line@ + "\n"@,
                ..old(self)@
            }),
            !more ==> final(self)@ == old(self)@,
    {
        if text::same(text::trim(line).as_str(), "---END---") {
            return false;
        }
        self.key_text = text::concat3(self.key_text.as_str(), line, "\n");
        true
    }

    /// Takes the lines of the private key that were read for the answer.
    pub fn key_read(&mut self)
        ensures
            final(self)@ == (FormView {
                answers: old(self)@.answers.push(old(self)@.key_text),
                ..old(self)@
            }),
    {
        let text = self.key_text.clone();
        self.answer(text);
    }

    /// Takes a line of variables, and says what it was.
    pub fn vars_line(&mut self, line: &str) -> (r: VarLine)
        ensures
            r@ == var_line(line@),
            r@ matches VarLineView::Pair(name, value) ==> final(self)@ == (FormView {
                vars: types::with_var(old(self)@.vars, name, value),
                ..old(self)@
            }),
            !(r@ is Pair) ==> final(self)@ == old(self)@,
    {
        let r = read_var_line(line);
        match &r {
            VarLine::Pair(name, value) => {
                self.vars.insert(name.clone(), value.clone());
            },
            _ => {},
        }
        r
    }

    /// Notes that all variables were read.
    pub fn vars_read(&mut self)
        ensures
            final(self)@ == (FormView { vars_done: true, ..old(self)@ }),
    {
        self.vars_done = true;
    }

    /// The secret that the answers make, once all is there.
    pub fn secret(self) -> (r: Option<Secret>)
        ensures
            r is Some <==> next_step(self@) is Ready,
            r matches Some(s) ==> {
                &&& s.service@ == self@.service
                &&& s.key@ == self@.key
                &&& types::kind_of(s.value) == kind_text(self@.kind)
                &&& types::fields_of(s.value) == form_fields(self@)
                &&& s.engram_id is None && s.created_at is None
            },
    {
        let ghost a = self@.answers;
        let ghost f = self@;
        assert(a.len() == self.answers@.len());
        assert(forall|i: int| 0 <= i < a.len() ==> a[i] == self.answers@[i]@);
        match self.step() {
            FormStep::Ready => {},
            _ => {
                return None;
            },
        }
        let value = match self.kind {
            FormKind::Login => SecretValue::Login {
                url: self.answers[0].clone(),
                username: self.answers[1].clone(),
                password: self.answers[2].clone(),
                totp_seed: optional(&self.answers[3]),
            },
            FormKind::ApiKey => SecretValue::ApiKey {
                key: self.answers[0].clone(),
                url: optional(&self.answers[1]),
                notes: None,
            },
            FormKind::OAuthApp => SecretValue::OAuthApp {
                client_id: self.answers[0].clone(),
                client_secret: self.answers[1].clone(),
                redirect_url: optional(&self.answers[2]),
                scopes: None,
            },
            FormKind::SshKey => SecretValue::SshKey {
                private_key: self.answers[0].clone(),
                public_key: None,
                passphrase: optional(&self.answers[1]),
            },
            FormKind::Note => SecretValue::Note { content: self.answers[0].clone() },
            FormKind::Environment => SecretValue::Environment { vars: self.vars },
        };
        assert(types::fields_of(value) =~= form_fields(f));
        Some(Secret::new(self.service.as_str(), self.key.as_str(), value))
    }
}

/// What is said once the secret is stored: under its names, with the kind as
/// the user wrote it.
pub open spec fn stored_text(
    service: Seq<char>,
    key: Seq<char>,
    secret_type: Seq<char>,
    id: u64,
) -> Seq<char> {
    "stored "@ + service + "/"@ + key + " ("@ + secret_type + ") engram_id="@ + text::digits(
        id as nat,
    )
}

/// What is said once the secret is stored.
pub fn stored_message(service: &str, key: &str, secret_type: &str, id: u64) -> (r: String)
    ensures
        r@ == stored_text(service@, key@, secret_type@, id),
{
    let mut msg = "stored ".to_owned();
    msg.append(service);
    msg.append("/");
    msg.append(key);
    msg.append(" (");
    msg.append(secret_type);
    msg.append(") engram_id=");
    msg.append(text::decimal(id).as_str());
    msg
}

// ---------------------------------------------------------------------------
// Laws
// ---------------------------------------------------------------------------

/// No field of a stored secret is empty, but for those of an environment.
pub proof fn law_stored_fields_are_filled(f: FormView, i: int)
    requires
        next_step(f) is Ready,
        !(f.kind is Environment),
        0 <= i < form_fields(f).len(),
    ensures
        form_fields(f)[i].1.len() > 0,
{
    if f.kind is SshKey && f.answers[0].len() == 0 {
        assert(text::trimmed(f.answers[0]).len() == 0);
    }
}

/// What is asked, or read, for the answer with an index.
pub open spec fn question(f: FormView, i: int) -> FormStepView {
    next_step(FormView { answers: f.answers.take(i), ..f })
}

/// What is said behind the name of a field that may be left blank.
proof fn lemma_notes()
    ensures
        " (leave blank if none)"@.len() == 22,
        " (leave blank if none)"@[0] == ' ',
        "totp_seed (leave blank if none)"@ == "totp_seed"@ + " (leave blank if none)"@,
        "url (leave blank if none)"@ == "url"@ + " (leave blank if none)"@,
        "redirect_url (leave blank if none)"@ == "redirect_url"@ + " (leave blank if none)"@,
        "passphrase (leave blank if none)"@ == "passphrase"@ + " (leave blank if none)"@,
{
    reveal_strlit(" (leave blank if none)");
    assert("totp_seed (leave blank if none)"@ =~= "totp_seed"@ + " (leave blank if none)"@) by {
        reveal_strlit("totp_seed (leave blank if none)");
        reveal_strlit("totp_seed");
    }
    assert("url (leave blank if none)"@ =~= "url"@ + " (leave blank if none)"@) by {
        reveal_strlit("url (leave blank if none)");
        reveal_strlit("url");
    }
    assert("redirect_url (leave blank if none)"@ =~= "redirect_url"@ + " (leave blank if none)"@)
        by {
        reveal_strlit("redirect_url (leave blank if none)");
        reveal_strlit("redirect_url");
    }
    assert("passphrase (leave blank if none)"@ =~= "passphrase"@ + " (leave blank if none)"@) by {
        reveal_strlit("passphrase (leave blank if none)");
        reveal_strlit("passphrase");
    }
}

/// No name of a field has a blank in it.
proof fn lemma_no_blanks()
    ensures
        !"url"@.contains(' '),
        !"username"@.contains(' '),
        !"password"@.contains(' '),
        !"key"@.contains(' '),
        !"client_id"@.contains(' '),
        !"client_secret"@.contains(' '),
        !"content"@.contains(' '),
{
    reveal_strlit("url");
    reveal_strlit("username");
    reveal_strlit("password");
    reveal_strlit("key");
    reveal_strlit("client_id");
    reveal_strlit("client_secret");
    reveal_strlit("content");
}

/// Names with the same note behind them are the same names, and a name with a
/// note is no name.
proof fn lemma_noted(name: Seq<char>, known: Seq<char>)
    requires
        !name.contains(' '),
        !known.contains(' '),
    ensures
        known + " (leave blank if none)"@ != name,
        known + " (leave blank if none)"@ == name + " (leave blank if none)"@ ==> known == name,
        known != name + " (leave blank if none)"@,
{
    lemma_notes();
    let note = " (leave blank if none)"@;
    if known + note == name {
        assert((known + note)[known.len() as int] == ' ');
        assert(name.contains(' '));
    }
    if known == name + note {
        assert((name + note)[name.len() as int] == ' ');
        assert(known.contains(' '));
    }
    if known + note == name + note {
        assert(known =~= (known + note).take(known.len() as int));
        assert(name =~= (name + note).take(name.len() as int));
        assert(known.len() == name.len());
    }
}

/// The names of the fields in a form differ.
proof fn lemma_names_differ()
    ensures
        "url"@ != "username"@,
        "url"@ != "password"@,
        "url"@ != "totp_seed"@,
        "url"@ != "key"@,
        "username"@ != "password"@,
        "username"@ != "totp_seed"@,
        "password"@ != "totp_seed"@,
        "client_id"@ != "client_secret"@,
        "client_id"@ != "redirect_url"@,
        "client_secret"@ != "redirect_url"@,
        "private_key"@ != "passphrase"@,
        !"totp_seed"@.contains(' '),
        !"redirect_url"@.contains(' '),
        !"passphrase"@.contains(' '),
{
    reveal_strlit("url");
    reveal_strlit("username");
    reveal_strlit("password");
    reveal_strlit("totp_seed");
    reveal_strlit("key");
    reveal_strlit("client_id");
    reveal_strlit("client_secret");
    reveal_strlit("redirect_url");
    reveal_strlit("private_key");
    reveal_strlit("passphrase");
    assert("url"@.len() == 3 && "username"@.len() == 8 && "password"@.len() == 8);
    assert("totp_seed"@.len() == 9 && "key"@.len() == 3 && "client_id"@.len() == 9);
    assert("client_secret"@.len() == 13 && "redirect_url"@.len() == 12);
    assert("private_key"@.len() == 11 && "passphrase"@.len() == 10);
    assert("url"@[0] == 'u' && "key"@[0] == 'k');
    assert("username"@[0] == 'u' && "password"@[0] == 'p');
}

/// Each answer is stored in the field that it was asked for: if the question
/// to which an answer was given has the name of a field for its label, or that
/// name with the note that it may be left blank, the secret's field of that
/// name has the answer, and no other field has that name; and if the answer is
/// blank there is no such field. The required fields come in the order of the
/// questions, and the one that may be left blank is the last.
pub proof fn law_answers_go_to_their_fields(f: FormView, i: int, name: Seq<char>)
    requires
        next_step(f) is Ready,
        0 <= i < f.answers.len(),
        !name.contains(' '),
        question(f, i) matches FormStepView::Ask(label, _) && (label == name || label == name
            + " (leave blank if none)"@),
    ensures
        f.answers[i].len() > 0 ==> form_fields(f).contains((name, f.answers[i])),
        f.answers[i].len() > 0 ==> forall|j: int|
            0 <= j < form_fields(f).len() && (#[trigger] form_fields(f)[j]).0 == name
                ==> form_fields(f)[j].1 == f.answers[i],
        f.answers[i].len() == 0 ==> forall|j: int|
            0 <= j < form_fields(f).len() ==> (#[trigger] form_fields(f)[j]).0 != name,
        question(f, i)->Ask_0 == name ==> f.answers[i].len() > 0 && form_fields(f)[i] == (
            name,
            f.answers[i],
        ),
        question(f, i)->Ask_0 != name && f.answers[i].len() > 0 ==> form_fields(f).last() == (
            name,
            f.answers[i],
        ),
{
    lemma_notes();
    lemma_no_blanks();
    lemma_names_differ();
    let label = question(f, i)->Ask_0;
    let a = f.answers;
    let fields = form_fields(f);
    assert(forall|j: int| 0 <= j < i ==> a.take(i)[j] == a[j]);
    match f.kind {
        FormKind::Login => {
            lemma_noted(name, "url"@);
            lemma_noted(name, "username"@);
            lemma_noted(name, "password"@);
            lemma_noted(name, "totp_seed"@);
            assert(fields[0] == ("url"@, a[0]));
            assert(fields[1] == ("username"@, a[1]));
            assert(fields[2] == ("password"@, a[2]));
            if a[3].len() > 0 {
                assert(fields[3] == ("totp_seed"@, a[3]));
            }
        },
        FormKind::ApiKey => {
            lemma_noted(name, "key"@);
            lemma_noted(name, "url"@);
            assert(fields[0] == ("key"@, a[0]));
            if a[1].len() > 0 {
                assert(fields[1] == ("url"@, a[1]));
            }
        },
        FormKind::OAuthApp => {
            lemma_noted(name, "client_id"@);
            lemma_noted(name, "client_secret"@);
            lemma_noted(name, "redirect_url"@);
            assert(fields[0] == ("client_id"@, a[0]));
            assert(fields[1] == ("client_secret"@, a[1]));
            if a[2].len() > 0 {
                assert(fields[2] == ("redirect_url"@, a[2]));
            }
        },
        FormKind::SshKey => {
            lemma_noted(name, "passphrase"@);
            assert(fields[0] == ("private_key"@, a[0]));
            if a[1].len() > 0 {
                assert(fields[1] == ("passphrase"@, a[1]));
            }
        },
        FormKind::Note => {
            lemma_noted(name, "content"@);
            assert(fields[0] == ("content"@, a[0]));
        },
        FormKind::Environment => {},
    }
}

/// Nothing is stored that was not entered: every field has the answer to a
/// question under its name, but for the private key, which is read, and for the
/// variables of an environment, which are its fields.
pub proof fn law_fields_come_from_answers(f: FormView, j: int) -> (i: int)
    requires
        next_step(f) is Ready,
        0 <= j < form_fields(f).len(),
    ensures
        f.kind is Environment ==> form_fields(f) == f.vars,
        !(f.kind is Environment) ==> {
            let (name, t) = form_fields(f)[j];
            &&& 0 <= i < f.answers.len()
            &&& f.answers[i] == t
            &&& question(f, i) is ReadKey ==> f.kind is SshKey && name == "private_key"@
            &&& !(question(f, i) is ReadKey) ==> (question(f, i) matches FormStepView::Ask(label, _)
                && (label == name || label == name + " (leave blank if none)"@))
        },
{
    lemma_notes();
    let a = f.answers;
    assert(forall|i: int, k: int| 0 <= k < i <= a.len() ==> #[trigger] a.take(i)[k] == a[k]);
    assert(question(f, j) == next_step(FormView { answers: a.take(j), ..f }));
    j
}

/// Which fields a secret of each kind must have, none of them empty.
pub proof fn law_required_fields_are_there(f: FormView)
    requires
        next_step(f) is Ready,
    ensures
        f.kind is Login ==> filled(f, "url"@) && filled(f, "username"@) && filled(f, "password"@),
        f.kind is ApiKey ==> filled(f, "key"@),
        f.kind is OAuthApp ==> filled(f, "client_id"@) && filled(f, "client_secret"@),
        f.kind is SshKey ==> filled(f, "private_key"@),
        f.kind is Note ==> filled(f, "content"@),
        f.kind is Environment ==> f.vars.len() > 0 && form_fields(f) == f.vars,
{
    let fields = form_fields(f);
    if !(f.kind is Environment) {
        law_stored_fields_are_filled(f, 0);
        assert(fields[0].0 == fields[0].0);
        if f.kind is Login || f.kind is OAuthApp {
            law_stored_fields_are_filled(f, 1);
            assert(fields[1].0 == fields[1].0);
        }
        if f.kind is Login {
            law_stored_fields_are_filled(f, 2);
            assert(fields[2].0 == fields[2].0);
        }
    }
}

/// There is a field of that name, and it is not empty.
pub open spec fn filled(f: FormView, name: Seq<char>) -> bool {
    exists|j: int|
        0 <= j < form_fields(f).len() && (#[trigger] form_fields(f)[j]).0 == name
            && form_fields(f)[j].1.len() > 0
}

/// A form to which every question was answered with more than white space is
/// not refused, and has no more questions.
pub proof fn law_filled_forms_are_ready(f: FormView)
    requires
        !(f.kind is Environment),
        f.answers.len() >= 4,
        forall|i: int| 0 <= i < f.answers.len() ==> text::trimmed(#[trigger] f.answers[i]).len() > 0,
    ensures
        next_step(f) is Ready,
{
    assert forall|i: int| 0 <= i < f.answers.len() implies (#[trigger] f.answers[i]).len() > 0 by {
        assert(text::trimmed(f.answers[i]).len() > 0);
        if f.answers[i].len() == 0 {
            assert(text::trimmed(f.answers[i]) =~= f.answers[i]);
        }
    }
}

/// A form is refused only for a required answer that is empty, for a private key
/// of white space, or for an environment without variables; and an answer that
/// is empty is accepted only where the question said so.
pub proof fn law_only_blank_answers_are_refused(f: FormView, i: int)
    ensures
        next_step(f) is Refuse ==> {
            ||| f.kind is Environment && f.vars_done && f.vars.len() == 0
            ||| f.kind is SshKey && question(f, 0) is ReadKey && text::trimmed(
                f.answers[0],
            ).len() == 0
            ||| exists|k: int|
                0 <= k < f.answers.len() && (#[trigger] f.answers[k]).len() == 0 && question(
                    f,
                    k,
                ) is Ask && !question(f, k)->Ask_0.contains(' ')
        },
        next_step(f) is Ready && !(f.kind is Environment) && 0 <= i < f.answers.len()
            && f.answers[i].len() == 0 && question(f, i) is Ask ==> exists|name: Seq<char>|
            question(f, i)->Ask_0 == #[trigger] (name + " (leave blank if none)"@),
        next_step(f) is Ready && f.kind is SshKey ==> text::trimmed(f.answers[0]).len() > 0,
{
    lemma_notes();
    lemma_no_blanks();
    let a = f.answers;
    assert(forall|m: int, k: int| 0 <= k < m <= a.len() ==> #[trigger] a.take(m)[k] == a[k]);
    if next_step(f) is Refuse && (f.kind is Login || f.kind is ApiKey || f.kind is OAuthApp
        || f.kind is Note) {
        let k: int = if a[0].len() == 0 {
            0
        } else if a[1].len() == 0 {
            1
        } else {
            2
        };
        assert(a[k].len() == 0);
        assert(question(f, k) is Ask);
    }
}

/// A login is asked for in full before it is looked at; any other form is
/// refused before it asks for what may be left blank.
pub proof fn law_when_answers_are_looked_at(f: FormView, i: int)
    ensures
        f.kind is Login && f.answers.len() < 4 ==> next_step(f) is Ask,
        !(f.kind is Login) && (next_step(f) matches FormStepView::Ask(label, _) && label.contains(
            ' ',
        )) && 0 <= i < f.answers.len() ==> f.answers[i].len() > 0,
{
    lemma_no_blanks();
    if f.kind is SshKey && f.answers.len() > 0 && f.answers[0].len() == 0 {
        assert(text::trimmed(f.answers[0]).len() == 0);
    }
}

/// There is a question under this label.
pub open spec fn asks(f: FormView, label: Seq<char>) -> bool {
    exists|i: int|
        0 <= i < f.answers.len() && (#[trigger] question(f, i)) is Ask && question(f, i)->Ask_0
            == label
}

/// Which parts of a secret of each kind are asked for.
pub proof fn law_what_is_asked_for(f: FormView)
    requires
        next_step(f) is Ready,
    ensures
        f.kind is Login ==> asks(f, "url"@) && asks(f, "username"@) && asks(f, "password"@) && asks(
            f,
            "totp_seed"@ + " (leave blank if none)"@,
        ),
        f.kind is ApiKey ==> asks(f, "key"@) && asks(f, "url"@ + " (leave blank if none)"@),
        f.kind is OAuthApp ==> asks(f, "client_id"@) && asks(f, "client_secret"@) && asks(
            f,
            "redirect_url"@ + " (leave blank if none)"@,
        ),
        f.kind is SshKey ==> question(f, 0) is ReadKey && asks(
            f,
            "passphrase"@ + " (leave blank if none)"@,
        ),
        f.kind is Note ==> asks(f, "content"@),
        f.kind is Environment ==> f.vars_done,
{
    lemma_notes();
    let a = f.answers;
    assert(forall|m: int, k: int| 0 <= k < m <= a.len() ==> #[trigger] a.take(m)[k] == a[k]);
    if !(f.kind is Environment) {
        assert(question(f, 0) is Ask || question(f, 0) is ReadKey);
        if !(f.kind is Note) {
            assert(question(f, 1) is Ask);
        }
        if f.kind is Login || f.kind is OAuthApp {
            assert(question(f, 2) is Ask);
        }
        if f.kind is Login {
            assert(question(f, 3) is Ask);
        }
    }
}

/// What is entered is hidden exactly for the passwords, keys, secrets,
/// passphrases and contents.
pub proof fn law_secrets_are_typed_unseen(f: FormView)
    ensures
        next_step(f) matches FormStepView::Ask(label, hidden) ==> (hidden <==> label == "password"@
            || label == "key"@ || label == "client_secret"@ || label
            == "passphrase (leave blank if none)"@ || label == "content"@),
{
    lemma_notes();
    lemma_no_blanks();
    lemma_names_differ();
    lemma_noted("password"@, "totp_seed"@);
    lemma_noted("key"@, "totp_seed"@);
    lemma_noted("client_secret"@, "totp_seed"@);
    lemma_noted("content"@, "totp_seed"@);
    lemma_noted("password"@, "url"@);
    lemma_noted("key"@, "url"@);
    lemma_noted("client_secret"@, "url"@);
    lemma_noted("content"@, "url"@);
    lemma_noted("password"@, "redirect_url"@);
    lemma_noted("key"@, "redirect_url"@);
    lemma_noted("client_secret"@, "redirect_url"@);
    lemma_noted("content"@, "redirect_url"@);
    lemma_noted("passphrase"@, "totp_seed"@);
    lemma_noted("passphrase"@, "url"@);
    lemma_noted("passphrase"@, "redirect_url"@);
    lemma_noted("passphrase"@, "username"@);
    lemma_noted("passphrase"@, "client_id"@);
    reveal_strlit("username");
    reveal_strlit("url");
    reveal_strlit("client_id");
    reveal_strlit("key");
    reveal_strlit("client_secret");
    reveal_strlit("content");
    reveal_strlit("password");
    reveal_strlit("totp_seed");
    reveal_strlit("redirect_url");
    reveal_strlit("passphrase");
    assert("username"@.len() == 8 && "url"@.len() == 3 && "client_id"@.len() == 9);
    assert("key"@.len() == 3 && "client_secret"@.len() == 13 && "content"@.len() == 7);
    assert("totp_seed"@[0] == 't' && "passphrase"@[0] == 'p' && "redirect_url"@[0] == 'r');
}

/// Every kind has its name, and a second word that leaves the hyphen out or is
/// shorter; no other word names a kind.
pub proof fn law_words_name_kinds(word: Seq<char>, kind: FormKind)
    ensures
        kind_named(kind_text(kind)) == Some(kind),
        kind_named(word) == Some(FormKind::ApiKey) <==> word == "api-key"@ || word == "apikey"@,
        kind_named(word) == Some(FormKind::Login) <==> word == "login"@,
        kind_named(word) == Some(FormKind::OAuthApp) <==> word == "oauth-app"@ || word
            == "oauthapp"@,
        kind_named(word) == Some(FormKind::SshKey) <==> word == "ssh-key"@ || word == "sshkey"@,
        kind_named(word) == Some(FormKind::Note) <==> word == "note"@,
        kind_named(word) == Some(FormKind::Environment) <==> word == "environment"@ || word
            == "env"@,
{
    reveal_strlit("api-key");
    reveal_strlit("apikey");
    reveal_strlit("login");
    reveal_strlit("oauth-app");
    reveal_strlit("oauthapp");
    reveal_strlit("ssh-key");
    reveal_strlit("sshkey");
    reveal_strlit("note");
    reveal_strlit("environment");
    reveal_strlit("env");
    assert("api-key"@.len() == 7 && "apikey"@.len() == 6 && "login"@.len() == 5);
    assert("oauth-app"@.len() == 9 && "oauthapp"@.len() == 8 && "ssh-key"@.len() == 7);
    assert("sshkey"@.len() == 6 && "note"@.len() == 4 && "environment"@.len() == 11);
    assert("env"@.len() == 3);
    assert("api-key"@[0] == 'a' && "ssh-key"@[0] == 's');
    assert("apikey"@[0] == 'a' && "sshkey"@[0] == 's');
}

/// A form is started exactly for two proper names and a word that names a
/// kind; a service that is not proper is told before a key, and a key before
/// the word.
pub proof fn law_which_forms_are_started(service: Seq<char>, key: Seq<char>, word: Seq<char>)
    ensures
        start_refusal(service, key, word) is None <==> names::name_problem(service) is None
            && names::name_problem(key) is None && kind_named(word) is Some,
        names::name_problem(service) is Some ==> text::begins(
            start_refusal(service, key, word)->0,
            "service"@,
        ),
        names::name_problem(service) is None && names::name_problem(key) is Some ==> text::begins(
            start_refusal(service, key, word)->0,
            "key"@,
        ),
        names::name_problem(service) is None && names::name_problem(key) is None && kind_named(
            word,
        ) is None ==> text::holds(start_refusal(service, key, word)->0, "'"@ + word + "'"@),
{
    if names::name_problem(service) is Some {
        names::law_problems_name_their_label("service"@, names::name_problem(service)->0);
    } else if names::name_problem(key) is Some {
        names::law_problems_name_their_label("key"@, names::name_problem(key)->0);
    } else if kind_named(word) is None {
        let a = "unknown secret type '"@;
        let b = "'. Valid types: api-key, login, oauth-app, ssh-key, note, environment"@;
        assert(a =~= a.drop_last() + "'"@ && b =~= "'"@ + b.drop_first()) by {
            reveal_strlit("unknown secret type '");
            reveal_strlit("'. Valid types: api-key, login, oauth-app, ssh-key, note, environment");
            reveal_strlit("'");
        }
        let t = start_refusal(service, key, word)->0;
        assert(t =~= a.drop_last() + ("'"@ + word + "'"@) + b.drop_first());
        text::law_what_a_text_holds(a.drop_last(), "'"@ + word + "'"@, b.drop_first());
    }
}

/// A line of variables is cut at its first `=`: what stands before it is the
/// name, and all that stands behind it the text, both without white space at
/// their ends. A line without `=` is none, and a blank one ends the list.
pub proof fn law_variables_stand_around_the_first_sign(
    line: Seq<char>,
    before: Seq<char>,
    after: Seq<char>,
)
    requires
        !before.contains('='),
    ensures
        text::trimmed(line) == before.push('=') + after ==> var_line(line) == VarLineView::Pair(
            text::trimmed(before),
            text::trimmed(after),
        ),
        text::trimmed(line) == before && before.len() > 0 ==> (var_line(
            line,
        ) matches VarLineView::Invalid(msg) && text::holds(msg, before)),
        text::trimmed(line).len() == 0 <==> var_line(line) is End,
{
    let l = text::trimmed(line);
    text::lemma_first_index(l, '=');
    let i = text::first_index(l, '=');
    if l == before.push('=') + after {
        let n = before.len() as int;
        assert(l[n] == '=');
        if i < n {
            assert(before[i] == l[i]);
            assert(before.contains('='));
        }
        assert(i == n);
        assert(l.take(i) =~= before);
        assert(l.skip(i + 1) =~= after);
    }
    if l == before && before.len() > 0 {
        if i < l.len() {
            assert(before[i] == '=');
            assert(before.contains('='));
        }
        let head = "  skipping invalid line (expected KEY=VALUE): "@;
        text::law_what_a_text_holds(head, before, Seq::empty());
        assert(head + before + Seq::<char>::empty() =~= head + before);
    }
}

/// A private key ends at the line `---END---`, whatever white space is around
/// it, and at no other.
pub proof fn law_keys_end_at_the_end_line(a: Seq<char>, b: Seq<char>, line: Seq<char>)
    requires
        forall|i: int| 0 <= i < a.len() ==> text::white(#[trigger] a[i]),
        forall|i: int| 0 <= i < b.len() ==> text::white(#[trigger] b[i]),
    ensures
        ends_key(a + "---END---"@ + b),
        ends_key(line) ==> text::holds(line, "---END---"@),
{
    reveal_strlit("---END---");
    text::law_trimming_gives_back_the_core(a, "---END---"@, b);
    let (x, y) = text::law_trimming_takes_the_white_ends(line);
    if ends_key(line) {
        assert(line.subrange(x, x + "---END---"@.len()) == "---END---"@);
    }
}

/// What is said of a stored secret names it, its kind and its number.
pub proof fn law_stored_secrets_are_named(
    service: Seq<char>,
    key: Seq<char>,
    word: Seq<char>,
    id: u64,
)
    ensures
        text::begins(
            stored_text(service, key, word, id),
            "stored "@ + service + "/"@ + key + " ("@ + word + ")"@,
        ),
        text::holds(stored_text(service, key, word, id), "engram_id="@ + text::digits(id as nat)),
{
    assert(") engram_id="@ =~= ")"@ + " "@ + "engram_id="@) by {
        reveal_strlit(") engram_id=");
        reveal_strlit(")");
        reveal_strlit(" ");
        reveal_strlit("engram_id=");
    }
    let head = "stored "@ + service + "/"@ + key + " ("@ + word + ")"@;
    let part = "engram_id="@ + text::digits(id as nat);
    let t = stored_text(service, key, word, id);
    assert(t =~= (head + " "@) + part + Seq::<char>::empty());
    text::law_what_a_text_holds(head + " "@, part, Seq::empty());
    assert(t.take(head.len() as int) =~= head);
}

/// A form starts with nothing in it but its names and its kind.
pub proof fn law_forms_start_empty(service: Seq<char>, key: Seq<char>, kind: FormKind)
    ensures
        ({
            let f = empty_form(service, key, kind);
            &&& f.service == service && f.key == key && f.kind == kind
            &&& f.answers.len() == 0 && f.key_text.len() == 0
            &&& f.vars.len() == 0 && !f.vars_done
            &&& !(next_step(f) is Ready) && !(next_step(f) is Refuse)
        }),
{
}

} // verus!
