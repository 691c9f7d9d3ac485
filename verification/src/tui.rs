//! The terminal interface: its state, what each key does to it, and the texts
//! that it shows.

use crate::names;
use crate::primitives;
use crate::text;
use crate::types;
use crate::types::{Secret, SecretValue};
use vstd::prelude::*;

verus! {

/// What the interface is doing.
#[derive(Clone, Copy, Debug, PartialEq, Eq, Structural)]
pub enum TuiMode {
    Normal,
    Adding,
    Filtering,
    Confirm,
    Detail,
}

/// Which part of a new secret is being typed.
#[derive(Clone, Copy, Debug, PartialEq, Eq, Structural)]
pub enum InputField {
    Service,
    Key,
    Value,
}

/// A key that was pressed.
#[derive(Clone, Copy, Debug, PartialEq, Eq, Structural)]
pub enum TuiKey {
    /// A character, and whether the control key was held.
    Char(char, bool),
    Enter,
    Esc,
    Backspace,
    Up,
    Down,
    Other,
}

/// The state of the interface.
pub struct TuiApp {
    pub secrets: Vec<Secret>,
    pub selected: Option<usize>,
    pub mode: TuiMode,
    pub input_buf: String,
    pub input_field: InputField,
    pub status_msg: String,
    pub show_values: bool,
    pub filter: String,
    pub add_service: String,
    pub add_key: String,
}

/// The state as contracts see it.
#[verifier::ext_equal]
pub struct TuiView {
    pub secrets: Seq<Secret>,
    pub selected: Option<usize>,
    pub mode: TuiMode,
    pub input_buf: Seq<char>,
    pub input_field: InputField,
    pub status_msg: Seq<char>,
    pub show_values: bool,
    pub filter: Seq<char>,
    pub add_service: Seq<char>,
    pub add_key: Seq<char>,
}

impl View for TuiApp {
    type V = TuiView;

    open spec fn view(&self) -> TuiView {
        TuiView {
            secrets: self.secrets@,
            selected: self.selected,
            mode: self.mode,
            input_buf: self.input_buf@,
            input_field: self.input_field,
            status_msg: self.status_msg@,
            show_values: self.show_values,
            filter: self.filter@,
            add_service: self.add_service@,
            add_key: self.add_key@,
        }
    }
}

/// What is to be done after a key.
pub enum TuiAction {
    /// Nothing.
    Stay,
    /// Leave the interface.
    Quit,
    /// Read the secrets again.
    Reload,
    /// Read the secrets again, and say so.
    Refresh,
    /// Store a secret.
    Store(Secret),
    /// Delete the secret of a service and key.
    Delete(String, String),
}

/// An action as contracts see it.
#[verifier::ext_equal]
pub enum TuiActionView {
    Stay,
    Quit,
    Reload,
    Refresh,
    Store { service: Seq<char>, key: Seq<char>, kind: Seq<char>, fields: Seq<(Seq<char>, Seq<char>)> },
    Delete { service: Seq<char>, key: Seq<char> },
}

impl View for TuiAction {
    type V = TuiActionView;

    open spec fn view(&self) -> TuiActionView {
        match self {
            TuiAction::Stay => TuiActionView::Stay,
            TuiAction::Quit => TuiActionView::Quit,
            TuiAction::Reload => TuiActionView::Reload,
            TuiAction::Refresh => TuiActionView::Refresh,
            TuiAction::Store(s) => TuiActionView::Store {
                service: s.service@,
                key: s.key@,
                kind: types::kind_of(s.value),
                fields: types::fields_of(s.value),
            },
            TuiAction::Delete(service, key) => TuiActionView::Delete {
                service: service@,
                key: key@,
            },
        }
    }
}

// ---------------------------------------------------------------------------
// The listing
// ---------------------------------------------------------------------------

/// Whether a filter lets a secret through: an empty one lets all through, any
/// other those with the filter in their service or key, whatever the case.
pub open spec fn passes(s: Secret, filter: Seq<char>) -> bool {
    ||| filter.len() == 0
    ||| text::holds(text::lowercase(s.service@), text::lowercase(filter))
    ||| text::holds(text::lowercase(s.key@), text::lowercase(filter))
}

/// The secrets that a filter lets through, in order.
pub open spec fn shown(secrets: Seq<Secret>, filter: Seq<char>) -> Seq<Secret> {
    secrets.filter(|s: Secret| passes(s, filter))
}

/// The secret that is selected, if one is.
pub open spec fn selection(a: TuiView) -> Option<Secret> {
    match a.selected {
        Some(i) => {
            let list = shown(a.secrets, a.filter);
            if i < list.len() {
                Some(list[i as int])
            } else {
                None
            }
        },
        None => None,
    }
}

/// The first row of a listing, if it has one.
pub open spec fn first_row(n: nat) -> Option<usize> {
    if n == 0 {
        None
    } else {
        Some(0)
    }
}

/// The row below, or the first one after the last.
pub open spec fn row_below(selected: Option<usize>, n: nat) -> Option<usize> {
    match selected {
        _ if n == 0 => selected,
        Some(i) => Some(((i + 1) % n as int) as usize),
        None => Some(0),
    }
}

/// The row above, or the last one before the first.
pub open spec fn row_above(selected: Option<usize>, n: nat) -> Option<usize> {
    match selected {
        _ if n == 0 => selected,
        Some(i) => Some(
            if i == 0 {
                (n - 1) as usize
            } else {
                (i - 1) as usize
            },
        ),
        None => Some(0),
    }
}

/// The state after the secrets were read again.
pub open spec fn with_listing(a: TuiView, listing: Result<Seq<Secret>, Seq<char>>) -> TuiView {
    match listing {
        Ok(secrets) => TuiView {
            secrets,
            selected: if secrets.len() == 0 {
                None
            } else if a.selected is None {
                Some(0)
            } else {
                a.selected
            },
            ..a
        },
        Err(e) => TuiView { status_msg: "error: "@ + e, ..a },
    }
}

/// What a backend answered, with its texts as views.
pub open spec fn listing_view(r: Result<Vec<Secret>, String>) -> Result<Seq<Secret>, Seq<char>> {
    match r {
        Ok(secrets) => Ok(secrets@),
        Err(e) => Err(e@),
    }
}

// ---------------------------------------------------------------------------
// What the keys do
// ---------------------------------------------------------------------------

/// A state with another message.
pub open spec fn saying(a: TuiView, msg: Seq<char>) -> TuiView {
    TuiView { status_msg: msg, ..a }
}

/// A state with nothing typed.
pub open spec fn wiped(a: TuiView) -> TuiView {
    TuiView { input_buf: Seq::empty(), add_service: Seq::empty(), add_key: Seq::empty(), ..a }
}

/// What a key does while the listing is shown.
pub open spec fn normal_key(a: TuiView, key: TuiKey) -> (TuiView, TuiActionView) {
    let n = shown(a.secrets, a.filter).len();
    let stay = TuiActionView::Stay;
    match key {
        TuiKey::Char('q', _) | TuiKey::Esc | TuiKey::Char('c', true) => (a, TuiActionView::Quit),
        TuiKey::Char('j', _) | TuiKey::Down => (
            TuiView { selected: row_below(a.selected, n), ..a },
            stay,
        ),
        TuiKey::Char('k', _) | TuiKey::Up => (
            TuiView { selected: row_above(a.selected, n), ..a },
            stay,
        ),
        TuiKey::Char('a', _) => (
            TuiView {
                mode: TuiMode::Adding,
                input_field: InputField::Service,
                ..saying(wiped(a), "enter service name"@)
            },
            stay,
        ),
        TuiKey::Char('d', _) => if selection(a) is Some {
            (TuiView { mode: TuiMode::Confirm, ..saying(a, "delete? (y/n)"@) }, stay)
        } else {
            (a, stay)
        },
        TuiKey::Char('v', _) => (
            TuiView {
                show_values: !a.show_values,
                ..saying(
                    a,
                    if a.show_values {
                        "values hidden"@
                    } else {
                        "values visible"@
                    },
                )
            },
            stay,
        ),
        TuiKey::Char('/', _) => (
            TuiView { mode: TuiMode::Filtering, input_buf: a.filter, ..saying(a, "filter:"@) },
            stay,
        ),
        TuiKey::Enter => if selection(a) is Some {
            (TuiView { mode: TuiMode::Detail, ..a }, stay)
        } else {
            (a, stay)
        },
        TuiKey::Char('r', _) => (a, TuiActionView::Refresh),
        _ => (a, stay),
    }
}

/// What a key that types does to the text that is being typed.
pub open spec fn typed(buf: Seq<char>, key: TuiKey) -> Seq<char> {
    match key {
        TuiKey::Char(c, _) => buf.push(c),
        TuiKey::Backspace => if buf.len() == 0 {
            buf
        } else {
            buf.drop_last()
        },
        _ => buf,
    }
}

/// What the enter key does while a new secret is typed: a part that will do is
/// taken over, and of any other it is said what is wrong.
pub open spec fn adding_enter(a: TuiView) -> (TuiView, TuiActionView) {
    let problem = names::name_problem(a.input_buf);
    match a.input_field {
        InputField::Service => (
            if problem is Some {
                saying(a, names::problem_text("service"@, problem->0))
            } else {
                TuiView {
                    add_service: a.input_buf,
                    input_buf: Seq::empty(),
                    input_field: InputField::Key,
                    ..saying(a, "enter key name"@)
                }
            },
            TuiActionView::Stay,
        ),
        InputField::Key => (
            if problem is Some {
                saying(a, names::problem_text("key"@, problem->0))
            } else {
                TuiView {
                    add_key: a.input_buf,
                    input_buf: Seq::empty(),
                    input_field: InputField::Value,
                    ..saying(a, "enter api-key value"@)
                }
            },
            TuiActionView::Stay,
        ),
        InputField::Value => if a.input_buf.len() == 0 {
            (saying(a, "value cannot be empty"@), TuiActionView::Stay)
        } else {
            (
                TuiView { input_buf: Seq::empty(), ..a },
                TuiActionView::Store {
                    service: a.add_service,
                    key: a.add_key,
                    kind: "api-key"@,
                    fields: seq![("key"@, a.input_buf)],
                },
            )
        },
    }
}

/// What a key does while a new secret is typed.
pub open spec fn adding_key(a: TuiView, key: TuiKey) -> (TuiView, TuiActionView) {
    match key {
        TuiKey::Esc => (
            TuiView { mode: TuiMode::Normal, ..saying(wiped(a), Seq::empty()) },
            TuiActionView::Stay,
        ),
        TuiKey::Enter => adding_enter(a),
        _ => (TuiView { input_buf: typed(a.input_buf, key), ..a }, TuiActionView::Stay),
    }
}

/// What a key does while a filter is typed.
pub open spec fn filtering_key(a: TuiView, key: TuiKey) -> TuiView {
    match key {
        TuiKey::Esc => TuiView {
            filter: Seq::empty(),
            mode: TuiMode::Normal,
            selected: first_row(a.secrets.len()),
            ..saying(a, Seq::empty())
        },
        TuiKey::Enter => TuiView {
            filter: a.input_buf,
            mode: TuiMode::Normal,
            selected: first_row(shown(a.secrets, a.input_buf).len()),
            ..saying(
                a,
                if a.input_buf.len() == 0 {
                    Seq::empty()
                } else {
                    "filter: "@ + a.input_buf
                },
            )
        },
        _ => TuiView { input_buf: typed(a.input_buf, key), ..a },
    }
}

/// What a key does while a deletion waits to be confirmed.
pub open spec fn confirm_key(a: TuiView, key: TuiKey) -> (TuiView, TuiActionView) {
    match key {
        TuiKey::Char('y', _) => match selection(a) {
            Some(s) => (a, TuiActionView::Delete { service: s.service@, key: s.key@ }),
            None => (TuiView { mode: TuiMode::Normal, ..a }, TuiActionView::Stay),
        },
        _ => (TuiView { mode: TuiMode::Normal, ..saying(a, "cancelled"@) }, TuiActionView::Stay),
    }
}

/// What a key does while one secret is shown.
pub open spec fn detail_key(a: TuiView, key: TuiKey) -> TuiView {
    match key {
        TuiKey::Esc | TuiKey::Enter | TuiKey::Char('q', _) => TuiView {
            mode: TuiMode::Normal,
            ..a
        },
        _ => a,
    }
}

/// What a key does: the next state, and what is to be done.
pub open spec fn key_step(a: TuiView, key: TuiKey) -> (TuiView, TuiActionView) {
    match a.mode {
        TuiMode::Normal => normal_key(a, key),
        TuiMode::Adding => adding_key(a, key),
        TuiMode::Filtering => (filtering_key(a, key), TuiActionView::Stay),
        TuiMode::Confirm => confirm_key(a, key),
        TuiMode::Detail => (detail_key(a, key), TuiActionView::Stay),
    }
}

/// The state after a new secret was stored, or could not be.
pub open spec fn after_store(a: TuiView, result: Result<u64, Seq<char>>) -> TuiView {
    let msg = match result {
        Ok(id) => "stored "@ + a.add_service + "/"@ + a.add_key + " (id="@ + text::digits(
            id as nat,
        ) + ")"@,
        Err(e) => "error: "@ + e,
    };
    TuiView {
        mode: TuiMode::Normal,
        add_service: Seq::empty(),
        add_key: Seq::empty(),
        ..saying(a, msg)
    }
}

/// The state after a secret was deleted, or could not be.
pub open spec fn after_delete(
    a: TuiView,
    service: Seq<char>,
    key: Seq<char>,
    result: Result<(), Seq<char>>,
) -> TuiView {
    let msg = match result {
        Ok(_) => "deleted "@ + service + "/"@ + key,
        Err(e) => "error: "@ + e,
    };
    TuiView { mode: TuiMode::Normal, ..saying(a, msg) }
}

fn does_pass(s: &Secret, filter: &str, lower: &str) -> (r: bool)
    requires
        lower@ == text::lowercase(filter@),
    ensures
        r == passes(*s, filter@),
{
    filter.is_empty() || text::contains(s.service.as_str().to_lowercase().as_str(), lower)
        || text::contains(s.key.as_str().to_lowercase().as_str(), lower)
}

fn error_message(e: &str) -> (r: String)
    ensures
        r@ == "error: "@ + e@,
{
    let mut msg = "error: ".to_owned();
    msg.append(e);
    msg
}

impl TuiApp {
    /// An interface without secrets, that shows the listing.
    pub fn new() -> (r: TuiApp)
        ensures
            r@ == (TuiView {
                secrets: Seq::empty(),
                selected: None,
                mode: TuiMode::Normal,
                input_buf: Seq::empty(),
                input_field: InputField::Service,
                status_msg: Seq::empty(),
                show_values: false,
                filter: Seq::empty(),
                add_service: Seq::empty(),
                add_key: Seq::empty(),
            }),
    {
        TuiApp {
            secrets: Vec::new(),
            selected: None,
            mode: TuiMode::Normal,
            input_buf: String::new(),
            input_field: InputField::Service,
            status_msg: String::new(),
            show_values: false,
            filter: String::new(),
            add_service: String::new(),
            add_key: String::new(),
        }
    }

    /// The secrets that the filter lets through, in order.
    pub fn filtered_secrets(&self) -> (r: Vec<&Secret>)
        ensures
            r@.unref() == shown(self.secrets@, self.filter@),
    {
        let lower = self.filter.as_str().to_lowercase();
        let ghost p = |s: Secret| passes(s, self.filter@);
        let mut out: Vec<&Secret> = Vec::new();
        let mut i: usize = 0;
        assert(self.secrets@.take(0) =~= Seq::<Secret>::empty());
        assert(self.secrets@.take(0).filter(p) =~= Seq::<Secret>::empty());
        assert(out@.unref() =~= Seq::<Secret>::empty());
        while i < self.secrets.len()
            invariant
                lower@ == text::lowercase(self.filter@),
                p == (|s: Secret| passes(s, self.filter@)),
                i <= self.secrets@.len(),
                out@.unref() == self.secrets@.take(i as int).filter(p),
            decreases self.secrets@.len() - i,
        {
            let ghost before = out@.unref();
            let ghost s = self.secrets@[i as int];
            proof {
                assert(self.secrets@.take(i + 1) =~= self.secrets@.take(i as int).push(s));
                self.secrets@.take(i as int).lemma_filter_push(s, p);
            }
            if does_pass(&self.secrets[i], self.filter.as_str(), lower.as_str()) {
                out.push(&self.secrets[i]);
                assert(out@.unref() =~= before.push(s));
            }
            i += 1;
        }
        assert(self.secrets@.take(self.secrets@.len() as int) =~= self.secrets@);
        out
    }

    /// The secret that is selected, if one is.
    pub fn selected_secret(&self) -> (r: Option<&Secret>)
        ensures
            r is Some <==> selection(self@) is Some,
            r matches Some(s) ==> *s == selection(self@)->0,
    {
        let list = self.filtered_secrets();
        assert(list@.unref().len() == list@.len());
        match self.selected {
            Some(i) => if i < list.len() {
                assert(list@.unref()[i as int] == *list@[i as int]);
                Some(list[i])
            } else {
                None
            },
            None => None,
        }
    }

    /// Sets the selected row.
    pub fn select(&mut self, row: Option<usize>)
        ensures
            final(self)@ == (TuiView { selected: row, ..old(self)@ }),
    {
        self.selected = row;
    }

    /// Takes over what reading the secrets gave.
    pub fn refresh(&mut self, listing: Result<Vec<Secret>, String>)
        ensures
            final(self)@ == with_listing(old(self)@, listing_view(listing)),
    {
        match listing {
            Ok(secrets) => {
                self.secrets = secrets;
                if self.secrets.len() == 0 {
                    self.selected = None;
                } else if self.selected.is_none() {
                    self.selected = Some(0);
                }
            },
            Err(e) => {
                self.status_msg = error_message(e.as_str());
            },
        }
    }

    /// Takes over what reading the secrets gave when the user asked for it.
    pub fn refreshed(&mut self, listing: Result<Vec<Secret>, String>)
        ensures
            final(self)@ == saying(
                with_listing(old(self)@, listing_view(listing)),
                "refreshed"@,
            ),
    {
        self.refresh(listing);
        self.status_msg = "refreshed".to_owned();
    }

    fn on_normal_key(&mut self, key: TuiKey) -> (r: TuiAction)
        ensures
            (final(self)@, r@) == normal_key(old(self)@, key),
    {
        let n: usize = self.filtered_secrets().len();
        let any = self.selected_secret().is_some();
        assert(n == shown(self.secrets@, self.filter@).len());
        match key {
            TuiKey::Char('q', _) | TuiKey::Esc | TuiKey::Char('c', true) => {
                return TuiAction::Quit;
            },
            TuiKey::Char('j', _) | TuiKey::Down => {
                if n > 0 {
                    self.selected = match self.selected {
                        Some(i) => {
                            proof {
                                vstd::arithmetic::div_mod::lemma_add_mod_noop(
                                    i as int,
                                    1,
                                    n as int,
                                );
                                if n == 1 {
                                    vstd::arithmetic::div_mod::lemma_mod_self_0(1);
                                } else {
                                    vstd::arithmetic::div_mod::lemma_small_mod(1, n as nat);
                                }
                            }
                            Some((i % n + 1) % n)
                        },
                        None => Some(0),
                    };
                }
            },
            TuiKey::Char('k', _) | TuiKey::Up => {
                if n > 0 {
                    self.selected = match self.selected {
                        Some(i) => Some(
                            if i == 0 {
                                n - 1
                            } else {
                                i - 1
                            },
                        ),
                        None => Some(0),
                    };
                }
            },
            TuiKey::Char('a', _) => {
                self.mode = TuiMode::Adding;
                self.input_field = InputField::Service;
                self.input_buf = String::new();
                self.add_service = String::new();
                self.add_key = String::new();
                self.status_msg = "enter service name".to_owned();
            },
            TuiKey::Char('d', _) => {
                if any {
                    self.mode = TuiMode::Confirm;
                    self.status_msg = "delete? (y/n)".to_owned();
                }
            },
            TuiKey::Char('v', _) => {
                self.show_values = !self.show_values;
                self.status_msg = (if self.show_values {
                    "values visible"
                } else {
                    "values hidden"
                }).to_owned();
            },
            TuiKey::Char('/', _) => {
                self.mode = TuiMode::Filtering;
                self.input_buf = self.filter.clone();
                self.status_msg = "filter:".to_owned();
            },
            TuiKey::Enter => {
                if any {
                    self.mode = TuiMode::Detail;
                }
            },
            TuiKey::Char('r', _) => {
                return TuiAction::Refresh;
            },
            _ => {},
        }
        TuiAction::Stay
    }

    fn type_key(&mut self, key: TuiKey)
        ensures
            final(self)@ == (TuiView {
                input_buf: typed(old(self)@.input_buf, key),
                ..old(self)@
            }),
    {
        match key {
            TuiKey::Char(c, _) => {
                self.input_buf.push(c);
            },
            TuiKey::Backspace => {
                let _ = self.input_buf.pop();
            },
            _ => {},
        }
    }

    fn on_adding_enter(&mut self) -> (r: TuiAction)
        ensures
            (final(self)@, r@) == adding_enter(old(self)@),
            r matches TuiAction::Store(s) ==> s.engram_id is None && s.created_at is None,
    {
        match self.input_field {
            InputField::Service => {
                match names::validate_name(self.input_buf.as_str(), "service") {
                    Err(msg) => {
                        self.status_msg = msg;
                    },
                    Ok(_) => {
                        self.add_service = self.input_buf.clone();
                        self.input_buf = String::new();
                        self.input_field = InputField::Key;
                        self.status_msg = "enter key name".to_owned();
                    },
                }
                TuiAction::Stay
            },
            InputField::Key => {
                match names::validate_name(self.input_buf.as_str(), "key") {
                    Err(msg) => {
                        self.status_msg = msg;
                    },
                    Ok(_) => {
                        self.add_key = self.input_buf.clone();
                        self.input_buf = String::new();
                        self.input_field = InputField::Value;
                        self.status_msg = "enter api-key value".to_owned();
                    },
                }
                TuiAction::Stay
            },
            InputField::Value => {
                if self.input_buf.as_str().is_empty() {
                    self.status_msg = "value cannot be empty".to_owned();
                    return TuiAction::Stay;
                }
                let value = SecretValue::ApiKey {
                    key: self.input_buf.clone(),
                    url: None,
                    notes: None,
                };
                assert(types::fields_of(value) =~= seq![("key"@, self.input_buf@)]);
                let secret = Secret::new(self.add_service.as_str(), self.add_key.as_str(), value);
                primitives::zeroize_string(&mut self.input_buf);
                TuiAction::Store(secret)
            },
        }
    }

    fn on_adding_key(&mut self, key: TuiKey) -> (r: TuiAction)
        ensures
            (final(self)@, r@) == adding_key(old(self)@, key),
            r matches TuiAction::Store(s) ==> s.engram_id is None && s.created_at is None,
    {
        match key {
            TuiKey::Esc => {
                primitives::zeroize_string(&mut self.input_buf);
                primitives::zeroize_string(&mut self.add_service);
                primitives::zeroize_string(&mut self.add_key);
                self.mode = TuiMode::Normal;
                self.status_msg = String::new();
                TuiAction::Stay
            },
            TuiKey::Enter => self.on_adding_enter(),
            _ => {
                self.type_key(key);
                TuiAction::Stay
            },
        }
    }

    fn on_filtering_key(&mut self, key: TuiKey)
        ensures
            final(self)@ == filtering_key(old(self)@, key),
    {
        match key {
            TuiKey::Esc => {
                self.filter = String::new();
                self.mode = TuiMode::Normal;
                self.status_msg = String::new();
                self.selected = if self.secrets.len() == 0 {
                    None
                } else {
                    Some(0)
                };
            },
            TuiKey::Enter => {
                self.filter = self.input_buf.clone();
                self.mode = TuiMode::Normal;
                if self.filter.as_str().is_empty() {
                    self.status_msg = String::new();
                } else {
                    let mut msg = "filter: ".to_owned();
                    msg.append(self.filter.as_str());
                    self.status_msg = msg;
                }
                let n: usize = self.filtered_secrets().len();
                assert(n == shown(self.secrets@, self.filter@).len());
                self.selected = if n == 0 {
                    None
                } else {
                    Some(0)
                };
            },
            _ => {
                self.type_key(key);
            },
        }
    }

    fn on_confirm_key(&mut self, key: TuiKey) -> (r: TuiAction)
        ensures
            (final(self)@, r@) == confirm_key(old(self)@, key),
    {
        match key {
            TuiKey::Char('y', _) => {
                match self.selected_secret() {
                    Some(s) => {
                        return TuiAction::Delete(s.service.clone(), s.key.clone());
                    },
                    None => {},
                }
                self.mode = TuiMode::Normal;
                TuiAction::Stay
            },
            _ => {
                self.mode = TuiMode::Normal;
                self.status_msg = "cancelled".to_owned();
                TuiAction::Stay
            },
        }
    }

    fn on_detail_key(&mut self, key: TuiKey)
        ensures
            final(self)@ == detail_key(old(self)@, key),
    {
        match key {
            TuiKey::Esc | TuiKey::Enter | TuiKey::Char('q', _) => {
                self.mode = TuiMode::Normal;
            },
            _ => {},
        }
    }

    /// Takes a key that was pressed, and says what is to be done.
    pub fn handle_key(&mut self, key: TuiKey) -> (r: TuiAction)
        ensures
            (final(self)@, r@) == key_step(old(self)@, key),
            r matches TuiAction::Store(s) ==> s.engram_id is None && s.created_at is None,
    {
        match self.mode {
            TuiMode::Normal => self.on_normal_key(key),
            TuiMode::Adding => self.on_adding_key(key),
            TuiMode::Filtering => {
                self.on_filtering_key(key);
                TuiAction::Stay
            },
            TuiMode::Confirm => self.on_confirm_key(key),
            TuiMode::Detail => {
                self.on_detail_key(key);
                TuiAction::Stay
            },
        }
    }

    /// Takes over what storing the new secret gave, and says what is to be
    /// done next.
    pub fn stored(&mut self, result: Result<u64, String>) -> (r: TuiAction)
        ensures
            final(self)@ == after_store(
                old(self)@,
                match result {
                    Ok(id) => Ok(id),
                    Err(e) => Err(e@),
                },
            ),
            r@ == if result is Ok {
                TuiActionView::Reload
            } else {
                TuiActionView::Stay
            },
    {
        let ok = result.is_ok();
        self.status_msg = match result {
            Ok(id) => {
                let mut msg = "stored ".to_owned();
                msg.append(self.add_service.as_str());
                msg.append("/");
                msg.append(self.add_key.as_str());
                msg.append(" (id=");
                msg.append(text::decimal(id).as_str());
                msg.append(")");
                msg
            },
            Err(e) => error_message(e.as_str()),
        };
        primitives::zeroize_string(&mut self.add_service);
        primitives::zeroize_string(&mut self.add_key);
        self.mode = TuiMode::Normal;
        if ok {
            TuiAction::Reload
        } else {
            TuiAction::Stay
        }
    }

    /// Takes over what deleting a secret gave, and says what is to be done
    /// next.
    pub fn deleted(&mut self, service: &str, key: &str, result: Result<(), String>) -> (r:
        TuiAction)
        ensures
            final(self)@ == after_delete(
                old(self)@,
                service@,
                key@,
                match result {
                    Ok(_) => Ok(()),
                    Err(e) => Err(e@),
                },
            ),
            r@ == if result is Ok {
                TuiActionView::Reload
            } else {
                TuiActionView::Stay
            },
    {
        let ok = result.is_ok();
        self.status_msg = match result {
            Ok(_) => {
                let mut msg = "deleted ".to_owned();
                msg.append(service);
                msg.append("/");
                msg.append(key);
                msg
            },
            Err(e) => error_message(e.as_str()),
        };
        self.mode = TuiMode::Normal;
        if ok {
            TuiAction::Reload
        } else {
            TuiAction::Stay
        }
    }
}

// ---------------------------------------------------------------------------
// What is shown
// ---------------------------------------------------------------------------

/// The name of an input field.
pub open spec fn field_label(f: InputField) -> Seq<char> {
    match f {
        InputField::Service => "service"@,
        InputField::Key => "key"@,
        InputField::Value => "value"@,
    }
}

/// The line at the bottom. A value that is being typed shows as one star for
/// each of its bytes.
pub open spec fn status_text(a: TuiView) -> Seq<char> {
    match a.mode {
        TuiMode::Adding => "[add] "@ + field_label(a.input_field) + ": "@ + (
        if a.input_field == InputField::Value {
            text::repeated('*', text::byte_len(a.input_buf) as int)
        } else {
            a.input_buf
        }) + "|"@,
        TuiMode::Filtering => "/"@ + a.input_buf,
        _ => a.status_msg,
    }
}

/// The title of the listing.
pub open spec fn title_text(a: TuiView) -> Seq<char> {
    let all = text::digits(a.secrets.len());
    if a.filter.len() == 0 {
        " secrets ("@ + all + ") "@
    } else {
        " secrets ("@ + text::digits(shown(a.secrets, a.filter).len()) + "/"@ + all + ") ["@
            + a.filter + "] "@
    }
}

/// A row of the listing.
pub struct TableRow {
    pub service: String,
    pub key: String,
    pub kind: String,
    pub preview: String,
}

/// A row as contracts see it.
#[verifier::ext_equal]
pub struct TableRowView {
    pub service: Seq<char>,
    pub key: Seq<char>,
    pub kind: Seq<char>,
    pub preview: Seq<char>,
}

impl View for TableRow {
    type V = TableRowView;

    open spec fn view(&self) -> TableRowView {
        TableRowView {
            service: self.service@,
            key: self.key@,
            kind: self.kind@,
            preview: self.preview@,
        }
    }
}

/// The row of a secret: its preview stands there if values are shown, else its
/// kind once more.
pub open spec fn row_of(s: Secret, show_values: bool) -> TableRowView {
    TableRowView {
        service: s.service@,
        key: s.key@,
        kind: types::kind_of(s.value),
        preview: if show_values {
            types::preview_of(s.value)
        } else {
            types::kind_of(s.value)
        },
    }
}

/// The rows of the listing.
pub open spec fn rows_of(a: TuiView) -> Seq<TableRowView> {
    shown(a.secrets, a.filter).map_values(|s: Secret| row_of(s, a.show_values))
}

/// The views of rows.
pub open spec fn row_views(rows: Seq<TableRow>) -> Seq<TableRowView> {
    rows.map_values(|r: TableRow| r@)
}

/// The lines on one secret: labels and texts.
pub open spec fn detail_of(s: Secret, show_values: bool) -> Seq<(Seq<char>, Seq<char>)> {
    seq![
        ("Service: "@, s.service@),
        ("Key:     "@, s.key@),
        ("Type:    "@, types::kind_of(s.value)),
        ("Fields:  "@, text::joined(types::names_of(types::fields_of(s.value)), ", "@)),
        (
            "Preview: "@,
            if show_values {
                types::preview_of(s.value)
            } else {
                "[hidden - press v to show]"@
            },
        ),
        (
            "Engram:  "@,
            match s.engram_id {
                Some(id) => "#"@ + text::digits(id as nat),
                None => "-"@,
            },
        ),
    ]
}

/// A rectangle of the screen.
#[derive(Clone, Copy, Debug, PartialEq, Eq, Structural)]
pub struct Area {
    pub x: u16,
    pub y: u16,
    pub width: u16,
    pub height: u16,
}

/// The size of the window on one secret along one side of a screen: `most`,
/// but two cells are left free at each end.
pub open spec fn modal_size(most: int, screen: int) -> int {
    if screen - 4 < most {
        screen - 4
    } else {
        most
    }
}

/// The row of the listing for a secret.
pub fn table_row(s: &Secret, show_values: bool) -> (r: TableRow)
    ensures
        r@ == row_of(*s, show_values),
{
    TableRow {
        service: s.service.clone(),
        key: s.key.clone(),
        kind: s.value.kind().to_owned(),
        preview: if show_values {
            s.value.redacted_preview()
        } else {
            s.value.kind().to_owned()
        },
    }
}

fn line(label: &str, value: String) -> (r: (String, String))
    ensures
        (r.0@, r.1@) == (label@, value@),
{
    (label.to_owned(), value)
}

/// The lines on one secret: labels and texts.
pub fn detail_lines(s: &Secret, show_values: bool) -> (r: Vec<(String, String)>)
    ensures
        types::pair_views(r@) == detail_of(*s, show_values),
{
    let preview = if show_values {
        s.value.redacted_preview()
    } else {
        "[hidden - press v to show]".to_owned()
    };
    let engram = match s.engram_id {
        Some(id) => {
            let mut t = "#".to_owned();
            t.append(text::decimal(id).as_str());
            t
        },
        None => "-".to_owned(),
    };
    let names = s.value.field_names();
    let mut out: Vec<(String, String)> = Vec::new();
    out.push(line("Service: ", s.service.clone()));
    out.push(line("Key:     ", s.key.clone()));
    out.push(line("Type:    ", s.value.kind().to_owned()));
    out.push(line("Fields:  ", text::join(&names, ", ")));
    out.push(line("Preview: ", preview));
    out.push(line("Engram:  ", engram));
    assert(types::pair_views(out@) =~= detail_of(*s, show_values));
    out
}

/// The window on one secret, in the middle of the screen.
pub fn modal_area(width: u16, height: u16) -> (r: Area)
    requires
        width >= 4,
        height >= 4,
    ensures
        r.width == modal_size(60, width as int),
        r.height == modal_size(10, height as int),
        r.x == (width - r.width) / 2,
        r.y == (height - r.height) / 2,
{
    let w: u16 = if width - 4 < 60 {
        width - 4
    } else {
        60
    };
    let h: u16 = if height - 4 < 10 {
        height - 4
    } else {
        10
    };
    Area { x: (width - w) / 2, y: (height - h) / 2, width: w, height: h }
}

impl TuiApp {
    /// The line at the bottom.
    pub fn status_line(&self) -> (r: String)
        ensures
            r@ == status_text(self@),
    {
        match self.mode {
            TuiMode::Adding => {
                let mut out = "[add] ".to_owned();
                out.append(
                    match self.input_field {
                        InputField::Service => "service",
                        InputField::Key => "key",
                        InputField::Value => "value",
                    },
                );
                out.append(": ");
                if matches!(self.input_field, InputField::Value) {
                    let stars = text::pad("", text::size(self.input_buf.as_str()), '*');
                    proof {
                        reveal_strlit("");
                        assert(stars@ =~= text::repeated(
                            '*',
                            text::byte_len(self.input_buf@) as int,
                        ));
                    }
                    out.append(stars.as_str());
                } else {
                    out.append(self.input_buf.as_str());
                }
                out.append("|");
                out
            },
            TuiMode::Filtering => {
                let mut out = "/".to_owned();
                out.append(self.input_buf.as_str());
                out
            },
            _ => self.status_msg.clone(),
        }
    }

    /// The title of the listing.
    pub fn table_title(&self) -> (r: String)
        ensures
            r@ == title_text(self@),
    {
        let mut out = " secrets (".to_owned();
        let all = text::decimal(self.secrets.len() as u64);
        if self.filter.as_str().is_empty() {
            out.append(all.as_str());
            out.append(") ");
        } else {
            let list = self.filtered_secrets();
            assert(list@.unref().len() == list@.len());
            out.append(text::decimal(list.len() as u64).as_str());
            out.append("/");
            out.append(all.as_str());
            out.append(") [");
            out.append(self.filter.as_str());
            out.append("] ");
        }
        out
    }

    /// The rows of the listing.
    pub fn table_rows(&self) -> (r: Vec<TableRow>)
        ensures
            row_views(r@) == rows_of(self@),
    {
        let list = self.filtered_secrets();
        let mut out: Vec<TableRow> = Vec::new();
        let mut i: usize = 0;
        while i < list.len()
            invariant
                i <= list@.len(),
                out@.len() == i,
                forall|j: int|
                    0 <= j < i ==> (#[trigger] out@[j])@ == row_of(*list@[j], self.show_values),
            decreases list@.len() - i,
        {
            out.push(table_row(list[i], self.show_values));
            i += 1;
        }
        proof {
            let want = rows_of(self@);
            assert(list@.unref().len() == list@.len());
            assert forall|j: int| 0 <= j < out@.len() implies row_views(out@)[j] == want[j] by {
                assert(list@.unref()[j] == *list@[j]);
            }
            assert(row_views(out@) =~= want);
        }
        out
    }
}

// ---------------------------------------------------------------------------
// Laws
// ---------------------------------------------------------------------------

/// The selected row, if there is one, is a row of the listing.
pub open spec fn selection_in_range(a: TuiView) -> bool {
    a.selected matches Some(i) ==> i < shown(a.secrets, a.filter).len()
}

/// A form that asks for the key has a proper service, and one that asks for the
/// value has a proper key as well.
pub open spec fn form_in_order(a: TuiView) -> bool {
    a.mode == TuiMode::Adding ==> {
        &&& a.input_field != InputField::Service ==> names::name_problem(a.add_service) is None
        &&& a.input_field == InputField::Value ==> names::name_problem(a.add_key) is None
    }
}

/// An empty filter shows every secret.
pub proof fn law_empty_filter_shows_all(secrets: Seq<Secret>)
    ensures
        shown(secrets, Seq::empty()) == secrets,
    decreases secrets.len(),
{
    let p = |s: Secret| passes(s, Seq::<char>::empty());
    if secrets.len() > 0 {
        law_empty_filter_shows_all(secrets.drop_last());
        assert(secrets =~= secrets.drop_last().push(secrets.last()));
        secrets.drop_last().lemma_filter_push(secrets.last(), p);
        assert(shown(secrets.drop_last(), Seq::empty()) == secrets.drop_last().filter(p));
    } else {
        reveal(Seq::filter);
    }
    assert(shown(secrets, Seq::empty()) =~= secrets);
}

/// In a listing, going down and then up comes back to the same row, and so
/// does going up and then down.
pub proof fn law_down_and_up_undo_each_other(i: usize, n: nat)
    requires
        i < n <= usize::MAX,
    ensures
        row_above(row_below(Some(i), n), n) == Some(i),
        row_below(row_above(Some(i), n), n) == Some(i),
{
    if i + 1 < n {
        vstd::arithmetic::div_mod::lemma_small_mod((i + 1) as nat, n);
    } else {
        vstd::arithmetic::div_mod::lemma_mod_self_0(n as int);
    }
    if i == 0 {
        vstd::arithmetic::div_mod::lemma_mod_self_0(n as int);
    } else {
        vstd::arithmetic::div_mod::lemma_small_mod(i as nat, n);
    }
}

/// No key moves the selection off the listing.
pub proof fn law_keys_keep_the_selection_in_range(a: TuiView, key: TuiKey)
    requires
        selection_in_range(a),
        a.secrets.len() <= usize::MAX,
    ensures
        selection_in_range(key_step(a, key).0),
{
    law_empty_filter_shows_all(a.secrets);
    let n = shown(a.secrets, a.filter).len();
    a.secrets.lemma_filter_len(|s: Secret| passes(s, a.filter));
    if n > 0 {
        match a.selected {
            Some(i) => {
                vstd::arithmetic::div_mod::lemma_mod_bound(i + 1, n as int);
            },
            None => {},
        }
    }
}

/// Nothing is deleted but the selected secret, and that only by answering the
/// question with `y`.
pub proof fn law_only_a_confirmed_deletion_deletes(a: TuiView, key: TuiKey)
    ensures
        key_step(a, key).1 is Delete ==> {
            &&& a.mode == TuiMode::Confirm
            &&& key is Char && key->Char_0 == 'y'
            &&& selection(a) is Some
            &&& key_step(a, key).1 == (TuiActionView::Delete {
                service: selection(a)->0.service@,
                key: selection(a)->0.key@,
            })
        },
        key_step(a, key).0.mode == TuiMode::Confirm && a.mode != TuiMode::Confirm ==> a.mode
            == TuiMode::Normal && key is Char && key->Char_0 == 'd' && selection(a) is Some,
{
}

/// The keys keep a form in order, and what is stored from one has a proper
/// service, a proper key and a value.
pub proof fn law_only_a_full_form_is_stored(a: TuiView, key: TuiKey)
    requires
        form_in_order(a),
    ensures
        form_in_order(key_step(a, key).0),
        key_step(a, key).1 matches TuiActionView::Store { service, key: name, kind, fields } ==> {
            &&& a.mode == TuiMode::Adding && a.input_field == InputField::Value
            &&& names::name_problem(service) is None
            &&& names::name_problem(name) is None
            &&& kind == "api-key"@
            &&& fields == seq![("key"@, a.input_buf)]
            &&& a.input_buf.len() > 0
        },
{
}

/// Leaving a form, by the escape key or by storing it, leaves nothing of it
/// behind.
pub proof fn law_a_form_is_wiped(a: TuiView, result: Result<u64, Seq<char>>)
    requires
        a.mode == TuiMode::Adding,
    ensures
        wiped(key_step(a, TuiKey::Esc).0) == key_step(a, TuiKey::Esc).0,
        key_step(a, TuiKey::Enter).1 is Store ==> {
            let b = after_store(key_step(a, TuiKey::Enter).0, result);
            wiped(b) == b
        },
{
    assert(wiped(key_step(a, TuiKey::Esc).0) =~= key_step(a, TuiKey::Esc).0);
    let b = after_store(key_step(a, TuiKey::Enter).0, result);
    if key_step(a, TuiKey::Enter).1 is Store {
        assert(wiped(b) =~= b);
    }
}

/// Nothing of a value that is being typed shows but its size.
pub proof fn law_a_typed_value_is_masked(a: TuiView, buf: Seq<char>)
    requires
        a.mode == TuiMode::Adding,
        a.input_field == InputField::Value,
        text::byte_len(buf) == text::byte_len(a.input_buf),
    ensures
        status_text(TuiView { input_buf: buf, ..a }) == status_text(a),
{
}

/// While values are hidden, the row and the lines of a secret are the same for
/// any other value of its kind with fields of the same names.
pub proof fn law_hidden_values_do_not_show(a: Secret, b: Secret)
    requires
        a.service@ == b.service@,
        a.key@ == b.key@,
        a.engram_id == b.engram_id,
        types::kind_of(a.value) == types::kind_of(b.value),
        types::names_of(types::fields_of(a.value)) == types::names_of(types::fields_of(b.value)),
    ensures
        row_of(a, false) == row_of(b, false),
        detail_of(a, false) == detail_of(b, false),
{
}

/// A filter lets a secret through exactly if it is empty, or its text, in lower
/// case, stands somewhere in the service or the key in lower case.
pub proof fn law_what_a_filter_lets_through(
    s: Secret,
    filter: Seq<char>,
    a: Seq<char>,
    b: Seq<char>,
)
    ensures
        filter.len() == 0 ==> passes(s, filter),
        text::lowercase(s.service@) == a + text::lowercase(filter) + b ==> passes(s, filter),
        text::lowercase(s.key@) == a + text::lowercase(filter) + b ==> passes(s, filter),
        passes(s, filter) && filter.len() > 0 ==> text::holds(
            text::lowercase(s.service@),
            text::lowercase(filter),
        ) || text::holds(text::lowercase(s.key@), text::lowercase(filter)),
{
    text::law_what_a_text_holds(a, text::lowercase(filter), b);
}

/// Filtering goes secret by secret, and keeps their order: each one is shown
/// exactly if the filter lets it through.
pub proof fn law_filtering_goes_secret_by_secret(
    a: Seq<Secret>,
    b: Seq<Secret>,
    s: Secret,
    filter: Seq<char>,
)
    ensures
        shown(a + b, filter) == shown(a, filter) + shown(b, filter),
        shown(Seq::empty(), filter) == Seq::<Secret>::empty(),
        passes(s, filter) ==> shown(seq![s], filter) == seq![s],
        !passes(s, filter) ==> shown(seq![s], filter) == Seq::<Secret>::empty(),
{
    let p = |s: Secret| passes(s, filter);
    let none = Seq::<Secret>::empty();
    Seq::filter_distributes_over_add(a, b, p);
    assert(none.filter(p) =~= none) by {
        reveal(Seq::filter);
    }
    none.lemma_filter_push(s, p);
    assert(none.push(s) =~= seq![s]);
}

/// What is selected is the secret in the selected row of what is shown.
pub proof fn law_the_selected_row_is_the_selected_secret(a: TuiView)
    ensures
        a.selected is None ==> selection(a) is None,
        a.selected matches Some(i) ==> (selection(a) is Some <==> i < shown(
            a.secrets,
            a.filter,
        ).len()),
        a.selected matches Some(i) ==> (i < shown(a.secrets, a.filter).len() ==> selection(a)
            == Some(shown(a.secrets, a.filter)[i as int])),
{
}

/// In the listing, `j` and the down key select the row below, and the first one
/// after the last; `k` and the up key select the row above, and the last one
/// before the first. Nothing else changes.
pub proof fn law_moving_through_the_listing(a: TuiView, i: usize, held: bool)
    requires
        a.mode == TuiMode::Normal,
        a.selected == Some(i),
        i < shown(a.secrets, a.filter).len() <= usize::MAX,
    ensures
        ({
            let n = shown(a.secrets, a.filter).len();
            let below = TuiView {
                selected: Some(
                    if i + 1 < n {
                        (i + 1) as usize
                    } else {
                        0
                    },
                ),
                ..a
            };
            let above = TuiView {
                selected: Some(
                    if i > 0 {
                        (i - 1) as usize
                    } else {
                        (n - 1) as usize
                    },
                ),
                ..a
            };
            &&& key_step(a, TuiKey::Down) == (below, TuiActionView::Stay)
            &&& key_step(a, TuiKey::Char('j', held)) == (below, TuiActionView::Stay)
            &&& key_step(a, TuiKey::Up) == (above, TuiActionView::Stay)
            &&& key_step(a, TuiKey::Char('k', held)) == (above, TuiActionView::Stay)
        }),
{
    let n = shown(a.secrets, a.filter).len();
    if i + 1 < n {
        vstd::arithmetic::div_mod::lemma_small_mod((i + 1) as nat, n);
    } else {
        vstd::arithmetic::div_mod::lemma_mod_self_0(n as int);
    }
}

/// With no row selected, moving selects the first one, if there is one.
pub proof fn law_moving_starts_at_the_first_row(a: TuiView, key: TuiKey)
    requires
        a.mode == TuiMode::Normal,
        a.selected is None,
        key is Up || key is Down,
    ensures
        key_step(a, key).1 is Stay,
        shown(a.secrets, a.filter).len() == 0 ==> key_step(a, key).0 == a,
        shown(a.secrets, a.filter).len() > 0 ==> key_step(a, key).0 == (TuiView {
            selected: Some(0),
            ..a
        }),
{
}

/// The interface is left from the listing only, by `q`, the escape key, or `c`
/// with the control key, and always by those.
pub proof fn law_how_the_interface_is_left(a: TuiView, key: TuiKey)
    ensures
        key_step(a, key).1 is Quit <==> a.mode == TuiMode::Normal && (key is Esc || (
        key matches TuiKey::Char(c, held) && (c == 'q' || (c == 'c' && held)))),
        key_step(a, key).1 is Refresh <==> a.mode == TuiMode::Normal && (
        key matches TuiKey::Char(c, _) && c == 'r'),
        key_step(a, key).1 is Quit || key_step(a, key).1 is Refresh ==> key_step(a, key).0 == a,
        !(key_step(a, key).1 is Reload),
{
}

/// `v` shows the values if they are hidden, and hides them if they are shown;
/// but for what is said, nothing else changes.
pub proof fn law_values_are_shown_and_hidden_in_turn(a: TuiView, held: bool)
    requires
        a.mode == TuiMode::Normal,
    ensures
        ({
            let (b, action) = key_step(a, TuiKey::Char('v', held));
            &&& action is Stay
            &&& b.show_values == !a.show_values
            &&& b == (TuiView { show_values: b.show_values, status_msg: b.status_msg, ..a })
            &&& key_step(b, TuiKey::Char('v', held)).0.show_values == a.show_values
        }),
{
}

/// From the listing `a` opens an empty form, `/` the filter as it is, `d` the
/// question whether to delete and enter the secret, the last two if one is
/// selected; but for what is typed and said, nothing else changes.
pub proof fn law_what_is_opened_from_the_listing(a: TuiView, held: bool)
    requires
        a.mode == TuiMode::Normal,
    ensures
        ({
            let (b, action) = key_step(a, TuiKey::Char('a', held));
            &&& action is Stay
            &&& b.mode == TuiMode::Adding && b.input_field == InputField::Service
            &&& b.input_buf.len() == 0 && b.add_service.len() == 0 && b.add_key.len() == 0
            &&& same_listing(a, b)
        }),
        ({
            let (b, action) = key_step(a, TuiKey::Char('/', held));
            &&& action is Stay
            &&& b.mode == TuiMode::Filtering && b.input_buf == a.filter
            &&& same_listing(a, b)
        }),
        ({
            let (b, action) = key_step(a, TuiKey::Char('d', held));
            &&& action is Stay
            &&& b.mode == TuiMode::Confirm <==> selection(a) is Some
            &&& selection(a) is None ==> b == a
            &&& same_listing(a, b)
        }),
        ({
            let (b, action) = key_step(a, TuiKey::Enter);
            &&& action is Stay
            &&& b.mode == TuiMode::Detail <==> selection(a) is Some
            &&& selection(a) is None ==> b == a
            &&& same_listing(a, b)
        }),
{
}

/// Two states with the same listing, shown in the same way.
pub open spec fn same_listing(a: TuiView, b: TuiView) -> bool {
    &&& a.secrets == b.secrets
    &&& a.filter == b.filter
    &&& a.selected == b.selected
    &&& a.show_values == b.show_values
}

/// Other keys do nothing in the listing.
pub proof fn law_other_keys_do_nothing(a: TuiView, key: TuiKey)
    requires
        a.mode == TuiMode::Normal,
        key is Backspace || key is Other || (key matches TuiKey::Char(c, held) && c != 'q' && !(c
            == 'c' && held) && c != 'j' && c != 'k' && c != 'a' && c != 'd' && c != 'v' && c != '/'
            && c != 'r'),
    ensures
        key_step(a, key) == (a, TuiActionView::Stay),
{
}

/// In a form and in the filter a character is put behind what is typed, and
/// backspace takes the last one off; nothing else changes, and nothing is done.
pub proof fn law_typing(a: TuiView, c: char, held: bool)
    requires
        a.mode == TuiMode::Adding || a.mode == TuiMode::Filtering,
    ensures
        ({
            let (b, action) = key_step(a, TuiKey::Char(c, held));
            &&& action is Stay
            &&& b == (TuiView { input_buf: a.input_buf.push(c), ..a })
            &&& key_step(b, TuiKey::Backspace) == (a, TuiActionView::Stay)
        }),
        a.input_buf.len() == 0 ==> key_step(a, TuiKey::Backspace) == (a, TuiActionView::Stay),
        key_step(a, TuiKey::Up) == (a, TuiActionView::Stay),
        key_step(a, TuiKey::Down) == (a, TuiActionView::Stay),
        key_step(a, TuiKey::Other) == (a, TuiActionView::Stay),
{
    assert(a.input_buf.push(c).drop_last() =~= a.input_buf);
    assert(key_step(key_step(a, TuiKey::Char(c, held)).0, TuiKey::Backspace).0 =~= a);
}

/// Three parts that were typed and entered one after the other are stored under
/// the first two names, with the third for the key, if the names are proper and
/// the value is not empty.
pub proof fn law_what_was_typed_is_stored(
    a: TuiView,
    service: Seq<char>,
    key: Seq<char>,
    value: Seq<char>,
)
    requires
        a.mode == TuiMode::Adding,
        a.input_field == InputField::Service,
        names::name_problem(service) is None,
        names::name_problem(key) is None,
        value.len() > 0,
    ensures
        ({
            let b = key_step(TuiView { input_buf: service, ..a }, TuiKey::Enter);
            let c = key_step(TuiView { input_buf: key, ..b.0 }, TuiKey::Enter);
            let d = key_step(TuiView { input_buf: value, ..c.0 }, TuiKey::Enter);
            &&& b.1 is Stay && b.0.mode == TuiMode::Adding && b.0.input_field == InputField::Key
            &&& b.0.input_buf.len() == 0 && same_listing(a, b.0)
            &&& c.1 is Stay && c.0.mode == TuiMode::Adding && c.0.input_field == InputField::Value
            &&& c.0.input_buf.len() == 0 && same_listing(a, c.0)
            &&& d.1 == (TuiActionView::Store {
                service,
                key,
                kind: "api-key"@,
                fields: seq![("key"@, value)],
            })
            &&& d.0.input_buf.len() == 0 && same_listing(a, d.0)
        }),
{
}

/// A part that will not do stays as it was typed, and of a name it is said what
/// is wrong, starting with what the name is for.
pub proof fn law_improper_parts_are_not_taken(a: TuiView)
    requires
        a.mode == TuiMode::Adding,
        if a.input_field == InputField::Value {
            a.input_buf.len() == 0
        } else {
            names::name_problem(a.input_buf) is Some
        },
    ensures
        ({
            let (b, action) = key_step(a, TuiKey::Enter);
            &&& action is Stay
            &&& b == (TuiView { status_msg: b.status_msg, ..a })
            &&& a.input_field == InputField::Service ==> text::begins(b.status_msg, "service"@)
            &&& a.input_field == InputField::Key ==> text::begins(b.status_msg, "key"@)
            &&& a.input_field == InputField::Value ==> text::begins(b.status_msg, "value"@)
        }),
{
    if a.input_field == InputField::Service {
        names::law_problems_name_their_label("service"@, names::name_problem(a.input_buf)->0);
    } else if a.input_field == InputField::Key {
        names::law_problems_name_their_label("key"@, names::name_problem(a.input_buf)->0);
    } else {
        reveal_strlit("value cannot be empty");
        reveal_strlit("value");
        assert("value cannot be empty"@.take("value"@.len() as int) =~= "value"@);
    }
}

/// The escape key leaves a form for the listing, as it was before.
pub proof fn law_escape_leaves_a_form(a: TuiView)
    requires
        a.mode == TuiMode::Adding,
    ensures
        key_step(a, TuiKey::Esc).1 is Stay,
        key_step(a, TuiKey::Esc).0.mode == TuiMode::Normal,
        same_listing(a, key_step(a, TuiKey::Esc).0),
{
}

/// Entering a filter takes over what was typed, and selects the first secret
/// that it shows, if any; the escape key does away with the filter, and selects
/// the first secret. The secrets stay, and the listing is shown again.
pub proof fn law_filters_are_taken_over_and_done_away_with(a: TuiView)
    requires
        a.mode == TuiMode::Filtering,
    ensures
        ({
            let (b, action) = key_step(a, TuiKey::Enter);
            &&& action is Stay
            &&& b.mode == TuiMode::Normal && b.filter == a.input_buf && b.secrets == a.secrets
            &&& b.show_values == a.show_values
            &&& shown(b.secrets, b.filter).len() == 0 ==> b.selected is None
            &&& shown(b.secrets, b.filter).len() > 0 ==> b.selected == Some(0usize)
        }),
        ({
            let (b, action) = key_step(a, TuiKey::Esc);
            &&& action is Stay
            &&& b.mode == TuiMode::Normal && b.filter.len() == 0 && b.secrets == a.secrets
            &&& b.show_values == a.show_values
            &&& b.secrets.len() == 0 ==> b.selected is None
            &&& b.secrets.len() > 0 ==> b.selected == Some(0usize)
        }),
{
}

/// A deletion is asked for by `y`, for the selected secret; any other key calls
/// it off, and changes nothing of the listing.
pub proof fn law_deletions_are_confirmed_or_called_off(a: TuiView, key: TuiKey)
    requires
        a.mode == TuiMode::Confirm,
    ensures
        same_listing(a, key_step(a, key).0),
        (key matches TuiKey::Char(c, _) && c == 'y') && selection(a) is Some ==> key_step(a, key).1
            == (TuiActionView::Delete {
            service: (selection(a)->0).service@,
            key: (selection(a)->0).key@,
        }),
        !(key matches TuiKey::Char(c, _) && c == 'y') || selection(a) is None ==> key_step(
            a,
            key,
        ).1 is Stay && key_step(a, key).0.mode == TuiMode::Normal,
{
}

/// A secret that is shown is left by the escape key, enter or `q`; other keys
/// do nothing.
pub proof fn law_how_a_shown_secret_is_left(a: TuiView, key: TuiKey)
    requires
        a.mode == TuiMode::Detail,
    ensures
        key_step(a, key).1 is Stay,
        ({
            let leaves = key is Esc || key is Enter || (key matches TuiKey::Char(c, _) && c == 'q');
            &&& leaves ==> key_step(a, key).0 == (TuiView { mode: TuiMode::Normal, ..a })
            &&& !leaves ==> key_step(a, key).0 == a
        }),
{
}

/// The secrets that were read take the place of those that were there, and the
/// selected row stays, or is the first one if none was; nothing is selected if
/// there are none. An error is said, and changes nothing else.
pub proof fn law_a_listing_is_taken_over(a: TuiView, secrets: Seq<Secret>, e: Seq<char>)
    ensures
        ({
            let b = with_listing(a, Ok(secrets));
            &&& b == (TuiView { secrets, selected: b.selected, ..a })
            &&& b.selected is None <==> secrets.len() == 0
            &&& a.selected is Some && secrets.len() > 0 ==> b.selected == a.selected
            &&& a.selected is None && secrets.len() > 0 ==> b.selected == Some(0usize)
        }),
        ({
            let b = with_listing(a, Err(e));
            &&& b == (TuiView { status_msg: b.status_msg, ..a })
            &&& b.status_msg == "error: "@ + e
        }),
{
}

/// After a store or a deletion the listing is shown again, and it is said which
/// secret it was, or what went wrong; the listing itself is as it was.
pub proof fn law_what_is_said_of_stores_and_deletions(
    a: TuiView,
    id: u64,
    service: Seq<char>,
    key: Seq<char>,
    e: Seq<char>,
)
    ensures
        after_store(a, Ok(id)).mode == TuiMode::Normal,
        same_listing(a, after_store(a, Ok(id))),
        text::begins(
            after_store(a, Ok(id)).status_msg,
            "stored "@ + a.add_service + "/"@ + a.add_key + " (id="@ + text::digits(id as nat),
        ),
        after_store(a, Err(e)).mode == TuiMode::Normal,
        same_listing(a, after_store(a, Err(e))),
        after_store(a, Err(e)).status_msg == "error: "@ + e,
        after_delete(a, service, key, Ok(())).mode == TuiMode::Normal,
        same_listing(a, after_delete(a, service, key, Ok(()))),
        after_delete(a, service, key, Ok(())).status_msg == "deleted "@ + service + "/"@ + key,
        after_delete(a, service, key, Err(e)).mode == TuiMode::Normal,
        same_listing(a, after_delete(a, service, key, Err(e))),
        after_delete(a, service, key, Err(e)).status_msg == "error: "@ + e,
{
    let head = "stored "@ + a.add_service + "/"@ + a.add_key + " (id="@ + text::digits(id as nat);
    let msg = after_store(a, Ok(id)).status_msg;
    assert(msg.take(head.len() as int) =~= head);
}

/// The line at the bottom shows a name or a filter as it is typed, a value as
/// stars, and else what was last said.
pub proof fn law_what_the_bottom_line_shows(a: TuiView)
    ensures
        a.mode == TuiMode::Filtering ==> status_text(a) == "/"@ + a.input_buf,
        a.mode == TuiMode::Normal || a.mode == TuiMode::Confirm || a.mode == TuiMode::Detail
            ==> status_text(a) == a.status_msg,
        a.mode == TuiMode::Adding && a.input_field == InputField::Service ==> text::holds(
            status_text(a),
            "service: "@ + a.input_buf,
        ),
        a.mode == TuiMode::Adding && a.input_field == InputField::Key ==> text::holds(
            status_text(a),
            "key: "@ + a.input_buf,
        ),
        a.mode == TuiMode::Adding && a.input_field == InputField::Value ==> text::holds(
            status_text(a),
            "value: "@ + Seq::new(text::byte_len(a.input_buf), |i: int| '*'),
        ),
{
    assert("service: "@ =~= "service"@ + ": "@) by {
        reveal_strlit("service: ");
        reveal_strlit("service");
        reveal_strlit(": ");
    }
    assert("key: "@ =~= "key"@ + ": "@) by {
        reveal_strlit("key: ");
        reveal_strlit("key");
        reveal_strlit(": ");
    }
    assert("value: "@ =~= "value"@ + ": "@) by {
        reveal_strlit("value: ");
        reveal_strlit("value");
        reveal_strlit(": ");
    }
    if a.mode == TuiMode::Adding {
        let stars = Seq::new(text::byte_len(a.input_buf), |i: int| '*');
        assert(text::repeated('*', text::byte_len(a.input_buf) as int) =~= stars);
        let shown_text = if a.input_field == InputField::Value {
            stars
        } else {
            a.input_buf
        };
        let part = field_label(a.input_field) + ": "@ + shown_text;
        assert(status_text(a) =~= "[add] "@ + part + "|"@);
        text::law_what_a_text_holds("[add] "@, part, "|"@);
    }
}

/// The title tells how many secrets there are, and under a filter how many of
/// them it shows, and the filter.
pub proof fn law_what_the_title_tells(a: TuiView)
    ensures
        a.filter.len() == 0 ==> text::holds(
            title_text(a),
            "("@ + text::digits(a.secrets.len()) + ")"@,
        ),
        a.filter.len() > 0 ==> text::holds(
            title_text(a),
            "("@ + text::digits(shown(a.secrets, a.filter).len()) + "/"@ + text::digits(
                a.secrets.len(),
            ) + ") ["@ + a.filter + "]"@,
        ),
{
    assert(" secrets ("@ =~= " secrets ("@.drop_last() + "("@) by {
        reveal_strlit(" secrets (");
        reveal_strlit("(");
    }
    assert(") "@ =~= ")"@ + " "@) by {
        reveal_strlit(") ");
        reveal_strlit(")");
        reveal_strlit(" ");
    }
    assert("] "@ =~= "]"@ + " "@) by {
        reveal_strlit("] ");
        reveal_strlit("]");
        reveal_strlit(" ");
    }
    let h = " secrets ("@.drop_last();
    let all = text::digits(a.secrets.len());
    if a.filter.len() == 0 {
        let part = "("@ + all + ")"@;
        assert(title_text(a) =~= h + part + " "@);
        text::law_what_a_text_holds(h, part, " "@);
    } else {
        let part = "("@ + text::digits(shown(a.secrets, a.filter).len()) + "/"@ + all + ") ["@
            + a.filter + "]"@;
        assert(title_text(a) =~= h + part + " "@);
        text::law_what_a_text_holds(h, part, " "@);
    }
}

/// Each row is that of the secret in its place: its service, its key and its
/// kind, and its preview if values are shown, else its kind once more.
pub proof fn law_rows_are_those_of_the_shown_secrets(a: TuiView, i: int)
    ensures
        rows_of(a).len() == shown(a.secrets, a.filter).len(),
        0 <= i < rows_of(a).len() ==> {
            let s = shown(a.secrets, a.filter)[i];
            let r = rows_of(a)[i];
            &&& r.service == s.service@
            &&& r.key == s.key@
            &&& r.kind == types::kind_of(s.value)
            &&& a.show_values ==> r.preview == types::preview_of(s.value)
            &&& !a.show_values ==> r.preview == types::kind_of(s.value)
        },
{
}

/// The lines on a secret tell its service, key, kind, the names of its fields
/// and its number, and its preview only if values are shown.
pub proof fn law_what_is_told_of_one_secret(s: Secret, show_values: bool, i: int)
    ensures
        detail_of(s, show_values).contains(("Service: "@, s.service@)),
        detail_of(s, show_values).contains(("Key:     "@, s.key@)),
        detail_of(s, show_values).contains(("Type:    "@, types::kind_of(s.value))),
        detail_of(s, true).contains(("Preview: "@, types::preview_of(s.value))),
        detail_of(s, false).contains(("Preview: "@, "[hidden - press v to show]"@)),
        s.engram_id matches Some(id) ==> detail_of(s, show_values).contains(
            ("Engram:  "@, "#"@ + text::digits(id as nat)),
        ),
        s.engram_id is None ==> detail_of(s, show_values).contains(("Engram:  "@, "-"@)),
        detail_of(s, show_values).len() == 6,
        0 <= i < types::fields_of(s.value).len() ==> text::holds(
            detail_of(s, show_values)[3].1,
            types::fields_of(s.value)[i].0,
        ),
{
    let d = detail_of(s, show_values);
    assert(d[0] == ("Service: "@, s.service@));
    assert(d[1] == ("Key:     "@, s.key@));
    assert(d[2] == ("Type:    "@, types::kind_of(s.value)));
    assert(detail_of(s, true)[4] == ("Preview: "@, types::preview_of(s.value)));
    assert(detail_of(s, false)[4] == ("Preview: "@, "[hidden - press v to show]"@));
    assert(d[5].0 == "Engram:  "@);
    if s.engram_id is Some {
        assert(d[5] == ("Engram:  "@, "#"@ + text::digits(s.engram_id->0 as nat)));
    } else {
        assert(d[5] == ("Engram:  "@, "-"@));
    }
    if 0 <= i < types::fields_of(s.value).len() {
        let names = types::names_of(types::fields_of(s.value));
        text::law_joining_keeps_every_part(names, ", "@, i);
        assert(names[i] == types::fields_of(s.value)[i].0);
    }
}

/// The window on a secret leaves two cells free at each end, is no larger than
/// it may be, and as large as both allow.
pub proof fn law_the_window_fits_the_screen(most: int, screen: int)
    ensures
        modal_size(most, screen) <= screen - 4,
        modal_size(most, screen) <= most,
        modal_size(most, screen) == most || modal_size(most, screen) == screen - 4,
{
}

} // verus!
