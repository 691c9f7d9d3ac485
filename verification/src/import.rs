//! Importing secrets in bulk, one line each.

use crate::names;
use crate::text;
use crate::types;
use crate::types::{Secret, SecretValue};
use vstd::prelude::*;

verus! {

/// How many bytes of a malformed line are shown.
pub const SHOWN_BYTES: usize = 40;

/// What a line of the import says.
pub enum ImportLine {
    /// Nothing: it is blank or a comment.
    Nothing,
    /// It does not have three fields: how many it has, and its beginning, which
    /// is `None` where it would end inside a character.
    Malformed(usize, Option<String>),
    /// One of its three fields is empty.
    EmptyField,
    /// A service, a key and a value.
    Entry(String, String, String),
}

/// A line of the import as contracts see it.
#[verifier::ext_equal]
pub enum ImportLineView {
    Nothing,
    Malformed(nat, Option<Seq<char>>),
    EmptyField,
    Entry(Seq<char>, Seq<char>, Seq<char>),
}

impl View for ImportLine {
    type V = ImportLineView;

    open spec fn view(&self) -> ImportLineView {
        match self {
            ImportLine::Nothing => ImportLineView::Nothing,
            ImportLine::Malformed(n, head) => ImportLineView::Malformed(
                *n as nat,
                text::text_option(*head),
            ),
            ImportLine::EmptyField => ImportLineView::EmptyField,
            ImportLine::Entry(s, k, v) => ImportLineView::Entry(s@, k@, v@),
        }
    }
}

/// The beginning of a line that is shown.
pub open spec fn shown_head(line: Seq<char>) -> Option<Seq<char>> {
    text::first_bytes(
        line,
        if text::byte_len(line) < SHOWN_BYTES {
            text::byte_len(line) as int
        } else {
            SHOWN_BYTES as int
        },
    )
}

/// What a line says. White space at its ends does not count, nor that at the
/// ends of its fields; a line that starts with `#` is a comment; the fields
/// stand between tabs, and the value may hold tabs itself.
pub open spec fn import_line(line: Seq<char>) -> ImportLineView {
    let l = text::trimmed(line);
    let parts = text::split(l, '\t', 3);
    if l.len() == 0 || l[0] == '#' {
        ImportLineView::Nothing
    } else if parts.len() != 3 {
        ImportLineView::Malformed(parts.len(), shown_head(l))
    } else {
        let service = text::trimmed(parts[0]);
        let key = text::trimmed(parts[1]);
        let value = text::trimmed(parts[2]);
        if service.len() == 0 || key.len() == 0 || value.len() == 0 {
            ImportLineView::EmptyField
        } else {
            ImportLineView::Entry(service, key, value)
        }
    }
}

/// Reads a line of the import.
pub fn parse_import_line(line: &str) -> (r: ImportLine)
    ensures
        r@ == import_line(line@),
{
    let l = text::trim(line);
    let v = text::chars_of(l.as_str());
    if v.len() == 0 || v[0] == '#' {
        return ImportLine::Nothing;
    }
    let parts = text::split_limited(l.as_str(), '\t', 3);
    let ghost views = text::split(l@, '\t', 3);
    assert(views.len() == parts@.len());
    if parts.len() != 3 {
        let size: usize = text::size(l.as_str());
        let n: usize = if size < SHOWN_BYTES {
            size
        } else {
            SHOWN_BYTES
        };
        return ImportLine::Malformed(parts.len(), text::byte_prefix(l.as_str(), n));
    }
    assert(views[0] == parts@[0]@ && views[1] == parts@[1]@ && views[2] == parts@[2]@);
    let service = text::trim(parts[0].as_str());
    let key = text::trim(parts[1].as_str());
    let value = text::trim(parts[2].as_str());
    if service.as_str().is_empty() || key.as_str().is_empty() || value.as_str().is_empty() {
        ImportLine::EmptyField
    } else {
        ImportLine::Entry(service, key, value)
    }
}

// ---------------------------------------------------------------------------
// A run
// ---------------------------------------------------------------------------

/// An import that is under way.
pub struct ImportRun {
    dry_run: bool,
    lines: u64,
    imported: u64,
    skipped: u64,
    errors: u64,
}

/// An import that is under way, as contracts see it.
pub struct ImportView {
    /// Whether nothing is to be stored.
    pub dry_run: bool,
    /// Lines that were read.
    pub lines: nat,
    /// Secrets that were stored, or would have been.
    pub imported: nat,
    /// Lines that were not understood, or whose names are not proper.
    pub skipped: nat,
    /// Secrets that could not be stored.
    pub errors: nat,
}

impl View for ImportRun {
    type V = ImportView;

    closed spec fn view(&self) -> ImportView {
        ImportView {
            dry_run: self.dry_run,
            lines: self.lines as nat,
            imported: self.imported as nat,
            skipped: self.skipped as nat,
            errors: self.errors as nat,
        }
    }
}

/// What a line leads to.
pub enum ImportStep {
    /// Nothing.
    Nothing,
    /// Something is said.
    Say(String),
    /// The line is malformed, and what would be said of it cuts a character.
    Unspeakable,
    /// A secret is to be stored.
    Store(Secret),
}

/// What a line leads to, as contracts see it.
#[verifier::ext_equal]
pub enum ImportStepView {
    Nothing,
    Say(Seq<char>),
    Unspeakable,
    Store { service: Seq<char>, key: Seq<char>, kind: Seq<char>, fields: Seq<(Seq<char>, Seq<char>)> },
}

impl View for ImportStep {
    type V = ImportStepView;

    open spec fn view(&self) -> ImportStepView {
        match self {
            ImportStep::Nothing => ImportStepView::Nothing,
            ImportStep::Say(msg) => ImportStepView::Say(msg@),
            ImportStep::Unspeakable => ImportStepView::Unspeakable,
            ImportStep::Store(s) => ImportStepView::Store {
                service: s.service@,
                key: s.key@,
                kind: types::kind_of(s.value),
                fields: types::fields_of(s.value),
            },
        }
    }
}

/// What is wrong with the names in a line, if anything is: the service is
/// looked at first.
pub open spec fn names_problem(service: Seq<char>, key: Seq<char>) -> Option<Seq<char>> {
    if names::name_problem(service) is Some {
        Some(names::problem_text("service"@, names::name_problem(service)->0))
    } else if names::name_problem(key) is Some {
        Some(names::problem_text("key"@, names::name_problem(key)->0))
    } else {
        None
    }
}

/// Finds what is wrong with the names in a line.
fn check_names(service: &str, key: &str) -> (r: Option<String>)
    ensures
        text::text_option(r) == names_problem(service@, key@),
{
    match names::validate_name(service, "service") {
        Err(msg) => {
            return Some(msg);
        },
        Ok(_) => {},
    }
    match names::validate_name(key, "key") {
        Err(msg) => Some(msg),
        Ok(_) => None,
    }
}

/// What the line with a number leads to. Only proper names are imported.
pub open spec fn line_step(dry_run: bool, number: nat, line: Seq<char>) -> ImportStepView {
    match import_line(line) {
        ImportLineView::Nothing => ImportStepView::Nothing,
        ImportLineView::Malformed(n, Some(head)) => ImportStepView::Say(
            "  line "@ + text::digits(number)
                + ": skipping (expected 3 tab-separated fields, got "@ + text::digits(n) + "): "@
                + head,
        ),
        ImportLineView::Malformed(_, None) => ImportStepView::Unspeakable,
        ImportLineView::EmptyField => ImportStepView::Say(
            "  line "@ + text::digits(number) + ": skipping (empty field)"@,
        ),
        ImportLineView::Entry(service, key, value) => if names_problem(service, key) is Some {
            ImportStepView::Say(
                "  line "@ + text::digits(number) + ": skipping ("@ + names_problem(
                    service,
                    key,
                )->0 + ")"@,
            )
        } else if dry_run {
            ImportStepView::Say(
                "  [dry run] would store: "@ + service + "/"@ + key + " ("@ + text::digits(
                    text::byte_len(value),
                ) + " chars)"@,
            )
        } else {
            ImportStepView::Store {
                service,
                key,
                kind: "api-key"@,
                fields: seq![("key"@, value)],
            }
        },
    }
}

/// The counts after a line was read. A secret that is stored is counted once
/// it is.
pub open spec fn counted(v: ImportView, line: Seq<char>) -> ImportView {
    let w = ImportView { lines: v.lines + 1, ..v };
    match import_line(line) {
        ImportLineView::Nothing => w,
        ImportLineView::Malformed(_, _) | ImportLineView::EmptyField => ImportView {
            skipped: v.skipped + 1,
            ..w
        },
        ImportLineView::Entry(service, key, _) => if names_problem(service, key) is Some {
            ImportView { skipped: v.skipped + 1, ..w }
        } else if v.dry_run {
            ImportView { imported: v.imported + 1, ..w }
        } else {
            w
        },
    }
}

/// The counts after a secret was stored, or could not be.
pub open spec fn counted_store(v: ImportView, ok: bool) -> ImportView {
    if ok {
        ImportView { imported: v.imported + 1, ..v }
    } else {
        ImportView { errors: v.errors + 1, ..v }
    }
}

/// The counts can still go up.
pub open spec fn has_room(v: ImportView) -> bool {
    v.lines < u64::MAX && v.imported < u64::MAX && v.skipped < u64::MAX && v.errors < u64::MAX
}

/// What is said of a secret that was stored, or could not be.
pub open spec fn store_text(
    service: Seq<char>,
    key: Seq<char>,
    result: Result<u64, Seq<char>>,
) -> Seq<char> {
    match result {
        Ok(id) => "  stored: "@ + service + "/"@ + key + " (engram_id="@ + text::digits(id as nat)
            + ")"@,
        Err(e) => "  ERROR storing "@ + service + "/"@ + key + ": "@ + e,
    }
}

/// What is said at the end.
pub open spec fn summary_text(v: ImportView) -> Seq<char> {
    if v.dry_run {
        "dry run complete: "@ + text::digits(v.imported) + " would be imported, "@ + text::digits(
            v.skipped,
        ) + " skipped"@
    } else {
        "import complete: "@ + text::digits(v.imported) + " stored, "@ + text::digits(v.skipped)
            + " skipped, "@ + text::digits(v.errors) + " errors"@
    }
}

impl ImportRun {
    /// Starts an import.
    pub fn start(dry_run: bool) -> (r: ImportRun)
        ensures
            r@ == (ImportView { dry_run, lines: 0, imported: 0, skipped: 0, errors: 0 }),
    {
        ImportRun { dry_run, lines: 0, imported: 0, skipped: 0, errors: 0 }
    }

    /// Whether another line can be counted.
    pub fn can_count(&self) -> (r: bool)
        ensures
            r == has_room(self@),
    {
        self.lines < u64::MAX && self.imported < u64::MAX && self.skipped < u64::MAX && self.errors
            < u64::MAX
    }

    /// Takes a line, and says what it leads to.
    pub fn line(&mut self, line: &str) -> (r: ImportStep)
        requires
            has_room(old(self)@),
        ensures
            r@ == line_step(old(self)@.dry_run, old(self)@.lines + 1, line@),
            r matches ImportStep::Store(s) ==> s.engram_id is None && s.created_at is None,
            final(self)@ == counted(old(self)@, line@),
    {
        self.lines = self.lines + 1;
        match parse_import_line(line) {
            ImportLine::Nothing => ImportStep::Nothing,
            ImportLine::Malformed(n, head) => {
                self.skipped = self.skipped + 1;
                match head {
                    Some(h) => {
                        let mut msg = "  line ".to_owned();
                        msg.append(text::decimal(self.lines).as_str());
                        msg.append(": skipping (expected 3 tab-separated fields, got ");
                        msg.append(text::decimal(n as u64).as_str());
                        msg.append("): ");
                        msg.append(h.as_str());
                        ImportStep::Say(msg)
                    },
                    None => ImportStep::Unspeakable,
                }
            },
            ImportLine::EmptyField => {
                self.skipped = self.skipped + 1;
                ImportStep::Say(
                    text::concat3(
                        "  line ",
                        text::decimal(self.lines).as_str(),
                        ": skipping (empty field)",
                    ),
                )
            },
            ImportLine::Entry(service, key, value) => {
                match check_names(service.as_str(), key.as_str()) {
                    Some(problem) => {
                        self.skipped = self.skipped + 1;
                        let mut msg = "  line ".to_owned();
                        msg.append(text::decimal(self.lines).as_str());
                        msg.append(": skipping (");
                        msg.append(problem.as_str());
                        msg.append(")");
                        return ImportStep::Say(msg);
                    },
                    None => {},
                }
                if self.dry_run {
                    self.imported = self.imported + 1;
                    let mut msg = "  [dry run] would store: ".to_owned();
                    msg.append(service.as_str());
                    msg.append("/");
                    msg.append(key.as_str());
                    msg.append(" (");
                    msg.append(text::decimal(text::size(value.as_str()) as u64).as_str());
                    msg.append(" chars)");
                    ImportStep::Say(msg)
                } else {
                    let ghost text = value@;
                    let value = SecretValue::ApiKey { key: value, url: None, notes: None };
                    assert(types::fields_of(value) =~= seq![("key"@, text)]);
                    ImportStep::Store(Secret::new(service.as_str(), key.as_str(), value))
                }
            },
        }
    }

    /// Takes over what storing a secret gave, and says it.
    pub fn stored(&mut self, service: &str, key: &str, result: &Result<u64, String>) -> (r: String)
        requires
            has_room(old(self)@),
        ensures
            r@ == store_text(
                service@,
                key@,
                match *result {
                    Ok(id) => Ok(id),
                    Err(e) => Err(e@),
                },
            ),
            final(self)@ == counted_store(old(self)@, *result is Ok),
    {
        match result {
            Ok(id) => {
                self.imported = self.imported + 1;
                let mut msg = "  stored: ".to_owned();
                msg.append(service);
                msg.append("/");
                msg.append(key);
                msg.append(" (engram_id=");
                msg.append(text::decimal(*id).as_str());
                msg.append(")");
                msg
            },
            Err(e) => {
                self.errors = self.errors + 1;
                let mut msg = "  ERROR storing ".to_owned();
                msg.append(service);
                msg.append("/");
                msg.append(key);
                msg.append(": ");
                msg.append(e.as_str());
                msg
            },
        }
    }

    /// What is said at the end.
    pub fn summary(&self) -> (r: String)
        ensures
            r@ == summary_text(self@),
    {
        let mut msg = String::new();
        if self.dry_run {
            msg.append("dry run complete: ");
            msg.append(text::decimal(self.imported).as_str());
            msg.append(" would be imported, ");
            msg.append(text::decimal(self.skipped).as_str());
            msg.append(" skipped");
        } else {
            msg.append("import complete: ");
            msg.append(text::decimal(self.imported).as_str());
            msg.append(" stored, ");
            msg.append(text::decimal(self.skipped).as_str());
            msg.append(" skipped, ");
            msg.append(text::decimal(self.errors).as_str());
            msg.append(" errors");
        }
        assert(msg@ =~= summary_text(self@));
        msg
    }
}

// ---------------------------------------------------------------------------
// Laws
// ---------------------------------------------------------------------------

/// A dry run stores nothing.
pub proof fn law_dry_run_stores_nothing(number: nat, line: Seq<char>)
    ensures
        !(line_step(true, number, line) is Store),
{
}

/// A dry run understands a line as the real import does: it counts a secret
/// exactly where the real import stores one, and skips the same lines.
pub proof fn law_dry_run_foretells_the_import(v: ImportView, line: Seq<char>)
    ensures
        line_step(false, v.lines + 1, line) is Store <==> counted(
            ImportView { dry_run: true, ..v },
            line,
        ).imported == v.imported + 1,
        counted(ImportView { dry_run: true, ..v }, line).skipped == counted(
            ImportView { dry_run: false, ..v },
            line,
        ).skipped,
{
}

/// Every line that says something is counted once: as imported, skipped, or an
/// error.
pub proof fn law_every_line_is_counted_once(v: ImportView, line: Seq<char>, ok: bool)
    ensures
        ({
            let a = counted(v, line);
            let b = if line_step(v.dry_run, v.lines + 1, line) is Store {
                counted_store(a, ok)
            } else {
                a
            };
            b.imported + b.skipped + b.errors == v.imported + v.skipped + v.errors + if import_line(
                line,
            ) is Nothing {
                0int
            } else {
                1
            }
        }),
{
}

/// What is imported has a service, a key and a value.
pub proof fn law_imported_entries_are_filled(line: Seq<char>)
    ensures
        import_line(line) matches ImportLineView::Entry(service, key, value) ==> service.len() > 0
            && key.len() > 0 && value.len() > 0,
{
}

/// Whatever stands in a line, what is stored has proper names.
pub proof fn law_imported_names_are_proper(dry_run: bool, number: nat, line: Seq<char>)
    ensures
        line_step(dry_run, number, line) matches ImportStepView::Store { service, key, .. }
            ==> names::name_problem(service) is None && names::name_problem(key) is None,
{
}

/// A line written as service, tab, key, tab, value is read as just that, where
/// service and key have the characters of names, and the value has no white
/// space at its ends; and it is stored if the names are proper.
pub proof fn law_a_written_line_is_read(
    number: nat,
    service: Seq<char>,
    key: Seq<char>,
    value: Seq<char>,
)
    requires
        service.len() > 0 && names::name_chars(service),
        key.len() > 0 && names::name_chars(key),
        value.len() > 0 && !text::white(value.first()) && !text::white(value.last()),
    ensures
        import_line(service + "\t"@ + key + "\t"@ + value) == ImportLineView::Entry(
            service,
            key,
            value,
        ),
        names::name_problem(service) is None && names::name_problem(key) is None ==> line_step(
            false,
            number,
            service + "\t"@ + key + "\t"@ + value,
        ) == (ImportStepView::Store {
            service,
            key,
            kind: "api-key"@,
            fields: seq![("key"@, value)],
        }),
{
    reveal_strlit("\t");
    let line = service + "\t"@ + key + "\t"@ + value;
    let rest = key.push('\t') + value;
    assert(names::name_char(service.first()) && names::name_char(service.last()));
    assert(names::name_char(key.first()) && names::name_char(key.last()));
    assert(line.first() == service.first());
    assert(line.last() == value.last());
    text::lemma_trimmed_ends(line);
    text::lemma_trimmed_ends(service);
    text::lemma_trimmed_ends(key);
    text::lemma_trimmed_ends(value);
    assert(line =~= service.push('\t') + rest);
    if service.contains('\t') {
        let i = choose|i: int| 0 <= i < service.len() && service[i] == '\t';
        assert(names::name_char(service[i]));
    }
    if key.contains('\t') {
        let i = choose|i: int| 0 <= i < key.len() && key[i] == '\t';
        assert(names::name_char(key[i]));
    }
    text::lemma_split_cuts(service, '\t', rest, 3);
    text::lemma_split_cuts(key, '\t', value, 2);
    assert(text::split(value, '\t', 1) =~= seq![value]);
    assert(text::split(line, '\t', 3) =~= seq![service, key, value]);
}

/// A line whose first character that is not white is `#` says nothing,
/// whatever follows: it leads to nothing, and only the number of lines goes up.
pub proof fn law_comments_say_nothing(
    v: ImportView,
    dry_run: bool,
    number: nat,
    line: Seq<char>,
    k: int,
)
    requires
        0 <= k < line.len(),
        line[k] == '#',
        forall|i: int| 0 <= i < k ==> text::white(#[trigger] line[i]),
    ensures
        import_line(line) == ImportLineView::Nothing,
        line_step(dry_run, number, line) == ImportStepView::Nothing,
        counted(v, line).lines == v.lines + 1,
        counted(v, line).imported == v.imported,
        counted(v, line).skipped == v.skipped,
        counted(v, line).errors == v.errors,
        counted(v, line).dry_run == v.dry_run,
{
    let (x, y) = text::law_trimming_takes_the_white_ends(line);
    assert(!text::white('#'));
    assert(x <= k);
    assert(k < y);
    assert(text::trimmed(line).first() == line[x]);
    assert(x == k);
}

/// A line of white space says nothing either.
pub proof fn law_blank_lines_say_nothing(
    v: ImportView,
    dry_run: bool,
    number: nat,
    line: Seq<char>,
)
    requires
        forall|i: int| 0 <= i < line.len() ==> text::white(#[trigger] line[i]),
    ensures
        import_line(line) == ImportLineView::Nothing,
        line_step(dry_run, number, line) == ImportStepView::Nothing,
        counted(v, line).lines == v.lines + 1,
        counted(v, line).imported == v.imported,
        counted(v, line).skipped == v.skipped,
        counted(v, line).errors == v.errors,
        counted(v, line).dry_run == v.dry_run,
{
    let (x, y) = text::law_trimming_takes_the_white_ends(line);
    if x < y {
        assert(text::trimmed(line).first() == line[x]);
    }
}

/// Only comments and blank lines say nothing.
pub proof fn law_other_lines_say_something(line: Seq<char>, k: int)
    requires
        0 <= k < line.len(),
        line[k] != '#',
        !text::white(line[k]),
        forall|i: int| 0 <= i < k ==> text::white(#[trigger] line[i]),
    ensures
        import_line(line) != ImportLineView::Nothing,
        forall|dry_run: bool, number: nat| #[trigger]
            line_step(dry_run, number, line) != ImportStepView::Nothing,
{
    let (x, y) = text::law_trimming_takes_the_white_ends(line);
    assert(x <= k);
    assert(k < y);
    assert(text::trimmed(line).first() == line[x]);
}

/// What stands before the first tab is the service, what stands up to the
/// second is the key, and all the rest is the value, each without white space
/// at its ends; and if one of the three is blank the line is skipped.
pub proof fn law_fields_stand_between_the_tabs(
    line: Seq<char>,
    a: Seq<char>,
    b: Seq<char>,
    c: Seq<char>,
)
    requires
        text::trimmed(line) == a + seq!['\t'] + b + seq!['\t'] + c,
        !a.contains('\t') && !b.contains('\t'),
        text::trimmed(line)[0] != '#',
    ensures
        text::trimmed(a).len() > 0 && text::trimmed(b).len() > 0 && text::trimmed(c).len() > 0
            ==> import_line(line) == ImportLineView::Entry(
            text::trimmed(a),
            text::trimmed(b),
            text::trimmed(c),
        ),
        text::trimmed(a).len() == 0 || text::trimmed(b).len() == 0 || text::trimmed(c).len() == 0
            ==> import_line(line) == ImportLineView::EmptyField,
{
    let l = text::trimmed(line);
    let rest = b.push('\t') + c;
    assert(l =~= a.push('\t') + rest);
    text::lemma_split_cuts(a, '\t', rest, 3);
    text::lemma_split_cuts(b, '\t', c, 2);
    assert(text::split(c, '\t', 1) =~= seq![c]);
    assert(text::split(l, '\t', 3) =~= seq![a, b, c]);
}

/// A line with no tab or only one is malformed: its fields are counted, and its
/// beginning is shown, without the white space before it.
pub proof fn law_lines_with_too_few_tabs_are_malformed(line: Seq<char>, a: Seq<char>, b: Seq<char>)
    requires
        !a.contains('\t') && !b.contains('\t'),
        text::trimmed(line).len() > 0 && text::trimmed(line)[0] != '#',
    ensures
        text::trimmed(line) == a ==> import_line(line) == ImportLineView::Malformed(
            1,
            shown_head(a),
        ),
        text::trimmed(line) == a + seq!['\t'] + b ==> import_line(line)
            == ImportLineView::Malformed(2, shown_head(a + seq!['\t'] + b)),
{
    let l = text::trimmed(line);
    if l == a {
        text::law_splitting_cuts_at_the_first_separators(l, '\t', 3);
        text::lemma_first_index(l, '\t');
        assert(text::split(l, '\t', 3) =~= seq![l]);
    }
    if l == a + seq!['\t'] + b {
        assert(l =~= a.push('\t') + b);
        text::lemma_split_cuts(a, '\t', b, 3);
        text::lemma_first_index(b, '\t');
        assert(text::split(b, '\t', 2) =~= seq![b]);
        assert(text::split(l, '\t', 3) =~= seq![a, b]);
    }
}

/// What an entry leads to: with proper names it is stored as an API key that
/// has the value for its key, or a dry run says that it would be; with improper
/// names it is skipped, under the number of its line.
pub proof fn law_entries_are_stored_as_keys(
    v: ImportView,
    line: Seq<char>,
    service: Seq<char>,
    key: Seq<char>,
    value: Seq<char>,
)
    requires
        import_line(line) == ImportLineView::Entry(service, key, value),
    ensures
        ({
            let proper = names::name_problem(service) is None && names::name_problem(key) is None;
            let step = line_step(v.dry_run, v.lines + 1, line);
            let after = counted(v, line);
            &&& proper && !v.dry_run ==> step == (ImportStepView::Store {
                service,
                key,
                kind: "api-key"@,
                fields: seq![("key"@, value)],
            })
            &&& proper && v.dry_run ==> (step matches ImportStepView::Say(msg) && text::holds(
                msg,
                "would store: "@ + service + "/"@ + key + " ("@ + text::digits(
                    text::byte_len(value),
                ) + " chars)"@,
            ) && !text::begins(msg, "  line "@))
            &&& !proper ==> (step matches ImportStepView::Say(msg) && text::begins(
                msg,
                "  line "@ + text::digits(v.lines + 1) + ": skipping ("@ + if names::name_problem(
                    service,
                ) is Some {
                    "service"@
                } else {
                    "key"@
                },
            ))
            &&& after.lines == v.lines + 1 && after.errors == v.errors && after.dry_run == v.dry_run
            &&& after.skipped == v.skipped + if proper {
                0int
            } else {
                1
            }
            &&& after.imported == v.imported + if proper && v.dry_run {
                1int
            } else {
                0
            }
        }),
{
    let step = line_step(v.dry_run, v.lines + 1, line);
    if step is Say {
        let msg = step->Say_0;
        if names_problem(service, key) is None {
            reveal_strlit("  [dry run] would store: ");
            reveal_strlit("would store: ");
            reveal_strlit("  line ");
            let head = "  [dry run] would store: "@;
            let n = head.len() - 13;
            assert(head =~= head.take(n) + "would store: "@);
            let part = "would store: "@ + service + "/"@ + key + " ("@ + text::digits(
                text::byte_len(value),
            ) + " chars)"@;
            let none = Seq::<char>::empty();
            assert(msg =~= head.take(n) + part + none);
            text::law_what_a_text_holds(head.take(n), part, none);
            assert(msg[2] == '[');
            assert("  line "@[2] == 'l');
            if text::begins(msg, "  line "@) {
                assert(msg.take("  line "@.len() as int)[2] == 'l');
            }
        } else {
            let label = if names::name_problem(service) is Some {
                "service"@
            } else {
                "key"@
            };
            let problem = if names::name_problem(service) is Some {
                names::name_problem(service)->0
            } else {
                names::name_problem(key)->0
            };
            names::law_problems_name_their_label(label, problem);
            let told = names::problem_text(label, problem);
            assert(told =~= label + told.skip(label.len() as int));
            let head = "  line "@ + text::digits(v.lines + 1) + ": skipping ("@;
            assert(msg =~= head + told + ")"@);
            assert(msg.take((head + label).len() as int) =~= head + label);
        }
    }
}

/// A line that is malformed or has an empty field is skipped: what is said of
/// it starts with its number, and nothing else is counted.
pub proof fn law_bad_lines_are_skipped(v: ImportView, line: Seq<char>)
    requires
        import_line(line) is Malformed || import_line(line) is EmptyField,
    ensures
        counted(v, line) == (ImportView { lines: v.lines + 1, skipped: v.skipped + 1, ..v }),
        line_step(v.dry_run, v.lines + 1, line) is Say || line_step(
            v.dry_run,
            v.lines + 1,
            line,
        ) is Unspeakable,
        line_step(v.dry_run, v.lines + 1, line) matches ImportStepView::Say(msg) ==> text::begins(
            msg,
            "  line "@ + text::digits(v.lines + 1) + ": skipping ("@,
        ),
        import_line(line) matches ImportLineView::Malformed(n, Some(head)) ==> (line_step(
            v.dry_run,
            v.lines + 1,
            line,
        ) matches ImportStepView::Say(msg) && text::holds(
            msg,
            "got "@ + text::digits(n) + "): "@ + head,
        )),
        import_line(line) matches ImportLineView::Malformed(_, None) ==> line_step(
            v.dry_run,
            v.lines + 1,
            line,
        ) is Unspeakable,
{
    let head = "  line "@ + text::digits(v.lines + 1) + ": skipping ("@;
    let step = line_step(v.dry_run, v.lines + 1, line);
    reveal_strlit(": skipping (expected 3 tab-separated fields, got ");
    reveal_strlit(": skipping (empty field)");
    reveal_strlit(": skipping (");
    reveal_strlit("got ");
    let long = ": skipping (expected 3 tab-separated fields, got "@;
    assert(long.take(12) =~= ": skipping ("@);
    assert(": skipping (empty field)"@.take(12) =~= ": skipping ("@);
    if step is Say {
        let msg = step->Say_0;
        assert(msg.take(head.len() as int) =~= head);
        match import_line(line) {
            ImportLineView::Malformed(n, Some(shown)) => {
                let k = long.len() - 4;
                assert(long =~= long.take(k) + "got "@);
                let front = "  line "@ + text::digits(v.lines + 1) + long.take(k);
                let part = "got "@ + text::digits(n) + "): "@ + shown;
                assert(msg =~= front + part + Seq::<char>::empty());
                text::law_what_a_text_holds(front, part, Seq::empty());
            },
            _ => {},
        }
    }
}

/// A secret that was stored is one more that was imported, and one that could
/// not be is one more error; nothing else changes.
pub proof fn law_stores_are_counted(v: ImportView)
    ensures
        counted_store(v, true).imported == v.imported + 1,
        counted_store(v, true).errors == v.errors,
        counted_store(v, false).imported == v.imported,
        counted_store(v, false).errors == v.errors + 1,
        forall|ok: bool|
            (#[trigger] counted_store(v, ok)).skipped == v.skipped && counted_store(v, ok).lines
                == v.lines && counted_store(v, ok).dry_run == v.dry_run,
{
}

/// At most the first 40 bytes of a line are shown: a shorter line whole, and
/// a longer one up to just there.
pub proof fn law_the_beginning_of_a_line_is_shown(head: Seq<char>, rest: Seq<char>)
    ensures
        text::byte_len(head) <= 40 ==> shown_head(head) == Some(head),
        text::byte_len(head) == 40 ==> shown_head(head + rest) == Some(head),
{
    text::law_bytes_of_a_beginning_are_that_beginning(head, rest);
    text::law_bytes_of_a_beginning_are_that_beginning(head, Seq::empty());
    assert(head + Seq::<char>::empty() =~= head);
}

/// The summary tells the numbers that were counted, and what they are numbers
/// of.
pub proof fn law_the_summary_tells_the_counts(v: ImportView)
    ensures
        text::holds(summary_text(v), text::digits(v.skipped) + " skipped"@),
        v.dry_run ==> text::holds(
            summary_text(v),
            "complete: "@ + text::digits(v.imported) + " would be imported"@,
        ),
        !v.dry_run ==> text::holds(
            summary_text(v),
            "complete: "@ + text::digits(v.imported) + " stored"@,
        ),
        !v.dry_run ==> text::holds(summary_text(v), text::digits(v.errors) + " errors"@),
{
    if v.dry_run {
        lemma_summary_of_a_dry_run(v);
    } else {
        lemma_summary_of_an_import(v);
    }
}

#[verifier::spinoff_prover]
proof fn lemma_summary_of_a_dry_run(v: ImportView)
    requires
        v.dry_run,
    ensures
        text::holds(summary_text(v), text::digits(v.skipped) + " skipped"@),
        text::holds(
            summary_text(v),
            "complete: "@ + text::digits(v.imported) + " would be imported"@,
        ),
{
    let i = text::digits(v.imported);
    let s = text::digits(v.skipped);
    let t = summary_text(v);
    let none = Seq::<char>::empty();
    let h = "dry run complete: "@;
    assert(h =~= h.take(8) + "complete: "@) by {
        reveal_strlit("dry run complete: ");
        reveal_strlit("complete: ");
    }
    assert(" would be imported, "@ =~= " would be imported"@ + ", "@) by {
        reveal_strlit(" would be imported, ");
        reveal_strlit(" would be imported");
        reveal_strlit(", ");
    }
    assert(text::holds(t, s + " skipped"@)) by {
        let a = h + i + " would be imported, "@;
        assert(t =~= a + (s + " skipped"@) + none);
        text::law_what_a_text_holds(a, s + " skipped"@, none);
    }
    let part = "complete: "@ + i + " would be imported"@;
    assert(text::holds(t, part)) by {
        let b = ", "@ + s + " skipped"@;
        assert(t =~= h.take(8) + part + b);
        text::law_what_a_text_holds(h.take(8), part, b);
    }
}

proof fn lemma_summary_of_an_import(v: ImportView)
    requires
        !v.dry_run,
    ensures
        text::holds(summary_text(v), text::digits(v.skipped) + " skipped"@),
        text::holds(summary_text(v), "complete: "@ + text::digits(v.imported) + " stored"@),
        text::holds(summary_text(v), text::digits(v.errors) + " errors"@),
{
    assert("import complete: "@ =~= "import complete: "@.take(7) + "complete: "@) by {
        reveal_strlit("import complete: ");
        reveal_strlit("complete: ");
    }
    assert(" stored, "@ =~= " stored"@ + ", "@) by {
        reveal_strlit(" stored, ");
        reveal_strlit(" stored");
        reveal_strlit(", ");
    }
    assert(" skipped, "@ =~= " skipped"@ + ", "@) by {
        reveal_strlit(" skipped, ");
        reveal_strlit(" skipped");
        reveal_strlit(", ");
    }
    lemma_three_counts(
        "import complete: "@.take(7),
        "complete: "@,
        text::digits(v.imported),
        " stored"@,
        text::digits(v.skipped),
        " skipped"@,
        text::digits(v.errors),
        " errors"@,
        ", "@,
    );
}

/// Counts with words behind them, put together with a separator, are held in
/// the whole.
proof fn lemma_three_counts(
    a: Seq<char>,
    b: Seq<char>,
    x: Seq<char>,
    u: Seq<char>,
    y: Seq<char>,
    v: Seq<char>,
    z: Seq<char>,
    w: Seq<char>,
    sep: Seq<char>,
)
    ensures
        ({
            let t = (a + b) + x + (u + sep) + y + (v + sep) + z + w;
            text::holds(t, b + x + u) && text::holds(t, y + v) && text::holds(t, z + w)
        }),
{
    let t = (a + b) + x + (u + sep) + y + (v + sep) + z + w;
    let none = Seq::<char>::empty();
    let head = (a + b) + x + (u + sep);
    let tail = (v + sep) + z + w;
    assert(text::holds(t, b + x + u)) by {
        let rest = sep + y + tail;
        assert(head =~= a + (b + x + u) + sep);
        assert(t =~= head + (y + tail));
        assert(t =~= a + (b + x + u) + rest);
        text::law_what_a_text_holds(a, b + x + u, rest);
    }
    assert(text::holds(t, y + v)) by {
        let rest = sep + z + w;
        assert(tail =~= v + rest);
        assert(t =~= head + y + tail);
        assert(t =~= head + (y + v) + rest);
        text::law_what_a_text_holds(head, y + v, rest);
    }
    assert(text::holds(t, z + w)) by {
        let front = head + y + (v + sep);
        assert(t =~= front + (z + w) + none);
        text::law_what_a_text_holds(front, z + w, none);
    }
}

/// What is said of a secret names it, and gives its number, or the error.
pub proof fn law_what_is_said_of_a_store(
    service: Seq<char>,
    key: Seq<char>,
    id: u64,
    e: Seq<char>,
)
    ensures
        text::begins(store_text(service, key, Ok(id)), "  stored: "@ + service + "/"@ + key),
        text::holds(store_text(service, key, Ok(id)), "engram_id="@ + text::digits(id as nat)),
        text::begins(
            store_text(service, key, Err(e)),
            "  ERROR storing "@ + service + "/"@ + key,
        ),
        text::holds(store_text(service, key, Err(e)), ": "@ + e),
{
    let a = "  stored: "@ + service + "/"@ + key;
    let t = store_text(service, key, Ok(id));
    assert(t.take(a.len() as int) =~= a);
    reveal_strlit(" (engram_id=");
    reveal_strlit("engram_id=");
    assert(" (engram_id="@ =~= " (engram_id="@.take(2) + "engram_id="@);
    let part = "engram_id="@ + text::digits(id as nat);
    let front = a + " (engram_id="@.take(2);
    assert(t =~= front + part + ")"@);
    text::law_what_a_text_holds(front, part, ")"@);
    let b = "  ERROR storing "@ + service + "/"@ + key;
    let u = store_text(service, key, Err(e));
    assert(u.take(b.len() as int) =~= b);
    assert(u =~= b + (": "@ + e) + Seq::<char>::empty());
    text::law_what_a_text_holds(b, ": "@ + e, Seq::empty());
}

/// Lines can be counted as long as each count can go up by one more.
pub proof fn law_when_lines_can_be_counted(v: ImportView)
    ensures
        has_room(v) <==> v.lines + 1 <= u64::MAX && v.imported + 1 <= u64::MAX && v.skipped + 1
            <= u64::MAX && v.errors + 1 <= u64::MAX,
{
}

} // verus!
