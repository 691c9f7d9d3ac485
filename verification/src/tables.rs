//! The tables that the command line prints.

use crate::agent_keys;
use crate::agent_keys::{AgentKey, AgentKeyView};
use crate::clock;
use crate::text;
use crate::types;
use crate::types::Secret;
use vstd::prelude::*;
use vstd::utf8::*;

verus! {

// ---------------------------------------------------------------------------
// Lines of cells
// ---------------------------------------------------------------------------

/// The largest size among texts, in bytes, or `least` if that is larger.
pub open spec fn widest(cells: Seq<Seq<char>>, least: int) -> int
    decreases cells.len(),
{
    if cells.len() == 0 {
        least
    } else {
        text::max(widest(cells.drop_last(), least), text::byte_len(cells.last()) as int)
    }
}

/// A line of cells, each filled up to its width, two blanks apart.
pub open spec fn cells_line(cells: Seq<Seq<char>>, widths: Seq<usize>, fill: char) -> Seq<char> {
    text::joined(
        Seq::new(cells.len(), |i: int| text::padded(cells[i], widths[i] as int, fill)),
        "  "@,
    )
}

/// A line of empty cells: the rule under the head of a table.
pub open spec fn rule_line(widths: Seq<usize>) -> Seq<char> {
    cells_line(Seq::new(widths.len(), |i: int| ""@), widths, '-')
}

fn widen(width: usize, cell: &str) -> (r: usize)
    ensures
        r == text::max(width as int, text::byte_len(cell@) as int),
{
    let size: usize = text::size(cell);
    if width < size {
        size
    } else {
        width
    }
}

fn print_cells(cells: &Vec<String>, widths: &Vec<usize>, fill: char) -> (r: String)
    requires
        cells@.len() == widths@.len(),
    ensures
        r@ == cells_line(text::texts(cells@), widths@, fill),
{
    let mut out: Vec<String> = Vec::new();
    let mut i: usize = 0;
    while i < cells.len()
        invariant
            cells@.len() == widths@.len(),
            i <= cells@.len(),
            out@.len() == i,
            forall|j: int|
                0 <= j < i ==> (#[trigger] out@[j])@ == text::padded(
                    cells@[j]@,
                    widths@[j] as int,
                    fill,
                ),
        decreases cells@.len() - i,
    {
        out.push(text::pad(cells[i].as_str(), widths[i], fill));
        i += 1;
    }
    assert(text::texts(out@) =~= Seq::new(
        text::texts(cells@).len(),
        |i: int| text::padded(text::texts(cells@)[i], widths@[i] as int, fill),
    ));
    text::join(&out, "  ")
}

fn print_rule(widths: &Vec<usize>) -> (r: String)
    ensures
        r@ == rule_line(widths@),
{
    let mut cells: Vec<String> = Vec::new();
    let mut i: usize = 0;
    while i < widths.len()
        invariant
            i <= widths@.len(),
            cells@.len() == i,
            forall|j: int| 0 <= j < i ==> (#[trigger] cells@[j])@ == ""@,
        decreases widths@.len() - i,
    {
        cells.push("".to_owned());
        i += 1;
    }
    assert(text::texts(cells@) =~= Seq::new(widths@.len(), |i: int| ""@));
    print_cells(&cells, widths, '-')
}

// ---------------------------------------------------------------------------
// Secrets
// ---------------------------------------------------------------------------

/// The secrets of a service, or all.
pub open spec fn of_service(secrets: Seq<Secret>, service: Option<Seq<char>>) -> Seq<Secret> {
    secrets.filter(|s: Secret| service matches Some(f) ==> s.service@ == f)
}

/// The widths of the columns of a table of secrets; the last one is not filled
/// up.
pub open spec fn secret_widths(secrets: Seq<Secret>) -> Seq<usize> {
    seq![
        widest(secrets.map_values(|s: Secret| s.service@), 7) as usize,
        widest(secrets.map_values(|s: Secret| s.key@), 3) as usize,
        widest(secrets.map_values(|s: Secret| types::kind_of(s.value)), 4) as usize,
        0,
    ]
}

/// The line of a secret.
pub open spec fn secret_cells(s: Secret) -> Seq<Seq<char>> {
    seq![s.service@, s.key@, types::kind_of(s.value), types::preview_of(s.value)]
}

/// A table of secrets.
pub open spec fn secret_table(secrets: Seq<Secret>) -> Seq<Seq<char>> {
    let w = secret_widths(secrets);
    if secrets.len() == 0 {
        seq!["no secrets stored"@]
    } else {
        seq![
            cells_line(seq!["SERVICE"@, "KEY"@, "TYPE"@, "PREVIEW"@], w, ' '),
            rule_line(w.update(3, 30)),
        ] + secrets.map_values(|s: Secret| cells_line(secret_cells(s), w, ' ')) + seq![
            ""@,
            text::digits(secrets.len()) + " secret(s)"@,
        ]
    }
}

/// Keeps the secrets of a service, or all.
pub fn filter_by_service(secrets: Vec<Secret>, service: Option<&str>) -> (r: Vec<Secret>)
    ensures
        r@ == of_service(
            secrets@,
            match service {
                Some(f) => Some(f@),
                None => None,
            },
        ),
{
    let ghost want = match service {
        Some(f) => Some(f@),
        None => None,
    };
    let ghost p = |s: Secret| want matches Some(f) ==> s.service@ == f;
    let ghost all = secrets@;
    let mut out: Vec<Secret> = Vec::new();
    assert(all.take(0) =~= Seq::<Secret>::empty());
    assert(all.take(0).filter(p) =~= Seq::<Secret>::empty()) by {
        reveal(Seq::filter);
    }
    for s in it: secrets
        invariant
            it.seq() == all,
            want == match service {
                Some(f) => Some(f@),
                None => None,
            },
            p == (|s: Secret| want matches Some(f) ==> s.service@ == f),
            out@ == all.take(it.index()).filter(p),
    {
        proof {
            let n = it.index();
            assert(all.take(n + 1) =~= all.take(n).push(s));
            all.take(n).lemma_filter_push(s, p);
        }
        let keep = match service {
            Some(f) => text::same(s.service.as_str(), f),
            None => true,
        };
        if keep {
            out.push(s);
        }
    }
    assert(all.take(all.len() as int) =~= all);
    assert(out@ =~= of_service(all, want));
    out
}

fn four(a: &str, b: &str, c: &str, d: &str) -> (r: Vec<String>)
    ensures
        r@.len() == 4,
        text::texts(r@) == seq![a@, b@, c@, d@],
{
    let mut v: Vec<String> = Vec::new();
    v.push(a.to_owned());
    v.push(b.to_owned());
    v.push(c.to_owned());
    v.push(d.to_owned());
    assert(text::texts(v@) =~= seq![a@, b@, c@, d@]);
    v
}

proof fn lemma_widest_push(cells: Seq<Seq<char>>, cell: Seq<char>, least: int)
    ensures
        widest(cells.push(cell), least) == text::max(
            widest(cells, least),
            text::byte_len(cell) as int,
        ),
{
    assert(cells.push(cell).drop_last() =~= cells);
}

/// Prints a table of secrets.
pub fn secret_lines(secrets: &Vec<Secret>) -> (r: Vec<String>)
    ensures
        text::texts(r@) == secret_table(secrets@),
{
    let mut out: Vec<String> = Vec::new();
    if secrets.len() == 0 {
        out.push("no secrets stored".to_owned());
        assert(text::texts(out@) =~= secret_table(secrets@));
        return out;
    }
    let ghost services = secrets@.map_values(|s: Secret| s.service@);
    let ghost keys = secrets@.map_values(|s: Secret| s.key@);
    let ghost kinds = secrets@.map_values(|s: Secret| types::kind_of(s.value));
    let mut w_service: usize = 7;
    let mut w_key: usize = 3;
    let mut w_kind: usize = 4;
    let mut i: usize = 0;
    while i < secrets.len()
        invariant
            i <= secrets@.len(),
            services == secrets@.map_values(|s: Secret| s.service@),
            keys == secrets@.map_values(|s: Secret| s.key@),
            kinds == secrets@.map_values(|s: Secret| types::kind_of(s.value)),
            w_service == widest(services.take(i as int), 7),
            w_key == widest(keys.take(i as int), 3),
            w_kind == widest(kinds.take(i as int), 4),
        decreases secrets@.len() - i,
    {
        proof {
            let k = i as int;
            lemma_widest_push(services.take(k), services[k], 7);
            lemma_widest_push(keys.take(k), keys[k], 3);
            lemma_widest_push(kinds.take(k), kinds[k], 4);
            assert(services.take(k + 1) =~= services.take(k).push(services[k]));
            assert(keys.take(k + 1) =~= keys.take(k).push(keys[k]));
            assert(kinds.take(k + 1) =~= kinds.take(k).push(kinds[k]));
        }
        w_service = widen(w_service, secrets[i].service.as_str());
        w_key = widen(w_key, secrets[i].key.as_str());
        w_kind = widen(w_kind, secrets[i].value.kind());
        i += 1;
    }
    proof {
        let n = secrets@.len() as int;
        assert(services.take(n) =~= services);
        assert(keys.take(n) =~= keys);
        assert(kinds.take(n) =~= kinds);
    }
    let mut widths: Vec<usize> = Vec::new();
    widths.push(w_service);
    widths.push(w_key);
    widths.push(w_kind);
    widths.push(0);
    let ghost w = secret_widths(secrets@);
    assert(widths@ =~= w);
    out.push(print_cells(&four("SERVICE", "KEY", "TYPE", "PREVIEW"), &widths, ' '));
    widths.set(3, 30);
    assert(widths@ =~= w.update(3, 30));
    out.push(print_rule(&widths));
    widths.set(3, 0);
    assert(widths@ =~= w);
    let ghost head = text::texts(out@);
    assert(head =~= seq![
        cells_line(seq!["SERVICE"@, "KEY"@, "TYPE"@, "PREVIEW"@], w, ' '),
        rule_line(w.update(3, 30)),
    ]);
    let ghost rows = secrets@.map_values(|s: Secret| cells_line(secret_cells(s), w, ' '));
    let mut i: usize = 0;
    assert(text::texts(out@) =~= head + rows.take(0));
    while i < secrets.len()
        invariant
            i <= secrets@.len(),
            widths@ == w,
            widths@.len() == 4,
            rows == secrets@.map_values(|s: Secret| cells_line(secret_cells(s), w, ' ')),
            text::texts(out@) == head + rows.take(i as int),
        decreases secrets@.len() - i,
    {
        let ghost before = text::texts(out@);
        let preview = secrets[i].value.redacted_preview();
        let cells = four(
            secrets[i].service.as_str(),
            secrets[i].key.as_str(),
            secrets[i].value.kind(),
            preview.as_str(),
        );
        assert(text::texts(cells@) == secret_cells(secrets@[i as int]));
        assert(cells@.len() == text::texts(cells@).len());
        out.push(print_cells(&cells, &widths, ' '));
        assert(text::texts(out@) =~= before.push(rows[i as int]));
        assert(rows.take(i + 1) =~= rows.take(i as int).push(rows[i as int]));
        i += 1;
    }
    let ghost filled = text::texts(out@);
    assert(rows.take(secrets@.len() as int) =~= rows);
    out.push("".to_owned());
    let mut count = text::decimal(secrets.len() as u64);
    count.append(" secret(s)");
    let ghost last = count@;
    out.push(count);
    assert(text::texts(out@) =~= filled.push(""@).push(last));
    assert(text::texts(out@) =~= secret_table(secrets@));
    out
}

// ---------------------------------------------------------------------------
// Agent keys
// ---------------------------------------------------------------------------

/// The first bytes of a text with dots behind them, if they end between two
/// characters.
pub open spec fn cut(s: Seq<char>, n: int) -> Option<Seq<char>> {
    match text::first_bytes(s, n) {
        Some(head) => Some(head + "..."@),
        None => None,
    }
}

/// What is shown of a key: its first eight bytes.
pub open spec fn prefix_cell(key: Seq<char>) -> Option<Seq<char>> {
    if text::byte_len(key) >= 8 {
        cut(key, 8)
    } else {
        Some("???"@)
    }
}

/// What is shown of a description: all of it, or the first 27 of more than 30
/// bytes.
pub open spec fn description_cell(description: Seq<char>) -> Option<Seq<char>> {
    if text::byte_len(description) > 30 {
        cut(description, 27)
    } else {
        Some(description)
    }
}

/// A key can be shown: what is cut off begins with a whole character.
pub open spec fn showable(k: AgentKeyView) -> bool {
    prefix_cell(k.key) is Some && description_cell(k.description) is Some
}

/// The time to the minute.
pub open spec fn minute_text(t: (i64, u32)) -> Seq<char> {
    clock::calendar_text(t.0, t.1, "%Y-%m-%d %H:%M"@)
}

/// The line of an agent key.
pub open spec fn agent_cells(k: AgentKeyView) -> Seq<Seq<char>> {
    seq![
        k.id,
        prefix_cell(k.key)->0,
        if k.revoked {
            "REVOKED"@
        } else {
            "active"@
        },
        minute_text(k.created_at),
        match k.last_used {
            Some(t) => minute_text(t),
            None => "never"@,
        },
        description_cell(k.description)->0,
    ]
}

/// The widths of the columns of a table of agent keys; the last one is not
/// filled up.
pub open spec fn agent_widths(keys: Seq<AgentKeyView>) -> Seq<usize> {
    seq![
        widest(keys.map_values(|k: AgentKeyView| k.id), 8) as usize,
        10,
        8,
        20,
        20,
        0,
    ]
}

/// The width of the rule under the descriptions.
pub open spec fn description_rule(keys: Seq<AgentKeyView>) -> usize {
    let w = widest(keys.map_values(|k: AgentKeyView| k.description), 11);
    if w < 30 {
        w as usize
    } else {
        30
    }
}

/// The number of keys that are active.
pub open spec fn active_among(keys: Seq<AgentKeyView>) -> nat {
    keys.filter(|k: AgentKeyView| !k.revoked).len()
}

/// A table of agent keys.
pub open spec fn agent_table(keys: Seq<AgentKeyView>) -> Seq<Seq<char>> {
    let w = agent_widths(keys);
    if keys.len() == 0 {
        seq![
            "no agent keys configured"@,
            "generate one with: cred agent-key generate <agent_id>"@,
        ]
    } else {
        seq![
            cells_line(
                seq![
                    "AGENT ID"@,
                    "KEY PREFIX"@,
                    "STATUS"@,
                    "CREATED"@,
                    "LAST USED"@,
                    "DESCRIPTION"@,
                ],
                w,
                ' ',
            ),
            rule_line(w.update(5, description_rule(keys))),
        ] + keys.map_values(|k: AgentKeyView| cells_line(agent_cells(k), w, ' ')) + seq![
            ""@,
            text::digits(keys.len()) + " key(s) ("@ + text::digits(active_among(keys))
                + " active, "@ + text::digits((keys.len() - active_among(keys)) as nat)
                + " revoked)"@,
        ]
    }
}

fn cut_text(s: &str, n: usize) -> (r: Option<String>)
    ensures
        text::text_option(r) == cut(s@, n as int),
{
    match text::byte_prefix(s, n) {
        Some(head) => {
            let mut t = head;
            t.append("...");
            Some(t)
        },
        None => None,
    }
}

fn six(a: &str, b: &str, c: &str, d: &str, e: &str, f: &str) -> (r: Vec<String>)
    ensures
        r@.len() == 6,
        text::texts(r@) == seq![a@, b@, c@, d@, e@, f@],
{
    let mut v: Vec<String> = Vec::new();
    v.push(a.to_owned());
    v.push(b.to_owned());
    v.push(c.to_owned());
    v.push(d.to_owned());
    v.push(e.to_owned());
    v.push(f.to_owned());
    assert(text::texts(v@) =~= seq![a@, b@, c@, d@, e@, f@]);
    v
}

/// The cells of an agent key, if it can be shown.
fn agent_row(k: &AgentKey) -> (r: Option<Vec<String>>)
    ensures
        r is Some <==> showable(k@),
        r matches Some(cells) ==> text::texts(cells@) == agent_cells(k@),
{
    let prefix = if text::size(k.key.as_str()) >= 8 {
        cut_text(k.key.as_str(), 8)
    } else {
        Some("???".to_owned())
    };
    let description = if text::size(k.description.as_str()) > 30 {
        cut_text(k.description.as_str(), 27)
    } else {
        Some(k.description.clone())
    };
    let status = if k.revoked {
        "REVOKED"
    } else {
        "active"
    };
    let created = k.created_at.to_minute();
    let last_used = match &k.last_used {
        Some(t) => t.to_minute(),
        None => "never".to_owned(),
    };
    match (prefix, description) {
        (Some(p), Some(d)) => Some(
            six(
                k.id.as_str(),
                p.as_str(),
                status,
                created.as_str(),
                last_used.as_str(),
                d.as_str(),
            ),
        ),
        _ => None,
    }
}

/// Prints a table of agent keys, if all of them can be shown.
pub fn agent_key_lines(keys: &Vec<&AgentKey>) -> (r: Option<Vec<String>>)
    ensures
        r is Some <==> forall|i: int|
            0 <= i < keys@.len() ==> showable((#[trigger] keys@[i])@),
        r matches Some(lines) ==> text::texts(lines@) == agent_table(
            agent_keys::record_views(keys@),
        ),
{
    let ghost views = agent_keys::record_views(keys@);
    let mut out: Vec<String> = Vec::new();
    if keys.len() == 0 {
        out.push("no agent keys configured".to_owned());
        out.push("generate one with: cred agent-key generate <agent_id>".to_owned());
        assert(text::texts(out@) =~= agent_table(views));
        return Some(out);
    }
    let ghost ids = views.map_values(|k: AgentKeyView| k.id);
    let ghost descriptions = views.map_values(|k: AgentKeyView| k.description);
    let ghost live = |k: AgentKeyView| !k.revoked;
    let mut w_id: usize = 8;
    let mut w_desc: usize = 11;
    let mut active: usize = 0;
    let mut i: usize = 0;
    assert(views.take(0).filter(live).len() == 0) by {
        reveal(Seq::filter);
    }
    while i < keys.len()
        invariant
            i <= keys@.len(),
            views == agent_keys::record_views(keys@),
            ids == views.map_values(|k: AgentKeyView| k.id),
            descriptions == views.map_values(|k: AgentKeyView| k.description),
            live == (|k: AgentKeyView| !k.revoked),
            w_id == widest(ids.take(i as int), 8),
            w_desc == widest(descriptions.take(i as int), 11),
            active == views.take(i as int).filter(live).len(),
            active <= i,
        decreases keys@.len() - i,
    {
        proof {
            let k = i as int;
            lemma_widest_push(ids.take(k), ids[k], 8);
            lemma_widest_push(descriptions.take(k), descriptions[k], 11);
            views.take(k).lemma_filter_push(views[k], live);
            assert(ids.take(k + 1) =~= ids.take(k).push(ids[k]));
            assert(descriptions.take(k + 1) =~= descriptions.take(k).push(descriptions[k]));
            assert(views.take(k + 1) =~= views.take(k).push(views[k]));
        }
        w_id = widen(w_id, keys[i].id.as_str());
        w_desc = widen(w_desc, keys[i].description.as_str());
        if !keys[i].revoked {
            active += 1;
        }
        i += 1;
    }
    proof {
        let n = keys@.len() as int;
        assert(ids.take(n) =~= ids);
        assert(descriptions.take(n) =~= descriptions);
        assert(views.take(n) =~= views);
    }
    let rule: usize = if w_desc < 30 {
        w_desc
    } else {
        30
    };
    let mut widths: Vec<usize> = Vec::new();
    widths.push(w_id);
    widths.push(10);
    widths.push(8);
    widths.push(20);
    widths.push(20);
    widths.push(0);
    let ghost w = agent_widths(views);
    assert(widths@ =~= w);
    out.push(
        print_cells(
            &six("AGENT ID", "KEY PREFIX", "STATUS", "CREATED", "LAST USED", "DESCRIPTION"),
            &widths,
            ' ',
        ),
    );
    widths.set(5, rule);
    assert(widths@ =~= w.update(5, description_rule(views)));
    out.push(print_rule(&widths));
    widths.set(5, 0);
    assert(widths@ =~= w);
    let ghost head = text::texts(out@);
    assert(head =~= seq![
        cells_line(
            seq![
                "AGENT ID"@,
                "KEY PREFIX"@,
                "STATUS"@,
                "CREATED"@,
                "LAST USED"@,
                "DESCRIPTION"@,
            ],
            w,
            ' ',
        ),
        rule_line(w.update(5, description_rule(views))),
    ]);
    let ghost rows = views.map_values(|k: AgentKeyView| cells_line(agent_cells(k), w, ' '));
    let mut i: usize = 0;
    assert(text::texts(out@) =~= head + rows.take(0));
    while i < keys.len()
        invariant
            i <= keys@.len(),
            views == agent_keys::record_views(keys@),
            widths@ == w,
            widths@.len() == 6,
            rows == views.map_values(|k: AgentKeyView| cells_line(agent_cells(k), w, ' ')),
            text::texts(out@) == head + rows.take(i as int),
            forall|j: int| 0 <= j < i ==> showable((#[trigger] keys@[j])@),
        decreases keys@.len() - i,
    {
        let ghost before = text::texts(out@);
        let cells = match agent_row(keys[i]) {
            Some(cells) => cells,
            None => {
                assert(!showable(keys@[i as int]@));
                return None;
            },
        };
        assert(text::texts(cells@) == agent_cells(views[i as int]));
        assert(cells@.len() == text::texts(cells@).len());
        out.push(print_cells(&cells, &widths, ' '));
        assert(text::texts(out@) =~= before.push(rows[i as int]));
        assert(rows.take(i + 1) =~= rows.take(i as int).push(rows[i as int]));
        i += 1;
    }
    let ghost filled = text::texts(out@);
    assert(rows.take(keys@.len() as int) =~= rows);
    out.push("".to_owned());
    let mut count = text::decimal(keys.len() as u64);
    count.append(" key(s) (");
    count.append(text::decimal(active as u64).as_str());
    count.append(" active, ");
    count.append(text::decimal((keys.len() - active) as u64).as_str());
    count.append(" revoked)");
    let ghost last = count@;
    out.push(count);
    assert(text::texts(out@) =~= filled.push(""@).push(last));
    assert(text::texts(out@) =~= agent_table(views));
    Some(out)
}

// ---------------------------------------------------------------------------
// Laws
// ---------------------------------------------------------------------------

/// A key in ASCII, such as any generated one, with a description that is short
/// or in ASCII can be shown.
pub proof fn law_ascii_keys_can_be_shown(k: AgentKeyView)
    requires
        is_ascii_chars(k.key),
        text::byte_len(k.description) <= 30 || is_ascii_chars(k.description),
    ensures
        showable(k),
{
    is_ascii_chars_encode_utf8(k.key);
    if text::byte_len(k.key) >= 8 {
        text::lemma_ascii_boundary(k.key, 8);
    }
    if text::byte_len(k.description) > 30 {
        is_ascii_chars_encode_utf8(k.description);
        text::lemma_ascii_boundary(k.description, 27);
    }
}

/// No column is narrower than what stands in it.
pub proof fn law_columns_hold_their_cells(cells: Seq<Seq<char>>, least: int, i: int)
    requires
        0 <= i < cells.len(),
    ensures
        widest(cells, least) >= text::byte_len(cells[i]),
        widest(cells, least) >= least,
    decreases cells.len(),
{
    if i < cells.len() - 1 {
        law_columns_hold_their_cells(cells.drop_last(), least, i);
    } else if cells.len() > 1 {
        law_columns_hold_their_cells(cells.drop_last(), least, 0);
    } else {
        assert(widest(cells.drop_last(), least) == least);
    }
}

/// Keeping the secrets of a service goes secret by secret, and keeps their
/// order: each one stays exactly if it is of that service. Without a service
/// all of them stay.
pub proof fn law_secrets_of_a_service(
    a: Seq<Secret>,
    b: Seq<Secret>,
    s: Secret,
    service: Option<Seq<char>>,
)
    ensures
        of_service(a + b, service) == of_service(a, service) + of_service(b, service),
        of_service(Seq::empty(), service) == Seq::<Secret>::empty(),
        service is None || service == Some(s.service@) ==> of_service(seq![s], service) == seq![s],
        service is Some && service != Some(s.service@) ==> of_service(seq![s], service) == Seq::<
            Secret,
        >::empty(),
        of_service(a, None) == a,
{
    let p = |s: Secret| service matches Some(f) ==> s.service@ == f;
    Seq::filter_distributes_over_add(a, b, p);
    let none = Seq::<Secret>::empty();
    assert(none.filter(p) =~= none) by {
        reveal(Seq::filter);
    }
    none.lemma_filter_push(s, p);
    assert(none.push(s) =~= seq![s]);
    lemma_without_a_service(a, None);
}

proof fn lemma_without_a_service(secrets: Seq<Secret>, service: Option<Seq<char>>)
    requires
        service is None,
    ensures
        of_service(secrets, service) == secrets,
    decreases secrets.len(),
{
    let p = |s: Secret| service matches Some(f) ==> s.service@ == f;
    if secrets.len() > 0 {
        let front = secrets.drop_last();
        lemma_without_a_service(front, service);
        front.lemma_filter_push(secrets.last(), p);
        assert(front.push(secrets.last()) =~= secrets);
        assert(of_service(front, service) == front.filter(p));
    } else {
        reveal(Seq::filter);
        assert(of_service(secrets, service) =~= secrets);
    }
}

/// The first cell of a line is filled up to its width, and the others follow
/// two blanks behind it in the same way.
pub proof fn law_lines_go_cell_by_cell(
    cell: Seq<char>,
    rest: Seq<Seq<char>>,
    width: usize,
    widths: Seq<usize>,
    fill: char,
)
    requires
        rest.len() == widths.len(),
    ensures
        cells_line(seq![cell], seq![width], fill) == text::padded(cell, width as int, fill),
        rest.len() > 0 ==> cells_line(seq![cell] + rest, seq![width] + widths, fill)
            == text::padded(cell, width as int, fill) + "  "@ + cells_line(rest, widths, fill),
{
    let first = text::padded(cell, width as int, fill);
    let others = Seq::new(rest.len(), |i: int| text::padded(rest[i], widths[i] as int, fill));
    text::law_joining_starts_with_the_first_part(first, others, "  "@);
    let one = seq![cell];
    let w1 = seq![width];
    assert(Seq::new(one.len(), |i: int| text::padded(one[i], w1[i] as int, fill)) =~= seq![first]);
    let cells = seq![cell] + rest;
    let w = seq![width] + widths;
    assert(Seq::new(cells.len(), |i: int| text::padded(cells[i], w[i] as int, fill)) =~= seq![first]
        + others);
}

/// Every cell stands in its line.
pub proof fn law_lines_hold_their_cells(
    cells: Seq<Seq<char>>,
    widths: Seq<usize>,
    fill: char,
    i: int,
)
    requires
        0 <= i < cells.len(),
    ensures
        text::holds(cells_line(cells, widths, fill), cells[i]),
{
    let parts = Seq::new(cells.len(), |i: int| text::padded(cells[i], widths[i] as int, fill));
    let line = cells_line(cells, widths, fill);
    text::law_joining_keeps_every_part(parts, "  "@, i);
    let (a, b) = text::law_what_is_held_can_be_cut_out(line, parts[i]);
    text::law_padding_fills_up_to_the_width(cells[i], widths[i] as int, fill);
    let n = cells[i].len() as int;
    assert(parts[i] =~= cells[i] + parts[i].skip(n));
    assert(line =~= a + cells[i] + (parts[i].skip(n) + b));
    text::law_what_a_text_holds(a, cells[i], parts[i].skip(n) + b);
}

/// A column is no wider than it must be: it is as wide as its head asks for, or
/// as one of its cells.
pub proof fn law_columns_are_no_wider_than_they_must_be(cells: Seq<Seq<char>>, least: int)
    ensures
        widest(cells, least) == least || exists|i: int|
            0 <= i < cells.len() && text::byte_len(#[trigger] cells[i]) == widest(cells, least),
    decreases cells.len(),
{
    if cells.len() > 0 {
        let front = cells.drop_last();
        law_columns_are_no_wider_than_they_must_be(front, least);
        if widest(cells, least) == widest(front, least) && widest(front, least) != least {
            let i = choose|i: int|
                0 <= i < front.len() && text::byte_len(#[trigger] front[i]) == widest(front, least);
            assert(cells[i] == front[i]);
        } else if widest(cells, least) != least {
            assert(cells[cells.len() - 1] == cells.last());
        }
    }
}

/// A table of secrets has a line for each, in order, with its service, its key,
/// its kind and its preview; and at its end it tells how many there are.
pub proof fn law_every_secret_has_its_line(secrets: Seq<Secret>, i: int)
    requires
        0 <= i < secrets.len(),
    ensures
        secret_table(secrets).len() == secrets.len() + 4,
        text::begins(secret_table(secrets)[i + 2], secrets[i].service@),
        text::holds(secret_table(secrets)[i + 2], secrets[i].key@),
        text::holds(secret_table(secrets)[i + 2], types::kind_of(secrets[i].value)),
        text::holds(secret_table(secrets)[i + 2], types::preview_of(secrets[i].value)),
        secret_table(secrets).last() == text::digits(secrets.len()) + " secret(s)"@,
        text::begins(secret_table(secrets)[0], "SERVICE"@),
{
    let w = secret_widths(secrets);
    let cells = secret_cells(secrets[i]);
    let line = cells_line(cells, w, ' ');
    assert(secret_table(secrets)[i + 2] == line);
    law_lines_hold_their_cells(cells, w, ' ', 1);
    law_lines_hold_their_cells(cells, w, ' ', 2);
    law_lines_hold_their_cells(cells, w, ' ', 3);
    lemma_line_begins(cells, w, ' ');
    let head = seq!["SERVICE"@, "KEY"@, "TYPE"@, "PREVIEW"@];
    lemma_line_begins(head, w, ' ');
    assert(secret_table(secrets)[0] == cells_line(head, w, ' '));
}

/// A line starts with its first cell.
proof fn lemma_line_begins(cells: Seq<Seq<char>>, widths: Seq<usize>, fill: char)
    requires
        cells.len() > 1,
        cells.len() == widths.len(),
    ensures
        text::begins(cells_line(cells, widths, fill), cells[0]),
{
    let rest = cells.drop_first();
    let ws = widths.drop_first();
    law_lines_go_cell_by_cell(cells[0], rest, widths[0], ws, fill);
    assert(seq![cells[0]] + rest =~= cells);
    assert(seq![widths[0]] + ws =~= widths);
    text::law_padding_fills_up_to_the_width(cells[0], widths[0] as int, fill);
    let line = cells_line(cells, widths, fill);
    let n = cells[0].len() as int;
    let part = text::padded(cells[0], widths[0] as int, fill);
    assert(line.take(n) =~= part.take(n));
}

/// The columns of a table of secrets are as wide as their widest cells, and at
/// least as wide as their heads.
pub proof fn law_columns_of_secrets(secrets: Seq<Secret>, services: Seq<Seq<char>>, keys: Seq<Seq<char>>)
    requires
        services.len() == secrets.len(),
        keys.len() == secrets.len(),
        forall|i: int| 0 <= i < secrets.len() ==> #[trigger] services[i] == secrets[i].service@,
        forall|i: int| 0 <= i < secrets.len() ==> #[trigger] keys[i] == secrets[i].key@,
    ensures
        secret_widths(secrets).len() == 4,
        secret_widths(secrets)[0] == widest(services, "SERVICE"@.len() as int) as usize,
        secret_widths(secrets)[1] == widest(keys, "KEY"@.len() as int) as usize,
        secret_widths(secrets)[3] == 0,
{
    reveal_strlit("SERVICE");
    reveal_strlit("KEY");
    assert(services =~= secrets.map_values(|s: Secret| s.service@));
    assert(keys =~= secrets.map_values(|s: Secret| s.key@));
}

/// No secrets and no keys are told in words.
pub proof fn law_empty_tables_say_so(secrets: Seq<Secret>, keys: Seq<AgentKeyView>)
    ensures
        secrets.len() == 0 <==> secret_table(secrets).len() == 1,
        secrets.len() == 0 ==> secret_table(secrets)[0] == "no secrets stored"@,
        keys.len() == 0 <==> agent_table(keys).len() == 2,
        keys.len() == 0 ==> agent_table(keys)[0] == "no agent keys configured"@,
{
}

/// What is shown of a key are its first eight bytes, and of one that has fewer
/// nothing.
pub proof fn law_what_is_shown_of_a_key(head: Seq<char>, rest: Seq<char>)
    ensures
        text::byte_len(head) == 8 ==> prefix_cell(head + rest) == Some(head + "..."@),
        text::byte_len(head) < 8 ==> prefix_cell(head) == Some("???"@),
{
    text::law_bytes_of_a_beginning_are_that_beginning(head, rest);
}

/// A description is shown whole up to 30 bytes, and else its first 27 with dots
/// behind them.
pub proof fn law_what_is_shown_of_a_description(head: Seq<char>, rest: Seq<char>)
    ensures
        text::byte_len(head) <= 30 ==> description_cell(head) == Some(head),
        text::byte_len(head) == 27 && text::byte_len(rest) > 3 ==> description_cell(head + rest)
            == Some(head + "..."@),
{
    text::law_bytes_of_a_beginning_are_that_beginning(head, rest);
}

/// Keys are counted one by one, each that is not revoked as one.
pub proof fn law_active_keys_are_counted(
    a: Seq<AgentKeyView>,
    b: Seq<AgentKeyView>,
    k: AgentKeyView,
)
    ensures
        active_among(a + b) == active_among(a) + active_among(b),
        active_among(Seq::empty()) == 0,
        active_among(seq![k]) == if k.revoked {
            0nat
        } else {
            1
        },
        active_among(a) <= a.len(),
{
    let p = |k: AgentKeyView| !k.revoked;
    let none = Seq::<AgentKeyView>::empty();
    Seq::filter_distributes_over_add(a, b, p);
    assert(none.filter(p) =~= none) by {
        reveal(Seq::filter);
    }
    none.lemma_filter_push(k, p);
    assert(none.push(k) =~= seq![k]);
    a.lemma_filter_len(p);
}

/// A table of keys has a line for each, in order, which starts with the agent
/// and tells whether the key is active, when it was made and last used, and
/// what it is for; and at its end it tells how many there are, and how many of
/// them are active and revoked.
pub proof fn law_every_key_has_its_line(keys: Seq<AgentKeyView>, i: int)
    requires
        0 <= i < keys.len(),
        showable(keys[i]),
    ensures
        agent_table(keys).len() == keys.len() + 4,
        ({
            let line = agent_table(keys)[i + 2];
            &&& text::begins(line, keys[i].id)
            &&& keys[i].revoked ==> text::holds(line, "REVOKED"@)
            &&& !keys[i].revoked ==> text::holds(line, "active"@)
            &&& text::holds(line, minute_text(keys[i].created_at))
            &&& keys[i].last_used matches Some(t) ==> text::holds(line, minute_text(t))
            &&& keys[i].last_used is None ==> text::holds(line, "never"@)
            &&& text::byte_len(keys[i].description) <= 30 ==> text::holds(line, keys[i].description)
            &&& text::holds(line, prefix_cell(keys[i].key)->0)
        }),
        agent_table(keys).last() == text::digits(keys.len()) + " key(s) ("@ + text::digits(
            active_among(keys),
        ) + " active, "@ + text::digits((keys.len() - active_among(keys)) as nat) + " revoked)"@,
        minute_text(keys[i].created_at) == clock::calendar_text(
            keys[i].created_at.0,
            keys[i].created_at.1,
            "%Y-%m-%d %H:%M"@,
        ),
{
    let w = agent_widths(keys);
    let cells = agent_cells(keys[i]);
    let line = cells_line(cells, w, ' ');
    assert(agent_table(keys)[i + 2] == line);
    law_lines_hold_their_cells(cells, w, ' ', 1);
    law_lines_hold_their_cells(cells, w, ' ', 2);
    law_lines_hold_their_cells(cells, w, ' ', 3);
    law_lines_hold_their_cells(cells, w, ' ', 4);
    law_lines_hold_their_cells(cells, w, ' ', 5);
    lemma_line_begins(cells, w, ' ');
}

/// The rule under a head is made of dashes, as many as each column is wide,
/// two blanks apart.
pub proof fn law_rules_go_column_by_column(width: usize, widths: Seq<usize>)
    ensures
        rule_line(seq![width]) == text::repeated('-', width as int),
        widths.len() > 0 ==> rule_line(seq![width] + widths) == text::repeated('-', width as int)
            + "  "@ + rule_line(widths),
{
    reveal_strlit("");
    let rest = Seq::new(widths.len(), |i: int| ""@);
    law_lines_go_cell_by_cell(""@, rest, width, widths, '-');
    let all = seq![width] + widths;
    assert(Seq::new(all.len(), |i: int| ""@) =~= seq![""@] + rest);
    assert(Seq::new(1, |i: int| ""@) =~= seq![""@]);
    assert(text::padded(""@, width as int, '-') =~= text::repeated('-', width as int));
}

/// The columns of a table of keys: that of the agents is as wide as the widest
/// of them, and at least as its head; the rule under the descriptions is as wide
/// as the widest of them, but at least as its head and at most 30.
pub proof fn law_columns_of_keys(
    keys: Seq<AgentKeyView>,
    ids: Seq<Seq<char>>,
    descriptions: Seq<Seq<char>>,
    i: int,
)
    requires
        ids.len() == keys.len(),
        descriptions.len() == keys.len(),
        forall|j: int| 0 <= j < keys.len() ==> #[trigger] ids[j] == keys[j].id,
        forall|j: int| 0 <= j < keys.len() ==> #[trigger] descriptions[j] == keys[j].description,
    ensures
        agent_widths(keys).len() == 6,
        agent_widths(keys)[0] == widest(ids, "AGENT ID"@.len() as int) as usize,
        agent_widths(keys)[1] == "KEY PREFIX"@.len(),
        agent_widths(keys)[5] == 0,
        "DESCRIPTION"@.len() <= description_rule(keys) <= 30,
        0 <= i < keys.len() && text::byte_len(keys[i].description) <= 30 ==> description_rule(keys)
            >= text::byte_len(keys[i].description),
        0 <= i < keys.len() && text::byte_len(keys[i].description) > 30 ==> description_rule(keys)
            == 30,
        description_rule(keys) == "DESCRIPTION"@.len() || description_rule(keys) == 30
            || exists|j: int|
            0 <= j < keys.len() && text::byte_len(#[trigger] descriptions[j]) == description_rule(
                keys,
            ),
{
    reveal_strlit("AGENT ID");
    reveal_strlit("KEY PREFIX");
    reveal_strlit("DESCRIPTION");
    assert("DESCRIPTION"@.len() == 11 && "KEY PREFIX"@.len() == 10 && "AGENT ID"@.len() == 8);
    assert(ids =~= keys.map_values(|k: AgentKeyView| k.id));
    assert(descriptions =~= keys.map_values(|k: AgentKeyView| k.description));
    law_columns_are_no_wider_than_they_must_be(descriptions, 11);
    if keys.len() > 0 {
        law_columns_hold_their_cells(descriptions, 11, 0);
    }
    if 0 <= i < keys.len() {
        law_columns_hold_their_cells(descriptions, 11, i);
    }
}

} // verus!
