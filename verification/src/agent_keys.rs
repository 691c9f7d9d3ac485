//! Agent keys: bearer tokens with restricted access, their scopes, and the
//! store that holds them.

use crate::assoc;
use crate::clock;
use crate::clock::Timestamp;
use crate::names;
use crate::primitives;
use crate::text;
use vstd::prelude::*;

verus! {

/// The key of one agent.
#[derive(Debug)]
pub struct AgentKey {
    /// Identifier of the agent.
    pub id: String,
    /// The token: 64 hexadecimal digits.
    pub key: String,
    /// When the key was generated.
    pub created_at: Timestamp,
    /// When the key was last used.
    pub last_used: Option<Timestamp>,
    /// Whether the key can no longer authenticate.
    pub revoked: bool,
    /// What the key is for.
    pub description: String,
    /// Which secrets the agent may read in plain text. Empty means metadata
    /// only.
    pub scopes: Vec<String>,
}

/// An agent key as contracts see it.
#[verifier::ext_equal]
pub struct AgentKeyView {
    pub id: Seq<char>,
    pub key: Seq<char>,
    pub created_at: (i64, u32),
    pub last_used: Option<(i64, u32)>,
    pub revoked: bool,
    pub description: Seq<char>,
    pub scopes: Seq<Seq<char>>,
}

impl View for AgentKey {
    type V = AgentKeyView;

    open spec fn view(&self) -> AgentKeyView {
        AgentKeyView {
            id: self.id@,
            key: self.key@,
            created_at: self.created_at@,
            last_used: clock::timestamp_option(self.last_used),
            revoked: self.revoked,
            description: self.description@,
            scopes: text::texts(self.scopes@),
        }
    }
}

/// The agents and their keys.
pub struct AgentKeyStore {
    entries: Vec<(String, AgentKey)>,
}

/// What a pair of the store stands for.
pub open spec fn entry_view(e: (String, AgentKey)) -> (Seq<char>, AgentKeyView) {
    (e.0@, e.1@)
}

/// What the pairs of the store stand for.
pub open spec fn entry_views(e: Seq<(String, AgentKey)>) -> Seq<(Seq<char>, AgentKeyView)> {
    e.map_values(|p: (String, AgentKey)| entry_view(p))
}

impl View for AgentKeyStore {
    type V = Map<Seq<char>, AgentKeyView>;

    closed spec fn view(&self) -> Map<Seq<char>, AgentKeyView> {
        assoc::assoc(entry_views(self.entries@))
    }
}

/// What can go wrong with agent keys.
#[derive(Clone, Copy, Debug, PartialEq, Eq, Structural)]
pub enum AgentKeyErrorKind {
    /// A scope is not `*`, `service/*` or `service/key`.
    MalformedScope,
    /// The service of a scope has other characters than a name.
    ScopeService,
    /// The key of a scope has other characters than a name.
    ScopeKey,
    /// The agent has an active key.
    AlreadyActive,
    /// There is no such agent.
    NotFound,
    /// The key of the agent is revoked.
    AlreadyRevoked,
}

/// What went wrong, and with which scope or agent.
#[derive(Debug)]
pub struct AgentKeyError {
    pub kind: AgentKeyErrorKind,
    pub subject: String,
}

impl View for AgentKeyError {
    type V = (AgentKeyErrorKind, Seq<char>);

    open spec fn view(&self) -> (AgentKeyErrorKind, Seq<char>) {
        (self.kind, self.subject@)
    }
}

// ---------------------------------------------------------------------------
// Comparison
// ---------------------------------------------------------------------------

/// Compares two byte strings in a time that depends on their lengths only.
pub fn constant_time_eq(a: &[u8], b: &[u8]) -> (r: bool)
    ensures
        r == (a@ == b@),
{
    if a.len() != b.len() {
        return false;
    }
    let mut diff: u8 = 0;
    let mut i: usize = 0;
    while i < a.len()
        invariant
            a@.len() == b@.len(),
            i <= a@.len(),
            diff == 0 <==> (forall|j: int| 0 <= j < i ==> a@[j] == b@[j]),
        decreases a@.len() - i,
    {
        let x: u8 = a[i];
        let y: u8 = b[i];
        let old_diff: u8 = diff;
        diff = diff | (x ^ y);
        assert((old_diff | (x ^ y)) == 0 <==> old_diff == 0 && x == y) by (bit_vector);
        i += 1;
    }
    proof {
        if diff == 0 {
            assert(a@ =~= b@);
        }
    }
    diff == 0
}

// ---------------------------------------------------------------------------
// Scopes
// ---------------------------------------------------------------------------

/// What is wrong with the text of a scope, if anything is.
pub open spec fn scope_problem(scope: Seq<char>) -> Option<AgentKeyErrorKind> {
    let parts = text::split(scope, '/', 2);
    if scope == "*"@ {
        None
    } else if parts.len() != 2 || parts[0].len() == 0 || parts[1].len() == 0 {
        Some(AgentKeyErrorKind::MalformedScope)
    } else if !names::name_chars(parts[0]) {
        Some(AgentKeyErrorKind::ScopeService)
    } else if parts[1] != "*"@ && !names::name_chars(parts[1]) {
        Some(AgentKeyErrorKind::ScopeKey)
    } else {
        None
    }
}

/// The first scope with something wrong.
pub open spec fn first_bad_scope(scopes: Seq<Seq<char>>) -> Option<(AgentKeyErrorKind, Seq<char>)>
    decreases scopes.len(),
{
    if scopes.len() == 0 {
        None
    } else {
        match scope_problem(scopes.first()) {
            Some(kind) => Some((kind, scopes.first())),
            None => first_bad_scope(scopes.drop_first()),
        }
    }
}

/// Whether one scope lets an agent read a secret.
pub open spec fn scope_grants(scope: Seq<char>, service: Seq<char>, key: Seq<char>) -> bool {
    ||| scope == service + "/"@ + key
    ||| scope == service + "/*"@
    ||| scope == "*"@
}

/// Whether an agent may read a secret in plain text: its key is active and one
/// of its scopes says so.
pub open spec fn scoped(
    m: Map<Seq<char>, AgentKeyView>,
    agent_id: Seq<char>,
    service: Seq<char>,
    key: Seq<char>,
) -> bool {
    &&& m.contains_key(agent_id)
    &&& !m[agent_id].revoked
    &&& exists|i: int|
        0 <= i < m[agent_id].scopes.len() && scope_grants(
            #[trigger] m[agent_id].scopes[i],
            service,
            key,
        )
}

/// Finds what is wrong with the text of a scope.
pub fn check_scope(scope: &str) -> (r: Option<AgentKeyErrorKind>)
    ensures
        r == scope_problem(scope@),
{
    if text::same(scope, "*") {
        return None;
    }
    let parts = text::split_limited(scope, '/', 2);
    let ghost views = text::split(scope@, '/', 2);
    assert(views.len() == parts@.len());
    if parts.len() != 2 {
        return Some(AgentKeyErrorKind::MalformedScope);
    }
    assert(views[0] == parts@[0]@ && views[1] == parts@[1]@);
    if parts[0].as_str().is_empty() || parts[1].as_str().is_empty() {
        return Some(AgentKeyErrorKind::MalformedScope);
    }
    if !names::is_name_text(parts[0].as_str()) {
        return Some(AgentKeyErrorKind::ScopeService);
    }
    if !text::same(parts[1].as_str(), "*") && !names::is_name_text(parts[1].as_str()) {
        return Some(AgentKeyErrorKind::ScopeKey);
    }
    None
}

/// Finds the first scope with something wrong.
pub fn check_scopes(scopes: &Vec<String>) -> (r: Option<AgentKeyError>)
    ensures
        r matches Some(e) ==> first_bad_scope(text::texts(scopes@)) == Some(e@),
        r is None ==> first_bad_scope(text::texts(scopes@)) is None,
{
    let ghost all = text::texts(scopes@);
    let mut i: usize = 0;
    assert(all.skip(0) == all);
    while i < scopes.len()
        invariant
            all == text::texts(scopes@),
            i <= scopes@.len(),
            first_bad_scope(all) == first_bad_scope(all.skip(i as int)),
        decreases scopes@.len() - i,
    {
        assert(all.skip(i as int).first() == scopes@[i as int]@);
        assert(all.skip(i as int).drop_first() == all.skip(i + 1));
        match check_scope(scopes[i].as_str()) {
            Some(kind) => {
                return Some(AgentKeyError { kind, subject: scopes[i].clone() });
            },
            None => {},
        }
        i += 1;
    }
    None
}

// ---------------------------------------------------------------------------
// The store
// ---------------------------------------------------------------------------

/// The record that generating a key makes.
pub open spec fn fresh_agent_key(
    agent_id: Seq<char>,
    key: Seq<char>,
    now: (i64, u32),
    description: Seq<char>,
    scopes: Seq<Seq<char>>,
) -> AgentKeyView {
    AgentKeyView {
        id: agent_id,
        key,
        created_at: now,
        last_used: None,
        revoked: false,
        description,
        scopes,
    }
}

/// A record after its key was used.
pub open spec fn touched(record: AgentKeyView, now: (i64, u32)) -> AgentKeyView {
    AgentKeyView { last_used: Some(now), ..record }
}

/// A record after its key was revoked.
pub open spec fn disabled(record: AgentKeyView) -> AgentKeyView {
    AgentKeyView { revoked: true, ..record }
}

/// Why no key can be generated for an agent, if none can.
pub open spec fn generate_refusal(
    m: Map<Seq<char>, AgentKeyView>,
    agent_id: Seq<char>,
    scopes: Seq<Seq<char>>,
) -> Option<(AgentKeyErrorKind, Seq<char>)> {
    match first_bad_scope(scopes) {
        Some(e) => Some(e),
        None => if m.contains_key(agent_id) && !m[agent_id].revoked {
            Some((AgentKeyErrorKind::AlreadyActive, agent_id))
        } else {
            None
        },
    }
}

/// Why a key cannot be revoked, if it cannot.
pub open spec fn revoke_refusal(m: Map<Seq<char>, AgentKeyView>, agent_id: Seq<char>) -> Option<
    (AgentKeyErrorKind, Seq<char>),
> {
    if !m.contains_key(agent_id) {
        Some((AgentKeyErrorKind::NotFound, agent_id))
    } else if m[agent_id].revoked {
        Some((AgentKeyErrorKind::AlreadyRevoked, agent_id))
    } else {
        None
    }
}

/// Whether a token is the active key of an agent.
pub open spec fn admits(
    m: Map<Seq<char>, AgentKeyView>,
    token: Seq<char>,
    agent_id: Seq<char>,
) -> bool {
    m.contains_key(agent_id) && !m[agent_id].revoked && m[agent_id].key == token
}

/// The agents that a bearer token may be taken for: those whose active key is
/// the token without the white space at its ends. An empty token is nobody's.
pub open spec fn validated(
    m: Map<Seq<char>, AgentKeyView>,
    bearer_token: Seq<char>,
    r: Option<Seq<char>>,
) -> bool {
    let token = text::trimmed(bearer_token);
    match r {
        Some(id) => token.len() > 0 && admits(m, token, id),
        None => token.len() == 0 || forall|id: Seq<char>| !#[trigger] admits(m, token, id),
    }
}

/// The agents whose keys are active.
pub open spec fn active_ids(m: Map<Seq<char>, AgentKeyView>) -> Set<Seq<char>> {
    m.dom().filter(|id: Seq<char>| !m[id].revoked)
}

/// A listing of all records by their time of creation: `ids` names every agent
/// once, and the records stand in its order, none before an older one.
pub open spec fn listed(
    m: Map<Seq<char>, AgentKeyView>,
    ids: Seq<Seq<char>>,
    records: Seq<AgentKeyView>,
) -> bool {
    &&& ids.no_duplicates()
    &&& ids.to_set() == m.dom()
    &&& records.len() == ids.len()
    &&& forall|i: int| 0 <= i < ids.len() ==> (#[trigger] records[i]) == m[ids[i]]
    &&& forall|i: int, j: int|
        0 <= i < j < records.len() ==> clock::not_later(
            (#[trigger] records[i]).created_at,
            (#[trigger] records[j]).created_at,
        )
}

fn position(entries: &Vec<(String, AgentKey)>, agent_id: &str) -> (r: Option<usize>)
    ensures
        r matches Some(i) ==> i < entries@.len() && entries@[i as int].0@ == agent_id@,
        r is None ==> forall|i: int|
            0 <= i < entries@.len() ==> (#[trigger] entries@[i]).0@ != agent_id@,
{
    let mut i: usize = 0;
    while i < entries.len()
        invariant
            i <= entries@.len(),
            forall|j: int| 0 <= j < i ==> (#[trigger] entries@[j]).0@ != agent_id@,
        decreases entries@.len() - i,
    {
        if text::same(entries[i].0.as_str(), agent_id) {
            return Some(i);
        }
        i += 1;
    }
    None
}

proof fn lemma_position_found(e: Seq<(String, AgentKey)>, i: int)
    requires
        assoc::distinct(entry_views(e)),
        0 <= i < e.len(),
    ensures
        assoc::assoc(entry_views(e)).contains_key(e[i].0@),
        assoc::assoc(entry_views(e))[e[i].0@] == e[i].1@,
{
    assoc::lemma_assoc_value(entry_views(e), i);
}

proof fn lemma_position_missing(e: Seq<(String, AgentKey)>, agent_id: Seq<char>)
    requires
        forall|i: int| 0 <= i < e.len() ==> (#[trigger] e[i]).0@ != agent_id,
    ensures
        !assoc::assoc(entry_views(e)).contains_key(agent_id),
{
    assoc::lemma_assoc_domain(entry_views(e), agent_id);
    assert forall|i: int| 0 <= i < e.len() implies (#[trigger] entry_views(e)[i]).0
        != agent_id by {
        assert(e[i].0@ != agent_id);
    }
}

fn put(entries: &mut Vec<(String, AgentKey)>, agent_id: String, record: AgentKey)
    requires
        assoc::distinct(entry_views(old(entries)@)),
    ensures
        assoc::distinct(entry_views(final(entries)@)),
        assoc::assoc(entry_views(final(entries)@)) == assoc::assoc(
            entry_views(old(entries)@),
        ).insert(agent_id@, record@),
{
    let ghost before = entry_views(entries@);
    match position(entries, agent_id.as_str()) {
        Some(i) => {
            proof {
                assoc::lemma_assoc_update(before, i as int, record@);
                assert(entry_views(entries@.update(i as int, (agent_id, record)))
                    =~= before.update(i as int, (before[i as int].0, record@)));
            }
            entries.set(i, (agent_id, record));
        },
        None => {
            proof {
                lemma_position_missing(entries@, agent_id@);
                assoc::lemma_assoc_push(before, agent_id@, record@);
                assert(entry_views(entries@.push((agent_id, record))) =~= before.push(
                    (agent_id@, record@),
                ));
            }
            entries.push((agent_id, record));
        },
    }
}

impl AgentKeyStore {
    #[verifier::type_invariant]
    closed spec fn ids_distinct(self) -> bool {
        assoc::distinct(entry_views(self.entries@))
    }

    /// A store without agents.
    pub fn new() -> (r: AgentKeyStore)
        ensures
            r@ == Map::<Seq<char>, AgentKeyView>::empty(),
    {
        AgentKeyStore { entries: Vec::new() }
    }

    /// The store that holds the given pairs of agent and record; of two pairs
    /// for one agent the later one counts.
    pub fn from_entries(entries: Vec<(String, AgentKey)>) -> (r: AgentKeyStore)
        ensures
            r@ == assoc::assoc(entry_views(entries@)),
    {
        let ghost pairs = entries@;
        let ghost all = entry_views(pairs);
        let mut out: Vec<(String, AgentKey)> = Vec::new();
        assert(all.take(0) =~= Seq::<(Seq<char>, AgentKeyView)>::empty());
        assert(entry_views(out@) =~= Seq::<(Seq<char>, AgentKeyView)>::empty());
        for p in it: entries
            invariant
                it.seq() == pairs,
                all == entry_views(pairs),
                assoc::distinct(entry_views(out@)),
                assoc::assoc(entry_views(out@)) == assoc::assoc(all.take(it.index())),
        {
            proof {
                let n = it.index();
                assert(all[n] == entry_view(p));
                assert(all.take(n + 1).drop_last() =~= all.take(n));
                assert(all.take(n + 1).last() == all[n]);
            }
            put(&mut out, p.0, p.1);
        }
        assert(all.take(pairs.len() as int) =~= all);
        AgentKeyStore { entries: out }
    }

    /// The pairs of agent and record, each agent once.
    pub fn entries(&self) -> (r: &Vec<(String, AgentKey)>)
        ensures
            assoc::distinct(entry_views(r@)),
            assoc::assoc(entry_views(r@)) == self@,
    {
        proof {
            use_type_invariant(self);
        }
        &self.entries
    }

    /// Generates a key for an agent out of 32 random bytes, at a given time.
    /// The text of the key is returned, and shown to the user this once.
    pub fn generate_with(
        &mut self,
        agent_id: &str,
        description: &str,
        scopes: Vec<String>,
        bytes: &[u8; 32],
        now: Timestamp,
    ) -> (r: Result<String, AgentKeyError>)
        ensures
            r is Ok <==> generate_refusal(old(self)@, agent_id@, text::texts(scopes@)) is None,
            r matches Ok(k) ==> k@ == primitives::hex_text(bytes@),
            r is Ok ==> final(self)@ == old(self)@.insert(
                agent_id@,
                fresh_agent_key(
                    agent_id@,
                    primitives::hex_text(bytes@),
                    now@,
                    description@,
                    text::texts(scopes@),
                ),
            ),
            r matches Err(e) ==> generate_refusal(old(self)@, agent_id@, text::texts(scopes@))
                == Some(e@),
            r is Err ==> final(self)@ == old(self)@,
    {
        proof {
            use_type_invariant(&*self);
        }
        match check_scopes(&scopes) {
            Some(e) => {
                return Err(e);
            },
            None => {},
        }
        match position(&self.entries, agent_id) {
            Some(i) => {
                proof {
                    lemma_position_found(self.entries@, i as int);
                }
                if !self.entries[i].1.revoked {
                    return Err(
                        AgentKeyError {
                            kind: AgentKeyErrorKind::AlreadyActive,
                            subject: agent_id.to_owned(),
                        },
                    );
                }
            },
            None => {
                proof {
                    lemma_position_missing(self.entries@, agent_id@);
                }
            },
        }
        let key = primitives::hex_encode(bytes.as_slice());
        let record = AgentKey {
            id: agent_id.to_owned(),
            key: key.clone(),
            created_at: now,
            last_used: None,
            revoked: false,
            description: description.to_owned(),
            scopes,
        };
        let mut entries: Vec<(String, AgentKey)> = Vec::new();
        std::mem::swap(&mut entries, &mut self.entries);
        put(&mut entries, agent_id.to_owned(), record);
        self.entries = entries;
        Ok(key)
    }

    /// Generates a key for an agent out of fresh random bytes. The text of the
    /// key, 64 hexadecimal digits, is returned, and shown to the user this
    /// once.
    pub fn generate(&mut self, agent_id: &str, description: &str, scopes: Vec<String>) -> (r: Result<
        String,
        AgentKeyError,
    >)
        ensures
            r is Ok <==> generate_refusal(old(self)@, agent_id@, text::texts(scopes@)) is None,
            r matches Ok(k) ==> exists|bytes: Seq<u8>, now: (i64, u32)|
                bytes.len() == 32 && k@ == primitives::hex_text(bytes) && final(self)@ == old(
                    self,
                )@.insert(
                    agent_id@,
                    #[trigger] fresh_agent_key(
                        agent_id@,
                        primitives::hex_text(bytes),
                        now,
                        description@,
                        text::texts(scopes@),
                    ),
                ),
            r matches Err(e) ==> generate_refusal(old(self)@, agent_id@, text::texts(scopes@))
                == Some(e@),
            r is Err ==> final(self)@ == old(self)@,
    {
        let bytes: [u8; 32] = primitives::thread_random::<32>();
        let now = Timestamp::now();
        let ghost record = fresh_agent_key(
            agent_id@,
            primitives::hex_text(bytes@),
            now@,
            description@,
            text::texts(scopes@),
        );
        let r = self.generate_with(agent_id, description, scopes, &bytes, now);
        assert(bytes@.len() == 32);
        r
    }

    /// Finds the agent whose active key a bearer token is, by constant-time
    /// comparison with each.
    pub fn validate(&self, bearer_token: &str) -> (r: Option<String>)
        ensures
            validated(self@, bearer_token@, text::text_option(r)),
    {
        proof {
            use_type_invariant(self);
        }
        let token = text::trim(bearer_token);
        if token.as_str().is_empty() {
            return None;
        }
        let mut i: usize = 0;
        while i < self.entries.len()
            invariant
                token@ == text::trimmed(bearer_token@),
                token@.len() > 0,
                assoc::distinct(entry_views(self.entries@)),
                i <= self.entries@.len(),
                forall|j: int|
                    0 <= j < i ==> (#[trigger] self.entries@[j]).1.revoked
                        || self.entries@[j].1.key@ != token@,
            decreases self.entries@.len() - i,
        {
            if !self.entries[i].1.revoked {
                let matched = constant_time_eq(
                    token.as_str().as_bytes(),
                    self.entries[i].1.key.as_str().as_bytes(),
                );
                if matched {
                    proof {
                        text::lemma_encoding_is_injective(
                            token@,
                            self.entries@[i as int].1.key@,
                        );
                        lemma_position_found(self.entries@, i as int);
                    }
                    return Some(self.entries[i].0.clone());
                }
            }
            i += 1;
        }
        proof {
            assert forall|id: Seq<char>| !#[trigger] admits(self@, token@, id) by {
                let views = entry_views(self.entries@);
                assoc::lemma_assoc_domain(views, id);
                if admits(self@, token@, id) {
                    let j = choose|j: int| 0 <= j < views.len() && (#[trigger] views[j]).0 == id;
                    lemma_position_found(self.entries@, j);
                    assert(self.entries@[j].1.revoked || self.entries@[j].1.key@ != token@);
                }
            }
        }
        None
    }

    /// Records that the key of an agent was used, at a given time. Says
    /// whether there is such an agent.
    pub fn touch_at(&mut self, agent_id: &str, now: Timestamp) -> (r: bool)
        ensures
            r == old(self)@.contains_key(agent_id@),
            r ==> final(self)@ == old(self)@.insert(
                agent_id@,
                touched(old(self)@[agent_id@], now@),
            ),
            !r ==> final(self)@ == old(self)@,
    {
        proof {
            use_type_invariant(&*self);
        }
        match position(&self.entries, agent_id) {
            Some(i) => {
                let ghost before = self.entries@;
                let mut entries: Vec<(String, AgentKey)> = Vec::new();
                std::mem::swap(&mut entries, &mut self.entries);
                let (id, mut record) = entries.remove(i);
                record.last_used = Some(now);
                let ghost pair = (id, record);
                entries.insert(i, (id, record));
                proof {
                    lemma_position_found(before, i as int);
                    assoc::lemma_assoc_update(entry_views(before), i as int, pair.1@);
                    assert(entry_views(entries@) =~= entry_views(before).update(
                        i as int,
                        (agent_id@, pair.1@),
                    ));
                }
                self.entries = entries;
                true
            },
            None => {
                proof {
                    lemma_position_missing(self.entries@, agent_id@);
                }
                false
            },
        }
    }

    /// Records that the key of an agent was used now. Says whether there is
    /// such an agent.
    pub fn touch(&mut self, agent_id: &str) -> (r: bool)
        ensures
            r == old(self)@.contains_key(agent_id@),
            r ==> exists|now: (i64, u32)|
                final(self)@ == old(self)@.insert(
                    agent_id@,
                    #[trigger] touched(old(self)@[agent_id@], now),
                ),
            !r ==> final(self)@ == old(self)@,
    {
        self.touch_at(agent_id, Timestamp::now())
    }

    /// Revokes the key of an agent. The record stays, but the key can no
    /// longer authenticate.
    pub fn revoke(&mut self, agent_id: &str) -> (r: Result<(), AgentKeyError>)
        ensures
            r is Ok <==> revoke_refusal(old(self)@, agent_id@) is None,
            r is Ok ==> final(self)@ == old(self)@.insert(
                agent_id@,
                disabled(old(self)@[agent_id@]),
            ),
            r matches Err(e) ==> revoke_refusal(old(self)@, agent_id@) == Some(e@),
            r is Err ==> final(self)@ == old(self)@,
    {
        proof {
            use_type_invariant(&*self);
        }
        match position(&self.entries, agent_id) {
            Some(i) => {
                let ghost before = self.entries@;
                proof {
                    lemma_position_found(before, i as int);
                }
                if self.entries[i].1.revoked {
                    return Err(
                        AgentKeyError {
                            kind: AgentKeyErrorKind::AlreadyRevoked,
                            subject: agent_id.to_owned(),
                        },
                    );
                }
                let mut entries: Vec<(String, AgentKey)> = Vec::new();
                std::mem::swap(&mut entries, &mut self.entries);
                let (id, mut record) = entries.remove(i);
                record.revoked = true;
                let ghost pair = (id, record);
                entries.insert(i, (id, record));
                proof {
                    assoc::lemma_assoc_update(entry_views(before), i as int, pair.1@);
                    assert(entry_views(entries@) =~= entry_views(before).update(
                        i as int,
                        (agent_id@, pair.1@),
                    ));
                }
                self.entries = entries;
                Ok(())
            },
            None => {
                proof {
                    lemma_position_missing(self.entries@, agent_id@);
                }
                Err(
                    AgentKeyError {
                        kind: AgentKeyErrorKind::NotFound,
                        subject: agent_id.to_owned(),
                    },
                )
            },
        }
    }

    /// Whether an agent may read a secret in plain text.
    pub fn has_scope(&self, agent_id: &str, service: &str, key: &str) -> (r: bool)
        ensures
            r == scoped(self@, agent_id@, service@, key@),
    {
        proof {
            use_type_invariant(self);
        }
        match position(&self.entries, agent_id) {
            Some(at) => {
                proof {
                    lemma_position_found(self.entries@, at as int);
                }
                let agent = &self.entries[at].1;
                if agent.revoked {
                    return false;
                }
                let mut exact = service.to_owned();
                exact.append("/");
                exact.append(key);
                let mut wildcard = service.to_owned();
                wildcard.append("/*");
                let mut i: usize = 0;
                while i < agent.scopes.len()
                    invariant
                        self@.contains_key(agent_id@),
                        self@[agent_id@] == agent@,
                        !agent.revoked,
                        exact@ == service@ + "/"@ + key@,
                        wildcard@ == service@ + "/*"@,
                        i <= agent.scopes@.len(),
                        forall|j: int|
                            0 <= j < i ==> !scope_grants(
                                #[trigger] agent@.scopes[j],
                                service@,
                                key@,
                            ),
                    decreases agent.scopes@.len() - i,
                {
                    let scope = agent.scopes[i].as_str();
                    assert(agent@.scopes[i as int] == scope@);
                    if text::same(scope, exact.as_str()) || text::same(scope, wildcard.as_str())
                        || text::same(scope, "*") {
                        assert(scope_grants(self@[agent_id@].scopes[i as int], service@, key@));
                        return true;
                    }
                    i += 1;
                }
                false
            },
            None => {
                proof {
                    lemma_position_missing(self.entries@, agent_id@);
                }
                false
            },
        }
    }

    /// All records, active and revoked, by their time of creation.
    pub fn list(&self) -> (r: Vec<&AgentKey>)
        ensures
            exists|ids: Seq<Seq<char>>| #[trigger] listed(self@, ids, record_views(r@)),
    {
        proof {
            use_type_invariant(self);
        }
        let order = by_creation(&self.entries);
        let ghost views = entry_views(self.entries@);
        let mut out: Vec<&AgentKey> = Vec::new();
        let mut i: usize = 0;
        while i < order.len()
            invariant
                i <= order@.len(),
                out@.len() == i,
                forall|j: int| 0 <= j < order@.len() ==> (#[trigger] order@[j]) < self.entries@.len(),
                forall|j: int| 0 <= j < i ==> *(#[trigger] out@[j]) == self.entries@[order@[j] as int].1,
            decreases order@.len() - i,
        {
            out.push(&self.entries[order[i]].1);
            i += 1;
        }
        proof {
            let ids = Seq::new(order@.len(), |j: int| views[order@[j] as int].0);
            assert(ids.no_duplicates()) by {
                assert forall|a: int, b: int|
                    0 <= a < ids.len() && 0 <= b < ids.len() && a != b implies ids[a] != ids[b] by {
                    let p = order@[a] as int;
                    let q = order@[b] as int;
                    assert(p != q);
                    if p < q {
                        assert(views[p].0 != views[q].0);
                    } else {
                        assert(views[q].0 != views[p].0);
                    }
                }
            }
            assert(ids.to_set() =~= self@.dom()) by {
                assert forall|id: Seq<char>| #[trigger] ids.to_set().contains(id)
                    <==> self@.dom().contains(id) by {
                    assoc::lemma_assoc_domain(views, id);
                    if ids.to_set().contains(id) {
                        let a = choose|a: int| 0 <= a < ids.len() && ids[a] == id;
                        assert(views[order@[a] as int].0 == id);
                    }
                    if self@.dom().contains(id) {
                        let k = choose|k: int| 0 <= k < views.len() && (#[trigger] views[k]).0 == id;
                        assert(order@.contains(k as usize));
                        let a = choose|a: int| 0 <= a < order@.len() && order@[a] == k as usize;
                        assert(ids[a] == id);
                    }
                }
            }
            assert forall|a: int| 0 <= a < ids.len() implies (#[trigger] record_views(out@)[a])
                == self@[ids[a]] by {
                lemma_position_found(self.entries@, order@[a] as int);
                assert(*out@[a] == self.entries@[order@[a] as int].1);
            }
            assert(listed(self@, ids, record_views(out@)));
        }
        out
    }

    /// The number of agents whose keys are active.
    pub fn active_count(&self) -> (r: usize)
        ensures
            active_ids(self@).finite(),
            r == active_ids(self@).len(),
    {
        proof {
            use_type_invariant(self);
        }
        let ghost views = entry_views(self.entries@);
        let mut n: usize = 0;
        let mut i: usize = 0;
        assert(views.take(0) =~= Seq::<(Seq<char>, AgentKeyView)>::empty());
        assert(active_ids(assoc::assoc(views.take(0))) =~= Set::<Seq<char>>::empty());
        while i < self.entries.len()
            invariant
                views == entry_views(self.entries@),
                assoc::distinct(views),
                n <= i <= self.entries@.len(),
                active_ids(assoc::assoc(views.take(i as int))).finite(),
                n == active_ids(assoc::assoc(views.take(i as int))).len(),
            decreases self.entries@.len() - i,
        {
            proof {
                let m = assoc::assoc(views.take(i as int));
                let k = views[i as int].0;
                let v = views[i as int].1;
                assert(views.take(i + 1).drop_last() =~= views.take(i as int));
                assert(assoc::assoc(views.take(i + 1)) == m.insert(k, v));
                assoc::lemma_assoc_domain(views.take(i as int), k);
                if m.contains_key(k) {
                    let j = choose|j: int|
                        0 <= j < i && (#[trigger] views.take(i as int)[j]).0 == k;
                    assert(views[j].0 == views[i as int].0);
                }
                if v.revoked {
                    assert(active_ids(m.insert(k, v)) =~= active_ids(m));
                } else {
                    assert(active_ids(m.insert(k, v)) =~= active_ids(m).insert(k));
                }
            }
            if !self.entries[i].1.revoked {
                n += 1;
            }
            i += 1;
        }
        assert(views.take(views.len() as int) =~= views);
        n
    }
}

/// The views of a sequence of records.
pub open spec fn record_views(v: Seq<&AgentKey>) -> Seq<AgentKeyView> {
    v.map_values(|k: &AgentKey| k@)
}

/// The places of all pairs, by the time of creation of their records.
fn by_creation(entries: &Vec<(String, AgentKey)>) -> (r: Vec<usize>)
    ensures
        r@.len() == entries@.len(),
        r@.no_duplicates(),
        forall|i: int| 0 <= i < r@.len() ==> (#[trigger] r@[i]) < entries@.len(),
        forall|k: usize| k < entries@.len() ==> #[trigger] r@.contains(k),
        forall|i: int, j: int|
            0 <= i < j < r@.len() ==> clock::not_later(
                entries@[#[trigger] r@[i] as int].1.created_at@,
                entries@[#[trigger] r@[j] as int].1.created_at@,
            ),
{
    let mut order: Vec<usize> = Vec::new();
    let mut i: usize = 0;
    while i < entries.len()
        invariant
            i <= entries@.len(),
            order@.len() == i,
            order@.no_duplicates(),
            forall|a: int| 0 <= a < order@.len() ==> (#[trigger] order@[a]) < i,
            forall|k: usize| k < i ==> #[trigger] order@.contains(k),
            forall|a: int, b: int|
                0 <= a < b < order@.len() ==> clock::not_later(
                    entries@[#[trigger] order@[a] as int].1.created_at@,
                    entries@[#[trigger] order@[b] as int].1.created_at@,
                ),
        decreases entries@.len() - i,
    {
        let mut at: usize = order.len();
        while at > 0 && !entries[order[at - 1]].1.created_at.at_or_before(
            &entries[i].1.created_at,
        )
            invariant
                i < entries@.len(),
                order@.len() == i,
                at <= order@.len(),
                forall|a: int| 0 <= a < order@.len() ==> (#[trigger] order@[a]) < i,
                forall|a: int|
                    at <= a < order@.len() ==> !clock::not_later(
                        entries@[#[trigger] order@[a] as int].1.created_at@,
                        entries@[i as int].1.created_at@,
                    ),
            decreases at,
        {
            at -= 1;
        }
        let ghost before = order@;
        order.insert(at, i);
        proof {
            let x = entries@[i as int].1.created_at@;
            assert forall|k: usize| k < i + 1 implies #[trigger] order@.contains(k) by {
                if k < i {
                    assert(before.contains(k));
                    let a = choose|a: int| 0 <= a < before.len() && before[a] == k;
                    if a < at {
                        assert(order@[a] == k);
                    } else {
                        assert(order@[a + 1] == k);
                    }
                } else {
                    assert(order@[at as int] == k);
                }
            }
            assert forall|a: int, b: int| 0 <= a < b < order@.len() implies clock::not_later(
                entries@[#[trigger] order@[a] as int].1.created_at@,
                entries@[#[trigger] order@[b] as int].1.created_at@,
            ) by {
                let p = if a < at {
                    a
                } else {
                    a - 1
                };
                let q = if b < at {
                    b
                } else {
                    b - 1
                };
                if a == at {
                    assert(order@[b] == before[q]);
                    assert(!clock::not_later(entries@[before[q] as int].1.created_at@, x));
                } else if b == at {
                    assert(order@[a] == before[p]);
                    if p < at - 1 {
                        assert(clock::not_later(
                            entries@[before[p] as int].1.created_at@,
                            entries@[before[at - 1] as int].1.created_at@,
                        ));
                    }
                } else {
                    assert(order@[a] == before[p]);
                    assert(order@[b] == before[q]);
                }
            }
        }
        i += 1;
    }
    order
}

// ---------------------------------------------------------------------------
// Texts
// ---------------------------------------------------------------------------

/// What stands before the subject in the text of an error.
pub open spec fn error_head(kind: AgentKeyErrorKind) -> Seq<char> {
    match kind {
        AgentKeyErrorKind::MalformedScope => "invalid scope '"@,
        AgentKeyErrorKind::ScopeService => "invalid scope '"@,
        AgentKeyErrorKind::ScopeKey => "invalid scope '"@,
        AgentKeyErrorKind::AlreadyActive => "agent key '"@,
        AgentKeyErrorKind::NotFound => "agent key '"@,
        AgentKeyErrorKind::AlreadyRevoked => "agent key '"@,
    }
}

/// What stands after the subject in the text of an error.
pub open spec fn error_tail(kind: AgentKeyErrorKind) -> Seq<char> {
    match kind {
        AgentKeyErrorKind::MalformedScope => "': must be '*', 'service/*', or 'service/key'"@,
        AgentKeyErrorKind::ScopeService => "': service name contains invalid characters"@,
        AgentKeyErrorKind::ScopeKey => "': key name contains invalid characters"@,
        AgentKeyErrorKind::AlreadyActive => "' already exists and is active. Revoke it first."@,
        AgentKeyErrorKind::NotFound => "' not found"@,
        AgentKeyErrorKind::AlreadyRevoked => "' is already revoked"@,
    }
}

/// The text of an error.
pub open spec fn error_text(e: (AgentKeyErrorKind, Seq<char>)) -> Seq<char> {
    error_head(e.0) + e.1 + error_tail(e.0)
}

impl AgentKeyError {
    /// The text of the error.
    pub fn message(&self) -> (r: String)
        ensures
            r@ == error_text(self@),
    {
        let head = match self.kind {
            AgentKeyErrorKind::MalformedScope => "invalid scope '",
            AgentKeyErrorKind::ScopeService => "invalid scope '",
            AgentKeyErrorKind::ScopeKey => "invalid scope '",
            AgentKeyErrorKind::AlreadyActive => "agent key '",
            AgentKeyErrorKind::NotFound => "agent key '",
            AgentKeyErrorKind::AlreadyRevoked => "agent key '",
        };
        let tail = match self.kind {
            AgentKeyErrorKind::MalformedScope => "': must be '*', 'service/*', or 'service/key'",
            AgentKeyErrorKind::ScopeService => "': service name contains invalid characters",
            AgentKeyErrorKind::ScopeKey => "': key name contains invalid characters",
            AgentKeyErrorKind::AlreadyActive => "' already exists and is active. Revoke it first.",
            AgentKeyErrorKind::NotFound => "' not found",
            AgentKeyErrorKind::AlreadyRevoked => "' is already revoked",
        };
        text::concat3(head, self.subject.as_str(), tail)
    }
}

/// The line of the audit log for something an agent did.
pub fn audit_line(time: &Timestamp, agent_id: &str, action: &str, detail: &str) -> (r: String)
    ensures
        r@ == clock::rfc3339_text(time@.0, time@.1) + " agent="@ + agent_id@ + " action="@ + action@
            + " "@ + detail@ + "\n"@,
{
    let mut line = time.to_rfc3339();
    line.append(" agent=");
    line.append(agent_id);
    line.append(" action=");
    line.append(action);
    line.append(" ");
    line.append(detail);
    line.append("\n");
    line
}

// ---------------------------------------------------------------------------
// Laws
// ---------------------------------------------------------------------------

/// A key that was just generated authenticates: whatever agent a validation of
/// its text names, it names one, and the agent it was made for is admitted.
pub proof fn law_generated_key_authenticates(
    m: Map<Seq<char>, AgentKeyView>,
    agent_id: Seq<char>,
    bytes: Seq<u8>,
    now: (i64, u32),
    description: Seq<char>,
    scopes: Seq<Seq<char>>,
    r: Option<Seq<char>>,
)
    requires
        bytes.len() == 32,
        validated(
            m.insert(
                agent_id,
                fresh_agent_key(agent_id, primitives::hex_text(bytes), now, description, scopes),
            ),
            primitives::hex_text(bytes),
            r,
        ),
    ensures
        r is Some,
        admits(
            m.insert(
                agent_id,
                fresh_agent_key(agent_id, primitives::hex_text(bytes), now, description, scopes),
            ),
            text::trimmed(primitives::hex_text(bytes)),
            agent_id,
        ),
{
    let key = primitives::hex_text(bytes);
    primitives::lemma_hex_digit(bytes[0] / 16);
    primitives::lemma_hex_digit(bytes[31] % 16);
    assert(key.first() == primitives::hex_digit((bytes[0] / 16) as int));
    assert(key.last() == primitives::hex_digit((bytes[31] % 16) as int));
    text::lemma_trimmed_ends(key);
    let n = m.insert(agent_id, fresh_agent_key(agent_id, key, now, description, scopes));
    assert(admits(n, key, agent_id));
}

/// A revoked key does not authenticate its agent, whatever the token.
pub proof fn law_revoked_agent_is_never_admitted(
    m: Map<Seq<char>, AgentKeyView>,
    agent_id: Seq<char>,
    bearer_token: Seq<char>,
    r: Option<Seq<char>>,
)
    requires
        m.contains_key(agent_id),
        validated(m.insert(agent_id, disabled(m[agent_id])), bearer_token, r),
    ensures
        r != Some(agent_id),
{
}

/// Revoking one key leaves who else is admitted, and to what, as it was.
pub proof fn law_revoking_keeps_other_agents(
    m: Map<Seq<char>, AgentKeyView>,
    agent_id: Seq<char>,
    other: Seq<char>,
    token: Seq<char>,
    service: Seq<char>,
    key: Seq<char>,
)
    requires
        m.contains_key(agent_id),
        other != agent_id,
    ensures
        admits(m.insert(agent_id, disabled(m[agent_id])), token, other) == admits(m, token, other),
        scoped(m.insert(agent_id, disabled(m[agent_id])), other, service, key) == scoped(
            m,
            other,
            service,
            key,
        ),
{
}

/// A revoked agent may read nothing in plain text.
pub proof fn law_revoked_agent_has_no_scope(
    m: Map<Seq<char>, AgentKeyView>,
    agent_id: Seq<char>,
    service: Seq<char>,
    key: Seq<char>,
)
    requires
        m.contains_key(agent_id),
    ensures
        !scoped(m.insert(agent_id, disabled(m[agent_id])), agent_id, service, key),
{
}

/// After its key was revoked, an agent can get a new one.
pub proof fn law_revoked_agent_can_get_a_new_key(
    m: Map<Seq<char>, AgentKeyView>,
    agent_id: Seq<char>,
    scopes: Seq<Seq<char>>,
)
    requires
        m.contains_key(agent_id),
        first_bad_scope(scopes) is None,
    ensures
        generate_refusal(m.insert(agent_id, disabled(m[agent_id])), agent_id, scopes) is None,
{
}

/// Using a key changes neither who is admitted nor who may read what.
pub proof fn law_touching_keeps_access(
    m: Map<Seq<char>, AgentKeyView>,
    touched_id: Seq<char>,
    now: (i64, u32),
    agent_id: Seq<char>,
    token: Seq<char>,
    service: Seq<char>,
    key: Seq<char>,
)
    requires
        m.contains_key(touched_id),
    ensures
        admits(m.insert(touched_id, touched(m[touched_id], now)), token, agent_id) == admits(
            m,
            token,
            agent_id,
        ),
        scoped(m.insert(touched_id, touched(m[touched_id], now)), agent_id, service, key)
            == scoped(m, agent_id, service, key),
{
    let n = m.insert(touched_id, touched(m[touched_id], now));
    if m.contains_key(agent_id) {
        assert(n[agent_id].scopes == m[agent_id].scopes);
    }
}

/// An agent without scopes may read nothing in plain text.
pub proof fn law_no_scopes_mean_metadata_only(
    m: Map<Seq<char>, AgentKeyView>,
    agent_id: Seq<char>,
    service: Seq<char>,
    key: Seq<char>,
)
    requires
        m.contains_key(agent_id),
        m[agent_id].scopes.len() == 0,
    ensures
        !scoped(m, agent_id, service, key),
{
}

/// The scope `*` of an active key opens every secret.
pub proof fn law_star_opens_everything(
    m: Map<Seq<char>, AgentKeyView>,
    agent_id: Seq<char>,
    service: Seq<char>,
    key: Seq<char>,
)
    requires
        m.contains_key(agent_id),
        !m[agent_id].revoked,
        m[agent_id].scopes.contains("*"@),
    ensures
        scoped(m, agent_id, service, key),
{
    let i = choose|i: int| 0 <= i < m[agent_id].scopes.len() && m[agent_id].scopes[i] == "*"@;
    assert(scope_grants(m[agent_id].scopes[i], service, key));
}

/// The scope `service/*` opens, among secrets with proper names, those of the
/// service and no others.
pub proof fn law_service_scope_opens_that_service(
    owner: Seq<char>,
    service: Seq<char>,
    key: Seq<char>,
)
    requires
        names::name_chars(owner),
        names::name_chars(service),
        names::name_chars(key),
        owner.len() > 0,
    ensures
        scope_grants(owner + "/*"@, service, key) <==> service == owner,
{
    reveal_strlit("/*");
    reveal_strlit("/");
    reveal_strlit("*");
    let scope = owner + "/*"@;
    assert(scope[owner.len() as int] == '/');
    if scope == service + "/"@ + key {
        let other = service + "/"@ + key;
        assert(other[other.len() - 1] == scope[scope.len() - 1]);
        assert(scope[scope.len() - 1] == '*');
        if key.len() > 0 {
            assert(other[other.len() - 1] == key[key.len() - 1]);
        } else {
            assert(other[other.len() - 1] == '/');
        }
    }
    if scope == service + "/*"@ {
        lemma_same_head(owner, service, "/*"@, "/*"@);
    }
    if scope == "*"@ {
        assert(scope.len() >= 3);
    }
}

/// The scope `service/key` opens, among secrets with proper names, that one
/// and no other.
pub proof fn law_exact_scope_opens_one_secret(
    owner: Seq<char>,
    name: Seq<char>,
    service: Seq<char>,
    key: Seq<char>,
)
    requires
        names::name_chars(owner),
        names::name_chars(name),
        names::name_chars(service),
        names::name_chars(key),
        owner.len() > 0,
    ensures
        scope_grants(owner + "/"@ + name, service, key) <==> service == owner && key == name,
{
    reveal_strlit("/*");
    reveal_strlit("/");
    reveal_strlit("*");
    let scope = owner + "/"@ + name;
    assert(scope =~= owner + ("/"@ + name));
    assert(service + "/"@ + key =~= service + ("/"@ + key));
    if scope == service + "/"@ + key {
        lemma_same_head(owner, service, "/"@ + name, "/"@ + key);
        assert(name =~= scope.skip(owner.len() as int + 1));
        assert(key =~= (service + "/"@ + key).skip(service.len() as int + 1));
    }
    if scope == service + "/*"@ {
        lemma_same_head(owner, service, "/"@ + name, "/*"@);
        assert(scope.len() == service.len() + 2);
        assert(scope[scope.len() - 1] == '*');
        assert(scope[scope.len() - 1] == name[name.len() - 1]);
    }
    if scope == "*"@ {
        assert(scope.len() >= 2);
    }
}

/// Two texts whose names end where their first slashes stand have the same
/// name.
proof fn lemma_same_head(a: Seq<char>, b: Seq<char>, x: Seq<char>, y: Seq<char>)
    requires
        names::name_chars(a),
        names::name_chars(b),
        x.len() > 0,
        y.len() > 0,
        x[0] == '/',
        y[0] == '/',
        a + x == b + y,
    ensures
        a == b,
{
    let s = a + x;
    let t = b + y;
    assert(s[a.len() as int] == '/');
    assert(t[b.len() as int] == '/');
    if a.len() < b.len() {
        assert(t[a.len() as int] == b[a.len() as int]);
        assert(names::name_char(b[a.len() as int]));
    }
    if b.len() < a.len() {
        assert(s[b.len() as int] == a[b.len() as int]);
        assert(names::name_char(a[b.len() as int]));
    }
    assert(a =~= s.take(a.len() as int));
    assert(b =~= t.take(b.len() as int));
}

/// A scope is accepted in three shapes only: `*`, `service/*` and
/// `service/key`, with proper names.
pub proof fn law_accepted_scopes(scope: Seq<char>)
    ensures
        scope_problem(scope) is None <==> scope == "*"@ || exists|service: Seq<char>, key: Seq<
            char,
        >|
            service.len() > 0 && names::name_chars(service) && (key == "*"@ || (key.len() > 0
                && names::name_chars(key))) && scope == #[trigger] (service + "/"@ + key),
{
    reveal_strlit("/");
    reveal_strlit("*");
    let i = text::first_index(scope, '/');
    text::lemma_first_index(scope, '/');
    reveal_with_fuel(text::split, 2);
    let parts = text::split(scope, '/', 2);
    if scope_problem(scope) is None && scope != "*"@ {
        assert(i < scope.len());
        let service = parts[0];
        let key = parts[1];
        assert(parts =~= seq![scope.take(i), scope.skip(i + 1)]);
        assert(scope =~= service + "/"@ + key);
    }
    if exists|service: Seq<char>, key: Seq<char>|
        service.len() > 0 && names::name_chars(service) && (key == "*"@ || (key.len() > 0
            && names::name_chars(key))) && scope == #[trigger] (service + "/"@ + key) {
        let (service, key) = choose|service: Seq<char>, key: Seq<char>|
            service.len() > 0 && names::name_chars(service) && (key == "*"@ || (key.len() > 0
                && names::name_chars(key))) && scope == #[trigger] (service + "/"@ + key);
        assert(scope[service.len() as int] == '/');
        assert forall|j: int| 0 <= j < service.len() implies scope[j] != '/' by {
            assert(names::name_char(service[j]));
            assert(scope[j] == service[j]);
        }
        assert(i == service.len());
        assert(scope.take(i) =~= service);
        assert(scope.skip(i + 1) =~= key);
        assert(parts =~= seq![service, key]);
    }
}

/// The active key of an agent is taken for that key, whatever white space is
/// around it and whatever other keys there are.
pub proof fn law_active_keys_are_valid(
    m: Map<Seq<char>, AgentKeyView>,
    agent_id: Seq<char>,
    a: Seq<char>,
    b: Seq<char>,
    r: Option<Seq<char>>,
)
    requires
        m.contains_key(agent_id),
        !m[agent_id].revoked,
        m[agent_id].key.len() > 0,
        !text::white(m[agent_id].key.first()) && !text::white(m[agent_id].key.last()),
        forall|i: int| 0 <= i < a.len() ==> text::white(#[trigger] a[i]),
        forall|i: int| 0 <= i < b.len() ==> text::white(#[trigger] b[i]),
        validated(m, a + m[agent_id].key + b, r),
    ensures
        r matches Some(id) && m.contains_key(id) && !m[id].revoked && m[id].key == m[agent_id].key,
{
    text::law_trimming_gives_back_the_core(a, m[agent_id].key, b);
    assert(admits(m, m[agent_id].key, agent_id));
}

/// A token that is taken for an agent's is the active key of that agent, up to
/// the white space at its ends, and has more than white space.
pub proof fn law_only_active_keys_are_valid(
    m: Map<Seq<char>, AgentKeyView>,
    bearer_token: Seq<char>,
    r: Option<Seq<char>>,
)
    requires
        validated(m, bearer_token, r),
    ensures
        r matches Some(id) ==> m.contains_key(id) && !m[id].revoked && m[id].key == text::trimmed(
            bearer_token,
        ) && m[id].key.len() > 0,
{
}

/// Scopes are good if each of them is; if not, the first bad one is told.
pub proof fn law_the_first_bad_scope_is_told(scopes: Seq<Seq<char>>)
    ensures
        first_bad_scope(scopes) is None <==> forall|i: int|
            0 <= i < scopes.len() ==> scope_problem(#[trigger] scopes[i]) is None,
        first_bad_scope(scopes) matches Some(e) ==> exists|i: int|
            0 <= i < scopes.len() && #[trigger] scopes[i] == e.1 && scope_problem(scopes[i])
                == Some(e.0) && forall|j: int|
                0 <= j < i ==> scope_problem(#[trigger] scopes[j]) is None,
    decreases scopes.len(),
{
    if scopes.len() > 0 {
        let rest = scopes.drop_first();
        law_the_first_bad_scope_is_told(rest);
        assert(scopes[0] == scopes.first());
        assert(forall|i: int| 0 <= i < rest.len() ==> #[trigger] rest[i] == scopes[i + 1]);
        if scope_problem(scopes.first()) is None {
            assert forall|i: int| 0 < i < scopes.len() implies #[trigger] scopes[i] == rest[i - 1]
                by {}
            if first_bad_scope(scopes) is Some {
                let e = first_bad_scope(scopes)->0;
                let i = choose|i: int|
                    0 <= i < rest.len() && #[trigger] rest[i] == e.1 && scope_problem(rest[i])
                        == Some(e.0) && forall|j: int|
                        0 <= j < i ==> scope_problem(#[trigger] rest[j]) is None;
                assert(scopes[i + 1] == e.1);
                assert forall|j: int| 0 <= j < i + 1 implies scope_problem(
                    #[trigger] scopes[j],
                ) is None by {
                    if j > 0 {
                        assert(rest[j - 1] == scopes[j]);
                    }
                }
            } else {
                assert forall|i: int| 0 <= i < scopes.len() implies scope_problem(
                    #[trigger] scopes[i],
                ) is None by {
                    if i > 0 {
                        assert(rest[i - 1] == scopes[i]);
                    }
                }
            }
        }
    }
}

/// What is wrong with a scope: it has no slash, or nothing on one side of its
/// first one; or other characters than names have before it; or behind it.
pub proof fn law_what_is_wrong_with_a_scope(service: Seq<char>, key: Seq<char>)
    requires
        !service.contains('/'),
    ensures
        service != "*"@ ==> scope_problem(service) == Some(AgentKeyErrorKind::MalformedScope),
        ({
            let problem = scope_problem(service + seq!['/'] + key);
            if service.len() == 0 || key.len() == 0 {
                problem == Some(AgentKeyErrorKind::MalformedScope)
            } else if !names::name_chars(service) {
                problem == Some(AgentKeyErrorKind::ScopeService)
            } else if key != "*"@ && !names::name_chars(key) {
                problem == Some(AgentKeyErrorKind::ScopeKey)
            } else {
                problem is None
            }
        }),
{
    reveal_strlit("*");
    text::lemma_first_index(service, '/');
    reveal_with_fuel(text::split, 2);
    let i = text::first_index(service, '/');
    if i < service.len() {
        assert(service.contains('/'));
    }
    assert(text::split(service, '/', 2) =~= seq![service]);
    let scope = service + seq!['/'] + key;
    assert(scope =~= service.push('/') + key);
    text::lemma_split_cuts(service, '/', key, 2);
    assert(text::split(key, '/', 1) =~= seq![key]);
    assert(text::split(scope, '/', 2) =~= seq![service, key]);
    assert(scope[service.len() as int] == '/');
}

/// An agent may read a secret exactly if its key is there and active, and among
/// its scopes is that of the secret, that of the service, or `*`.
pub proof fn law_what_scopes_open(
    m: Map<Seq<char>, AgentKeyView>,
    agent_id: Seq<char>,
    service: Seq<char>,
    key: Seq<char>,
)
    ensures
        scoped(m, agent_id, service, key) <==> m.contains_key(agent_id) && !m[agent_id].revoked && (
        m[agent_id].scopes.contains(service + "/"@ + key) || m[agent_id].scopes.contains(
            service + "/*"@,
        ) || m[agent_id].scopes.contains("*"@)),
{
    let s = m[agent_id].scopes;
    if s.contains(service + "/"@ + key) {
        let i = choose|i: int| 0 <= i < s.len() && s[i] == service + "/"@ + key;
        assert(scope_grants(s[i], service, key));
    }
    if s.contains(service + "/*"@) {
        let i = choose|i: int| 0 <= i < s.len() && s[i] == service + "/*"@;
        assert(scope_grants(s[i], service, key));
    }
    if s.contains("*"@) {
        let i = choose|i: int| 0 <= i < s.len() && s[i] == "*"@;
        assert(scope_grants(s[i], service, key));
    }
}

/// A key is made exactly if all scopes are good and the agent has no active
/// key, and revoked exactly if the agent has one.
pub proof fn law_which_keys_are_made_and_revoked(
    m: Map<Seq<char>, AgentKeyView>,
    agent_id: Seq<char>,
    scopes: Seq<Seq<char>>,
)
    ensures
        generate_refusal(m, agent_id, scopes) is None <==> (forall|i: int|
            0 <= i < scopes.len() ==> scope_problem(#[trigger] scopes[i]) is None) && !(
        m.contains_key(agent_id) && !m[agent_id].revoked),
        generate_refusal(m, agent_id, scopes) matches Some(e) ==> (e == (
            AgentKeyErrorKind::AlreadyActive,
            agent_id,
        ) || (scopes.contains(e.1) && scope_problem(e.1) == Some(e.0))),
        revoke_refusal(m, agent_id) is None <==> m.contains_key(agent_id) && !m[agent_id].revoked,
        revoke_refusal(m, agent_id) == Some((AgentKeyErrorKind::NotFound, agent_id))
            <==> !m.contains_key(agent_id),
        revoke_refusal(m, agent_id) == Some((AgentKeyErrorKind::AlreadyRevoked, agent_id))
            <==> m.contains_key(agent_id) && m[agent_id].revoked,
{
    law_the_first_bad_scope_is_told(scopes);
}

/// Using and revoking a key change one thing each about it, and a new key is as
/// it was asked for, active and unused.
pub proof fn law_what_changes_in_a_record(
    record: AgentKeyView,
    id: Seq<char>,
    key: Seq<char>,
    now: (i64, u32),
    description: Seq<char>,
    scopes: Seq<Seq<char>>,
)
    ensures
        same_but_for_use(touched(record, now), record),
        touched(record, now).last_used == Some(now),
        touched(record, now).revoked == record.revoked,
        same_but_for_use(disabled(record), record),
        disabled(record).last_used == record.last_used,
        disabled(record).revoked,
        ({
            let k = fresh_agent_key(id, key, now, description, scopes);
            &&& k.id == id && k.key == key && k.description == description && k.scopes == scopes
            &&& k.created_at == now && k.last_used is None && !k.revoked
        }),
{
}

/// Two records are of the same key, made with the same words.
pub open spec fn same_but_for_use(a: AgentKeyView, b: AgentKeyView) -> bool {
    &&& a.id == b.id
    &&& a.key == b.key
    &&& a.created_at == b.created_at
    &&& a.description == b.description
    &&& a.scopes == b.scopes
}

/// A listing has the record of every agent, no other, and none twice; and of
/// two records the one that was made earlier stands first.
pub proof fn law_listings_are_complete_and_in_order(
    m: Map<Seq<char>, AgentKeyView>,
    ids: Seq<Seq<char>>,
    records: Seq<AgentKeyView>,
    id: Seq<char>,
    i: int,
    j: int,
)
    requires
        listed(m, ids, records),
    ensures
        records.len() == m.dom().len(),
        m.contains_key(id) ==> records.contains(m[id]),
        0 <= i < records.len() ==> m.contains_key(ids[i]) && records[i] == m[ids[i]],
        0 <= i < j < records.len() ==> ids[i] != ids[j],
        0 <= i < records.len() && 0 <= j < records.len() && (records[i].created_at.0
            < records[j].created_at.0 || (records[i].created_at.0 == records[j].created_at.0
            && records[i].created_at.1 < records[j].created_at.1)) ==> i < j,
{
    ids.unique_seq_to_set();
    if m.contains_key(id) {
        assert(ids.to_set().contains(id));
        let k = choose|k: int| 0 <= k < ids.len() && ids[k] == id;
        assert(records[k] == m[id]);
    }
    if 0 <= i < records.len() {
        assert(ids.to_set().contains(ids[i]));
        assert(records[i] == m[ids[i]]);
    }
    if 0 <= j < i < records.len() {
        assert(clock::not_later(records[j].created_at, records[i].created_at));
    }
}

/// The text of an error has its subject in quotes, and tells the errors about
/// scopes and those about keys apart.
pub proof fn law_errors_name_their_subject(kind: AgentKeyErrorKind, subject: Seq<char>)
    ensures
        text::holds(error_text((kind, subject)), "'"@ + subject + "'"@),
        text::begins(error_text((kind, subject)), "invalid scope"@) <==> (kind is MalformedScope
            || kind is ScopeService || kind is ScopeKey),
        text::begins(error_text((kind, subject)), "agent key"@) <==> (kind is AlreadyActive
            || kind is NotFound || kind is AlreadyRevoked),
{
    let head = error_head(kind);
    let tail = error_tail(kind);
    reveal_strlit("'");
    reveal_strlit("invalid scope '");
    reveal_strlit("agent key '");
    reveal_strlit("invalid scope");
    reveal_strlit("agent key");
    assert(head =~= head.drop_last() + "'"@);
    assert(tail =~= "'"@ + tail.drop_first()) by {
        reveal_strlit("': must be '*', 'service/*', or 'service/key'");
        reveal_strlit("': service name contains invalid characters");
        reveal_strlit("': key name contains invalid characters");
        reveal_strlit("' already exists and is active. Revoke it first.");
        reveal_strlit("' not found");
        reveal_strlit("' is already revoked");
    }
    let t = error_text((kind, subject));
    assert(t =~= head.drop_last() + ("'"@ + subject + "'"@) + tail.drop_first());
    text::law_what_a_text_holds(head.drop_last(), "'"@ + subject + "'"@, tail.drop_first());
    if kind is MalformedScope || kind is ScopeService || kind is ScopeKey {
        assert(t.take("invalid scope"@.len() as int) =~= "invalid scope"@);
        assert(t[0] == 'i');
        assert(t.take("agent key"@.len() as int)[0] == 'i');
        assert("agent key"@[0] == 'a');
    } else {
        assert(t.take("agent key"@.len() as int) =~= "agent key"@);
        assert(t[0] == 'a');
        if text::begins(t, "invalid scope"@) {
            assert(t.take("invalid scope"@.len() as int)[0] == 'a');
            assert("invalid scope"@[0] == 'i');
        }
    }
}

/// The text of an error tells what is wrong: for a scope its shape, the name of
/// the service or that of the key, and for a key that it is active, missing or
/// revoked.
pub proof fn law_errors_are_told_apart(kind: AgentKeyErrorKind, subject: Seq<char>)
    ensures
        text::holds(
            error_text((kind, subject)),
            match kind {
                AgentKeyErrorKind::MalformedScope => "must be '*'"@,
                AgentKeyErrorKind::ScopeService => "service name"@,
                AgentKeyErrorKind::ScopeKey => "key name"@,
                AgentKeyErrorKind::AlreadyActive => "is active"@,
                AgentKeyErrorKind::NotFound => "not found"@,
                AgentKeyErrorKind::AlreadyRevoked => "already revoked"@,
            },
        ),
{
    let tail = error_tail(kind);
    let part = match kind {
        AgentKeyErrorKind::MalformedScope => "must be '*'"@,
        AgentKeyErrorKind::ScopeService => "service name"@,
        AgentKeyErrorKind::ScopeKey => "key name"@,
        AgentKeyErrorKind::AlreadyActive => "is active"@,
        AgentKeyErrorKind::NotFound => "not found"@,
        AgentKeyErrorKind::AlreadyRevoked => "already revoked"@,
    };
    let at: int = match kind {
        AgentKeyErrorKind::MalformedScope => 3,
        AgentKeyErrorKind::ScopeService => 3,
        AgentKeyErrorKind::ScopeKey => 3,
        AgentKeyErrorKind::AlreadyActive => 21,
        AgentKeyErrorKind::NotFound => 2,
        AgentKeyErrorKind::AlreadyRevoked => 5,
    };
    assert(tail =~= tail.take(at) + part + tail.skip(at + part.len())) by {
        match kind {
            AgentKeyErrorKind::MalformedScope => {
                reveal_strlit("': must be '*', 'service/*', or 'service/key'");
                reveal_strlit("must be '*'");
            },
            AgentKeyErrorKind::ScopeService => {
                reveal_strlit("': service name contains invalid characters");
                reveal_strlit("service name");
            },
            AgentKeyErrorKind::ScopeKey => {
                reveal_strlit("': key name contains invalid characters");
                reveal_strlit("key name");
            },
            AgentKeyErrorKind::AlreadyActive => {
                reveal_strlit("' already exists and is active. Revoke it first.");
                reveal_strlit("is active");
            },
            AgentKeyErrorKind::NotFound => {
                reveal_strlit("' not found");
                reveal_strlit("not found");
            },
            AgentKeyErrorKind::AlreadyRevoked => {
                reveal_strlit("' is already revoked");
                reveal_strlit("already revoked");
            },
        }
    }
    let head = error_head(kind) + subject + tail.take(at);
    let rest = tail.skip(at + part.len());
    assert(error_text((kind, subject)) =~= head + part + rest);
    text::law_what_a_text_holds(head, part, rest);
}

/// The active agents are those that have a key that is not revoked.
pub proof fn law_who_is_active(m: Map<Seq<char>, AgentKeyView>, agent_id: Seq<char>)
    ensures
        active_ids(m).contains(agent_id) <==> m.contains_key(agent_id) && !m[agent_id].revoked,
{
}

} // verus!
