//! The decisions of the daemon: who is let in, and what each request is
//! answered.

use crate::agent_keys;
use crate::agent_keys::{AgentKey, AgentKeyStore, AgentKeyView};
use crate::clock;
use crate::clock::Timestamp;
use crate::names;
use crate::primitives;
use crate::rate_limit;
use crate::rate_limit::{AuthRateLimiter, ClientIp, RateLimitEntry};
use crate::store;
use crate::tables;
use crate::text;
use crate::types;
use crate::types::{AuthLevel, AuthView, Secret, SecretValue};
use vstd::prelude::*;

verus! {

// ---------------------------------------------------------------------------
// Answers
// ---------------------------------------------------------------------------

/// The status of a request that failed.
#[derive(Clone, Copy, Debug, PartialEq, Eq, Structural)]
pub enum Status {
    BadRequest,
    Unauthorized,
    Forbidden,
    NotFound,
    Conflict,
    TooManyRequests,
    InternalServerError,
}

/// The number of a status in HTTP.
pub open spec fn code_of(status: Status) -> u16 {
    match status {
        Status::BadRequest => 400,
        Status::Unauthorized => 401,
        Status::Forbidden => 403,
        Status::NotFound => 404,
        Status::Conflict => 409,
        Status::TooManyRequests => 429,
        Status::InternalServerError => 500,
    }
}

impl Status {
    /// The number of the status in HTTP.
    pub fn code(&self) -> (r: u16)
        ensures
            r == code_of(*self),
    {
        match self {
            Status::BadRequest => 400,
            Status::Unauthorized => 401,
            Status::Forbidden => 403,
            Status::NotFound => 404,
            Status::Conflict => 409,
            Status::TooManyRequests => 429,
            Status::InternalServerError => 500,
        }
    }
}

/// Why a request failed.
#[derive(Debug)]
pub struct ApiFailure {
    pub status: Status,
    pub error: String,
}

impl View for ApiFailure {
    type V = (Status, Seq<char>);

    open spec fn view(&self) -> (Status, Seq<char>) {
        (self.status, self.error@)
    }
}

/// Something for the audit log: who, what, and of what.
#[derive(Debug)]
pub struct AuditRecord {
    pub agent_id: String,
    pub action: String,
    pub detail: String,
}

impl View for AuditRecord {
    type V = (Seq<char>, Seq<char>, Seq<char>);

    open spec fn view(&self) -> (Seq<char>, Seq<char>, Seq<char>) {
        (self.agent_id@, self.action@, self.detail@)
    }
}

/// Why a request was refused, and what the audit log is to say of it.
#[derive(Debug)]
pub struct Refusal {
    pub failure: ApiFailure,
    pub audit: Option<AuditRecord>,
}

/// A refusal as contracts see it.
#[verifier::ext_equal]
pub struct RefusalView {
    pub failure: (Status, Seq<char>),
    pub audit: Option<(Seq<char>, Seq<char>, Seq<char>)>,
}

impl View for Refusal {
    type V = RefusalView;

    open spec fn view(&self) -> RefusalView {
        RefusalView {
            failure: self.failure@,
            audit: match self.audit {
                Some(a) => Some(a@),
                None => None,
            },
        }
    }
}

fn failure(status: Status, error: &str) -> (r: ApiFailure)
    ensures
        r@ == (status, error@),
{
    ApiFailure { status, error: error.to_owned() }
}

fn audit(agent_id: &str, action: &str, detail: String) -> (r: AuditRecord)
    ensures
        r@ == (agent_id@, action@, detail@),
{
    AuditRecord { agent_id: agent_id.to_owned(), action: action.to_owned(), detail }
}

// ---------------------------------------------------------------------------
// Who is let in
// ---------------------------------------------------------------------------

/// The token in the text of the authorization header: what stands behind
/// `Bearer ` or `bearer `, or all of it.
pub open spec fn token_of(header: Seq<char>) -> Seq<char> {
    match text::after_prefix(header, "Bearer "@) {
        Some(t) => t,
        None => match text::after_prefix(header, "bearer "@) {
            Some(t) => t,
            None => header,
        },
    }
}

/// The outcome of an authentication as contracts see it.
pub open spec fn auth_view(r: Result<AuthLevel, ApiFailure>) -> Result<
    AuthView,
    (Status, Seq<char>),
> {
    match r {
        Ok(a) => Ok(a@),
        Err(e) => Err(e@),
    }
}

/// Everything an authentication looks at and may change.
pub struct Gate {
    pub keys: Map<Seq<char>, AgentKeyView>,
    pub limits: Map<ClientIp, RateLimitEntry>,
}

/// What an authentication may end in. A client that is locked out is told how
/// long. Any other is let in as the owner on the owner's token, and as an agent
/// on the active key of that agent, and starts anew in the table of failures;
/// the agent's key is noted as used. On no token, or on any other token, the
/// client is refused, and the failure is recorded.
pub open spec fn authenticated(
    before: Gate,
    token: Seq<char>,
    owner_key: Seq<char>,
    ip: ClientIp,
    clock: u64,
    now: (i64, u32),
    after: Gate,
    r: Result<AuthView, (Status, Seq<char>)>,
) -> bool {
    match rate_limit::lockout_left(before.limits, ip, clock) {
        Some(left) => {
            &&& r == Err::<AuthView, _>(
                (
                    Status::TooManyRequests,
                    "rate limited, retry in "@ + text::digits(left as nat) + "s"@,
                ),
            )
            &&& after == before
        },
        None => if token.len() == 0 {
            &&& r == Err::<AuthView, _>((Status::Unauthorized, "missing authorization"@))
            &&& after.keys == before.keys
            &&& rate_limit::failure_recorded(before.limits, ip, clock, after.limits)
        } else if token == owner_key {
            &&& r == Ok::<_, (Status, Seq<char>)>(AuthView::Owner)
            &&& after == (Gate { limits: before.limits.remove(ip), ..before })
        } else {
            match r {
                Ok(AuthView::Owner) => false,
                Ok(AuthView::Agent(id)) => {
                    &&& agent_keys::validated(before.keys, token, Some(id))
                    &&& after == Gate {
                        keys: before.keys.insert(
                            id,
                            agent_keys::touched(before.keys[id], now),
                        ),
                        limits: before.limits.remove(ip),
                    }
                },
                Err(e) => {
                    &&& e == (Status::Unauthorized, "invalid key"@)
                    &&& agent_keys::validated(before.keys, token, None)
                    &&& after.keys == before.keys
                    &&& rate_limit::failure_recorded(before.limits, ip, clock, after.limits)
                },
            }
        },
    }
}

/// The token in the text of the authorization header.
pub fn bearer_token(header: &str) -> (r: String)
    ensures
        r@ == token_of(header@),
{
    match text::strip_prefix(header, "Bearer ") {
        Some(t) => t,
        None => match text::strip_prefix(header, "bearer ") {
            Some(t) => t,
            None => header.to_owned(),
        },
    }
}

/// Finds out who sent a request, from the text of its authorization header,
/// which is empty if there is none. `clock` is in nanoseconds of the clock that
/// the table of failures goes by.
pub fn authenticate(
    header: &str,
    owner_key: &str,
    keys: &mut AgentKeyStore,
    limiter: &mut AuthRateLimiter,
    ip: ClientIp,
    clock: u64,
    now: Timestamp,
) -> (r: Result<AuthLevel, ApiFailure>)
    ensures
        authenticated(
            (Gate { keys: old(keys)@, limits: old(limiter)@ }),
            token_of(header@),
            owner_key@,
            ip,
            clock,
            now@,
            (Gate { keys: final(keys)@, limits: final(limiter)@ }),
            auth_view(r),
        ),
{
    match limiter.check_lockout(&ip, clock) {
        Some(left) => {
            let msg = text::concat3("rate limited, retry in ", text::decimal(left).as_str(), "s");
            return Err(ApiFailure { status: Status::TooManyRequests, error: msg });
        },
        None => {},
    }
    let token = bearer_token(header);
    if token.as_str().is_empty() {
        limiter.record_failure(ip, clock);
        return Err(failure(Status::Unauthorized, "missing authorization"));
    }
    let is_owner = agent_keys::constant_time_eq(
        token.as_str().as_bytes(),
        owner_key.as_bytes(),
    );
    if is_owner {
        proof {
            text::lemma_encoding_is_injective(token@, owner_key@);
        }
        limiter.record_success(ip);
        return Ok(AuthLevel::Owner);
    }
    match keys.validate(token.as_str()) {
        Some(agent_id) => {
            let _ = keys.touch_at(agent_id.as_str(), now);
            limiter.record_success(ip);
            Ok(AuthLevel::Agent(agent_id))
        },
        None => {
            limiter.record_failure(ip, clock);
            Err(failure(Status::Unauthorized, "invalid key"))
        },
    }
}

/// What an agent is answered where only the owner may ask.
pub open spec fn owner_refusal(auth: AuthView) -> Option<RefusalView> {
    match auth {
        AuthView::Owner => None,
        AuthView::Agent(id) => Some(
            RefusalView {
                failure: (Status::Forbidden, "owner access required"@),
                audit: Some((id, "denied"@, "attempted owner-only endpoint"@)),
            },
        ),
    }
}

/// Lets the owner pass, and nobody else.
pub fn require_owner(auth: &AuthLevel) -> (r: Result<(), Refusal>)
    ensures
        r is Ok <==> owner_refusal(auth@) is None,
        r matches Err(e) ==> owner_refusal(auth@) == Some(e@),
{
    match auth {
        AuthLevel::Owner => Ok(()),
        AuthLevel::Agent(id) => {
            let e = Refusal {
                failure: failure(Status::Forbidden, "owner access required"),
                audit: Some(
                    audit(id.as_str(), "denied", "attempted owner-only endpoint".to_owned()),
                ),
            };
            assert(owner_refusal(auth@) == Some(e@));
            Err(e)
        },
    }
}

// ---------------------------------------------------------------------------
// Secrets
// ---------------------------------------------------------------------------

/// What is answered if the names in a request are not proper.
pub open spec fn names_failure(service: Seq<char>, key: Seq<char>) -> Option<(Status, Seq<char>)> {
    if names::name_problem(service) is Some {
        Some(
            (
                Status::BadRequest,
                names::problem_text("service"@, names::name_problem(service)->0),
            ),
        )
    } else if names::name_problem(key) is Some {
        Some((Status::BadRequest, names::problem_text("key"@, names::name_problem(key)->0)))
    } else {
        None
    }
}

fn check_names(service: &str, key: &str) -> (r: Result<(), ApiFailure>)
    ensures
        r is Ok <==> names_failure(service@, key@) is None,
        r matches Err(e) ==> names_failure(service@, key@) == Some(e@),
{
    match names::validate_name(service, "service") {
        Err(msg) => {
            return Err(ApiFailure { status: Status::BadRequest, error: msg });
        },
        Ok(_) => {},
    }
    match names::validate_name(key, "key") {
        Err(msg) => Err(ApiFailure { status: Status::BadRequest, error: msg }),
        Ok(_) => Ok(()),
    }
}

/// Why a secret may not be stored or deleted, if it may not: it is not the
/// owner who asks, or the names are not proper.
pub open spec fn change_refusal(
    auth: AuthView,
    service: Seq<char>,
    key: Seq<char>,
) -> Option<RefusalView> {
    match owner_refusal(auth) {
        Some(e) => Some(e),
        None => match names_failure(service, key) {
            Some(f) => Some(RefusalView { failure: f, audit: None }),
            None => None,
        },
    }
}

/// Decides whether a secret may be deleted.
pub fn delete_secret(auth: &AuthLevel, service: &str, key: &str) -> (r: Result<(), Refusal>)
    ensures
        r is Ok <==> change_refusal(auth@, service@, key@) is None,
        r matches Err(e) ==> change_refusal(auth@, service@, key@) == Some(e@),
{
    match require_owner(auth) {
        Err(e) => {
            return Err(e);
        },
        Ok(_) => {},
    }
    match check_names(service, key) {
        Err(f) => {
            let e = Refusal { failure: f, audit: None };
            assert(change_refusal(auth@, service@, key@) == Some(e@));
            Err(e)
        },
        Ok(_) => Ok(()),
    }
}

/// Decides whether a secret may be stored, and makes it.
pub fn store_secret(auth: &AuthLevel, service: &str, key: &str, value: SecretValue) -> (r: Result<
    Secret,
    Refusal,
>)
    ensures
        r is Ok <==> change_refusal(auth@, service@, key@) is None,
        r matches Ok(s) ==> s.service@ == service@ && s.key@ == key@ && s.value == value
            && s.engram_id is None && s.created_at is None,
        r matches Err(e) ==> change_refusal(auth@, service@, key@) == Some(e@),
{
    match delete_secret(auth, service, key) {
        Err(e) => Err(e),
        Ok(_) => Ok(Secret::new(service, key, value)),
    }
}

/// What is answered if a backend fails.
pub fn backend_failure(error: &str) -> (r: ApiFailure)
    ensures
        r@ == (Status::InternalServerError, error@),
{
    failure(Status::InternalServerError, error)
}

/// What is answered if a secret is not there.
pub fn secret_not_found(service: &str, key: &str) -> (r: ApiFailure)
    ensures
        r@ == (Status::NotFound, store::not_found_text(service@, key@)),
{
    ApiFailure { status: Status::NotFound, error: store::not_found(service, key) }
}

/// The name under which the audit log knows who sent a request.
pub open spec fn audit_name(auth: AuthView) -> Seq<char> {
    match auth {
        AuthView::Owner => "owner"@,
        AuthView::Agent(id) => id,
    }
}

/// What the audit log says of a request for a secret.
pub open spec fn asked_for(
    auth: AuthView,
    service: Seq<char>,
    key: Seq<char>,
    tier: Option<Seq<char>>,
) -> (Seq<char>, Seq<char>, Seq<char>) {
    (
        audit_name(auth),
        "get_secret"@,
        "service="@ + service + " key="@ + key + " tier="@ + match tier {
            Some(t) => t,
            None => "tier1"@,
        },
    )
}

/// Decides whether a secret may be looked for, and what the audit log is to say
/// of it.
pub fn get_secret_request(auth: &AuthLevel, service: &str, key: &str, tier: Option<&str>) -> (r:
    Result<AuditRecord, ApiFailure>)
    ensures
        r is Ok <==> names_failure(service@, key@) is None,
        r matches Ok(a) ==> a@ == asked_for(
            auth@,
            service@,
            key@,
            match tier {
                Some(t) => Some(t@),
                None => None,
            },
        ),
        r matches Err(e) ==> names_failure(service@, key@) == Some(e@),
{
    match check_names(service, key) {
        Err(e) => {
            return Err(e);
        },
        Ok(_) => {},
    }
    let mut detail = "service=".to_owned();
    detail.append(service);
    detail.append(" key=");
    detail.append(key);
    detail.append(" tier=");
    detail.append(
        match tier {
            Some(t) => t,
            None => "tier1",
        },
    );
    let who = match auth {
        AuthLevel::Owner => "owner",
        AuthLevel::Agent(id) => id.as_str(),
    };
    Ok(audit(who, "get_secret", detail))
}

/// What the owner is answered.
pub struct SecretResponse {
    pub service: String,
    pub key: String,
    pub secret_type: String,
    pub value: SecretValue,
}

/// What an agent is answered.
pub struct AgentSecretResponse {
    pub service: String,
    pub key: String,
    pub secret_type: String,
    pub field_names: Vec<String>,
    pub value: Option<SecretValue>,
    pub hint: Option<String>,
}

/// The answer to a request for a secret.
pub enum SecretAnswer {
    Owner(SecretResponse),
    Agent(AgentSecretResponse),
}

/// What an agent without the scope is told.
pub open spec fn scope_hint() -> Seq<char> {
    "agent does not have scope for this secret -- request owner to add scope"@
}

/// The answer on a secret that was found. The owner gets it; an agent gets its
/// kind and the names of its fields, and the value only if one of the agent's
/// scopes opens it.
pub open spec fn answers(
    auth: AuthView,
    keys: Map<Seq<char>, AgentKeyView>,
    service: Seq<char>,
    key: Seq<char>,
    s: Secret,
    answer: SecretAnswer,
) -> bool {
    match (auth, answer) {
        (AuthView::Owner, SecretAnswer::Owner(a)) => {
            &&& a.service@ == s.service@
            &&& a.key@ == s.key@
            &&& a.secret_type@ == types::kind_of(s.value)
            &&& a.value == s.value
        },
        (AuthView::Agent(id), SecretAnswer::Agent(a)) => {
            let open = agent_keys::scoped(keys, id, service, key);
            &&& a.service@ == s.service@
            &&& a.key@ == s.key@
            &&& a.secret_type@ == types::kind_of(s.value)
            &&& text::texts(a.field_names@) == types::names_of(types::fields_of(s.value))
            &&& a.value == if open {
                Some(s.value)
            } else {
                None
            }
            &&& text::text_option(a.hint) == if open {
                None
            } else {
                Some(scope_hint())
            }
        },
        _ => false,
    }
}

/// What the audit log says of an answer to an agent.
pub open spec fn answer_audit(
    auth: AuthView,
    keys: Map<Seq<char>, AgentKeyView>,
    service: Seq<char>,
    key: Seq<char>,
) -> Option<(Seq<char>, Seq<char>, Seq<char>)> {
    match auth {
        AuthView::Owner => None,
        AuthView::Agent(id) => Some(
            if agent_keys::scoped(keys, id, service, key) {
                (
                    id,
                    "get_secret_plaintext"@,
                    "service="@ + service + " key="@ + key + " (scoped)"@,
                )
            } else {
                (
                    id,
                    "get_secret_metadata"@,
                    "service="@ + service + " key="@ + key + " (no scope)"@,
                )
            },
        ),
    }
}

/// The view of an optional audit record.
pub open spec fn audit_option(a: Option<AuditRecord>) -> Option<(Seq<char>, Seq<char>, Seq<char>)> {
    match a {
        Some(r) => Some(r@),
        None => None,
    }
}

/// Answers a request for a secret, of which `found` is what was there.
pub fn get_secret(
    auth: &AuthLevel,
    keys: &AgentKeyStore,
    service: &str,
    key: &str,
    found: Option<Secret>,
) -> (r: Result<(SecretAnswer, Option<AuditRecord>), ApiFailure>)
    ensures
        r is Ok <==> found is Some,
        r matches Ok(a) ==> answers(auth@, keys@, service@, key@, found->0, a.0) && audit_option(
            a.1,
        ) == answer_audit(auth@, keys@, service@, key@),
        r matches Err(e) ==> e@ == (Status::NotFound, store::not_found_text(service@, key@)),
{
    let secret = match found {
        Some(s) => s,
        None => {
            return Err(secret_not_found(service, key));
        },
    };
    let secret_type = secret.value.kind().to_owned();
    match auth {
        AuthLevel::Owner => Ok(
            (
                SecretAnswer::Owner(
                    SecretResponse {
                        service: secret.service,
                        key: secret.key,
                        secret_type,
                        value: secret.value,
                    },
                ),
                None,
            ),
        ),
        AuthLevel::Agent(id) => {
            let field_names = secret.value.field_names();
            let mut detail = "service=".to_owned();
            detail.append(service);
            detail.append(" key=");
            detail.append(key);
            if keys.has_scope(id.as_str(), service, key) {
                detail.append(" (scoped)");
                Ok(
                    (
                        SecretAnswer::Agent(
                            AgentSecretResponse {
                                service: secret.service,
                                key: secret.key,
                                secret_type,
                                field_names,
                                value: Some(secret.value),
                                hint: None,
                            },
                        ),
                        Some(audit(id.as_str(), "get_secret_plaintext", detail)),
                    ),
                )
            } else {
                detail.append(" (no scope)");
                Ok(
                    (
                        SecretAnswer::Agent(
                            AgentSecretResponse {
                                service: secret.service,
                                key: secret.key,
                                secret_type,
                                field_names,
                                value: None,
                                hint: Some(
                                    "agent does not have scope for this secret -- request owner to add scope".to_owned(
                                    ),
                                ),
                            },
                        ),
                        Some(audit(id.as_str(), "get_secret_metadata", detail)),
                    ),
                )
            }
        },
    }
}

/// One secret of a listing.
pub struct SecretListItem {
    pub service: String,
    pub key: String,
    pub secret_type: String,
    pub field_names: Vec<String>,
    pub redacted_preview: String,
    pub engram_id: Option<u64>,
}

/// One secret of a listing, as contracts see it.
#[verifier::ext_equal]
pub struct SecretListItemView {
    pub service: Seq<char>,
    pub key: Seq<char>,
    pub secret_type: Seq<char>,
    pub field_names: Seq<Seq<char>>,
    pub redacted_preview: Seq<char>,
    pub engram_id: Option<u64>,
}

impl View for SecretListItem {
    type V = SecretListItemView;

    open spec fn view(&self) -> SecretListItemView {
        SecretListItemView {
            service: self.service@,
            key: self.key@,
            secret_type: self.secret_type@,
            field_names: text::texts(self.field_names@),
            redacted_preview: self.redacted_preview@,
            engram_id: self.engram_id,
        }
    }
}

/// What a listing says of a secret: the owner sees its preview, an agent its
/// kind in place of it.
pub open spec fn item_of(auth: AuthView, s: Secret) -> SecretListItemView {
    SecretListItemView {
        service: s.service@,
        key: s.key@,
        secret_type: types::kind_of(s.value),
        field_names: types::names_of(types::fields_of(s.value)),
        redacted_preview: match auth {
            AuthView::Owner => types::preview_of(s.value),
            AuthView::Agent(_) => types::kind_of(s.value),
        },
        engram_id: s.engram_id,
    }
}

/// The views of a listing.
pub open spec fn item_views(items: Seq<SecretListItem>) -> Seq<SecretListItemView> {
    items.map_values(|i: SecretListItem| i@)
}

/// What the audit log says of a request for a listing: it has those of agents.
pub open spec fn asked_to_list(auth: AuthView, service: Option<Seq<char>>) -> Option<
    (Seq<char>, Seq<char>, Seq<char>),
> {
    match auth {
        AuthView::Owner => None,
        AuthView::Agent(id) => Some(
            (
                id,
                "list_secrets"@,
                "service="@ + match service {
                    Some(f) => f,
                    None => "*"@,
                },
            ),
        ),
    }
}

/// What the audit log is to say of a request for a listing, if anything.
pub fn list_secrets_request(auth: &AuthLevel, service: Option<&str>) -> (r: Option<AuditRecord>)
    ensures
        audit_option(r) == asked_to_list(
            auth@,
            match service {
                Some(f) => Some(f@),
                None => None,
            },
        ),
{
    match auth {
        AuthLevel::Owner => None,
        AuthLevel::Agent(id) => {
            let mut detail = "service=".to_owned();
            detail.append(
                match service {
                    Some(f) => f,
                    None => "*",
                },
            );
            Some(audit(id.as_str(), "list_secrets", detail))
        },
    }
}

/// Lists secrets, all of them or those of a service.
pub fn list_secrets(auth: &AuthLevel, secrets: Vec<Secret>, service: Option<&str>) -> (r: Vec<
    SecretListItem,
>)
    ensures
        item_views(r@) == tables::of_service(
            secrets@,
            match service {
                Some(f) => Some(f@),
                None => None,
            },
        ).map_values(|s: Secret| item_of(auth@, s)),
{
    let list = tables::filter_by_service(secrets, service);
    let ghost all = list@;
    let mut out: Vec<SecretListItem> = Vec::new();
    for s in it: list
        invariant
            it.seq() == all,
            out@.len() == it.index(),
            forall|j: int| 0 <= j < out@.len() ==> (#[trigger] out@[j])@ == item_of(auth@, all[j]),
    {
        let preview = match auth {
            AuthLevel::Owner => s.value.redacted_preview(),
            AuthLevel::Agent(_) => s.value.kind().to_owned(),
        };
        out.push(
            SecretListItem {
                secret_type: s.value.kind().to_owned(),
                field_names: s.value.field_names(),
                service: s.service,
                key: s.key,
                redacted_preview: preview,
                engram_id: s.engram_id,
            },
        );
    }
    assert(item_views(out@) =~= all.map_values(|s: Secret| item_of(auth@, s)));
    out
}

// ---------------------------------------------------------------------------
// Agent keys
// ---------------------------------------------------------------------------

/// Why no agent key is made, if none is.
pub open spec fn create_refusal(
    auth: AuthView,
    keys: Map<Seq<char>, AgentKeyView>,
    agent_id: Seq<char>,
    scopes: Seq<Seq<char>>,
) -> Option<RefusalView> {
    match owner_refusal(auth) {
        Some(e) => Some(e),
        None => match agent_keys::generate_refusal(keys, agent_id, scopes) {
            Some(e) => Some(
                RefusalView { failure: (Status::Conflict, agent_keys::error_text(e)), audit: None },
            ),
            None => None,
        },
    }
}

/// What the audit log says of an agent key.
pub open spec fn key_audit(action: Seq<char>, agent_id: Seq<char>) -> (
    Seq<char>,
    Seq<char>,
    Seq<char>,
) {
    ("owner"@, action, "agent_id="@ + agent_id)
}

fn key_audit_record(action: &str, agent_id: &str) -> (r: AuditRecord)
    ensures
        r@ == key_audit(action@, agent_id@),
{
    let mut detail = "agent_id=".to_owned();
    detail.append(agent_id);
    audit("owner", action, detail)
}

/// What is answered if an agent key cannot be made, for whatever reason.
pub fn create_failure(error: String) -> (r: Refusal)
    ensures
        r@ == (RefusalView { failure: (Status::Conflict, error@), audit: None }),
{
    Refusal { failure: ApiFailure { status: Status::Conflict, error }, audit: None }
}

/// Makes an agent key out of 32 random bytes, at a given time.
pub fn create_agent_key_with(
    auth: &AuthLevel,
    keys: &mut AgentKeyStore,
    agent_id: &str,
    description: &str,
    scopes: Vec<String>,
    bytes: &[u8; 32],
    now: Timestamp,
) -> (r: Result<(String, AuditRecord), Refusal>)
    ensures
        r is Ok <==> create_refusal(auth@, old(keys)@, agent_id@, text::texts(scopes@)) is None,
        r matches Ok(a) ==> a.0@ == primitives::hex_text(bytes@) && a.1@ == key_audit(
            "agent_key_create"@,
            agent_id@,
        ),
        r is Ok ==> final(keys)@ == old(keys)@.insert(
            agent_id@,
            agent_keys::fresh_agent_key(
                agent_id@,
                primitives::hex_text(bytes@),
                now@,
                description@,
                text::texts(scopes@),
            ),
        ),
        r matches Err(e) ==> create_refusal(auth@, old(keys)@, agent_id@, text::texts(scopes@))
            == Some(e@),
        r is Err ==> final(keys)@ == old(keys)@,
{
    match require_owner(auth) {
        Err(e) => {
            return Err(e);
        },
        Ok(_) => {},
    }
    match keys.generate_with(agent_id, description, scopes, bytes, now) {
        Ok(key) => Ok((key, key_audit_record("agent_key_create", agent_id))),
        Err(e) => Err(create_failure(e.message())),
    }
}

/// Makes an agent key out of fresh random bytes.
pub fn create_agent_key(
    auth: &AuthLevel,
    keys: &mut AgentKeyStore,
    agent_id: &str,
    description: &str,
    scopes: Vec<String>,
) -> (r: Result<(String, AuditRecord), Refusal>)
    ensures
        r is Ok <==> create_refusal(auth@, old(keys)@, agent_id@, text::texts(scopes@)) is None,
        r matches Ok(a) ==> a.1@ == key_audit("agent_key_create"@, agent_id@) && exists|
            bytes: Seq<u8>,
            now: (i64, u32),
        |
            bytes.len() == 32 && a.0@ == primitives::hex_text(bytes) && final(keys)@ == old(
                keys,
            )@.insert(
                agent_id@,
                #[trigger] agent_keys::fresh_agent_key(
                    agent_id@,
                    primitives::hex_text(bytes),
                    now,
                    description@,
                    text::texts(scopes@),
                ),
            ),
        r matches Err(e) ==> create_refusal(auth@, old(keys)@, agent_id@, text::texts(scopes@))
            == Some(e@),
        r is Err ==> final(keys)@ == old(keys)@,
{
    match require_owner(auth) {
        Err(e) => {
            return Err(e);
        },
        Ok(_) => {},
    }
    match keys.generate(agent_id, description, scopes) {
        Ok(key) => Ok((key, key_audit_record("agent_key_create", agent_id))),
        Err(e) => Err(create_failure(e.message())),
    }
}

/// Why no agent key is revoked, if none is.
pub open spec fn revocation_refusal(
    auth: AuthView,
    keys: Map<Seq<char>, AgentKeyView>,
    agent_id: Seq<char>,
) -> Option<RefusalView> {
    match owner_refusal(auth) {
        Some(e) => Some(e),
        None => match agent_keys::revoke_refusal(keys, agent_id) {
            Some(e) => Some(
                RefusalView { failure: (Status::NotFound, agent_keys::error_text(e)), audit: None },
            ),
            None => None,
        },
    }
}

/// What is answered if an agent key cannot be revoked, for whatever reason.
pub fn revoke_failure(error: String) -> (r: Refusal)
    ensures
        r@ == (RefusalView { failure: (Status::NotFound, error@), audit: None }),
{
    Refusal { failure: ApiFailure { status: Status::NotFound, error }, audit: None }
}

/// Revokes an agent key.
pub fn revoke_agent_key(auth: &AuthLevel, keys: &mut AgentKeyStore, agent_id: &str) -> (r: Result<
    AuditRecord,
    Refusal,
>)
    ensures
        r is Ok <==> revocation_refusal(auth@, old(keys)@, agent_id@) is None,
        r matches Ok(a) ==> a@ == key_audit("agent_key_revoke"@, agent_id@),
        r is Ok ==> final(keys)@ == old(keys)@.insert(
            agent_id@,
            agent_keys::disabled(old(keys)@[agent_id@]),
        ),
        r matches Err(e) ==> revocation_refusal(auth@, old(keys)@, agent_id@) == Some(e@),
        r is Err ==> final(keys)@ == old(keys)@,
{
    match require_owner(auth) {
        Err(e) => {
            return Err(e);
        },
        Ok(_) => {},
    }
    match keys.revoke(agent_id) {
        Ok(_) => Ok(key_audit_record("agent_key_revoke", agent_id)),
        Err(e) => Err(revoke_failure(e.message())),
    }
}

/// One agent key of a listing.
pub struct AgentKeyListItem {
    pub id: String,
    pub created_at: String,
    pub last_used: Option<String>,
    pub revoked: bool,
    pub description: String,
    pub key_prefix: String,
    pub scopes: Vec<String>,
}

/// One agent key of a listing, as contracts see it.
#[verifier::ext_equal]
pub struct AgentKeyListItemView {
    pub id: Seq<char>,
    pub created_at: Seq<char>,
    pub last_used: Option<Seq<char>>,
    pub revoked: bool,
    pub description: Seq<char>,
    pub key_prefix: Seq<char>,
    pub scopes: Seq<Seq<char>>,
}

impl View for AgentKeyListItem {
    type V = AgentKeyListItemView;

    open spec fn view(&self) -> AgentKeyListItemView {
        AgentKeyListItemView {
            id: self.id@,
            created_at: self.created_at@,
            last_used: text::text_option(self.last_used),
            revoked: self.revoked,
            description: self.description@,
            key_prefix: self.key_prefix@,
            scopes: text::texts(self.scopes@),
        }
    }
}

/// What is shown of a key: its first eight bytes, or all of a shorter one, if
/// they end between two characters.
pub open spec fn shown_prefix(key: Seq<char>) -> Option<Seq<char>> {
    tables::cut(
        key,
        if text::byte_len(key) < 8 {
            text::byte_len(key) as int
        } else {
            8
        },
    )
}

/// What a listing says of an agent key.
pub open spec fn key_item_of(k: AgentKeyView) -> AgentKeyListItemView {
    AgentKeyListItemView {
        id: k.id,
        created_at: clock::rfc3339_text(k.created_at.0, k.created_at.1),
        last_used: match k.last_used {
            Some(t) => Some(clock::rfc3339_text(t.0, t.1)),
            None => None,
        },
        revoked: k.revoked,
        description: k.description,
        key_prefix: shown_prefix(k.key)->0,
        scopes: k.scopes,
    }
}

/// The views of a listing.
pub open spec fn key_item_views(items: Seq<AgentKeyListItem>) -> Seq<AgentKeyListItemView> {
    items.map_values(|i: AgentKeyListItem| i@)
}

fn clone_texts(v: &Vec<String>) -> (r: Vec<String>)
    ensures
        text::texts(r@) == text::texts(v@),
{
    let mut out: Vec<String> = Vec::new();
    let mut i: usize = 0;
    while i < v.len()
        invariant
            i <= v@.len(),
            out@.len() == i,
            forall|j: int| 0 <= j < i ==> (#[trigger] out@[j])@ == v@[j]@,
        decreases v@.len() - i,
    {
        out.push(v[i].clone());
        i += 1;
    }
    assert(text::texts(out@) =~= text::texts(v@));
    out
}

fn key_item(k: &AgentKey) -> (r: Option<AgentKeyListItem>)
    ensures
        r is Some <==> shown_prefix(k@.key) is Some,
        r matches Some(i) ==> i@ == key_item_of(k@),
{
    let size: usize = text::size(k.key.as_str());
    let n: usize = if size < 8 {
        size
    } else {
        8
    };
    match text::byte_prefix(k.key.as_str(), n) {
        Some(head) => {
            let mut prefix = head;
            prefix.append("...");
            let last_used = match &k.last_used {
                Some(t) => Some(t.to_rfc3339()),
                None => None,
            };
            let item = AgentKeyListItem {
                id: k.id.clone(),
                created_at: k.created_at.to_rfc3339(),
                last_used,
                revoked: k.revoked,
                description: k.description.clone(),
                key_prefix: prefix,
                scopes: clone_texts(&k.scopes),
            };
            assert(item@ =~= key_item_of(k@));
            Some(item)
        },
        None => None,
    }
}

/// Lists the agent keys, by their time of creation, or `None` if the text of
/// one cannot be cut.
pub fn list_agent_keys(auth: &AuthLevel, keys: &AgentKeyStore) -> (r: Result<
    Option<Vec<AgentKeyListItem>>,
    Refusal,
>)
    ensures
        r is Ok <==> owner_refusal(auth@) is None,
        r matches Err(e) ==> owner_refusal(auth@) == Some(e@),
        r matches Ok(None) ==> exists|id: Seq<char>| #[trigger]
            keys@.contains_key(id) && shown_prefix(keys@[id].key) is None,
        r matches Ok(Some(items)) ==> exists|ids: Seq<Seq<char>>, records: Seq<AgentKeyView>| #[trigger]
            agent_keys::listed(keys@, ids, records) && key_item_views(items@)
                == records.map_values(|k: AgentKeyView| key_item_of(k)),
        r matches Ok(Some(_)) ==> forall|id: Seq<char>| #[trigger]
            keys@.contains_key(id) ==> shown_prefix(keys@[id].key) is Some,
{
    match require_owner(auth) {
        Err(e) => {
            return Err(e);
        },
        Ok(_) => {},
    }
    let list = keys.list();
    let ghost records = agent_keys::record_views(list@);
    let ghost ids = choose|ids: Seq<Seq<char>>| #[trigger]
        agent_keys::listed(keys@, ids, records);
    assert(agent_keys::listed(keys@, ids, records));
    let mut out: Vec<AgentKeyListItem> = Vec::new();
    let mut i: usize = 0;
    while i < list.len()
        invariant
            owner_refusal(auth@) is None,
            records == agent_keys::record_views(list@),
            agent_keys::listed(keys@, ids, records),
            i <= list@.len(),
            out@.len() == i,
            forall|j: int| 0 <= j < i ==> (#[trigger] out@[j])@ == key_item_of(records[j]),
            forall|j: int| 0 <= j < i ==> shown_prefix((#[trigger] records[j]).key) is Some,
        decreases list@.len() - i,
    {
        assert(records[i as int] == list@[i as int]@);
        match key_item(list[i]) {
            Some(item) => {
                out.push(item);
            },
            None => {
                proof {
                    let id = ids[i as int];
                    assert(ids.to_set().contains(id));
                    assert(keys@.contains_key(id));
                    assert(records[i as int] == keys@[id]);
                }
                return Ok(None);
            },
        }
        i += 1;
    }
    proof {
        assert(key_item_views(out@) =~= records.map_values(|k: AgentKeyView| key_item_of(k)));
        assert forall|id: Seq<char>| #[trigger]
            keys@.contains_key(id) implies shown_prefix(keys@[id].key) is Some by {
            assert(ids.to_set().contains(id));
            let j = choose|j: int| 0 <= j < ids.len() && ids[j] == id;
            assert(records[j] == keys@[id]);
        }
    }
    Ok(Some(out))
}

// ---------------------------------------------------------------------------
// Laws
// ---------------------------------------------------------------------------

/// Agents only read: whatever the agent and the request, storing and deleting
/// secrets, and making and revoking agent keys, is refused with status 403, and
/// the audit log says so.
pub proof fn law_agents_only_read(
    id: Seq<char>,
    service: Seq<char>,
    key: Seq<char>,
    keys: Map<Seq<char>, AgentKeyView>,
    agent_id: Seq<char>,
    scopes: Seq<Seq<char>>,
)
    ensures
        owner_refusal(AuthView::Agent(id)) is Some,
        code_of(owner_refusal(AuthView::Agent(id))->0.failure.0) == 403,
        owner_refusal(AuthView::Agent(id))->0.audit is Some,
        change_refusal(AuthView::Agent(id), service, key) == owner_refusal(AuthView::Agent(id)),
        create_refusal(AuthView::Agent(id), keys, agent_id, scopes) == owner_refusal(
            AuthView::Agent(id),
        ),
        revocation_refusal(AuthView::Agent(id), keys, agent_id) == owner_refusal(
            AuthView::Agent(id),
        ),
{
}

/// The owner may do everything: only improper names stop the owner from storing
/// and deleting.
pub proof fn law_owner_may_change(service: Seq<char>, key: Seq<char>)
    requires
        names::name_problem(service) is None,
        names::name_problem(key) is None,
    ensures
        change_refusal(AuthView::Owner, service, key) is None,
{
}

/// While a client is locked out, no token lets it in, and nothing changes.
pub proof fn law_locked_out_clients_are_refused(
    before: Gate,
    token: Seq<char>,
    owner_key: Seq<char>,
    ip: ClientIp,
    clock: u64,
    now: (i64, u32),
    after: Gate,
    r: Result<AuthView, (Status, Seq<char>)>,
)
    requires
        authenticated(before, token, owner_key, ip, clock, now, after, r),
        rate_limit::lockout_left(before.limits, ip, clock) is Some,
    ensures
        r is Err,
        code_of(r->Err_0.0) == 429,
        after == before,
{
}

/// The owner's token lets the owner in, unless the client is locked out.
pub proof fn law_owner_token_opens(
    before: Gate,
    owner_key: Seq<char>,
    ip: ClientIp,
    clock: u64,
    now: (i64, u32),
    after: Gate,
    r: Result<AuthView, (Status, Seq<char>)>,
)
    requires
        authenticated(before, owner_key, owner_key, ip, clock, now, after, r),
        owner_key.len() > 0,
        rate_limit::lockout_left(before.limits, ip, clock) is None,
    ensures
        r == Ok::<_, (Status, Seq<char>)>(AuthView::Owner),
        after.keys == before.keys,
        rate_limit::lockout_left(after.limits, ip, clock) is None,
{
}

/// Nobody is let in as the owner but on the owner's token, and nobody as an
/// agent but on the active key of that agent.
pub proof fn law_only_the_right_token_opens(
    before: Gate,
    token: Seq<char>,
    owner_key: Seq<char>,
    ip: ClientIp,
    clock: u64,
    now: (i64, u32),
    after: Gate,
    r: Result<AuthView, (Status, Seq<char>)>,
)
    requires
        authenticated(before, token, owner_key, ip, clock, now, after, r),
    ensures
        r matches Ok(AuthView::Owner) ==> token == owner_key && token.len() > 0,
        r matches Ok(AuthView::Agent(id)) ==> token != owner_key && agent_keys::admits(
            before.keys,
            text::trimmed(token),
            id,
        ),
{
}

/// A token that is nobody's active key, such as a revoked one, opens nothing.
pub proof fn law_revoked_keys_open_nothing(
    before: Gate,
    token: Seq<char>,
    owner_key: Seq<char>,
    ip: ClientIp,
    clock: u64,
    now: (i64, u32),
    after: Gate,
    r: Result<AuthView, (Status, Seq<char>)>,
)
    requires
        authenticated(before, token, owner_key, ip, clock, now, after, r),
        token != owner_key,
        forall|id: Seq<char>| #[trigger]
            before.keys.contains_key(id) && before.keys[id].key == text::trimmed(token)
                ==> before.keys[id].revoked,
    ensures
        r is Err,
{
    match r {
        Ok(AuthView::Agent(id)) => {
            assert(agent_keys::admits(before.keys, text::trimmed(token), id));
        },
        _ => {},
    }
}

/// A client that is refused for its token is one failure nearer to a lockout.
pub proof fn law_wrong_tokens_are_counted(
    before: Gate,
    token: Seq<char>,
    owner_key: Seq<char>,
    ip: ClientIp,
    clock: u64,
    now: (i64, u32),
    after: Gate,
    r: Result<AuthView, (Status, Seq<char>)>,
)
    requires
        authenticated(before, token, owner_key, ip, clock, now, after, r),
        r is Err,
        rate_limit::lockout_left(before.limits, ip, clock) is None,
    ensures
        code_of(r->Err_0.0) == 401,
        rate_limit::failure_recorded(before.limits, ip, clock, after.limits),
        after.limits.contains_key(ip),
        after.limits[ip].failures >= 1,
        after.limits[ip].last_failure == Some(clock),
        after.keys == before.keys,
{
}

/// What one client sends locks no other client out.
pub proof fn law_clients_do_not_lock_each_other(
    before: Gate,
    token: Seq<char>,
    owner_key: Seq<char>,
    ip: ClientIp,
    clock: u64,
    now: (i64, u32),
    after: Gate,
    r: Result<AuthView, (Status, Seq<char>)>,
    other: ClientIp,
    later: u64,
)
    requires
        authenticated(before, token, owner_key, ip, clock, now, after, r),
        other != ip,
        rate_limit::lockout_left(before.limits, other, later) is None,
    ensures
        rate_limit::lockout_left(after.limits, other, later) is None,
{
    if rate_limit::failure_recorded(before.limits, ip, clock, after.limits) {
        rate_limit::law_failures_do_not_lock_others(
            before.limits,
            ip,
            clock,
            after.limits,
            other,
            later,
        );
    }
}

/// Authenticating changes neither who is admitted nor who may read what.
pub proof fn law_authenticating_keeps_access(
    before: Gate,
    token: Seq<char>,
    owner_key: Seq<char>,
    ip: ClientIp,
    clock: u64,
    now: (i64, u32),
    after: Gate,
    r: Result<AuthView, (Status, Seq<char>)>,
    agent_id: Seq<char>,
    other_token: Seq<char>,
    service: Seq<char>,
    key: Seq<char>,
)
    requires
        authenticated(before, token, owner_key, ip, clock, now, after, r),
    ensures
        agent_keys::admits(after.keys, other_token, agent_id) == agent_keys::admits(
            before.keys,
            other_token,
            agent_id,
        ),
        agent_keys::scoped(after.keys, agent_id, service, key) == agent_keys::scoped(
            before.keys,
            agent_id,
            service,
            key,
        ),
{
    match r {
        Ok(AuthView::Agent(id)) => {
            agent_keys::law_touching_keeps_access(
                before.keys,
                id,
                now,
                agent_id,
                other_token,
                service,
                key,
            );
        },
        _ => {},
    }
}

/// An agent gets the value of a secret only if one of its scopes opens it, and
/// is never answered as the owner is.
pub proof fn law_agents_need_a_scope(
    id: Seq<char>,
    keys: Map<Seq<char>, AgentKeyView>,
    service: Seq<char>,
    key: Seq<char>,
    s: Secret,
    answer: SecretAnswer,
)
    requires
        answers(AuthView::Agent(id), keys, service, key, s, answer),
    ensures
        answer matches SecretAnswer::Agent(a) && (a.value is Some <==> agent_keys::scoped(
            keys,
            id,
            service,
            key,
        )),
{
}

/// The audit log has every access of an agent under the name of that agent: its
/// requests for a secret, the answers to them, which it tells apart by whether
/// they hold the value, its requests for a listing, and its attempts at what
/// only the owner may do.
pub proof fn law_agent_access_is_logged(
    id: Seq<char>,
    keys: Map<Seq<char>, AgentKeyView>,
    service: Seq<char>,
    key: Seq<char>,
    tier: Option<Seq<char>>,
    filter: Option<Seq<char>>,
    s: Secret,
    answer: SecretAnswer,
)
    requires
        answers(AuthView::Agent(id), keys, service, key, s, answer),
    ensures
        asked_for(AuthView::Agent(id), service, key, tier).0 == id,
        answer_audit(AuthView::Agent(id), keys, service, key) matches Some(a) && a.0 == id && (a.1
            == "get_secret_plaintext"@ <==> answer->Agent_0.value is Some),
        asked_to_list(AuthView::Agent(id), filter) matches Some(a) && a.0 == id && a.1
            == "list_secrets"@,
        owner_refusal(AuthView::Agent(id))->0.audit matches Some(a) && a.0 == id,
{
    reveal_strlit("get_secret_plaintext");
    reveal_strlit("get_secret_metadata");
    assert("get_secret_plaintext"@.len() == 20);
    assert("get_secret_metadata"@.len() == 19);
}

/// A listing shows an agent nothing of the texts of a secret, and the owner
/// nothing of those of its secret fields.
pub proof fn law_listings_hide_secrets(id: Seq<char>, a: Secret, b: Secret)
    requires
        a.service@ == b.service@,
        a.key@ == b.key@,
        a.engram_id == b.engram_id,
        types::kind_of(a.value) == types::kind_of(b.value),
        types::names_of(types::fields_of(a.value)) == types::names_of(types::fields_of(b.value)),
    ensures
        item_of(AuthView::Agent(id), a) == item_of(AuthView::Agent(id), b),
        types::alike(a.value, b.value) ==> item_of(AuthView::Owner, a) == item_of(
            AuthView::Owner,
            b,
        ),
{
    if types::alike(a.value, b.value) {
        types::law_preview_hides_secrets(a.value, b.value);
    }
}

/// Of a key no more than its first eight bytes are listed.
pub proof fn law_listed_keys_are_cut(key: Seq<char>)
    requires
        shown_prefix(key) is Some,
    ensures
        exists|head: Seq<char>| #[trigger]
            head.is_prefix_of(key) && text::byte_len(head) <= 8 && shown_prefix(key) == Some(
                head + "..."@,
            ),
{
    let n = if text::byte_len(key) < 8 {
        text::byte_len(key) as int
    } else {
        8
    };
    text::lemma_first_bytes_is_prefix(key, n);
    let head = text::first_bytes(key, n)->0;
    assert(head.is_prefix_of(key));
}

/// The active key of an agent lets that agent in, whatever other clients and
/// keys there are, unless the client is locked out: it is let in as an agent
/// whose active key the token is, the use of that key is noted and nothing else
/// about the keys changes, and the client starts anew in the table of failures,
/// in which nothing else changes.
pub proof fn law_agent_keys_open(
    before: Gate,
    token: Seq<char>,
    owner_key: Seq<char>,
    ip: ClientIp,
    clock: u64,
    now: (i64, u32),
    after: Gate,
    r: Result<AuthView, (Status, Seq<char>)>,
    agent_id: Seq<char>,
)
    requires
        authenticated(before, token, owner_key, ip, clock, now, after, r),
        rate_limit::lockout_left(before.limits, ip, clock) is None,
        token != owner_key,
        before.keys.contains_key(agent_id),
        !before.keys[agent_id].revoked,
        before.keys[agent_id].key == text::trimmed(token),
        text::trimmed(token).len() > 0,
    ensures
        r is Ok && r->Ok_0 is Agent,
        ({
            let id = r->Ok_0->Agent_0;
            let old_record = before.keys[id];
            let new_record = after.keys[id];
            &&& before.keys.contains_key(id)
            &&& !old_record.revoked
            &&& old_record.key == text::trimmed(token)
            &&& after.keys.dom() == before.keys.dom()
            &&& new_record.last_used == Some(now)
            &&& new_record.revoked == old_record.revoked
            &&& agent_keys::same_but_for_use(new_record, old_record)
            &&& forall|other: Seq<char>| #[trigger]
                before.keys.contains_key(other) && other != id ==> after.keys[other]
                    == before.keys[other]
        }),
        !after.limits.contains_key(ip),
        forall|other: ClientIp|
            other != ip ==> (#[trigger] after.limits.contains_key(other)
                <==> before.limits.contains_key(other)) && (before.limits.contains_key(other)
                ==> after.limits[other] == before.limits[other]),
{
    assert(token.len() > 0) by {
        if token.len() == 0 {
            assert(text::trimmed(token) =~= token);
        }
    }
    assert(agent_keys::admits(before.keys, text::trimmed(token), agent_id));
    assert(r is Ok);
    assert(after.keys.dom() =~= before.keys.dom());
}

/// A single agent's key lets in just that agent.
pub proof fn law_a_key_of_one_agent_lets_in_that_agent(
    before: Gate,
    token: Seq<char>,
    owner_key: Seq<char>,
    ip: ClientIp,
    clock: u64,
    now: (i64, u32),
    after: Gate,
    r: Result<AuthView, (Status, Seq<char>)>,
    agent_id: Seq<char>,
)
    requires
        authenticated(before, token, owner_key, ip, clock, now, after, r),
        rate_limit::lockout_left(before.limits, ip, clock) is None,
        token != owner_key,
        before.keys.contains_key(agent_id),
        !before.keys[agent_id].revoked,
        before.keys[agent_id].key == text::trimmed(token),
        text::trimmed(token).len() > 0,
        forall|other: Seq<char>| #[trigger]
            before.keys.contains_key(other) && before.keys[other].key == text::trimmed(token)
                ==> other == agent_id,
    ensures
        r == Ok::<_, (Status, Seq<char>)>(AuthView::Agent(agent_id)),
{
    law_agent_keys_open(before, token, owner_key, ip, clock, now, after, r, agent_id);
}

/// A client that is not locked out is refused only for a token that is neither
/// the owner's nor any agent's active key; a missing token is told from a wrong
/// one. While the table has room the failure counts as one more.
pub proof fn law_who_is_refused(
    before: Gate,
    token: Seq<char>,
    owner_key: Seq<char>,
    ip: ClientIp,
    clock: u64,
    now: (i64, u32),
    after: Gate,
    r: Result<AuthView, (Status, Seq<char>)>,
)
    requires
        authenticated(before, token, owner_key, ip, clock, now, after, r),
        rate_limit::lockout_left(before.limits, ip, clock) is None,
    ensures
        token.len() == 0 ==> r == Err::<AuthView, _>(
            (Status::Unauthorized, "missing authorization"@),
        ),
        token.len() > 0 && r is Err ==> r == Err::<AuthView, _>(
            (Status::Unauthorized, "invalid key"@),
        ),
        token.len() > 0 ==> (r is Err <==> token != owner_key && (text::trimmed(token).len() == 0
            || forall|id: Seq<char>| #[trigger]
            before.keys.contains_key(id) && before.keys[id].key == text::trimmed(token)
                ==> before.keys[id].revoked)),
        r is Err ==> after.keys == before.keys,
        r is Err && before.limits.dom().len() < 10_000 ==> {
            &&& after.limits.contains_key(ip)
            &&& after.limits[ip].last_failure == Some(clock)
            &&& !before.limits.contains_key(ip) ==> after.limits[ip].failures == 1
            &&& before.limits.contains_key(ip) && before.limits[ip].failures < u32::MAX
                ==> after.limits[ip].failures == before.limits[ip].failures + 1
            &&& forall|other: ClientIp|
                other != ip ==> (#[trigger] after.limits.contains_key(other)
                    <==> before.limits.contains_key(other)) && (before.limits.contains_key(other)
                    ==> after.limits[other] == before.limits[other])
        },
{
    if token.len() > 0 && token != owner_key && r is Err && text::trimmed(token).len() > 0 {
        assert forall|id: Seq<char>| #[trigger]
            before.keys.contains_key(id) && before.keys[id].key == text::trimmed(
                token,
            ) implies before.keys[id].revoked by {
            assert(!agent_keys::admits(before.keys, text::trimmed(token), id));
        }
    }
    match r {
        Ok(AuthView::Agent(id)) => {
            assert(before.keys.contains_key(id) && before.keys[id].key == text::trimmed(token));
        },
        _ => {},
    }
    if r is Err && before.limits.dom().len() < 10_000 {
        rate_limit::law_a_failure_counts_once(before.limits, ip, clock, after.limits);
    }
}

/// A client is told how long it stays locked out.
pub proof fn law_lockouts_are_told(
    before: Gate,
    token: Seq<char>,
    owner_key: Seq<char>,
    ip: ClientIp,
    clock: u64,
    now: (i64, u32),
    after: Gate,
    r: Result<AuthView, (Status, Seq<char>)>,
)
    requires
        authenticated(before, token, owner_key, ip, clock, now, after, r),
    ensures
        rate_limit::lockout_left(before.limits, ip, clock) matches Some(left) ==> (r matches Err(e)
            && text::holds(e.1, " "@ + text::digits(left as nat) + "s"@)),
        r matches Err(e) ==> (code_of(e.0) == 429 <==> rate_limit::lockout_left(
            before.limits,
            ip,
            clock,
        ) is Some),
{
    if rate_limit::lockout_left(before.limits, ip, clock) is Some {
        let left = rate_limit::lockout_left(before.limits, ip, clock)->0;
        let h = "rate limited, retry in "@;
        assert(h =~= h.drop_last() + " "@) by {
            reveal_strlit("rate limited, retry in ");
            reveal_strlit(" ");
        }
        let part = " "@ + text::digits(left as nat) + "s"@;
        assert(h + text::digits(left as nat) + "s"@ =~= h.drop_last() + part + Seq::<char>::empty());
        text::law_what_a_text_holds(h.drop_last(), part, Seq::empty());
    }
}

/// The token is what stands behind `Bearer ` or `bearer `, as it is, and the
/// whole header if it starts with neither.
pub proof fn law_tokens_in_headers(token: Seq<char>, header: Seq<char>)
    ensures
        token_of("Bearer "@ + token) == token,
        token_of("bearer "@ + token) == token,
        !text::begins(header, "Bearer "@) && !text::begins(header, "bearer "@) ==> token_of(header)
            == header,
{
    reveal_strlit("Bearer ");
    reveal_strlit("bearer ");
    text::law_prefixes_are_taken_off("Bearer "@ + token, "Bearer "@, token);
    text::law_prefixes_are_taken_off("bearer "@ + token, "bearer "@, token);
    text::law_prefixes_are_taken_off("bearer "@ + token, "Bearer "@, token);
    text::law_prefixes_are_taken_off(header, "Bearer "@, token);
    text::law_prefixes_are_taken_off(header, "bearer "@, token);
    let s = "bearer "@ + token;
    assert(s[0] == 'b');
    assert(s.take(7)[0] == 'b');
    assert("Bearer "@[0] == 'B');
}

/// The owner is answered with the value of the secret, under its names.
pub proof fn law_the_owner_gets_the_secret(
    keys: Map<Seq<char>, AgentKeyView>,
    service: Seq<char>,
    key: Seq<char>,
    s: Secret,
    answer: SecretAnswer,
)
    requires
        answers(AuthView::Owner, keys, service, key, s, answer),
    ensures
        answer is Owner,
        answer->Owner_0.value == s.value,
        answer->Owner_0.service@ == s.service@,
        answer->Owner_0.key@ == s.key@,
        answer->Owner_0.secret_type@ == types::kind_of(s.value),
        answer_audit(AuthView::Owner, keys, service, key) is None,
{
}

/// An agent is answered with the names of the secret, its kind and the names of
/// its fields in any case; with the value, and no hint, if its key is active
/// and has the scope of the secret, that of the service, or `*`; and else with
/// a hint, and no value.
pub proof fn law_agents_get_what_their_scopes_open(
    id: Seq<char>,
    keys: Map<Seq<char>, AgentKeyView>,
    service: Seq<char>,
    key: Seq<char>,
    s: Secret,
    answer: SecretAnswer,
)
    requires
        answers(AuthView::Agent(id), keys, service, key, s, answer),
    ensures
        answer is Agent,
        ({
            let a = answer->Agent_0;
            let open = keys.contains_key(id) && !keys[id].revoked && (keys[id].scopes.contains(
                service + "/"@ + key,
            ) || keys[id].scopes.contains(service + "/*"@) || keys[id].scopes.contains("*"@));
            &&& a.service@ == s.service@
            &&& a.key@ == s.key@
            &&& a.secret_type@ == types::kind_of(s.value)
            &&& a.field_names@.len() == types::fields_of(s.value).len()
            &&& forall|i: int|
                0 <= i < a.field_names@.len() ==> (#[trigger] a.field_names@[i])@
                    == types::fields_of(s.value)[i].0
            &&& open ==> a.value == Some(s.value) && a.hint is None
            &&& !open ==> a.value is None && a.hint is Some
        }),
{
    agent_keys::law_what_scopes_open(keys, id, service, key);
    let a = answer->Agent_0;
    let texts = text::texts(a.field_names@);
    assert(texts.len() == a.field_names@.len());
    assert forall|i: int| 0 <= i < a.field_names@.len() implies (#[trigger] a.field_names@[i])@
        == types::fields_of(s.value)[i].0 by {
        assert(texts[i] == a.field_names@[i]@);
        assert(types::names_of(types::fields_of(s.value))[i] == types::fields_of(s.value)[i].0);
    }
}

/// What the audit log says of a request names who sent it, and the service and
/// the key that it is about.
pub proof fn law_audit_records_name_the_request(
    auth: AuthView,
    keys: Map<Seq<char>, AgentKeyView>,
    service: Seq<char>,
    key: Seq<char>,
    tier: Seq<char>,
    agent_id: Seq<char>,
    action: Seq<char>,
)
    ensures
        auth matches AuthView::Agent(id) ==> audit_name(auth) == id,
        auth is Owner ==> audit_name(auth) == "owner"@,
        asked_for(auth, service, key, Some(tier)).0 == audit_name(auth),
        asked_for(auth, service, key, Some(tier)).1 == "get_secret"@,
        asked_for(auth, service, key, Some(tier)).2 == "service="@ + service + " key="@ + key
            + " tier="@ + tier,
        asked_for(auth, service, key, None) == asked_for(auth, service, key, Some("tier1"@)),
        answer_audit(auth, keys, service, key) is Some <==> auth is Agent,
        answer_audit(auth, keys, service, key) matches Some(a) ==> text::begins(
            a.2,
            "service="@ + service + " key="@ + key + " ("@,
        ),
        asked_to_list(auth, Some(service)) is Some <==> auth is Agent,
        asked_to_list(auth, Some(service)) matches Some(a) ==> a.2 == "service="@ + service,
        asked_to_list(auth, None) == asked_to_list(auth, Some("*"@)),
        key_audit(action, agent_id).0 == "owner"@,
        key_audit(action, agent_id).1 == action,
        key_audit(action, agent_id).2 == "agent_id="@ + agent_id,
{
    let head = "service="@ + service + " key="@ + key + " ("@;
    assert(" (scoped)"@ =~= " ("@ + " (scoped)"@.skip(2) && " (no scope)"@ =~= " ("@
        + " (no scope)"@.skip(2)) by {
        reveal_strlit(" (scoped)");
        reveal_strlit(" (no scope)");
        reveal_strlit(" (");
    }
    match answer_audit(auth, keys, service, key) {
        Some(a) => {
            assert(a.2.take(head.len() as int) =~= head);
        },
        None => {},
    }
}

/// An item of a listing names its secret, its kind, its fields and its number;
/// the owner sees its preview, and an agent its kind once more.
pub proof fn law_items_name_their_secret(auth: AuthView, s: Secret, i: int)
    ensures
        item_of(auth, s).service == s.service@,
        item_of(auth, s).key == s.key@,
        item_of(auth, s).secret_type == types::kind_of(s.value),
        item_of(auth, s).engram_id == s.engram_id,
        item_of(auth, s).field_names.len() == types::fields_of(s.value).len(),
        0 <= i < types::fields_of(s.value).len() ==> item_of(auth, s).field_names[i]
            == types::fields_of(s.value)[i].0,
        auth is Owner ==> item_of(auth, s).redacted_preview == types::preview_of(s.value),
        auth is Agent ==> item_of(auth, s).redacted_preview == types::kind_of(s.value),
{
}

/// Names that are not proper are refused with status 400, the service before
/// the key, and proper ones are not.
pub proof fn law_improper_names_are_refused(service: Seq<char>, key: Seq<char>)
    ensures
        names_failure(service, key) is None <==> names::name_problem(service) is None
            && names::name_problem(key) is None,
        names_failure(service, key) matches Some(f) ==> code_of(f.0) == 400,
        names::name_problem(service) is Some ==> text::begins(
            (names_failure(service, key)->0).1,
            "service"@,
        ),
        names::name_problem(service) is None && names::name_problem(key) is Some ==> text::begins(
            (names_failure(service, key)->0).1,
            "key"@,
        ),
        change_refusal(AuthView::Owner, service, key) is None <==> names_failure(service, key) is None,
        change_refusal(AuthView::Owner, service, key) matches Some(e) ==> Some(e.failure)
            == names_failure(service, key),
{
    if names::name_problem(service) is Some {
        names::law_problems_name_their_label("service"@, names::name_problem(service)->0);
    } else if names::name_problem(key) is Some {
        names::law_problems_name_their_label("key"@, names::name_problem(key)->0);
    }
}

/// The owner gets a key for every agent that has no active one, if all scopes
/// are good, and is else refused with status 409; and can revoke every active
/// key, and is else refused with status 404, with the name of the agent.
pub proof fn law_the_owner_makes_and_revokes_keys(
    keys: Map<Seq<char>, AgentKeyView>,
    agent_id: Seq<char>,
    scopes: Seq<Seq<char>>,
)
    ensures
        create_refusal(AuthView::Owner, keys, agent_id, scopes) is None <==> (forall|i: int|
            0 <= i < scopes.len() ==> agent_keys::scope_problem(#[trigger] scopes[i]) is None) && !(
        keys.contains_key(agent_id) && !keys[agent_id].revoked),
        create_refusal(AuthView::Owner, keys, agent_id, scopes) matches Some(e) ==> code_of(
            e.failure.0,
        ) == 409 && e.audit is None,
        create_refusal(AuthView::Owner, keys, agent_id, scopes) matches Some(e) ==> (text::holds(
            e.failure.1,
            "'"@ + agent_id + "'"@,
        ) || exists|i: int|
            0 <= i < scopes.len() && text::holds(
                e.failure.1,
                "'"@ + #[trigger] scopes[i] + "'"@,
            )),
        revocation_refusal(AuthView::Owner, keys, agent_id) is None <==> keys.contains_key(agent_id)
            && !keys[agent_id].revoked,
        revocation_refusal(AuthView::Owner, keys, agent_id) matches Some(e) ==> code_of(
            e.failure.0,
        ) == 404 && e.audit is None && text::holds(e.failure.1, "'"@ + agent_id + "'"@),
{
    agent_keys::law_which_keys_are_made_and_revoked(keys, agent_id, scopes);
    if agent_keys::generate_refusal(keys, agent_id, scopes) is Some {
        let e = agent_keys::generate_refusal(keys, agent_id, scopes)->0;
        agent_keys::law_errors_name_their_subject(e.0, e.1);
    }
    if agent_keys::revoke_refusal(keys, agent_id) is Some {
        let e = agent_keys::revoke_refusal(keys, agent_id)->0;
        agent_keys::law_errors_name_their_subject(e.0, e.1);
    }
}

/// Every status has a number of its own.
pub proof fn law_numbers_tell_statuses_apart(a: Status, b: Status)
    ensures
        code_of(a) == code_of(b) ==> a == b,
        code_of(a) == 500 <==> a is InternalServerError,
        a is InternalServerError || 400 <= code_of(a) < 500,
{
}

/// The listing of the keys has all of a record but the key, of which it has the
/// first eight bytes, or all of a shorter one.
pub proof fn law_items_describe_their_key(k: AgentKeyView, head: Seq<char>, rest: Seq<char>)
    ensures
        key_item_of(k).id == k.id,
        key_item_of(k).revoked == k.revoked,
        key_item_of(k).description == k.description,
        key_item_of(k).scopes == k.scopes,
        key_item_of(k).created_at == clock::rfc3339_text(k.created_at.0, k.created_at.1),
        key_item_of(k).last_used is Some <==> k.last_used is Some,
        k.last_used matches Some(t) ==> key_item_of(k).last_used == Some(
            clock::rfc3339_text(t.0, t.1),
        ),
        k.key == head + rest && text::byte_len(head) == 8 ==> key_item_of(k).key_prefix == head
            + "..."@,
        text::byte_len(k.key) <= 8 ==> key_item_of(k).key_prefix == k.key + "..."@,
{
    text::law_bytes_of_a_beginning_are_that_beginning(head, rest);
    text::law_bytes_of_a_beginning_are_that_beginning(k.key, Seq::empty());
    assert(k.key + Seq::<char>::empty() =~= k.key);
}

/// Whoever is let in starts anew in the table of failures, in which nothing
/// else changes; and letting the owner in changes nothing about the keys.
pub proof fn law_letting_in_clears_one_client(
    before: Gate,
    token: Seq<char>,
    owner_key: Seq<char>,
    ip: ClientIp,
    clock: u64,
    now: (i64, u32),
    after: Gate,
    r: Result<AuthView, (Status, Seq<char>)>,
    other: ClientIp,
)
    requires
        authenticated(before, token, owner_key, ip, clock, now, after, r),
        r is Ok,
    ensures
        !after.limits.contains_key(ip),
        other != ip ==> (after.limits.contains_key(other) <==> before.limits.contains_key(other)),
        other != ip && before.limits.contains_key(other) ==> after.limits[other]
            == before.limits[other],
        r->Ok_0 is Owner ==> after.keys == before.keys,
{
}

/// What contracts say of an outcome is what it holds.
pub proof fn law_outcomes_are_seen_as_they_are(
    a: AuthLevel,
    e: ApiFailure,
    record: AuditRecord,
    items: Seq<SecretListItem>,
    keys: Seq<AgentKeyListItem>,
    i: int,
)
    ensures
        auth_view(Ok(a)) == Ok::<_, (Status, Seq<char>)>(a@),
        auth_view(Err(e)) == Err::<AuthView, _>((e.status, e.error@)),
        audit_option(Some(record)) == Some(
            (record.agent_id@, record.action@, record.detail@),
        ),
        audit_option(None) is None,
        item_views(items).len() == items.len(),
        0 <= i < items.len() ==> item_views(items)[i] == items[i]@,
        key_item_views(keys).len() == keys.len(),
        0 <= i < keys.len() ==> key_item_views(keys)[i] == keys[i]@,
{
}

} // verus!
