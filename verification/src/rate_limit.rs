//! Lockout of clients that fail to authenticate, each by its own address.

use crate::assoc;
use vstd::arithmetic::power2::*;
use vstd::prelude::*;

verus! {

/// Failures before a client is locked out.
pub const MAX_FAILURES: u32 = 5;

/// The first lockout, in seconds.
pub const BASE_LOCKOUT_SECS: u64 = 30;

/// The longest lockout, in seconds.
pub const MAX_LOCKOUT_SECS: u64 = 3600;

/// How many addresses are kept at most.
pub const MAX_TRACKED_IPS: usize = 10_000;

/// The address of a client.
#[derive(Clone, Copy, Debug, PartialEq, Eq, Structural)]
pub enum ClientIp {
    /// The bits of an IPv4 address.
    V4(u32),
    /// The bits of an IPv6 address.
    V6(u128),
}

/// What is known of one address: how often it failed, and when last, in
/// nanoseconds of a monotonic clock.
#[derive(Clone, Copy, Debug, PartialEq, Eq, Structural)]
pub struct RateLimitEntry {
    pub failures: u32,
    pub last_failure: Option<u64>,
}

/// The addresses that failed to authenticate.
pub struct AuthRateLimiter {
    entries: Vec<(ClientIp, RateLimitEntry)>,
}

impl View for AuthRateLimiter {
    type V = Map<ClientIp, RateLimitEntry>;

    closed spec fn view(&self) -> Map<ClientIp, RateLimitEntry> {
        assoc::assoc(self.entries@)
    }
}

/// Whole seconds from one reading of the clock to a later one; none if the
/// clock went backwards.
pub open spec fn secs_since(then: u64, now: u64) -> int {
    if now >= then {
        (now - then) / 1_000_000_000
    } else {
        0
    }
}

/// How long that many failures lock a client out, in seconds: 30 after the
/// fifth, twice as long after each further one, and at most an hour.
pub open spec fn lockout_secs(failures: u32) -> int {
    if failures < MAX_FAILURES {
        0
    } else {
        let full = BASE_LOCKOUT_SECS * pow2((failures - MAX_FAILURES) as nat);
        if full < MAX_LOCKOUT_SECS {
            full as int
        } else {
            MAX_LOCKOUT_SECS as int
        }
    }
}

/// The seconds for which a client stays locked out, if it is.
pub open spec fn lockout_left(m: Map<ClientIp, RateLimitEntry>, ip: ClientIp, now: u64) -> Option<
    u64,
> {
    if !m.contains_key(ip) || m[ip].failures < MAX_FAILURES {
        None
    } else {
        match m[ip].last_failure {
            None => None,
            Some(last) => {
                let left = lockout_secs(m[ip].failures) - secs_since(last, now);
                if left > 0 {
                    Some(left as u64)
                } else {
                    None
                }
            },
        }
    }
}

/// An entry that cannot lock anybody out any more.
pub open spec fn stale(e: RateLimitEntry, now: u64) -> bool {
    match e.last_failure {
        None => true,
        Some(last) => secs_since(last, now) >= MAX_LOCKOUT_SECS,
    }
}

/// The entries that are not stale.
pub open spec fn pruned(m: Map<ClientIp, RateLimitEntry>, now: u64) -> Map<
    ClientIp,
    RateLimitEntry,
> {
    Map::new(|ip: ClientIp| m.contains_key(ip) && !stale(m[ip], now), |ip: ClientIp| m[ip])
}

/// The last failure of `a` was before that of `b`; no failure is before any.
pub open spec fn before(a: Option<u64>, b: Option<u64>) -> bool {
    match (a, b) {
        (_, None) => false,
        (None, Some(_)) => true,
        (Some(x), Some(y)) => x < y,
    }
}

/// No other address failed before this one did last.
pub open spec fn oldest(m: Map<ClientIp, RateLimitEntry>, ip: ClientIp) -> bool {
    &&& m.contains_key(ip)
    &&& forall|other: ClientIp| #[trigger]
        m.contains_key(other) ==> !before(m[other].last_failure, m[ip].last_failure)
}

/// What may be left when room is made for one more address: everything below
/// the limit; else what is not stale; and if that still fills the table, all of
/// it but an oldest entry.
pub open spec fn made_room(
    m: Map<ClientIp, RateLimitEntry>,
    now: u64,
    r: Map<ClientIp, RateLimitEntry>,
) -> bool {
    if m.dom().len() < MAX_TRACKED_IPS {
        r == m
    } else if pruned(m, now).dom().len() < MAX_TRACKED_IPS {
        r == pruned(m, now)
    } else {
        exists|victim: ClientIp| #[trigger]
            oldest(pruned(m, now), victim) && r == pruned(m, now).remove(victim)
    }
}

/// One more failure of an address.
pub open spec fn failed_again(m: Map<ClientIp, RateLimitEntry>, ip: ClientIp, now: u64) -> Map<
    ClientIp,
    RateLimitEntry,
> {
    let count = if m.contains_key(ip) {
        m[ip].failures
    } else {
        0
    };
    m.insert(
        ip,
        RateLimitEntry {
            failures: if count == u32::MAX {
                count
            } else {
                (count + 1) as u32
            },
            last_failure: Some(now),
        },
    )
}

/// What recording a failure may leave.
pub open spec fn failure_recorded(
    m: Map<ClientIp, RateLimitEntry>,
    ip: ClientIp,
    now: u64,
    r: Map<ClientIp, RateLimitEntry>,
) -> bool {
    exists|mid: Map<ClientIp, RateLimitEntry>| #[trigger]
        made_room(m, now, mid) && r == failed_again(mid, ip, now)
}

fn elapsed_secs(then: u64, now: u64) -> (r: u64)
    ensures
        r == secs_since(then, now),
{
    if now >= then {
        (now - then) / 1_000_000_000
    } else {
        0
    }
}

fn is_before(a: Option<u64>, b: Option<u64>) -> (r: bool)
    ensures
        r == before(a, b),
{
    match (a, b) {
        (_, None) => false,
        (None, Some(_)) => true,
        (Some(x), Some(y)) => x < y,
    }
}

fn is_stale(e: &RateLimitEntry, now: u64) -> (r: bool)
    ensures
        r == stale(*e, now),
{
    match e.last_failure {
        None => true,
        Some(last) => elapsed_secs(last, now) >= MAX_LOCKOUT_SECS,
    }
}

/// How long that many failures lock a client out, in seconds.
pub fn lockout_for(failures: u32) -> (r: u64)
    ensures
        r == lockout_secs(failures),
{
    if failures < MAX_FAILURES {
        return 0;
    }
    let mut lockout: u64 = BASE_LOCKOUT_SECS;
    let mut doublings: u32 = failures - MAX_FAILURES;
    while doublings > 0 && lockout < MAX_LOCKOUT_SECS
        invariant
            BASE_LOCKOUT_SECS <= lockout < 2 * MAX_LOCKOUT_SECS,
            lockout * pow2(doublings as nat) == BASE_LOCKOUT_SECS * pow2(
                (failures - MAX_FAILURES) as nat,
            ),
        decreases doublings,
    {
        proof {
            lemma_pow2_unfold(doublings as nat);
            assert(lockout * (2 * pow2((doublings - 1) as nat)) == (2 * lockout) * pow2(
                (doublings - 1) as nat,
            )) by (nonlinear_arith);
        }
        lockout = lockout * 2;
        doublings -= 1;
    }
    proof {
        lemma_pow2_pos(doublings as nat);
        lemma2_to64();
        if doublings > 0 {
            assert(lockout * pow2(doublings as nat) >= lockout) by (nonlinear_arith)
                requires
                    pow2(doublings as nat) >= 1,
            ;
        } else {
            assert(lockout * pow2(doublings as nat) == lockout) by (nonlinear_arith)
                requires
                    pow2(doublings as nat) == 1,
            ;
        }
    }
    if lockout < MAX_LOCKOUT_SECS {
        lockout
    } else {
        MAX_LOCKOUT_SECS
    }
}

fn position(entries: &Vec<(ClientIp, RateLimitEntry)>, ip: ClientIp) -> (r: Option<usize>)
    requires
        assoc::distinct(entries@),
    ensures
        r matches Some(i) ==> i < entries@.len() && entries@[i as int].0 == ip && assoc::assoc(
            entries@,
        ).contains_key(ip) && assoc::assoc(entries@)[ip] == entries@[i as int].1,
        r is None ==> !assoc::assoc(entries@).contains_key(ip),
{
    let mut i: usize = 0;
    while i < entries.len()
        invariant
            assoc::distinct(entries@),
            i <= entries@.len(),
            forall|j: int| 0 <= j < i ==> (#[trigger] entries@[j]).0 != ip,
        decreases entries@.len() - i,
    {
        if entries[i].0 == ip {
            proof {
                assoc::lemma_assoc_value(entries@, i as int);
            }
            return Some(i);
        }
        i += 1;
    }
    proof {
        assoc::lemma_assoc_domain(entries@, ip);
    }
    None
}

/// Keeps the entries that are not stale.
fn prune(entries: &Vec<(ClientIp, RateLimitEntry)>, now: u64) -> (r: Vec<
    (ClientIp, RateLimitEntry),
>)
    requires
        assoc::distinct(entries@),
    ensures
        assoc::distinct(r@),
        assoc::assoc(r@) == pruned(assoc::assoc(entries@), now),
        r@.len() <= entries@.len(),
{
    let mut kept: Vec<(ClientIp, RateLimitEntry)> = Vec::new();
    let mut i: usize = 0;
    assert(entries@.take(0) =~= Seq::<(ClientIp, RateLimitEntry)>::empty());
    assert(pruned(assoc::assoc(entries@.take(0)), now) =~= assoc::assoc(kept@));
    while i < entries.len()
        invariant
            assoc::distinct(entries@),
            assoc::distinct(kept@),
            kept@.len() <= i <= entries@.len(),
            assoc::assoc(kept@) == pruned(assoc::assoc(entries@.take(i as int)), now),
        decreases entries@.len() - i,
    {
        let ghost seen = entries@.take(i as int);
        let ghost m = assoc::assoc(seen);
        let ghost pair = entries@[i as int];
        proof {
            assert(entries@.take(i + 1).drop_last() =~= seen);
            assert(assoc::assoc(entries@.take(i + 1)) == m.insert(pair.0, pair.1));
            assoc::lemma_assoc_domain(seen, pair.0);
            if m.contains_key(pair.0) {
                let j = choose|j: int| 0 <= j < seen.len() && (#[trigger] seen[j]).0 == pair.0;
                assert(entries@[j].0 == entries@[i as int].0);
            }
        }
        if !is_stale(&entries[i].1, now) {
            proof {
                assoc::lemma_assoc_push(kept@, pair.0, pair.1);
                assert(pruned(m, now).insert(pair.0, pair.1) =~= pruned(
                    m.insert(pair.0, pair.1),
                    now,
                ));
            }
            kept.push(entries[i]);
        } else {
            assert(pruned(m, now) =~= pruned(m.insert(pair.0, pair.1), now));
        }
        i += 1;
    }
    assert(entries@.take(entries@.len() as int) =~= entries@);
    kept
}

/// The place of an entry with no older one.
fn find_oldest(entries: &Vec<(ClientIp, RateLimitEntry)>) -> (r: usize)
    requires
        assoc::distinct(entries@),
        entries@.len() > 0,
    ensures
        r < entries@.len(),
        oldest(assoc::assoc(entries@), entries@[r as int].0),
{
    let mut at: usize = 0;
    let mut i: usize = 1;
    while i < entries.len()
        invariant
            at < i <= entries@.len(),
            forall|j: int|
                0 <= j < i ==> !before(
                    (#[trigger] entries@[j]).1.last_failure,
                    entries@[at as int].1.last_failure,
                ),
        decreases entries@.len() - i,
    {
        if is_before(entries[i].1.last_failure, entries[at].1.last_failure) {
            at = i;
        }
        i += 1;
    }
    proof {
        let m = assoc::assoc(entries@);
        assoc::lemma_assoc_value(entries@, at as int);
        assert forall|other: ClientIp| #[trigger] m.contains_key(other) implies !before(
            m[other].last_failure,
            m[entries@[at as int].0].last_failure,
        ) by {
            assoc::lemma_assoc_domain(entries@, other);
            let j = choose|j: int| 0 <= j < entries@.len() && (#[trigger] entries@[j]).0 == other;
            assoc::lemma_assoc_value(entries@, j);
        }
    }
    at
}

impl AuthRateLimiter {
    #[verifier::type_invariant]
    closed spec fn within_limit(self) -> bool {
        &&& assoc::distinct(self.entries@)
        &&& self.entries@.len() <= MAX_TRACKED_IPS
    }

    /// A table without addresses.
    pub fn new() -> (r: AuthRateLimiter)
        ensures
            r@ == Map::<ClientIp, RateLimitEntry>::empty(),
    {
        AuthRateLimiter { entries: Vec::new() }
    }

    /// The number of addresses, which the limit bounds.
    pub fn len(&self) -> (r: usize)
        ensures
            self@.dom().finite(),
            r == self@.dom().len(),
            r <= MAX_TRACKED_IPS,
    {
        proof {
            use_type_invariant(self);
            assoc::lemma_assoc_len(self.entries@);
        }
        self.entries.len()
    }

    /// The seconds for which a client stays locked out, if it is.
    pub fn check_lockout(&self, ip: &ClientIp, now: u64) -> (r: Option<u64>)
        ensures
            r == lockout_left(self@, *ip, now),
    {
        proof {
            use_type_invariant(self);
        }
        match position(&self.entries, *ip) {
            None => None,
            Some(i) => {
                let entry = self.entries[i].1;
                if entry.failures < MAX_FAILURES {
                    return None;
                }
                match entry.last_failure {
                    None => None,
                    Some(last) => {
                        let lockout: u64 = lockout_for(entry.failures);
                        let elapsed: u64 = elapsed_secs(last, now);
                        if elapsed < lockout {
                            Some(lockout - elapsed)
                        } else {
                            None
                        }
                    },
                }
            },
        }
    }

    /// Records that a client failed to authenticate.
    pub fn record_failure(&mut self, ip: ClientIp, now: u64)
        ensures
            failure_recorded(old(self)@, ip, now, final(self)@),
    {
        proof {
            use_type_invariant(&*self);
            assoc::lemma_assoc_len(self.entries@);
        }
        let ghost m = self@;
        let mut entries: Vec<(ClientIp, RateLimitEntry)> = Vec::new();
        std::mem::swap(&mut entries, &mut self.entries);
        if entries.len() >= MAX_TRACKED_IPS {
            entries = prune(&entries, now);
            proof {
                assoc::lemma_assoc_len(entries@);
            }
            if entries.len() >= MAX_TRACKED_IPS {
                let at = find_oldest(&entries);
                proof {
                    assoc::lemma_assoc_remove(entries@, at as int);
                    assert(oldest(pruned(m, now), entries@[at as int].0));
                }
                entries.remove(at);
            }
        }
        let ghost mid = assoc::assoc(entries@);
        assert(made_room(m, now, mid));
        match position(&entries, ip) {
            Some(i) => {
                let failures: u32 = entries[i].1.failures.saturating_add(1);
                proof {
                    assoc::lemma_assoc_update(
                        entries@,
                        i as int,
                        RateLimitEntry { failures, last_failure: Some(now) },
                    );
                }
                entries.set(i, (ip, RateLimitEntry { failures, last_failure: Some(now) }));
            },
            None => {
                proof {
                    assoc::lemma_assoc_push(
                        entries@,
                        ip,
                        RateLimitEntry { failures: 1, last_failure: Some(now) },
                    );
                }
                entries.push((ip, RateLimitEntry { failures: 1, last_failure: Some(now) }));
            },
        }
        assert(assoc::assoc(entries@) == failed_again(mid, ip, now));
        self.entries = entries;
    }

    /// Forgets the failures of a client that authenticated.
    pub fn record_success(&mut self, ip: ClientIp)
        ensures
            final(self)@ == old(self)@.remove(ip),
    {
        proof {
            use_type_invariant(&*self);
        }
        match position(&self.entries, ip) {
            Some(i) => {
                proof {
                    assoc::lemma_assoc_remove(self.entries@, i as int);
                }
                let mut entries: Vec<(ClientIp, RateLimitEntry)> = Vec::new();
                std::mem::swap(&mut entries, &mut self.entries);
                entries.remove(i);
                self.entries = entries;
            },
            None => {
                assert(self@ =~= self@.remove(ip));
            },
        }
    }
}

// ---------------------------------------------------------------------------
// Laws
// ---------------------------------------------------------------------------

/// A client that failed fewer than five times is not locked out.
pub proof fn law_few_failures_do_not_lock(
    m: Map<ClientIp, RateLimitEntry>,
    ip: ClientIp,
    now: u64,
)
    requires
        m.contains_key(ip) ==> m[ip].failures < 5,
    ensures
        lockout_left(m, ip, now) is None,
{
}

/// From the fifth failure on a lockout lasts 30 seconds at least and an hour
/// at most, and a further failure never shortens it.
pub proof fn law_lockout_grows_to_an_hour(failures: u32)
    requires
        5 <= failures < u32::MAX,
    ensures
        30 <= lockout_secs(failures) <= 3600,
        lockout_secs(failures) <= lockout_secs((failures + 1) as u32),
        lockout_secs((failures + 1) as u32) == 3600 || lockout_secs((failures + 1) as u32) == 2
            * lockout_secs(failures),
{
    let n = (failures - 5) as nat;
    lemma_pow2_pos(n);
    lemma_pow2_unfold(n + 1);
}

/// The fifth failure locks a client out for 30 seconds.
pub proof fn law_fifth_failure_locks(m: Map<ClientIp, RateLimitEntry>, ip: ClientIp, now: u64)
    requires
        m.contains_key(ip),
        m[ip].failures == 4,
    ensures
        lockout_left(failed_again(m, ip, now), ip, now) == Some(30u64),
{
    lemma2_to64();
}

/// Every lockout ends within an hour of the last failure.
pub proof fn law_lockout_ends(
    m: Map<ClientIp, RateLimitEntry>,
    ip: ClientIp,
    last: u64,
    now: u64,
)
    requires
        m.contains_key(ip),
        m[ip].last_failure == Some(last),
        now - last >= 3600 * 1_000_000_000,
    ensures
        lockout_left(m, ip, now) is None,
{
    if m[ip].failures >= 5 {
        lemma_pow2_pos((m[ip].failures - 5) as nat);
    }
}

/// A client that authenticated starts anew.
pub proof fn law_success_lifts_the_lockout(
    m: Map<ClientIp, RateLimitEntry>,
    ip: ClientIp,
    now: u64,
)
    ensures
        lockout_left(m.remove(ip), ip, now) is None,
{
}

/// A failure of one client never locks another one out, nor keeps it locked
/// out for longer.
pub proof fn law_failures_do_not_lock_others(
    m: Map<ClientIp, RateLimitEntry>,
    ip: ClientIp,
    now: u64,
    r: Map<ClientIp, RateLimitEntry>,
    other: ClientIp,
    later: u64,
)
    requires
        failure_recorded(m, ip, now, r),
        other != ip,
    ensures
        lockout_left(r, other, later) is Some ==> lockout_left(r, other, later) == lockout_left(
            m,
            other,
            later,
        ),
{
}

/// Below the limit, a failure of one client leaves all others as they were.
pub proof fn law_failures_keep_others_below_the_limit(
    m: Map<ClientIp, RateLimitEntry>,
    ip: ClientIp,
    now: u64,
    r: Map<ClientIp, RateLimitEntry>,
    other: ClientIp,
    later: u64,
)
    requires
        m.dom().len() < MAX_TRACKED_IPS,
        failure_recorded(m, ip, now, r),
        other != ip,
    ensures
        lockout_left(r, other, later) == lockout_left(m, other, later),
{
}

/// The table never outgrows its limit.
pub proof fn law_table_stays_within_its_limit(
    m: Map<ClientIp, RateLimitEntry>,
    ip: ClientIp,
    now: u64,
    r: Map<ClientIp, RateLimitEntry>,
)
    requires
        m.dom().finite(),
        m.dom().len() <= MAX_TRACKED_IPS,
        failure_recorded(m, ip, now, r),
    ensures
        r.dom().finite(),
        r.dom().len() <= MAX_TRACKED_IPS,
{
    let mid = choose|mid: Map<ClientIp, RateLimitEntry>| #[trigger]
        made_room(m, now, mid) && r == failed_again(mid, ip, now);
    let p = pruned(m, now);
    assert(p.dom().subset_of(m.dom()));
    vstd::set_lib::lemma_len_subset(p.dom(), m.dom());
    assert(mid.dom().finite());
    assert(mid.dom().len() < MAX_TRACKED_IPS);
}

/// Fewer than five failures lock nobody out, five do for 30 seconds, and each
/// further one doubles that, up to an hour.
pub proof fn law_each_failure_doubles_the_lockout(failures: u32)
    ensures
        failures < 5 ==> lockout_secs(failures) == 0,
        failures == 5 ==> lockout_secs(failures) == 30,
        5 <= failures < u32::MAX ==> lockout_secs((failures + 1) as u32) == if 2 * lockout_secs(
            failures,
        ) < 3600 {
            2 * lockout_secs(failures)
        } else {
            3600
        },
{
    lemma2_to64();
    if 5 <= failures < u32::MAX {
        let n = (failures - 5) as nat;
        lemma_pow2_pos(n);
        lemma_pow2_unfold(n + 1);
        assert((failures + 1) as u32 - 5 == n + 1);
    }
}

/// A client with five failures or more stays locked out for what is left of
/// its lockout since the last of them, in whole seconds, and not longer. A
/// clock that went backwards counts as no time.
pub proof fn law_lockouts_run_from_the_last_failure(
    m: Map<ClientIp, RateLimitEntry>,
    ip: ClientIp,
    last: u64,
    now: u64,
)
    requires
        m.contains_key(ip),
        m[ip].failures >= 5,
        m[ip].last_failure == Some(last),
    ensures
        ({
            let lockout = lockout_secs(m[ip].failures);
            let gone = if now < last {
                0
            } else {
                (now - last) / 1_000_000_000
            };
            &&& gone < lockout ==> (lockout_left(m, ip, now) matches Some(left) && left == lockout
                - gone)
            &&& gone >= lockout ==> lockout_left(m, ip, now) is None
        }),
{
    lemma_pow2_pos((m[ip].failures - 5) as nat);
}

/// Nobody is locked out without failures.
pub proof fn law_unknown_clients_are_not_locked_out(
    m: Map<ClientIp, RateLimitEntry>,
    ip: ClientIp,
    now: u64,
)
    ensures
        !m.contains_key(ip) ==> lockout_left(m, ip, now) is None,
        m.contains_key(ip) && m[ip].last_failure is None ==> lockout_left(m, ip, now) is None,
{
}

/// While the table has room, a failure counts as one more, is noted with its
/// time, and leaves everything else in the table as it was.
pub proof fn law_a_failure_counts_once(
    m: Map<ClientIp, RateLimitEntry>,
    ip: ClientIp,
    now: u64,
    r: Map<ClientIp, RateLimitEntry>,
)
    requires
        m.dom().len() < 10_000,
        failure_recorded(m, ip, now, r),
    ensures
        r.contains_key(ip),
        r[ip].last_failure == Some(now),
        !m.contains_key(ip) ==> r[ip].failures == 1,
        m.contains_key(ip) && m[ip].failures < u32::MAX ==> r[ip].failures == m[ip].failures + 1,
        m.contains_key(ip) && m[ip].failures == u32::MAX ==> r[ip].failures == u32::MAX,
        forall|other: ClientIp|
            other != ip ==> (#[trigger] r.contains_key(other) <==> m.contains_key(other)) && (
            m.contains_key(other) ==> r[other] == m[other]),
{
}

/// An entry that still matters: its last failure was less than an hour ago.
pub open spec fn recent(e: RateLimitEntry, now: u64) -> bool {
    e.last_failure matches Some(last) && now - last < 3600 * 1_000_000_000
}

/// A full table gives up the entries whose last failure is an hour old or more.
/// It gives up at most one that is more recent, and only one than which no
/// recent one is older. What stays, stays as it was, and the client that failed
/// is counted.
pub proof fn law_a_full_table_gives_up_the_oldest(
    m: Map<ClientIp, RateLimitEntry>,
    ip: ClientIp,
    now: u64,
    r: Map<ClientIp, RateLimitEntry>,
    a: ClientIp,
    b: ClientIp,
)
    requires
        m.dom().len() >= 10_000,
        failure_recorded(m, ip, now, r),
    ensures
        r.contains_key(ip),
        r[ip].last_failure == Some(now),
        r[ip].failures >= 1,
        r[ip].failures > 1 ==> m.contains_key(ip) && recent(m[ip], now) && (r[ip].failures
            == m[ip].failures + 1 || (r[ip].failures == u32::MAX && m[ip].failures == u32::MAX)),
        a != ip && r.contains_key(a) ==> m.contains_key(a) && r[a] == m[a] && recent(m[a], now),
        a != ip && m.contains_key(a) && recent(m[a], now) && !r.contains_key(a) && m.contains_key(b)
            && recent(m[b], now) ==> m[a].last_failure->0 <= m[b].last_failure->0,
        a != ip && b != ip && m.contains_key(a) && recent(m[a], now) && !r.contains_key(a)
            && m.contains_key(b) && recent(m[b], now) && !r.contains_key(b) ==> a == b,
{
    let mid = choose|mid: Map<ClientIp, RateLimitEntry>| #[trigger]
        made_room(m, now, mid) && r == failed_again(mid, ip, now);
    let p = pruned(m, now);
    assert forall|c: ClientIp| m.contains_key(c) implies (#[trigger] p.contains_key(c) <==> recent(
        m[c],
        now,
    )) by {}
    assert(p.contains_key(a) ==> p[a] == m[a]);
    assert(p.contains_key(b) ==> p[b] == m[b]);
    assert(p.contains_key(ip) ==> p[ip] == m[ip]);
    assert(m.contains_key(b) ==> (p.contains_key(b) <==> recent(m[b], now)));
}

/// Last failures come in the order of their times, and a client without one
/// comes before all that have one; nothing comes before itself.
pub proof fn law_the_order_of_failures(a: Option<u64>, b: Option<u64>, c: Option<u64>)
    ensures
        !before(a, a),
        before(a, b) && before(b, c) ==> before(a, c),
        !before(a, b) && !before(b, a) ==> a == b,
        a is None && b is Some ==> before(a, b),
        a is Some && b is Some && a->0 < b->0 ==> before(a, b),
{
}

} // verus!
