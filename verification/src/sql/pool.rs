//! A cache of database pools keyed by connection: each key keeps a queue of
//! pooled handles, handed out while healthy (not older than the maximum
//! lifetime, not idle longer than the idle timeout) and dropped otherwise.
//! Times are nanoseconds since the cache was created.

use vstd::prelude::*;

use crate::sql::DatabaseType;
use crate::url::pattern::str_equal;

verus! {

/// A point in time on the monotonic clock.
#[verifier::external_type_specification]
#[verifier::external_body]
pub struct ExInstant(std::time::Instant);

/// Reads the monotonic clock (`std::time::Instant::now`).
#[verifier::external_body]
fn clock_now() -> (r: std::time::Instant) {
    std::time::Instant::now()
}

/// Nanoseconds elapsed since `start` (`std::time::Instant::elapsed`),
/// truncated to 64 bits. Nothing is stated of the value: it is the time.
#[verifier::external_body]
fn nanos_since(start: &std::time::Instant) -> (r: u64) {
    start.elapsed().as_nanos() as u64
}

/// Limits of the pool cache; durations in nanoseconds.
#[derive(Debug, Clone, Copy, PartialEq, Eq, Structural)]
pub struct PoolConfig {
    /// Most idle handles kept per key.
    pub max_idle_per_db: usize,
    /// Oldest a handle may be.
    pub max_lifetime: u64,
    /// Longest a handle may stay unused.
    pub idle_timeout: u64,
    /// Longest a connection attempt may take.
    pub connection_timeout: u64,
    /// Whether handles are cached at all.
    pub enable_pooling: bool,
}

impl Default for PoolConfig {
    /// 32 idle handles per key, 5 minutes lifetime, 90 seconds idle
    /// timeout, 30 seconds connection timeout, caching on.
    fn default() -> (r: PoolConfig)
        ensures
            r == (PoolConfig {
                max_idle_per_db: 32,
                max_lifetime: 300_000_000_000,
                idle_timeout: 90_000_000_000,
                connection_timeout: 30_000_000_000,
                enable_pooling: true,
            }),
    {
        PoolConfig {
            max_idle_per_db: 32,
            max_lifetime: 300_000_000_000,
            idle_timeout: 90_000_000_000,
            connection_timeout: 30_000_000_000,
            enable_pooling: true,
        }
    }
}

/// The identity of a cached pool: connection string and database kind.
#[derive(Debug, Clone, Hash)]
pub struct ConnectionKey {
    pub database_url: String,
    pub db_type: DatabaseType,
}

impl ConnectionKey {
    /// A key for `database_url` and `db_type`.
    pub fn new(database_url: String, db_type: DatabaseType) -> (r: ConnectionKey)
        ensures
            r.database_url@ == database_url@,
            r.db_type == db_type,
    {
        ConnectionKey { database_url, db_type }
    }

    /// Key equality: same connection string and same database kind.
    pub fn same_as(&self, other: &ConnectionKey) -> (r: bool)
        ensures
            r == key_eq(*self, *other),
    {
        str_equal(self.database_url.as_str(), other.database_url.as_str()) && self.db_type
            == other.db_type
    }
}

/// Two keys are equal when their connection strings and kinds are.
pub open spec fn key_eq(a: ConnectionKey, b: ConnectionKey) -> bool {
    a.database_url@ == b.database_url@ && a.db_type == b.db_type
}

impl PartialEq for ConnectionKey {
    fn eq(&self, other: &Self) -> (r: bool) {
        self.same_as(other)
    }
}

impl vstd::std_specs::cmp::PartialEqSpecImpl for ConnectionKey {
    open spec fn obeys_eq_spec() -> bool {
        true
    }

    open spec fn eq_spec(&self, other: &Self) -> bool {
        key_eq(*self, *other)
    }
}

impl Eq for ConnectionKey {}

/// Counters of the pool cache.
#[derive(Debug, Clone, Copy, PartialEq, Eq, Structural)]
pub struct PoolStats {
    pub hits: u64,
    pub misses: u64,
    pub evictions: u64,
    pub pooled_connections: usize,
}

impl Default for PoolStats {
    fn default() -> (r: PoolStats)
        ensures
            r == (PoolStats { hits: 0, misses: 0, evictions: 0, pooled_connections: 0 }),
    {
        PoolStats { hits: 0, misses: 0, evictions: 0, pooled_connections: 0 }
    }
}

/// One cached handle with its times.
pub struct ConnV<P> {
    pub pool: P,
    pub created_at: u64,
    pub last_used: u64,
    pub queries: u64,
}

struct PooledDbConnection<P> {
    pool: P,
    created_at: u64,
    last_used: u64,
    query_count: u64,
}

/// Time from `t` to `now`, zero when `t` is later.
pub open spec fn since(now: u64, t: u64) -> int {
    if now >= t {
        now - t
    } else {
        0
    }
}

/// A handle is healthy at `now` when it is not older than the maximum
/// lifetime and has not been idle longer than the idle timeout.
pub open spec fn healthy<P>(c: ConnV<P>, config: PoolConfig, now: u64) -> bool {
    since(now, c.created_at) <= config.max_lifetime && since(now, c.last_used) <= config.idle_timeout
}

/// The index of the first healthy handle at or after `i`.
pub open spec fn first_healthy<P>(cs: Seq<ConnV<P>>, config: PoolConfig, now: u64, i: int) -> Option<
    int,
>
    decreases cs.len() - i,
{
    if i < 0 || i >= cs.len() {
        None
    } else if healthy(cs[i], config, now) {
        Some(i)
    } else {
        first_healthy(cs, config, now, i + 1)
    }
}

/// The healthy handles, in order.
pub open spec fn healthy_only<P>(cs: Seq<ConnV<P>>, config: PoolConfig, now: u64) -> Seq<ConnV<P>>
    decreases cs.len(),
{
    if cs.len() == 0 {
        cs
    } else {
        let p = healthy_only(cs.drop_last(), config, now);
        if healthy(cs.last(), config, now) {
            p.push(cs.last())
        } else {
            p
        }
    }
}

/// A handle after being handed out at `now`.
pub open spec fn touched<P>(c: ConnV<P>, now: u64) -> ConnV<P> {
    ConnV { pool: c.pool, created_at: c.created_at, last_used: now, queries: (c.queries + 1) as u64 }
}

impl<P> PooledDbConnection<P> {
    spec fn view(self) -> ConnV<P> {
        ConnV {
            pool: self.pool,
            created_at: self.created_at,
            last_used: self.last_used,
            queries: self.query_count,
        }
    }

    fn new(pool: P, now: u64) -> (r: PooledDbConnection<P>)
        ensures
            r.view() == (ConnV { pool, created_at: now, last_used: now, queries: 0 }),
    {
        PooledDbConnection { pool, created_at: now, last_used: now, query_count: 0 }
    }

    fn is_healthy(&self, config: &PoolConfig, now: u64) -> (r: bool)
        ensures
            r == healthy(self.view(), *config, now),
    {
        let age = if now >= self.created_at {
            now - self.created_at
        } else {
            0
        };
        if age > config.max_lifetime {
            return false;
        }
        let idle = if now >= self.last_used {
            now - self.last_used
        } else {
            0
        };
        if idle > config.idle_timeout {
            return false;
        }
        true
    }
}

/// The handles of one key, oldest first, at most `max_idle` kept on put.
struct PerDbPool<P> {
    connections: Vec<PooledDbConnection<P>>,
    max_idle: usize,
}

/// The handles of a per-key queue.
spec fn conns_view<P>(cs: Seq<PooledDbConnection<P>>) -> Seq<ConnV<P>> {
    cs.map_values(|c: PooledDbConnection<P>| c.view())
}

/// The handles after a put at `now`: the oldest is dropped when the queue
/// holds `max_idle` or more, then the new one is appended.
pub open spec fn put_spec<P>(cs: Seq<ConnV<P>>, max_idle: usize, pool: P, now: u64) -> Seq<ConnV<P>> {
    (if cs.len() >= max_idle && cs.len() > 0 {
        cs.drop_first()
    } else {
        cs
    }).push(ConnV { pool, created_at: now, last_used: now, queries: 0 })
}

/// The handles after a get at `now`: the unhealthy ones before the first
/// healthy one are dropped and that one is touched; all are dropped when
/// none is healthy.
pub open spec fn get_spec<P>(cs: Seq<ConnV<P>>, config: PoolConfig, now: u64) -> Seq<ConnV<P>> {
    match first_healthy(cs, config, now, 0) {
        Some(k) => cs.skip(k).update(0, touched(cs[k], now)),
        None => Seq::empty(),
    }
}

proof fn lemma_first_healthy_range<P>(cs: Seq<ConnV<P>>, config: PoolConfig, now: u64, i: int)
    requires
        0 <= i,
    ensures
        first_healthy(cs, config, now, i) matches Some(k) ==> i <= k < cs.len() && healthy(
            cs[k],
            config,
            now,
        ),
    decreases cs.len() - i,
{
    if i < cs.len() && !healthy(cs[i], config, now) {
        lemma_first_healthy_range(cs, config, now, i + 1);
    }
}

impl<P: Clone> PerDbPool<P> {
    spec fn view(self) -> Seq<ConnV<P>> {
        conns_view(self.connections@)
    }

    fn new(max_idle: usize) -> (r: PerDbPool<P>)
        ensures
            r.view().len() == 0,
            r.max_idle == max_idle,
    {
        let r = PerDbPool { connections: Vec::new(), max_idle };
        assert(r.view() =~= Seq::<ConnV<P>>::empty());
        r
    }

    fn get(&mut self, config: &PoolConfig, now: u64) -> (r: Option<P>)
        requires
            forall|i: int| 0 <= i < old(self).view().len() ==> (#[trigger] old(self).view()[i]).queries < u64::MAX,
        ensures
            final(self).max_idle == old(self).max_idle,
            final(self).view() == get_spec(old(self).view(), *config, now),
            r is Some <==> first_healthy(old(self).view(), *config, now, 0) is Some,
            r matches Some(p) ==> cloned(old(self).view()[first_healthy(old(self).view(), *config, now, 0)->0].pool, p),
    {
        let ghost cs = self.view();
        let ghost dropped: int = 0;
        while self.connections.len() > 0
            invariant
                0 <= dropped <= cs.len(),
                cs == old(self).view(),
                self.view() == cs.skip(dropped),
                self.max_idle == old(self).max_idle,
                first_healthy(cs, *config, now, 0) == first_healthy(cs, *config, now, dropped),
                forall|i: int| 0 <= i < cs.len() ==> (#[trigger] cs[i]).queries < u64::MAX,
            decreases self.connections.len(),
        {
            let ghost before = self.connections@;
            assert(self.view().len() == before.len());
            assert(self.view()[0] == before[0].view());
            assert(self.view()[0] == cs[dropped]);
            if !self.connections[0].is_healthy(config, now) {
                self.connections.remove(0);
                proof {
                    assert(self.connections@ =~= before.drop_first());
                    assert forall|i: int| 0 <= i < self.view().len() implies #[trigger] self.view()[i] == cs.skip(dropped + 1)[i] by {
                        assert(self.view()[i] == before[i + 1].view());
                        assert(conns_view(before)[i + 1] == before[i + 1].view());
                    }
                    assert(self.view() =~= cs.skip(dropped + 1));
                    dropped = dropped + 1;
                }
            } else {
                let c = self.connections.remove(0);
                let p = c.pool.clone();
                let fresh = PooledDbConnection {
                    pool: c.pool,
                    created_at: c.created_at,
                    last_used: now,
                    query_count: c.query_count + 1,
                };
                self.connections.insert(0, fresh);
                proof {
                    assert(first_healthy(cs, *config, now, dropped) == Some(dropped));
                    assert(self.connections@ =~= before.update(0, fresh));
                    assert forall|i: int| 0 <= i < self.view().len() implies #[trigger] self.view()[i] == cs.skip(dropped).update(0, touched(cs[dropped], now))[i] by {
                        assert(self.view()[i] == self.connections@[i].view());
                        if i > 0 {
                            assert(conns_view(before)[i] == before[i].view());
                        }
                    }
                    assert(self.view() =~= cs.skip(dropped).update(0, touched(cs[dropped], now)));
                }
                return Some(p);
            }
        }
        assert(self.view() =~= Seq::<ConnV<P>>::empty());
        None
    }

    fn put(&mut self, pool: P, now: u64)
        ensures
            final(self).max_idle == old(self).max_idle,
            final(self).view() == put_spec(old(self).view(), old(self).max_idle, pool, now),
    {
        let ghost cs = self.view();
        if self.connections.len() >= self.max_idle && self.connections.len() > 0 {
            self.connections.remove(0);
            assert(self.view() =~= cs.drop_first());
        }
        let ghost mid = self.view();
        self.connections.push(PooledDbConnection::new(pool, now));
        assert(self.view() =~= mid.push(ConnV { pool, created_at: now, last_used: now, queries: 0 }));
    }

    fn cleanup(&mut self, config: &PoolConfig, now: u64) -> (r: usize)
        ensures
            final(self).max_idle == old(self).max_idle,
            final(self).view() == healthy_only(old(self).view(), *config, now),
            r == old(self).view().len() - final(self).view().len(),
    {
        let ghost cs = self.view();
        let original_len = self.connections.len();
        assert(cs.len() == original_len);
        let mut old_conns: Vec<PooledDbConnection<P>> = Vec::new();
        std::mem::swap(&mut old_conns, &mut self.connections);
        let mut k: usize = 0;
        let mut kept: Vec<PooledDbConnection<P>> = Vec::new();
        assert(cs.take(0) =~= Seq::<ConnV<P>>::empty());
        assert(conns_view(old_conns@) == cs);
        while old_conns.len() > 0
            invariant
                k + old_conns@.len() == cs.len(),
                cs.len() <= usize::MAX,
                conns_view(old_conns@) == cs.skip(k as int),
                conns_view(kept@) == healthy_only(cs.take(k as int), *config, now),
                kept@.len() <= k,
            decreases old_conns.len(),
        {
            let ghost before = old_conns@;
            assert(conns_view(before)[0] == before[0].view());
            let c = old_conns.remove(0);
            assert(c.view() == cs[k as int]);
            assert(cs.take(k + 1).drop_last() =~= cs.take(k as int));
            assert(old_conns@ =~= before.drop_first());
            assert forall|i: int| 0 <= i < conns_view(old_conns@).len() implies #[trigger] conns_view(old_conns@)[i] == cs.skip(k + 1)[i] by {
                assert(conns_view(old_conns@)[i] == old_conns@[i].view());
                assert(conns_view(before)[i + 1] == before[i + 1].view());
            }
            assert(conns_view(old_conns@) =~= cs.skip(k + 1));
            if c.is_healthy(config, now) {
                let ghost before = conns_view(kept@);
                kept.push(c);
                assert(conns_view(kept@) =~= before.push(cs[k as int]));
            }
            k = k + 1;
        }
        assert(cs.take(k as int) =~= cs);
        self.connections = kept;
        proof {
            lemma_healthy_only_len(cs, *config, now);
        }
        original_len - self.connections.len()
    }
}

proof fn lemma_healthy_only_len<P>(cs: Seq<ConnV<P>>, config: PoolConfig, now: u64)
    ensures
        healthy_only(cs, config, now).len() <= cs.len(),
    decreases cs.len(),
{
    if cs.len() > 0 {
        lemma_healthy_only_len(cs.drop_last(), config, now);
    }
}

/// The total number of cached handles over all keys.
pub open spec fn total<P>(pools: Seq<(ConnectionKey, Seq<ConnV<P>>)>) -> nat
    decreases pools.len(),
{
    if pools.len() == 0 {
        0
    } else {
        total(pools.drop_last()) + pools.last().1.len()
    }
}

/// The index of the first entry with key `key`.
pub open spec fn key_index<P>(pools: Seq<(ConnectionKey, Seq<ConnV<P>>)>, key: ConnectionKey) -> Option<int> {
    key_index_from(pools, key, 0)
}

/// The index of the first entry with key `key` at or after `i`.
pub open spec fn key_index_from<P>(pools: Seq<(ConnectionKey, Seq<ConnV<P>>)>, key: ConnectionKey, i: int) -> Option<int>
    decreases pools.len() - i,
{
    if i < 0 || i >= pools.len() {
        None
    } else if key_eq(pools[i].0, key) {
        Some(i)
    } else {
        key_index_from(pools, key, i + 1)
    }
}

proof fn lemma_key_index_range<P>(ps: Seq<(ConnectionKey, Seq<ConnV<P>>)>, key: ConnectionKey, i: int)
    requires
        0 <= i,
    ensures
        key_index_from(ps, key, i) matches Some(j) ==> i <= j < ps.len() && key_eq(ps[j].0, key),
    decreases ps.len() - i,
{
    if i < ps.len() && !key_eq(ps[i].0, key) {
        lemma_key_index_range(ps, key, i + 1);
    }
}

proof fn lemma_key_index_same_keys<P>(
    ps: Seq<(ConnectionKey, Seq<ConnV<P>>)>,
    ps2: Seq<(ConnectionKey, Seq<ConnV<P>>)>,
    key: ConnectionKey,
    i: int,
)
    requires
        0 <= i,
        ps.len() == ps2.len(),
        forall|m: int| 0 <= m < ps.len() ==> (#[trigger] ps[m]).0 == ps2[m].0,
    ensures
        key_index_from(ps, key, i) == key_index_from(ps2, key, i),
    decreases ps.len() - i,
{
    if i < ps.len() {
        assert(ps[i].0 == ps2[i].0);
        lemma_key_index_same_keys(ps, ps2, key, i + 1);
    }
}

proof fn lemma_key_index_push<P>(
    ps: Seq<(ConnectionKey, Seq<ConnV<P>>)>,
    x: (ConnectionKey, Seq<ConnV<P>>),
    key: ConnectionKey,
    i: int,
)
    requires
        0 <= i <= ps.len(),
        key_index_from(ps, key, i) is None,
        key_eq(x.0, key),
    ensures
        key_index_from(ps.push(x), key, i) == Some(ps.len() as int),
    decreases ps.len() - i,
{
    if i < ps.len() {
        assert(ps.push(x)[i] == ps[i]);
        lemma_key_index_push(ps, x, key, i + 1);
    }
}

/// No key occurs twice in the cache.
pub open spec fn keys_unique<P>(ps: Seq<(ConnectionKey, Seq<ConnV<P>>)>) -> bool {
    forall|i: int, j: int| 0 <= i < j < ps.len() ==> !key_eq(#[trigger] ps[i].0, #[trigger] ps[j].0)
}

proof fn lemma_key_index_none<P>(ps: Seq<(ConnectionKey, Seq<ConnV<P>>)>, key: ConnectionKey, i: int)
    requires
        0 <= i,
        key_index_from(ps, key, i) is None,
    ensures
        forall|m: int| i <= m < ps.len() ==> !key_eq(#[trigger] ps[m].0, key),
    decreases ps.len() - i,
{
    if i < ps.len() {
        lemma_key_index_none(ps, key, i + 1);
    }
}

/// The cache after a cleanup at `now`: unhealthy handles dropped, keys left
/// without handles dropped, order kept.
pub open spec fn cleaned<P>(pools: Seq<(ConnectionKey, Seq<ConnV<P>>)>, config: PoolConfig, now: u64) -> Seq<
    (ConnectionKey, Seq<ConnV<P>>),
>
    decreases pools.len(),
{
    if pools.len() == 0 {
        pools
    } else {
        let p = cleaned(pools.drop_last(), config, now);
        let kept = healthy_only(pools.last().1, config, now);
        if kept.len() > 0 {
            p.push((pools.last().0, kept))
        } else {
            p
        }
    }
}

/// A handle within both limits at `now`: not older than the maximum
/// lifetime and not idle longer than the idle timeout (a time stamp after
/// `now` counts as no time passed).
pub open spec fn within_limits<P>(c: ConnV<P>, config: PoolConfig, now: u64) -> bool {
    &&& c.created_at <= now ==> now - c.created_at <= config.max_lifetime
    &&& c.last_used <= now ==> now - c.last_used <= config.idle_timeout
}

/// Filtering a queue at `now` keeps exactly its handles within both limits:
/// every kept handle is one of the queue's and within the limits, and every
/// handle of the queue within the limits is kept.
pub proof fn lemma_healthy_only_exact<P>(cs: Seq<ConnV<P>>, config: PoolConfig, now: u64)
    ensures
        forall|j: int| 0 <= j < healthy_only(cs, config, now).len() ==> cs.contains(
            #[trigger] healthy_only(cs, config, now)[j],
        ) && within_limits(healthy_only(cs, config, now)[j], config, now),
        forall|j: int| 0 <= j < cs.len() && within_limits(#[trigger] cs[j], config, now) ==> healthy_only(
            cs,
            config,
            now,
        ).contains(cs[j]),
        healthy_only(cs, config, now).len() <= cs.len(),
    decreases cs.len(),
{
    if cs.len() > 0 {
        let d = cs.drop_last();
        lemma_healthy_only_exact(d, config, now);
        let p = healthy_only(d, config, now);
        let h = healthy_only(cs, config, now);
        assert forall|j: int| 0 <= j < h.len() implies cs.contains(#[trigger] h[j]) && within_limits(h[j], config, now) by {
            if j < p.len() {
                assert(h[j] == p[j]);
                let m = choose|m: int| 0 <= m < d.len() && d[m] == p[j];
                assert(cs[m] == d[m]);
            } else {
                assert(h[j] == cs.last());
                assert(cs[cs.len() - 1] == cs.last());
            }
        }
        assert forall|j: int| 0 <= j < cs.len() && within_limits(#[trigger] cs[j], config, now) implies h.contains(cs[j]) by {
            if j < cs.len() - 1 {
                assert(d[j] == cs[j]);
                assert(p.contains(d[j]));
                let m = choose|m: int| 0 <= m < p.len() && p[m] == d[j];
                if healthy(cs.last(), config, now) {
                    assert(h[m] == p[m]);
                }
            } else {
                assert(h[h.len() - 1] == cs.last());
            }
        }
    }
}

/// The handle a get picks at `now` is the first one within both limits:
/// it is within them, and every handle before it is not.
pub proof fn lemma_first_healthy_exact<P>(cs: Seq<ConnV<P>>, config: PoolConfig, now: u64, i: int)
    requires
        0 <= i,
    ensures
        first_healthy(cs, config, now, i) matches Some(j) ==> i <= j < cs.len() && within_limits(cs[j], config, now)
            && forall|m: int| i <= m < j ==> !within_limits(#[trigger] cs[m], config, now),
        first_healthy(cs, config, now, i) is None ==> forall|m: int| i <= m < cs.len() ==> !within_limits(
            #[trigger] cs[m],
            config,
            now,
        ),
    decreases cs.len() - i,
{
    if i < cs.len() && !healthy(cs[i], config, now) {
        lemma_first_healthy_exact(cs, config, now, i + 1);
    }
}

/// After a cleanup at `now` every cached handle is within both limits, and
/// every handle of the cache that was within both limits is still cached
/// under its key.
pub proof fn lemma_cleaned_exact<P>(pools: Seq<(ConnectionKey, Seq<ConnV<P>>)>, config: PoolConfig, now: u64)
    ensures
        forall|k: int, j: int|
            0 <= k < cleaned(pools, config, now).len() && 0 <= j < cleaned(pools, config, now)[k].1.len()
                ==> within_limits(#[trigger] cleaned(pools, config, now)[k].1[j], config, now),
        forall|k: int, j: int|
            0 <= k < pools.len() && 0 <= j < pools[k].1.len() && within_limits(#[trigger] pools[k].1[j], config, now)
                ==> exists|k2: int|
                0 <= k2 < cleaned(pools, config, now).len() && #[trigger] cleaned(pools, config, now)[k2].0
                    == pools[k].0 && cleaned(pools, config, now)[k2].1.contains(pools[k].1[j]),
    decreases pools.len(),
{
    if pools.len() > 0 {
        let d = pools.drop_last();
        lemma_cleaned_exact(d, config, now);
        let p = cleaned(d, config, now);
        let last = pools.last();
        let kept = healthy_only(last.1, config, now);
        lemma_healthy_only_exact(last.1, config, now);
        let c = cleaned(pools, config, now);
        assert forall|k: int, j: int| 0 <= k < c.len() && 0 <= j < c[k].1.len() implies within_limits(
            #[trigger] c[k].1[j],
            config,
            now,
        ) by {
            if k < p.len() {
                assert(c[k] == p[k]);
            } else {
                assert(c[k] == (last.0, kept));
            }
        }
        assert forall|k: int, j: int|
            0 <= k < pools.len() && 0 <= j < pools[k].1.len() && within_limits(#[trigger] pools[k].1[j], config, now)
            implies exists|k2: int|
            0 <= k2 < c.len() && #[trigger] c[k2].0 == pools[k].0 && c[k2].1.contains(pools[k].1[j]) by {
            if k < pools.len() - 1 {
                assert(d[k] == pools[k]);
                assert(d[k].1[j] == pools[k].1[j]);
                let k2 = choose|k2: int| 0 <= k2 < p.len() && #[trigger] p[k2].0 == d[k].0 && p[k2].1.contains(d[k].1[j]);
                if kept.len() > 0 {
                    assert(c[k2] == p[k2]);
                }
                assert(c[k2].0 == pools[k].0);
            } else {
                assert(pools[k] == last);
                assert(kept.contains(last.1[j]));
                assert(kept.len() > 0);
                assert(c[p.len() as int] == (last.0, kept));
                assert(c[p.len() as int].0 == pools[k].0);
            }
        }
    }
}

/// A cleanup keeps keys unique: the keys it keeps are keys of the cache.
proof fn lemma_cleaned_keys<P>(pools: Seq<(ConnectionKey, Seq<ConnV<P>>)>, config: PoolConfig, now: u64)
    requires
        keys_unique(pools),
    ensures
        keys_unique(cleaned(pools, config, now)),
        forall|a: int| #![trigger cleaned(pools, config, now)[a]] 0 <= a < cleaned(pools, config, now).len() ==> exists|m: int|
            0 <= m < pools.len() && #[trigger] pools[m].0 == cleaned(pools, config, now)[a].0,
    decreases pools.len(),
{
    if pools.len() > 0 {
        let d = pools.drop_last();
        assert(keys_unique(d)) by {
            assert forall|i: int, j: int| 0 <= i < j < d.len() implies !key_eq(#[trigger] d[i].0, #[trigger] d[j].0) by {
                assert(d[i] == pools[i] && d[j] == pools[j]);
            }
        }
        lemma_cleaned_keys(d, config, now);
        let p = cleaned(d, config, now);
        let kept = healthy_only(pools.last().1, config, now);
        let c = cleaned(pools, config, now);
        assert forall|a: int| #![trigger p[a]] 0 <= a < p.len() implies exists|m: int|
            0 <= m < pools.len() - 1 && #[trigger] pools[m].0 == p[a].0 by {
            let m = choose|m: int| 0 <= m < d.len() && #[trigger] d[m].0 == p[a].0;
            assert(pools[m] == d[m]);
        }
        if kept.len() > 0 {
            assert(c == p.push((pools.last().0, kept)));
            assert forall|i: int, j: int| 0 <= i < j < c.len() implies !key_eq(#[trigger] c[i].0, #[trigger] c[j].0) by {
                if j == p.len() {
                    let m = choose|m: int| 0 <= m < pools.len() - 1 && #[trigger] pools[m].0 == p[i].0;
                    assert(c[i] == p[i]);
                    assert(!key_eq(pools[m].0, pools[pools.len() - 1].0));
                } else {
                    assert(c[i] == p[i] && c[j] == p[j]);
                }
            }
            assert forall|a: int| #![trigger c[a]] 0 <= a < c.len() implies exists|m: int|
                0 <= m < pools.len() && #[trigger] pools[m].0 == c[a].0 by {
                if a == p.len() {
                    assert(pools[pools.len() - 1].0 == c[a].0);
                } else {
                    let m = choose|m: int| 0 <= m < pools.len() - 1 && #[trigger] pools[m].0 == p[a].0;
                    assert(c[a] == p[a]);
                }
            }
        } else {
            assert(c == p);
        }
    }
}

proof fn lemma_cleaned_total<P>(pools: Seq<(ConnectionKey, Seq<ConnV<P>>)>, config: PoolConfig, now: u64)
    ensures
        total(cleaned(pools, config, now)) <= total(pools),
    decreases pools.len(),
{
    if pools.len() > 0 {
        lemma_cleaned_total(pools.drop_last(), config, now);
        lemma_healthy_only_len(pools.last().1, config, now);
        let p = cleaned(pools.drop_last(), config, now);
        let kept = healthy_only(pools.last().1, config, now);
        if kept.len() > 0 {
            assert(p.push((pools.last().0, kept)).drop_last() =~= p);
        }
    }
}

proof fn lemma_total_update<P>(pools: Seq<(ConnectionKey, Seq<ConnV<P>>)>, i: int, e: (ConnectionKey, Seq<ConnV<P>>))
    requires
        0 <= i < pools.len(),
    ensures
        total(pools.update(i, e)) == total(pools) - pools[i].1.len() + e.1.len(),
    decreases pools.len(),
{
    if i < pools.len() - 1 {
        lemma_total_update(pools.drop_last(), i, e);
        assert(pools.update(i, e).drop_last() =~= pools.drop_last().update(i, e));
    } else {
        assert(pools.update(i, e).drop_last() =~= pools.drop_last());
    }
}

/// The cached handles of a sequence of per-key queues.
spec fn entries_view<P>(s: Seq<(ConnectionKey, PerDbPool<P>)>) -> Seq<(ConnectionKey, Seq<ConnV<P>>)> {
    s.map_values(|e: (ConnectionKey, PerDbPool<P>)| (e.0, conns_view(e.1.connections@)))
}

/// A cache of database pools by connection key, with its limits and
/// counters.
pub struct ConnectionPool<P> {
    pools: Vec<(ConnectionKey, PerDbPool<P>)>,
    config: PoolConfig,
    stats: PoolStats,
    epoch: std::time::Instant,
}

impl<P: Clone> ConnectionPool<P> {
    /// The cached handles by key, in the order the keys were first seen.
    pub closed spec fn pools_view(self) -> Seq<(ConnectionKey, Seq<ConnV<P>>)> {
        entries_view(self.pools@)
    }

    /// The limits.
    pub closed spec fn config_view(self) -> PoolConfig {
        self.config
    }

    /// The counters (the pooled-connection count is the one of the last
    /// cleanup or clear).
    pub closed spec fn stats_view(self) -> PoolStats {
        self.stats
    }

    /// Every key's queue keeps the configured number of idle handles, and no
    /// key occurs twice.
    pub closed spec fn wf(self) -> bool {
        &&& forall|i: int| 0 <= i < self.pools@.len() ==> (#[trigger] self.pools@[i]).1.max_idle == self.config.max_idle_per_db
        &&& keys_unique(self.pools_view())
    }

    /// In a well-formed cache no key occurs twice.
    pub proof fn lemma_keys_unique(self)
        requires
            self.wf(),
        ensures
            keys_unique(self.pools_view()),
    {
    }

    /// An empty cache with limits `config`; its clock starts now.
    pub fn new(config: PoolConfig) -> (r: ConnectionPool<P>)
        ensures
            r.wf(),
            r.pools_view().len() == 0,
            r.config_view() == config,
            r.stats_view() == (PoolStats { hits: 0, misses: 0, evictions: 0, pooled_connections: 0 }),
    {
        let r = ConnectionPool {
            pools: Vec::new(),
            config,
            stats: PoolStats::default(),
            epoch: clock_now(),
        };
        assert(r.pools_view() =~= Seq::<(ConnectionKey, Seq<ConnV<P>>)>::empty());
        r
    }


    /// Whether a get can count its outcome: the hit and miss counters and
    /// every handle's query count are below their maximum.
    pub fn can_count(&self) -> (r: bool)
        ensures
            r == (self.stats_view().hits < u64::MAX && self.stats_view().misses < u64::MAX && forall|i: int, j: int|
                0 <= i < self.pools_view().len() && 0 <= j < self.pools_view()[i].1.len()
                    ==> (#[trigger] self.pools_view()[i].1[j]).queries < u64::MAX),
    {
        if self.stats.hits == u64::MAX || self.stats.misses == u64::MAX {
            return false;
        }
        let ghost ps = self.pools_view();
        let mut i: usize = 0;
        while i < self.pools.len()
            invariant
                ps == self.pools_view(),
                ps.len() == self.pools@.len(),
                i <= ps.len(),
                forall|a: int, b: int| 0 <= a < i && 0 <= b < ps[a].1.len() ==> (#[trigger] ps[a].1[b]).queries < u64::MAX,
            decreases self.pools.len() - i,
        {
            let conns = &self.pools[i].1.connections;
            assert(ps[i as int].1 == conns_view(conns@));
            let mut j: usize = 0;
            while j < conns.len()
                invariant
                    ps == self.pools_view(),
                    ps.len() == self.pools@.len(),
                    i < ps.len(),
                    ps[i as int].1 == conns_view(conns@),
                    j <= conns@.len(),
                    forall|b: int| 0 <= b < j ==> (#[trigger] ps[i as int].1[b]).queries < u64::MAX,
                decreases conns.len() - j,
            {
                assert(ps[i as int].1[j as int] == conns@[j as int].view());
                if conns[j].query_count == u64::MAX {
                    return false;
                }
                j = j + 1;
            }
            i = i + 1;
        }
        true
    }

    /// Whether a cleanup can count its evictions and the cached handles:
    /// the number of handles fits a `usize`, and added to the eviction
    /// counter it fits a `u64`.
    pub fn can_sweep(&self) -> (r: bool)
        ensures
            r == (self.stats_view().evictions + total(self.pools_view()) <= u64::MAX && total(self.pools_view()) <= usize::MAX),
    {
        let ghost ps = self.pools_view();
        let mut sum: u64 = 0;
        let mut k: usize = 0;
        assert(ps.take(0) =~= Seq::<(ConnectionKey, Seq<ConnV<P>>)>::empty());
        while k < self.pools.len()
            invariant
                ps == self.pools_view(),
                ps.len() == self.pools@.len(),
                k <= ps.len(),
                sum as int == total(ps.take(k as int)),
                sum <= usize::MAX,
                self.stats.evictions + sum <= u64::MAX,
            decreases self.pools.len() - k,
        {
            proof {
                lemma_total_prefix(ps, k as int);
            }
            assert(ps.take(k + 1).drop_last() =~= ps.take(k as int));
            assert(ps[k as int].1 == self.pools@[k as int].1.view());
            let n = self.pools[k].1.connections.len() as u64;
            if n > u64::MAX - self.stats.evictions - sum || sum + n > usize::MAX as u64 {
                proof {
                    lemma_total_prefix_mono(ps, k as int + 1);
                }
                return false;
            }
            sum = sum + n;
            k = k + 1;
        }
        assert(ps.take(k as int) =~= ps);
        true
    }

    /// The position of the first entry for `key`.
    fn position(&self, key: &ConnectionKey) -> (r: Option<usize>)
        ensures
            r matches Some(i) ==> Some(i as int) == key_index(self.pools_view(), *key) && i < self.pools_view().len(),
            r is None ==> key_index(self.pools_view(), *key) is None,
    {
        let ghost ps = self.pools_view();
        let mut k: usize = 0;
        while k < self.pools.len()
            invariant
                ps == self.pools_view(),
                ps.len() == self.pools@.len(),
                k <= ps.len(),
                key_index(ps, *key) == key_index_from(ps, *key, k as int),
            decreases self.pools.len() - k,
        {
            assert(ps[k as int].0 == self.pools@[k as int].0);
            if self.pools[k].0.same_as(key) {
                return Some(k);
            }
            k = k + 1;
        }
        None
    }

    /// The handle cached for `key` at time `now`: the first healthy one,
    /// touched, after dropping the unhealthy ones before it. Counts a hit or
    /// a miss. With caching off, nothing is returned or counted.
    pub fn get_at(&mut self, key: &ConnectionKey, now: u64) -> (r: Option<P>)
        requires
            old(self).wf(),
            old(self).stats_view().hits < u64::MAX,
            old(self).stats_view().misses < u64::MAX,
            forall|i: int, j: int|
                0 <= i < old(self).pools_view().len() && 0 <= j < old(self).pools_view()[i].1.len()
                    ==> (#[trigger] old(self).pools_view()[i].1[j]).queries < u64::MAX,
        ensures
            final(self).wf(),
            final(self).config_view() == old(self).config_view(),
            !old(self).config_view().enable_pooling ==> r is None && final(self).pools_view()
                == old(self).pools_view() && final(self).stats_view() == old(self).stats_view(),
            old(self).config_view().enable_pooling ==> get_outcome(
                old(self).pools_view(),
                final(self).pools_view(),
                old(self).stats_view(),
                final(self).stats_view(),
                old(self).config_view(),
                *key,
                now,
                r,
            ),
    {
        if !self.config.enable_pooling {
            return None;
        }
        let ghost ps = self.pools_view();
        let r = match self.position(key) {
            Some(i) => {
                assert(ps.len() == self.pools@.len());
                assert(ps[i as int] == (self.pools@[i as int].0, self.pools@[i as int].1.view()));
                let mut entry = self.pools.remove(i);
                assert forall|j: int| 0 <= j < entry.1.view().len() implies (#[trigger] entry.1.view()[j]).queries < u64::MAX by {
                    assert(ps[i as int].1[j] == entry.1.view()[j]);
                }
                let got = entry.1.get(&self.config, now);
                self.pools.insert(i, entry);
                proof {
                    let ps2 = self.pools_view();
                    assert(self.pools@ =~= old(self).pools@.update(i as int, entry));
                    assert(ps2 =~= ps.update(i as int, (ps[i as int].0, get_spec(ps[i as int].1, self.config, now))));
                }
                got
            },
            None => None,
        };
        if r.is_some() {
            self.stats.hits = self.stats.hits + 1;
        } else {
            self.stats.misses = self.stats.misses + 1;
        }
        r
    }

    /// Caches `pool` for `key` at time `now`, creating the key's queue when
    /// needed; a full queue drops its oldest handle first. With caching off,
    /// nothing changes.
    pub fn put_at(&mut self, key: ConnectionKey, pool: P, now: u64)
        requires
            old(self).wf(),
        ensures
            final(self).wf(),
            final(self).config_view() == old(self).config_view(),
            final(self).stats_view() == old(self).stats_view(),
            !old(self).config_view().enable_pooling ==> final(self).pools_view() == old(self).pools_view(),
            old(self).config_view().enable_pooling ==> final(self).pools_view() == put_outcome(
                old(self).pools_view(),
                old(self).config_view(),
                key,
                pool,
                now,
            ),
    {
        if !self.config.enable_pooling {
            return;
        }
        let ghost ps = self.pools_view();
        match self.position(&key) {
            Some(i) => {
                assert(ps.len() == self.pools@.len());
                assert(ps[i as int] == (self.pools@[i as int].0, self.pools@[i as int].1.view()));
                let mut entry = self.pools.remove(i);
                entry.1.put(pool, now);
                self.pools.insert(i, entry);
                proof {
                    assert(self.pools@ =~= old(self).pools@.update(i as int, entry));
                    assert(self.pools_view() =~= ps.update(
                        i as int,
                        (ps[i as int].0, put_spec(ps[i as int].1, self.config.max_idle_per_db, pool, now)),
                    ));
                    let ps2 = self.pools_view();
                    assert forall|a: int, b: int| 0 <= a < b < ps2.len() implies !key_eq(#[trigger] ps2[a].0, #[trigger] ps2[b].0) by {
                        assert(ps2[a].0 == ps[a].0 && ps2[b].0 == ps[b].0);
                    }
                    assert forall|j: int| 0 <= j < self.pools@.len() implies (#[trigger] self.pools@[j]).1.max_idle
                        == self.config.max_idle_per_db by {
                        if j != i {
                            assert(self.pools@[j] == old(self).pools@[j]);
                        }
                    }
                }
            },
            None => {
                let mut fresh = PerDbPool::new(self.config.max_idle_per_db);
                assert(fresh.view() =~= Seq::<ConnV<P>>::empty());
                fresh.put(pool, now);
                let ghost kv = key;
                let ghost fv = fresh.view();
                self.pools.push((key, fresh));
                proof {
                    assert(self.pools@ =~= old(self).pools@.push((kv, fresh)));
                    assert(entries_view(self.pools@) =~= entries_view(old(self).pools@).push((kv, fv)));
                    assert(self.pools_view() =~= ps.push((kv, put_spec(Seq::<ConnV<P>>::empty(), self.config.max_idle_per_db, pool, now))));
                    lemma_key_index_none(ps, kv, 0);
                    let ps2 = self.pools_view();
                    assert forall|a: int, b: int| 0 <= a < b < ps2.len() implies !key_eq(#[trigger] ps2[a].0, #[trigger] ps2[b].0) by {
                        assert(ps2[a].0 == ps[a].0);
                        if b < ps.len() {
                            assert(ps2[b].0 == ps[b].0);
                        } else {
                            assert(ps2[b].0 == kv);
                        }
                    }
                    assert forall|j: int| 0 <= j < self.pools@.len() implies (#[trigger] self.pools@[j]).1.max_idle
                        == self.config.max_idle_per_db by {
                        if j < ps.len() {
                            assert(self.pools@[j] == old(self).pools@[j]);
                        }
                    }
                }
            },
        }
    }

    /// Drops the unhealthy handles at time `now` and the keys left empty;
    /// counts the dropped handles as evictions and records how many remain.
    pub fn cleanup_at(&mut self, now: u64)
        requires
            old(self).wf(),
            old(self).stats_view().evictions + total(old(self).pools_view()) <= u64::MAX,
            total(old(self).pools_view()) <= usize::MAX,
        ensures
            final(self).wf(),
            final(self).config_view() == old(self).config_view(),
            final(self).pools_view() == cleaned(old(self).pools_view(), old(self).config_view(), now),
            forall|k: int, j: int|
                0 <= k < final(self).pools_view().len() && 0 <= j < final(self).pools_view()[k].1.len()
                    ==> within_limits(#[trigger] final(self).pools_view()[k].1[j], old(self).config_view(), now),
            final(self).stats_view() == (PoolStats {
                hits: old(self).stats_view().hits,
                misses: old(self).stats_view().misses,
                evictions: (old(self).stats_view().evictions + total(old(self).pools_view()) - total(
                    final(self).pools_view(),
                )) as u64,
                pooled_connections: total(final(self).pools_view()) as usize,
            }),
    {
        let ghost ps = self.pools_view();
        let mut old_pools: Vec<(ConnectionKey, PerDbPool<P>)> = Vec::new();
        std::mem::swap(&mut old_pools, &mut self.pools);
        let mut kept: Vec<(ConnectionKey, PerDbPool<P>)> = Vec::new();
        let mut evicted: u64 = 0;
        let mut remaining: usize = 0;
        let mut k: usize = 0;
        let ghost done: Seq<(ConnectionKey, Seq<ConnV<P>>)> = Seq::empty();
        assert(ps.take(0) =~= Seq::<(ConnectionKey, Seq<ConnV<P>>)>::empty());
        assert(entries_view(old_pools@) == ps);
        assert(ps.len() == old_pools@.len());
        assert(old_pools@.len() == old_pools.len());
        assert(ps.skip(0) =~= ps);
        while old_pools.len() > 0
            invariant
                k + old_pools@.len() == ps.len(),
                ps.len() <= usize::MAX,
                entries_view(old_pools@) == ps.skip(k as int),
                entries_view(kept@) == cleaned(ps.take(k as int), self.config, now),
                forall|j: int| 0 <= j < old_pools@.len() ==> (#[trigger] old_pools@[j]).1.max_idle == self.config.max_idle_per_db,
                forall|j: int| 0 <= j < kept@.len() ==> (#[trigger] kept@[j]).1.max_idle == self.config.max_idle_per_db,
                remaining as int == total(cleaned(ps.take(k as int), self.config, now)),
                evicted as int == total(ps.take(k as int)) - total(cleaned(ps.take(k as int), self.config, now)),
                total(ps) <= usize::MAX,
                self.stats.evictions + total(ps) <= u64::MAX,
                self.stats == old(self).stats,
                self.config == old(self).config,
            decreases old_pools.len(),
        {
            let ghost before = old_pools@;
            assert(entries_view(before)[0] == (before[0].0, before[0].1.view()));
            let mut e = old_pools.remove(0);
            assert(old_pools@ =~= before.drop_first());
            assert forall|j: int| 0 <= j < old_pools@.len() implies #[trigger] entries_view(old_pools@)[j] == ps.skip(k + 1)[j] by {
                assert(old_pools@[j] == before[j + 1]);
                assert(entries_view(before)[j + 1] == (
                    before[j + 1].0,
                    before[j + 1].1.view(),
                ));
            }
            assert(entries_view(old_pools@) =~= ps.skip(k + 1));
            assert(ps.take(k + 1).drop_last() =~= ps.take(k as int));
            assert(ps.take(k + 1).last() == ps[k as int]);
            assert(ps[k as int] == (e.0, e.1.view()));
            proof {
                lemma_total_prefix(ps, k as int);
                lemma_cleaned_total(ps.take(k + 1), self.config, now);
                lemma_cleaned_total(ps.take(k as int), self.config, now);
                lemma_healthy_only_len(e.1.view(), self.config, now);
            }
            let n = e.1.cleanup(&self.config, now);
            let ghost kept_conns = healthy_only(ps[k as int].1, self.config, now);
            let ghost prev = cleaned(ps.take(k as int), self.config, now);
            assert(e.1.view().len() == e.1.connections@.len());
            assert(e.1.view() == kept_conns);
            evicted = evicted + n as u64;
            if e.1.connections.len() > 0 {
                assert(cleaned(ps.take(k + 1), self.config, now) == prev.push((ps[k as int].0, kept_conns)));
                assert(prev.push((ps[k as int].0, kept_conns)).drop_last() =~= prev);
                assert(total(prev.push((ps[k as int].0, kept_conns))) == total(prev) + kept_conns.len());
                remaining = remaining + e.1.connections.len();
                let ghost bk = kept@;
                kept.push(e);
                assert(entries_view(kept@) =~= entries_view(bk).push((ps[k as int].0, healthy_only(ps[k as int].1, self.config, now))));
            } else {
                assert(cleaned(ps.take(k + 1), self.config, now) == prev);
            }
            k = k + 1;
        }
        assert(ps.take(k as int) =~= ps);
        proof {
            lemma_cleaned_keys(ps, self.config, now);
            lemma_cleaned_exact(ps, self.config, now);
        }
        self.pools = kept;
        self.stats.evictions = self.stats.evictions + evicted;
        self.stats.pooled_connections = remaining;
    }

    /// The counters, with the number of handles cached now.
    pub fn stats(&self) -> (r: PoolStats)
        requires
            total(self.pools_view()) <= usize::MAX,
        ensures
            r == (PoolStats {
                hits: self.stats_view().hits,
                misses: self.stats_view().misses,
                evictions: self.stats_view().evictions,
                pooled_connections: total(self.pools_view()) as usize,
            }),
    {
        let ghost ps = self.pools_view();
        let mut sum: usize = 0;
        let mut k: usize = 0;
        assert(ps.take(0) =~= Seq::<(ConnectionKey, Seq<ConnV<P>>)>::empty());
        while k < self.pools.len()
            invariant
                ps == self.pools_view(),
                ps.len() == self.pools@.len(),
                k <= ps.len(),
                sum as int == total(ps.take(k as int)),
                total(ps) <= usize::MAX,
            decreases self.pools.len() - k,
        {
            proof {
                lemma_total_prefix(ps, k as int);
            }
            assert(ps.take(k + 1).drop_last() =~= ps.take(k as int));
            assert(ps[k as int].1 == self.pools@[k as int].1.view());
            sum = sum + self.pools[k].1.connections.len();
            k = k + 1;
        }
        assert(ps.take(k as int) =~= ps);
        PoolStats {
            hits: self.stats.hits,
            misses: self.stats.misses,
            evictions: self.stats.evictions,
            pooled_connections: sum,
        }
    }

    /// Drops every cached handle and records that none remains.
    pub fn clear(&mut self)
        requires
            old(self).wf(),
        ensures
            final(self).wf(),
            final(self).config_view() == old(self).config_view(),
            final(self).pools_view().len() == 0,
            final(self).stats_view() == (PoolStats { pooled_connections: 0, ..old(self).stats_view() }),
    {
        self.pools = Vec::new();
        self.stats.pooled_connections = 0;
        assert(self.pools_view() =~= Seq::<(ConnectionKey, Seq<ConnV<P>>)>::empty());
    }

    /// [`ConnectionPool::get_at`] at the current time of the cache's clock.
    pub fn get(&mut self, key: &ConnectionKey) -> (r: Option<P>)
        requires
            old(self).wf(),
            old(self).stats_view().hits < u64::MAX,
            old(self).stats_view().misses < u64::MAX,
            forall|i: int, j: int|
                0 <= i < old(self).pools_view().len() && 0 <= j < old(self).pools_view()[i].1.len()
                    ==> (#[trigger] old(self).pools_view()[i].1[j]).queries < u64::MAX,
        ensures
            final(self).wf(),
            final(self).config_view() == old(self).config_view(),
            !old(self).config_view().enable_pooling ==> r is None && final(self).pools_view()
                == old(self).pools_view() && final(self).stats_view() == old(self).stats_view(),
            old(self).config_view().enable_pooling ==> exists|now: u64|
                get_outcome(
                    old(self).pools_view(),
                    final(self).pools_view(),
                    old(self).stats_view(),
                    final(self).stats_view(),
                    old(self).config_view(),
                    *key,
                    now,
                    r,
                ),
    {
        let now = nanos_since(&self.epoch);
        self.get_at(key, now)
    }

    /// [`ConnectionPool::put_at`] at the current time of the cache's clock.
    pub fn put(&mut self, key: ConnectionKey, pool: P)
        requires
            old(self).wf(),
        ensures
            final(self).wf(),
            final(self).config_view() == old(self).config_view(),
            final(self).stats_view() == old(self).stats_view(),
            !old(self).config_view().enable_pooling ==> final(self).pools_view() == old(self).pools_view(),
            old(self).config_view().enable_pooling ==> exists|now: u64|
                final(self).pools_view() == #[trigger] put_outcome(old(self).pools_view(), old(self).config_view(), key, pool, now),
    {
        let now = nanos_since(&self.epoch);
        self.put_at(key, pool, now);
    }

    /// [`ConnectionPool::cleanup_at`] at the current time of the cache's clock.
    pub fn cleanup(&mut self)
        requires
            old(self).wf(),
            old(self).stats_view().evictions + total(old(self).pools_view()) <= u64::MAX,
            total(old(self).pools_view()) <= usize::MAX,
        ensures
            final(self).wf(),
            final(self).config_view() == old(self).config_view(),
            exists|now: u64| final(self).pools_view() == #[trigger] cleaned(old(self).pools_view(), old(self).config_view(), now),
            final(self).stats_view().hits == old(self).stats_view().hits,
            final(self).stats_view().misses == old(self).stats_view().misses,
            final(self).stats_view().evictions == old(self).stats_view().evictions + total(old(self).pools_view()) - total(final(self).pools_view()),
            final(self).stats_view().pooled_connections == total(final(self).pools_view()),
    {
        let now = nanos_since(&self.epoch);
        self.cleanup_at(now);
        proof {
            lemma_cleaned_total(old(self).pools_view(), old(self).config_view(), now);
        }
    }
}

/// The outcome of a get for `key` at `now` with caching on: a key without a
/// queue is a miss and changes nothing else; otherwise the key's queue
/// becomes [`get_spec`] of it, the handle returned is a copy of its first
/// healthy one, and a hit or a miss is counted accordingly.
pub open spec fn get_outcome<P: Clone>(
    ps: Seq<(ConnectionKey, Seq<ConnV<P>>)>,
    ps2: Seq<(ConnectionKey, Seq<ConnV<P>>)>,
    st: PoolStats,
    st2: PoolStats,
    config: PoolConfig,
    key: ConnectionKey,
    now: u64,
    r: Option<P>,
) -> bool {
    match key_index(ps, key) {
        None => r is None && ps2 == ps && st2 == PoolStats { misses: (st.misses + 1) as u64, ..st },
        Some(i) => {
            &&& ps2 == ps.update(i, (ps[i].0, get_spec(ps[i].1, config, now)))
            &&& (r is Some <==> first_healthy(ps[i].1, config, now, 0) is Some)
            &&& r matches Some(p) ==> cloned(ps[i].1[first_healthy(ps[i].1, config, now, 0)->0].pool, p)
            &&& st2 == (if r is Some {
                PoolStats { hits: (st.hits + 1) as u64, ..st }
            } else {
                PoolStats { misses: (st.misses + 1) as u64, ..st }
            })
        },
    }
}

/// The cache after a put of `pool` for `key` at `now` with caching on.
pub open spec fn put_outcome<P>(
    ps: Seq<(ConnectionKey, Seq<ConnV<P>>)>,
    config: PoolConfig,
    key: ConnectionKey,
    pool: P,
    now: u64,
) -> Seq<(ConnectionKey, Seq<ConnV<P>>)> {
    match key_index(ps, key) {
        Some(i) => ps.update(i, (ps[i].0, put_spec(ps[i].1, config.max_idle_per_db, pool, now))),
        None => ps.push((key, put_spec(Seq::empty(), config.max_idle_per_db, pool, now))),
    }
}

proof fn lemma_total_prefix<P>(ps: Seq<(ConnectionKey, Seq<ConnV<P>>)>, k: int)
    requires
        0 <= k < ps.len(),
    ensures
        total(ps.take(k + 1)) == total(ps.take(k)) + ps[k].1.len(),
        total(ps.take(k + 1)) <= total(ps),
    decreases ps.len(),
{
    assert(ps.take(k + 1).drop_last() =~= ps.take(k));
    if k + 1 < ps.len() {
        lemma_total_prefix(ps.drop_last(), k);
        assert(ps.drop_last().take(k + 1) =~= ps.take(k + 1));
        assert(ps.drop_last().take(k) =~= ps.take(k));
    } else {
        assert(ps.take(k + 1) =~= ps);
    }
}


/// A handle put at time `now` is healthy at that time.
pub proof fn lemma_fresh_handle_healthy<P>(pool: P, config: PoolConfig, now: u64)
    ensures
        healthy(ConnV { pool, created_at: now, last_used: now, queries: 0 }, config, now),
{
}

/// A get right after a put finds a handle: with caching on, once a handle
/// was put for `key` at `now`, a get for `key` at `now` is a hit.
pub proof fn lemma_put_then_get_hits<P>(
    ps: Seq<(ConnectionKey, Seq<ConnV<P>>)>,
    config: PoolConfig,
    key: ConnectionKey,
    pool: P,
    now: u64,
)
    ensures
        key_index(put_outcome(ps, config, key, pool, now), key) is Some,
        first_healthy(
            put_outcome(ps, config, key, pool, now)[key_index(put_outcome(ps, config, key, pool, now), key)->0].1,
            config,
            now,
            0,
        ) is Some,
{
    let ps2 = put_outcome(ps, config, key, pool, now);
    let fresh = ConnV { pool, created_at: now, last_used: now, queries: 0 };
    lemma_key_index_range(ps, key, 0);
    match key_index(ps, key) {
        Some(i) => {
            assert forall|m: int| 0 <= m < ps.len() implies (#[trigger] ps[m]).0 == ps2[m].0 by {}
            lemma_key_index_same_keys(ps, ps2, key, 0);
            let cs = ps2[i].1;
            assert(cs.last() == fresh);
            lemma_first_healthy_exists(cs, config, now, cs.len() - 1);
        },
        None => {
            let x = (key, put_spec(Seq::<ConnV<P>>::empty(), config.max_idle_per_db, pool, now));
            assert(key_eq(x.0, key));
            lemma_key_index_push(ps, x, key, 0);
            let cs = ps2[ps.len() as int].1;
            assert(cs.last() == fresh);
            lemma_first_healthy_exists(cs, config, now, cs.len() - 1);
        },
    }
}

/// A healthy handle at index `k` means some handle is the first healthy one.
proof fn lemma_first_healthy_exists<P>(cs: Seq<ConnV<P>>, config: PoolConfig, now: u64, k: int)
    requires
        0 <= k < cs.len(),
        healthy(cs[k], config, now),
    ensures
        first_healthy(cs, config, now, 0) is Some,
{
    lemma_first_healthy_from(cs, config, now, 0, k);
}

proof fn lemma_first_healthy_from<P>(cs: Seq<ConnV<P>>, config: PoolConfig, now: u64, i: int, k: int)
    requires
        0 <= i <= k < cs.len(),
        healthy(cs[k], config, now),
    ensures
        first_healthy(cs, config, now, i) is Some,
    decreases k - i,
{
    if i < k && !healthy(cs[i], config, now) {
        lemma_first_healthy_from(cs, config, now, i + 1, k);
    }
}


/// The handles of a prefix of the cache are no more than those of the cache.
proof fn lemma_total_prefix_mono<P>(ps: Seq<(ConnectionKey, Seq<ConnV<P>>)>, k: int)
    requires
        0 <= k <= ps.len(),
    ensures
        total(ps.take(k)) <= total(ps),
    decreases ps.len() - k,
{
    if k < ps.len() {
        lemma_total_prefix(ps, k);
        lemma_total_prefix_mono(ps, k + 1);
    } else {
        assert(ps.take(k) =~= ps);
    }
}
} // verus!
