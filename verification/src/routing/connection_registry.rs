use crate::config::{Config, ConfigView};
use crate::errors::Error;
use crate::routing::{RoutingTable, Server, ServerView};
use dashmap::DashMap;
use vstd::prelude::*;

verus! {

/// Names the connection pool that serves one server. Whoever opens the pools
/// hands these out; the registry only stores them and gives them back.
pub type PoolId = u64;

/// The concurrent map of the `dashmap` crate.
#[verifier::external_type_specification]
#[verifier::external_body]
#[verifier::reject_recursive_types(K)]
#[verifier::reject_recursive_types(V)]
#[verifier::reject_recursive_types(S)]
pub struct ExDashMap<K, V, S>(DashMap<K, V, S>);

/// The map from server to pool.
pub type Registry = DashMap<Server, PoolId>;

/// The entries that a [`Registry`] holds. The map tells its keys apart by the
/// `Eq` and `Hash` that [`Server`] derives, under which two servers are the
/// same exactly when their views are.
pub uninterp spec fn registered(registry: DashMap<Server, PoolId>) -> Map<ServerView, PoolId>;

/// `DashMap::new`: a map without entries.
#[verifier::external_body]
fn registry_new() -> (fresh: Registry)
    ensures
        registered(fresh) =~= Map::empty(),
{
    DashMap::new()
}

/// `DashMap::insert`: afterwards the key maps to the value, whether or not it
/// was present, and every other entry is as before. Returns what the key
/// mapped to before.
#[verifier::external_body]
fn registry_insert(registry: &mut Registry, server: Server, pool: PoolId) -> (previous: Option<PoolId>)
    ensures
        registered(*final(registry)) == registered(*old(registry)).insert(server@, pool),
        previous == lookup(registered(*old(registry)), server@),
{
    registry.insert(server, pool)
}

/// `DashMap::remove`: afterwards the key has no entry, and every other entry is
/// as before. Returns what the key mapped to before.
#[verifier::external_body]
fn registry_remove(registry: &mut Registry, server: &Server) -> (previous: Option<PoolId>)
    ensures
        registered(*final(registry)) == registered(*old(registry)).remove(server@),
        previous == lookup(registered(*old(registry)), server@),
{
    registry.remove(server).map(|entry| entry.1)
}

/// `DashMap::retain` with a test on the key alone: the entries whose key is
/// among `keep` stay as they are, the others are gone.
#[verifier::external_body]
fn registry_retain(registry: &mut Registry, keep: &[Server])
    ensures
        registered(*final(registry)) == registered(*old(registry)).restrict(
            keep.deep_view().to_set(),
        ),
{
    registry.retain(|server, _| contains_server(keep, server))
}

/// `DashMap::contains_key`.
#[verifier::external_body]
fn registry_contains_key(registry: &Registry, server: &Server) -> (present: bool)
    ensures
        present == registered(*registry).contains_key(server@),
{
    registry.contains_key(server)
}

/// `DashMap::get`, with the value copied out of the guard.
#[verifier::external_body]
fn registry_get(registry: &Registry, server: &Server) -> (pool: Option<PoolId>)
    ensures
        pool == lookup(registered(*registry), server@),
{
    registry.get(server).map(|entry| *entry.value())
}

/// `DashMap::len`: the number of entries.
#[verifier::external_body]
fn registry_len(registry: &Registry) -> (count: usize)
    ensures
        count == registered(*registry).dom().len(),
{
    registry.len()
}

/// `DashMap::iter`, with each key cloned: every key once, in the order in
/// which the map happens to be walked.
#[verifier::external_body]
fn registry_keys(registry: &Registry) -> (keys: Vec<Server>)
    ensures
        keys.deep_view().no_duplicates(),
        keys.deep_view().to_set() == registered(*registry).dom(),
{
    registry.iter().map(|entry| entry.key().clone()).collect()
}

/// What `key` maps to.
pub open spec fn lookup(entries: Map<ServerView, PoolId>, key: ServerView) -> Option<PoolId> {
    if entries.contains_key(key) {
        Some(entries[key])
    } else {
        None
    }
}

/// Whether `server` is one of `servers`.
pub fn contains_server(servers: &[Server], server: &Server) -> (found: bool)
    ensures
        found == servers.deep_view().contains(server@),
{
    let mut i: usize = 0;
    while i < servers.len()
        invariant
            i <= servers.len(),
            forall|j: int| 0 <= j < i ==> servers.deep_view()[j] != server@,
        decreases servers.len() - i,
    {
        if servers[i].same(server) {
            assert(servers.deep_view()[i as int] == server@);
            return true;
        }
        i += 1;
    }
    false
}

/// The registry that holds `pools[i]` for `servers[i]`, for every `i`. Where a
/// server is listed twice, the pool of its last listing stays.
pub open spec fn register_all(servers: Seq<ServerView>, pools: Seq<PoolId>) -> Map<ServerView, PoolId>
    recommends
        servers.len() == pools.len(),
    decreases servers.len(),
{
    if servers.len() == 0 {
        Map::empty()
    } else {
        register_all(servers.drop_last(), pools.drop_last()).insert(servers.last(), pools.last())
    }
}

/// The servers of `servers` that `entries` does not hold: each once, in the
/// order of its first listing.
pub open spec fn missing(entries: Map<ServerView, PoolId>, servers: Seq<ServerView>) -> Seq<ServerView>
    decreases servers.len(),
{
    if servers.len() == 0 {
        Seq::empty()
    } else {
        let before = missing(entries, servers.drop_last());
        if entries.contains_key(servers.last()) || before.contains(servers.last()) {
            before
        } else {
            before.push(servers.last())
        }
    }
}

/// The registry after a refresh that reported `servers`: it holds exactly the
/// reported servers. One that was registered before keeps its pool. One that
/// is new gets the pool that stands in `pools` where the server stands among
/// the [`missing`] ones.
pub open spec fn reconciled(
    entries: Map<ServerView, PoolId>,
    servers: Seq<ServerView>,
    pools: Seq<PoolId>,
) -> Map<ServerView, PoolId> {
    Map::new(
        |server: ServerView| servers.contains(server),
        |server: ServerView|
            if entries.contains_key(server) {
                entries[server]
            } else {
                pools[missing(entries, servers).index_of(server)]
            },
    )
}

/// Whether a table stamped `creation_time` with `ttl` seconds to live is stale at `now`.
pub open spec fn expired(creation_time: u64, ttl: u64, now: u64) -> bool {
    now - creation_time > ttl
}

/// Mathematical model of a [`ConnectionRegistry`].
pub struct RegistryView {
    /// The registered servers, each with its pool.
    pub pools: Map<ServerView, PoolId>,
    /// When the topology was last refreshed, in seconds.
    pub creation_time: u64,
    /// For how many seconds a topology stays fresh.
    pub ttl: u64,
    /// Whether a refresh is under way.
    pub refreshing: bool,
    /// The connection parameters.
    pub config: ConfigView,
}

/// The servers known right now, each with the pool that serves it, and the
/// time at which this knowledge goes stale.
pub struct ConnectionRegistry {
    config: Config,
    creation_time: u64,
    ttl: u64,
    refreshing: bool,
    connections: Registry,
}

impl View for ConnectionRegistry {
    type V = RegistryView;

    closed spec fn view(&self) -> RegistryView {
        RegistryView {
            pools: registered(self.connections),
            creation_time: self.creation_time,
            ttl: self.ttl,
            refreshing: self.refreshing,
            config: self.config@,
        }
    }
}

impl ConnectionRegistry {
    /// The registry for the topology `routing_table`, read at `now`, with
    /// `pools[i]` serving the table's i-th server. There must be one pool for
    /// each server of the table: else no registry is made.
    pub fn new(config: &Config, routing_table: &RoutingTable, pools: &[PoolId], now: u64) -> (registry:
        Result<Self, Error>)
        ensures
            match registry {
                Ok(registry) => {
                    &&& pools@.len() == routing_table@.servers.len()
                    &&& registry@.pools.dom().finite()
                    &&& registry@ == (RegistryView {
                        pools: register_all(routing_table@.servers, pools@),
                        creation_time: now,
                        ttl: routing_table.ttl,
                        refreshing: false,
                        config: config@,
                    })
                },
                Err(e) => e == Error::ConnectionError && pools@.len() != routing_table@.servers.len(),
            },
    {
        if pools.len() != routing_table.servers.len() {
            return Err(Error::ConnectionError);
        }
        let connections = Self::build_registry(routing_table, pools);
        Ok(
            ConnectionRegistry {
                config: config.clone(),
                creation_time: now,
                ttl: routing_table.ttl,
                refreshing: false,
                connections,
            },
        )
    }

    /// The map that holds `pools[i]` for the i-th server of `routing_table`.
    fn build_registry(routing_table: &RoutingTable, pools: &[PoolId]) -> (registry: Registry)
        requires
            pools@.len() == routing_table@.servers.len(),
        ensures
            registered(registry) == register_all(routing_table@.servers, pools@),
            registered(registry).dom().finite(),
    {
        let mut registry = registry_new();
        let ghost servers = routing_table@.servers;
        let mut i: usize = 0;
        assert(servers.take(0) =~= Seq::<ServerView>::empty());
        while i < routing_table.servers.len()
            invariant
                i <= routing_table.servers.len(),
                servers == routing_table@.servers,
                pools@.len() == servers.len(),
                registered(registry) == register_all(servers.take(i as int), pools@.take(i as int)),
                registered(registry).dom().finite(),
            decreases routing_table.servers.len() - i,
        {
            proof {
                assert(servers.take(i + 1).drop_last() =~= servers.take(i as int));
                assert(pools@.take(i + 1).drop_last() =~= pools@.take(i as int));
            }
            let server = routing_table.servers[i].clone();
            registry_insert(&mut registry, server, pools[i]);
            i += 1;
        }
        assert(servers.take(servers.len() as int) =~= servers);
        assert(pools@.take(pools@.len() as int) =~= pools@);
        registry
    }

    /// Whether the topology is stale at `now`: more seconds have passed since
    /// it was read than it was given to live.
    pub fn is_expired(&self, now: u64) -> (stale: bool)
        ensures
            stale == expired(self@.creation_time, self@.ttl, now),
    {
        now > self.creation_time && now - self.creation_time > self.ttl
    }

    /// Decides whether the caller has to refresh the topology now. It has to
    /// when the topology is stale at `now` and no refresh is under way; the
    /// registry then notes that one is, until [`ConnectionRegistry::refreshed`]
    /// or [`ConnectionRegistry::refresh_failed`] is called. Otherwise nothing
    /// changes, and the caller goes on with the topology as it is.
    pub fn update_if_expired(&mut self, now: u64) -> (refresh: bool)
        ensures
            refresh == (!old(self)@.refreshing && expired(
                old(self)@.creation_time,
                old(self)@.ttl,
                now,
            )),
            final(self)@ == (RegistryView {
                refreshing: old(self)@.refreshing || refresh,
                ..old(self)@
            }),
    {
        if !self.refreshing && self.is_expired(now) {
            self.refreshing = true;
            true
        } else {
            false
        }
    }

    /// The servers of `routing_table` that are not registered, and so need a
    /// pool before the table can be taken over.
    pub fn unregistered(&self, routing_table: &RoutingTable) -> (servers: Vec<Server>)
        ensures
            servers.deep_view() == missing(self@.pools, routing_table@.servers),
    {
        let mut servers: Vec<Server> = Vec::new();
        let ghost reported = routing_table@.servers;
        let ghost entries = self@.pools;
        let mut i: usize = 0;
        assert(reported.take(0) =~= Seq::<ServerView>::empty());
        assert(servers.deep_view() =~= Seq::<ServerView>::empty());
        while i < routing_table.servers.len()
            invariant
                i <= routing_table.servers.len(),
                reported == routing_table@.servers,
                entries == self@.pools,
                servers.deep_view() == missing(entries, reported.take(i as int)),
            decreases routing_table.servers.len() - i,
        {
            let ghost before = servers.deep_view();
            proof {
                assert(reported.take(i + 1).drop_last() =~= reported.take(i as int));
            }
            let server = &routing_table.servers[i];
            if !registry_contains_key(&self.connections, server) && !contains_server(
                servers.as_slice(),
                server,
            ) {
                servers.push(server.clone());
                assert(servers.deep_view() =~= before.push(reported[i as int]));
            }
            i += 1;
        }
        assert(reported.take(reported.len() as int) =~= reported);
        servers
    }

    /// Takes over the topology `routing_table`, read at `now`, and ends the
    /// refresh. `pools[i]` serves the i-th of the servers that
    /// [`ConnectionRegistry::unregistered`] names for this table. With one
    /// pool for each of them, the registry afterwards holds exactly the
    /// servers of the table and is fresh as of `now`. Otherwise the servers
    /// and their time stay as they were.
    pub fn refreshed(&mut self, routing_table: &RoutingTable, pools: &[PoolId], now: u64) -> (done:
        Result<(), Error>)
        ensures
            match done {
                Ok(()) => {
                    &&& pools@.len() == missing(old(self)@.pools, routing_table@.servers).len()
                    &&& final(self)@ == (RegistryView {
                        pools: reconciled(old(self)@.pools, routing_table@.servers, pools@),
                        creation_time: now,
                        refreshing: false,
                        ..old(self)@
                    })
                },
                Err(e) => {
                    &&& e == Error::ConnectionError
                    &&& pools@.len() != missing(old(self)@.pools, routing_table@.servers).len()
                    &&& final(self)@ == (RegistryView { refreshing: false, ..old(self)@ })
                },
            },
    {
        let fresh = self.unregistered(routing_table);
        self.refreshing = false;
        if pools.len() != fresh.len() {
            return Err(Error::ConnectionError);
        }
        let ghost entries = self@.pools;
        let ghost reported = routing_table@.servers;
        let ghost added = fresh.deep_view();
        proof {
            lemma_missing(entries, reported);
        }
        let mut i: usize = 0;
        while i < fresh.len()
            invariant
                i <= fresh.len(),
                pools@.len() == fresh.len(),
                added == fresh.deep_view(),
                added == missing(entries, reported),
                added.no_duplicates(),
                forall|server: ServerView|
                    added.contains(server) <==> reported.contains(server) && !entries.contains_key(
                        server,
                    ),
                self@ == (RegistryView { pools: self@.pools, refreshing: false, ..old(self)@ }),
                forall|server: ServerView| #[trigger]
                    self@.pools.contains_key(server) <==> entries.contains_key(server)
                        || added.take(i as int).contains(server),
                forall|server: ServerView|
                    entries.contains_key(server) ==> #[trigger] self@.pools[server]
                        == entries[server],
                forall|j: int| 0 <= j < i ==> #[trigger] self@.pools[added[j]] == pools@[j],
            decreases fresh.len() - i,
        {
            let ghost held = self@.pools;
            proof {
                assert(added.take(i + 1) =~= added.take(i as int).push(added[i as int]));
                assert(added.contains(added[i as int]));
                assert forall|j: int| 0 <= j < i implies added[j] != added[i as int] by {}
            }
            registry_insert(&mut self.connections, fresh[i].clone(), pools[i]);
            proof {
                assert(fresh.deep_view()[i as int] == fresh[i as int]@);
                assert(self@.pools == held.insert(added[i as int], pools@[i as int]));
                assert(added.take(i + 1)[i as int] == added[i as int]);
                assert forall|server: ServerView| #[trigger]
                    self@.pools.contains_key(server) <==> entries.contains_key(server)
                        || added.take(i + 1).contains(server) by {
                    assert(held.contains_key(server) <==> entries.contains_key(server)
                        || added.take(i as int).contains(server));
                    if added.take(i as int).contains(server) {
                        let j = added.take(i as int).index_of(server);
                        assert(added.take(i + 1)[j] == server);
                    }
                    if added.take(i + 1).contains(server) {
                        let j = added.take(i + 1).index_of(server);
                        if j < i {
                            assert(added.take(i as int)[j] == server);
                        }
                    }
                }
            }
            i += 1;
        }
        registry_retain(&mut self.connections, routing_table.servers.as_slice());
        self.creation_time = now;
        proof {
            assert(added.take(added.len() as int) =~= added);
            let wanted = reconciled(entries, reported, pools@);
            assert forall|server: ServerView| #[trigger]
                self@.pools.contains_key(server) <==> wanted.contains_key(server) by {}
            assert forall|server: ServerView| #[trigger]
                wanted.contains_key(server) implies self@.pools[server] == wanted[server] by {
                if !entries.contains_key(server) {
                    let j = added.index_of(server);
                    assert(added[j] == server);
                }
            }
            assert(self@.pools =~= wanted);
        }
        Ok(())
    }

    /// Ends a refresh that brought no topology: the servers and their time
    /// stay as they were, so the next call of
    /// [`ConnectionRegistry::update_if_expired`] asks for a refresh again.
    pub fn refresh_failed(&mut self)
        ensures
            final(self)@ == (RegistryView { refreshing: false, ..old(self)@ }),
    {
        self.refreshing = false;
    }

    /// The pool that serves `server`, if the server is still registered.
    pub fn get_pool(&self, server: &Server) -> (pool: Option<PoolId>)
        ensures
            pool == lookup(self@.pools, server@),
    {
        registry_get(&self.connections, server)
    }

    /// Takes `server` out of the registry, whether or not it was in it.
    pub fn mark_unavailable(&mut self, server: &Server)
        ensures
            final(self)@ == (RegistryView { pools: old(self)@.pools.remove(server@), ..old(self)@ }),
    {
        registry_remove(&mut self.connections, server);
    }

    /// The registered servers: each once, in no particular order.
    pub fn servers(&self) -> (servers: Vec<Server>)
        ensures
            servers.deep_view().no_duplicates(),
            servers.deep_view().to_set() == self@.pools.dom(),
            servers.len() == self@.pools.dom().len(),
            self@.pools.dom().finite(),
    {
        let servers = registry_keys(&self.connections);
        proof {
            servers.deep_view().unique_seq_to_set();
            vstd::seq_lib::seq_to_set_is_finite(servers.deep_view());
        }
        servers
    }

    /// The number of registered servers.
    pub fn len(&self) -> (count: usize)
        ensures
            count == self@.pools.dom().len(),
    {
        registry_len(&self.connections)
    }

    /// The connection parameters that the registry was made with.
    pub fn config(&self) -> (config: &Config)
        ensures
            config@ == self@.config,
    {
        &self.config
    }
}

/// Whether `servers` lists the server at `i` nowhere after `i`.
pub open spec fn last_listing(servers: Seq<ServerView>, i: int) -> bool {
    forall|j: int| i < j < servers.len() ==> #[trigger] servers[j] != servers[i]
}

/// A registry made for a table holds exactly the servers of the table, each
/// with the pool of its last listing. So a table that lists no server twice
/// gives a registry of as many servers as it lists.
pub proof fn lemma_register_all(servers: Seq<ServerView>, pools: Seq<PoolId>)
    requires
        servers.len() == pools.len(),
    ensures
        register_all(servers, pools).dom() == servers.to_set(),
        register_all(servers, pools).dom().finite(),
        forall|i: int|
            0 <= i < servers.len() && last_listing(servers, i) ==> #[trigger] register_all(
                servers,
                pools,
            )[servers[i]] == pools[i],
        servers.no_duplicates() ==> register_all(servers, pools).dom().len() == servers.len(),
    decreases servers.len(),
{
    let made = register_all(servers, pools);
    if servers.len() == 0 {
        assert(made.dom() =~= servers.to_set());
    } else {
        let before = servers.drop_last();
        let last = servers.last();
        lemma_register_all(before, pools.drop_last());
        assert(made.dom() =~= servers.to_set()) by {
            assert forall|server: ServerView| made.dom().contains(server) implies servers.to_set().contains(
                server,
            ) by {
                if server != last {
                    let j = before.index_of(server);
                    assert(servers[j] == server);
                }
            }
            assert forall|server: ServerView| servers.to_set().contains(server) implies made.dom().contains(
                server,
            ) by {
                let j = servers.index_of(server);
                if j < servers.len() - 1 {
                    assert(before[j] == server);
                    assert(before.to_set().contains(server));
                }
            }
        }
        assert forall|i: int|
            0 <= i < servers.len() && last_listing(servers, i) implies #[trigger] made[servers[i]]
                == pools[i] by {
            if i < servers.len() - 1 {
                assert(servers[servers.len() - 1] != servers[i]);
                assert(last_listing(before, i)) by {
                    assert forall|j: int| i < j < before.len() implies #[trigger] before[j]
                        != before[i] by {
                        assert(servers[j] != servers[i]);
                    }
                }
                assert(before[i] == servers[i]);
                assert(pools.drop_last()[i] == pools[i]);
            }
        }
        vstd::seq_lib::seq_to_set_is_finite(servers);
        if servers.no_duplicates() {
            servers.unique_seq_to_set();
        }
    }
}

/// Taking a registered server out leaves one server less, and not that one.
pub proof fn lemma_mark_unavailable(entries: Map<ServerView, PoolId>, server: ServerView)
    requires
        entries.dom().finite(),
        entries.contains_key(server),
    ensures
        entries.remove(server).dom().len() == entries.dom().len() - 1,
        !entries.remove(server).contains_key(server),
        forall|other: ServerView|
            other != server ==> lookup(entries.remove(server), other) == lookup(entries, other),
{
}

/// A refresh reconciles the registry with the table that was read: afterwards
/// exactly the reported servers are registered, those that were registered
/// before with the pool they had, and each of the others with a pool of its own
/// out of `pools`.
pub proof fn lemma_reconciled(
    entries: Map<ServerView, PoolId>,
    servers: Seq<ServerView>,
    pools: Seq<PoolId>,
)
    requires
        pools.len() == missing(entries, servers).len(),
    ensures
        reconciled(entries, servers, pools).dom() == servers.to_set(),
        reconciled(entries, servers, pools).dom().finite(),
        forall|server: ServerView|
            servers.contains(server) && entries.contains_key(server) ==> #[trigger] reconciled(
                entries,
                servers,
                pools,
            )[server] == entries[server],
        forall|i: int|
            0 <= i < pools.len() ==> #[trigger] reconciled(entries, servers, pools)[missing(
                entries,
                servers,
            )[i]] == pools[i],
{
    lemma_missing(entries, servers);
    let added = missing(entries, servers);
    assert(reconciled(entries, servers, pools).dom() =~= servers.to_set());
    vstd::seq_lib::seq_to_set_is_finite(servers);
    assert forall|i: int| 0 <= i < pools.len() implies #[trigger] reconciled(
        entries,
        servers,
        pools,
    )[added[i]] == pools[i] by {
        assert(added.contains(added[i]));
        let j = added.index_of(added[i]);
        assert(added[j] == added[i]);
    }
}

/// The [`missing`] servers are those that were reported and are not
/// registered, each of them once.
pub proof fn lemma_missing(entries: Map<ServerView, PoolId>, servers: Seq<ServerView>)
    ensures
        missing(entries, servers).no_duplicates(),
        forall|server: ServerView|
            missing(entries, servers).contains(server) <==> servers.contains(server)
                && !entries.contains_key(server),
    decreases servers.len(),
{
    if servers.len() > 0 {
        let before = missing(entries, servers.drop_last());
        let last = servers.last();
        lemma_missing(entries, servers.drop_last());
        assert forall|server: ServerView|
            missing(entries, servers).contains(server) <==> servers.contains(server)
                && !entries.contains_key(server) by {
            if servers.contains(server) {
                let j = servers.index_of(server);
                if j < servers.len() - 1 {
                    assert(servers.drop_last()[j] == server);
                }
            }
            if servers.drop_last().contains(server) {
                let j = servers.drop_last().index_of(server);
                assert(servers[j] == server);
            }
            assert(servers[servers.len() - 1] == last);
            if before.contains(server) {
                let j = before.index_of(server);
                assert(before.push(last)[j] == server);
            }
            if !entries.contains_key(last) && !before.contains(last) {
                assert(before.push(last)[before.len() as int] == last);
            }
        }
    }
}

} // verus!
