use crate::config::{
    clone_db, BackoffConfig, Config, ConfigView, Database, DEFAULT_MAX_TOTAL_DELAY_MS,
    DEFAULT_MIN_DELAY_MS, DEFAULT_MULTIPLIER, DEFAULT_RAND_FACTOR,
};
use crate::connection::Routing;
use crate::errors::Error;
use crate::operation::Operation;
use crate::routing::connection_registry::{
    expired, lookup, missing, reconciled, register_all, ConnectionRegistry, PoolId, RegistryView,
};
use crate::routing::load_balancing::{picked_from, with_role, LoadBalancingStrategy, ROUTE};
use crate::routing::{Route, RouteBuilder, RouteView, RoutingTable, Server, ServerView};
use crate::version::Version;
use vstd::prelude::*;

verus! {

/// Where to get the next connection from: a server and the pool that serves it.
#[derive(Debug)]
pub struct Target {
    pub server: Server,
    pub pool: PoolId,
}

/// Mathematical model of a [`RoutedConnectionManager`].
pub struct ManagerView<S> {
    pub strategy: S,
    pub registry: RegistryView,
    pub bookmarks: Seq<Seq<char>>,
    pub backoff: BackoffConfig,
    pub config: ConfigView,
}

/// Decides, for each request, which server to turn to. It remembers the
/// servers that failed and asks for a new topology when the one it has is
/// stale. The connections themselves are made by the caller, who reports back
/// how it went.
pub struct RoutedConnectionManager<S: LoadBalancingStrategy> {
    load_balancing_strategy: S,
    registry: ConnectionRegistry,
    bookmarks: Vec<String>,
    backoff: BackoffConfig,
    config: Config,
}

/// The operation meant when none is named.
pub open spec fn operation_or_write(operation: Option<Operation>) -> Operation {
    match operation {
        Some(operation) => operation,
        None => Operation::Write,
    }
}

/// The text of the error for an operation that no server can take.
pub open spec fn no_server_message(operation: Operation) -> Seq<char> {
    "No server available for "@ + operation.role() + " operation"@
}

/// Whether `available` lists the servers that `entries` holds, each once.
pub open spec fn lists(available: Seq<ServerView>, entries: Map<ServerView, PoolId>) -> bool {
    available.no_duplicates() && available.to_set() == entries.dom()
}

/// What one turn of `strategy` for `operation` picks among `available`, and
/// the strategy after it: a turn for the write primary for a write, a turn for
/// a read replica for a read.
pub open spec fn turn_for<S: LoadBalancingStrategy>(
    strategy: S,
    operation: Operation,
    available: Seq<ServerView>,
) -> (Option<ServerView>, S) {
    match operation {
        Operation::Write => strategy.writer_turn(available),
        Operation::Read => strategy.reader_turn(available),
    }
}

/// The server that a decision names, if it names one.
pub open spec fn named(target: Result<Target, Error>) -> Option<ServerView> {
    match target {
        Ok(target) => Some(target.server@),
        Err(_) => None,
    }
}

/// Whether `entries` holds a server with `role`.
pub open spec fn serves(entries: Map<ServerView, PoolId>, role: Seq<char>) -> bool {
    exists|server: ServerView| #[trigger] entries.contains_key(server) && server.role == role
}

/// A pick among the registered servers is a registered server with the role,
/// and there is none exactly when no registered server has the role.
proof fn lemma_pick_registered(
    entries: Map<ServerView, PoolId>,
    available: Seq<ServerView>,
    role: Seq<char>,
    picked: Option<Server>,
)
    requires
        available.to_set() == entries.dom(),
        picked_from(available, role, picked),
    ensures
        match picked {
            Some(server) => entries.contains_key(server@) && server@.role == role,
            None => !serves(entries, role),
        },
{
    let wanted = |s: ServerView| s.role == role;
    match picked {
        Some(server) => {
            let found = available.filter(wanted);
            let i = found.index_of(server@);
            available.lemma_filter_pred(wanted, i);
            available.lemma_filter_contains_rev(wanted, server@);
            assert(available.to_set().contains(server@));
        },
        None => {
            if serves(entries, role) {
                let server = choose|server: ServerView| #[trigger]
                    entries.contains_key(server) && server.role == role;
                assert(available.to_set().contains(server));
                let i = available.index_of(server);
                available.lemma_filter_contains(wanted, i);
            }
        },
    }
}

impl<S: LoadBalancingStrategy> View for RoutedConnectionManager<S> {
    type V = ManagerView<S>;

    closed spec fn view(&self) -> ManagerView<S> {
        ManagerView {
            strategy: self.load_balancing_strategy,
            registry: self.registry@,
            bookmarks: self.bookmarks.deep_view(),
            backoff: self.backoff,
            config: self.config@,
        }
    }
}

impl<S: LoadBalancingStrategy> RoutedConnectionManager<S> {
    /// A manager for the topology `routing_table`, read at `now`, that
    /// chooses by `load_balancing_strategy`. `pools[i]` serves the table's
    /// i-th server; there must be one pool for each, else no manager is made.
    /// The manager has no bookmarks yet, and retries are paced by the default
    /// schedule.
    pub fn new(
        config: &Config,
        routing_table: &RoutingTable,
        load_balancing_strategy: S,
        pools: &[PoolId],
        now: u64,
    ) -> (manager: Result<Self, Error>)
        ensures
            match manager {
                Ok(manager) => {
                    &&& pools@.len() == routing_table@.servers.len()
                    &&& manager@ == (ManagerView {
                        strategy: load_balancing_strategy,
                        registry: RegistryView {
                            pools: register_all(routing_table@.servers, pools@),
                            creation_time: now,
                            ttl: routing_table.ttl,
                            refreshing: false,
                            config: config@,
                        },
                        bookmarks: Seq::empty(),
                        backoff: BackoffConfig {
                            rand_factor: DEFAULT_RAND_FACTOR,
                            multiplier: DEFAULT_MULTIPLIER,
                            min_delay_ms: DEFAULT_MIN_DELAY_MS,
                            max_total_delay_ms: Some(DEFAULT_MAX_TOTAL_DELAY_MS),
                        },
                        config: config@,
                    })
                },
                Err(e) => e == Error::ConnectionError && pools@.len()
                    != routing_table@.servers.len(),
            },
    {
        let registry = match ConnectionRegistry::new(config, routing_table, pools, now) {
            Ok(registry) => registry,
            Err(e) => {
                return Err(e);
            },
        };
        let bookmarks: Vec<String> = Vec::new();
        assert(bookmarks.deep_view() =~= Seq::<Seq<char>>::empty());
        Ok(
            RoutedConnectionManager {
                load_balancing_strategy,
                registry,
                bookmarks,
                backoff: BackoffConfig::default(),
                config: config.clone(),
            },
        )
    }

    /// The schedule by which the layers above pace their retries.
    pub fn backoff(&self) -> (backoff: BackoffConfig)
        ensures
            backoff == self@.backoff,
    {
        self.backoff
    }

    /// The server to ask next for a connection that serves `operation` (a
    /// write where none is named), as the strategy picks it among the
    /// registered servers. There is one as long as a server with the matching
    /// role is registered. The caller reports a failed attempt with
    /// [`RoutedConnectionManager::mark_unavailable`] and asks again.
    ///
    /// The strategy is asked exactly once, for the role that serves the
    /// operation, and is shown the registered servers, each once, in the
    /// order in which the registry happens to list them. What it picks is the
    /// target, and nothing but the strategy changes.
    pub fn get(&mut self, operation: Option<Operation>) -> (target: Result<Target, Error>)
        ensures
            exists|available: Seq<ServerView>|
                {
                    &&& #[trigger] lists(available, old(self)@.registry.pools)
                    &&& named(target) == turn_for(
                        old(self)@.strategy,
                        operation_or_write(operation),
                        available,
                    ).0
                    &&& final(self)@ == (ManagerView {
                        strategy: turn_for(
                            old(self)@.strategy,
                            operation_or_write(operation),
                            available,
                        ).1,
                        ..old(self)@
                    })
                },
            match target {
                Ok(target) => {
                    &&& target.server@.role == operation_or_write(operation).role()
                    &&& old(self)@.registry.pools.contains_key(target.server@)
                    &&& target.pool == old(self)@.registry.pools[target.server@]
                },
                Err(e) => {
                    &&& !serves(old(self)@.registry.pools, operation_or_write(operation).role())
                    &&& e matches Error::RoutingTableRefreshFailed(message)
                    &&& message@ == no_server_message(operation_or_write(operation))
                },
            },
    {
        let op = match operation {
            Some(op) => op,
            None => Operation::Write,
        };
        let available = self.registry.servers();
        let picked = match op {
            Operation::Write => self.load_balancing_strategy.select_writer(available.as_slice()),
            Operation::Read => self.load_balancing_strategy.select_reader(available.as_slice()),
        };
        proof {
            lemma_pick_registered(self@.registry.pools, available.deep_view(), op.role(), picked);
            assert(lists(available.deep_view(), old(self)@.registry.pools));
        }
        if let Some(server) = picked {
            if let Some(pool) = self.registry.get_pool(&server) {
                return Ok(Target { server, pool });
            }
        }
        let mut message = "No server available for ".to_owned();
        message.append(op.name());
        message.append(" operation");
        Err(Error::RoutingTableRefreshFailed(message))
    }

    /// The routing coordinator to ask next for the topology, as the strategy
    /// picks it among the registered servers. There is one as long as a
    /// coordinator is registered. The caller reports a failed attempt with
    /// [`RoutedConnectionManager::mark_unavailable`] and asks again.
    ///
    /// The strategy is asked exactly once, for a routing coordinator, and is
    /// shown the registered servers, each once, in the order in which the
    /// registry happens to list them. What it picks is the target, and
    /// nothing but the strategy changes.
    pub fn refresh_routing_table(&mut self) -> (target: Result<Target, Error>)
        ensures
            exists|available: Seq<ServerView>|
                {
                    &&& #[trigger] lists(available, old(self)@.registry.pools)
                    &&& named(target) == old(self)@.strategy.router_turn(available).0
                    &&& final(self)@ == (ManagerView {
                        strategy: old(self)@.strategy.router_turn(available).1,
                        ..old(self)@
                    })
                },
            match target {
                Ok(target) => {
                    &&& target.server@.role == ROUTE@
                    &&& old(self)@.registry.pools.contains_key(target.server@)
                    &&& target.pool == old(self)@.registry.pools[target.server@]
                },
                Err(e) => {
                    &&& !serves(old(self)@.registry.pools, ROUTE@)
                    &&& e matches Error::ServerUnavailableError(message)
                    &&& message@ == "No router available"@
                },
            },
    {
        let available = self.registry.servers();
        let picked = self.load_balancing_strategy.select_router(available.as_slice());
        proof {
            lemma_pick_registered(self@.registry.pools, available.deep_view(), ROUTE@, picked);
            assert(lists(available.deep_view(), old(self)@.registry.pools));
        }
        if let Some(server) = picked {
            if let Some(pool) = self.registry.get_pool(&server) {
                return Ok(Target { server, pool });
            }
        }
        Err(Error::ServerUnavailableError("No router available".to_owned()))
    }

    /// The request to send to a routing coordinator: the client routes with an
    /// empty context, and asks with the manager's bookmarks about the
    /// configured database, or the server's default where none is configured.
    pub fn route_request<'a>(&'a self, version: Version) -> (route: Route<'a>)
        ensures
            route@ == (RouteView {
                routing: Some(Seq::empty()),
                bookmarks: self@.bookmarks,
                db: Some(
                    match self@.config.db {
                        Some(db) => db,
                        None => Seq::empty(),
                    },
                ),
            }),
    {
        let mut bookmarks: Vec<&'a str> = Vec::new();
        let mut i: usize = 0;
        while i < self.bookmarks.len()
            invariant
                i <= self.bookmarks.len(),
                bookmarks.deep_view() == self.bookmarks.deep_view().take(i as int),
            decreases self.bookmarks.len() - i,
        {
            let ghost before = bookmarks.deep_view();
            let bookmark = self.bookmarks[i].as_str();
            bookmarks.push(bookmark);
            assert(bookmarks.deep_view() =~= before.push(bookmark@));
            assert(self.bookmarks.deep_view()[i as int] == bookmark@);
            assert(bookmarks.deep_view() =~= self.bookmarks.deep_view().take(i + 1));
            i += 1;
        }
        assert(bookmarks.deep_view() =~= self.bookmarks.deep_view());
        let context: Vec<(String, String)> = Vec::new();
        assert(context.deep_view() =~= Seq::<(Seq<char>, Seq<char>)>::empty());
        let db = match clone_db(&self.config.db) {
            Some(db) => db,
            None => Database::default(),
        };
        RouteBuilder::new(Routing::Yes(context), bookmarks).with_db(db).build(version)
    }

    /// Decides whether the caller has to refresh the topology now, as
    /// [`ConnectionRegistry::update_if_expired`] does.
    pub fn update_if_expired(&mut self, now: u64) -> (refresh: bool)
        ensures
            refresh == (!old(self)@.registry.refreshing && expired(
                old(self)@.registry.creation_time,
                old(self)@.registry.ttl,
                now,
            )),
            final(self)@ == (ManagerView {
                registry: RegistryView {
                    refreshing: old(self)@.registry.refreshing || refresh,
                    ..old(self)@.registry
                },
                ..old(self)@
            }),
    {
        self.registry.update_if_expired(now)
    }

    /// The servers of `routing_table` that need a pool before the table can be
    /// taken over.
    pub fn unregistered(&self, routing_table: &RoutingTable) -> (servers: Vec<Server>)
        ensures
            servers.deep_view() == missing(self@.registry.pools, routing_table@.servers),
    {
        self.registry.unregistered(routing_table)
    }

    /// Takes over the topology `routing_table`, read at `now`, as
    /// [`ConnectionRegistry::refreshed`] does.
    pub fn refreshed(&mut self, routing_table: &RoutingTable, pools: &[PoolId], now: u64) -> (done:
        Result<(), Error>)
        ensures
            match done {
                Ok(()) => {
                    &&& pools@.len() == missing(
                        old(self)@.registry.pools,
                        routing_table@.servers,
                    ).len()
                    &&& final(self)@ == (ManagerView {
                        registry: RegistryView {
                            pools: reconciled(
                                old(self)@.registry.pools,
                                routing_table@.servers,
                                pools@,
                            ),
                            creation_time: now,
                            refreshing: false,
                            ..old(self)@.registry
                        },
                        ..old(self)@
                    })
                },
                Err(e) => {
                    &&& e == Error::ConnectionError
                    &&& pools@.len() != missing(
                        old(self)@.registry.pools,
                        routing_table@.servers,
                    ).len()
                    &&& final(self)@ == (ManagerView {
                        registry: RegistryView { refreshing: false, ..old(self)@.registry },
                        ..old(self)@
                    })
                },
            },
    {
        self.registry.refreshed(routing_table, pools, now)
    }

    /// Ends a refresh that brought no topology.
    pub fn refresh_failed(&mut self)
        ensures
            final(self)@ == (ManagerView {
                registry: RegistryView { refreshing: false, ..old(self)@.registry },
                ..old(self)@
            }),
    {
        self.registry.refresh_failed();
    }

    /// The pool that serves `server`, if the server is still registered.
    pub fn get_pool(&self, server: &Server) -> (pool: Option<PoolId>)
        ensures
            pool == lookup(self@.registry.pools, server@),
    {
        self.registry.get_pool(server)
    }

    /// The registered servers: each once, in no particular order.
    pub fn servers(&self) -> (servers: Vec<Server>)
        ensures
            servers.deep_view().no_duplicates(),
            servers.deep_view().to_set() == self@.registry.pools.dom(),
            servers.len() == self@.registry.pools.dom().len(),
    {
        self.registry.servers()
    }

    /// Takes note of how the attempt on `target` went: acquiring a connection
    /// from its pool, or asking it for the topology. What a successful attempt
    /// brought is handed back, and nothing changes. After a failed one the
    /// server is taken out of the registry and nothing is handed back: the
    /// caller asks for the next target.
    pub fn attempted<T>(&mut self, target: &Target, outcome: Result<T, Error>) -> (brought: Option<T>)
        ensures
            match outcome {
                Ok(value) => brought == Some(value) && final(self)@ == old(self)@,
                Err(_) => brought is None && final(self)@ == (ManagerView {
                    registry: RegistryView {
                        pools: old(self)@.registry.pools.remove(target.server@),
                        ..old(self)@.registry
                    },
                    ..old(self)@
                }),
            },
    {
        match outcome {
            Ok(value) => Some(value),
            Err(_) => {
                self.registry.mark_unavailable(&target.server);
                None
            },
        }
    }

    /// Ends the refresh that [`RoutedConnectionManager::update_if_expired`]
    /// asked for, given how it went. It went well if a routing coordinator
    /// answered with a table, read at `now`, and a pool was opened for each of
    /// the table's [`RoutedConnectionManager::unregistered`] servers: the
    /// table is then taken over as [`ConnectionRegistry::refreshed`] does.
    /// Else the error of the refresh is the error of the whole call, and the
    /// servers and their time stay as they were, so that the next call asks
    /// for a refresh again.
    pub fn refresh_finished(
        &mut self,
        outcome: Result<(RoutingTable, Vec<PoolId>), Error>,
        now: u64,
    ) -> (done: Result<(), Error>)
        ensures
            match outcome {
                Ok((routing_table, pools)) => if pools@.len() == missing(
                    old(self)@.registry.pools,
                    routing_table@.servers,
                ).len() {
                    &&& done is Ok
                    &&& final(self)@ == (ManagerView {
                        registry: RegistryView {
                            pools: reconciled(
                                old(self)@.registry.pools,
                                routing_table@.servers,
                                pools@,
                            ),
                            creation_time: now,
                            refreshing: false,
                            ..old(self)@.registry
                        },
                        ..old(self)@
                    })
                } else {
                    &&& done == Err::<(), Error>(Error::ConnectionError)
                    &&& final(self)@ == (ManagerView {
                        registry: RegistryView { refreshing: false, ..old(self)@.registry },
                        ..old(self)@
                    })
                },
                Err(e) => {
                    &&& done == Err::<(), Error>(e)
                    &&& final(self)@ == (ManagerView {
                        registry: RegistryView { refreshing: false, ..old(self)@.registry },
                        ..old(self)@
                    })
                },
            },
    {
        match outcome {
            Ok((routing_table, pools)) => self.registry.refreshed(
                &routing_table,
                pools.as_slice(),
                now,
            ),
            Err(e) => {
                self.registry.refresh_failed();
                Err(e)
            },
        }
    }

    /// Takes `server` out of the registry, after an attempt on it has failed.
    pub fn mark_unavailable(&mut self, server: &Server)
        ensures
            final(self)@ == (ManagerView {
                registry: RegistryView {
                    pools: old(self)@.registry.pools.remove(server@),
                    ..old(self)@.registry
                },
                ..old(self)@
            }),
    {
        self.registry.mark_unavailable(server);
    }
}

} // verus!
