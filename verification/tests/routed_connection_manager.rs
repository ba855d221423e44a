use bolt_routing::auth::ConnectionTLSConfig;
use bolt_routing::routing::load_balancing::round_robin_strategy::RoundRobinStrategy;
use bolt_routing::routing::load_balancing::LoadBalancingStrategy;
use bolt_routing::routing::routed_connection_manager::RoutedConnectionManager;
use bolt_routing::{
    BackoffConfig, Config, Error, Operation, Route, Routing, RoutingTable, Server, Version,
};

fn server(address: &str, role: &str) -> Server {
    Server { addresses: vec![address.to_string()], role: role.to_string() }
}

fn config(db: Option<&str>) -> Config {
    Config {
        uri: "neo4j://localhost:7687".to_string(),
        user: "user".to_string(),
        password: "password".to_string(),
        max_connections: 10,
        db: db.map(|name| name.into()),
        fetch_size: 0,
        tls_config: ConnectionTLSConfig::SystemDefault,
        backoff: None,
    }
}

fn manager(servers: Vec<Server>, now: u64) -> RoutedConnectionManager<RoundRobinStrategy> {
    let pools: Vec<u64> = (0..servers.len() as u64).map(|i| 100 + i).collect();
    let table = RoutingTable { ttl: 60, db: None, servers };
    let strategy = RoundRobinStrategy::new(table.clone());
    RoutedConnectionManager::new(&config(Some("graph")), &table, strategy, &pools, now).unwrap()
}

#[test]
fn get_without_a_writer_names_the_write_operation() {
    let mut manager = manager(vec![server("r0", "READ"), server("x0", "ROUTE")], 0);
    assert_eq!(
        manager.get(Some(Operation::Write)).err(),
        Some(Error::RoutingTableRefreshFailed(
            "No server available for WRITE operation".to_string()
        ))
    );
    // no operation named means a write
    assert_eq!(
        manager.get(None).err(),
        Some(Error::RoutingTableRefreshFailed(
            "No server available for WRITE operation".to_string()
        ))
    );
    // nothing was evicted on the way
    assert_eq!(manager.servers().len(), 2);
    let target = manager.get(Some(Operation::Read)).unwrap();
    assert_eq!(target.server, server("r0", "READ"));
    assert_eq!(target.pool, 100);
}

#[test]
fn get_without_a_reader_names_the_read_operation() {
    let mut manager = manager(vec![server("w0", "WRITE")], 0);
    assert_eq!(
        manager.get(Some(Operation::Read)).err(),
        Some(Error::RoutingTableRefreshFailed(
            "No server available for READ operation".to_string()
        ))
    );
    assert_eq!(manager.get(None).unwrap().server, server("w0", "WRITE"));
}

#[test]
fn failed_servers_are_passed_over_until_none_is_left() {
    let mut manager = manager(
        vec![server("w0", "WRITE"), server("w1", "WRITE"), server("r0", "READ")],
        0,
    );
    let first = manager.get(Some(Operation::Write)).unwrap();
    assert_eq!(manager.get_pool(&first.server), Some(first.pool));
    manager.mark_unavailable(&first.server);
    let second = manager.get(Some(Operation::Write)).unwrap();
    assert_ne!(second.server, first.server);
    assert_eq!(second.server.role, "WRITE");
    manager.mark_unavailable(&second.server);
    assert!(matches!(
        manager.get(Some(Operation::Write)),
        Err(Error::RoutingTableRefreshFailed(_))
    ));
    // the reader is still there
    assert_eq!(manager.get(Some(Operation::Read)).unwrap().pool, 102);
}

#[test]
fn refresh_turns_to_the_routers_in_turn() {
    let mut manager = manager(
        vec![server("x0", "ROUTE"), server("w0", "WRITE"), server("x1", "ROUTE")],
        0,
    );
    let first = manager.refresh_routing_table().unwrap();
    assert_eq!(first.server.role, "ROUTE");
    manager.mark_unavailable(&first.server);
    let second = manager.refresh_routing_table().unwrap();
    assert_eq!(second.server.role, "ROUTE");
    assert_ne!(second.server, first.server);
    manager.mark_unavailable(&second.server);
    assert_eq!(
        manager.refresh_routing_table().err(),
        Some(Error::ServerUnavailableError("No router available".to_string()))
    );
}

#[test]
fn route_request_asks_about_the_configured_database() {
    let manager = manager(vec![server("x0", "ROUTE")], 0);
    let route = manager.route_request(Version::V4_4);
    assert_eq!(route, Route::new(Routing::Yes(vec![]), vec![], Some("graph".into())));
    assert_eq!(
        route.to_bytes().unwrap(),
        vec![0xB3, 0x66, 0xA0, 0x90, 0x85, b'g', b'r', b'a', b'p', b'h']
    );
    // without a configured database the request names the default one
    let table = RoutingTable { ttl: 60, db: None, servers: vec![] };
    let strategy = RoundRobinStrategy::new(table.clone());
    let plain = RoutedConnectionManager::new(&config(None), &table, strategy, &[], 0).unwrap();
    assert_eq!(
        plain.route_request(Version::V4).to_bytes().unwrap(),
        vec![0xB3, 0x66, 0xA0, 0x90, 0x80]
    );
}

#[test]
fn manager_paces_retries_by_the_default_schedule() {
    let manager = manager(vec![], 0);
    assert_eq!(manager.backoff(), BackoffConfig::default());
}

#[test]
fn manager_needs_one_pool_per_server() {
    let table = RoutingTable { ttl: 60, db: None, servers: vec![server("a", "READ")] };
    let strategy = RoundRobinStrategy::new(table.clone());
    assert_eq!(
        RoutedConnectionManager::new(&config(None), &table, strategy, &[], 0).err(),
        Some(Error::ConnectionError)
    );
}

#[test]
fn manager_refreshes_when_the_topology_is_stale() {
    let mut manager = manager(vec![server("x0", "ROUTE"), server("w0", "WRITE")], 1000);
    assert!(!manager.update_if_expired(1060));
    assert!(manager.update_if_expired(1061));
    assert!(!manager.update_if_expired(1061));
    manager.refresh_failed();
    assert!(manager.update_if_expired(1062));
    let table = RoutingTable {
        ttl: 5,
        db: None,
        servers: vec![server("x0", "ROUTE"), server("w1", "WRITE")],
    };
    assert_eq!(manager.unregistered(&table), vec![server("w1", "WRITE")]);
    assert_eq!(manager.refreshed(&table, &[], 1062), Err(Error::ConnectionError));
    assert_eq!(manager.refreshed(&table, &[7], 1062), Ok(()));
    let target = manager.get(None).unwrap();
    assert_eq!(target.server, server("w1", "WRITE"));
    assert_eq!(target.pool, 7);
    assert_eq!(manager.get_pool(&server("x0", "ROUTE")), Some(100));
    assert_eq!(manager.get_pool(&server("w0", "WRITE")), None);
    assert!(!manager.update_if_expired(1122));
    assert!(manager.update_if_expired(1123));
}

#[test]
fn manager_keeps_the_strategy_it_is_given() {
    let servers = vec![server("w0", "WRITE"), server("w1", "WRITE"), server("w2", "WRITE")];
    let table = RoutingTable { ttl: 60, db: None, servers: servers.clone() };
    let mut strategy = RoundRobinStrategy::new(table.clone());
    // two turns are taken before the strategy is handed over
    assert_eq!(strategy.select_writer(&servers), Some(servers[2].clone()));
    assert_eq!(strategy.select_writer(&servers), Some(servers[1].clone()));
    let mut manager =
        RoutedConnectionManager::new(&config(None), &table, strategy, &[1, 2, 3], 0).unwrap();
    // the manager goes on where the strategy was, one turn for each call
    let mut picked = Vec::new();
    for _ in 0..4 {
        let available = manager.servers();
        let writers: Vec<Server> =
            available.into_iter().filter(|server| server.role == "WRITE").collect();
        picked.push((writers, manager.get(Some(Operation::Write)).unwrap().server));
    }
    // the counter stood at 1, so the turns name the writers at 0, 2, 1 and 0
    // of the list that the registry showed
    let expected = [0usize, 2, 1, 0];
    for ((writers, server), index) in picked.iter().zip(expected) {
        assert_eq!(server, &writers[index]);
    }
}

#[test]
fn a_read_does_not_move_the_writers_turn() {
    let servers = vec![server("w0", "WRITE"), server("r0", "READ"), server("x0", "ROUTE")];
    let mut manager = manager(servers, 0);
    for _ in 0..5 {
        assert_eq!(manager.get(Some(Operation::Read)).unwrap().server, server("r0", "READ"));
        assert_eq!(manager.get(None).unwrap().server, server("w0", "WRITE"));
        assert_eq!(manager.refresh_routing_table().unwrap().server, server("x0", "ROUTE"));
    }
}

#[test]
fn attempted_evicts_after_a_failure_only() {
    let mut manager = manager(vec![server("w0", "WRITE"), server("w1", "WRITE")], 0);
    let target = manager.get(None).unwrap();
    assert_eq!(manager.attempted(&target, Ok("connection")), Some("connection"));
    assert_eq!(manager.servers().len(), 2);
    assert_eq!(manager.get_pool(&target.server), Some(target.pool));
    assert_eq!(manager.attempted::<&str>(&target, Err(Error::ConnectionError)), None);
    assert_eq!(manager.servers().len(), 1);
    assert_eq!(manager.get_pool(&target.server), None);
    let next = manager.get(None).unwrap();
    assert_ne!(next.server, target.server);
    assert_eq!(manager.attempted::<u8>(&next, Err(Error::DeserializationError)), None);
    assert!(manager.get(None).is_err());
}

#[test]
fn refresh_finished_takes_the_table_over_or_passes_the_error_on() {
    let mut manager = manager(vec![server("x0", "ROUTE"), server("w0", "WRITE")], 1000);
    assert!(manager.update_if_expired(1061));
    let failed = Error::ServerUnavailableError("No router available".to_string());
    assert_eq!(manager.refresh_finished(Err(failed.clone()), 1061), Err(failed));
    // nothing was lost, and the next caller is asked to refresh again
    assert_eq!(manager.get_pool(&server("x0", "ROUTE")), Some(100));
    assert_eq!(manager.get_pool(&server("w0", "WRITE")), Some(101));
    assert!(manager.update_if_expired(1061));
    let table = RoutingTable {
        ttl: 5,
        db: None,
        servers: vec![server("x0", "ROUTE"), server("w1", "WRITE")],
    };
    // a pool too few: the table is not taken over
    assert_eq!(
        manager.refresh_finished(Ok((table.clone(), vec![])), 1061),
        Err(Error::ConnectionError)
    );
    assert_eq!(manager.get_pool(&server("w0", "WRITE")), Some(101));
    assert!(manager.update_if_expired(1061));
    assert_eq!(manager.refresh_finished(Ok((table, vec![7])), 1061), Ok(()));
    assert_eq!(manager.get_pool(&server("w1", "WRITE")), Some(7));
    assert_eq!(manager.get_pool(&server("w0", "WRITE")), None);
    assert_eq!(manager.get_pool(&server("x0", "ROUTE")), Some(100));
    assert!(!manager.update_if_expired(1121));
}
