use bolt_routing::auth::ConnectionTLSConfig;
use bolt_routing::routing::connection_registry::ConnectionRegistry;
use bolt_routing::routing::load_balancing::round_robin_strategy::RoundRobinStrategy;
use bolt_routing::routing::load_balancing::LoadBalancingStrategy;
use bolt_routing::{Config, Error, RoutingTable, Server};

fn server(address: &str, role: &str) -> Server {
    Server { addresses: vec![address.to_string()], role: role.to_string() }
}

fn config() -> Config {
    Config {
        uri: "neo4j://localhost:7687".to_string(),
        user: "user".to_string(),
        password: "password".to_string(),
        max_connections: 10,
        db: Some("neo4j".into()),
        fetch_size: 0,
        tls_config: ConnectionTLSConfig::SystemDefault,
        backoff: None,
    }
}

fn sorted(mut servers: Vec<Server>) -> Vec<String> {
    let mut names: Vec<String> = servers.drain(..).map(|s| s.addresses[0].clone()).collect();
    names.sort();
    names
}

#[test]
fn test_available_servers() {
    let readers = vec![
        Server {
            addresses: vec!["host1:7687".to_string()],
            role: "READ".to_string(),
        },
        Server {
            addresses: vec!["host2:7688".to_string()],
            role: "READ".to_string(),
        },
    ];
    let writers = vec![
        Server {
            addresses: vec!["host3:7687".to_string()],
            role: "WRITE".to_string(),
        },
        Server {
            addresses: vec!["host4:7688".to_string()],
            role: "WRITE".to_string(),
        },
    ];
    let routers = vec![Server {
        addresses: vec!["host0:7687".to_string()],
        role: "ROUTE".to_string(),
    }];
    let cluster_routing_table = RoutingTable {
        ttl: 0,
        db: None,
        servers: readers
            .clone()
            .into_iter()
            .chain(writers.clone())
            .chain(routers.clone())
            .collect(),
    };
    let config = Config {
        uri: "neo4j://localhost:7687".to_string(),
        user: "user".to_string(),
        password: "password".to_string(),
        max_connections: 10,
        db: Some("neo4j".into()),
        fetch_size: 0,
        tls_config: ConnectionTLSConfig::SystemDefault,
        backoff: None,
    };
    let mut registry =
        ConnectionRegistry::new(&config, &cluster_routing_table, &[1, 2, 3, 4, 5], 0).unwrap();
    assert_eq!(registry.len(), 5);
    let mut strategy = RoundRobinStrategy::new(cluster_routing_table.clone());
    let router = strategy
        .select_router(registry.servers().as_slice())
        .unwrap();
    assert_eq!(router, routers[0]);
    registry.mark_unavailable(&writers[0]);
    assert_eq!(registry.len(), 4);
    let writer = strategy
        .select_writer(registry.servers().as_slice())
        .unwrap();
    assert_eq!(writer, writers[1]);
}

#[test]
fn registry_gives_each_server_its_pool() {
    let table = RoutingTable {
        ttl: 30,
        db: None,
        servers: vec![server("a", "READ"), server("b", "WRITE"), server("a", "READ")],
    };
    let mut registry = ConnectionRegistry::new(&config(), &table, &[10, 20, 30], 100).unwrap();
    // the server listed twice is held once, with the pool of its last listing
    assert_eq!(registry.len(), 2);
    assert_eq!(registry.get_pool(&server("a", "READ")), Some(30));
    assert_eq!(registry.get_pool(&server("b", "WRITE")), Some(20));
    // same address, other role: another server
    assert_eq!(registry.get_pool(&server("a", "WRITE")), None);
    assert_eq!(sorted(registry.servers()), vec!["a", "b"]);
    assert_eq!(registry.config().uri, "neo4j://localhost:7687");
    registry.mark_unavailable(&server("a", "READ"));
    assert_eq!(registry.get_pool(&server("a", "READ")), None);
    assert_eq!(sorted(registry.servers()), vec!["b"]);
    // once more changes nothing
    registry.mark_unavailable(&server("a", "READ"));
    assert_eq!(registry.len(), 1);
}

#[test]
fn registry_needs_one_pool_per_server() {
    let table = RoutingTable { ttl: 30, db: None, servers: vec![server("a", "READ")] };
    assert_eq!(
        ConnectionRegistry::new(&config(), &table, &[], 0).err(),
        Some(Error::ConnectionError)
    );
    assert_eq!(
        ConnectionRegistry::new(&config(), &table, &[1, 2], 0).err(),
        Some(Error::ConnectionError)
    );
}

#[test]
fn registry_is_stale_only_after_its_time_to_live() {
    let table = RoutingTable { ttl: 30, db: None, servers: vec![server("a", "READ")] };
    let mut registry = ConnectionRegistry::new(&config(), &table, &[1], 100).unwrap();
    assert!(!registry.is_expired(100));
    assert!(!registry.is_expired(130));
    assert!(registry.is_expired(131));
    // a clock that went backwards makes nothing stale
    assert!(!registry.is_expired(0));
    assert!(!registry.update_if_expired(130));
    assert_eq!(registry.len(), 1);
    assert!(registry.update_if_expired(131));
    // a refresh is under way: nobody else is asked to refresh
    assert!(!registry.update_if_expired(131));
    assert!(!registry.update_if_expired(5000));
    // it failed: what was there stays, and the next caller is asked again
    registry.refresh_failed();
    assert_eq!(registry.get_pool(&server("a", "READ")), Some(1));
    assert!(registry.update_if_expired(131));
}

#[test]
fn refresh_adds_new_servers_and_prunes_missing_ones() {
    let table = RoutingTable {
        ttl: 10,
        db: None,
        servers: vec![server("a", "READ"), server("b", "WRITE"), server("c", "ROUTE")],
    };
    let mut registry = ConnectionRegistry::new(&config(), &table, &[1, 2, 3], 0).unwrap();
    assert!(registry.update_if_expired(11));
    let fresh = RoutingTable {
        ttl: 99,
        db: None,
        servers: vec![
            server("d", "READ"),
            server("b", "WRITE"),
            server("e", "ROUTE"),
            server("d", "READ"),
        ],
    };
    assert_eq!(registry.unregistered(&fresh), vec![server("d", "READ"), server("e", "ROUTE")]);
    // a pool is missing: nothing is taken over
    assert_eq!(registry.refreshed(&fresh, &[7], 11), Err(Error::ConnectionError));
    assert_eq!(sorted(registry.servers()), vec!["a", "b", "c"]);
    assert!(registry.update_if_expired(11));
    assert_eq!(registry.refreshed(&fresh, &[7, 8], 11), Ok(()));
    assert_eq!(sorted(registry.servers()), vec!["b", "d", "e"]);
    assert_eq!(registry.get_pool(&server("b", "WRITE")), Some(2));
    assert_eq!(registry.get_pool(&server("d", "READ")), Some(7));
    assert_eq!(registry.get_pool(&server("e", "ROUTE")), Some(8));
    assert_eq!(registry.get_pool(&server("a", "READ")), None);
    // fresh as of 11, and still with the time to live it was made with
    assert!(!registry.update_if_expired(21));
    assert!(registry.update_if_expired(22));
}
