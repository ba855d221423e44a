use bolt_routing::routing::load_balancing::round_robin_strategy::RoundRobinStrategy;
use bolt_routing::routing::load_balancing::LoadBalancingStrategy;
use bolt_routing::routing::render;
use bolt_routing::{RoutingTable, Server};

fn server(address: &str, role: &str) -> Server {
    Server { addresses: vec![address.to_string()], role: role.to_string() }
}

#[test]
fn should_get_next_server() {
    let readers = vec![
        Server {
            addresses: vec!["localhost:7687".to_string()],
            role: "READ".to_string(),
        },
        Server {
            addresses: vec!["localhost:7688".to_string()],
            role: "READ".to_string(),
        },
    ];
    let writers = vec![];
    let cluster_routing_table = RoutingTable {
        ttl: 0,
        db: None,
        servers: readers.clone().into_iter().chain(writers.clone()).collect(),
    };
    let mut strategy = RoundRobinStrategy::new(cluster_routing_table.clone());
    let reader = strategy
        .select_reader(cluster_routing_table.servers.as_slice())
        .unwrap();
    assert_eq!(reader, readers[1]);
    let reader = strategy
        .select_reader(cluster_routing_table.servers.as_slice())
        .unwrap();
    assert_eq!(reader, readers[0]);
    let reader = strategy
        .select_reader(cluster_routing_table.servers.as_slice())
        .unwrap();
    assert_eq!(reader, readers[1]);
    let writer = strategy.select_writer(cluster_routing_table.servers.as_slice());
    assert_eq!(writer, None);
}

#[test]
fn rotation_goes_from_last_to_first_and_starts_over() {
    let servers = vec![
        server("w0", "WRITE"),
        server("r0", "READ"),
        server("w1", "WRITE"),
        server("x0", "ROUTE"),
        server("w2", "WRITE"),
    ];
    let table = RoutingTable { ttl: 1, db: None, servers: servers.clone() };
    let mut strategy = RoundRobinStrategy::new(table);
    let mut picked = Vec::new();
    for _ in 0..7 {
        picked.push(strategy.select_writer(&servers).unwrap().addresses[0].clone());
    }
    assert_eq!(picked, vec!["w2", "w1", "w0", "w2", "w1", "w0", "w2"]);
    // the other roles have counters of their own
    assert_eq!(strategy.select_reader(&servers), Some(servers[1].clone()));
    assert_eq!(strategy.select_reader(&servers), Some(servers[1].clone()));
    assert_eq!(strategy.select_router(&servers), Some(servers[3].clone()));
}

#[test]
fn absent_role_yields_nothing_every_time() {
    let servers = vec![server("r0", "READ"), server("r1", "READ")];
    let table = RoutingTable { ttl: 1, db: None, servers: servers.clone() };
    let mut strategy = RoundRobinStrategy::new(table);
    for _ in 0..10 {
        assert_eq!(strategy.select_writer(&servers), None);
        assert_eq!(strategy.select_router(&servers), None);
        assert_eq!(strategy.select_writer(&[]), None);
    }
    // the readers' turn was not touched
    assert_eq!(strategy.select_reader(&servers), Some(servers[1].clone()));
}

#[test]
fn select_moves_the_counter() {
    let servers = vec![server("a", "READ"), server("b", "READ"), server("c", "READ")];
    let mut counter: usize = 3;
    assert_eq!(RoundRobinStrategy::select(&servers, &mut counter), Some(servers[2].clone()));
    assert_eq!(counter, 2);
    assert_eq!(RoundRobinStrategy::select(&servers, &mut counter), Some(servers[1].clone()));
    assert_eq!(RoundRobinStrategy::select(&servers, &mut counter), Some(servers[0].clone()));
    assert_eq!(counter, 0);
    // at zero the counter is set back to the number of servers first
    assert_eq!(RoundRobinStrategy::select(&servers, &mut counter), Some(servers[2].clone()));
    assert_eq!(counter, 2);
    // nothing to pick from: nothing picked, counter untouched
    assert_eq!(RoundRobinStrategy::select(&[], &mut counter), None);
    assert_eq!(counter, 2);
}

#[test]
fn select_falls_back_to_the_last_server_when_the_list_has_shrunk() {
    let servers = vec![server("a", "READ"), server("b", "READ")];
    let mut counter: usize = 5;
    assert_eq!(RoundRobinStrategy::select(&servers, &mut counter), Some(servers[1].clone()));
    assert_eq!(counter, 2);
    // the counter was reset to the length, so the last server comes once more
    assert_eq!(RoundRobinStrategy::select(&servers, &mut counter), Some(servers[1].clone()));
    assert_eq!(counter, 1);
    assert_eq!(RoundRobinStrategy::select(&servers, &mut counter), Some(servers[0].clone()));
}

#[test]
fn routing_table_reads_as_one_line() {
    let table = RoutingTable {
        ttl: 1000,
        db: Some("neo4j".into()),
        servers: vec![
            Server { addresses: vec!["a:1".to_string(), "b:2".to_string()], role: "READ".to_string() },
            server("c:3", "WRITE"),
        ],
    };
    assert_eq!(
        table.to_string(),
        "RoutingTable { ttl: 1000, db: Database(\"neo4j\"), servers: a:1, b:2, c:3 }"
    );
    let empty = RoutingTable { ttl: 0, db: None, servers: vec![] };
    assert_eq!(empty.to_string(), "RoutingTable { ttl: 0, db: Database(\"\"), servers:  }");
}

#[test]
fn render_lays_the_line_out() {
    assert_eq!(
        render(18446744073709551615, "\"x\"", &vec!["a".to_string(), "".to_string(), "b, c".to_string()]),
        "RoutingTable { ttl: 18446744073709551615, db: Database(\"x\"), servers: a, , b, c }"
    );
    assert_eq!(render(10, "", &vec![]), "RoutingTable { ttl: 10, db: Database(), servers:  }");
}
