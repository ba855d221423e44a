use bolt_routing::bolt::request::route::Response;
use bolt_routing::packstream::Value;
use bolt_routing::{Database, Error, Route, RouteBuilder, Routing, Version};

/// Writes PackStream bytes one marker at a time.
struct Bytes {
    data: Vec<u8>,
}

fn bolt() -> Bytes {
    Bytes { data: Vec::new() }
}

impl Bytes {
    fn structure(mut self, fields: u8, tag: u8) -> Self {
        self.data.push(0xB0 | fields);
        self.data.push(tag);
        self
    }

    fn tiny_map(mut self, len: u8) -> Self {
        self.data.push(0xA0 | len);
        self
    }

    fn tiny_list(mut self, len: u8) -> Self {
        self.data.push(0x90 | len);
        self
    }

    fn tiny_string(mut self, s: &str) -> Self {
        self.data.push(0x80 | s.len() as u8);
        self.data.extend_from_slice(s.as_bytes());
        self
    }

    fn int64(mut self, n: i64) -> Self {
        self.data.push(0xCB);
        self.data.extend_from_slice(&n.to_be_bytes());
        self
    }

    fn null(mut self) -> Self {
        self.data.push(0xC0);
        self
    }

    fn raw(mut self, bytes: &[u8]) -> Self {
        self.data.extend_from_slice(bytes);
        self
    }

    fn build(self) -> Vec<u8> {
        self.data
    }
}

#[test]
fn serialize() {
    let route = RouteBuilder::new(
        Routing::Yes(vec![("address".into(), "localhost:7687".into())]),
        vec!["bookmark"],
    )
    .with_db(Database::from("neo4j"))
    .build(Version::V4_3);
    let bytes = route.to_bytes().unwrap();

    let expected = bolt()
        .structure(3, 0x66)
        .tiny_map(1)
        .tiny_string("address")
        .tiny_string("localhost:7687")
        .tiny_list(1)
        .tiny_string("bookmark")
        .tiny_string("neo4j")
        .build();

    assert_eq!(bytes, expected);
}

#[test]
fn parse() {
    let data = bolt()
        .tiny_map(1)
        .tiny_string("rt")
        .tiny_map(3)
        .tiny_string("ttl")
        .int64(1000)
        .tiny_string("db")
        .tiny_string("neo4j")
        .tiny_string("servers")
        .tiny_list(1)
        .tiny_map(2)
        .tiny_string("addresses")
        .tiny_list(1)
        .tiny_string("localhost:7687")
        .tiny_string("role")
        .tiny_string("ROUTE")
        .build();

    let response = Response::parse(&data).unwrap();

    assert_eq!(response.rt.ttl, 1000);
    assert_eq!(response.rt.db.unwrap().as_ref(), "neo4j");
    assert_eq!(response.rt.servers.len(), 1);
}

#[test]
fn parse_keeps_addresses_and_role() {
    let data = bolt()
        .tiny_map(1)
        .tiny_string("rt")
        .tiny_map(2)
        .tiny_string("servers")
        .tiny_list(2)
        .tiny_map(2)
        .tiny_string("role")
        .tiny_string("READ")
        .tiny_string("addresses")
        .tiny_list(2)
        .tiny_string("a:1")
        .tiny_string("b:2")
        .tiny_map(2)
        .tiny_string("addresses")
        .tiny_list(0)
        .tiny_string("role")
        .tiny_string("WRITE")
        .tiny_string("ttl")
        .raw(&[0x2A])
        .build();
    let table = Response::parse(&data).unwrap().rt;
    assert_eq!(table.ttl, 42);
    assert_eq!(table.db, None);
    assert_eq!(table.servers.len(), 2);
    assert_eq!(table.servers[0].addresses, vec!["a:1".to_string(), "b:2".to_string()]);
    assert_eq!(table.servers[0].role, "READ");
    assert!(table.servers[1].addresses.is_empty());
    assert_eq!(table.servers[1].role, "WRITE");
}

#[test]
fn parse_tolerates_missing_and_null_db_and_unknown_keys() {
    let missing = bolt()
        .tiny_map(1)
        .tiny_string("rt")
        .tiny_map(2)
        .tiny_string("ttl")
        .int64(5)
        .tiny_string("servers")
        .tiny_list(0)
        .build();
    assert_eq!(Response::parse(&missing).unwrap().rt.db, None);
    let null = bolt()
        .tiny_map(2)
        .tiny_string("other")
        .tiny_list(1)
        .null()
        .tiny_string("rt")
        .tiny_map(4)
        .tiny_string("ttl")
        .int64(5)
        .tiny_string("db")
        .null()
        .tiny_string("extra")
        .raw(&[0xC3])
        .tiny_string("servers")
        .tiny_list(0)
        .build();
    let table = Response::parse(&null).unwrap().rt;
    assert_eq!(table.db, None);
    assert_eq!(table.ttl, 5);
    assert!(table.servers.is_empty());
}

#[test]
fn parse_reads_every_integer_width() {
    for (ttl_bytes, ttl) in [
        (vec![0x7Fu8], 127u64),
        (vec![0xC8, 0x7F], 127),
        (vec![0xC9, 0x01, 0x00], 256),
        (vec![0xCA, 0x00, 0x01, 0x00, 0x00], 65536),
        (vec![0xCB, 0, 0, 0, 1, 0, 0, 0, 0], 4294967296),
    ] {
        let data = bolt()
            .tiny_map(1)
            .tiny_string("rt")
            .tiny_map(2)
            .tiny_string("ttl")
            .raw(&ttl_bytes)
            .tiny_string("servers")
            .tiny_list(0)
            .build();
        assert_eq!(Response::parse(&data).unwrap().rt.ttl, ttl);
    }
}

#[test]
fn parse_rejects_bytes_that_are_no_value() {
    // nothing at all
    assert_eq!(Response::parse(&[]), Err(Error::DeserializationError));
    // a text cut short
    assert_eq!(Response::parse(&[0xA1, 0x82, b'r']), Err(Error::DeserializationError));
    // a marker that stands for nothing
    assert_eq!(Response::parse(&[0xC7]), Err(Error::DeserializationError));
    // a byte too many
    let trailing = bolt().tiny_map(0).raw(&[0x00]).build();
    assert_eq!(Response::parse(&trailing), Err(Error::DeserializationError));
    // a text that is not UTF-8
    let bad_text = bolt().tiny_map(1).raw(&[0x81, 0xFF]).null().build();
    assert_eq!(Response::parse(&bad_text), Err(Error::DeserializationError));
    // lists nested deeper than is read
    let deep = vec![0x91u8; 40];
    assert_eq!(Response::parse(&deep), Err(Error::DeserializationError));
}

#[test]
fn parse_rejects_values_that_are_no_routing_table() {
    // not a dictionary
    assert_eq!(Response::parse(&[0x01]), Err(Error::UnexpectedMessage));
    // no table
    assert_eq!(Response::parse(&bolt().tiny_map(0).build()), Err(Error::UnexpectedMessage));
    // no time to live
    let no_ttl = bolt()
        .tiny_map(1)
        .tiny_string("rt")
        .tiny_map(1)
        .tiny_string("servers")
        .tiny_list(0)
        .build();
    assert_eq!(Response::parse(&no_ttl), Err(Error::UnexpectedMessage));
    // a negative time to live
    let negative = bolt()
        .tiny_map(1)
        .tiny_string("rt")
        .tiny_map(2)
        .tiny_string("ttl")
        .int64(-1)
        .tiny_string("servers")
        .tiny_list(0)
        .build();
    assert_eq!(Response::parse(&negative), Err(Error::UnexpectedMessage));
    // the time to live given twice
    let twice = bolt()
        .tiny_map(1)
        .tiny_string("rt")
        .tiny_map(3)
        .tiny_string("ttl")
        .int64(1)
        .tiny_string("ttl")
        .int64(1)
        .tiny_string("servers")
        .tiny_list(0)
        .build();
    assert_eq!(Response::parse(&twice), Err(Error::UnexpectedMessage));
    // a server without a role
    let no_role = bolt()
        .tiny_map(1)
        .tiny_string("rt")
        .tiny_map(2)
        .tiny_string("ttl")
        .int64(1)
        .tiny_string("servers")
        .tiny_list(1)
        .tiny_map(1)
        .tiny_string("addresses")
        .tiny_list(0)
        .build();
    assert_eq!(Response::parse(&no_role), Err(Error::UnexpectedMessage));
    // a database that is a number
    let db_number = bolt()
        .tiny_map(1)
        .tiny_string("rt")
        .tiny_map(3)
        .tiny_string("ttl")
        .int64(1)
        .tiny_string("db")
        .int64(7)
        .tiny_string("servers")
        .tiny_list(0)
        .build();
    assert_eq!(Response::parse(&db_number), Err(Error::UnexpectedMessage));
}

#[test]
fn route_without_context_or_database() {
    let route = Route::new(Routing::No, vec![], None);
    assert_eq!(route.to_bytes().unwrap(), vec![0xB3, 0x66, 0xC0, 0x90, 0x80]);
    let built = RouteBuilder::new(Routing::Yes(vec![]), vec!["a", "b"]).build(Version::V4_4);
    assert_eq!(
        built.to_bytes().unwrap(),
        vec![0xB3, 0x66, 0xA0, 0x92, 0x81, b'a', 0x81, b'b', 0x80]
    );
    assert_eq!(built, Route::new(Routing::Yes(vec![]), vec!["a", "b"], None));
}

#[test]
fn route_with_long_text_uses_wider_headers() {
    let name = "x".repeat(16);
    let long = "y".repeat(256);
    let route = Route::new(Routing::No, vec![long.as_str()], Some(Database::from(name.as_str())));
    let mut expected = vec![0xB3, 0x66, 0xC0, 0x91, 0xD1, 0x01, 0x00];
    expected.extend_from_slice(long.as_bytes());
    expected.extend_from_slice(&[0xD0, 0x10]);
    expected.extend_from_slice(name.as_bytes());
    assert_eq!(route.to_bytes().unwrap(), expected);
}

#[test]
fn values_survive_the_wire() {
    let value = Value::Structure(
        0x01,
        vec![
            Value::Null,
            Value::Boolean(true),
            Value::Integer(-16),
            Value::Integer(-17),
            Value::Integer(127),
            Value::Integer(-129),
            Value::Integer(32768),
            Value::Integer(-2147483649),
            Value::Integer(i64::MIN),
            Value::Integer(i64::MAX),
            Value::Float(1.5f64.to_bits()),
            Value::Bytes(vec![1, 2, 3]),
            Value::Text("größer".to_string()),
            Value::List(vec![Value::List(vec![]), Value::Text("x".repeat(70000))]),
            Value::Dictionary(vec![("k".to_string(), Value::Boolean(false))]),
            Value::Null,
        ],
    );
    // sixteen fields are one too many for a structure
    assert_eq!(value.to_bytes(), Err(Error::SerializationError));
    let fields = match value {
        Value::Structure(_, mut fields) => {
            fields.pop();
            fields
        }
        _ => unreachable!(),
    };
    let value = Value::Structure(0x01, fields);
    let bytes = value.to_bytes().unwrap();
    assert_eq!(Value::decode(&bytes), Ok(value));
}

#[test]
fn integers_take_the_shortest_form() {
    assert_eq!(Value::Integer(0).to_bytes().unwrap(), vec![0x00]);
    assert_eq!(Value::Integer(-1).to_bytes().unwrap(), vec![0xFF]);
    assert_eq!(Value::Integer(-16).to_bytes().unwrap(), vec![0xF0]);
    assert_eq!(Value::Integer(-17).to_bytes().unwrap(), vec![0xC8, 0xEF]);
    assert_eq!(Value::Integer(-128).to_bytes().unwrap(), vec![0xC8, 0x80]);
    assert_eq!(Value::Integer(128).to_bytes().unwrap(), vec![0xC9, 0x00, 0x80]);
    assert_eq!(Value::Integer(-32769).to_bytes().unwrap(), vec![0xCA, 0xFF, 0xFF, 0x7F, 0xFF]);
    assert_eq!(
        Value::Integer(1000 << 32).to_bytes().unwrap(),
        vec![0xCB, 0x00, 0x00, 0x03, 0xE8, 0x00, 0x00, 0x00, 0x00]
    );
    assert_eq!(
        Value::Integer(i64::MIN).to_bytes().unwrap(),
        vec![0xCB, 0x80, 0, 0, 0, 0, 0, 0, 0]
    );
    assert_eq!(Value::decode(&[0xC8, 0xEF]), Ok(Value::Integer(-17)));
    assert_eq!(Value::decode(&[0xC9, 0xFF, 0xFF]), Ok(Value::Integer(-1)));
    assert_eq!(
        Value::decode(&[0xCB, 0xFF, 0xFF, 0xFF, 0xFF, 0xFF, 0xFF, 0xFF, 0xFE]),
        Ok(Value::Integer(-2))
    );
}
