use crate::config::Database;
use crate::connection::Routing;
use crate::errors::Error;
use crate::packstream::de::{decode, MAX_DEPTH};
use crate::packstream::round_trip::{fits, lemma_round_trip};
use crate::packstream::ser::{encodable, encode};
use crate::packstream::{entry_views, lemma_view, views, Packed, Value};
use crate::routing::{Route, RouteView, RoutingTable, RoutingTableView, Server, ServerView};
use vstd::prelude::*;

verus! {

/// The tag of the structure that carries a [`Route`].
pub const ROUTE_TAG: u8 = 0x66;

/// What a [`Route`] is on the wire: a structure of three fields tagged `0x66`.
/// The first field is the routing context, a dictionary from text to text, or
/// null where the client does not route. The second is the list of bookmarks.
/// The third is the database name, empty for the server's default.
pub open spec fn route_value(route: RouteView) -> Packed {
    Packed::Structure(
        ROUTE_TAG,
        seq![
            match route.routing {
                Some(context) => Packed::Dictionary(
                    context.map_values(|entry: (Seq<char>, Seq<char>)| (entry.0, Packed::Text(entry.1))),
                ),
                None => Packed::Null,
            },
            Packed::List(route.bookmarks.map_values(|bookmark: Seq<char>| Packed::Text(bookmark))),
            Packed::Text(
                match route.db {
                    Some(db) => db,
                    None => Seq::empty(),
                },
            ),
        ],
    )
}

impl<'a> Route<'a> {
    /// The request as a value of the wire format.
    pub fn to_value(&self) -> (value: Value)
        ensures
            value@ == route_value(self@),
    {
        let routing = match &self.routing {
            Routing::No => Value::Null,
            Routing::Yes(context) => {
                let mut entries: Vec<(String, Value)> = Vec::new();
                let mut i: usize = 0;
                while i < context.len()
                    invariant
                        i <= context.len(),
                        entries.len() == i,
                        forall|j: int|
                            0 <= j < i ==> (#[trigger] entries[j]).0@ == context[j].0@
                                && entries[j].1 == Value::Text(context[j].1),
                    decreases context.len() - i,
                {
                    entries.push((context[i].0.clone(), Value::Text(context[i].1.clone())));
                    i += 1;
                }
                let value = Value::Dictionary(entries);
                proof {
                    lemma_view(&value);
                    assert(entry_views(entries@) =~= context.deep_view().map_values(
                        |entry: (Seq<char>, Seq<char>)| (entry.0, Packed::Text(entry.1)),
                    ));
                }
                value
            },
        };
        let mut bookmarks: Vec<Value> = Vec::new();
        let mut i: usize = 0;
        while i < self.bookmarks.len()
            invariant
                i <= self.bookmarks.len(),
                bookmarks.len() == i,
                forall|j: int|
                    0 <= j < i ==> #[trigger] bookmarks[j]@ == Packed::Text(self.bookmarks[j]@),
            decreases self.bookmarks.len() - i,
        {
            bookmarks.push(Value::Text(self.bookmarks[i].to_owned()));
            i += 1;
        }
        let bookmarks_value = Value::List(bookmarks);
        proof {
            lemma_view(&bookmarks_value);
            assert(views(bookmarks@) =~= self.bookmarks.deep_view().map_values(
                |bookmark: Seq<char>| Packed::Text(bookmark),
            ));
        }
        let db = match &self.db {
            Some(db) => Value::Text(db.as_str().to_owned()),
            None => Value::Text(String::new()),
        };
        let mut fields: Vec<Value> = Vec::new();
        fields.push(routing);
        fields.push(bookmarks_value);
        fields.push(db);
        let value = Value::Structure(ROUTE_TAG, fields);
        proof {
            lemma_view(&value);
            assert(views(fields@) =~= route_value(self@)->Structure_1);
        }
        value
    }

    /// The bytes to send, if every size in the request fits the wire format.
    pub fn to_bytes(&self) -> (bytes: Result<Vec<u8>, Error>)
        ensures
            match bytes {
                Ok(bytes) => encodable(route_value(self@)) && bytes@ == encode(
                    route_value(self@),
                ),
                Err(e) => e == Error::SerializationError && !encodable(route_value(self@)),
            },
    {
        self.to_value().to_bytes()
    }
}

/// The bytes of a request hold the request and nothing else: whoever reads
/// them gets the structure that was written.
pub proof fn lemma_route_reads_back(route: RouteView)
    requires
        encodable(route_value(route)),
    ensures
        decode(encode(route_value(route))) == Some(route_value(route)),
{
    let fields = route_value(route)->Structure_1;
    assert forall|i: int| 0 <= i < fields.len() implies fits(
        #[trigger] fields[i],
        (MAX_DEPTH - 1) as nat,
    ) by {
        if i == 0 {
            match route.routing {
                Some(context) => {
                    let entries = fields[0]->Dictionary_0;
                    assert forall|j: int| 0 <= j < entries.len() implies fits(
                        (#[trigger] entries[j]).1,
                        (MAX_DEPTH - 2) as nat,
                    ) by {
                        assert(entries[j].1 == Packed::Text(context[j].1));
                    }
                },
                None => {},
            }
        } else if i == 1 {
            let items = fields[1]->List_0;
            assert forall|j: int| 0 <= j < items.len() implies fits(
                #[trigger] items[j],
                (MAX_DEPTH - 2) as nat,
            ) by {
                assert(items[j] == Packed::Text(route.bookmarks[j]));
            }
        }
    }
    lemma_round_trip(route_value(route));
}

/// The values that `entries` gives under `key`, in order.
pub open spec fn values_of(entries: Seq<(Seq<char>, Packed)>, key: Seq<char>) -> Seq<Packed> {
    entries.filter(|entry: (Seq<char>, Packed)| entry.0 == key).map_values(
        |entry: (Seq<char>, Packed)| entry.1,
    )
}

/// The texts that `items` hold, if all of them are texts.
pub open spec fn texts_of(items: Seq<Packed>) -> Option<Seq<Seq<char>>> {
    if forall|i: int| 0 <= i < items.len() ==> #[trigger] items[i] is Text {
        Some(Seq::new(items.len(), |i: int| items[i]->Text_0))
    } else {
        None
    }
}

/// The server that `value` describes: a dictionary that gives, each exactly
/// once, a list of texts under `addresses` and a text under `role`. What it
/// gives under other keys does not count.
pub open spec fn server_of(value: Packed) -> Option<ServerView> {
    match value {
        Packed::Dictionary(entries) => {
            let addresses = values_of(entries, "addresses"@);
            let role = values_of(entries, "role"@);
            if addresses.len() == 1 && role.len() == 1 {
                match (addresses[0], role[0]) {
                    (Packed::List(items), Packed::Text(role)) => match texts_of(items) {
                        Some(addresses) => Some(ServerView { addresses, role }),
                        None => None,
                    },
                    _ => None,
                }
            } else {
                None
            }
        },
        _ => None,
    }
}

/// The servers that `items` describe, if each of them describes one.
pub open spec fn servers_of(items: Seq<Packed>) -> Option<Seq<ServerView>> {
    if forall|i: int| 0 <= i < items.len() ==> (#[trigger] server_of(items[i])) is Some {
        Some(Seq::new(items.len(), |i: int| server_of(items[i])->0))
    } else {
        None
    }
}

/// The database that a table names with what it gives under `db`: nothing or
/// a null for the default database, else one text. The outer option tells
/// whether what is given is one of these.
pub open spec fn db_of(given: Seq<Packed>) -> Option<Option<Seq<char>>> {
    if given.len() == 0 {
        Some(None)
    } else if given.len() == 1 {
        match given[0] {
            Packed::Text(db) => Some(Some(db)),
            Packed::Null => Some(None),
            _ => None,
        }
    } else {
        None
    }
}

/// The routing table that `value` describes: a dictionary that gives, each
/// exactly once, an integer that is not negative under `ttl` and a list of
/// servers under `servers`, and at most once a database under `db`.
pub open spec fn table_of(value: Packed) -> Option<RoutingTableView> {
    match value {
        Packed::Dictionary(entries) => {
            let ttl = values_of(entries, "ttl"@);
            let servers = values_of(entries, "servers"@);
            if ttl.len() == 1 && servers.len() == 1 {
                match (ttl[0], servers[0], db_of(values_of(entries, "db"@))) {
                    (Packed::Integer(ttl), Packed::List(items), Some(db)) => {
                        if ttl >= 0 {
                            match servers_of(items) {
                                Some(servers) => Some(
                                    RoutingTableView { ttl: ttl as u64, db, servers },
                                ),
                                None => None,
                            }
                        } else {
                            None
                        }
                    },
                    _ => None,
                }
            } else {
                None
            }
        },
        _ => None,
    }
}

/// The routing table that a response carries: the response is a dictionary
/// that gives the table, exactly once, under `rt`.
pub open spec fn response_of(value: Packed) -> Option<RoutingTableView> {
    match value {
        Packed::Dictionary(entries) => {
            let rt = values_of(entries, "rt"@);
            if rt.len() == 1 {
                table_of(rt[0])
            } else {
                None
            }
        },
        _ => None,
    }
}

/// What a dictionary gives under a key.
pub enum Given<'a> {
    Nothing,
    One(&'a Value),
    Several,
}

/// Looks up what `entries` gives under `key`.
pub fn field<'a>(entries: &'a Vec<(String, Value)>, key: &str) -> (given: Given<'a>)
    ensures
        match given {
            Given::Nothing => values_of(entry_views(entries@), key@).len() == 0,
            Given::One(value) => values_of(entry_views(entries@), key@) == seq![value@],
            Given::Several => values_of(entry_views(entries@), key@).len() >= 2,
        },
{
    let wanted = String::from_str(key);
    let ghost all = entry_views(entries@);
    let ghost keyed = |entry: (Seq<char>, Packed)| entry.0 == key@;
    let ghost value_of = |entry: (Seq<char>, Packed)| entry.1;
    let mut given = Given::Nothing;
    let mut i: usize = 0;
    proof {
        assert(all.take(0) =~= Seq::<(Seq<char>, Packed)>::empty());
        reveal(Seq::filter);
        assert(all.take(0).filter(keyed).map_values(value_of) =~= Seq::<Packed>::empty());
    }
    while i < entries.len()
        invariant
            i <= entries.len(),
            all == entry_views(entries@),
            wanted@ == key@,
            keyed == (|entry: (Seq<char>, Packed)| entry.0 == key@),
            value_of == (|entry: (Seq<char>, Packed)| entry.1),
            match given {
                Given::Nothing => all.take(i as int).filter(keyed).len() == 0,
                Given::One(value) => all.take(i as int).filter(keyed).map_values(value_of)
                    == seq![value@],
                Given::Several => false,
            },
        decreases entries.len() - i,
    {
        proof {
            assert(all.take(i + 1) =~= all.take(i as int).push(all[i as int]));
            all.take(i as int).lemma_filter_push(all[i as int], keyed);
        }
        if entries[i].0 == wanted {
            match given {
                Given::Nothing => {
                    given = Given::One(&entries[i].1);
                    assert(all.take(i + 1).filter(keyed).map_values(value_of) =~= seq![
                        entries[i as int].1@,
                    ]);
                },
                _ => {
                    proof {
                        let rest = all.skip(i + 1);
                        assert(all =~= all.take(i + 1) + rest);
                        Seq::filter_distributes_over_add(all.take(i + 1), rest, keyed);
                    }
                    return Given::Several;
                },
            }
        }
        i += 1;
    }
    assert(all.take(entries.len() as int) =~= all);
    given
}

/// The texts that `items` hold, if all of them are texts.
fn texts(items: &Vec<Value>) -> (found: Option<Vec<String>>)
    ensures
        match found {
            Some(found) => texts_of(views(items@)) == Some(found.deep_view()),
            None => texts_of(views(items@)) is None,
        },
{
    let mut found: Vec<String> = Vec::new();
    let mut i: usize = 0;
    while i < items.len()
        invariant
            i <= items.len(),
            found.len() == i,
            forall|j: int| 0 <= j < i ==> #[trigger] items[j]@ == Packed::Text(found[j]@),
        decreases items.len() - i,
    {
        match &items[i] {
            Value::Text(text) => {
                found.push(text.clone());
            },
            _ => {
                assert(!(views(items@)[i as int] is Text));
                return None;
            },
        }
        i += 1;
    }
    assert forall|j: int| 0 <= j < items.len() implies #[trigger] views(items@)[j] is Text by {
        assert(items[j]@ == Packed::Text(found[j]@));
    }
    assert(texts_of(views(items@))->0 =~= found.deep_view());
    Some(found)
}

/// The server that `value` describes, if it describes one.
fn server(value: &Value) -> (found: Option<Server>)
    ensures
        match found {
            Some(found) => server_of(value@) == Some(found@),
            None => server_of(value@) is None,
        },
{
    proof {
        lemma_view(value);
    }
    let entries = match value {
        Value::Dictionary(entries) => entries,
        _ => {
            return None;
        },
    };
    let addresses = match field(entries, "addresses") {
        Given::One(Value::List(items)) => {
            proof {
                lemma_view(&Value::List(*items));
            }
            match texts(items) {
                Some(addresses) => addresses,
                None => {
                    return None;
                },
            }
        },
        _ => {
            return None;
        },
    };
    let role = match field(entries, "role") {
        Given::One(Value::Text(role)) => role.clone(),
        _ => {
            return None;
        },
    };
    Some(Server { addresses, role })
}

/// The servers that `items` describe, if each of them describes one.
fn servers(items: &Vec<Value>) -> (found: Option<Vec<Server>>)
    ensures
        match found {
            Some(found) => servers_of(views(items@)) == Some(found.deep_view()),
            None => servers_of(views(items@)) is None,
        },
{
    let mut found: Vec<Server> = Vec::new();
    let mut i: usize = 0;
    while i < items.len()
        invariant
            i <= items.len(),
            found.len() == i,
            forall|j: int| 0 <= j < i ==> #[trigger] server_of(items[j]@) == Some(found[j]@),
        decreases items.len() - i,
    {
        match server(&items[i]) {
            Some(server) => {
                found.push(server);
            },
            None => {
                assert(server_of(views(items@)[i as int]) is None);
                return None;
            },
        }
        i += 1;
    }
    assert forall|j: int| 0 <= j < items.len() implies (#[trigger] server_of(
        views(items@)[j],
    )) is Some by {
        assert(server_of(items[j]@) == Some(found[j]@));
    }
    assert(servers_of(views(items@))->0 =~= found.deep_view());
    Some(found)
}

/// The routing table that `value` describes, if it describes one.
fn table(value: &Value) -> (found: Option<RoutingTable>)
    ensures
        match found {
            Some(found) => table_of(value@) == Some(found@),
            None => table_of(value@) is None,
        },
{
    proof {
        lemma_view(value);
    }
    let entries = match value {
        Value::Dictionary(entries) => entries,
        _ => {
            return None;
        },
    };
    let ttl: u64 = match field(entries, "ttl") {
        Given::One(Value::Integer(ttl)) => {
            if *ttl < 0 {
                return None;
            }
            *ttl as u64
        },
        _ => {
            return None;
        },
    };
    let servers = match field(entries, "servers") {
        Given::One(Value::List(items)) => {
            proof {
                lemma_view(&Value::List(*items));
            }
            match servers(items) {
                Some(servers) => servers,
                None => {
                    return None;
                },
            }
        },
        _ => {
            return None;
        },
    };
    let db = match field(entries, "db") {
        Given::Nothing => None,
        Given::One(Value::Null) => None,
        Given::One(Value::Text(db)) => Some(Database::new(db.as_str())),
        _ => {
            return None;
        },
    };
    Some(RoutingTable { ttl, db, servers })
}

/// The answer to a [`Route`]: a routing table.
#[derive(Debug, Clone, PartialEq, Eq)]
pub struct Response {
    pub rt: RoutingTable,
}

impl Response {
    /// Reads a response off the wire. The bytes must hold exactly one
    /// well-formed value, and the value must describe a routing table.
    pub fn parse(data: &[u8]) -> (response: Result<Response, Error>)
        ensures
            match response {
                Ok(response) => {
                    &&& decode(data@) matches Some(value)
                    &&& response_of(value) == Some(response.rt@)
                },
                Err(e) => match decode(data@) {
                    Some(value) => e == Error::UnexpectedMessage && response_of(value) is None,
                    None => e == Error::DeserializationError,
                },
            },
    {
        let value = match Value::decode(data) {
            Ok(value) => value,
            Err(e) => {
                return Err(e);
            },
        };
        proof {
            lemma_view(&value);
        }
        let entries = match &value {
            Value::Dictionary(entries) => entries,
            _ => {
                return Err(Error::UnexpectedMessage);
            },
        };
        match field(entries, "rt") {
            Given::One(rt) => match table(rt) {
                Some(rt) => Ok(Response { rt }),
                None => Err(Error::UnexpectedMessage),
            },
            _ => Err(Error::UnexpectedMessage),
        }
    }
}

} // verus!
