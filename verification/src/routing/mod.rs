pub mod connection_registry;
pub mod load_balancing;

pub mod routed_connection_manager;

use crate::config::{db_view, Database};
use crate::connection::{Routing, RoutingView};
use crate::text::{decimal, decimal_text, join, joined};
use crate::version::Version;
use vstd::prelude::*;

verus! {

/// Mathematical model of a [`Server`].
pub struct ServerView {
    pub addresses: Seq<Seq<char>>,
    pub role: Seq<char>,
}

/// One cluster member: its addresses (the first is the primary one) and its role.
#[derive(Debug, PartialEq, Eq, Hash)]
pub struct Server {
    pub addresses: Vec<String>,
    pub role: String,
}

impl View for Server {
    type V = ServerView;

    open spec fn view(&self) -> ServerView {
        ServerView { addresses: self.addresses.deep_view(), role: self.role@ }
    }
}

impl DeepView for Server {
    type V = ServerView;

    open spec fn deep_view(&self) -> ServerView {
        self@
    }
}

impl Clone for Server {
    fn clone(&self) -> (res: Self)
        ensures
            res@ == self@,
    {
        let addresses = self.addresses.clone();
        assert(addresses.deep_view() =~= self.addresses.deep_view());
        Server { addresses, role: self.role.clone() }
    }
}

impl Server {
    /// Structural equality: same addresses in the same order, same role.
    pub fn same(&self, other: &Server) -> (b: bool)
        ensures
            b == (self@ == other@),
    {
        if self.role != other.role {
            return false;
        }
        if self.addresses.len() != other.addresses.len() {
            assert(self.addresses.deep_view().len() != other.addresses.deep_view().len());
            return false;
        }
        let mut i: usize = 0;
        while i < self.addresses.len()
            invariant
                i <= self.addresses.len(),
                self.addresses.len() == other.addresses.len(),
                self.role@ == other.role@,
                forall|j: int| 0 <= j < i ==> self.addresses[j]@ == other.addresses[j]@,
            decreases self.addresses.len() - i,
        {
            if self.addresses[i] != other.addresses[i] {
                assert(self.addresses.deep_view()[i as int] != other.addresses.deep_view()[i as int]);
                return false;
            }
            i += 1;
        }
        assert(self.addresses.deep_view() =~= other.addresses.deep_view());
        true
    }

    /// Whether the server holds `role`.
    pub fn has_role(&self, role: &str) -> (b: bool)
        ensures
            b == (self.role@ == role@),
    {
        let wanted = String::from_str(role);
        self.role == wanted
    }
}

/// Mathematical model of a [`RoutingTable`].
pub struct RoutingTableView {
    pub ttl: u64,
    pub db: Option<Seq<char>>,
    pub servers: Seq<ServerView>,
}

/// The cluster as one routing coordinator reported it: how long the report stays
/// valid, the database it applies to, and the members with their roles.
#[derive(Debug, Clone, PartialEq, Eq)]
pub struct RoutingTable {
    pub ttl: u64,
    pub db: Option<Database>,
    pub servers: Vec<Server>,
}

impl View for RoutingTable {
    type V = RoutingTableView;

    open spec fn view(&self) -> RoutingTableView {
        RoutingTableView {
            ttl: self.ttl,
            db: db_view(self.db),
            servers: self.servers.deep_view(),
        }
    }
}

/// The form that `Debug` gives a text: the text in double quotes, with the
/// characters that need it escaped.
pub uninterp spec fn debug_text(text: Seq<char>) -> Seq<char>;

/// The `Debug` form of a text, as std's formatting writes it.
#[verifier::external_body]
fn debug_form(text: &str) -> (form: String)
    ensures
        form@ == debug_text(text@),
{
    format!("{:?}", text)
}

/// The addresses of each server, joined by a comma and a blank.
pub open spec fn address_lists(servers: Seq<ServerView>) -> Seq<Seq<char>> {
    Seq::new(servers.len(), |i: int| joined(servers[i].addresses, ", "@))
}

/// A line that shows a time to live, a database in its `Debug` form and a
/// list of address lists.
pub open spec fn layout(ttl: nat, db: Seq<char>, lists: Seq<Seq<char>>) -> Seq<char> {
    "RoutingTable { ttl: "@ + decimal_text(ttl) + ", db: Database("@ + db + "), servers: "@
        + joined(lists, ", "@) + " }"@
}

/// How a routing table reads: its time to live, its database (the empty name
/// where it has none) and the addresses of all its servers in one list.
pub open spec fn rendering(table: RoutingTableView) -> Seq<char> {
    layout(
        table.ttl as nat,
        debug_text(
            match table.db {
                Some(db) => db,
                None => Seq::empty(),
            },
        ),
        address_lists(table.servers),
    )
}

/// Lays out the line that shows a routing table, given the `Debug` form of
/// its database and the address list of each of its servers.
pub fn render(ttl: u64, db: &str, lists: &Vec<String>) -> (text: String)
    ensures
        text@ == layout(ttl as nat, db@, lists.deep_view()),
{
    let mut text = "RoutingTable { ttl: ".to_owned();
    text.append(decimal(ttl).as_str());
    text.append(", db: Database(");
    text.append(db);
    text.append("), servers: ");
    text.append(join(lists, ", ").as_str());
    text.append(" }");
    text
}

impl RoutingTable {
    /// The table as a line of text for people to read.
    pub fn to_string(&self) -> (text: String)
        ensures
            text@ == rendering(self@),
    {
        let mut lists: Vec<String> = Vec::new();
        let mut i: usize = 0;
        while i < self.servers.len()
            invariant
                i <= self.servers.len(),
                lists.len() == i,
                forall|j: int|
                    0 <= j < i ==> #[trigger] lists[j]@ == joined(
                        self.servers[j]@.addresses,
                        ", "@,
                    ),
            decreases self.servers.len() - i,
        {
            lists.push(join(&self.servers[i].addresses, ", "));
            i += 1;
        }
        assert(lists.deep_view() =~= address_lists(self@.servers));
        let db = match &self.db {
            Some(db) => debug_form(db.as_str()),
            None => debug_form(""),
        };
        proof {
            reveal_strlit("");
            assert(""@ =~= Seq::<char>::empty());
        }
        render(self.ttl, db.as_str(), &lists)
    }
}

/// Mathematical model of a [`Route`].
pub struct RouteView {
    pub routing: RoutingView,
    pub bookmarks: Seq<Seq<char>>,
    pub db: Option<Seq<char>>,
}

/// The request for the cluster's topology: the client's routing context, the
/// bookmarks that the answer must be at least as recent as, and the database
/// asked about (none means the server's default).
#[derive(Debug, Clone, PartialEq, Eq)]
pub struct Route<'a> {
    pub routing: Routing,
    pub bookmarks: Vec<&'a str>,
    pub db: Option<Database>,
}

impl<'a> View for Route<'a> {
    type V = RouteView;

    open spec fn view(&self) -> RouteView {
        RouteView {
            routing: self.routing@,
            bookmarks: self.bookmarks.deep_view(),
            db: db_view(self.db),
        }
    }
}

impl<'a> Route<'a> {
    /// The request with these three parts.
    pub fn new(routing: Routing, bookmarks: Vec<&'a str>, db: Option<Database>) -> (route: Self)
        ensures
            route@ == (RouteView {
                routing: routing@,
                bookmarks: bookmarks.deep_view(),
                db: db_view(db),
            }),
    {
        Route { routing, bookmarks, db }
    }
}

/// Extra request data of later protocol versions: the database and the
/// impersonated user.
#[derive(Debug, Clone, PartialEq, Eq)]
pub struct Extra<'a> {
    pub db: &'a str,
    pub imp_user: &'a str,
}

/// Collects the parts of a [`Route`].
pub struct RouteBuilder<'a> {
    routing: Routing,
    bookmarks: Vec<&'a str>,
    db: Option<Database>,
}

impl<'a> View for RouteBuilder<'a> {
    type V = RouteView;

    closed spec fn view(&self) -> RouteView {
        RouteView {
            routing: self.routing@,
            bookmarks: self.bookmarks.deep_view(),
            db: db_view(self.db),
        }
    }
}

impl<'a> RouteBuilder<'a> {
    /// A builder for a request about the server's default database.
    pub fn new(routing: Routing, bookmarks: Vec<&'a str>) -> (builder: Self)
        ensures
            builder@ == (RouteView {
                routing: routing@,
                bookmarks: bookmarks.deep_view(),
                db: None,
            }),
    {
        RouteBuilder { routing, bookmarks, db: None }
    }

    /// Asks about `db` instead.
    pub fn with_db(self, db: Database) -> (builder: Self)
        ensures
            builder@ == (RouteView { db: Some(db@), ..self@ }),
    {
        RouteBuilder { routing: self.routing, bookmarks: self.bookmarks, db: Some(db) }
    }

    /// The request, which is the same for every protocol version.
    pub fn build(self, _version: Version) -> (route: Route<'a>)
        ensures
            route@ == self@,
    {
        Route { routing: self.routing, bookmarks: self.bookmarks, db: self.db }
    }
}

} // verus!
