use crate::routing::load_balancing::{
    picked_from, servers_with_role, with_role, LoadBalancingStrategy, READ, ROUTE, WRITE,
};
use crate::routing::{RoutingTable, Server, ServerView};
use vstd::prelude::*;

verus! {

/// One turn of the rotation over `n > 0` candidates, for a counter that holds
/// `counter`: the index that is picked, and what the counter holds afterwards.
///
/// A counter at zero is first set back to `n`. The counter is then lowered by
/// one, and the value it had before names the candidate just below it. A value
/// that no longer names a candidate (the list has shrunk) sets the counter to
/// `n` and picks the last candidate.
pub open spec fn rotate(counter: int, n: int) -> (int, int) {
    let primed = if counter == 0 { n } else { counter };
    if 1 <= primed <= n {
        (primed - 1, primed - 1)
    } else {
        (n - 1, n)
    }
}

/// What a counter that started at `start` holds after `calls` turns over `n` candidates.
pub open spec fn counter_after(start: int, n: int, calls: nat) -> int
    decreases calls,
{
    if calls == 0 {
        start
    } else {
        rotate(counter_after(start, n, (calls - 1) as nat), n).1
    }
}

/// The index that turn number `call` (counted from zero) picks.
pub open spec fn pick_at(start: int, n: int, call: nat) -> int {
    rotate(counter_after(start, n, call), n).0
}

/// The three counters of a [`RoundRobinStrategy`].
pub struct RotationView {
    pub reader: int,
    pub writer: int,
    pub router: int,
}

/// Hands the servers of a role out in turn, from the last one to the first.
///
/// Each role has a counter of its own. The counters are plain numbers that
/// only `&mut self` can move, so a turn is one indivisible step and no two
/// callers are ever handed the same turn. Whoever shares a strategy between
/// threads decides what guards it.
pub struct RoundRobinStrategy {
    reader_index: usize,
    writer_index: usize,
    router_index: usize,
}

impl View for RoundRobinStrategy {
    type V = RotationView;

    closed spec fn view(&self) -> RotationView {
        RotationView {
            reader: self.reader_index as int,
            writer: self.writer_index as int,
            router: self.router_index as int,
        }
    }
}

impl RoundRobinStrategy {
    /// A strategy whose counters are primed with the number of servers that
    /// hold each role in `cluster_routing_table`.
    pub fn new(cluster_routing_table: RoutingTable) -> (strategy: Self)
        ensures
            strategy@.reader == with_role(cluster_routing_table@.servers, READ@).len(),
            strategy@.writer == with_role(cluster_routing_table@.servers, WRITE@).len(),
            strategy@.router == with_role(cluster_routing_table@.servers, ROUTE@).len(),
    {
        let readers = servers_with_role(cluster_routing_table.servers.as_slice(), READ);
        let writers = servers_with_role(cluster_routing_table.servers.as_slice(), WRITE);
        let routers = servers_with_role(cluster_routing_table.servers.as_slice(), ROUTE);
        RoundRobinStrategy {
            reader_index: readers.len(),
            writer_index: writers.len(),
            router_index: routers.len(),
        }
    }

    /// Picks the next of `servers`, which all hold one role, and moves that
    /// role's counter on.
    pub fn select(servers: &[Server], index: &mut usize) -> (picked: Option<Server>)
        ensures
            servers.len() == 0 ==> picked is None && *final(index) == *old(index),
            servers.len() > 0 ==> {
                &&& picked matches Some(server)
                &&& server@ == servers[rotate(*old(index) as int, servers.len() as int).0]@
                &&& *final(index) == rotate(*old(index) as int, servers.len() as int).1
            },
    {
        if servers.is_empty() {
            return None;
        }
        if *index == 0 {
            *index = servers.len();
        }
        let i: usize = *index;
        *index = i - 1;
        if i <= servers.len() {
            Some(servers[i - 1].clone())
        } else {
            *index = servers.len();
            Some(servers[servers.len() - 1].clone())
        }
    }
}

impl RoundRobinStrategy {
    /// One turn over the servers of `servers` that hold `role`, for a counter
    /// that holds `counter`: the server that is picked, if there is one to
    /// pick, and what the counter holds afterwards.
    pub open spec fn turn(servers: Seq<ServerView>, role: Seq<char>, counter: int) -> (
        Option<ServerView>,
        int,
    ) {
        let candidates = with_role(servers, role);
        if candidates.len() == 0 {
            (None, counter)
        } else {
            (
                Some(candidates[rotate(counter, candidates.len() as int).0]),
                rotate(counter, candidates.len() as int).1,
            )
        }
    }
}

impl LoadBalancingStrategy for RoundRobinStrategy {
    closed spec fn reader_turn(&self, servers: Seq<ServerView>) -> (Option<ServerView>, Self) {
        let turn = Self::turn(servers, READ@, self.reader_index as int);
        (turn.0, RoundRobinStrategy { reader_index: turn.1 as usize, ..*self })
    }

    closed spec fn writer_turn(&self, servers: Seq<ServerView>) -> (Option<ServerView>, Self) {
        let turn = Self::turn(servers, WRITE@, self.writer_index as int);
        (turn.0, RoundRobinStrategy { writer_index: turn.1 as usize, ..*self })
    }

    closed spec fn router_turn(&self, servers: Seq<ServerView>) -> (Option<ServerView>, Self) {
        let turn = Self::turn(servers, ROUTE@, self.router_index as int);
        (turn.0, RoundRobinStrategy { router_index: turn.1 as usize, ..*self })
    }

    fn select_reader(&mut self, servers: &[Server]) -> (picked: Option<Server>)
        ensures
            ({
                let readers = with_role(servers.deep_view(), READ@);
                let turn = rotate(old(self)@.reader, readers.len() as int);
                if readers.len() == 0 {
                    picked is None && final(self)@ == old(self)@
                } else {
                    &&& picked matches Some(server)
                    &&& server@ == readers[turn.0]
                    &&& final(self)@ == (RotationView { reader: turn.1, ..old(self)@ })
                }
            }),
    {
        let ghost counter = self@.reader;
        let readers = servers_with_role(servers, READ);
        let picked = Self::select(readers.as_slice(), &mut self.reader_index);
        proof {
            if readers.len() > 0 {
                let turn = rotate(counter, readers.len() as int);
                assert(readers.deep_view()[turn.0] == readers@[turn.0]@);
            }
            lemma_pick_is_candidate(servers.deep_view(), READ@, readers.deep_view(), picked);
        }
        picked
    }

    fn select_writer(&mut self, servers: &[Server]) -> (picked: Option<Server>)
        ensures
            ({
                let writers = with_role(servers.deep_view(), WRITE@);
                let turn = rotate(old(self)@.writer, writers.len() as int);
                if writers.len() == 0 {
                    picked is None && final(self)@ == old(self)@
                } else {
                    &&& picked matches Some(server)
                    &&& server@ == writers[turn.0]
                    &&& final(self)@ == (RotationView { writer: turn.1, ..old(self)@ })
                }
            }),
    {
        let ghost counter = self@.writer;
        let writers = servers_with_role(servers, WRITE);
        let picked = Self::select(writers.as_slice(), &mut self.writer_index);
        proof {
            if writers.len() > 0 {
                let turn = rotate(counter, writers.len() as int);
                assert(writers.deep_view()[turn.0] == writers@[turn.0]@);
            }
            lemma_pick_is_candidate(servers.deep_view(), WRITE@, writers.deep_view(), picked);
        }
        picked
    }

    fn select_router(&mut self, servers: &[Server]) -> (picked: Option<Server>)
        ensures
            ({
                let routers = with_role(servers.deep_view(), ROUTE@);
                let turn = rotate(old(self)@.router, routers.len() as int);
                if routers.len() == 0 {
                    picked is None && final(self)@ == old(self)@
                } else {
                    &&& picked matches Some(server)
                    &&& server@ == routers[turn.0]
                    &&& final(self)@ == (RotationView { router: turn.1, ..old(self)@ })
                }
            }),
    {
        let ghost counter = self@.router;
        let routers = servers_with_role(servers, ROUTE);
        let picked = Self::select(routers.as_slice(), &mut self.router_index);
        proof {
            if routers.len() > 0 {
                let turn = rotate(counter, routers.len() as int);
                assert(routers.deep_view()[turn.0] == routers@[turn.0]@);
            }
            lemma_pick_is_candidate(servers.deep_view(), ROUTE@, routers.deep_view(), picked);
        }
        picked
    }
}

/// What a turn of this strategy is: the role's counter moves as [`rotate`]
/// says, the server it names among those that hold the role is picked, and
/// the counters of the other roles stay. Without a server of the role nothing
/// is picked and nothing moves.
pub proof fn lemma_turns(strategy: RoundRobinStrategy, servers: Seq<ServerView>)
    requires
        servers.len() <= usize::MAX,
    ensures
        strategy.reader_turn(servers).0 == RoundRobinStrategy::turn(
            servers,
            READ@,
            strategy@.reader,
        ).0,
        strategy.reader_turn(servers).1@ == (RotationView {
            reader: RoundRobinStrategy::turn(servers, READ@, strategy@.reader).1,
            ..strategy@
        }),
        strategy.writer_turn(servers).0 == RoundRobinStrategy::turn(
            servers,
            WRITE@,
            strategy@.writer,
        ).0,
        strategy.writer_turn(servers).1@ == (RotationView {
            writer: RoundRobinStrategy::turn(servers, WRITE@, strategy@.writer).1,
            ..strategy@
        }),
        strategy.router_turn(servers).0 == RoundRobinStrategy::turn(
            servers,
            ROUTE@,
            strategy@.router,
        ).0,
        strategy.router_turn(servers).1@ == (RotationView {
            router: RoundRobinStrategy::turn(servers, ROUTE@, strategy@.router).1,
            ..strategy@
        }),
{
    servers.lemma_filter_len(|s: ServerView| s.role == READ@);
    servers.lemma_filter_len(|s: ServerView| s.role == WRITE@);
    servers.lemma_filter_len(|s: ServerView| s.role == ROUTE@);
}

/// A server that equals one of the candidates of a role was picked from them.
proof fn lemma_pick_is_candidate(
    servers: Seq<ServerView>,
    role: Seq<char>,
    candidates: Seq<ServerView>,
    picked: Option<Server>,
)
    requires
        candidates == with_role(servers, role),
        match picked {
            Some(server) => exists|i: int| 0 <= i < candidates.len() && candidates[i] == server@,
            None => candidates.len() == 0,
        },
    ensures
        picked_from(servers, role, picked),
{
}

/// A turn over `n > 0` candidates always picks one of them.
pub proof fn lemma_rotate_in_range(counter: int, n: int)
    requires
        n > 0,
        counter >= 0,
    ensures
        0 <= rotate(counter, n).0 < n,
        0 <= rotate(counter, n).1 <= n,
{
}

/// Round-robin order. A counter primed with the number `n` of candidates hands
/// them out from the last to the first and then starts over: turn number
/// `call`, counted from zero, picks index `n - 1 - call % n`. So the first `n`
/// turns pick every candidate exactly once, and turn `n` picks the last one again.
pub proof fn lemma_round_robin_order(n: int, call: nat)
    requires
        n > 0,
    ensures
        pick_at(n, n, call) == n - 1 - (call as int % n),
        counter_after(n, n, call + 1) == n - 1 - (call as int % n),
    decreases call,
{
    if call == 0 {
        assert(counter_after(n, n, 0) == n);
        assert(0int % n == 0) by (nonlinear_arith)
            requires
                n > 0,
        ;
        assert(counter_after(n, n, 1) == rotate(counter_after(n, n, 0), n).1);
    } else {
        let before = (call - 1) as nat;
        lemma_round_robin_order(n, before);
        let c = counter_after(n, n, call);
        assert(c == n - 1 - (before as int % n));
        assert(0 <= before as int % n < n) by (nonlinear_arith)
            requires
                n > 0,
        ;
        assert(call as int % n == if before as int % n == n - 1 {
            0
        } else {
            before as int % n + 1
        }) by (nonlinear_arith)
            requires
                n > 0,
                call as int == before as int + 1,
                before >= 0,
        ;
        assert(counter_after(n, n, call + 1) == rotate(c, n).1);
    }
}

} // verus!
