pub mod round_robin_strategy;

use crate::routing::{Server, ServerView};
use vstd::prelude::*;

verus! {

/// Role of a read replica.
pub const READ: &'static str = "READ";

/// Role of the write primary.
pub const WRITE: &'static str = "WRITE";

/// Role of a routing coordinator.
pub const ROUTE: &'static str = "ROUTE";

/// The servers that hold `role`, in the order in which `servers` lists them.
pub open spec fn with_role(servers: Seq<ServerView>, role: Seq<char>) -> Seq<ServerView> {
    servers.filter(|s: ServerView| s.role == role)
}

/// What every strategy owes its caller: a server is handed out exactly when one
/// holds the role, and it is one of those that do.
pub open spec fn picked_from(servers: Seq<ServerView>, role: Seq<char>, picked: Option<Server>) -> bool {
    match picked {
        Some(server) => with_role(servers, role).contains(server@),
        None => with_role(servers, role).len() == 0,
    }
}

/// The view of a server that was picked, if one was.
pub open spec fn picked_view(picked: Option<Server>) -> Option<ServerView> {
    match picked {
        Some(server) => Some(server@),
        None => None,
    }
}

/// A policy that chooses, among the servers known right now, the one to use
/// next for a role.
///
/// What a strategy does in one turn is a function of its state and of the
/// servers it is shown: the three `*_turn` functions say which server the turn
/// picks and what the strategy is afterwards, and each selector does exactly
/// one such turn.
pub trait LoadBalancingStrategy: Sync + Send + Sized {
    /// What one turn for a read replica picks among `servers`, and the strategy after it.
    spec fn reader_turn(&self, servers: Seq<ServerView>) -> (Option<ServerView>, Self);

    /// What one turn for the write primary picks among `servers`, and the strategy after it.
    spec fn writer_turn(&self, servers: Seq<ServerView>) -> (Option<ServerView>, Self);

    /// What one turn for a routing coordinator picks among `servers`, and the strategy after it.
    spec fn router_turn(&self, servers: Seq<ServerView>) -> (Option<ServerView>, Self);

    fn select_reader(&mut self, servers: &[Server]) -> (picked: Option<Server>)
        ensures
            picked_from(servers.deep_view(), READ@, picked),
            (picked_view(picked), *final(self)) == old(self).reader_turn(servers.deep_view()),
    ;

    fn select_writer(&mut self, servers: &[Server]) -> (picked: Option<Server>)
        ensures
            picked_from(servers.deep_view(), WRITE@, picked),
            (picked_view(picked), *final(self)) == old(self).writer_turn(servers.deep_view()),
    ;

    fn select_router(&mut self, servers: &[Server]) -> (picked: Option<Server>)
        ensures
            picked_from(servers.deep_view(), ROUTE@, picked),
            (picked_view(picked), *final(self)) == old(self).router_turn(servers.deep_view()),
    ;
}

/// Copies of the servers that hold `role`, in the order of `servers`.
pub fn servers_with_role(servers: &[Server], role: &str) -> (found: Vec<Server>)
    ensures
        found.deep_view() == with_role(servers.deep_view(), role@),
{
    let mut found: Vec<Server> = Vec::new();
    let ghost all = servers.deep_view();
    let ghost wanted = |s: ServerView| s.role == role@;
    let mut i: usize = 0;
    assert(all.take(0) =~= Seq::<ServerView>::empty());
    assert(found.deep_view() =~= Seq::<ServerView>::empty());
    proof {
        reveal(Seq::filter);
    }
    while i < servers.len()
        invariant
            i <= servers.len(),
            all == servers.deep_view(),
            wanted == (|s: ServerView| s.role == role@),
            found.deep_view() == all.take(i as int).filter(wanted),
        decreases servers.len() - i,
    {
        let ghost before = found.deep_view();
        proof {
            assert(all.take(i + 1) =~= all.take(i as int).push(all[i as int]));
            all.take(i as int).lemma_filter_push(all[i as int], wanted);
        }
        if servers[i].has_role(role) {
            let server = servers[i].clone();
            found.push(server);
            assert(found.deep_view() =~= before.push(all[i as int]));
        }
        i += 1;
    }
    assert(all.take(servers.len() as int) =~= all);
    found
}

} // verus!
