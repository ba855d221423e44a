use vstd::prelude::*;

verus! {

/// The routing context a client sends along when it asks for the topology.
#[derive(Debug, Clone, PartialEq, Eq)]
pub enum Routing {
    /// The client does not route.
    No,
    /// The client routes, with these entries as context.
    Yes(Vec<(String, String)>),
}

/// Mathematical model of a [`Routing`]: the context's entries in order, if there is a context.
pub type RoutingView = Option<Seq<(Seq<char>, Seq<char>)>>;

impl View for Routing {
    type V = RoutingView;

    open spec fn view(&self) -> RoutingView {
        match self {
            Routing::No => None,
            Routing::Yes(entries) => Some(entries.deep_view()),
        }
    }
}

} // verus!
