use vstd::prelude::*;

verus! {

/// Everything that can go wrong while routing a request through the cluster.
#[derive(Debug, Clone, PartialEq, Eq)]
pub enum Error {
    /// The configuration lacks a mandatory setting.
    InvalidConfig,
    /// A pool could not be opened, or one pool handle per server was not supplied.
    ConnectionError,
    /// No routing coordinator could be reached during a refresh.
    ServerUnavailableError(String),
    /// No server could satisfy the requested operation.
    RoutingTableRefreshFailed(String),
    /// A length does not fit the 32 bits the wire format reserves for it.
    SerializationError,
    /// The bytes are not one well-formed PackStream value.
    DeserializationError,
    /// The value is well-formed but is not a routing table response.
    UnexpectedMessage,
}

} // verus!
