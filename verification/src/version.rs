use vstd::prelude::*;

verus! {

/// The protocol versions a connection can have negotiated.
#[derive(Debug, Clone, Copy, PartialEq, Eq, Structural)]
pub enum Version {
    V4,
    V4_1,
    V4_3,
    V4_4,
}

} // verus!
