use crate::routing::load_balancing::{READ, WRITE};
use vstd::prelude::*;

verus! {

/// The kind of work a caller wants a connection for.
#[derive(Debug, Clone, Copy, PartialEq, Eq, Structural)]
pub enum Operation {
    Read,
    Write,
}

impl Operation {
    /// The role that serves the operation, which is also how the operation is
    /// named in messages.
    pub open spec fn role(self) -> Seq<char> {
        match self {
            Operation::Read => READ@,
            Operation::Write => WRITE@,
        }
    }

    /// The name of the operation: `READ` or `WRITE`.
    pub fn name(&self) -> (name: &'static str)
        ensures
            name@ == self.role(),
    {
        match self {
            Operation::Read => READ,
            Operation::Write => WRITE,
        }
    }

    /// The name of the operation as an owned text.
    pub fn to_string(&self) -> (name: String)
        ensures
            name@ == self.role(),
    {
        self.name().to_owned()
    }
}

} // verus!
