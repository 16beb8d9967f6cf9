//! What the table answers to a request it cannot serve.

use vstd::prelude::*;

verus! {

/// Why a request on a fork was turned down.
#[derive(Clone, Copy, Debug, PartialEq, Eq, Hash, Structural)]
pub enum PoolError {
    /// The index names no fork of the table.
    InvalidIndex,
    /// The fork is not in the hand that tried to put it down.
    NotHeld,
}

impl PoolError {
    /// A short description, for a caller that reports the failure.
    pub fn describe(&self) -> (text: &'static str)
        ensures
            text@ == match *self {
                PoolError::InvalidIndex => "no such fork on the table"@,
                PoolError::NotHeld => "fork is not held by the caller"@,
            },
    {
        match self {
            PoolError::InvalidIndex => "no such fork on the table",
            PoolError::NotHeld => "fork is not held by the caller",
        }
    }
}

} // verus!
