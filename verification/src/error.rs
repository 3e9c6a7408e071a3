//! The kinds of failure that the ledger tells apart.

use vstd::prelude::*;
use vstd::string::StringExecFns;

verus! {

/// Why an operation on the ledger failed.
#[derive(Clone, Copy, Debug, PartialEq, Eq, Structural)]
pub enum Error {
    /// A call to the chain failed; the next tick tries again.
    Network,
    /// The requested wager or session has no row.
    NotFound,
    /// A number, an address or a log payload is malformed; only the record or
    /// request at hand is given up.
    Format,
    /// The store failed.
    Store,
    /// The signer key or a domain constant is missing or malformed.
    Config,
}

impl Error {
    /// A failure that may be gone at the next tick: the chain or the store
    /// did not answer.
    pub open spec fn transient(self) -> bool {
        self == Error::Network || self == Error::Store
    }

    /// Whether the failure may be gone at the next tick.
    pub fn is_transient(&self) -> (r: bool)
        ensures
            r == self.transient(),
    {
        match self {
            Error::Network => true,
            Error::Store => true,
            _ => false,
        }
    }

    /// The message of each kind.
    pub open spec fn message(self) -> Seq<char> {
        match self {
            Error::Network => "network error"@,
            Error::NotFound => "not found"@,
            Error::Format => "format error"@,
            Error::Store => "store error"@,
            Error::Config => "configuration error"@,
        }
    }

    /// The message of the failure, as text.
    pub fn to_string(&self) -> (r: String)
        ensures
            r@ == self.message(),
    {
        match self {
            Error::Network => String::from_str("network error"),
            Error::NotFound => String::from_str("not found"),
            Error::Format => String::from_str("format error"),
            Error::Store => String::from_str("store error"),
            Error::Config => String::from_str("configuration error"),
        }
    }
}

} // verus!
