//! The periodic full sync: the safety net under the event-driven sync.

use vstd::prelude::*;

use crate::error::Error;
use crate::primitives::U256;
use crate::reconcile::BetInfo;

verus! {

/// Seconds between two full syncs.
pub const SYNC_INTERVAL_SECS: u64 = 60;

/// The status by which the contract lists its bets.
#[derive(Clone, Copy, Debug, PartialEq, Eq, Structural)]
pub enum BetStatus {
    Unknown,
    Pending,
    Resolved,
    Canceled,
}

impl BetStatus {
    /// The code that the contract knows the status by.
    pub open spec fn code_of(self) -> u8 {
        match self {
            BetStatus::Unknown => 0,
            BetStatus::Pending => 1,
            BetStatus::Resolved => 2,
            BetStatus::Canceled => 3,
        }
    }

    /// The code that the contract knows the status by.
    pub fn code(&self) -> (r: u8)
        ensures
            r == self.code_of(),
            crate::models::status_of_code(r) == Some(self.stored()),
    {
        match self {
            BetStatus::Unknown => 0,
            BetStatus::Pending => 1,
            BetStatus::Resolved => 2,
            BetStatus::Canceled => 3,
        }
    }

    /// The same status as the ledger stores it.
    pub open spec fn stored(self) -> crate::models::BetStatus {
        match self {
            BetStatus::Unknown => crate::models::BetStatus::Unknown,
            BetStatus::Pending => crate::models::BetStatus::Pending,
            BetStatus::Resolved => crate::models::BetStatus::Resolved,
            BetStatus::Canceled => crate::models::BetStatus::Canceled,
        }
    }
}

/// Pairs the ids and the reports that the contract lists side by side.
/// `Error::Format` where a listed id has no report beside it; reports beyond
/// the last id are passed over.
pub fn pending_bets(bet_ids: &Vec<U256>, bet_infos: &Vec<BetInfo>) -> (r: Result<Vec<(U256, BetInfo)>, Error>)
    ensures
        match r {
            Ok(pairs) => {
                &&& bet_ids@.len() <= bet_infos@.len()
                &&& pairs@.len() == bet_ids@.len()
                &&& forall|i: int|
                    0 <= i < pairs@.len() ==> pairs@[i] == (bet_ids@[i], bet_infos@[i])
            },
            Err(e) => e == Error::Format && bet_ids@.len() > bet_infos@.len(),
        },
{
    if bet_ids.len() > bet_infos.len() {
        return Err(Error::Format);
    }
    let mut pairs: Vec<(U256, BetInfo)> = Vec::new();
    let mut i: usize = 0;
    while i < bet_ids.len()
        invariant
            i <= bet_ids@.len() <= bet_infos@.len(),
            pairs@.len() == i,
            forall|j: int| 0 <= j < i ==> pairs@[j] == (bet_ids@[j], bet_infos@[j]),
        decreases bet_ids.len() - i,
    {
        pairs.push((bet_ids[i], bet_infos[i]));
        i += 1;
    }
    Ok(pairs)
}

} // verus!
