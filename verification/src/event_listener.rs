//! The event-driven sync: reading logs of placed bets and keeping the
//! block-height cursor.

use vstd::prelude::*;
use vstd::string::StringSliceAdditionalSpecFns;

use crate::hash::{keccak256, keccak256_digest};
use crate::primitives::{same_word, Address, U256};

verus! {

/// Seconds between two polls of the chain for new logs.
pub const POLL_INTERVAL_SECS: u64 = 5;

/// A raw log of the chain: its topics and its data.
#[derive(Clone, Debug)]
pub struct LogEntry {
    pub topics: Vec<[u8; 32]>,
    pub data: Vec<u8>,
}

/// The event that the contract emits when a bet is placed.
#[derive(Clone, Copy, Debug, PartialEq, Eq)]
pub struct BetPlaced {
    pub requester: Address,
    pub bet_id: U256,
}

/// The topic that marks a log as a placed bet: the digest of the event's
/// signature, `BetPlaced(address,uint256)`.
pub open spec fn bet_placed_topic() -> Seq<u8> {
    keccak256_digest("BetPlaced(address,uint256)".spec_bytes())
}

/// Whether a log is a well-formed `BetPlaced`: the one topic is the event's,
/// and the data is two words, the requester's address padded with zeros and
/// the id of the bet.
pub open spec fn is_bet_placed(log: LogEntry) -> bool {
    &&& log.topics@.len() == 1
    &&& log.topics@[0]@ == bet_placed_topic()
    &&& log.data@.len() == 64
    &&& forall|i: int| 0 <= i < 12 ==> log.data@[i] == 0u8
}

/// The ids of the bets placed in a batch of logs, in the order of the logs.
/// A log that is no well-formed `BetPlaced` contributes nothing.
pub open spec fn placed_bet_ids(logs: Seq<LogEntry>) -> Seq<Seq<u8>>
    decreases logs.len(),
{
    if logs.len() == 0 {
        Seq::empty()
    } else if is_bet_placed(logs.last()) {
        placed_bet_ids(logs.drop_last()).push(logs.last().data@.subrange(32, 64))
    } else {
        placed_bet_ids(logs.drop_last())
    }
}

/// The topic that marks a log as a placed bet.
pub fn bet_placed_signature_hash() -> (topic: [u8; 32])
    ensures
        topic@ == bet_placed_topic(),
{
    keccak256("BetPlaced(address,uint256)".as_bytes())
}

/// Decodes a log as a placed bet; `None` for a log of another event or one
/// whose payload is malformed.
pub fn decode_bet_placed(log: &LogEntry) -> (r: Option<BetPlaced>)
    ensures
        match r {
            Some(event) => {
                &&& is_bet_placed(*log)
                &&& event.requester@ == log.data@.subrange(12, 32)
                &&& event.bet_id.bytes@ == log.data@.subrange(32, 64)
            },
            None => !is_bet_placed(*log),
        },
{
    if log.topics.len() != 1 || log.data.len() != 64 {
        return None;
    }
    let topic = bet_placed_signature_hash();
    if !same_word(&log.topics[0], &topic) {
        return None;
    }
    let mut first = [0u8; 32];
    let mut second = [0u8; 32];
    let mut i: usize = 0;
    while i < 32
        invariant
            i <= 32,
            log.data@.len() == 64,
            forall|j: int| 0 <= j < i ==> first@[j] == log.data@[j],
            forall|j: int| 0 <= j < i ==> second@[j] == log.data@[32 + j],
        decreases 32 - i,
    {
        first[i] = log.data[i];
        second[i] = log.data[32 + i];
        i += 1;
    }
    let requester = match Address::from_word(&first) {
        Some(requester) => requester,
        None => {
            return None;
        },
    };
    proof {
        let padding = Seq::new(12, |j: int| 0u8);
        assert(first@ == padding + requester@);
        assert forall|j: int| 0 <= j < 12 implies log.data@[j] == 0u8 by {
            assert(first@[j] == padding[j]);
        }
        assert forall|j: int| 0 <= j < 20 implies requester@[j] == log.data@[12 + j] by {
            assert(first@[12 + j] == requester@[j]);
        }
        assert(requester@ =~= log.data@.subrange(12, 32));
    }
    assert(second@ =~= log.data@.subrange(32, 64));
    Some(BetPlaced { requester, bet_id: U256::from_be_bytes(second) })
}

/// The state of the event poller: the height up to which logs have been
/// handled.
#[derive(Debug)]
pub struct EventListener {
    last_block: u64,
}

impl EventListener {
    /// The cursor: the last block height known to be handled.
    pub closed spec fn cursor(&self) -> u64 {
        self.last_block
    }

    /// Starts at the head of the chain.
    pub fn new(head: u64) -> (r: EventListener)
        ensures
            r.cursor() == head,
    {
        EventListener { last_block: head }
    }

    /// The cursor.
    pub fn last_block(&self) -> (r: u64)
        ensures
            r == self.cursor(),
    {
        self.last_block
    }

    /// The blocks to query for logs at a tick, first and last, given the
    /// head of the chain: from the cursor to the head. `None` where the
    /// reported head lies below the cursor, so that there is nothing to ask.
    pub fn query_range(&self, head: u64) -> (r: Option<(u64, u64)>)
        ensures
            r == (if head >= self.cursor() {
                Some((self.cursor(), head))
            } else {
                None
            }),
    {
        if head >= self.last_block {
            Some((self.last_block, head))
        } else {
            None
        }
    }

    /// The ids of the bets placed in a batch of logs, in the order in which
    /// the query returned the logs. A log that does not decode is passed
    /// over; the rest of the batch is still handled.
    pub fn placed_bets(logs: &Vec<LogEntry>) -> (ids: Vec<U256>)
        ensures
            ids@.len() == placed_bet_ids(logs@).len(),
            forall|i: int| 0 <= i < ids@.len() ==> ids@[i].bytes@ == placed_bet_ids(logs@)[i],
    {
        let mut ids: Vec<U256> = Vec::new();
        let mut n: usize = 0;
        assert(logs@.subrange(0, 0) =~= Seq::<LogEntry>::empty());
        while n < logs.len()
            invariant
                n <= logs.len(),
                ids@.len() == placed_bet_ids(logs@.subrange(0, n as int)).len(),
                forall|i: int|
                    0 <= i < ids@.len() ==> ids@[i].bytes@ == placed_bet_ids(
                        logs@.subrange(0, n as int),
                    )[i],
            decreases logs.len() - n,
        {
            proof {
                let upto = logs@.subrange(0, n + 1);
                assert(upto.drop_last() =~= logs@.subrange(0, n as int));
                assert(upto.last() == logs@[n as int]);
            }
            match decode_bet_placed(&logs[n]) {
                Some(event) => {
                    ids.push(event.bet_id);
                },
                None => {},
            }
            n += 1;
        }
        assert(logs@.subrange(0, logs@.len() as int) =~= logs@);
        ids
    }

    /// Closes a tick. `head` is the height up to which the tick asked for
    /// logs; `retry` says whether a bet of the batch met a failure that may
    /// be gone at the next tick. The cursor moves to `head` only where
    /// nothing is left to retry, and it never moves back: after a failed
    /// batch the same blocks are asked for again, and what was merged already
    /// is merged once more without harm.
    pub fn finish_batch(&mut self, head: u64, retry: bool)
        ensures
            final(self).cursor() == (if !retry && head > old(self).cursor() {
                head
            } else {
                old(self).cursor()
            }),
            final(self).cursor() >= old(self).cursor(),
    {
        if !retry && head > self.last_block {
            self.last_block = head;
        }
    }
}

} // verus!
