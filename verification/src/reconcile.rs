//! Merging what the chain reports of a wager into the ledger.
//!
//! The store itself is outside this library. What is decided here is the
//! step to take on it: given the chain's report and whether a row exists,
//! which write to make. The effect of a step on a ledger is stated as a
//! function on maps, and the guarantees of the two sync paths are proved
//! over it.

use vstd::prelude::*;
use vstd::std_specs::convert::FromSpec;

use crate::error::Error;
use crate::models::{BetRecord, BetRow, BetStatus, BetTier};
use crate::amount::ether_text;
use crate::primitives::{checksum_text, Address, U256};

verus! {

/// What the contract reports of one wager.
#[derive(Clone, Copy, Debug)]
pub struct BetInfo {
    pub requester: Address,
    pub receiver: Address,
    pub tier: u8,
    /// In smallest units: 18 decimal places below a whole token.
    pub amount: U256,
    pub timestamp: U256,
    pub status: u8,
}

/// A write on the table of wagers.
#[derive(Debug)]
pub enum StoreAction {
    /// Create the row; fails, and changes nothing, where the id is taken.
    Insert(BetRecord),
    /// Rewrite addresses, tier, amount, timestamp and status of the row with
    /// this id; the id, the linked session and the deadline stay.
    Update(BetRecord),
    /// Link the row with this id to a session; nothing else of it changes.
    Link { id: i64, match_id: i64 },
    /// Leave the table as it is.
    Skip,
}

/// A `StoreAction` over mathematical rows.
pub enum StoreStep {
    Insert(BetRow),
    Update(BetRow),
    Link { id: int, match_id: int },
    Skip,
}

impl View for StoreAction {
    type V = StoreStep;

    open spec fn view(&self) -> StoreStep {
        match *self {
            StoreAction::Insert(record) => StoreStep::Insert(record@),
            StoreAction::Update(record) => StoreStep::Update(record@),
            StoreAction::Link { id, match_id } => StoreStep::Link {
                id: id as int,
                match_id: match_id as int,
            },
            StoreAction::Skip => StoreStep::Skip,
        }
    }
}

/// The row that mirrors a report of the chain: `None` where the id or the
/// timestamp does not fit the row's 64-bit signed columns.
pub open spec fn chain_row(bet_id: U256, info: BetInfo) -> Option<BetRow> {
    if bet_id@ > i64::MAX || info.timestamp@ > i64::MAX {
        None
    } else {
        Some(
            BetRow {
                id: bet_id@ as int,
                match_id: 0,
                requester_address: checksum_text(info.requester@),
                receiver_address: checksum_text(info.receiver@),
                bet_tier: Some(BetTier::from_spec(info.tier)),
                bet_amount: ether_text(info.amount@),
                dead_line: 0,
                timestamp: info.timestamp@ as int,
                status: Some(BetStatus::from_spec(info.status)),
            },
        )
    }
}

/// The row after an update: the mutable fields of `new`, the rest of `old`.
pub open spec fn merged(old: BetRow, new: BetRow) -> BetRow {
    BetRow {
        requester_address: new.requester_address,
        receiver_address: new.receiver_address,
        bet_tier: new.bet_tier,
        bet_amount: new.bet_amount,
        timestamp: new.timestamp,
        status: new.status,
        ..old
    }
}

/// What a step does to a ledger, keyed by id. Each step is atomic: an insert
/// on an id that is taken, and an update on one that is not, change nothing.
pub open spec fn apply(ledger: Map<int, BetRow>, step: StoreStep) -> Map<int, BetRow> {
    match step {
        StoreStep::Insert(row) => if ledger.dom().contains(row.id) {
            ledger
        } else {
            ledger.insert(row.id, row)
        },
        StoreStep::Update(row) => if ledger.dom().contains(row.id) {
            ledger.insert(row.id, merged(ledger[row.id], row))
        } else {
            ledger
        },
        StoreStep::Link { id, match_id } => if ledger.dom().contains(id) {
            ledger.insert(id, BetRow { match_id, ..ledger[id] })
        } else {
            ledger
        },
        StoreStep::Skip => ledger,
    }
}

/// The step of the event path: update the row where one exists, else create
/// it.
pub open spec fn reconcile_step(exists: bool, row: BetRow) -> StoreStep {
    if exists {
        StoreStep::Update(row)
    } else {
        StoreStep::Insert(row)
    }
}

/// The step of the periodic full sync: create the row where none exists,
/// else nothing.
pub open spec fn full_sync_step(exists: bool, row: BetRow) -> StoreStep {
    if exists {
        StoreStep::Skip
    } else {
        StoreStep::Insert(row)
    }
}

/// The id under which a wager is stored: `Error::Format` where the chain's id
/// does not fit the column.
pub fn bet_row_id(bet_id: &U256) -> (r: Result<i64, Error>)
    ensures
        match r {
            Ok(id) => id as int == bet_id@ as int,
            Err(e) => e == Error::Format && bet_id@ > i64::MAX,
        },
{
    match bet_id.to_i64() {
        Some(id) => Ok(id),
        None => Err(Error::Format),
    }
}

/// Builds the record that mirrors a report of the chain, with no linked
/// session and no deadline.
pub fn bet_record_from_chain(bet_id: &U256, info: &BetInfo) -> (r: Result<BetRecord, Error>)
    ensures
        match chain_row(*bet_id, *info) {
            Some(row) => r is Ok && r.unwrap()@ == row,
            None => r == Err::<BetRecord, Error>(Error::Format),
        },
{
    let id = match bet_id.to_i64() {
        Some(id) => id,
        None => {
            return Err(Error::Format);
        },
    };
    let timestamp = match info.timestamp.to_i64() {
        Some(timestamp) => timestamp,
        None => {
            return Err(Error::Format);
        },
    };
    Ok(
        BetRecord {
            id,
            match_id: 0,
            requester_address: info.requester.to_text(),
            receiver_address: info.receiver.to_text(),
            bet_tier: Some(BetTier::from(info.tier)),
            bet_amount: info.amount.to_ether_text(),
            dead_line: 0,
            timestamp,
            status: Some(BetStatus::from(info.status)),
        },
    )
}

/// The event path: merges a report of the chain into the ledger. `exists`
/// says whether the store holds a row with this id. Every mutable field of
/// an existing row is rewritten from the report; nothing is inferred here,
/// the status least of all.
pub fn reconcile(exists: bool, bet_id: &U256, info: &BetInfo) -> (r: Result<StoreAction, Error>)
    ensures
        match chain_row(*bet_id, *info) {
            Some(row) => r is Ok && r.unwrap()@ == reconcile_step(exists, row),
            None => r is Err && r.unwrap_err() == Error::Format,
        },
{
    match bet_record_from_chain(bet_id, info) {
        Ok(record) => if exists {
            Ok(StoreAction::Update(record))
        } else {
            Ok(StoreAction::Insert(record))
        },
        Err(e) => Err(e),
    }
}

/// The periodic full sync: creates the row of a wager that the store does
/// not hold, and never touches one that it holds, whatever the chain reports
/// of it. `exists` says whether the store holds a row with this id.
pub fn sync_missing_bet(exists: bool, bet_id: &U256, info: &BetInfo) -> (r: Result<StoreAction, Error>)
    ensures
        bet_id@ <= i64::MAX && exists ==> r is Ok && r.unwrap()@ == StoreStep::Skip,
        bet_id@ > i64::MAX || (!exists && chain_row(*bet_id, *info) is None) ==> r is Err
            && r.unwrap_err() == Error::Format,
        !exists && chain_row(*bet_id, *info) is Some ==> r is Ok && r.unwrap()@
            == StoreStep::Insert(chain_row(*bet_id, *info).unwrap()),
{
    match bet_row_id(bet_id) {
        Ok(_) => if exists {
            Ok(StoreAction::Skip)
        } else {
            match bet_record_from_chain(bet_id, info) {
                Ok(record) => Ok(StoreAction::Insert(record)),
                Err(e) => Err(e),
            }
        },
        Err(e) => Err(e),
    }
}

/// Whether a batch goes on after one of its records failed. A format error
/// gives up that record only. Every other failure ends the batch: the chain
/// or the store did not answer, and the next tick tries again.
pub fn batch_goes_on(failure: Error) -> (r: bool)
    ensures
        r == (failure == Error::Format),
{
    match failure {
        Error::Format => true,
        _ => false,
    }
}

/// The ledger after the event path has handled a report, the existence check
/// and the write taken as one.
pub open spec fn reconcile_ledger(ledger: Map<int, BetRow>, bet_id: U256, info: BetInfo) -> Map<
    int,
    BetRow,
> {
    match chain_row(bet_id, info) {
        Some(row) => apply(ledger, reconcile_step(ledger.dom().contains(row.id), row)),
        None => ledger,
    }
}

/// The ledger after the periodic full sync has handled a report, the
/// existence check and the write taken as one.
pub open spec fn full_sync_ledger(ledger: Map<int, BetRow>, bet_id: U256, info: BetInfo) -> Map<
    int,
    BetRow,
> {
    match chain_row(bet_id, info) {
        Some(row) => apply(ledger, full_sync_step(ledger.dom().contains(row.id), row)),
        None => ledger,
    }
}

/// Every row is stored under its own id.
pub open spec fn keyed_by_id(ledger: Map<int, BetRow>) -> bool {
    forall|id: int| ledger.dom().contains(id) ==> (#[trigger] ledger[id]).id == id
}

/// One sighting of a wager by one of the two sync paths. `saw_row` is the
/// answer that the path got to its existence check; the other path may have
/// written since, so the answer may be stale.
pub struct Sighting {
    pub full_sync: bool,
    pub saw_row: bool,
    pub info: BetInfo,
}

/// The step that a sighting of the wager `bet_id` leads to.
pub open spec fn sighting_step(bet_id: U256, sighting: Sighting) -> StoreStep {
    match chain_row(bet_id, sighting.info) {
        Some(row) => if sighting.full_sync {
            full_sync_step(sighting.saw_row, row)
        } else {
            reconcile_step(sighting.saw_row, row)
        },
        None => StoreStep::Skip,
    }
}

/// The ledger after the steps of a run of sightings of one wager, in order.
pub open spec fn after_sightings(
    ledger: Map<int, BetRow>,
    bet_id: U256,
    sightings: Seq<Sighting>,
) -> Map<int, BetRow>
    decreases sightings.len(),
{
    if sightings.len() == 0 {
        ledger
    } else {
        apply(
            after_sightings(ledger, bet_id, sightings.drop_last()),
            sighting_step(bet_id, sightings.last()),
        )
    }
}

/// Whether a sighting leads to an insert: the report fits a row and the path
/// saw none.
pub open spec fn tries_insert(bet_id: U256, sighting: Sighting) -> bool {
    chain_row(bet_id, sighting.info) is Some && !sighting.saw_row
}

/// No step removes a row or rewrites an id: a row that was there stays
/// under its id, with its deadline. Only a link changes the session that a
/// row is linked to.
pub proof fn step_keeps_ids(ledger: Map<int, BetRow>, step: StoreStep)
    requires
        keyed_by_id(ledger),
    ensures
        keyed_by_id(apply(ledger, step)),
        forall|id: int| #[trigger]
            ledger.dom().contains(id) ==> {
                &&& apply(ledger, step).dom().contains(id)
                &&& apply(ledger, step)[id].id == ledger[id].id
                &&& apply(ledger, step)[id].dead_line == ledger[id].dead_line
                &&& !(step is Link) ==> apply(ledger, step)[id].match_id == ledger[id].match_id
            },
{
}

/// Handling the same report twice on the event path leaves the ledger as
/// the first time left it, row for row.
pub proof fn reconcile_is_idempotent(ledger: Map<int, BetRow>, bet_id: U256, info: BetInfo)
    ensures
        reconcile_ledger(reconcile_ledger(ledger, bet_id, info), bet_id, info) == reconcile_ledger(
            ledger,
            bet_id,
            info,
        ),
{
    let once = reconcile_ledger(ledger, bet_id, info);
    let twice = reconcile_ledger(once, bet_id, info);
    assert(twice =~= once);
}

/// However often the two paths sight a wager that the ledger does not hold,
/// and however stale their existence checks are, the ledger gains at most
/// the one row of that wager, and gains it as soon as one sighting leads to
/// an insert. No other row changes.
pub proof fn bet_is_created_once(ledger: Map<int, BetRow>, bet_id: U256, sightings: Seq<Sighting>)
    requires
        !ledger.dom().contains(bet_id@ as int),
    ensures
        ({
            let after = after_sightings(ledger, bet_id, sightings);
            let created = exists|i: int|
                0 <= i < sightings.len() && tries_insert(bet_id, #[trigger] sightings[i]);
            &&& created ==> after.dom() == ledger.dom().insert(bet_id@ as int)
            &&& !created ==> after == ledger
            &&& forall|id: int|
                id != bet_id@ ==> (after.dom().contains(id) <==> ledger.dom().contains(id))
                    && after[id] == ledger[id]
        }),
    decreases sightings.len(),
{
    if sightings.len() > 0 {
        let earlier = sightings.drop_last();
        bet_is_created_once(ledger, bet_id, earlier);
        let before = after_sightings(ledger, bet_id, earlier);
        let after = after_sightings(ledger, bet_id, sightings);
        let created_earlier = exists|i: int|
            0 <= i < earlier.len() && tries_insert(bet_id, #[trigger] earlier[i]);
        let created = exists|i: int|
            0 <= i < sightings.len() && tries_insert(bet_id, #[trigger] sightings[i]);
        if created_earlier {
            let i = choose|i: int|
                0 <= i < earlier.len() && tries_insert(bet_id, #[trigger] earlier[i]);
            assert(sightings[i] == earlier[i]);
            assert(after.dom() =~= ledger.dom().insert(bet_id@ as int));
        } else if tries_insert(bet_id, sightings.last()) {
            assert(sightings[sightings.len() - 1] == sightings.last());
            assert(after.dom() =~= ledger.dom().insert(bet_id@ as int));
        } else {
            assert forall|i: int| 0 <= i < sightings.len() implies !tries_insert(
                bet_id,
                #[trigger] sightings[i],
            ) by {
                if i < earlier.len() {
                    assert(sightings[i] == earlier[i]);
                }
            }
            assert(after =~= ledger);
        }
    }
}

/// A report of the chain on one wager, as the event path gets it for a log.
pub struct Report {
    pub bet_id: U256,
    pub info: BetInfo,
}

/// The ledger after the event path has handled a batch of reports in order.
pub open spec fn after_reports(ledger: Map<int, BetRow>, reports: Seq<Report>) -> Map<int, BetRow>
    decreases reports.len(),
{
    if reports.len() == 0 {
        ledger
    } else {
        reconcile_ledger(
            after_reports(ledger, reports.drop_last()),
            reports.last().bet_id,
            reports.last().info,
        )
    }
}

/// The row of the last report in a batch that fits a row with the given id.
pub open spec fn last_row(id: int, reports: Seq<Report>) -> Option<BetRow>
    decreases reports.len(),
{
    if reports.len() == 0 {
        None
    } else {
        match chain_row(reports.last().bet_id, reports.last().info) {
            Some(row) => if row.id == id {
                Some(row)
            } else {
                last_row(id, reports.drop_last())
            },
            None => last_row(id, reports.drop_last()),
        }
    }
}

/// After a batch, each wager stands as its last report says: a row that was
/// there carries the mutable fields of that report, a new row is the row of
/// that report, and a wager without a report is as before.
pub proof fn batch_leaves_last_reports(ledger: Map<int, BetRow>, reports: Seq<Report>, id: int)
    ensures
        ({
            let after = after_reports(ledger, reports);
            match last_row(id, reports) {
                Some(row) => {
                    &&& row.id == id && row.match_id == 0 && row.dead_line == 0
                    &&& after.dom().contains(id)
                    &&& after[id] == (if ledger.dom().contains(id) {
                        merged(ledger[id], row)
                    } else {
                        row
                    })
                },
                None => {
                    &&& after.dom().contains(id) == ledger.dom().contains(id)
                    &&& after[id] == ledger[id]
                },
            }
        }),
    decreases reports.len(),
{
    if reports.len() > 0 {
        batch_leaves_last_reports(ledger, reports.drop_last(), id);
        match chain_row(reports.last().bet_id, reports.last().info) {
            Some(row) => {
                batch_leaves_last_reports(ledger, reports.drop_last(), row.id);
            },
            None => {},
        }
    }
}

/// Handling a whole batch a second time, as happens when the cursor was not
/// moved, leaves the ledger as the first time left it.
pub proof fn redelivered_batch_changes_nothing(ledger: Map<int, BetRow>, reports: Seq<Report>)
    ensures
        after_reports(after_reports(ledger, reports), reports) == after_reports(ledger, reports),
{
    let once = after_reports(ledger, reports);
    let twice = after_reports(once, reports);
    assert forall|id: int| #[trigger]
        once.dom().contains(id) == twice.dom().contains(id) by {
        batch_leaves_last_reports(ledger, reports, id);
        batch_leaves_last_reports(once, reports, id);
    }
    assert forall|id: int| once.dom().contains(id) implies #[trigger] once[id] == twice[id] by {
        batch_leaves_last_reports(ledger, reports, id);
        batch_leaves_last_reports(once, reports, id);
    }
    assert(twice.dom() =~= once.dom());
    assert(twice =~= once);
}

/// The periodic full sync never changes a row that exists, whatever the
/// chain reports of it and whatever its existence check answered.
pub proof fn full_sync_keeps_existing_rows(
    ledger: Map<int, BetRow>,
    saw_row: bool,
    bet_id: U256,
    info: BetInfo,
)
    requires
        ledger.dom().contains(bet_id@ as int),
    ensures
        full_sync_ledger(ledger, bet_id, info) == ledger,
        chain_row(bet_id, info) matches Some(row) ==> apply(ledger, full_sync_step(saw_row, row))
            == ledger,
{
}

/// The event path writes the status that the report carries, whatever the
/// row held before: nothing is decided here. So a report of `Pending` on a
/// row at `Resolved` leaves the row at `Pending`.
pub proof fn reconcile_writes_reported_status(
    ledger: Map<int, BetRow>,
    bet_id: U256,
    info: BetInfo,
)
    requires
        chain_row(bet_id, info) is Some,
    ensures
        reconcile_ledger(ledger, bet_id, info).dom().contains(bet_id@ as int),
        reconcile_ledger(ledger, bet_id, info)[bet_id@ as int].status == Some(
            BetStatus::from_spec(info.status),
        ),
{
}

/// Where the chain reports only what its state machine can reach from what
/// it reported before, a final status stays: a row at `Resolved` is never
/// seen at `Pending` again.
pub proof fn status_follows_chain(ledger: Map<int, BetRow>, bet_id: U256, info: BetInfo)
    requires
        ledger.dom().contains(bet_id@ as int),
        chain_row(bet_id, info) is Some,
        ledger[bet_id@ as int].status matches Some(stored) && stored.reaches(
            BetStatus::from_spec(info.status),
        ),
    ensures
        ({
            let stored = ledger[bet_id@ as int].status.unwrap();
            let after = reconcile_ledger(ledger, bet_id, info)[bet_id@ as int].status;
            &&& stored.reaches(after.unwrap())
            &&& stored.is_terminal() ==> after == Some(stored)
            &&& stored == BetStatus::Resolved ==> after != Some(BetStatus::Pending)
        }),
{
    reconcile_writes_reported_status(ledger, bet_id, info);
}

} // verus!
