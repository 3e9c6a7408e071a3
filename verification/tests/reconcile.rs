use std::collections::HashMap;

use floppy_server::bets_syncer::pending_bets;
use floppy_server::error::Error;
use floppy_server::models::{BetRecord, BetStatus, BetTier};
use floppy_server::primitives::{Address, U256};
use floppy_server::reconcile::{
    batch_goes_on, bet_record_from_chain, bet_row_id, reconcile, sync_missing_bet, BetInfo,
    StoreAction,
};

const ONE_TOKEN: u64 = 1_000_000_000_000_000_000;

/// A store in memory that takes a step as the table of wagers takes it.
fn perform(ledger: &mut HashMap<i64, BetRecord>, action: StoreAction) -> bool {
    match action {
        StoreAction::Insert(record) => {
            if ledger.contains_key(&record.id) {
                return false;
            }
            ledger.insert(record.id, record);
            true
        }
        StoreAction::Update(record) => match ledger.get_mut(&record.id) {
            Some(row) => {
                row.requester_address = record.requester_address;
                row.receiver_address = record.receiver_address;
                row.bet_tier = record.bet_tier;
                row.bet_amount = record.bet_amount;
                row.timestamp = record.timestamp;
                row.status = record.status;
                true
            }
            None => false,
        },
        StoreAction::Link { id, match_id } => match ledger.get_mut(&id) {
            Some(row) => {
                row.match_id = match_id;
                true
            }
            None => false,
        },
        StoreAction::Skip => true,
    }
}

fn handle_event(ledger: &mut HashMap<i64, BetRecord>, bet_id: &U256, info: &BetInfo) -> Result<(), Error> {
    let id = bet_row_id(bet_id)?;
    let action = reconcile(ledger.contains_key(&id), bet_id, info)?;
    perform(ledger, action);
    Ok(())
}

fn full_sync(ledger: &mut HashMap<i64, BetRecord>, bet_id: &U256, info: &BetInfo) -> Result<(), Error> {
    let id = bet_row_id(bet_id)?;
    let action = sync_missing_bet(ledger.contains_key(&id), bet_id, info)?;
    perform(ledger, action);
    Ok(())
}

fn same_row(a: &BetRecord, b: &BetRecord) -> bool {
    a.id == b.id
        && a.match_id == b.match_id
        && a.requester_address == b.requester_address
        && a.receiver_address == b.receiver_address
        && a.bet_tier == b.bet_tier
        && a.bet_amount == b.bet_amount
        && a.dead_line == b.dead_line
        && a.timestamp == b.timestamp
        && a.status == b.status
}

fn address(last: u8) -> Address {
    let mut bytes = [0u8; 20];
    bytes[0] = 0xd8;
    bytes[19] = last;
    Address { bytes }
}

fn info(tier: u8, status: u8, amount: u64) -> BetInfo {
    BetInfo {
        requester: address(1),
        receiver: address(2),
        tier,
        amount: U256::from_u64(amount),
        timestamp: U256::from_u64(1_700_000_000),
        status,
    }
}

#[test]
fn record_mirrors_the_report() {
    let record = bet_record_from_chain(&U256::from_u64(42), &info(2, 1, ONE_TOKEN)).unwrap();
    assert_eq!(record.id, 42);
    assert_eq!(record.match_id, 0);
    assert_eq!(record.requester_address, address(1).to_text());
    assert_eq!(record.receiver_address, address(2).to_text());
    assert_eq!(record.requester_address.len(), 42);
    assert!(record.requester_address.starts_with("0xd8"));
    assert_eq!(record.bet_tier, Some(BetTier::Silver));
    assert_eq!(record.bet_amount, "1.000000000000000000");
    assert_eq!(record.dead_line, 0);
    assert_eq!(record.timestamp, 1_700_000_000);
    assert_eq!(record.status, Some(BetStatus::Pending));
}

#[test]
fn scaled_amounts_are_stored_in_whole_tokens() {
    let record = bet_record_from_chain(&U256::from_u64(1), &info(1, 1, ONE_TOKEN)).unwrap();
    assert_eq!(record.bet_amount.parse::<f64>().unwrap(), 1.0);
    let record = bet_record_from_chain(&U256::from_u64(1), &info(1, 1, 2_500_000_000_000_000_000)).unwrap();
    assert_eq!(record.bet_amount.parse::<f64>().unwrap(), 2.5);
}

#[test]
fn unmapped_codes_are_stored_as_unknown() {
    let record = bet_record_from_chain(&U256::from_u64(7), &info(9, 200, 5)).unwrap();
    assert_eq!(record.bet_tier, Some(BetTier::Unknown));
    assert_eq!(record.status, Some(BetStatus::Unknown));
}

#[test]
fn ids_and_timestamps_beyond_the_columns_are_format_errors() {
    let too_big = U256::from_u64(i64::MAX as u64 + 1);
    assert_eq!(bet_row_id(&too_big), Err(Error::Format));
    assert_eq!(bet_row_id(&U256::from_u64(i64::MAX as u64)), Ok(i64::MAX));
    assert!(matches!(
        bet_record_from_chain(&too_big, &info(1, 1, 1)),
        Err(Error::Format)
    ));
    let mut late = info(1, 1, 1);
    late.timestamp = too_big;
    assert!(matches!(
        bet_record_from_chain(&U256::from_u64(1), &late),
        Err(Error::Format)
    ));
    assert!(matches!(reconcile(false, &U256::from_u64(1), &late), Err(Error::Format)));
    assert!(matches!(reconcile(true, &too_big, &info(1, 1, 1)), Err(Error::Format)));
    assert!(matches!(
        sync_missing_bet(true, &too_big, &info(1, 1, 1)),
        Err(Error::Format)
    ));
    assert!(matches!(
        sync_missing_bet(false, &U256::from_u64(1), &late),
        Err(Error::Format)
    ));
    assert!(matches!(
        sync_missing_bet(true, &U256::from_u64(1), &late),
        Ok(StoreAction::Skip)
    ));
}

#[test]
fn event_path_inserts_then_updates() {
    let id = U256::from_u64(5);
    assert!(matches!(reconcile(false, &id, &info(1, 1, 1)), Ok(StoreAction::Insert(_))));
    assert!(matches!(reconcile(true, &id, &info(1, 1, 1)), Ok(StoreAction::Update(_))));
}

#[test]
fn full_sync_inserts_or_skips() {
    let id = U256::from_u64(5);
    assert!(matches!(
        sync_missing_bet(false, &id, &info(1, 1, 1)),
        Ok(StoreAction::Insert(_))
    ));
    assert!(matches!(
        sync_missing_bet(true, &id, &info(1, 1, 1)),
        Ok(StoreAction::Skip)
    ));
}

#[test]
fn reconciling_twice_leaves_the_row_as_it_was() {
    let mut ledger = HashMap::new();
    let id = U256::from_u64(11);
    let report = info(3, 1, 7 * ONE_TOKEN);
    handle_event(&mut ledger, &id, &report).unwrap();
    let first = ledger.get(&11).unwrap().clone();
    handle_event(&mut ledger, &id, &report).unwrap();
    assert_eq!(ledger.len(), 1);
    assert!(same_row(&first, ledger.get(&11).unwrap()));
}

#[test]
fn a_new_bet_gets_exactly_one_row() {
    let mut ledger = HashMap::new();
    let id = U256::from_u64(12);
    // Both paths saw no row before either wrote.
    let by_event = reconcile(false, &id, &info(1, 1, ONE_TOKEN)).unwrap();
    let by_full_sync = sync_missing_bet(false, &id, &info(1, 1, ONE_TOKEN)).unwrap();
    assert!(perform(&mut ledger, by_full_sync));
    assert!(!perform(&mut ledger, by_event));
    assert_eq!(ledger.len(), 1);
    full_sync(&mut ledger, &id, &info(1, 1, ONE_TOKEN)).unwrap();
    handle_event(&mut ledger, &id, &info(1, 1, ONE_TOKEN)).unwrap();
    full_sync(&mut ledger, &id, &info(1, 1, ONE_TOKEN)).unwrap();
    assert_eq!(ledger.len(), 1);
    assert_eq!(ledger.get(&12).unwrap().id, 12);
}

#[test]
fn full_sync_never_touches_an_existing_row() {
    let mut ledger = HashMap::new();
    let id = U256::from_u64(13);
    handle_event(&mut ledger, &id, &info(1, 1, ONE_TOKEN)).unwrap();
    let before = ledger.get(&13).unwrap().clone();
    // The chain now reports something else of the bet.
    full_sync(&mut ledger, &id, &info(4, 2, 9 * ONE_TOKEN)).unwrap();
    assert!(same_row(&before, ledger.get(&13).unwrap()));
    // Also where the existence check was stale.
    let stale = sync_missing_bet(false, &id, &info(4, 2, 9 * ONE_TOKEN)).unwrap();
    assert!(!perform(&mut ledger, stale));
    assert!(same_row(&before, ledger.get(&13).unwrap()));
}

#[test]
fn a_resolved_bet_stays_resolved_under_repeated_reports() {
    let mut ledger = HashMap::new();
    let id = U256::from_u64(14);
    handle_event(&mut ledger, &id, &info(1, 1, ONE_TOKEN)).unwrap();
    handle_event(&mut ledger, &id, &info(1, 2, ONE_TOKEN)).unwrap();
    assert_eq!(ledger.get(&14).unwrap().status, Some(BetStatus::Resolved));
    // A repeated event leads to a fresh report of the chain, which still
    // says resolved.
    handle_event(&mut ledger, &id, &info(1, 2, ONE_TOKEN)).unwrap();
    assert_eq!(ledger.get(&14).unwrap().status, Some(BetStatus::Resolved));
    // The full sync, which lists pending bets, cannot move it either.
    full_sync(&mut ledger, &id, &info(1, 1, ONE_TOKEN)).unwrap();
    assert_eq!(ledger.get(&14).unwrap().status, Some(BetStatus::Resolved));
}

#[test]
fn a_bet_is_stored_and_then_resolved() {
    let mut ledger = HashMap::new();
    let id = U256::from_u64(42);
    handle_event(&mut ledger, &id, &info(2, 1, ONE_TOKEN)).unwrap();
    let row = ledger.get(&42).unwrap().clone();
    assert_eq!(row.id, 42);
    assert_eq!(row.bet_tier, Some(BetTier::Silver));
    assert_eq!(row.status, Some(BetStatus::Pending));
    assert_eq!(row.bet_amount.parse::<f64>().unwrap(), 1.0);

    handle_event(&mut ledger, &id, &info(2, 2, ONE_TOKEN)).unwrap();
    let later = ledger.get(&42).unwrap();
    assert_eq!(later.status, Some(BetStatus::Resolved));
    assert_eq!(later.id, row.id);
    assert_eq!(later.bet_tier, row.bet_tier);
    assert_eq!(later.bet_amount, row.bet_amount);
    assert_eq!(later.match_id, row.match_id);
    assert_eq!(later.requester_address, row.requester_address);
    assert_eq!(later.receiver_address, row.receiver_address);
    assert_eq!(later.timestamp, row.timestamp);
    assert_eq!(later.dead_line, row.dead_line);
    assert_eq!(ledger.len(), 1);
}

#[test]
fn an_update_keeps_the_link_and_the_deadline() {
    let mut ledger = HashMap::new();
    let id = U256::from_u64(15);
    handle_event(&mut ledger, &id, &info(1, 1, ONE_TOKEN)).unwrap();
    assert!(perform(&mut ledger, StoreAction::Link { id: 15, match_id: 3 }));
    ledger.get_mut(&15).unwrap().dead_line = 99;
    handle_event(&mut ledger, &id, &info(2, 3, 2 * ONE_TOKEN)).unwrap();
    let row = ledger.get(&15).unwrap();
    assert_eq!(row.match_id, 3);
    assert_eq!(row.dead_line, 99);
    assert_eq!(row.bet_tier, Some(BetTier::Silver));
    assert_eq!(row.status, Some(BetStatus::Canceled));
    assert_eq!(row.bet_amount, "2.000000000000000000");
}

#[test]
fn listed_ids_are_paired_with_their_reports() {
    let ids = vec![U256::from_u64(1), U256::from_u64(2)];
    let infos = vec![info(1, 1, 10), info(2, 1, 20), info(3, 1, 30)];
    let pairs = pending_bets(&ids, &infos).unwrap();
    assert_eq!(pairs.len(), 2);
    assert_eq!(pairs[0].0, U256::from_u64(1));
    assert_eq!(pairs[0].1.tier, 1);
    assert_eq!(pairs[1].0, U256::from_u64(2));
    assert_eq!(pairs[1].1.amount, U256::from_u64(20));
    assert!(matches!(pending_bets(&ids, &infos[..1].to_vec()), Err(Error::Format)));
    assert_eq!(pending_bets(&Vec::new(), &Vec::new()).unwrap().len(), 0);
}

#[test]
fn only_a_format_error_lets_the_batch_go_on() {
    assert!(batch_goes_on(Error::Format));
    assert!(!batch_goes_on(Error::Network));
    assert!(!batch_goes_on(Error::Store));
    assert!(!batch_goes_on(Error::NotFound));
    assert!(!batch_goes_on(Error::Config));
}

#[test]
fn a_record_that_does_not_fit_is_passed_over_and_the_rest_is_synced() {
    let mut ledger = HashMap::new();
    let batch = vec![
        (U256::from_u64(1), info(1, 1, ONE_TOKEN)),
        (U256::from_u64(u64::MAX), info(1, 1, ONE_TOKEN)),
        (U256::from_u64(3), info(2, 1, ONE_TOKEN)),
    ];
    for (bet_id, report) in &batch {
        if let Err(e) = full_sync(&mut ledger, bet_id, report) {
            if !batch_goes_on(e) {
                break;
            }
        }
    }
    assert_eq!(ledger.len(), 2);
    assert!(ledger.contains_key(&1));
    assert!(ledger.contains_key(&3));
}

#[test]
fn a_stale_pending_report_is_written_as_reported() {
    let mut ledger = HashMap::new();
    let id = U256::from_u64(16);
    handle_event(&mut ledger, &id, &info(1, 2, ONE_TOKEN)).unwrap();
    assert_eq!(ledger.get(&16).unwrap().status, Some(BetStatus::Resolved));
    handle_event(&mut ledger, &id, &info(1, 1, ONE_TOKEN)).unwrap();
    assert_eq!(ledger.get(&16).unwrap().status, Some(BetStatus::Pending));
}
