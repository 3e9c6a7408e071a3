use floppy_server::db::{
    match_id_column, match_status_from_column,
    bet_for_new_match, link_match, lookup_failure, match_status_column, row_exists,
    status_column, status_from_column, tier_column, tier_from_column,
};
use floppy_server::error::Error;
use floppy_server::models::{BetStatus, BetTier, MatchStatus};
use floppy_server::reconcile::StoreAction;

#[test]
fn classifications_are_written_by_name_and_none_as_empty() {
    assert_eq!(tier_column(Some(BetTier::Gold)), "Gold");
    assert_eq!(tier_column(None), "");
    assert_eq!(status_column(Some(BetStatus::Pending)), "Pending");
    assert_eq!(status_column(None), "");
    assert_eq!(match_status_column(Some(MatchStatus::OnMatch)), "OnMatch");
    assert_eq!(match_status_column(None), "");
}

#[test]
fn columns_are_read_back_as_written() {
    let tiers = [
        None,
        Some(BetTier::Unknown),
        Some(BetTier::Bronze),
        Some(BetTier::Silver),
        Some(BetTier::Gold),
        Some(BetTier::Diamond),
    ];
    for tier in tiers {
        assert_eq!(tier_from_column(&tier_column(tier)), Ok(tier));
    }
    let statuses = [
        None,
        Some(BetStatus::Unknown),
        Some(BetStatus::Pending),
        Some(BetStatus::Resolved),
        Some(BetStatus::Canceled),
    ];
    for status in statuses {
        assert_eq!(status_from_column(&status_column(status)), Ok(status));
    }
}

#[test]
fn a_column_that_names_nothing_is_a_store_error() {
    assert_eq!(tier_from_column(&String::from("Platinum")), Err(Error::Store));
    assert_eq!(tier_from_column(&String::from("gold")), Err(Error::Store));
    assert_eq!(status_from_column(&String::from("Pending ")), Err(Error::Store));
    assert_eq!(status_from_column(&String::from("Gold")), Err(Error::Store));
}

#[test]
fn a_missing_answer_counts_as_no_row() {
    assert!(row_exists(Some(true)));
    assert!(!row_exists(Some(false)));
    assert!(!row_exists(None));
}

#[test]
fn a_missing_row_is_not_found_and_all_else_a_store_error() {
    assert_eq!(lookup_failure(true), Error::NotFound);
    assert_eq!(lookup_failure(false), Error::Store);
}

#[test]
fn error_kinds_have_their_messages() {
    assert_eq!(Error::Network.to_string(), "network error");
    assert_eq!(Error::NotFound.to_string(), "not found");
    assert_eq!(Error::Format.to_string(), "format error");
    assert_eq!(Error::Store.to_string(), "store error");
    assert_eq!(Error::Config.to_string(), "configuration error");
    assert!(Error::Network.is_transient());
    assert!(Error::Store.is_transient());
    assert!(!Error::Format.is_transient());
    assert!(!Error::NotFound.is_transient());
    assert!(!Error::Config.is_transient());
}

#[test]
fn a_bet_made_with_its_session_is_linked_and_otherwise_empty() {
    let record = bet_for_new_match(8, 3);
    assert_eq!(record.id, 8);
    assert_eq!(record.match_id, 3);
    assert_eq!(record.requester_address, "");
    assert_eq!(record.receiver_address, "");
    assert_eq!(record.bet_tier, None);
    assert_eq!(record.bet_amount.parse::<f64>().unwrap(), 0.0);
    assert_eq!(record.dead_line, 0);
    assert_eq!(record.timestamp, 0);
    assert_eq!(record.status, None);
}

#[test]
fn a_session_is_linked_to_an_existing_bet_or_made_with_it() {
    match link_match(true, 8, 3) {
        StoreAction::Link { id, match_id } => {
            assert_eq!(id, 8);
            assert_eq!(match_id, 3);
        }
        other => panic!("{:?}", other),
    }
    match link_match(false, 8, 3) {
        StoreAction::Insert(record) => {
            assert_eq!(record.id, 8);
            assert_eq!(record.match_id, 3);
        }
        other => panic!("{:?}", other),
    }
}

#[test]
fn session_statuses_are_read_back_as_written() {
    for status in [None, Some(MatchStatus::OnMatch), Some(MatchStatus::OffMatch)] {
        assert_eq!(match_status_from_column(&match_status_column(status)), Ok(status));
    }
    assert_eq!(match_status_from_column(&String::from("Paused")), Err(Error::Store));
}

#[test]
fn a_link_must_fit_its_column() {
    assert_eq!(match_id_column(0), Ok(0));
    assert_eq!(match_id_column(7), Ok(7));
    assert_eq!(match_id_column(i64::from(i32::MAX)), Ok(i32::MAX));
    assert_eq!(match_id_column(i64::from(i32::MIN)), Ok(i32::MIN));
    assert_eq!(match_id_column(i64::from(i32::MAX) + 1), Err(Error::Format));
    assert_eq!(match_id_column(i64::from(i32::MIN) - 1), Err(Error::Format));
}
