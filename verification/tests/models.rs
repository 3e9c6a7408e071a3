use floppy_server::bets_syncer;
use floppy_server::models::{BetStatus, BetTier, GameResult, MatchStatus, PlayerStatus};

#[test]
fn tier_codes_map_to_tiers() {
    assert_eq!(BetTier::from(0), BetTier::Unknown);
    assert_eq!(BetTier::from(1), BetTier::Bronze);
    assert_eq!(BetTier::from(2), BetTier::Silver);
    assert_eq!(BetTier::from(3), BetTier::Gold);
    assert_eq!(BetTier::from(4), BetTier::Diamond);
    assert_eq!(BetTier::from(5), BetTier::Unknown);
    assert_eq!(BetTier::from(255), BetTier::Unknown);
}

#[test]
fn status_codes_map_to_statuses() {
    assert_eq!(BetStatus::from(0), BetStatus::Unknown);
    assert_eq!(BetStatus::from(1), BetStatus::Pending);
    assert_eq!(BetStatus::from(2), BetStatus::Resolved);
    assert_eq!(BetStatus::from(3), BetStatus::Canceled);
    assert_eq!(BetStatus::from(4), BetStatus::Unknown);
    assert_eq!(BetStatus::from(255), BetStatus::Unknown);
}

#[test]
fn decode_tells_unmapped_codes_from_reported_unknown() {
    assert_eq!(BetTier::decode(0), Some(BetTier::Unknown));
    assert_eq!(BetTier::decode(4), Some(BetTier::Diamond));
    assert_eq!(BetTier::decode(5), None);
    assert_eq!(BetStatus::decode(0), Some(BetStatus::Unknown));
    assert_eq!(BetStatus::decode(3), Some(BetStatus::Canceled));
    assert_eq!(BetStatus::decode(4), None);
}

#[test]
fn variants_are_written_by_name() {
    assert_eq!(BetStatus::Unknown.to_string(), "Unknown");
    assert_eq!(BetStatus::Pending.to_string(), "Pending");
    assert_eq!(BetStatus::Resolved.to_string(), "Resolved");
    assert_eq!(BetStatus::Canceled.to_string(), "Canceled");
    assert_eq!(BetTier::Unknown.to_string(), "Unknown");
    assert_eq!(BetTier::Bronze.to_string(), "Bronze");
    assert_eq!(BetTier::Silver.to_string(), "Silver");
    assert_eq!(BetTier::Gold.to_string(), "Gold");
    assert_eq!(BetTier::Diamond.to_string(), "Diamond");
    assert_eq!(MatchStatus::OnMatch.to_string(), "OnMatch");
    assert_eq!(MatchStatus::OffMatch.to_string(), "OffMatch");
    assert_eq!(PlayerStatus::Online.to_string(), "Online");
    assert_eq!(PlayerStatus::Offline.to_string(), "Offline");
}

#[test]
fn game_results_have_their_numbers() {
    assert_eq!(GameResult::Win.code(), 1);
    assert_eq!(GameResult::Lose.code(), 2);
}

#[test]
fn listing_status_codes_match_the_stored_statuses() {
    assert_eq!(bets_syncer::BetStatus::Unknown.code(), 0);
    assert_eq!(bets_syncer::BetStatus::Pending.code(), 1);
    assert_eq!(bets_syncer::BetStatus::Resolved.code(), 2);
    assert_eq!(bets_syncer::BetStatus::Canceled.code(), 3);
    assert_eq!(BetStatus::from(bets_syncer::BetStatus::Pending.code()), BetStatus::Pending);
}
