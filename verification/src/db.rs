//! What the store-facing code computes: how classifications are written to
//! and read from text columns, and what the answers of the store mean.

use vstd::prelude::*;
use vstd::string::StringExecFns;

use crate::error::Error;
use crate::models::{BetRecord, BetRow, BetStatus, BetTier, MatchStatus};
use crate::reconcile::{StoreAction, StoreStep};

verus! {

/// The text column of a tier: the name of the tier, empty for none.
pub open spec fn tier_column_text(tier: Option<BetTier>) -> Seq<char> {
    match tier {
        Some(tier) => tier.name(),
        None => Seq::empty(),
    }
}

/// The text column of a status: the name of the status, empty for none.
pub open spec fn status_column_text(status: Option<BetStatus>) -> Seq<char> {
    match status {
        Some(status) => status.name(),
        None => Seq::empty(),
    }
}

/// The text column of a session's status: its name, empty for none.
pub open spec fn match_status_column_text(status: Option<MatchStatus>) -> Seq<char> {
    match status {
        Some(status) => status.name(),
        None => Seq::empty(),
    }
}

/// The tier that a text column holds: `Ok(None)` for an empty column,
/// `Err` for a text that names no tier.
pub open spec fn tier_of_column_text(text: Seq<char>) -> Result<Option<BetTier>, Error> {
    if text == Seq::<char>::empty() {
        Ok(None)
    } else if text == BetTier::Unknown.name() {
        Ok(Some(BetTier::Unknown))
    } else if text == BetTier::Bronze.name() {
        Ok(Some(BetTier::Bronze))
    } else if text == BetTier::Silver.name() {
        Ok(Some(BetTier::Silver))
    } else if text == BetTier::Gold.name() {
        Ok(Some(BetTier::Gold))
    } else if text == BetTier::Diamond.name() {
        Ok(Some(BetTier::Diamond))
    } else {
        Err(Error::Store)
    }
}

/// The status that a text column holds: `Ok(None)` for an empty column,
/// `Err` for a text that names no status.
pub open spec fn status_of_column_text(text: Seq<char>) -> Result<Option<BetStatus>, Error> {
    if text == Seq::<char>::empty() {
        Ok(None)
    } else if text == BetStatus::Unknown.name() {
        Ok(Some(BetStatus::Unknown))
    } else if text == BetStatus::Pending.name() {
        Ok(Some(BetStatus::Pending))
    } else if text == BetStatus::Resolved.name() {
        Ok(Some(BetStatus::Resolved))
    } else if text == BetStatus::Canceled.name() {
        Ok(Some(BetStatus::Canceled))
    } else {
        Err(Error::Store)
    }
}

/// The status of a session that a text column holds: `Ok(None)` for an
/// empty column, `Err` for a text that names no status.
pub open spec fn match_status_of_column_text(text: Seq<char>) -> Result<Option<MatchStatus>, Error> {
    if text == Seq::<char>::empty() {
        Ok(None)
    } else if text == MatchStatus::OnMatch.name() {
        Ok(Some(MatchStatus::OnMatch))
    } else if text == MatchStatus::OffMatch.name() {
        Ok(Some(MatchStatus::OffMatch))
    } else {
        Err(Error::Store)
    }
}

/// Writes a tier to its text column.
pub fn tier_column(tier: Option<BetTier>) -> (text: String)
    ensures
        text@ == tier_column_text(tier),
{
    match tier {
        Some(tier) => tier.to_string(),
        None => String::new(),
    }
}

/// Writes a status to its text column.
pub fn status_column(status: Option<BetStatus>) -> (text: String)
    ensures
        text@ == status_column_text(status),
{
    match status {
        Some(status) => status.to_string(),
        None => String::new(),
    }
}

/// Writes the status of a session to its text column.
pub fn match_status_column(status: Option<MatchStatus>) -> (text: String)
    ensures
        text@ == match_status_column_text(status),
{
    match status {
        Some(status) => status.to_string(),
        None => String::new(),
    }
}

/// Whether a text is the given word.
fn is_word(text: &String, word: &str) -> (r: bool)
    ensures
        r == (text@ == word@),
{
    let other = String::from_str(word);
    *text == other
}

/// The empty literal is the empty text.
proof fn lemma_empty_text()
    ensures
        ""@ == Seq::<char>::empty(),
{
    reveal_strlit("");
    assert(""@ =~= Seq::<char>::empty());
}

/// Reads a tier from its text column.
pub fn tier_from_column(text: &String) -> (r: Result<Option<BetTier>, Error>)
    ensures
        r == tier_of_column_text(text@),
{
    proof {
        lemma_empty_text();
    }
    if is_word(text, "") {
        Ok(None)
    } else if is_word(text, "Unknown") {
        Ok(Some(BetTier::Unknown))
    } else if is_word(text, "Bronze") {
        Ok(Some(BetTier::Bronze))
    } else if is_word(text, "Silver") {
        Ok(Some(BetTier::Silver))
    } else if is_word(text, "Gold") {
        Ok(Some(BetTier::Gold))
    } else if is_word(text, "Diamond") {
        Ok(Some(BetTier::Diamond))
    } else {
        Err(Error::Store)
    }
}

/// Reads a status from its text column.
pub fn status_from_column(text: &String) -> (r: Result<Option<BetStatus>, Error>)
    ensures
        r == status_of_column_text(text@),
{
    proof {
        lemma_empty_text();
    }
    if is_word(text, "") {
        Ok(None)
    } else if is_word(text, "Unknown") {
        Ok(Some(BetStatus::Unknown))
    } else if is_word(text, "Pending") {
        Ok(Some(BetStatus::Pending))
    } else if is_word(text, "Resolved") {
        Ok(Some(BetStatus::Resolved))
    } else if is_word(text, "Canceled") {
        Ok(Some(BetStatus::Canceled))
    } else {
        Err(Error::Store)
    }
}

/// Reads the status of a session from its text column.
pub fn match_status_from_column(text: &String) -> (r: Result<Option<MatchStatus>, Error>)
    ensures
        r == match_status_of_column_text(text@),
{
    proof {
        lemma_empty_text();
    }
    if is_word(text, "") {
        Ok(None)
    } else if is_word(text, "OnMatch") {
        Ok(Some(MatchStatus::OnMatch))
    } else if is_word(text, "OffMatch") {
        Ok(Some(MatchStatus::OffMatch))
    } else {
        Err(Error::Store)
    }
}

/// The column that links a bet to its session holds 32 bits:
/// `Error::Format` for a link that does not fit.
pub fn match_id_column(match_id: i64) -> (r: Result<i32, Error>)
    ensures
        match r {
            Ok(column) => column as int == match_id as int,
            Err(e) => e == Error::Format && !(i32::MIN <= match_id <= i32::MAX),
        },
{
    if match_id >= -2147483648 && match_id <= 2147483647 {
        Ok(match_id as i32)
    } else {
        Err(Error::Format)
    }
}

/// A tier that was written to its column is read back as it was.
pub proof fn tier_column_round_trip(tier: Option<BetTier>)
    ensures
        tier_of_column_text(tier_column_text(tier)) == Ok::<Option<BetTier>, Error>(tier),
{
    reveal_strlit("Unknown");
    reveal_strlit("Bronze");
    reveal_strlit("Silver");
    reveal_strlit("Gold");
    reveal_strlit("Diamond");
    let text = tier_column_text(tier);
    if tier is Some {
        assert(text.len() >= 4);
        assert(text[0] == 'U' || text[0] == 'B' || text[0] == 'S' || text[0] == 'G' || text[0]
            == 'D');
    }
}

/// A status that was written to its column is read back as it was.
pub proof fn status_column_round_trip(status: Option<BetStatus>)
    ensures
        status_of_column_text(status_column_text(status)) == Ok::<Option<BetStatus>, Error>(
            status,
        ),
{
    reveal_strlit("Unknown");
    reveal_strlit("Pending");
    reveal_strlit("Resolved");
    reveal_strlit("Canceled");
    let text = status_column_text(status);
    if status is Some {
        assert(text.len() >= 7);
        assert(text[0] == 'U' || text[0] == 'P' || text[0] == 'R' || text[0] == 'C');
    }
}

/// The status of a session that was written to its column is read back as
/// it was.
pub proof fn match_status_column_round_trip(status: Option<MatchStatus>)
    ensures
        match_status_of_column_text(match_status_column_text(status)) == Ok::<
            Option<MatchStatus>,
            Error,
        >(status),
{
    reveal_strlit("OnMatch");
    reveal_strlit("OffMatch");
    let text = match_status_column_text(status);
    if status is Some {
        assert(text.len() >= 7);
        assert(text[1] == 'n' || text[1] == 'f');
    }
}

/// What an existence query answered: a missing answer counts as "no row".
pub fn row_exists(answer: Option<bool>) -> (r: bool)
    ensures
        r == (answer == Some(true)),
{
    match answer {
        Some(exists) => exists,
        None => false,
    }
}

/// The failure of a lookup by id: `Error::NotFound` where the store found no
/// row, `Error::Store` for every other failure of the store.
pub fn lookup_failure(row_missing: bool) -> (e: Error)
    ensures
        e == (if row_missing {
            Error::NotFound
        } else {
            Error::Store
        }),
{
    if row_missing {
        Error::NotFound
    } else {
        Error::Store
    }
}

/// The row of a bet that is created together with its session, before the
/// chain has reported anything of it: linked to the session, all else
/// empty.
pub fn bet_for_new_match(bet_id: i64, match_id: i32) -> (record: BetRecord)
    ensures
        record@ == (BetRow {
            id: bet_id as int,
            match_id: match_id as int,
            requester_address: Seq::empty(),
            receiver_address: Seq::empty(),
            bet_tier: None,
            bet_amount: "0"@,
            dead_line: 0,
            timestamp: 0,
            status: None,
        }),
{
    BetRecord {
        id: bet_id,
        match_id: match_id as i64,
        requester_address: String::new(),
        receiver_address: String::new(),
        bet_tier: None,
        bet_amount: String::from_str("0"),
        dead_line: 0,
        timestamp: 0,
        status: None,
    }
}

/// Links a new session to a bet: where the bet has a row, the row is
/// linked; where it has none, a row is created together with the link.
pub fn link_match(bet_exists: bool, bet_id: i64, match_id: i32) -> (action: StoreAction)
    ensures
        action@ == (if bet_exists {
            StoreStep::Link { id: bet_id as int, match_id: match_id as int }
        } else {
            StoreStep::Insert(
                BetRow {
                    id: bet_id as int,
                    match_id: match_id as int,
                    requester_address: Seq::empty(),
                    receiver_address: Seq::empty(),
                    bet_tier: None,
                    bet_amount: "0"@,
                    dead_line: 0,
                    timestamp: 0,
                    status: None,
                },
            )
        }),
{
    if bet_exists {
        StoreAction::Link { id: bet_id, match_id: match_id as i64 }
    } else {
        StoreAction::Insert(bet_for_new_match(bet_id, match_id))
    }
}

} // verus!
