//! The records of the ledger and the classifications that they carry.

use vstd::prelude::*;
use vstd::std_specs::convert::FromSpecImpl;
use vstd::string::StringExecFns;

verus! {

/// Whether a player is connected.
#[derive(Clone, Copy, Debug, PartialEq, Eq, Structural)]
pub enum PlayerStatus {
    Online,
    Offline,
}

/// Whether a gameplay session is running.
#[derive(Clone, Copy, Debug, PartialEq, Eq, Structural)]
pub enum MatchStatus {
    OnMatch,
    OffMatch,
}

/// Where a wager stands. `Resolved` and `Canceled` are final.
#[derive(Clone, Copy, Debug, PartialEq, Eq, Structural)]
pub enum BetStatus {
    Unknown,
    Pending,
    Resolved,
    Canceled,
}

/// The class of a wager.
#[derive(Clone, Copy, Debug, PartialEq, Eq, Structural)]
pub enum BetTier {
    Unknown,
    Bronze,
    Silver,
    Gold,
    Diamond,
}

/// How a game ended for the player.
#[derive(Clone, Copy, Debug, PartialEq, Eq, Structural)]
pub enum GameResult {
    Win,
    Lose,
}

/// The tier that a tier code names; `None` for a code that names none.
pub open spec fn tier_of_code(code: u8) -> Option<BetTier> {
    if code == 0 {
        Some(BetTier::Unknown)
    } else if code == 1 {
        Some(BetTier::Bronze)
    } else if code == 2 {
        Some(BetTier::Silver)
    } else if code == 3 {
        Some(BetTier::Gold)
    } else if code == 4 {
        Some(BetTier::Diamond)
    } else {
        None
    }
}

/// The status that a status code names; `None` for a code that names none.
pub open spec fn status_of_code(code: u8) -> Option<BetStatus> {
    if code == 0 {
        Some(BetStatus::Unknown)
    } else if code == 1 {
        Some(BetStatus::Pending)
    } else if code == 2 {
        Some(BetStatus::Resolved)
    } else if code == 3 {
        Some(BetStatus::Canceled)
    } else {
        None
    }
}

impl GameResult {
    /// The number that stands for the result: 1 for a win, 2 for a loss.
    pub fn code(&self) -> (r: u8)
        ensures
            r == (match *self {
                GameResult::Win => 1u8,
                GameResult::Lose => 2u8,
            }),
    {
        match self {
            GameResult::Win => 1,
            GameResult::Lose => 2,
        }
    }
}

impl PlayerStatus {
    /// The name of the variant.
    pub open spec fn name(self) -> Seq<char> {
        match self {
            PlayerStatus::Online => "Online"@,
            PlayerStatus::Offline => "Offline"@,
        }
    }

    /// The name of the variant, as text.
    pub fn to_string(&self) -> (r: String)
        ensures
            r@ == self.name(),
    {
        match self {
            PlayerStatus::Online => String::from_str("Online"),
            PlayerStatus::Offline => String::from_str("Offline"),
        }
    }
}

impl MatchStatus {
    /// The name of the variant.
    pub open spec fn name(self) -> Seq<char> {
        match self {
            MatchStatus::OnMatch => "OnMatch"@,
            MatchStatus::OffMatch => "OffMatch"@,
        }
    }

    /// The name of the variant, as text.
    pub fn to_string(&self) -> (r: String)
        ensures
            r@ == self.name(),
    {
        match self {
            MatchStatus::OnMatch => String::from_str("OnMatch"),
            MatchStatus::OffMatch => String::from_str("OffMatch"),
        }
    }
}

impl BetStatus {
    /// The name of the variant.
    pub open spec fn name(self) -> Seq<char> {
        match self {
            BetStatus::Unknown => "Unknown"@,
            BetStatus::Pending => "Pending"@,
            BetStatus::Resolved => "Resolved"@,
            BetStatus::Canceled => "Canceled"@,
        }
    }

    /// The name of the variant, as text.
    pub fn to_string(&self) -> (r: String)
        ensures
            r@ == self.name(),
    {
        match self {
            BetStatus::Unknown => String::from_str("Unknown"),
            BetStatus::Pending => String::from_str("Pending"),
            BetStatus::Resolved => String::from_str("Resolved"),
            BetStatus::Canceled => String::from_str("Canceled"),
        }
    }

    /// Reads a status code and tells a code that names no status apart from
    /// a reported `Unknown`.
    pub fn decode(code: u8) -> (r: Option<BetStatus>)
        ensures
            r == status_of_code(code),
    {
        match code {
            0 => Some(BetStatus::Unknown),
            1 => Some(BetStatus::Pending),
            2 => Some(BetStatus::Resolved),
            3 => Some(BetStatus::Canceled),
            _ => None,
        }
    }

    /// No later report can move a wager out of a final status.
    pub open spec fn is_terminal(self) -> bool {
        self == BetStatus::Resolved || self == BetStatus::Canceled
    }

    /// The contract's state machine, one step or none:
    /// `Unknown -> Pending -> {Resolved, Canceled}`.
    pub open spec fn can_become(self, next: BetStatus) -> bool {
        self == next || (self == BetStatus::Unknown && next == BetStatus::Pending) || (self
            == BetStatus::Pending && next.is_terminal())
    }

    /// Whether the contract can report `next` at some time after it reported
    /// this status.
    pub open spec fn reaches(self, next: BetStatus) -> bool {
        self == next || (self == BetStatus::Unknown && next != BetStatus::Unknown) || (self
            == BetStatus::Pending && next.is_terminal())
    }
}

/// What the contract can report later is what its state machine reaches in
/// at most two steps.
pub proof fn reaches_is_closure_of_steps(from: BetStatus, to: BetStatus)
    ensures
        from.reaches(to) <==> exists|via: BetStatus| #[trigger]
            from.can_become(via) && via.can_become(to),
        from.is_terminal() && from.reaches(to) ==> to == from,
{
    if from.reaches(to) {
        if from == BetStatus::Unknown && to != BetStatus::Unknown {
            assert(from.can_become(BetStatus::Pending) && BetStatus::Pending.can_become(to));
        } else {
            assert(from.can_become(from) && from.can_become(to));
        }
    }
}

impl BetTier {
    /// The name of the variant.
    pub open spec fn name(self) -> Seq<char> {
        match self {
            BetTier::Unknown => "Unknown"@,
            BetTier::Bronze => "Bronze"@,
            BetTier::Silver => "Silver"@,
            BetTier::Gold => "Gold"@,
            BetTier::Diamond => "Diamond"@,
        }
    }

    /// The name of the variant, as text.
    pub fn to_string(&self) -> (r: String)
        ensures
            r@ == self.name(),
    {
        match self {
            BetTier::Unknown => String::from_str("Unknown"),
            BetTier::Bronze => String::from_str("Bronze"),
            BetTier::Silver => String::from_str("Silver"),
            BetTier::Gold => String::from_str("Gold"),
            BetTier::Diamond => String::from_str("Diamond"),
        }
    }

    /// Reads a tier code and tells a code that names no tier apart from a
    /// reported `Unknown`.
    pub fn decode(code: u8) -> (r: Option<BetTier>)
        ensures
            r == tier_of_code(code),
    {
        match code {
            0 => Some(BetTier::Unknown),
            1 => Some(BetTier::Bronze),
            2 => Some(BetTier::Silver),
            3 => Some(BetTier::Gold),
            4 => Some(BetTier::Diamond),
            _ => None,
        }
    }
}

impl From<u8> for BetTier {
    /// The tier of a code; a code that names none counts as `Unknown`.
    fn from(value: u8) -> (r: Self) {
        match BetTier::decode(value) {
            Some(tier) => tier,
            None => BetTier::Unknown,
        }
    }
}

impl FromSpecImpl<u8> for BetTier {
    open spec fn obeys_from_spec() -> bool {
        true
    }

    open spec fn from_spec(value: u8) -> Self {
        match tier_of_code(value) {
            Some(tier) => tier,
            None => BetTier::Unknown,
        }
    }
}

impl From<u8> for BetStatus {
    /// The status of a code; a code that names none counts as `Unknown`.
    fn from(value: u8) -> (r: Self) {
        match BetStatus::decode(value) {
            Some(status) => status,
            None => BetStatus::Unknown,
        }
    }
}

impl FromSpecImpl<u8> for BetStatus {
    open spec fn obeys_from_spec() -> bool {
        true
    }

    open spec fn from_spec(value: u8) -> Self {
        match status_of_code(value) {
            Some(status) => status,
            None => BetStatus::Unknown,
        }
    }
}

/// A gameplay session, which may be linked to a wager.
#[derive(Clone, Debug)]
pub struct MatchRecord {
    pub id: i32,
    pub wallet_id: Option<String>,
    pub start_time: Option<i64>,
    pub end_time: Option<i64>,
    pub play_data: Option<String>,
    pub player_point: Option<i32>,
    pub status: Option<MatchStatus>,
}

/// The off-chain mirror of one wager.
#[derive(Clone, Debug)]
pub struct BetRecord {
    /// Assigned by the contract; never rewritten once a row exists.
    pub id: i64,
    /// The linked session; 0 where there is none.
    pub match_id: i64,
    pub requester_address: String,
    pub receiver_address: String,
    pub bet_tier: Option<BetTier>,
    /// The amount in whole tokens, as a decimal numeral.
    pub bet_amount: String,
    pub dead_line: i64,
    pub timestamp: i64,
    pub status: Option<BetStatus>,
}

/// What a `BetRecord` holds, as mathematical values.
pub struct BetRow {
    pub id: int,
    pub match_id: int,
    pub requester_address: Seq<char>,
    pub receiver_address: Seq<char>,
    pub bet_tier: Option<BetTier>,
    pub bet_amount: Seq<char>,
    pub dead_line: int,
    pub timestamp: int,
    pub status: Option<BetStatus>,
}

impl View for BetRecord {
    type V = BetRow;

    open spec fn view(&self) -> BetRow {
        BetRow {
            id: self.id as int,
            match_id: self.match_id as int,
            requester_address: self.requester_address@,
            receiver_address: self.receiver_address@,
            bet_tier: self.bet_tier,
            bet_amount: self.bet_amount@,
            dead_line: self.dead_line as int,
            timestamp: self.timestamp as int,
            status: self.status,
        }
    }
}

} // verus!
