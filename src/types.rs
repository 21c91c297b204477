use vstd::prelude::*;

verus! {

/// Milliseconds since the epoch.
pub type TimestampMs = u64;

pub type EventId = u64;

/// The identity of an account, compared by its text.
pub type AccountId = String;

/// Smallest amount a prize may carry: 0.1 NEAR in yoctoNEAR.
pub const MIN_NEAR_PRIZE_AMOUNT: u128 = 100_000_000_000_000_000_000_000;

/// Most prizes one event may carry.
pub const MAX_EVENT_PRIZES: usize = 5;

/// The lifecycle stage of an event, derived from its flags, its time window
/// and the current time.
#[derive(Debug, Clone, Copy, PartialEq, Eq, Structural)]
pub enum EventStatus {
    /// The owner can still change the event.
    Configuration,
    /// Published, not started yet.
    Visible,
    /// Open for joining.
    Active,
    /// Ended, waiting for the owner to raffle the prizes.
    Raffling,
    /// Raffled: winners can claim their prizes.
    Claiming,
}

impl EventStatus {
    /// The name of the status.
    pub fn name(&self) -> (r: &'static str)
        ensures
            r@ == self.spec_name(),
    {
        match self {
            EventStatus::Configuration => "Configuration",
            EventStatus::Visible => "Visible",
            EventStatus::Active => "Active",
            EventStatus::Raffling => "Raffling",
            EventStatus::Claiming => "Claiming",
        }
    }

    pub open spec fn spec_name(&self) -> Seq<char> {
        match self {
            EventStatus::Configuration => "Configuration"@,
            EventStatus::Visible => "Visible"@,
            EventStatus::Active => "Active"@,
            EventStatus::Raffling => "Raffling"@,
            EventStatus::Claiming => "Claiming"@,
        }
    }
}

/// A claim ticket: one prize of one event, named by its position.
#[derive(Debug, Clone, Copy, PartialEq, Eq, Structural, Hash)]
pub struct EventPrize {
    pub event_id: EventId,
    pub prize_index: u64,
}

/// What a prize pays out. Stored data stays readable when kinds are added.
#[derive(Debug, Clone, Copy, PartialEq, Eq, Structural)]
pub enum PrizeType {
    /// An amount of NEAR, in yoctoNEAR.
    NEAR { amount: u128 },
}

impl PrizeType {
    pub open spec fn spec_amount(self) -> u128 {
        match self {
            PrizeType::NEAR { amount } => amount,
        }
    }

    /// The value the prize pays out.
    pub fn amount(&self) -> (r: u128)
        ensures
            r == self.spec_amount(),
    {
        match self {
            PrizeType::NEAR { amount } => *amount,
        }
    }
}

/// One prize of an event.
#[derive(Debug, Clone)]
pub struct Prize {
    pub prize_type: PrizeType,
    pub winner_account_id: Option<AccountId>,
    pub claimed: bool,
}

/// What a prize holds, with account identities as text.
pub struct PrizeView {
    pub prize_type: PrizeType,
    pub winner: Option<Seq<char>>,
    pub claimed: bool,
}

pub open spec fn account_view(a: Option<AccountId>) -> Option<Seq<char>> {
    match a {
        Some(s) => Some(s@),
        None => None,
    }
}

impl View for Prize {
    type V = PrizeView;

    open spec fn view(&self) -> PrizeView {
        PrizeView {
            prize_type: self.prize_type,
            winner: account_view(self.winner_account_id),
            claimed: self.claimed,
        }
    }
}

impl Prize {
    /// A copy of the prize.
    pub fn duplicate(&self) -> (r: Prize)
        ensures
            r@ == self@,
    {
        let winner_account_id = match &self.winner_account_id {
            Some(w) => Some(w.clone()),
            None => None,
        };
        Prize { prize_type: self.prize_type, winner_account_id, claimed: self.claimed }
    }
}

/// An event as stored.
pub struct Event {
    pub id: EventId,
    pub owner_id: AccountId,
    pub title: String,
    pub is_visible: bool,
    pub started_at: TimestampMs,
    pub ended_at: TimestampMs,
    pub raffled: bool,
    /// In the order in which the accounts joined.
    pub participants: Vec<AccountId>,
    pub prizes: Vec<Prize>,
}

pub struct EventView {
    pub id: EventId,
    pub owner_id: Seq<char>,
    pub title: Seq<char>,
    pub is_visible: bool,
    pub started_at: TimestampMs,
    pub ended_at: TimestampMs,
    pub raffled: bool,
    pub participants: Seq<Seq<char>>,
    pub prizes: Seq<PrizeView>,
}

impl View for Event {
    type V = EventView;

    open spec fn view(&self) -> EventView {
        EventView {
            id: self.id,
            owner_id: self.owner_id@,
            title: self.title@,
            is_visible: self.is_visible,
            started_at: self.started_at,
            ended_at: self.ended_at,
            raffled: self.raffled,
            participants: self.participants@.map_values(|a: AccountId| a@),
            prizes: self.prizes@.map_values(|p: Prize| p@),
        }
    }
}

/// An event as shown to readers: its status at the time of reading and the
/// number of participants, without their identities.
#[derive(Debug)]
pub struct JsonEvent {
    pub id: EventId,
    pub owner_id: AccountId,
    pub title: String,
    pub started_at: TimestampMs,
    pub ended_at: TimestampMs,
    pub status: EventStatus,
    pub prizes: Vec<Prize>,
    pub participants_amount: u64,
}

pub struct JsonEventView {
    pub id: EventId,
    pub owner_id: Seq<char>,
    pub title: Seq<char>,
    pub started_at: TimestampMs,
    pub ended_at: TimestampMs,
    pub status: EventStatus,
    pub prizes: Seq<PrizeView>,
    pub participants_amount: u64,
}

impl View for JsonEvent {
    type V = JsonEventView;

    open spec fn view(&self) -> JsonEventView {
        JsonEventView {
            id: self.id,
            owner_id: self.owner_id@,
            title: self.title@,
            started_at: self.started_at,
            ended_at: self.ended_at,
            status: self.status,
            prizes: self.prizes@.map_values(|p: Prize| p@),
            participants_amount: self.participants_amount,
        }
    }
}

/// A page request: pages count from 1.
#[derive(Debug, Clone, Copy, PartialEq, Eq, Structural)]
pub struct Pagination {
    pub page: u64,
    pub limit: u64,
}

} // verus!
