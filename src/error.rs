use vstd::prelude::*;

use crate::types::EventStatus;

verus! {

/// The group a rejection belongs to.
#[derive(Debug, Clone, Copy, PartialEq, Eq, Structural)]
pub enum ErrorKind {
    /// Malformed input.
    Validation,
    /// The event does not exist.
    NotFound,
    /// The caller is not the owner of the event.
    Authorization,
    /// The event is not in the status the operation needs.
    StatusMismatch,
    /// The request conflicts with the state of the event.
    State,
}

/// Why a call was rejected. A rejected call changes nothing.
#[derive(Debug, Clone, Copy, PartialEq, Eq, Structural)]
pub enum ContractError {
    /// The title is shorter than 4 or longer than 64 bytes.
    InvalidTitleLength,
    /// Only one end of the time window was given.
    PartialTimeRange,
    /// The window does not end after it starts.
    EndNotAfterStart,
    /// The window would start now or earlier.
    StartInPast,
    /// The event already has the most prizes it may have.
    TooManyPrizes,
    /// The prize is worth less than the minimum.
    PrizeAmountTooSmall,
    /// The event cannot be published without a prize.
    NoPrizes,
    EventNotFound,
    NotOwner,
    /// The event is not in the status `required`.
    WrongStatus { required: EventStatus },
    OwnerCannotParticipate,
    AlreadyParticipating,
    NoParticipants,
    /// The caller holds no such ticket: it was never won by the caller, or
    /// it was claimed already.
    TicketNotFound,
}

impl ContractError {
    pub open spec fn spec_kind(self) -> ErrorKind {
        match self {
            ContractError::InvalidTitleLength => ErrorKind::Validation,
            ContractError::PartialTimeRange => ErrorKind::Validation,
            ContractError::EndNotAfterStart => ErrorKind::Validation,
            ContractError::StartInPast => ErrorKind::Validation,
            ContractError::TooManyPrizes => ErrorKind::Validation,
            ContractError::PrizeAmountTooSmall => ErrorKind::Validation,
            ContractError::NoPrizes => ErrorKind::Validation,
            ContractError::EventNotFound => ErrorKind::NotFound,
            ContractError::NotOwner => ErrorKind::Authorization,
            ContractError::WrongStatus { .. } => ErrorKind::StatusMismatch,
            ContractError::OwnerCannotParticipate => ErrorKind::State,
            ContractError::AlreadyParticipating => ErrorKind::State,
            ContractError::NoParticipants => ErrorKind::State,
            ContractError::TicketNotFound => ErrorKind::State,
        }
    }

    pub fn kind(&self) -> (r: ErrorKind)
        ensures
            r == self.spec_kind(),
    {
        match self {
            ContractError::InvalidTitleLength => ErrorKind::Validation,
            ContractError::PartialTimeRange => ErrorKind::Validation,
            ContractError::EndNotAfterStart => ErrorKind::Validation,
            ContractError::StartInPast => ErrorKind::Validation,
            ContractError::TooManyPrizes => ErrorKind::Validation,
            ContractError::PrizeAmountTooSmall => ErrorKind::Validation,
            ContractError::NoPrizes => ErrorKind::Validation,
            ContractError::EventNotFound => ErrorKind::NotFound,
            ContractError::NotOwner => ErrorKind::Authorization,
            ContractError::WrongStatus { .. } => ErrorKind::StatusMismatch,
            ContractError::OwnerCannotParticipate => ErrorKind::State,
            ContractError::AlreadyParticipating => ErrorKind::State,
            ContractError::NoParticipants => ErrorKind::State,
            ContractError::TicketNotFound => ErrorKind::State,
        }
    }

    /// A sentence that tells a caller what went wrong.
    pub fn message(&self) -> &'static str {
        match self {
            ContractError::InvalidTitleLength => "'title' should be between 4 and 64 symbols",
            ContractError::PartialTimeRange => "Both 'start_time' and 'end_time' either must be present or absent",
            ContractError::EndNotAfterStart => "'end_time' must be bigger than 'start_time'",
            ContractError::StartInPast => "'start_time' couldn't be set to value in the past",
            ContractError::TooManyPrizes => "Event could have max 5 prizes",
            ContractError::PrizeAmountTooSmall => "Prize amount couldn't be less than 100000000000000000000000 yoctoNear",
            ContractError::NoPrizes => "Couldn't set event visible since there're no prizes",
            ContractError::EventNotFound => "Couldn't find event",
            ContractError::NotOwner => "This method can be accessed only by the owner",
            ContractError::WrongStatus { required } => match required {
                EventStatus::Configuration => "Event status isn't 'Configuration'",
                EventStatus::Visible => "Event status isn't 'Visible'",
                EventStatus::Active => "Event status isn't 'Active'",
                EventStatus::Raffling => "Event status isn't 'Raffling'",
                EventStatus::Claiming => "Event status isn't 'Claiming'",
            },
            ContractError::OwnerCannotParticipate => "Owner can't participate his own events",
            ContractError::AlreadyParticipating => "You're already participating in this event",
            ContractError::NoParticipants => "Event has no participants",
            ContractError::TicketNotFound => "Couldn't claim prize since it doesn't exist",
        }
    }
}

} // verus!
