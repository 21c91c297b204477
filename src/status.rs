use vstd::prelude::*;

use crate::error::ContractError;
use crate::types::{AccountId, Event, EventStatus, TimestampMs};

verus! {

/// The status of an event with the given stored fields at time `now`.
pub open spec fn status_at(
    is_visible: bool,
    raffled: bool,
    started_at: int,
    ended_at: int,
    now: int,
) -> EventStatus {
    if !is_visible {
        EventStatus::Configuration
    } else if now < started_at {
        EventStatus::Visible
    } else if now < ended_at {
        EventStatus::Active
    } else if !raffled {
        EventStatus::Raffling
    } else {
        EventStatus::Claiming
    }
}

/// Derives the status from the stored flags and the time window.
pub fn derive_status(
    is_visible: bool,
    raffled: bool,
    started_at: TimestampMs,
    ended_at: TimestampMs,
    now: TimestampMs,
) -> (r: EventStatus)
    ensures
        r == status_at(is_visible, raffled, started_at as int, ended_at as int, now as int),
{
    if !is_visible {
        return EventStatus::Configuration;
    }
    if now < started_at {
        return EventStatus::Visible;
    }
    if started_at <= now && now < ended_at {
        return EventStatus::Active;
    }
    if !raffled {
        return EventStatus::Raffling;
    }
    EventStatus::Claiming
}

/// The status of `event` at time `now`.
pub fn get_event_status(event: &Event, now: TimestampMs) -> (r: EventStatus)
    ensures
        r == event@.status(now),
{
    derive_status(event.is_visible, event.raffled, event.started_at, event.ended_at, now)
}

/// Accepts `event` only in status `status` at time `now`.
pub fn assert_event_status(event: &Event, status: EventStatus, now: TimestampMs) -> (r: Result<(), ContractError>)
    ensures
        r is Ok <==> event@.status(now) == status,
        r matches Err(e) ==> e == (ContractError::WrongStatus { required: status }),
{
    if get_event_status(event, now) != status {
        return Err(ContractError::WrongStatus { required: status });
    }
    Ok(())
}

/// Accepts only the owner of `event` as `caller`.
pub fn assert_event_owner(event: &Event, caller: &AccountId) -> (r: Result<(), ContractError>)
    ensures
        r is Ok <==> event@.owner_id == caller@,
        r matches Err(e) ==> e == ContractError::NotOwner,
{
    if event.owner_id != *caller {
        return Err(ContractError::NotOwner);
    }
    Ok(())
}

} // verus!
