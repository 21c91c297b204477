//! The state of all events and indexes as mathematical values, and what each
//! operation does to it.
use vstd::prelude::*;
use vstd::utf8::encode_utf8;

use crate::error::ContractError;
use crate::index::{items_of, with_item, without_item};
use crate::status::status_at;
use crate::types::{
    EventId, EventPrize, EventStatus, EventView, PrizeType, PrizeView, TimestampMs,
    MAX_EVENT_PRIZES, MIN_NEAR_PRIZE_AMOUNT,
};
use crate::utils::random_number_of;

verus! {

/// How far ahead a window starts when none is given: one hour.
pub const DEFAULT_START_DELAY_MS: u64 = 3_600_000;

/// How far ahead a window ends when none is given: one day.
pub const DEFAULT_END_DELAY_MS: u64 = 86_400_000;

pub const MIN_TITLE_LEN: usize = 4;

pub const MAX_TITLE_LEN: usize = 64;

/// Every event, by position `id - 1`, and the three indexes.
pub struct ContractView {
    pub next_event_id: EventId,
    pub events: Seq<EventView>,
    pub events_by_owner: Map<Seq<char>, Seq<EventId>>,
    pub events_by_participant: Map<Seq<char>, Seq<EventId>>,
    pub unclaimed_prizes_by_account: Map<Seq<char>, Seq<EventPrize>>,
}

impl EventView {
    pub open spec fn status(self, now: TimestampMs) -> EventStatus {
        status_at(self.is_visible, self.raffled, self.started_at as int, self.ended_at as int, now as int)
    }
}

/// Every set of `m` holds each item once.
pub open spec fn sets_unique<T>(m: Map<Seq<char>, Seq<T>>) -> bool {
    forall|k: Seq<char>| #[trigger] m.contains_key(k) ==> m[k].no_duplicates()
}

/// Every id in `m` names an event below `next`.
pub open spec fn ids_below(m: Map<Seq<char>, Seq<EventId>>, next: EventId) -> bool {
    forall|k: Seq<char>, j: int|
        m.contains_key(k) && 0 <= j < m[k].len() ==> 1 <= #[trigger] m[k][j] < next
}

/// A well-formed event. Only a published event is raffled, and before the
/// raffle no prize has a winner or is claimed.
pub open spec fn event_valid(e: EventView) -> bool {
    &&& e.prizes.len() <= MAX_EVENT_PRIZES
    &&& e.participants.no_duplicates()
    &&& !e.participants.contains(e.owner_id)
    &&& e.raffled ==> e.is_visible
    &&& !e.raffled ==> forall|k: int| 0 <= k < e.prizes.len() ==> (#[trigger] e.prizes[k]).winner is None
        && !e.prizes[k].claimed
}

/// `t` names a prize of a raffled event of `v` that `holder` won and has not claimed.
pub open spec fn ticket_held(v: ContractView, holder: Seq<char>, t: EventPrize) -> bool {
    &&& v.has_event(t.event_id)
    &&& v.event(t.event_id).raffled
    &&& t.prize_index < v.event(t.event_id).prizes.len()
    &&& v.event(t.event_id).prizes[t.prize_index as int].winner == Some(holder)
    &&& !v.event(t.event_id).prizes[t.prize_index as int].claimed
}

/// Every ticket of the unclaimed-prize index is held by the winner of an unclaimed prize.
pub open spec fn tickets_held(v: ContractView) -> bool {
    let m = v.unclaimed_prizes_by_account;
    forall|a: Seq<char>, j: int| m.contains_key(a) && 0 <= j < m[a].len() ==> ticket_held(v, a, #[trigger] m[a][j])
}

/// The owner index lists every event under its owner, and nothing else.
pub open spec fn owners_indexed(v: ContractView) -> bool {
    let m = v.events_by_owner;
    &&& forall|a: Seq<char>, j: int|
        m.contains_key(a) && 0 <= j < m[a].len() ==> v.event(#[trigger] m[a][j]).owner_id == a
    &&& forall|i: int|
        0 <= i < v.events.len() ==> items_of(m, (#[trigger] v.events[i]).owner_id).contains((i + 1) as u64)
}

/// The participant index lists every event under each of its participants, and nothing else.
pub open spec fn participants_indexed(v: ContractView) -> bool {
    let m = v.events_by_participant;
    &&& forall|a: Seq<char>, j: int|
        m.contains_key(a) && 0 <= j < m[a].len() ==> v.event(#[trigger] m[a][j]).participants.contains(a)
    &&& forall|i: int, p: int|
        0 <= i < v.events.len() && 0 <= p < v.events[i].participants.len() ==> items_of(
            m,
            #[trigger] v.events[i].participants[p],
        ).contains((i + 1) as u64)
}

/// Every prize of a raffled event has a winner, and while it is unclaimed
/// the winner holds its ticket.
pub open spec fn prizes_ticketed(v: ContractView) -> bool {
    forall|i: int, k: int|
        0 <= i < v.events.len() && 0 <= k < v.events[i].prizes.len() && v.events[i].raffled ==> {
            &&& (#[trigger] v.events[i].prizes[k]).winner is Some
            &&& !v.events[i].prizes[k].claimed ==> items_of(
                v.unclaimed_prizes_by_account,
                v.events[i].prizes[k].winner->Some_0,
            ).contains(EventPrize { event_id: (i + 1) as u64, prize_index: k as u64 })
        }
}

impl ContractView {
    pub open spec fn has_event(self, id: EventId) -> bool {
        1 <= id && id <= self.events.len()
    }

    pub open spec fn event(self, id: EventId) -> EventView {
        self.events[id - 1]
    }

    /// The state with `e` stored in place of the event of its id.
    pub open spec fn with_event(self, e: EventView) -> ContractView {
        ContractView { events: self.events.update(e.id - 1, e), ..self }
    }

    /// Ids are handed out from 1 in order; every event and index is well
    /// formed; and the three indexes agree with the events.
    pub open spec fn valid(self) -> bool {
        &&& self.next_event_id == self.events.len() + 1
        &&& forall|i: int| 0 <= i < self.events.len() ==> (#[trigger] self.events[i]).id == i + 1
        &&& forall|i: int| 0 <= i < self.events.len() ==> event_valid(#[trigger] self.events[i])
        &&& sets_unique(self.events_by_owner)
        &&& sets_unique(self.events_by_participant)
        &&& sets_unique(self.unclaimed_prizes_by_account)
        &&& ids_below(self.events_by_owner, self.next_event_id)
        &&& ids_below(self.events_by_participant, self.next_event_id)
        &&& tickets_held(self)
        &&& owners_indexed(self)
        &&& participants_indexed(self)
        &&& prizes_ticketed(self)
    }
}

/// A result together with the state after the call.
pub open spec fn outcome<T>(r: Result<T, ContractError>, v: ContractView) -> Result<(ContractView, T), ContractError> {
    match r {
        Ok(x) => Ok((v, x)),
        Err(e) => Err(e),
    }
}

pub open spec fn saturating_sum(a: u64, b: u64) -> u64 {
    if a + b > u64::MAX {
        u64::MAX
    } else {
        (a + b) as u64
    }
}

/// The window asked for, or by default one that begins in an hour and ends in a day.
pub open spec fn window(now: TimestampMs, start: Option<TimestampMs>, end: Option<TimestampMs>) -> (TimestampMs, TimestampMs) {
    match (start, end) {
        (Some(s), Some(e)) => (s, e),
        _ => (saturating_sum(now, DEFAULT_START_DELAY_MS), saturating_sum(now, DEFAULT_END_DELAY_MS)),
    }
}

/// The title's length in bytes is within bounds.
pub open spec fn title_fits(title: Seq<char>) -> bool {
    MIN_TITLE_LEN <= encode_utf8(title).len() <= MAX_TITLE_LEN
}

/// A fresh event: unpublished, not raffled, no prizes and no participants.
pub open spec fn new_event(
    id: EventId,
    owner: Seq<char>,
    title: Seq<char>,
    started_at: TimestampMs,
    ended_at: TimestampMs,
) -> EventView {
    EventView {
        id,
        owner_id: owner,
        title,
        is_visible: false,
        started_at,
        ended_at,
        raffled: false,
        participants: Seq::empty(),
        prizes: Seq::empty(),
    }
}

pub open spec fn add_event_spec(
    v: ContractView,
    caller: Seq<char>,
    now: TimestampMs,
    title: Seq<char>,
    start: Option<TimestampMs>,
    end: Option<TimestampMs>,
) -> Result<(ContractView, EventId), ContractError> {
    let (s, e) = window(now, start, end);
    if !title_fits(title) {
        Err(ContractError::InvalidTitleLength)
    } else if start.is_some() != end.is_some() {
        Err(ContractError::PartialTimeRange)
    } else if !(s < e) {
        Err(ContractError::EndNotAfterStart)
    } else if !(now < s) {
        Err(ContractError::StartInPast)
    } else {
        let id = v.next_event_id;
        Ok(
            (
                ContractView {
                    next_event_id: (id + 1) as u64,
                    events: v.events.push(new_event(id, caller, title, s, e)),
                    events_by_owner: v.events_by_owner.insert(
                        caller,
                        with_item(items_of(v.events_by_owner, caller), id),
                    ),
                    ..v
                },
                id,
            ),
        )
    }
}

/// The checks of the owner's operations, in order: the event exists, the
/// caller owns it, and it is in status `required`.
pub open spec fn owner_gate(
    v: ContractView,
    caller: Seq<char>,
    now: TimestampMs,
    id: EventId,
    required: EventStatus,
) -> Option<ContractError> {
    if !v.has_event(id) {
        Some(ContractError::EventNotFound)
    } else if v.event(id).owner_id != caller {
        Some(ContractError::NotOwner)
    } else if v.event(id).status(now) != required {
        Some(ContractError::WrongStatus { required })
    } else {
        None
    }
}

pub open spec fn set_event_time_spec(
    v: ContractView,
    caller: Seq<char>,
    now: TimestampMs,
    id: EventId,
    start: TimestampMs,
    end: TimestampMs,
) -> Result<(ContractView, ()), ContractError> {
    match owner_gate(v, caller, now, id, EventStatus::Configuration) {
        Some(e) => Err(e),
        None => if !(start < end) {
            Err(ContractError::EndNotAfterStart)
        } else if !(now < start) {
            Err(ContractError::StartInPast)
        } else {
            Ok((v.with_event(EventView { started_at: start, ended_at: end, ..v.event(id) }), ()))
        },
    }
}

pub open spec fn set_event_visible_spec(
    v: ContractView,
    caller: Seq<char>,
    now: TimestampMs,
    id: EventId,
) -> Result<(ContractView, ()), ContractError> {
    match owner_gate(v, caller, now, id, EventStatus::Configuration) {
        Some(e) => Err(e),
        None => if v.event(id).prizes.len() == 0 {
            Err(ContractError::NoPrizes)
        } else {
            Ok((v.with_event(EventView { is_visible: true, ..v.event(id) }), ()))
        },
    }
}

/// A prize of `amount` that nobody has won yet.
pub open spec fn fresh_prize(amount: u128) -> PrizeView {
    PrizeView { prize_type: PrizeType::NEAR { amount }, winner: None, claimed: false }
}

pub open spec fn add_near_prize_spec(
    v: ContractView,
    caller: Seq<char>,
    now: TimestampMs,
    id: EventId,
    amount: u128,
) -> Result<(ContractView, ()), ContractError> {
    match owner_gate(v, caller, now, id, EventStatus::Configuration) {
        Some(e) => Err(e),
        None => if v.event(id).prizes.len() >= MAX_EVENT_PRIZES {
            Err(ContractError::TooManyPrizes)
        } else if amount < MIN_NEAR_PRIZE_AMOUNT {
            Err(ContractError::PrizeAmountTooSmall)
        } else {
            Ok((v.with_event(EventView { prizes: v.event(id).prizes.push(fresh_prize(amount)), ..v.event(id) }), ()))
        },
    }
}

pub open spec fn join_event_spec(
    v: ContractView,
    caller: Seq<char>,
    now: TimestampMs,
    id: EventId,
) -> Result<(ContractView, ()), ContractError> {
    if !v.has_event(id) {
        Err(ContractError::EventNotFound)
    } else if v.event(id).owner_id == caller {
        Err(ContractError::OwnerCannotParticipate)
    } else if v.event(id).status(now) != EventStatus::Active {
        Err(ContractError::WrongStatus { required: EventStatus::Active })
    } else if v.event(id).participants.contains(caller) {
        Err(ContractError::AlreadyParticipating)
    } else {
        let e = v.event(id);
        Ok(
            (
                ContractView {
                    events: v.events.update(id - 1, EventView { participants: e.participants.push(caller), ..e }),
                    events_by_participant: v.events_by_participant.insert(
                        caller,
                        with_item(items_of(v.events_by_participant, caller), id),
                    ),
                    ..v
                },
                (),
            ),
        )
    }
}

/// The participant drawn for prize `i`: the draw for `i` modulo the number
/// of participants picks one in the order they joined. Draws are made with
/// replacement, so one participant may win several prizes of an event.
pub open spec fn winner_of(e: EventView, seed: Seq<u8>, i: int) -> Seq<char> {
    e.participants[(random_number_of(seed, i as u32) as int) % (e.participants.len() as int)]
}

/// The prizes of `e` with their winners written in.
pub open spec fn prizes_with_winners(e: EventView, seed: Seq<u8>) -> Seq<PrizeView> {
    Seq::new(e.prizes.len(), |i: int| PrizeView { winner: Some(winner_of(e, seed, i)), ..e.prizes[i] })
}

/// The tickets of the first `n` prizes of event `id`.
pub open spec fn tickets_of(id: EventId, n: nat) -> Seq<EventPrize> {
    Seq::new(n, |i: int| EventPrize { event_id: id, prize_index: i as u64 })
}

/// The unclaimed-prize index after the tickets of the first `n` prizes of `e`
/// went to their winners, in order.
pub open spec fn record_wins(
    m: Map<Seq<char>, Seq<EventPrize>>,
    e: EventView,
    seed: Seq<u8>,
    n: nat,
) -> Map<Seq<char>, Seq<EventPrize>>
    decreases n,
{
    if n == 0 {
        m
    } else {
        let prev = record_wins(m, e, seed, (n - 1) as nat);
        let w = winner_of(e, seed, n - 1);
        prev.insert(w, with_item(items_of(prev, w), EventPrize { event_id: e.id, prize_index: (n - 1) as u64 }))
    }
}

pub open spec fn raffle_spec(
    v: ContractView,
    caller: Seq<char>,
    now: TimestampMs,
    id: EventId,
    seed: Seq<u8>,
) -> Result<(ContractView, Seq<EventPrize>), ContractError> {
    match owner_gate(v, caller, now, id, EventStatus::Raffling) {
        Some(e) => Err(e),
        None => if v.event(id).participants.len() == 0 {
            Err(ContractError::NoParticipants)
        } else {
            let e = v.event(id);
            Ok(
                (
                    ContractView {
                        events: v.events.update(
                            id - 1,
                            EventView { prizes: prizes_with_winners(e, seed), raffled: true, ..e },
                        ),
                        unclaimed_prizes_by_account: record_wins(
                            v.unclaimed_prizes_by_account,
                            e,
                            seed,
                            e.prizes.len(),
                        ),
                        ..v
                    },
                    tickets_of(id, e.prizes.len()),
                ),
            )
        },
    }
}

pub open spec fn claim_spec(
    v: ContractView,
    caller: Seq<char>,
    now: TimestampMs,
    ticket: EventPrize,
) -> Result<(ContractView, u128), ContractError> {
    let id = ticket.event_id;
    let k = ticket.prize_index;
    if !items_of(v.unclaimed_prizes_by_account, caller).contains(ticket) {
        Err(ContractError::TicketNotFound)
    } else if !v.has_event(id) {
        Err(ContractError::EventNotFound)
    } else if v.event(id).status(now) != EventStatus::Claiming {
        Err(ContractError::WrongStatus { required: EventStatus::Claiming })
    } else if k >= v.event(id).prizes.len() {
        Err(ContractError::TicketNotFound)
    } else {
        let e = v.event(id);
        let p = e.prizes[k as int];
        Ok(
            (
                ContractView {
                    events: v.events.update(
                        id - 1,
                        EventView { prizes: e.prizes.update(k as int, PrizeView { claimed: true, ..p }), ..e },
                    ),
                    unclaimed_prizes_by_account: v.unclaimed_prizes_by_account.insert(
                        caller,
                        without_item(v.unclaimed_prizes_by_account[caller], ticket),
                    ),
                    ..v
                },
                p.prize_type.spec_amount(),
            ),
        )
    }
}

} // verus!
