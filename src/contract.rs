use vstd::prelude::*;

use crate::error::ContractError;
use crate::index::{items_of, with_item, without_item, Index};
use crate::invariants::{
    lemma_add_event_valid, lemma_add_near_prize_valid, lemma_claim_valid, lemma_join_event_valid,
    lemma_raffle_valid, lemma_set_event_time_valid, lemma_set_event_visible_valid,
};
use crate::model::{
    add_event_spec, add_near_prize_spec, claim_spec, event_valid, fresh_prize, join_event_spec,
    new_event, outcome, owner_gate, prizes_with_winners, raffle_spec, record_wins,
    set_event_time_spec, set_event_visible_spec, tickets_of, winner_of, ContractView,
    DEFAULT_END_DELAY_MS, DEFAULT_START_DELAY_MS, MAX_TITLE_LEN, MIN_TITLE_LEN,
};
use crate::status::{assert_event_owner, assert_event_status};
use crate::types::{
    AccountId, Event, EventId, EventPrize, EventStatus, EventView, Prize, PrizeType, PrizeView,
    TimestampMs, MAX_EVENT_PRIZES, MIN_NEAR_PRIZE_AMOUNT,
};
use crate::utils::get_random_number;

verus! {

/// All events, with the indexes by owner, by participant and of the prizes
/// each account has won and not yet claimed.
pub struct Contract {
    pub(crate) next_event_id: EventId,
    pub(crate) events: Vec<Event>,
    pub(crate) events_by_owner: Index<EventId>,
    pub(crate) events_by_participant: Index<EventId>,
    pub(crate) unclaimed_prizes_by_account: Index<EventPrize>,
}

impl View for Contract {
    type V = ContractView;

    closed spec fn view(&self) -> ContractView {
        ContractView {
            next_event_id: self.next_event_id,
            events: self.events@.map_values(|e: Event| e@),
            events_by_owner: self.events_by_owner.view(),
            events_by_participant: self.events_by_participant.view(),
            unclaimed_prizes_by_account: self.unclaimed_prizes_by_account.view(),
        }
    }
}

/// A raffle's result, with the tickets as a sequence.
pub open spec fn tickets_view(r: Result<Vec<EventPrize>, ContractError>) -> Result<Seq<EventPrize>, ContractError> {
    match r {
        Ok(t) => Ok(t@),
        Err(e) => Err(e),
    }
}

impl Contract {
    pub closed spec fn wf(&self) -> bool {
        &&& self@.valid()
        &&& self.events_by_owner.wf()
        &&& self.events_by_participant.wf()
        &&& self.unclaimed_prizes_by_account.wf()
    }

    /// A well-formed state holds valid views.
    pub proof fn lemma_valid(&self)
        requires
            self.wf(),
        ensures
            self@.valid(),
    {
    }

    /// What well-formedness and the view say of the fields.
    pub(crate) proof fn lemma_parts(&self)
        requires
            self.wf(),
        ensures
            self@.valid(),
            self.events_by_owner.wf(),
            self.events_by_participant.wf(),
            self.unclaimed_prizes_by_account.wf(),
            self@.events_by_owner == self.events_by_owner.view(),
            self@.events_by_participant == self.events_by_participant.view(),
            self@.unclaimed_prizes_by_account == self.unclaimed_prizes_by_account.view(),
            self@.events.len() == self.events@.len(),
            forall|i: int| 0 <= i < self.events@.len() ==> self@.events[i] == (#[trigger] self.events@[i])@,
    {
    }

    /// No events and empty indexes; the first id handed out is 1.
    pub fn new() -> (r: Contract)
        ensures
            r.wf(),
            r@.next_event_id == 1,
            r@.events == Seq::<EventView>::empty(),
            r@.events_by_owner == Map::<Seq<char>, Seq<EventId>>::empty(),
            r@.events_by_participant == Map::<Seq<char>, Seq<EventId>>::empty(),
            r@.unclaimed_prizes_by_account == Map::<Seq<char>, Seq<EventPrize>>::empty(),
    {
        let r = Contract {
            next_event_id: 1,
            events: Vec::new(),
            events_by_owner: Index::new(),
            events_by_participant: Index::new(),
            unclaimed_prizes_by_account: Index::new(),
        };
        assert(r@.events =~= Seq::<EventView>::empty());
        r
    }

    /// Where the event `id` is stored, if it exists.
    pub(crate) fn position(&self, id: EventId) -> (r: Option<usize>)
        requires
            self.wf(),
        ensures
            r is Some == self@.has_event(id),
            r matches Some(i) ==> i == id - 1 && i < self.events@.len() && self.events@[i as int]@ == self@.event(id),
    {
        let n = self.events.len();
        if id >= 1 && id < self.next_event_id {
            proof {
                assert(self@.events.len() == self.events@.len());
                assert(id - 1 < n);
                assert(self@.events[id - 1] == self.events@[id - 1]@);
            }
            Some((id - 1) as usize)
        } else {
            None
        }
    }

    /// Creates an event owned by `caller` and returns its id. Without a time
    /// window the event begins in an hour and ends in a day.
    pub fn add_event(
        &mut self,
        caller: &AccountId,
        now: TimestampMs,
        title: String,
        start_time: Option<TimestampMs>,
        end_time: Option<TimestampMs>,
    ) -> (r: Result<EventId, ContractError>)
        requires
            old(self).wf(),
            old(self)@.next_event_id < u64::MAX,
        ensures
            final(self).wf(),
            r is Err ==> final(self)@ == old(self)@,
            outcome(r, final(self)@) == add_event_spec(old(self)@, caller@, now, title@, start_time, end_time),
    {
        let len = title.as_str().as_bytes().len();
        if !(MIN_TITLE_LEN <= len && len <= MAX_TITLE_LEN) {
            return Err(ContractError::InvalidTitleLength);
        }
        if start_time.is_some() != end_time.is_some() {
            return Err(ContractError::PartialTimeRange);
        }
        let (start, end) = match (start_time, end_time) {
            (Some(s), Some(e)) => (s, e),
            _ => (now.saturating_add(DEFAULT_START_DELAY_MS), now.saturating_add(DEFAULT_END_DELAY_MS)),
        };
        if !(start < end) {
            return Err(ContractError::EndNotAfterStart);
        }
        if !(now < start) {
            return Err(ContractError::StartInPast);
        }
        let ghost before = self@;
        let id = self.next_event_id;
        let event = Event {
            id,
            owner_id: caller.clone(),
            title,
            is_visible: false,
            started_at: start,
            ended_at: end,
            raffled: false,
            participants: Vec::new(),
            prizes: Vec::new(),
        };
        proof {
            assert(event@.participants =~= Seq::<Seq<char>>::empty());
            assert(event@.prizes =~= Seq::<crate::types::PrizeView>::empty());
        }
        self.events.push(event);
        self.next_event_id = id + 1;
        self.events_by_owner.insert(caller, id);
        proof {
            assert(self@.events =~= before.events.push(new_event(id, caller@, title@, start, end)));
            lemma_add_event_valid(before, caller@, now, title@, start_time, end_time);
        }
        Ok(id)
    }

    /// The id the next created event gets.
    pub fn next_event_id(&self) -> (r: EventId)
        ensures
            r == self@.next_event_id,
    {
        self.next_event_id
    }

    /// The stored event `id`.
    pub fn internal_get_event(&self, id: EventId) -> (r: Result<&Event, ContractError>)
        requires
            self.wf(),
        ensures
            r is Ok == self@.has_event(id),
            r matches Ok(e) ==> e@ == self@.event(id),
            r matches Err(e) ==> e == ContractError::EventNotFound,
    {
        match self.position(id) {
            None => Err(ContractError::EventNotFound),
            Some(i) => Ok(&self.events[i]),
        }
    }

    /// The checks of the owner's operations; on success, where the event is stored.
    fn owner_gate(&self, caller: &AccountId, now: TimestampMs, id: EventId, required: EventStatus) -> (r: Result<usize, ContractError>)
        requires
            self.wf(),
        ensures
            r is Ok <==> owner_gate(self@, caller@, now, id, required) is None,
            r matches Err(e) ==> owner_gate(self@, caller@, now, id, required) == Some(e),
            r matches Ok(i) ==> i == id - 1 && i < self.events@.len() && self.events@[i as int]@ == self@.event(id),
    {
        match self.position(id) {
            None => Err(ContractError::EventNotFound),
            Some(i) => {
                assert_event_owner(&self.events[i], caller)?;
                assert_event_status(&self.events[i], required, now)?;
                Ok(i)
            },
        }
    }

    /// Sets the time window of an event that is still being configured.
    pub fn set_event_time(
        &mut self,
        caller: &AccountId,
        now: TimestampMs,
        event_id: EventId,
        start_time: TimestampMs,
        end_time: TimestampMs,
    ) -> (r: Result<(), ContractError>)
        requires
            old(self).wf(),
        ensures
            final(self).wf(),
            r is Err ==> final(self)@ == old(self)@,
            outcome(r, final(self)@) == set_event_time_spec(old(self)@, caller@, now, event_id, start_time, end_time),
    {
        let i = match self.owner_gate(caller, now, event_id, EventStatus::Configuration) {
            Err(e) => return Err(e),
            Ok(i) => i,
        };
        if !(start_time < end_time) {
            return Err(ContractError::EndNotAfterStart);
        }
        if !(now < start_time) {
            return Err(ContractError::StartInPast);
        }
        let ghost before = self@;
        let ghost old_events = self.events@;
        self.events[i].started_at = start_time;
        self.events[i].ended_at = end_time;
        proof {
            let e = EventView { started_at: start_time, ended_at: end_time, ..before.event(event_id) };
            assert(self.events@[i as int]@ == e);
            lemma_events_update(old_events, self.events@, i as int);
            lemma_set_event_time_valid(before, caller@, now, event_id, start_time, end_time);
            assert(self@ == before.with_event(e));
        }
        Ok(())
    }

    /// Publishes an event that has at least one prize.
    pub fn set_event_visible(&mut self, caller: &AccountId, now: TimestampMs, event_id: EventId) -> (r: Result<(), ContractError>)
        requires
            old(self).wf(),
        ensures
            final(self).wf(),
            r is Err ==> final(self)@ == old(self)@,
            outcome(r, final(self)@) == set_event_visible_spec(old(self)@, caller@, now, event_id),
    {
        let i = match self.owner_gate(caller, now, event_id, EventStatus::Configuration) {
            Err(e) => return Err(e),
            Ok(i) => i,
        };
        proof {
            assert(self@.event(event_id).prizes.len() == self.events@[i as int].prizes@.len());
        }
        if self.events[i].prizes.len() == 0 {
            return Err(ContractError::NoPrizes);
        }
        let ghost before = self@;
        let ghost old_events = self.events@;
        self.events[i].is_visible = true;
        proof {
            let e = EventView { is_visible: true, ..before.event(event_id) };
            assert(self.events@[i as int]@ == e);
            lemma_events_update(old_events, self.events@, i as int);
            lemma_set_event_visible_valid(before, caller@, now, event_id);
            assert(self@ == before.with_event(e));
        }
        Ok(())
    }

    /// Appends a NEAR prize of `amount` to an event that is still being
    /// configured. The prize keeps its position from then on.
    pub fn add_near_prize(&mut self, caller: &AccountId, now: TimestampMs, event_id: EventId, amount: u128) -> (r: Result<(), ContractError>)
        requires
            old(self).wf(),
        ensures
            final(self).wf(),
            r is Err ==> final(self)@ == old(self)@,
            outcome(r, final(self)@) == add_near_prize_spec(old(self)@, caller@, now, event_id, amount),
    {
        let i = match self.owner_gate(caller, now, event_id, EventStatus::Configuration) {
            Err(e) => return Err(e),
            Ok(i) => i,
        };
        proof {
            assert(self@.event(event_id).prizes.len() == self.events@[i as int].prizes@.len());
        }
        if self.events[i].prizes.len() >= MAX_EVENT_PRIZES {
            return Err(ContractError::TooManyPrizes);
        }
        if amount < MIN_NEAR_PRIZE_AMOUNT {
            return Err(ContractError::PrizeAmountTooSmall);
        }
        let ghost before = self@;
        let ghost old_events = self.events@;
        let ghost old_prizes = self.events@[i as int].prizes@;
        let prize = Prize { prize_type: PrizeType::NEAR { amount }, winner_account_id: None, claimed: false };
        self.events[i].prizes.push(prize);
        proof {
            let e = EventView { prizes: before.event(event_id).prizes.push(fresh_prize(amount)), ..before.event(event_id) };
            assert(self.events@[i as int].prizes@ == old_prizes.push(prize));
            assert(self.events@[i as int]@.prizes =~= e.prizes);
            lemma_events_update(old_events, self.events@, i as int);
            lemma_add_near_prize_valid(before, caller@, now, event_id, amount);
            assert(self@ == before.with_event(e));
        }
        Ok(())
    }

    /// Adds `caller` to the participants of an active event that it does not own.
    pub fn join_event(&mut self, caller: &AccountId, now: TimestampMs, event_id: EventId) -> (r: Result<(), ContractError>)
        requires
            old(self).wf(),
        ensures
            final(self).wf(),
            r is Err ==> final(self)@ == old(self)@,
            outcome(r, final(self)@) == join_event_spec(old(self)@, caller@, now, event_id),
    {
        let i = match self.position(event_id) {
            None => return Err(ContractError::EventNotFound),
            Some(i) => i,
        };
        if self.events[i].owner_id == *caller {
            return Err(ContractError::OwnerCannotParticipate);
        }
        assert_event_status(&self.events[i], EventStatus::Active, now)?;
        if has_participant(&self.events[i], caller) {
            return Err(ContractError::AlreadyParticipating);
        }
        let ghost before = self@;
        let ghost old_events = self.events@;
        let ghost old_parts = self.events@[i as int].participants@;
        self.events[i].participants.push(caller.clone());
        self.events_by_participant.insert(caller, event_id);
        proof {
            let e0 = before.event(event_id);
            let e1 = EventView { participants: e0.participants.push(caller@), ..e0 };
            assert(self.events@[i as int].participants@ == old_parts.push(*caller));
            assert(self.events@[i as int]@.participants =~= e1.participants);
            assert(self.events@[i as int]@ == e1);
            lemma_events_update(old_events, self.events@, i as int);
            lemma_join_event_valid(before, caller@, now, event_id);
            assert(self@ == ContractView {
                events: before.events.update(event_id - 1, e1),
                events_by_participant: before.events_by_participant.insert(
                    caller@,
                    with_item(items_of(before.events_by_participant, caller@), event_id),
                ),
                ..before
            });
        }
        Ok(())
    }

    /// Draws a winner for every prize of an ended event, in the order of the
    /// prizes, and hands each winner a ticket. Each prize draws on its own
    /// number from `seed`, turned by the prize's position. Returns the tickets.
    pub fn raffle_event_prizes(
        &mut self,
        caller: &AccountId,
        now: TimestampMs,
        event_id: EventId,
        seed: &Vec<u8>,
    ) -> (r: Result<Vec<EventPrize>, ContractError>)
        requires
            old(self).wf(),
            seed@.len() >= 4,
        ensures
            final(self).wf(),
            r is Err ==> final(self)@ == old(self)@,
            outcome(tickets_view(r), final(self)@) == raffle_spec(old(self)@, caller@, now, event_id, seed@),
    {
        let i = match self.owner_gate(caller, now, event_id, EventStatus::Raffling) {
            Err(e) => return Err(e),
            Ok(i) => i,
        };
        let n = self.events[i].participants.len();
        proof {
            assert(self@.event(event_id).participants.len() == n);
        }
        if n == 0 {
            return Err(ContractError::NoParticipants);
        }
        let k = self.events[i].prizes.len();
        let ghost before = self@;
        let ghost e0 = before.event(event_id);
        let ghost old_events = self.events@;
        let ghost old_prizes = self.events@[i as int].prizes@;
        proof {
            assert(e0.prizes.len() == k);
            assert(e0.id == event_id);
            assert(k <= MAX_EVENT_PRIZES);
        }
        let mut tickets: Vec<EventPrize> = Vec::new();
        let mut j: usize = 0;
        while j < k
            invariant
                i == event_id - 1,
                0 < n,
                j <= k,
                k == old_prizes.len(),
                k <= MAX_EVENT_PRIZES,
                seed@.len() >= 4,
                e0 == before.event(event_id),
                e0.id == event_id,
                e0.prizes.len() == k,
                e0.participants.len() == n,
                old_events[i as int]@ == e0,
                old_prizes == old_events[i as int].prizes@,
                self.events@.len() == old_events.len(),
                i < old_events.len(),
                forall|m: int| 0 <= m < old_events.len() && m != i ==> self.events@[m] == old_events[m],
                self.events@[i as int] == (Event { prizes: self.events@[i as int].prizes, ..old_events[i as int] }),
                self.events@[i as int].prizes@.len() == k,
                forall|m: int| 0 <= m < j ==> (#[trigger] self.events@[i as int].prizes@[m])@ == prizes_with_winners(e0, seed@)[m],
                forall|m: int| j <= m < k ==> #[trigger] self.events@[i as int].prizes@[m] == old_prizes[m],
                self.unclaimed_prizes_by_account.wf(),
                self.unclaimed_prizes_by_account.view() == record_wins(before.unclaimed_prizes_by_account, e0, seed@, j as nat),
                tickets@ == tickets_of(event_id, j as nat),
                self.next_event_id == before.next_event_id,
                self.events_by_owner.wf(),
                self.events_by_owner.view() == before.events_by_owner,
                self.events_by_participant.wf(),
                self.events_by_participant.view() == before.events_by_participant,
            decreases k - j,
        {
            assert(self.events@[i as int]@.participants == e0.participants);
            let winner = get_random_event_participant_id(&self.events[i], seed, j as u32);
            assert(winner@ == winner_of(e0, seed@, j as int));
            let ghost prizes_before = self.events@[i as int].prizes@;
            let ghost events_before = self.events@;
            self.events[i].prizes[j].winner_account_id = Some(winner.clone());
            let ticket = EventPrize { event_id, prize_index: j as u64 };
            self.unclaimed_prizes_by_account.insert(&winner, ticket);
            tickets.push(ticket);
            proof {
                assert(self.events@[i as int].prizes@ == prizes_before.update(j as int, self.events@[i as int].prizes@[j as int]));
                assert(self.events@[i as int].prizes@[j as int]@ == prizes_with_winners(e0, seed@)[j as int]);
                assert forall|m: int| 0 <= m < j + 1 implies (#[trigger] self.events@[i as int].prizes@[m])@ == prizes_with_winners(e0, seed@)[m] by {
                    if m < j {
                        assert(self.events@[i as int].prizes@[m] == prizes_before[m]);
                    }
                }
                assert forall|m: int| j + 1 <= m < k implies #[trigger] self.events@[i as int].prizes@[m] == old_prizes[m] by {
                    assert(self.events@[i as int].prizes@[m] == prizes_before[m]);
                }
                assert forall|m: int| 0 <= m < old_events.len() && m != i implies self.events@[m] == old_events[m] by {
                    assert(self.events@[m] == events_before[m]);
                }
                assert(tickets@ =~= tickets_of(event_id, (j + 1) as nat));
            }
            j = j + 1;
        }
        let ghost events_before = self.events@;
        self.events[i].raffled = true;
        proof {
            let e1 = EventView { prizes: prizes_with_winners(e0, seed@), raffled: true, ..e0 };
            assert(self.events@[i as int]@.prizes =~= e1.prizes);
            assert(self.events@[i as int]@ == e1);
            assert forall|m: int| 0 <= m < old_events.len() && m != i implies self.events@[m] == old_events[m] by {
                assert(self.events@[m] == events_before[m]);
            }
            lemma_events_update(old_events, self.events@, i as int);
            lemma_raffle_valid(before, caller@, now, event_id, seed@);
            assert(self@ == ContractView {
                events: before.events.update(event_id - 1, e1),
                unclaimed_prizes_by_account: record_wins(before.unclaimed_prizes_by_account, e0, seed@, e0.prizes.len()),
                ..before
            });
        }
        Ok(tickets)
    }

    /// Claims a ticket that `caller` holds for a raffled event: marks the
    /// prize claimed, takes the ticket out of the caller's index, and returns
    /// the amount to pay the caller.
    pub fn claim_prize(&mut self, caller: &AccountId, now: TimestampMs, prize: EventPrize) -> (r: Result<u128, ContractError>)
        requires
            old(self).wf(),
        ensures
            final(self).wf(),
            r is Err ==> final(self)@ == old(self)@,
            outcome(r, final(self)@) == claim_spec(old(self)@, caller@, now, prize),
    {
        if !self.unclaimed_prizes_by_account.contains(caller, &prize) {
            return Err(ContractError::TicketNotFound);
        }
        let i = match self.position(prize.event_id) {
            None => return Err(ContractError::EventNotFound),
            Some(i) => i,
        };
        assert_event_status(&self.events[i], EventStatus::Claiming, now)?;
        let len = self.events[i].prizes.len();
        proof {
            assert(self@.event(prize.event_id).prizes.len() == len);
            assert(event_valid(self@.events[i as int]));
        }
        if prize.prize_index >= len as u64 {
            return Err(ContractError::TicketNotFound);
        }
        let ghost before = self@;
        let ghost old_events = self.events@;
        let ghost old_prizes = self.events@[i as int].prizes@;
        let k = prize.prize_index as usize;
        self.unclaimed_prizes_by_account.remove(caller, &prize);
        self.events[i].prizes[k].claimed = true;
        let amount = self.events[i].prizes[k].prize_type.amount();
        proof {
            let e0 = before.event(prize.event_id);
            let p0 = e0.prizes[k as int];
            let e1 = EventView { prizes: e0.prizes.update(k as int, PrizeView { claimed: true, ..p0 }), ..e0 };
            assert(old_prizes[k as int]@ == p0);
            assert(self.events@[i as int].prizes@ == old_prizes.update(k as int, self.events@[i as int].prizes@[k as int]));
            assert(self.events@[i as int]@.prizes =~= e1.prizes);
            assert(self.events@[i as int]@ == e1);
            lemma_events_update(old_events, self.events@, i as int);
            lemma_claim_valid(before, caller@, now, prize);
            assert(self@ == ContractView {
                events: before.events.update(prize.event_id - 1, e1),
                unclaimed_prizes_by_account: before.unclaimed_prizes_by_account.insert(
                    caller@,
                    without_item(before.unclaimed_prizes_by_account[caller@], prize),
                ),
                ..before
            });
        }
        Ok(amount)
    }
}

/// The participant of `event` drawn with the number that `seed` gives for
/// `shift`, among the participants in the order they joined.
pub fn get_random_event_participant_id(event: &Event, seed: &Vec<u8>, shift: u32) -> (r: AccountId)
    requires
        event@.participants.len() > 0,
        seed@.len() >= 4,
    ensures
        r@ == winner_of(event@, seed@, shift as int),
{
    let draw = get_random_number(seed, shift);
    let w = (draw as usize) % event.participants.len();
    proof {
        assert(event@.participants[w as int] == event.participants@[w as int]@);
    }
    event.participants[w].clone()
}

/// Whether `a` is among the participants of `e`.
fn has_participant(e: &Event, a: &AccountId) -> (r: bool)
    ensures
        r == e@.participants.contains(a@),
{
    let mut j: usize = 0;
    while j < e.participants.len()
        invariant
            j <= e.participants@.len(),
            forall|m: int| 0 <= m < j ==> e@.participants[m] != a@,
        decreases e.participants@.len() - j,
    {
        if e.participants[j] == *a {
            proof {
                assert(e@.participants[j as int] == a@);
            }
            return true;
        }
        j = j + 1;
    }
    false

}

/// Storing one changed event changes the view of that event alone.
proof fn lemma_events_update(old_events: Seq<Event>, new_events: Seq<Event>, i: int)
    requires
        0 <= i < old_events.len(),
        new_events.len() == old_events.len(),
        forall|j: int| 0 <= j < old_events.len() && j != i ==> new_events[j] == old_events[j],
    ensures
        new_events.map_values(|e: Event| e@) == old_events.map_values(|e: Event| e@).update(i, new_events[i]@),
{
    let a = new_events.map_values(|e: Event| e@);
    let b = old_events.map_values(|e: Event| e@).update(i, new_events[i]@);
    assert forall|j: int| 0 <= j < a.len() implies a[j] == b[j] by {
        if j != i {
            assert(new_events[j] == old_events[j]);
        }
    }
    assert(a =~= b);
}

} // verus!
