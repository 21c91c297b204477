//! What readers see of events: one event, pages of an account's events and
//! tickets, and whether an account joined an event.
use vstd::prelude::*;

use crate::contract::Contract;
use crate::index::{items_of, page_of};
use crate::model::{ids_below, ContractView};
use crate::status::get_event_status;
use crate::types::{
    AccountId, Event, EventId, EventPrize, EventView, JsonEvent, JsonEventView, Pagination, Prize,
    TimestampMs,
};
use crate::utils::{clamped_limit, requested, skip_of, unwrap_pagination, valid_pagination};

verus! {

/// What a reader sees of event `e` at time `now`.
pub open spec fn json_of(e: EventView, now: TimestampMs) -> JsonEventView {
    JsonEventView {
        id: e.id,
        owner_id: e.owner_id,
        title: e.title,
        started_at: e.started_at,
        ended_at: e.ended_at,
        status: e.status(now),
        prizes: e.prizes,
        participants_amount: e.participants.len() as u64,
    }
}

/// The items of the page that `pagination` asks for.
pub open spec fn requested_page<T>(s: Seq<T>, pagination: Option<Pagination>) -> Seq<T> {
    let p = requested(pagination);
    page_of(s, skip_of(p.page, p.limit) as int, clamped_limit(p.limit) as int)
}

/// `r` shows the events `ids` at time `now`.
pub open spec fn shows_events(v: ContractView, r: Seq<JsonEvent>, ids: Seq<EventId>, now: TimestampMs) -> bool {
    &&& r.len() == ids.len()
    &&& forall|j: int| 0 <= j < ids.len() ==> (#[trigger] r[j])@ == json_of(v.event(ids[j]), now)
}

/// What a reader sees of `event` at time `now`.
pub fn get_event_json(event: &Event, now: TimestampMs) -> (r: JsonEvent)
    requires
        event@.participants.len() <= u64::MAX,
    ensures
        r@ == json_of(event@, now),
{
    let mut prizes: Vec<Prize> = Vec::new();
    let mut j: usize = 0;
    while j < event.prizes.len()
        invariant
            j <= event.prizes@.len(),
            prizes@.len() == j,
            forall|m: int| 0 <= m < j ==> (#[trigger] prizes@[m])@ == event.prizes@[m]@,
        decreases event.prizes@.len() - j,
    {
        prizes.push(event.prizes[j].duplicate());
        j = j + 1;
    }
    let r = JsonEvent {
        id: event.id,
        owner_id: event.owner_id.clone(),
        title: event.title.clone(),
        started_at: event.started_at,
        ended_at: event.ended_at,
        status: get_event_status(event, now),
        prizes,
        participants_amount: event.participants.len() as u64,
    };
    assert(r@.prizes =~= event@.prizes);
    r
}

impl Contract {
    /// The event `event_id` as a reader sees it at time `now`, if it exists.
    pub fn get_event(&self, now: TimestampMs, event_id: EventId) -> (r: Option<JsonEvent>)
        requires
            self.wf(),
        ensures
            r is Some == self@.has_event(event_id),
            r matches Some(j) ==> j@ == json_of(self@.event(event_id), now),
    {
        proof {
            self.lemma_parts();
        }
        match self.position(event_id) {
            None => None,
            Some(i) => {
                proof {
                    self.lemma_participants_fit(i as int);
                }
                Some(get_event_json(&self.events[i], now))
            },
        }
    }

    /// The number of participants of every event fits in a `u64`.
    proof fn lemma_participants_fit(&self, i: int)
        requires
            self.wf(),
            0 <= i < self.events@.len(),
        ensures
            self.events@[i]@.participants.len() <= u64::MAX,
    {
        self.lemma_parts();
        assert(self.events@[i].participants.len() == self.events@[i].participants@.len());
        assert(usize::MAX <= u64::MAX) by {
            assert(usize::MAX == u32::MAX || usize::MAX == u64::MAX);
        }
    }

    /// The events `ids`, all of which exist, as a reader sees them at `now`.
    fn events_json(&self, now: TimestampMs, ids: &Vec<EventId>) -> (r: Vec<JsonEvent>)
        requires
            self.wf(),
            forall|j: int| 0 <= j < ids@.len() ==> self@.has_event(#[trigger] ids@[j]),
        ensures
            shows_events(self@, r@, ids@, now),
    {
        proof {
            self.lemma_parts();
        }
        let mut r: Vec<JsonEvent> = Vec::new();
        let mut j: usize = 0;
        while j < ids.len()
            invariant
                self.wf(),
                forall|m: int| 0 <= m < ids@.len() ==> self@.has_event(#[trigger] ids@[m]),
                j <= ids@.len(),
                shows_events(self@, r@, ids@.subrange(0, j as int), now),
            decreases ids@.len() - j,
        {
            assert(self@.has_event(ids@[j as int]));
            match self.position(ids[j]) {
                Some(i) => {
                    proof {
                        self.lemma_participants_fit(i as int);
                    }
                    r.push(get_event_json(&self.events[i], now));
                },
                None => {},
            }
            proof {
                let s = ids@.subrange(0, j + 1);
                assert forall|m: int| 0 <= m < s.len() implies (#[trigger] r@[m])@ == json_of(self@.event(s[m]), now) by {
                    if m < j {
                        assert(s[m] == ids@.subrange(0, j as int)[m]);
                    }
                }
            }
            j = j + 1;
        }
        assert(ids@.subrange(0, ids@.len() as int) =~= ids@);
        r
    }

    /// One page of the ids in `m`, all of which name events.
    proof fn lemma_page_ids(&self, m: Map<Seq<char>, Seq<EventId>>, key: Seq<char>, ids: Seq<EventId>, skip: int, take: int)
        requires
            self.wf(),
            ids_below(m, self@.next_event_id),
            skip >= 0,
            take >= 0,
            ids == page_of(items_of(m, key), skip, take),
        ensures
            forall|j: int| 0 <= j < ids.len() ==> self@.has_event(#[trigger] ids[j]),
    {
        self.lemma_parts();
        let s = items_of(m, key);
        assert forall|j: int| 0 <= j < ids.len() implies self@.has_event(#[trigger] ids[j]) by {
            assert(ids[j] == s[skip + j]);
            assert(m.contains_key(key));
            assert(1 <= m[key][skip + j] < self@.next_event_id);
        }
    }

    /// The events owned by `account_id`, one page of them, as seen at `now`.
    pub fn get_owner_events(&self, now: TimestampMs, account_id: &AccountId, pagination: Option<Pagination>) -> (r: Vec<JsonEvent>)
        requires
            self.wf(),
            valid_pagination(pagination),
        ensures
            shows_events(self@, r@, requested_page(items_of(self@.events_by_owner, account_id@), pagination), now),
    {
        proof {
            self.lemma_parts();
        }
        let (skip, take) = unwrap_pagination(pagination);
        let ids = self.events_by_owner.page(account_id, skip, take);
        proof {
            self.lemma_page_ids(self@.events_by_owner, account_id@, ids@, skip as int, take as int);
        }
        self.events_json(now, &ids)
    }

    /// The events `account_id` joined, one page of them, as seen at `now`.
    pub fn get_participant_events(&self, now: TimestampMs, account_id: &AccountId, pagination: Option<Pagination>) -> (r: Vec<JsonEvent>)
        requires
            self.wf(),
            valid_pagination(pagination),
        ensures
            shows_events(self@, r@, requested_page(items_of(self@.events_by_participant, account_id@), pagination), now),
    {
        proof {
            self.lemma_parts();
        }
        let (skip, take) = unwrap_pagination(pagination);
        let ids = self.events_by_participant.page(account_id, skip, take);
        proof {
            self.lemma_page_ids(self@.events_by_participant, account_id@, ids@, skip as int, take as int);
        }
        self.events_json(now, &ids)
    }

    /// The tickets `account_id` holds and has not claimed, one page of them.
    pub fn get_account_unclaimed_prizes(&self, account_id: &AccountId, pagination: Option<Pagination>) -> (r: Vec<EventPrize>)
        requires
            self.wf(),
            valid_pagination(pagination),
        ensures
            r@ == requested_page(items_of(self@.unclaimed_prizes_by_account, account_id@), pagination),
    {
        proof {
            self.lemma_parts();
        }
        let (skip, take) = unwrap_pagination(pagination);
        self.unclaimed_prizes_by_account.page(account_id, skip, take)
    }

    /// Whether `account_id` joined the event `event_id`.
    pub fn is_user_joined_event(&self, account_id: &AccountId, event_id: EventId) -> (r: bool)
        requires
            self.wf(),
        ensures
            r == items_of(self@.events_by_participant, account_id@).contains(event_id),
    {
        proof {
            self.lemma_parts();
        }
        self.events_by_participant.contains(account_id, &event_id)
    }
}

} // verus!
