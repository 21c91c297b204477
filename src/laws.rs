//! Properties of the operations, stated over the model and proved.
use vstd::prelude::*;

use crate::error::ContractError;
use crate::index::{items_of, without_item};
use crate::invariants::{
    lemma_add_event_valid, lemma_add_near_prize_valid, lemma_claim_valid, lemma_join_event_valid,
    lemma_raffle_valid, lemma_set_event_time_valid, lemma_set_event_visible_valid,
};
use crate::model::{
    add_event_spec, add_near_prize_spec, claim_spec, fresh_prize, join_event_spec, raffle_spec,
    set_event_time_spec, set_event_visible_spec, ticket_held, ContractView,
};
use crate::status::status_at;
use crate::types::{EventId, EventPrize, EventStatus, PrizeType, TimestampMs};

verus! {

/// One call of an operation, with its caller and arguments.
pub enum Call {
    AddEvent { caller: Seq<char>, title: Seq<char>, start: Option<TimestampMs>, end: Option<TimestampMs> },
    SetEventTime { caller: Seq<char>, id: EventId, start: TimestampMs, end: TimestampMs },
    SetEventVisible { caller: Seq<char>, id: EventId },
    AddNearPrize { caller: Seq<char>, id: EventId, amount: u128 },
    JoinEvent { caller: Seq<char>, id: EventId },
    Raffle { caller: Seq<char>, id: EventId, seed: Seq<u8> },
    Claim { caller: Seq<char>, ticket: EventPrize },
}

/// The state after `r`: the new state on success, `v` on a rejection.
pub open spec fn state_after<T>(v: ContractView, r: Result<(ContractView, T), ContractError>) -> ContractView {
    match r {
        Ok((w, _)) => w,
        Err(_) => v,
    }
}

/// The state after call `c` at time `now`.
pub open spec fn step(v: ContractView, now: TimestampMs, c: Call) -> ContractView {
    match c {
        Call::AddEvent { caller, title, start, end } => state_after(v, add_event_spec(v, caller, now, title, start, end)),
        Call::SetEventTime { caller, id, start, end } => state_after(v, set_event_time_spec(v, caller, now, id, start, end)),
        Call::SetEventVisible { caller, id } => state_after(v, set_event_visible_spec(v, caller, now, id)),
        Call::AddNearPrize { caller, id, amount } => state_after(v, add_near_prize_spec(v, caller, now, id, amount)),
        Call::JoinEvent { caller, id } => state_after(v, join_event_spec(v, caller, now, id)),
        Call::Raffle { caller, id, seed } => state_after(v, raffle_spec(v, caller, now, id, seed)),
        Call::Claim { caller, ticket } => state_after(v, claim_spec(v, caller, now, ticket)),
    }
}

/// The state after the calls `calls`, each at its own time, in order.
pub open spec fn run(v: ContractView, calls: Seq<(TimestampMs, Call)>) -> ContractView
    decreases calls.len(),
{
    if calls.len() == 0 {
        v
    } else {
        step(run(v, calls.drop_last()), calls.last().0, calls.last().1)
    }
}

/// No call lowers the next id.
pub proof fn lemma_step_keeps_next_id(v: ContractView, now: TimestampMs, c: Call)
    requires
        v.next_event_id < u64::MAX,
    ensures
        v.next_event_id <= step(v, now, c).next_event_id,
{
}

/// No sequence of calls lowers the next id, as long as ids are left.
pub proof fn lemma_run_keeps_next_id(v: ContractView, calls: Seq<(TimestampMs, Call)>)
    requires
        forall|j: int| 0 <= j <= calls.len() ==> (#[trigger] run(v, calls.subrange(0, j))).next_event_id < u64::MAX,
    ensures
        v.next_event_id <= run(v, calls).next_event_id,
    decreases calls.len(),
{
    if calls.len() > 0 {
        let init = calls.drop_last();
        assert(init =~= calls.subrange(0, calls.len() - 1));
        assert forall|j: int| 0 <= j <= init.len() implies (#[trigger] run(v, init.subrange(0, j))).next_event_id < u64::MAX by {
            assert(init.subrange(0, j) =~= calls.subrange(0, j));
        }
        lemma_run_keeps_next_id(v, init);
        assert(run(v, calls.subrange(0, calls.len() - 1)).next_event_id < u64::MAX);
        lemma_step_keeps_next_id(run(v, init), calls.last().0, calls.last().1);
    }
}

/// Event ids strictly increase across successive creations, whatever calls
/// by whichever callers come between them.
pub proof fn lemma_ids_increase(
    v: ContractView,
    first_caller: Seq<char>,
    first_now: TimestampMs,
    first_title: Seq<char>,
    first_start: Option<TimestampMs>,
    first_end: Option<TimestampMs>,
    between: Seq<(TimestampMs, Call)>,
    second_caller: Seq<char>,
    second_now: TimestampMs,
    second_title: Seq<char>,
    second_start: Option<TimestampMs>,
    second_end: Option<TimestampMs>,
)
    requires
        v.next_event_id < u64::MAX,
        add_event_spec(v, first_caller, first_now, first_title, first_start, first_end) is Ok,
        forall|j: int| 0 <= j <= between.len() ==> (#[trigger] run(
            add_event_spec(v, first_caller, first_now, first_title, first_start, first_end)->Ok_0.0,
            between.subrange(0, j),
        )).next_event_id < u64::MAX,
        add_event_spec(
            run(add_event_spec(v, first_caller, first_now, first_title, first_start, first_end)->Ok_0.0, between),
            second_caller,
            second_now,
            second_title,
            second_start,
            second_end,
        ) is Ok,
    ensures
        add_event_spec(v, first_caller, first_now, first_title, first_start, first_end)->Ok_0.1
            < add_event_spec(
            run(add_event_spec(v, first_caller, first_now, first_title, first_start, first_end)->Ok_0.0, between),
            second_caller,
            second_now,
            second_title,
            second_start,
            second_end,
        )->Ok_0.1,
{
    let v1 = add_event_spec(v, first_caller, first_now, first_title, first_start, first_end)->Ok_0.0;
    lemma_run_keeps_next_id(v1, between);
}

/// The position of a status in the lifecycle.
pub open spec fn status_rank(s: EventStatus) -> int {
    match s {
        EventStatus::Configuration => 0,
        EventStatus::Visible => 1,
        EventStatus::Active => 2,
        EventStatus::Raffling => 3,
        EventStatus::Claiming => 4,
    }
}

/// With the stored fields fixed, the status never goes back as time goes on.
pub proof fn lemma_status_monotonic(
    is_visible: bool,
    raffled: bool,
    started_at: int,
    ended_at: int,
    earlier: int,
    later: int,
)
    requires
        earlier <= later,
    ensures
        status_rank(status_at(is_visible, raffled, started_at, ended_at, earlier))
            <= status_rank(status_at(is_visible, raffled, started_at, ended_at, later)),
{
}

/// At any instant exactly one status holds, and which one is decided by the
/// rules in order.
pub proof fn lemma_status_cases(is_visible: bool, raffled: bool, started_at: int, ended_at: int, now: int)
    ensures
        (status_at(is_visible, raffled, started_at, ended_at, now) == EventStatus::Configuration) == !is_visible,
        (status_at(is_visible, raffled, started_at, ended_at, now) == EventStatus::Visible) == (is_visible && now < started_at),
        (status_at(is_visible, raffled, started_at, ended_at, now) == EventStatus::Active)
            == (is_visible && started_at <= now && now < ended_at),
        (status_at(is_visible, raffled, started_at, ended_at, now) == EventStatus::Raffling)
            == (is_visible && started_at <= now && ended_at <= now && !raffled),
        (status_at(is_visible, raffled, started_at, ended_at, now) == EventStatus::Claiming)
            == (is_visible && started_at <= now && ended_at <= now && raffled),
{
}

/// A raffled event is never raffled again: its owner is refused with a
/// status mismatch at any time, and any other caller is refused too.
pub proof fn lemma_raffled_event_refuses_raffle(v: ContractView, caller: Seq<char>, now: TimestampMs, id: EventId, seed: Seq<u8>)
    requires
        v.has_event(id),
        v.event(id).raffled,
    ensures
        raffle_spec(v, caller, now, id, seed) is Err,
        caller == v.event(id).owner_id ==> raffle_spec(v, caller, now, id, seed)
            == Err::<(ContractView, Seq<EventPrize>), ContractError>(ContractError::WrongStatus { required: EventStatus::Raffling }),
        step(v, now, Call::Raffle { caller, id, seed }) == v,
{
}

/// After a raffle succeeds, a second raffle of the event fails and changes nothing.
pub proof fn lemma_raffle_once(
    v: ContractView,
    caller: Seq<char>,
    now: TimestampMs,
    id: EventId,
    seed: Seq<u8>,
    second_caller: Seq<char>,
    second_now: TimestampMs,
    second_seed: Seq<u8>,
)
    requires
        raffle_spec(v, caller, now, id, seed) is Ok,
    ensures
        ({
            let w = raffle_spec(v, caller, now, id, seed)->Ok_0.0;
            &&& w.event(id).raffled
            &&& raffle_spec(w, second_caller, second_now, id, second_seed) is Err
            &&& step(w, second_now, Call::Raffle { caller: second_caller, id, seed: second_seed }) == w
        }),
{
    let w = raffle_spec(v, caller, now, id, seed)->Ok_0.0;
    assert(w.has_event(id));
    lemma_raffled_event_refuses_raffle(w, second_caller, second_now, id, second_seed);
}

/// Every call keeps the state valid: ids in order, events and indexes well
/// formed, and every unclaimed ticket held by the winner of an unclaimed prize.
pub proof fn lemma_step_keeps_valid(v: ContractView, now: TimestampMs, c: Call)
    requires
        v.valid(),
        v.next_event_id < u64::MAX,
    ensures
        step(v, now, c).valid(),
{
    match c {
        Call::AddEvent { caller, title, start, end } => {
            if add_event_spec(v, caller, now, title, start, end) is Ok {
                lemma_add_event_valid(v, caller, now, title, start, end);
            }
        },
        Call::SetEventTime { caller, id, start, end } => {
            if set_event_time_spec(v, caller, now, id, start, end) is Ok {
                lemma_set_event_time_valid(v, caller, now, id, start, end);
            }
        },
        Call::SetEventVisible { caller, id } => {
            if set_event_visible_spec(v, caller, now, id) is Ok {
                lemma_set_event_visible_valid(v, caller, now, id);
            }
        },
        Call::AddNearPrize { caller, id, amount } => {
            if add_near_prize_spec(v, caller, now, id, amount) is Ok {
                lemma_add_near_prize_valid(v, caller, now, id, amount);
            }
        },
        Call::JoinEvent { caller, id } => {
            if join_event_spec(v, caller, now, id) is Ok {
                lemma_join_event_valid(v, caller, now, id);
            }
        },
        Call::Raffle { caller, id, seed } => {
            if raffle_spec(v, caller, now, id, seed) is Ok {
                lemma_raffle_valid(v, caller, now, id, seed);
            }
        },
        Call::Claim { caller, ticket } => {
            if claim_spec(v, caller, now, ticket) is Ok {
                lemma_claim_valid(v, caller, now, ticket);
            }
        },
    }
}

/// A valid state stays valid through any sequence of calls, as long as ids are left.
pub proof fn lemma_run_keeps_valid(v: ContractView, calls: Seq<(TimestampMs, Call)>)
    requires
        v.valid(),
        forall|j: int| 0 <= j <= calls.len() ==> (#[trigger] run(v, calls.subrange(0, j))).next_event_id < u64::MAX,
    ensures
        run(v, calls).valid(),
    decreases calls.len(),
{
    if calls.len() > 0 {
        let init = calls.drop_last();
        assert(init =~= calls.subrange(0, calls.len() - 1));
        assert forall|j: int| 0 <= j <= init.len() implies (#[trigger] run(v, init.subrange(0, j))).next_event_id < u64::MAX by {
            assert(init.subrange(0, j) =~= calls.subrange(0, j));
        }
        lemma_run_keeps_valid(v, init);
        assert(run(v, calls.subrange(0, calls.len() - 1)).next_event_id < u64::MAX);
        lemma_step_keeps_valid(run(v, init), calls.last().0, calls.last().1);
    }
}

/// The indexes agree with the events: an account's owner entry holds exactly
/// the events it owns, its participant entry exactly the events it joined, and
/// its unclaimed-prize entry exactly the tickets of the prizes it won in a
/// raffle and has not claimed.
pub proof fn lemma_indexes_agree(v: ContractView, a: Seq<char>, id: EventId, t: EventPrize)
    requires
        v.valid(),
    ensures
        items_of(v.events_by_owner, a).contains(id) <==> (v.has_event(id) && v.event(id).owner_id == a),
        items_of(v.events_by_participant, a).contains(id) <==> (v.has_event(id) && v.event(id).participants.contains(a)),
        items_of(v.unclaimed_prizes_by_account, a).contains(t) <==> {
            &&& v.has_event(t.event_id)
            &&& v.event(t.event_id).raffled
            &&& t.prize_index < v.event(t.event_id).prizes.len()
            &&& v.event(t.event_id).prizes[t.prize_index as int].winner == Some(a)
            &&& !v.event(t.event_id).prizes[t.prize_index as int].claimed
        },
{
    let mo = v.events_by_owner;
    let mp = v.events_by_participant;
    let mu = v.unclaimed_prizes_by_account;
    if items_of(mo, a).contains(id) {
        let j = choose|j: int| 0 <= j < items_of(mo, a).len() && items_of(mo, a)[j] == id;
        assert(mo.contains_key(a) && mo[a][j] == id);
    }
    if v.has_event(id) {
        assert(v.events[id - 1].id == id);
        assert(items_of(mo, v.events[id - 1].owner_id).contains(((id - 1) + 1) as u64));
    }
    if items_of(mp, a).contains(id) {
        let j = choose|j: int| 0 <= j < items_of(mp, a).len() && items_of(mp, a)[j] == id;
        assert(mp.contains_key(a) && mp[a][j] == id);
    }
    if v.has_event(id) && v.event(id).participants.contains(a) {
        let p = choose|p: int| 0 <= p < v.event(id).participants.len() && v.event(id).participants[p] == a;
        assert(items_of(mp, v.events[id - 1].participants[p]).contains(((id - 1) + 1) as u64));
    }
    if items_of(mu, a).contains(t) {
        let j = choose|j: int| 0 <= j < items_of(mu, a).len() && items_of(mu, a)[j] == t;
        assert(mu.contains_key(a) && mu[a][j] == t);
        assert(ticket_held(v, a, mu[a][j]));
    }
    if v.has_event(t.event_id) && v.event(t.event_id).raffled && t.prize_index < v.event(t.event_id).prizes.len() {
        let i = t.event_id - 1;
        let k = t.prize_index as int;
        assert(v.events[i].id == t.event_id);
        assert(v.events[i].prizes[k].winner is Some);
        if v.events[i].prizes[k].winner == Some(a) && !v.events[i].prizes[k].claimed {
            assert(items_of(mu, a).contains(EventPrize { event_id: (i + 1) as u64, prize_index: k as u64 }));
        }
    }
}

/// Once an event is raffled, every call keeps it raffled.
pub proof fn lemma_step_keeps_raffled(v: ContractView, now: TimestampMs, c: Call, id: EventId)
    requires
        v.valid(),
        v.has_event(id),
        v.event(id).raffled,
    ensures
        step(v, now, c).has_event(id),
        step(v, now, c).event(id).raffled,
{
    lemma_step_keeps_events(v, now, c, id);
}

/// Every call keeps each event, with its owner, its flags once set, and each
/// of its prizes at its position with its kind and claim.
pub proof fn lemma_step_keeps_events(v: ContractView, now: TimestampMs, c: Call, id: EventId)
    requires
        v.valid(),
        v.has_event(id),
    ensures
        step(v, now, c).has_event(id),
        step(v, now, c).event(id).id == id,
        step(v, now, c).event(id).owner_id == v.event(id).owner_id,
        v.event(id).raffled ==> step(v, now, c).event(id).raffled,
        v.event(id).is_visible ==> step(v, now, c).event(id).is_visible,
        v.event(id).prizes.len() <= step(v, now, c).event(id).prizes.len(),
        forall|k: int| 0 <= k < v.event(id).prizes.len() ==> {
            &&& (#[trigger] step(v, now, c).event(id).prizes[k]).prize_type == v.event(id).prizes[k].prize_type
            &&& v.event(id).prizes[k].claimed ==> step(v, now, c).event(id).prizes[k].claimed
        },
{
    let w = step(v, now, c);
    match c {
        Call::AddEvent { caller, title, start, end } => {
            if add_event_spec(v, caller, now, title, start, end) is Ok {
                assert(w.events[id - 1] == v.events[id - 1]);
            }
        },
        Call::Claim { caller, ticket } => {
            if claim_spec(v, caller, now, ticket) is Ok {
                if ticket.event_id == id {
                    assert forall|k: int| 0 <= k < v.event(id).prizes.len() implies {
                        &&& (#[trigger] w.event(id).prizes[k]).prize_type == v.event(id).prizes[k].prize_type
                        &&& v.event(id).prizes[k].claimed ==> w.event(id).prizes[k].claimed
                    } by {
                        if k != ticket.prize_index {
                            assert(w.event(id).prizes[k] == v.event(id).prizes[k]);
                        }
                    }
                } else {
                    assert(w.events[id - 1] == v.events[id - 1]);
                }
            }
        },
        Call::Raffle { caller, id: rid, seed } => {
            if raffle_spec(v, caller, now, rid, seed) is Ok && rid != id {
                assert(w.events[id - 1] == v.events[id - 1]);
            }
        },
        Call::JoinEvent { caller, id: jid } => {
            if join_event_spec(v, caller, now, jid) is Ok && jid != id {
                assert(w.events[id - 1] == v.events[id - 1]);
            }
        },
        Call::AddNearPrize { caller, id: pid, amount } => {
            if add_near_prize_spec(v, caller, now, pid, amount) is Ok {
                if pid == id {
                    assert forall|k: int| 0 <= k < v.event(id).prizes.len() implies {
                        &&& (#[trigger] w.event(id).prizes[k]).prize_type == v.event(id).prizes[k].prize_type
                        &&& v.event(id).prizes[k].claimed ==> w.event(id).prizes[k].claimed
                    } by {
                        assert(w.event(id).prizes[k] == v.event(id).prizes[k]);
                    }
                } else {
                    assert(w.events[id - 1] == v.events[id - 1]);
                }
            }
        },
        Call::SetEventTime { caller, id: sid, start, end } => {
            if set_event_time_spec(v, caller, now, sid, start, end) is Ok && sid != id {
                assert(w.events[id - 1] == v.events[id - 1]);
            }
        },
        Call::SetEventVisible { caller, id: sid } => {
            if set_event_visible_spec(v, caller, now, sid) is Ok && sid != id {
                assert(w.events[id - 1] == v.events[id - 1]);
            }
        },
    }
}

/// A prize added to an event stands at the position the event's prize count
/// had, with the kind and amount it was added with, and is not won or claimed.
pub proof fn lemma_prize_round_trip(v: ContractView, caller: Seq<char>, now: TimestampMs, id: EventId, amount: u128)
    requires
        v.valid(),
        add_near_prize_spec(v, caller, now, id, amount) is Ok,
    ensures
        ({
            let w = add_near_prize_spec(v, caller, now, id, amount)->Ok_0.0;
            let k = v.event(id).prizes.len() as int;
            &&& w.has_event(id)
            &&& w.event(id).prizes.len() == k + 1
            &&& w.event(id).prizes[k] == fresh_prize(amount)
            &&& w.event(id).prizes[k].prize_type == (PrizeType::NEAR { amount })
        }),
{
}

/// A prize keeps its position and kind through any sequence of later calls,
/// as long as ids are left.
pub proof fn lemma_run_keeps_prize(v: ContractView, calls: Seq<(TimestampMs, Call)>, id: EventId, k: int)
    requires
        v.valid(),
        v.has_event(id),
        0 <= k < v.event(id).prizes.len(),
        forall|j: int| 0 <= j <= calls.len() ==> (#[trigger] run(v, calls.subrange(0, j))).next_event_id < u64::MAX,
    ensures
        run(v, calls).has_event(id),
        k < run(v, calls).event(id).prizes.len(),
        run(v, calls).event(id).prizes[k].prize_type == v.event(id).prizes[k].prize_type,
    decreases calls.len(),
{
    if calls.len() > 0 {
        let init = calls.drop_last();
        assert(init =~= calls.subrange(0, calls.len() - 1));
        assert forall|j: int| 0 <= j <= init.len() implies (#[trigger] run(v, init.subrange(0, j))).next_event_id < u64::MAX by {
            assert(init.subrange(0, j) =~= calls.subrange(0, j));
        }
        lemma_run_keeps_prize(v, init, id, k);
        lemma_run_keeps_valid(v, init);
        lemma_step_keeps_events(run(v, init), calls.last().0, calls.last().1, id);
    }
}

/// A claim succeeds once per ticket: afterwards the prize is claimed, the
/// ticket is gone from the caller's index, and claiming it again is refused
/// as an unknown ticket, changing nothing.
pub proof fn lemma_claim_once(v: ContractView, caller: Seq<char>, now: TimestampMs, ticket: EventPrize, second_now: TimestampMs)
    requires
        v.valid(),
        claim_spec(v, caller, now, ticket) is Ok,
    ensures
        ({
            let w = claim_spec(v, caller, now, ticket)->Ok_0.0;
            &&& !v.event(ticket.event_id).prizes[ticket.prize_index as int].claimed
            &&& w.event(ticket.event_id).prizes[ticket.prize_index as int].claimed
            &&& !items_of(w.unclaimed_prizes_by_account, caller).contains(ticket)
            &&& claim_spec(w, caller, second_now, ticket)
                == Err::<(ContractView, u128), ContractError>(ContractError::TicketNotFound)
            &&& step(w, second_now, Call::Claim { caller, ticket }) == w
        }),
{
    let w = claim_spec(v, caller, now, ticket)->Ok_0.0;
    let s = v.unclaimed_prizes_by_account[caller];
    assert(v.unclaimed_prizes_by_account.contains_key(caller));
    assert(s.no_duplicates());
    lemma_removed_once(s, ticket);
    assert(items_of(w.unclaimed_prizes_by_account, caller) == without_item(s, ticket));
    let j = choose|j: int| 0 <= j < s.len() && s[j] == ticket;
    assert(ticket_held(v, caller, s[j]));
}

/// Taking an item out of a sequence without duplicates leaves none of it.
proof fn lemma_removed_once<T>(s: Seq<T>, x: T)
    requires
        s.no_duplicates(),
    ensures
        !without_item(s, x).contains(x),
{
    if s.contains(x) {
        let i = s.index_of(x);
        let r = s.remove(i);
        if r.contains(x) {
            let j = choose|j: int| 0 <= j < r.len() && r[j] == x;
            if j < i {
                assert(s[j] == x);
            } else {
                assert(s[j + 1] == x);
            }
        }
    }
}

} // verus!
