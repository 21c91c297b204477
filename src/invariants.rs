//! Every operation keeps the model valid.
use vstd::prelude::*;

use crate::index::{items_of, with_item, without_item};
use crate::model::{
    add_event_spec, add_near_prize_spec, claim_spec, event_valid, fresh_prize, ids_below,
    owners_indexed, participants_indexed,
    join_event_spec, raffle_spec, record_wins, set_event_time_spec,
    set_event_visible_spec, sets_unique, ticket_held, winner_of, ContractView,
};
use crate::types::{EventId, EventPrize, EventStatus, EventView};

verus! {

/// Adding an item keeps a sequence free of duplicates, and adds just that item.
pub proof fn lemma_with_item<T>(s: Seq<T>, x: T)
    requires
        s.no_duplicates(),
    ensures
        with_item(s, x).no_duplicates(),
        forall|y: T| #[trigger] with_item(s, x).contains(y) <==> (s.contains(y) || y == x),
{
    lemma_with_item_contains(s, x);
    if !s.contains(x) {
        let r = s.push(x);
        assert forall|a: int, b: int| 0 <= a < r.len() && 0 <= b < r.len() && a != b implies r[a] != r[b] by {
            if a == s.len() {
                assert(s.contains(s[b]));
            } else if b == s.len() {
                assert(s.contains(s[a]));
            }
        }
    }
}

/// What an item added to a sequence leaves in it.
pub proof fn lemma_with_item_contains<T>(s: Seq<T>, x: T)
    ensures
        forall|y: T| #[trigger] with_item(s, x).contains(y) <==> (s.contains(y) || y == x),
{
    if !s.contains(x) {
        let r = s.push(x);
        assert forall|y: T| #[trigger] r.contains(y) <==> (s.contains(y) || y == x) by {
            if r.contains(y) {
                let j = choose|j: int| 0 <= j < r.len() && r[j] == y;
                if j < s.len() {
                    assert(s[j] == y);
                }
            }
            if s.contains(y) {
                let j = choose|j: int| 0 <= j < s.len() && s[j] == y;
                assert(r[j] == y);
            }
            if y == x {
                assert(r[s.len() as int] == y);
            }
        }
    }
}

/// Taking an item out keeps a sequence free of duplicates, and leaves every other item.
pub proof fn lemma_without_item<T>(s: Seq<T>, x: T)
    requires
        s.no_duplicates(),
    ensures
        without_item(s, x).no_duplicates(),
        forall|y: T| #[trigger] without_item(s, x).contains(y) <==> (s.contains(y) && y != x),
{
    if s.contains(x) {
        let i = s.index_of(x);
        let r = s.remove(i);
        assert(s[i] == x);
        assert forall|a: int, b: int| 0 <= a < r.len() && 0 <= b < r.len() && a != b implies r[a] != r[b] by {
            let a0 = if a < i { a } else { a + 1 };
            let b0 = if b < i { b } else { b + 1 };
            assert(r[a] == s[a0]);
            assert(r[b] == s[b0]);
        }
        assert forall|y: T| #[trigger] r.contains(y) <==> (s.contains(y) && y != x) by {
            if r.contains(y) {
                let j = choose|j: int| 0 <= j < r.len() && r[j] == y;
                let j0 = if j < i { j } else { j + 1 };
                assert(s[j0] == y);
                assert(j0 != i);
            }
            if s.contains(y) && y != x {
                let j = choose|j: int| 0 <= j < s.len() && s[j] == y;
                assert(j != i);
                if j < i {
                    assert(r[j] == y);
                } else {
                    assert(r[j - 1] == y);
                }
            }
        }
    }
}

/// Adding an item to one set keeps every set of the map free of duplicates.
pub proof fn lemma_insert_unique<T>(m: Map<Seq<char>, Seq<T>>, k: Seq<char>, x: T)
    requires
        sets_unique(m),
    ensures
        sets_unique(m.insert(k, with_item(items_of(m, k), x))),
{
    if m.contains_key(k) {
        assert(m[k].no_duplicates());
    }
    assert(items_of(m, k).no_duplicates());
    lemma_with_item(items_of(m, k), x);
}

/// Adding an id below the bound keeps every id of the index below it.
pub proof fn lemma_ids_below_insert(m: Map<Seq<char>, Seq<EventId>>, next: EventId, bound: EventId, k: Seq<char>, id: EventId)
    requires
        ids_below(m, next),
        next <= bound,
        1 <= id < bound,
    ensures
        ids_below(m.insert(k, with_item(items_of(m, k), id)), bound),
{
    let m2 = m.insert(k, with_item(items_of(m, k), id));
    assert forall|k2: Seq<char>, j: int| m2.contains_key(k2) && 0 <= j < m2[k2].len() implies 1 <= #[trigger] m2[k2][j] < bound by {
        if k2 == k {
            let s = items_of(m, k);
            if j < s.len() {
                if m.contains_key(k) {
                    assert(m[k][j] == m2[k2][j]);
                }
            }
        } else {
            assert(m[k2][j] == m2[k2][j]);
        }
    }
}

/// A state whose events and indexes of people match those of a valid state
/// everywhere but at event `id`, where owner and participants are the same,
/// keeps its people indexes.
proof fn lemma_same_people_indexed(v: ContractView, w: ContractView, id: EventId)
    requires
        v.valid(),
        v.has_event(id),
        w.events.len() == v.events.len(),
        w.events_by_owner == v.events_by_owner,
        w.events_by_participant == v.events_by_participant,
        w.events[id - 1].owner_id == v.events[id - 1].owner_id,
        w.events[id - 1].participants == v.events[id - 1].participants,
        forall|i: int| 0 <= i < v.events.len() && i != id - 1 ==> w.events[i] == v.events[i],
    ensures
        owners_indexed(w),
        participants_indexed(w),
{
    let mo = v.events_by_owner;
    assert forall|a: Seq<char>, j: int| mo.contains_key(a) && 0 <= j < mo[a].len() implies w.event(#[trigger] mo[a][j]).owner_id == a by {
        let x = mo[a][j];
        assert(v.event(x).owner_id == a);
        assert(1 <= x < v.next_event_id);
        if x != id {
            assert(w.events[x - 1] == v.events[x - 1]);
        }
    }
    assert forall|i: int| 0 <= i < w.events.len() implies items_of(mo, (#[trigger] w.events[i]).owner_id).contains((i + 1) as u64) by {
        assert(items_of(mo, v.events[i].owner_id).contains((i + 1) as u64));
        if i != id - 1 {
            assert(w.events[i] == v.events[i]);
        }
    }
    let mp = v.events_by_participant;
    assert forall|a: Seq<char>, j: int| mp.contains_key(a) && 0 <= j < mp[a].len() implies w.event(#[trigger] mp[a][j]).participants.contains(a) by {
        let x = mp[a][j];
        assert(v.event(x).participants.contains(a));
        assert(1 <= x < v.next_event_id);
        if x != id {
            assert(w.events[x - 1] == v.events[x - 1]);
        }
    }
    assert forall|i: int, p: int| 0 <= i < w.events.len() && 0 <= p < w.events[i].participants.len() implies items_of(
        mp,
        #[trigger] w.events[i].participants[p],
    ).contains((i + 1) as u64) by {
        if i != id - 1 {
            assert(w.events[i] == v.events[i]);
        }
        assert(w.events[i].participants[p] == v.events[i].participants[p]);
        assert(items_of(mp, v.events[i].participants[p]).contains((i + 1) as u64));
    }
}

/// Replacing an event by another with the same id that keeps its prizes and
/// raffle flag, or is not raffled before or after, keeps the state valid.
pub proof fn lemma_with_event_valid(v: ContractView, e: EventView)
    requires
        v.valid(),
        v.has_event(e.id),
        event_valid(e),
        e.owner_id == v.event(e.id).owner_id,
        e.participants == v.event(e.id).participants,
        (e.raffled == v.event(e.id).raffled && e.prizes == v.event(e.id).prizes) || (!v.event(e.id).raffled
            && !e.raffled),
    ensures
        v.with_event(e).valid(),
{
    let w = v.with_event(e);
    lemma_same_people_indexed(v, w, e.id);
    assert forall|i: int, k: int|
        0 <= i < w.events.len() && 0 <= k < w.events[i].prizes.len() && w.events[i].raffled implies {
            &&& (#[trigger] w.events[i].prizes[k]).winner is Some
            &&& !w.events[i].prizes[k].claimed ==> items_of(
                w.unclaimed_prizes_by_account,
                w.events[i].prizes[k].winner->Some_0,
            ).contains(EventPrize { event_id: (i + 1) as u64, prize_index: k as u64 })
        } by {
        if i != e.id - 1 {
            assert(w.events[i] == v.events[i]);
        }
        assert(v.events[i].prizes[k] == w.events[i].prizes[k]);
    }
    assert forall|i: int| 0 <= i < w.events.len() implies (#[trigger] w.events[i]).id == i + 1
        && event_valid(w.events[i]) by {
        if i != e.id - 1 {
            assert(w.events[i] == v.events[i]);
        }
    }
    let m = v.unclaimed_prizes_by_account;
    assert forall|a: Seq<char>, j: int| m.contains_key(a) && 0 <= j < m[a].len() implies ticket_held(w, a, #[trigger] m[a][j]) by {
        let t = m[a][j];
        assert(ticket_held(v, a, t));
        if t.event_id != e.id {
            assert(w.event(t.event_id) == v.event(t.event_id));
        }
    }
}

/// Creating an event keeps the state valid.
pub proof fn lemma_add_event_valid(
    v: ContractView,
    caller: Seq<char>,
    now: u64,
    title: Seq<char>,
    start: Option<u64>,
    end: Option<u64>,
)
    requires
        v.valid(),
        v.next_event_id < u64::MAX,
        add_event_spec(v, caller, now, title, start, end) is Ok,
    ensures
        add_event_spec(v, caller, now, title, start, end)->Ok_0.0.valid(),
{
    let w = add_event_spec(v, caller, now, title, start, end)->Ok_0.0;
    let id = v.next_event_id;
    assert forall|i: int| 0 <= i < w.events.len() implies (#[trigger] w.events[i]).id == i + 1
        && event_valid(w.events[i]) by {
        if i < v.events.len() {
            assert(w.events[i] == v.events[i]);
        }
    }
    lemma_insert_unique(v.events_by_owner, caller, id);
    lemma_ids_below_insert(v.events_by_owner, v.next_event_id, w.next_event_id, caller, id);
    lemma_ids_below_insert(v.events_by_participant, v.next_event_id, w.next_event_id, Seq::empty(), id);
    let mp = v.events_by_participant;
    assert forall|k: Seq<char>, j: int| mp.contains_key(k) && 0 <= j < mp[k].len() implies 1 <= #[trigger] mp[k][j] < w.next_event_id by {
    }
    let m = v.unclaimed_prizes_by_account;
    assert forall|a: Seq<char>, j: int| m.contains_key(a) && 0 <= j < m[a].len() implies ticket_held(w, a, #[trigger] m[a][j]) by {
        let t = m[a][j];
        assert(ticket_held(v, a, t));
        assert(w.events[t.event_id - 1] == v.events[t.event_id - 1]);
    }
    let mo = v.events_by_owner;
    let mo2 = w.events_by_owner;
    lemma_with_item(items_of(mo, caller), id);
    assert forall|a: Seq<char>, j: int| mo2.contains_key(a) && 0 <= j < mo2[a].len() implies w.event(#[trigger] mo2[a][j]).owner_id == a by {
        let x = mo2[a][j];
        if a == caller {
            assert(with_item(items_of(mo, caller), id).contains(x));
            if x != id {
                let j0 = choose|j0: int| 0 <= j0 < items_of(mo, caller).len() && items_of(mo, caller)[j0] == x;
                assert(mo.contains_key(caller));
                assert(mo[caller][j0] == x);
                assert(v.event(x).owner_id == a);
                assert(w.events[x - 1] == v.events[x - 1]);
            }
        } else {
            assert(mo[a][j] == x);
            assert(v.event(x).owner_id == a);
            assert(w.events[x - 1] == v.events[x - 1]);
        }
    }
    assert forall|i: int| 0 <= i < w.events.len() implies items_of(mo2, (#[trigger] w.events[i]).owner_id).contains((i + 1) as u64) by {
        if i < v.events.len() {
            assert(w.events[i] == v.events[i]);
            assert(items_of(mo, v.events[i].owner_id).contains((i + 1) as u64));
        }
    }
    let mp = v.events_by_participant;
    assert forall|a: Seq<char>, j: int| mp.contains_key(a) && 0 <= j < mp[a].len() implies w.event(#[trigger] mp[a][j]).participants.contains(a) by {
        let x = mp[a][j];
        assert(v.event(x).participants.contains(a));
        assert(w.events[x - 1] == v.events[x - 1]);
    }
    assert forall|i: int, p: int| 0 <= i < w.events.len() && 0 <= p < w.events[i].participants.len() implies items_of(
        mp,
        #[trigger] w.events[i].participants[p],
    ).contains((i + 1) as u64) by {
        assert(i < v.events.len());
        assert(w.events[i] == v.events[i]);
    }
    assert forall|i: int, k: int|
        0 <= i < w.events.len() && 0 <= k < w.events[i].prizes.len() && w.events[i].raffled implies {
            &&& (#[trigger] w.events[i].prizes[k]).winner is Some
            &&& !w.events[i].prizes[k].claimed ==> items_of(
                w.unclaimed_prizes_by_account,
                w.events[i].prizes[k].winner->Some_0,
            ).contains(EventPrize { event_id: (i + 1) as u64, prize_index: k as u64 })
        } by {
        assert(i < v.events.len());
        assert(w.events[i] == v.events[i]);
    }
}

/// An event in configuration is not raffled.
proof fn lemma_configuring_not_raffled(v: ContractView, id: EventId, now: u64)
    requires
        v.valid(),
        v.has_event(id),
        v.event(id).status(now) == EventStatus::Configuration,
    ensures
        !v.event(id).raffled,
{
    assert(event_valid(v.events[id - 1]));
}

/// Setting the time window keeps the state valid.
pub proof fn lemma_set_event_time_valid(v: ContractView, caller: Seq<char>, now: u64, id: EventId, start: u64, end: u64)
    requires
        v.valid(),
        set_event_time_spec(v, caller, now, id, start, end) is Ok,
    ensures
        set_event_time_spec(v, caller, now, id, start, end)->Ok_0.0.valid(),
{
    assert(event_valid(v.events[id - 1]));
    assert(v.event(id).id == id);
    lemma_with_event_valid(v, EventView { started_at: start, ended_at: end, ..v.event(id) });
}

/// Publishing keeps the state valid.
pub proof fn lemma_set_event_visible_valid(v: ContractView, caller: Seq<char>, now: u64, id: EventId)
    requires
        v.valid(),
        set_event_visible_spec(v, caller, now, id) is Ok,
    ensures
        set_event_visible_spec(v, caller, now, id)->Ok_0.0.valid(),
{
    assert(event_valid(v.events[id - 1]));
    assert(v.event(id).id == id);
    lemma_configuring_not_raffled(v, id, now);
    lemma_with_event_valid(v, EventView { is_visible: true, ..v.event(id) });
}

/// Adding a prize keeps the state valid.
pub proof fn lemma_add_near_prize_valid(v: ContractView, caller: Seq<char>, now: u64, id: EventId, amount: u128)
    requires
        v.valid(),
        add_near_prize_spec(v, caller, now, id, amount) is Ok,
    ensures
        add_near_prize_spec(v, caller, now, id, amount)->Ok_0.0.valid(),
{
    let e0 = v.event(id);
    assert(event_valid(v.events[id - 1]));
    assert(e0.id == id);
    lemma_configuring_not_raffled(v, id, now);
    let e = EventView { prizes: e0.prizes.push(fresh_prize(amount)), ..e0 };
    assert forall|k: int| 0 <= k < e.prizes.len() implies (#[trigger] e.prizes[k]).winner is None && !e.prizes[k].claimed by {
        if k < e0.prizes.len() {
            assert(e.prizes[k] == e0.prizes[k]);
        }
    }
    lemma_with_event_valid(v, e);
}

/// Joining keeps the state valid.
pub proof fn lemma_join_event_valid(v: ContractView, caller: Seq<char>, now: u64, id: EventId)
    requires
        v.valid(),
        join_event_spec(v, caller, now, id) is Ok,
    ensures
        join_event_spec(v, caller, now, id)->Ok_0.0.valid(),
{
    let e0 = v.event(id);
    assert(event_valid(v.events[id - 1]));
    assert(e0.id == id);
    let e1 = EventView { participants: e0.participants.push(caller), ..e0 };
    let w = join_event_spec(v, caller, now, id)->Ok_0.0;
    assert(w.events[id - 1] == e1);
    assert forall|a: int, b: int|
        0 <= a < e1.participants.len() && 0 <= b < e1.participants.len() && a != b
            implies e1.participants[a] != e1.participants[b] by {
        if a == e0.participants.len() {
            assert(e0.participants.contains(e0.participants[b]));
        } else if b == e0.participants.len() {
            assert(e0.participants.contains(e0.participants[a]));
        }
    }
    if e1.participants.contains(e1.owner_id) {
        let a = choose|a: int| 0 <= a < e1.participants.len() && e1.participants[a] == e1.owner_id;
        if a < e0.participants.len() {
            assert(e0.participants.contains(e0.owner_id));
        }
    }
    assert(event_valid(e1));
    assert forall|i: int| 0 <= i < w.events.len() implies (#[trigger] w.events[i]).id == i + 1
        && event_valid(w.events[i]) by {
        if i != id - 1 {
            assert(w.events[i] == v.events[i]);
        }
    }
    let mp = v.events_by_participant;
    let mp2 = w.events_by_participant;
    lemma_insert_unique(mp, caller, id);
    lemma_ids_below_insert(mp, v.next_event_id, v.next_event_id, caller, id);
    if mp.contains_key(caller) {
        assert(mp[caller].no_duplicates());
    }
    lemma_with_item(items_of(mp, caller), id);
    let m = v.unclaimed_prizes_by_account;
    assert forall|a: Seq<char>, j: int| m.contains_key(a) && 0 <= j < m[a].len() implies ticket_held(w, a, #[trigger] m[a][j]) by {
        let t = m[a][j];
        assert(ticket_held(v, a, t));
        if t.event_id != id {
            assert(w.events[t.event_id - 1] == v.events[t.event_id - 1]);
        }
    }
    let mo = v.events_by_owner;
    assert forall|a: Seq<char>, j: int| mo.contains_key(a) && 0 <= j < mo[a].len() implies w.event(#[trigger] mo[a][j]).owner_id == a by {
        let x = mo[a][j];
        assert(v.event(x).owner_id == a);
        assert(1 <= x < v.next_event_id);
        if x != id {
            assert(w.events[x - 1] == v.events[x - 1]);
        }
    }
    assert forall|i: int| 0 <= i < w.events.len() implies items_of(mo, (#[trigger] w.events[i]).owner_id).contains((i + 1) as u64) by {
        assert(items_of(mo, v.events[i].owner_id).contains((i + 1) as u64));
        if i != id - 1 {
            assert(w.events[i] == v.events[i]);
        }
    }
    assert forall|a: Seq<char>, j: int| mp2.contains_key(a) && 0 <= j < mp2[a].len() implies w.event(#[trigger] mp2[a][j]).participants.contains(a) by {
        let x = mp2[a][j];
        if a == caller && x == id {
            assert(e1.participants[e0.participants.len() as int] == caller);
        } else {
            let j0: int = if a == caller {
                assert(with_item(items_of(mp, caller), id).contains(x));
                assert(items_of(mp, caller).contains(x));
                choose|j0: int| 0 <= j0 < items_of(mp, caller).len() && items_of(mp, caller)[j0] == x
            } else {
                j
            };
            assert(mp.contains_key(a));
            assert(mp[a][j0] == x);
            assert(v.event(x).participants.contains(a));
            assert(1 <= x < v.next_event_id);
            if x != id {
                assert(w.events[x - 1] == v.events[x - 1]);
            } else {
                let q = choose|q: int| 0 <= q < e0.participants.len() && e0.participants[q] == a;
                assert(e1.participants[q] == a);
            }
        }
    }
    assert forall|i: int, p: int| 0 <= i < w.events.len() && 0 <= p < w.events[i].participants.len() implies items_of(
        mp2,
        #[trigger] w.events[i].participants[p],
    ).contains((i + 1) as u64) by {
        let b = w.events[i].participants[p];
        if i == id - 1 && p == e0.participants.len() {
            assert(b == caller);
        } else {
            if i != id - 1 {
                assert(w.events[i] == v.events[i]);
            }
            assert(v.events[i].participants[p] == b);
            assert(items_of(mp, b).contains((i + 1) as u64));
        }
    }
    assert forall|i: int, k: int|
        0 <= i < w.events.len() && 0 <= k < w.events[i].prizes.len() && w.events[i].raffled implies {
            &&& (#[trigger] w.events[i].prizes[k]).winner is Some
            &&& !w.events[i].prizes[k].claimed ==> items_of(
                w.unclaimed_prizes_by_account,
                w.events[i].prizes[k].winner->Some_0,
            ).contains(EventPrize { event_id: (i + 1) as u64, prize_index: k as u64 })
        } by {
        if i != id - 1 {
            assert(w.events[i] == v.events[i]);
        }
        assert(v.events[i].prizes[k] == w.events[i].prizes[k]);
    }
}

/// What the unclaimed-prize index holds while a raffle hands out the tickets
/// of the first `n` prizes: the tickets from before, of other events, and the
/// new tickets, each with the winner of its prize.
proof fn lemma_record_wins(v: ContractView, e0: EventView, seed: Seq<u8>, n: nat)
    requires
        v.valid(),
        v.has_event(e0.id),
        v.event(e0.id) == e0,
        !e0.raffled,
        n <= e0.prizes.len(),
    ensures
        sets_unique(record_wins(v.unclaimed_prizes_by_account, e0, seed, n)),

        forall|a: Seq<char>, j: int|
            record_wins(v.unclaimed_prizes_by_account, e0, seed, n).contains_key(a) && 0 <= j
                < record_wins(v.unclaimed_prizes_by_account, e0, seed, n)[a].len() ==> {
                let t = #[trigger] record_wins(v.unclaimed_prizes_by_account, e0, seed, n)[a][j];
                (t.event_id != e0.id && ticket_held(v, a, t)) || (t.event_id == e0.id && t.prize_index < n
                    && winner_of(e0, seed, t.prize_index as int) == a)
            },
    decreases n,
{
    let m = v.unclaimed_prizes_by_account;
    if n == 0 {
        assert forall|a: Seq<char>, j: int| m.contains_key(a) && 0 <= j < m[a].len() implies {
            let t = #[trigger] m[a][j];
            (t.event_id != e0.id && ticket_held(v, a, t)) || (t.event_id == e0.id && t.prize_index < n
                && winner_of(e0, seed, t.prize_index as int) == a)
        } by {
            assert(ticket_held(v, a, m[a][j]));
        }
    } else {
        lemma_record_wins(v, e0, seed, (n - 1) as nat);
        let prev = record_wins(m, e0, seed, (n - 1) as nat);
        let w = winner_of(e0, seed, n - 1);
        let tn = EventPrize { event_id: e0.id, prize_index: (n - 1) as u64 };
        let r = record_wins(m, e0, seed, n);
        assert(r == prev.insert(w, with_item(items_of(prev, w), tn)));
        lemma_insert_unique(prev, w, tn);
        if prev.contains_key(w) {
            assert(prev[w].no_duplicates());
        }
        lemma_with_item(items_of(prev, w), tn);
        assert forall|a: Seq<char>, j: int| r.contains_key(a) && 0 <= j < r[a].len() implies {
            let t = #[trigger] r[a][j];
            (t.event_id != e0.id && ticket_held(v, a, t)) || (t.event_id == e0.id && t.prize_index < n
                && winner_of(e0, seed, t.prize_index as int) == a)
        } by {
            let t = r[a][j];
            if a == w {
                assert(with_item(items_of(prev, w), tn).contains(t));
                if t != tn {
                    assert(items_of(prev, w).contains(t));
                    let j0 = choose|j0: int| 0 <= j0 < items_of(prev, w).len() && items_of(prev, w)[j0] == t;
                    assert(prev.contains_key(w));
                    assert(prev[w][j0] == t);
                }
            } else {
                assert(r[a] == prev[a]);
                assert(prev[a][j] == t);
            }
        }
    }
}

/// A raffle's tickets only add to the unclaimed-prize index: every ticket
/// stays, and the winner of each of the first `n` prizes holds its ticket.
proof fn lemma_record_wins_grows(m: Map<Seq<char>, Seq<EventPrize>>, e0: EventView, seed: Seq<u8>, n: nat)
    requires
        n <= u64::MAX,
    ensures
        forall|a: Seq<char>, t: EventPrize|
            items_of(m, a).contains(t) ==> #[trigger] items_of(record_wins(m, e0, seed, n), a).contains(t),
        forall|k: int|
            0 <= k < n ==> items_of(record_wins(m, e0, seed, n), #[trigger] winner_of(e0, seed, k)).contains(
                EventPrize { event_id: e0.id, prize_index: k as u64 },
            ),
    decreases n,
{
    if n > 0 {
        lemma_record_wins_grows(m, e0, seed, (n - 1) as nat);
        let prev = record_wins(m, e0, seed, (n - 1) as nat);
        let w = winner_of(e0, seed, n - 1);
        let tn = EventPrize { event_id: e0.id, prize_index: (n - 1) as u64 };
        let r = record_wins(m, e0, seed, n);
        assert(r == prev.insert(w, with_item(items_of(prev, w), tn)));
        lemma_with_item_contains(items_of(prev, w), tn);
        assert forall|a: Seq<char>, t: EventPrize|
            items_of(m, a).contains(t) implies #[trigger] items_of(r, a).contains(t) by {
            assert(items_of(prev, a).contains(t));
        }
        assert forall|k: int| 0 <= k < n implies items_of(r, #[trigger] winner_of(e0, seed, k)).contains(
            EventPrize { event_id: e0.id, prize_index: k as u64 },
        ) by {
            if k < n - 1 {
                assert(items_of(prev, winner_of(e0, seed, k)).contains(EventPrize { event_id: e0.id, prize_index: k as u64 }));
            }
        }
    }
}

/// A raffle keeps the state valid.
pub proof fn lemma_raffle_valid(v: ContractView, caller: Seq<char>, now: u64, id: EventId, seed: Seq<u8>)
    requires
        v.valid(),
        raffle_spec(v, caller, now, id, seed) is Ok,
    ensures
        raffle_spec(v, caller, now, id, seed)->Ok_0.0.valid(),
{
    let e0 = v.event(id);
    assert(event_valid(v.events[id - 1]));
    assert(e0.id == id);
    let w = raffle_spec(v, caller, now, id, seed)->Ok_0.0;
    let e1 = w.events[id - 1];
    lemma_record_wins(v, e0, seed, e0.prizes.len());
    assert forall|i: int| 0 <= i < w.events.len() implies (#[trigger] w.events[i]).id == i + 1
        && event_valid(w.events[i]) by {
        if i != id - 1 {
            assert(w.events[i] == v.events[i]);
        }
    }
    let m = w.unclaimed_prizes_by_account;
    assert forall|a: Seq<char>, j: int| m.contains_key(a) && 0 <= j < m[a].len() implies ticket_held(w, a, #[trigger] m[a][j]) by {
        let t = m[a][j];
        if t.event_id != id {
            assert(w.events[t.event_id - 1] == v.events[t.event_id - 1]);
        } else {
            let k = t.prize_index as int;
            assert(e1.prizes[k].winner == Some(winner_of(e0, seed, k)));
            assert(!e0.prizes[k].claimed);
        }
    }
    lemma_same_people_indexed(v, w, id);
    lemma_record_wins_grows(v.unclaimed_prizes_by_account, e0, seed, e0.prizes.len());
    assert forall|i: int, k: int|
        0 <= i < w.events.len() && 0 <= k < w.events[i].prizes.len() && w.events[i].raffled implies {
            &&& (#[trigger] w.events[i].prizes[k]).winner is Some
            &&& !w.events[i].prizes[k].claimed ==> items_of(
                w.unclaimed_prizes_by_account,
                w.events[i].prizes[k].winner->Some_0,
            ).contains(EventPrize { event_id: (i + 1) as u64, prize_index: k as u64 })
        } by {
        if i != id - 1 {
            assert(w.events[i] == v.events[i]);
            assert(v.events[i].prizes[k] == w.events[i].prizes[k]);
            if !w.events[i].prizes[k].claimed {
                assert(items_of(
                    v.unclaimed_prizes_by_account,
                    v.events[i].prizes[k].winner->Some_0,
                ).contains(EventPrize { event_id: (i + 1) as u64, prize_index: k as u64 }));
            }
        } else {
            assert(e1.prizes[k].winner == Some(winner_of(e0, seed, k)));
        }
    }
}

/// A claim keeps the state valid.
pub proof fn lemma_claim_valid(v: ContractView, caller: Seq<char>, now: u64, ticket: EventPrize)
    requires
        v.valid(),
        claim_spec(v, caller, now, ticket) is Ok,
    ensures
        claim_spec(v, caller, now, ticket)->Ok_0.0.valid(),
{
    let id = ticket.event_id;
    let k = ticket.prize_index as int;
    let e0 = v.event(id);
    assert(event_valid(v.events[id - 1]));
    assert(e0.id == id);
    let m = v.unclaimed_prizes_by_account;
    let w = claim_spec(v, caller, now, ticket)->Ok_0.0;
    let e1 = w.events[id - 1];
    assert(m.contains_key(caller));
    assert(m[caller].no_duplicates());
    lemma_without_item(m[caller], ticket);
    let j0 = choose|j0: int| 0 <= j0 < m[caller].len() && m[caller][j0] == ticket;
    assert(ticket_held(v, caller, m[caller][j0]));
    assert forall|i: int| 0 <= i < w.events.len() implies (#[trigger] w.events[i]).id == i + 1
        && event_valid(w.events[i]) by {
        if i != id - 1 {
            assert(w.events[i] == v.events[i]);
        }
    }
    let m2 = w.unclaimed_prizes_by_account;
    assert forall|b: Seq<char>, j: int| m2.contains_key(b) && 0 <= j < m2[b].len() implies ticket_held(w, b, #[trigger] m2[b][j]) by {
        let t = m2[b][j];
        if b == caller {
            assert(without_item(m[caller], ticket).contains(t));
            let j1 = choose|j1: int| 0 <= j1 < m[caller].len() && m[caller][j1] == t;
            assert(ticket_held(v, caller, m[caller][j1]));
        } else {
            assert(m2[b] == m[b]);
            assert(ticket_held(v, b, m[b][j]));
        }
        assert(ticket_held(v, b, t));
        assert(t != ticket);
        if t.event_id != id {
            assert(w.events[t.event_id - 1] == v.events[t.event_id - 1]);
        } else {
            assert(t.prize_index != ticket.prize_index);
            assert(e1.prizes[t.prize_index as int] == e0.prizes[t.prize_index as int]);
        }
    }
}

} // verus!
