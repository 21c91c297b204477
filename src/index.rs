use vstd::prelude::*;

use crate::types::{AccountId, EventPrize};

verus! {

/// What an index can hold: values that can be told apart in code.
pub trait IndexItem: Sized + Copy {
    fn same_as(&self, other: &Self) -> (r: bool)
        ensures
            r == (*self == *other),
    ;
}

impl IndexItem for u64 {
    fn same_as(&self, other: &Self) -> (r: bool) {
        *self == *other
    }
}

impl IndexItem for EventPrize {
    fn same_as(&self, other: &Self) -> (r: bool) {
        self.event_id == other.event_id && self.prize_index == other.prize_index
    }
}

/// The set one account's entry holds, in the order of insertion.
/// A key that was never touched reads as the empty set.
pub open spec fn items_of<T>(m: Map<Seq<char>, Seq<T>>, key: Seq<char>) -> Seq<T> {
    if m.contains_key(key) {
        m[key]
    } else {
        Seq::empty()
    }
}

/// `s` with `x` appended unless it is already there.
pub open spec fn with_item<T>(s: Seq<T>, x: T) -> Seq<T> {
    if s.contains(x) {
        s
    } else {
        s.push(x)
    }
}

/// `s` without `x`.
pub open spec fn without_item<T>(s: Seq<T>, x: T) -> Seq<T> {
    if s.contains(x) {
        s.remove(s.index_of(x))
    } else {
        s
    }
}

/// The items of a page: `take` items from position `skip` on, as far as there are any.
pub open spec fn page_of<T>(s: Seq<T>, skip: int, take: int) -> Seq<T> {
    if skip >= s.len() {
        Seq::empty()
    } else if skip + take >= s.len() {
        s.subrange(skip, s.len() as int)
    } else {
        s.subrange(skip, skip + take)
    }
}

struct IndexEntry<T> {
    key: AccountId,
    items: Vec<T>,
}

/// A secondary index from an account to a set of items. An account's set is
/// made on the first insert and is kept when it becomes empty.
pub struct Index<T> {
    entries: Vec<IndexEntry<T>>,
}

impl<T: IndexItem> Index<T> {
    pub closed spec fn keys(&self) -> Seq<Seq<char>> {
        self.entries@.map_values(|e: IndexEntry<T>| e.key@)
    }

    pub closed spec fn view(&self) -> Map<Seq<char>, Seq<T>> {
        Map::new(
            |k: Seq<char>| self.keys().contains(k),
            |k: Seq<char>| self.entries@[self.keys().index_of(k)].items@,
        )
    }

    pub closed spec fn wf(&self) -> bool {
        &&& self.keys().no_duplicates()
        &&& forall|i: int|
            0 <= i < self.entries@.len() ==> #[trigger] self.entries@[i].items@.no_duplicates()
    }

    proof fn lemma_view_at(&self, i: int)
        requires
            self.wf(),
            0 <= i < self.entries@.len(),
        ensures
            self.view().contains_key(self.entries@[i].key@),
            self.view()[self.entries@[i].key@] == self.entries@[i].items@,
    {
        let k = self.entries@[i].key@;
        assert(self.keys()[i] == k);
        assert(self.keys().contains(k));
        let j = self.keys().index_of(k);
        assert(self.keys()[j] == k);
    }

    pub fn new() -> (r: Self)
        ensures
            r.wf(),
            r.view() == Map::<Seq<char>, Seq<T>>::empty(),
    {
        let r = Index { entries: Vec::new() };
        assert(r.view() =~= Map::<Seq<char>, Seq<T>>::empty());
        r
    }

    /// Where the entry of `key` stands, if there is one.
    fn position(&self, key: &AccountId) -> (r: Option<usize>)
        requires
            self.wf(),
        ensures
            r is None ==> !self.view().contains_key(key@),
            r matches Some(i) ==> i < self.entries@.len() && self.entries@[i as int].key@ == key@,
    {
        let mut i: usize = 0;
        while i < self.entries.len()
            invariant
                i <= self.entries@.len(),
                forall|j: int| 0 <= j < i ==> self.entries@[j].key@ != key@,
            decreases self.entries@.len() - i,
        {
            if self.entries[i].key == *key {
                return Some(i);
            }
            i = i + 1;
        }
        proof {
            if self.keys().contains(key@) {
                let j = self.keys().index_of(key@);
                assert(self.keys()[j] == key@);
            }
        }
        None
    }

    /// Whether the set of `key` holds `item`.
    pub fn contains(&self, key: &AccountId, item: &T) -> (r: bool)
        requires
            self.wf(),
        ensures
            r == items_of(self.view(), key@).contains(*item),
    {
        match self.position(key) {
            None => false,
            Some(p) => {
                proof {
                    self.lemma_view_at(p as int);
                }
                let items = &self.entries[p].items;
                assert(items_of(self.view(), key@) == items@);
                let mut i: usize = 0;
                while i < items.len()
                    invariant
                        i <= items@.len(),
                        items_of(self.view(), key@) == items@,
                        forall|j: int| 0 <= j < i ==> items@[j] != *item,
                    decreases items@.len() - i,
                {
                    if items[i].same_as(item) {
                        proof {
                            assert(items@[i as int] == *item);
                            assert(items@.contains(*item));
                        }
                        return true;
                    }
                    i = i + 1;
                }
                false
            },
        }
    }

    /// Adds `item` to the set of `key`, making the set if `key` has none.
    pub fn insert(&mut self, key: &AccountId, item: T)
        requires
            old(self).wf(),
        ensures
            final(self).wf(),
            final(self).view() == old(self).view().insert(
                key@,
                with_item(items_of(old(self).view(), key@), item),
            ),
    {
        if self.contains(key, &item) {
            proof {
                let m = self.view();
                assert(m.contains_key(key@));
                assert(m.insert(key@, m[key@]) =~= m);
            }
            return;
        }
        let ghost before = self.view();
        match self.position(key) {
            None => {
                let mut items = Vec::new();
                items.push(item);
                let ghost old_keys = self.keys();
                self.entries.push(IndexEntry { key: key.clone(), items });
                proof {
                    assert(self.keys() =~= old_keys.push(key@));
                    assert forall|i: int, j: int|
                        0 <= i < self.keys().len() && 0 <= j < self.keys().len() && i != j
                            implies self.keys()[i] != self.keys()[j] by {
                        if i < old_keys.len() && j < old_keys.len() {
                            assert(old_keys[i] == self.keys()[i]);
                            assert(old_keys[j] == self.keys()[j]);
                        } else if i == old_keys.len() {
                            assert(old_keys[j] == self.keys()[j]);
                            assert(old_keys.contains(self.keys()[j]));
                        } else {
                            assert(old_keys[i] == self.keys()[i]);
                            assert(old_keys.contains(self.keys()[i]));
                        }
                    }
                    assert(items_of(before, key@) =~= Seq::<T>::empty());
                    assert(self.entries@.last().items@ =~= Seq::<T>::empty().push(item));
                    self.lemma_view_at(self.entries@.len() - 1);
                    assert forall|k: Seq<char>| #[trigger] self.view().contains_key(k) == before.insert(key@, Seq::<T>::empty().push(item)).contains_key(k) by {
                        if k != key@ && old_keys.contains(k) {
                            let j = old_keys.index_of(k);
                            assert(self.keys()[j] == k);
                        }
                        if k != key@ && self.keys().contains(k) {
                            let j = self.keys().index_of(k);
                            assert(old_keys[j] == k);
                        }
                    }
                    assert forall|k: Seq<char>| #[trigger] self.view().contains_key(k) && k != key@ implies self.view()[k] == before[k] by {
                        let j = self.keys().index_of(k);
                        assert(self.keys()[j] == k);
                        assert(old_keys[j] == k);
                        assert(old_keys.contains(k));
                        let j0 = old_keys.index_of(k);
                        assert(old_keys[j0] == k);
                        assert(self.keys()[j0] == k);
                    }
                    assert(self.view() =~= before.insert(key@, with_item(items_of(before, key@), item)));
                }
            },
            Some(p) => {
                proof {
                    self.lemma_view_at(p as int);
                }
                let ghost old_entries = self.entries@;
                let ghost old_keys = self.keys();
                let ghost old_items = self.entries@[p as int].items@;
                assert(old_items.no_duplicates());
                assert(!old_items.contains(item));
                self.entries[p].items.push(item);
                proof {
                    assert(self.keys() =~= old_keys);
                    assert(self.entries@[p as int].items@ =~= old_items.push(item));
                    assert forall|i: int|
                        0 <= i < self.entries@.len() implies #[trigger] self.entries@[i].items@.no_duplicates() by {
                        if i != p {
                            assert(self.entries@[i] == old_entries[i]);
                        } else {
                            let s = self.entries@[i].items@;
                            assert forall|a: int, b: int|
                                0 <= a < s.len() && 0 <= b < s.len() && a != b implies s[a] != s[b] by {
                                if b == old_items.len() {
                                    assert(old_items[a] == s[a]);
                                    if s[a] == s[b] {
                                        assert(old_items.contains(item));
                                    }
                                } else if a == old_items.len() {
                                    assert(old_items[b] == s[b]);
                                    if s[a] == s[b] {
                                        assert(old_items.contains(item));
                                    }
                                } else {
                                    assert(old_items[a] == s[a]);
                                    assert(old_items[b] == s[b]);
                                }
                            }
                        }
                    }
                    self.lemma_view_at(p as int);
                    assert forall|k: Seq<char>| #[trigger] self.view().contains_key(k) && k != key@ implies self.view()[k] == before[k] by {
                        let j = self.keys().index_of(k);
                        assert(self.keys()[j] == k);
                        assert(j != p);
                        assert(self.entries@[j] == old_entries[j]);
                    }
                    assert(self.view() =~= before.insert(key@, with_item(items_of(before, key@), item)));
                }
            },
        }
    }

    /// Takes `item` out of the set of `key`. The set itself stays.
    pub fn remove(&mut self, key: &AccountId, item: &T)
        requires
            old(self).wf(),
        ensures
            final(self).wf(),
            final(self).view() == (if old(self).view().contains_key(key@) {
                old(self).view().insert(key@, without_item(old(self).view()[key@], *item))
            } else {
                old(self).view()
            }),
    {
        let ghost before = self.view();
        match self.position(key) {
            None => {},
            Some(p) => {
                proof {
                    self.lemma_view_at(p as int);
                }
                let ghost old_entries = self.entries@;
                let ghost old_keys = self.keys();
                let ghost old_items = self.entries@[p as int].items@;
                assert(old_items.no_duplicates());
                let n = self.entries[p].items.len();
                let mut i: usize = 0;
                while i < n
                    invariant
                        n == old_items.len(),
                        i <= n,
                        p < self.entries@.len(),
                        self.entries@ == old_entries,
                        old_items == old_entries[p as int].items@,
                        forall|j: int| 0 <= j < i ==> old_items[j] != *item,
                    ensures
                        i <= n,
                        self.entries@ == old_entries,
                        i < n ==> old_items[i as int] == *item,
                        forall|j: int| 0 <= j < i ==> old_items[j] != *item,
                    decreases n - i,
                {
                    if self.entries[p].items[i].same_as(item) {
                        break;
                    }
                    i = i + 1;
                }
                if i < n {
                    self.entries[p].items.remove(i);
                    proof {
                        assert(old_items[i as int] == *item);
                        assert(old_items.contains(*item));
                        let k = old_items.index_of(*item);
                        assert(old_items[k] == *item);
                        assert(k == i);
                        let s = self.entries@[p as int].items@;
                        assert(s =~= old_items.remove(i as int));
                        assert(self.keys() =~= old_keys);
                        assert forall|a: int|
                            0 <= a < self.entries@.len() implies #[trigger] self.entries@[a].items@.no_duplicates() by {
                            if a != p {
                                assert(self.entries@[a] == old_entries[a]);
                            } else {
                                assert forall|x: int, y: int|
                                    0 <= x < s.len() && 0 <= y < s.len() && x != y implies s[x] != s[y] by {
                                    let x0 = if x < i { x } else { x + 1 };
                                    let y0 = if y < i { y } else { y + 1 };
                                    assert(s[x] == old_items[x0]);
                                    assert(s[y] == old_items[y0]);
                                }
                            }
                        }
                        self.lemma_view_at(p as int);
                        assert forall|k: Seq<char>| #[trigger] self.view().contains_key(k) && k != key@ implies self.view()[k] == before[k] by {
                            let j = self.keys().index_of(k);
                            assert(self.keys()[j] == k);
                            assert(j != p);
                            assert(self.entries@[j] == old_entries[j]);
                        }
                        assert(self.view() =~= before.insert(key@, without_item(before[key@], *item)));
                    }
                } else {
                    proof {
                        assert(!old_items.contains(*item));
                        assert(before.insert(key@, old_items) =~= before);
                    }
                }
            },
        }
    }

    /// One page of the set of `key`: `take` items from position `skip` on.
    pub fn page(&self, key: &AccountId, skip: usize, take: usize) -> (r: Vec<T>)
        requires
            self.wf(),
        ensures
            r@ == page_of(items_of(self.view(), key@), skip as int, take as int),
    {
        let mut r: Vec<T> = Vec::new();
        match self.position(key) {
            None => {
                assert(r@ =~= page_of(items_of(self.view(), key@), skip as int, take as int));
                r
            },
            Some(p) => {
                proof {
                    self.lemma_view_at(p as int);
                }
                let items = &self.entries[p].items;
                let n = items.len();
                if skip >= n {
                    assert(r@ =~= page_of(items@, skip as int, take as int));
                    return r;
                }
                let end: usize = if take >= n - skip { n } else { skip + take };
                let mut i: usize = skip;
                while i < end
                    invariant
                        skip <= i <= end <= n,
                        n == items@.len(),
                        r@ =~= items@.subrange(skip as int, i as int),
                    decreases end - i,
                {
                    r.push(items[i]);
                    i = i + 1;
                }
                assert(r@ =~= page_of(items@, skip as int, take as int));
                r
            },
        }
    }
}
} // verus!
