//! Working memory: a small cache of memory items with least-recently-used
//! eviction.

use vstd::prelude::*;
use std::collections::{HashMap, VecDeque};
use crate::memory::{accessed, MemoryItem};
use crate::strings::chars_of;
use crate::text::{contains_chars, lowercase, text_contains, to_lowercase};

verus! {

broadcast use vstd::std_specs::hash::group_hash_axioms;

/// How many items a cache of `capacity` holds at most: its capacity, or one
/// when that is zero (a new item is still stored).
pub open spec fn size_limit(capacity: usize) -> nat {
    if capacity == 0 {
        1
    } else {
        capacity as nat
    }
}

/// Working memory: items by id, and their ids from least to most recently
/// used.
#[derive(Debug)]
pub struct WorkingMemory {
    capacity: usize,
    items: HashMap<u128, MemoryItem>,
    lru_queue: VecDeque<u128>,
}

/// The item mentions the query: its lowercase content, or the lowercase form
/// of one of its tags, holds the lowercase query.
pub open spec fn mentions(item: MemoryItem, query: Seq<char>) -> bool {
    ||| text_contains(lowercase(item.content@), lowercase(query))
    ||| exists|i: int|
        0 <= i < item.tags@.len() && text_contains(lowercase((#[trigger] item.tags@[i])@), lowercase(query))
}

/// The ids, in order, whose items mention the query.
pub open spec fn matching(order: Seq<u128>, entries: Map<u128, MemoryItem>, query: Seq<char>) -> Seq<u128>
    decreases order.len(),
{
    if order.len() == 0 {
        Seq::empty()
    } else if mentions(entries[order.last()], query) {
        matching(order.drop_last(), entries, query).push(order.last())
    } else {
        matching(order.drop_last(), entries, query)
    }
}

/// Whether the item mentions the query, given the query's lowercase
/// characters.
fn item_mentions(item: &MemoryItem, low_query: &Vec<char>, Ghost(query): Ghost<Seq<char>>) -> (b: bool)
    requires
        low_query@ == lowercase(query),
    ensures
        b == mentions(*item, query),
{
    let content = to_lowercase(&item.content);
    if contains_chars(&chars_of(content.as_str()), low_query) {
        return true;
    }
    let mut i: usize = 0;
    while i < item.tags.len()
        invariant
            low_query@ == lowercase(query),
            i <= item.tags@.len(),
            forall|k: int| 0 <= k < i ==> !text_contains(lowercase((#[trigger] item.tags@[k])@), lowercase(query)),
        decreases item.tags.len() - i,
    {
        let tag = to_lowercase(&item.tags[i]);
        if contains_chars(&chars_of(tag.as_str()), low_query) {
            return true;
        }
        i = i + 1;
    }
    false
}

impl WorkingMemory {
    /// The items by id.
    pub closed spec fn entries(self) -> Map<u128, MemoryItem> {
        self.items@
    }

    /// The ids, from least to most recently used.
    pub closed spec fn order(self) -> Seq<u128> {
        self.lru_queue@
    }

    /// The capacity.
    pub closed spec fn cap(self) -> usize {
        self.capacity
    }

    /// Every id occurs once in the order, the order holds exactly the ids of
    /// the items, each item is stored under its own id, and there are no more
    /// items than the size limit.
    pub closed spec fn wf(self) -> bool {
        &&& self.consistent()
        &&& self.lru_queue@.len() <= size_limit(self.capacity)
    }

    /// The order and the items agree: each id once, exactly the items' ids,
    /// each item under its own id.
    closed spec fn consistent(self) -> bool {
        &&& self.lru_queue@.no_duplicates()
        &&& forall|id: u128| self.items@.contains_key(id) <==> self.lru_queue@.contains(id)
        &&& forall|id: u128| #[trigger] self.items@.contains_key(id) ==> self.items@[id].id == id
    }

    /// In a well-formed cache the order lists each item once.
    pub proof fn lemma_wf(self)
        requires
            self.wf(),
        ensures
            self.order().no_duplicates(),
            forall|id: u128| self.entries().contains_key(id) <==> self.order().contains(id),
            forall|id: u128| #[trigger] self.entries().contains_key(id) ==> self.entries()[id].id == id,
            self.entries().len() == self.order().len(),
            self.order().len() <= size_limit(self.cap()),
            self.entries().dom().finite(),
    {
        let q = self.lru_queue@;
        q.unique_seq_to_set();
        assert(self.items@.dom() =~= q.to_set());
    }

    /// A cache of the default capacity, ten.
    pub fn new() -> (wm: WorkingMemory)
        ensures
            wm.wf(),
            wm.cap() == 10,
            wm.order().len() == 0,
            wm.entries() == Map::<u128, MemoryItem>::empty(),
    {
        WorkingMemory::with_capacity(10)
    }

    /// An empty cache of this capacity.
    pub fn with_capacity(capacity: usize) -> (wm: WorkingMemory)
        ensures
            wm.wf(),
            wm.cap() == capacity,
            wm.order().len() == 0,
            wm.entries() == Map::<u128, MemoryItem>::empty(),
    {
        let wm = WorkingMemory { capacity, items: HashMap::new(), lru_queue: VecDeque::new() };
        proof {
            assert(wm.lru_queue@.no_duplicates());
        }
        wm
    }

    /// Position of `id` in the order.
    fn position(&self, id: u128) -> (i: usize)
        requires
            self.wf(),
            self.lru_queue@.contains(id),
        ensures
            i < self.lru_queue@.len(),
            self.lru_queue@[i as int] == id,
            i == self.lru_queue@.index_of(id),
    {
        let ghost q = self.lru_queue@;
        let mut i: usize = 0;
        while i < self.lru_queue.len()
            invariant
                q == self.lru_queue@,
                q.contains(id),
                q.no_duplicates(),
                i <= q.len(),
                forall|k: int| 0 <= k < i ==> q[k] != id,
            decreases self.lru_queue.len() - i,
        {
            if self.lru_queue[i] == id {
                proof {
                    let j = q.index_of(id);
                    assert(q[j] == id);
                    assert(j == i);
                }
                return i;
            }
            i = i + 1;
        }
        proof {
            let j = q.index_of(id);
            assert(q[j] == id);
        }
        i
    }

    /// Move `id` to the most recently used end.
    fn promote(&mut self, id: u128)
        requires
            old(self).wf(),
            old(self).lru_queue@.contains(id),
        ensures
            final(self).lru_queue@ == old(self).lru_queue@.remove(old(self).lru_queue@.index_of(id)).push(
                id,
            ),
            final(self).items == old(self).items,
            final(self).capacity == old(self).capacity,
            final(self).lru_queue@.no_duplicates(),
            forall|x: u128| final(self).lru_queue@.contains(x) <==> old(self).lru_queue@.contains(x),
            final(self).lru_queue@.len() == old(self).lru_queue@.len(),
    {
        let ghost q = self.lru_queue@;
        let i = self.position(id);
        self.lru_queue.remove(i);
        self.lru_queue.push_back(id);
        proof {
            let r = q.remove(i as int);
            assert forall|x: u128| r.push(id).contains(x) <==> q.contains(x) by {
                if q.contains(x) && x != id {
                    let k = choose|k: int| 0 <= k < q.len() && q[k] == x;
                    if k < i {
                        assert(r[k] == x);
                    } else {
                        assert(k != i);
                        assert(r[k - 1] == x);
                    }
                    assert(r.push(id)[k - (if k < i { 0int } else { 1int })] == x);
                }
                if x == id {
                    assert(r.push(id)[r.len() as int] == id);
                }
            }
            assert forall|a: int, b: int| 0 <= a < b < r.push(id).len() implies r.push(id)[a] != r.push(
                id,
            )[b] by {
                let s = r.push(id);
                if b == r.len() {
                    if a < i {
                        assert(s[a] == q[a]);
                    } else {
                        assert(s[a] == q[a + 1]);
                    }
                } else {
                    let qa = if a < i { a } else { a + 1 };
                    let qb = if b < i { b } else { b + 1 };
                    assert(s[a] == q[qa]);
                    assert(s[b] == q[qb]);
                }
            }
        }
    }

    /// Store an item. An item already held (by id) is replaced, marked as
    /// accessed and becomes the most recently used; nothing is evicted. A
    /// new item is added as the most recently used; when the cache is full,
    /// the least recently used item is evicted first and returned.
    pub fn store(&mut self, item: MemoryItem) -> (r: Option<MemoryItem>)
        requires
            old(self).wf(),
            old(self).entries().contains_key(item.id) ==> item.access_count < u32::MAX,
        ensures
            final(self).wf(),
            final(self).cap() == old(self).cap(),
            old(self).entries().contains_key(item.id) ==> {
                &&& r is None
                &&& final(self).order() == old(self).order().remove(
                    old(self).order().index_of(item.id),
                ).push(item.id)
                &&& final(self).entries().dom() == old(self).entries().dom()
                &&& accessed(item, final(self).entries()[item.id])
                &&& forall|k: u128|
                    k != item.id ==> #[trigger] final(self).entries().get(k) == old(self).entries().get(k)
            },
            !old(self).entries().contains_key(item.id) && old(self).order().len() >= old(self).cap()
                && old(self).order().len() > 0 ==> {
                &&& r == Some(old(self).entries()[old(self).order()[0]])
                &&& final(self).order() == old(self).order().drop_first().push(item.id)
                &&& final(self).entries() == old(self).entries().remove(old(self).order()[0]).insert(
                    item.id,
                    item,
                )
            },
            !old(self).entries().contains_key(item.id) && (old(self).order().len() < old(self).cap()
                || old(self).order().len() == 0) ==> {
                &&& r is None
                &&& final(self).order() == old(self).order().push(item.id)
                &&& final(self).entries() == old(self).entries().insert(item.id, item)
            },
    {
        proof {
            self.lemma_wf();
        }
        let id = item.id;
        if self.items.contains_key(&id) {
            let ghost before = self.items@;
            self.promote(id);
            let mut item = item;
            item.access();
            self.items.insert(id, item);
            proof {
                assert forall|k: u128| #[trigger] self.items@.contains_key(k) implies self.items@[k].id == k by {
                    if k != id {
                        assert(before.contains_key(k));
                    }
                }
            }
            return None;
        }
        let len = self.items.len();
        let ghost q = self.lru_queue@;
        let ghost m = self.items@;
        let evicted = if len >= self.capacity {
            match self.lru_queue.pop_front() {
                Some(evicted_id) => {
                    let out = self.items.remove(&evicted_id);
                    proof {
                        assert(q[0] == evicted_id);
                        assert(q.contains(evicted_id));
                        assert forall|x: u128| self.items@.contains_key(x) <==> self.lru_queue@.contains(x) by {
                            if self.lru_queue@.contains(x) {
                                let k = choose|k: int| 0 <= k < self.lru_queue@.len() && self.lru_queue@[k] == x;
                                assert(q[k + 1] == x);
                                assert(q.contains(x));
                            }
                            if self.items@.contains_key(x) {
                                assert(q.contains(x));
                                let k = choose|k: int| 0 <= k < q.len() && q[k] == x;
                                assert(k != 0);
                                assert(self.lru_queue@[k - 1] == x);
                            }
                        }
                        assert(self.consistent());
                    }
                    out
                },
                None => None,
            }
        } else {
            None
        };
        proof {
            assert(self.consistent());
            assert(!self.lru_queue@.contains(id));
        }
        let ghost mid_items = self.items@;
        let ghost mid_queue = self.lru_queue@;
        self.items.insert(id, item);
        self.lru_queue.push_back(id);
        proof {
            assert forall|x: u128| self.items@.contains_key(x) <==> self.lru_queue@.contains(x) by {
                if x == id {
                    assert(self.lru_queue@[mid_queue.len() as int] == id);
                } else if mid_queue.contains(x) {
                    let k = choose|k: int| 0 <= k < mid_queue.len() && mid_queue[k] == x;
                    assert(self.lru_queue@[k] == x);
                } else if self.lru_queue@.contains(x) {
                    let k = choose|k: int| 0 <= k < self.lru_queue@.len() && self.lru_queue@[k] == x;
                    assert(mid_queue[k] == x);
                }
            }
            assert forall|a: int, b: int| 0 <= a < b < self.lru_queue@.len() implies self.lru_queue@[a]
                != self.lru_queue@[b] by {
                if b == mid_queue.len() {
                    assert(mid_queue.contains(self.lru_queue@[a]));
                }
            }
        }
        evicted
    }

    /// Fetch an item by id, marking it as accessed and most recently used.
    pub fn get(&mut self, id: &u128) -> (r: Option<&MemoryItem>)
        requires
            old(self).wf(),
            old(self).entries().contains_key(*id) ==> old(self).entries()[*id].access_count < u32::MAX,
        ensures
            final(self).wf(),
            final(self).cap() == old(self).cap(),
            old(self).entries().contains_key(*id) ==> {
                &&& r is Some
                &&& *r->0 == final(self).entries()[*id]
                &&& final(self).order() == old(self).order().remove(old(self).order().index_of(*id)).push(
                    *id,
                )
                &&& final(self).entries().dom() == old(self).entries().dom()
                &&& accessed(old(self).entries()[*id], final(self).entries()[*id])
                &&& forall|k: u128|
                    k != *id ==> #[trigger] final(self).entries().get(k) == old(self).entries().get(k)
            },
            !old(self).entries().contains_key(*id) ==> r is None && final(self).order() == old(
                self,
            ).order() && final(self).entries() == old(self).entries(),
    {
        proof {
            self.lemma_wf();
        }
        if !self.items.contains_key(id) {
            return None;
        }
        let key = *id;
        let ghost before = self.items@;
        self.promote(key);
        let taken = self.items.remove(id);
        match taken {
            Some(mut item) => {
                item.access();
                self.items.insert(key, item);
                proof {
                    assert forall|k: u128| #[trigger] self.items@.contains_key(k) implies self.items@[k].id == k by {
                        if k != key {
                            assert(before.contains_key(k));
                        }
                    }
                    assert(self.items@.dom() =~= before.dom());
                }
            },
            None => {},
        }
        self.items.get(id)
    }

    /// The items, most recently used first.
    pub fn get_all(&self) -> (r: Vec<&MemoryItem>)
        requires
            self.wf(),
        ensures
            r@.len() == self.order().len(),
            forall|i: int|
                0 <= i < r@.len() ==> *#[trigger] r@[i] == self.entries()[self.order()[self.order().len()
                    - 1 - i]],
    {
        let n = self.lru_queue.len();
        let mut r: Vec<&MemoryItem> = Vec::new();
        let mut i: usize = n;
        while i > 0
            invariant
                self.wf(),
                n == self.lru_queue@.len(),
                i <= n,
                r@.len() == n - i,
                forall|k: int|
                    0 <= k < r@.len() ==> *#[trigger] r@[k] == self.items@[self.lru_queue@[n - 1 - k]],
            decreases i,
        {
            let id = self.lru_queue[i - 1];
            proof {
                assert(self.lru_queue@.contains(id));
            }
            match self.items.get(&id) {
                Some(item) => {
                    r.push(item);
                },
                None => {},
            }
            i = i - 1;
        }
        r
    }

    /// Whether an item with this id is held.
    pub fn contains(&self, id: &u128) -> (b: bool)
        requires
            self.wf(),
        ensures
            b == self.entries().contains_key(*id),
    {
        self.items.contains_key(id)
    }

    /// Number of items held.
    pub fn len(&self) -> (n: usize)
        requires
            self.wf(),
        ensures
            n == self.entries().len(),
            n == self.order().len(),
    {
        proof {
            self.lemma_wf();
        }
        self.items.len()
    }

    /// Whether no item is held.
    pub fn is_empty(&self) -> (b: bool)
        requires
            self.wf(),
        ensures
            b == (self.order().len() == 0),
    {
        proof {
            self.lemma_wf();
        }
        self.items.len() == 0
    }

    /// The capacity.
    pub fn capacity(&self) -> (c: usize)
        ensures
            c == self.cap(),
    {
        self.capacity
    }

    /// Drop every item.
    pub fn clear(&mut self)
        ensures
            final(self).wf(),
            final(self).cap() == old(self).cap(),
            final(self).order().len() == 0,
            final(self).entries() == Map::<u128, MemoryItem>::empty(),
    {
        self.items.clear();
        self.lru_queue.clear();
        proof {
            assert(self.lru_queue@.no_duplicates());
        }
    }

    /// Mark as accessed every item that mentions the query (its content or
    /// one of its tags, compared in lowercase), and give their ids, least
    /// recently used first; the order of use is left as it was.
    pub fn query_matches(&mut self, query: &String) -> (r: Vec<u128>)
        requires
            old(self).wf(),
            forall|id: u128|
                #[trigger] old(self).entries().contains_key(id) && mentions(old(self).entries()[id], query@)
                    ==> old(self).entries()[id].access_count < u32::MAX,
        ensures
            final(self).wf(),
            final(self).cap() == old(self).cap(),
            final(self).order() == old(self).order(),
            r@ == matching(old(self).order(), old(self).entries(), query@),
            final(self).entries().dom() == old(self).entries().dom(),
            forall|id: u128|
                #[trigger] old(self).entries().contains_key(id) ==> if mentions(old(self).entries()[id], query@) {
                    accessed(old(self).entries()[id], final(self).entries()[id])
                } else {
                    final(self).entries()[id] == old(self).entries()[id]
                },
    {
        let ghost start = self.items@;
        let ghost q0 = self.lru_queue@;
        let ghost cap0 = self.capacity;
        proof {
            assert forall|id: u128| #[trigger] start.contains_key(id) && mentions(start[id], query@) implies start[id].access_count
                < u32::MAX by {
                assert(old(self).entries().contains_key(id));
            }
        }
        let low = to_lowercase(query);
        let low_query = chars_of(low.as_str());
        let mut found: Vec<u128> = Vec::new();
        let mut i: usize = 0;
        proof {
            assert(self.lru_queue@.take(0) =~= Seq::<u128>::empty());
        }
        while i < self.lru_queue.len()
            invariant
                self.wf(),
                self.lru_queue@ == q0,
                self.capacity == cap0,
                low_query@ == lowercase(query@),
                i <= self.lru_queue@.len(),
                self.items@.dom() == start.dom(),
                forall|id: u128|
                    #[trigger] start.contains_key(id) && mentions(start[id], query@) ==> start[id].access_count
                        < u32::MAX,
                found@ == matching(self.lru_queue@.take(i as int), start, query@),
                forall|k: int|
                    0 <= k < self.lru_queue@.len() ==> if k < i && mentions(start[self.lru_queue@[k]], query@) {
                        accessed(start[self.lru_queue@[k]], self.items@[#[trigger] self.lru_queue@[k]])
                    } else {
                        self.items@[self.lru_queue@[k]] == start[self.lru_queue@[k]]
                    },
            decreases self.lru_queue.len() - i,
        {
            let id = self.lru_queue[i];
            proof {
                assert(self.lru_queue@.contains(id));
                assert(self.lru_queue@.take(i as int + 1).drop_last() =~= self.lru_queue@.take(i as int));
                assert(self.lru_queue@.take(i as int + 1).last() == id);
                assert(self.items@[id] == start[id]);
            }
            let hit = match self.items.get(&id) {
                Some(item) => item_mentions(item, &low_query, Ghost(query@)),
                None => false,
            };
            if hit {
                let ghost before = self.items@;
                match self.items.remove(&id) {
                    Some(mut item) => {
                        item.access();
                        self.items.insert(id, item);
                    },
                    None => {},
                }
                found.push(id);
                proof {
                    assert(self.items@.dom() =~= before.dom());
                    assert forall|k: int|
                        0 <= k < self.lru_queue@.len() && k != i implies self.items@[#[trigger] self.lru_queue@[k]]
                            == before[self.lru_queue@[k]] by {
                        assert(self.lru_queue@[k] != id);
                    }
                }
            }
            i = i + 1;
        }
        proof {
            assert(self.lru_queue@.take(self.lru_queue@.len() as int) =~= self.lru_queue@);
            assert forall|id: u128| #[trigger] start.contains_key(id) implies if mentions(start[id], query@) {
                accessed(start[id], self.items@[id])
            } else {
                self.items@[id] == start[id]
            } by {
                assert(self.lru_queue@.contains(id));
                let k = choose|k: int| 0 <= k < self.lru_queue@.len() && self.lru_queue@[k] == id;
                assert(self.lru_queue@[k] == id);
            }
        }
        found
    }

    /// The least recently used item, if any.
    pub fn peek_lru(&self) -> (r: Option<&MemoryItem>)
        requires
            self.wf(),
        ensures
            self.order().len() == 0 ==> r is None,
            self.order().len() > 0 ==> r is Some && *r->0 == self.entries()[self.order()[0]],
    {
        if self.lru_queue.len() == 0 {
            return None;
        }
        let id = self.lru_queue[0];
        proof {
            assert(self.lru_queue@.contains(id));
        }
        self.items.get(&id)
    }

    /// The most recently used item, if any.
    pub fn peek_mru(&self) -> (r: Option<&MemoryItem>)
        requires
            self.wf(),
        ensures
            self.order().len() == 0 ==> r is None,
            self.order().len() > 0 ==> r is Some && *r->0 == self.entries()[self.order().last()],
    {
        let n = self.lru_queue.len();
        if n == 0 {
            return None;
        }
        let id = self.lru_queue[n - 1];
        proof {
            assert(self.lru_queue@.contains(id));
        }
        self.items.get(&id)
    }
}

impl Default for WorkingMemory {
    /// A cache of the default capacity, ten.
    fn default() -> (wm: WorkingMemory)
        ensures
            wm.wf(),
            wm.cap() == 10,
            wm.order().len() == 0,
    {
        WorkingMemory::new()
    }
}

/// A well-formed cache of positive capacity never holds more items than its
/// capacity.
pub proof fn law_within_capacity(wm: WorkingMemory)
    requires
        wm.wf(),
        wm.cap() > 0,
    ensures
        wm.entries().len() <= wm.cap(),
{
    wm.lemma_wf();
}

} // verus!
