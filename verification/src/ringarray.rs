use vstd::prelude::*;

verus! {

/// What a ring buffer of capacity `cap` holds after `item` is pushed onto
/// contents `s`: the item is appended, and when the buffer was already full
/// the oldest item is dropped.
pub open spec fn ring_push<T>(s: Seq<T>, cap: nat, item: T) -> Seq<T> {
    if s.len() < cap {
        s.push(item)
    } else {
        s.push(item).drop_first()
    }
}

/// What a ring buffer of capacity `cap` holds after each of `items` is pushed
/// onto contents `s`, in order.
pub open spec fn ring_push_all<T>(s: Seq<T>, cap: nat, items: Seq<T>) -> Seq<T>
    decreases items.len(),
{
    if items.len() == 0 {
        s
    } else {
        ring_push_all(ring_push(s, cap, items[0]), cap, items.drop_first())
    }
}

/// The last `n` items of `s`, or all of `s` where it has no more than `n`.
pub open spec fn last_n<T>(s: Seq<T>, n: nat) -> Seq<T> {
    if s.len() <= n {
        s
    } else {
        s.subrange(s.len() - n, s.len() as int)
    }
}

/// Whatever is pushed, a ring buffer of positive capacity holds exactly the
/// most recent items, oldest first: the last `cap` of everything it held and
/// everything pushed since, or all of them where there are fewer.
pub proof fn lemma_ring_keeps_most_recent<T>(s: Seq<T>, cap: nat, items: Seq<T>)
    requires
        cap > 0,
        s.len() <= cap,
    ensures
        ring_push_all(s, cap, items) == last_n(s + items, cap),
        ring_push_all(s, cap, items).len() <= cap,
    decreases items.len(),
{
    if items.len() == 0 {
        assert(s + items =~= s);
    } else {
        let s1 = ring_push(s, cap, items[0]);
        let rest = items.drop_first();
        lemma_ring_keeps_most_recent(s1, cap, rest);
        let all = s + items;
        assert(s1 == last_n(s.push(items[0]), cap));
        if s.len() < cap {
            assert(s1 + rest =~= all);
        } else {
            assert(s1 + rest =~= all.subrange(1, all.len() as int));
            let t = all.subrange(1, all.len() as int);
            if t.len() > cap {
                assert(last_n(t, cap) =~= last_n(all, cap));
            } else {
                assert(last_n(t, cap) =~= last_n(all, cap));
            }
        }
    }
}

/// Struct representing a ring buffer of arbitrary objects.
/// The ring buffer can hold at most `capacity` elements.
/// When the size of the ring buffer exceeds `capacity` elements,
/// adding elements will cause the oldest element in the buffer
/// to be dropped.
pub struct RingArray<T> {
    data: Vec<Option<T>>,
    head: usize,
    capacity: usize,
    count: usize,
}

impl<T> RingArray<T> {
    /// The most items the buffer holds at once.
    pub closed spec fn cap(&self) -> nat {
        self.capacity as nat
    }

    /// Slot of `data` that holds the oldest item.
    spec fn start(&self) -> int {
        if self.count < self.capacity {
            0
        } else {
            self.head as int
        }
    }

    /// Slot of `data` that holds the item at position `k` (oldest first).
    spec fn slot(&self, k: int) -> int {
        if self.start() + k < self.capacity {
            self.start() + k
        } else {
            self.start() + k - self.capacity
        }
    }

    /// The internal invariant that every constructor establishes and every
    /// method keeps.
    pub closed spec fn wf(&self) -> bool {
        &&& self.data@.len() == self.capacity
        &&& self.count <= self.capacity
        &&& (self.capacity > 0 ==> self.head < self.capacity)
        &&& (self.capacity == 0 ==> self.head == 0)
        &&& (self.count < self.capacity ==> self.head == self.count)
        &&& forall|k: int| 0 <= k < self.count ==> (#[trigger] self.data@[self.slot(k)]) is Some
    }
}

impl<T> RingArray<T> {
    /// A valid ring buffer never holds more than its capacity.
    pub proof fn lemma_len_at_most_cap(&self)
        requires
            self.wf(),
        ensures
            self@.len() <= self.cap(),
    {
    }
}

impl<T> View for RingArray<T> {
    type V = Seq<T>;

    /// The items held, oldest first.
    closed spec fn view(&self) -> Seq<T> {
        Seq::new(self.count as nat, |k: int| self.data@[self.slot(k)]->Some_0)
    }
}

impl<T: Clone> RingArray<T> {
    /// An empty ring buffer that holds at most `capacity` items.
    pub fn new(capacity: usize) -> (r: Self)
        ensures
            r.wf(),
            r@ == Seq::<T>::empty(),
            r.cap() == capacity,
    {
        let mut data: Vec<Option<T>> = Vec::new();
        let mut i: usize = 0;
        while i < capacity
            invariant
                i <= capacity,
                data@.len() == i,
            decreases capacity - i,
        {
            data.push(None);
            i = i + 1;
        }
        let r = RingArray { data, head: 0, capacity, count: 0 };
        assert(r@ =~= Seq::<T>::empty());
        r
    }

    /// Adds `item` as the newest item; when the buffer is full the oldest
    /// item is dropped.
    pub fn push(&mut self, item: T)
        requires
            old(self).wf(),
            old(self).cap() > 0,
        ensures
            final(self).wf(),
            final(self).cap() == old(self).cap(),
            final(self)@ == ring_push(old(self)@, old(self).cap(), item),
            final(self)@.len() <= final(self).cap(),
    {
        let ghost old_view = self@;
        let ghost old_self = *self;
        let h = self.head;
        self.data.set(h, Some(item));
        if self.head + 1 == self.capacity {
            self.head = 0;
        } else {
            self.head = self.head + 1;
        }
        if self.count < self.capacity {
            self.count = self.count + 1;
        }
        proof {
            let expected = ring_push(old_view, old_self.capacity as nat, item);
            assert forall|k: int| 0 <= k < self.count implies {
                &&& (#[trigger] self.data@[self.slot(k)]) is Some
                &&& self@[k] == expected[k]
            } by {
                if old_self.count < old_self.capacity {
                    assert(self.slot(k) == k);
                    if k < old_self.count {
                        assert(old_self.slot(k) == k);
                    }
                } else if k + 1 < old_self.count {
                    assert(self.slot(k) == old_self.slot(k + 1));
                }
            }
            assert(self@ =~= expected);
        }
    }

    /// The items held, oldest first.
    pub fn iter(&self) -> (r: Vec<&T>)
        requires
            self.wf(),
        ensures
            r@.len() == self@.len(),
            forall|k: int| 0 <= k < r@.len() ==> *(#[trigger] r@[k]) == self@[k],
    {
        let start_index = if self.count < self.capacity {
            0
        } else {
            self.head
        };
        let mut r: Vec<&T> = Vec::new();
        let mut i: usize = 0;
        while i < self.count
            invariant
                self.wf(),
                i <= self.count,
                start_index == self.start(),
                r@.len() == i,
                forall|k: int| 0 <= k < i ==> *(#[trigger] r@[k]) == self@[k],
            decreases self.count - i,
        {
            let idx = if i < self.capacity - start_index {
                start_index + i
            } else {
                i - (self.capacity - start_index)
            };
            assert(idx == self.slot(i as int));
            assert(self.data@[self.slot(i as int)] is Some);
            let item = self.data[idx].as_ref().unwrap();
            r.push(item);
            i = i + 1;
        }
        r
    }

    /// The number of items held.
    pub fn len(&self) -> (n: usize)
        requires
            self.wf(),
        ensures
            n == self@.len(),
            n <= self.cap(),
    {
        self.count
    }
}

} // verus!
