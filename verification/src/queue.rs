use vstd::prelude::*;
use crate::rng::random_index;

verus! {

/// Selection policy for `Queue::take`: which tracked object a read or
/// delete request targets. Capacity eviction is always oldest-first,
/// regardless of this mode.
#[derive(Clone, Copy, PartialEq, Eq, Structural)]
pub enum QueueMode {
    /// Return the oldest surviving item.
    Lru,
    /// Return the most recently inserted surviving item.
    Mru,
    /// Return a uniformly random surviving item.
    Rand,
}

/// An identifier (path/key) of an object known to reside on the target.
pub struct QueueItem {
    pub obj: String,
}

impl View for QueueItem {
    type V = Seq<char>;

    open spec fn view(&self) -> Seq<char> {
        self.obj@
    }
}

impl DeepView for QueueItem {
    type V = Seq<char>;

    open spec fn deep_view(&self) -> Seq<char> {
        self.obj@
    }
}

/// One step of insertion into a bounded queue of capacity `cap`: append,
/// and if that would exceed the capacity, evict the oldest item.
pub open spec fn insert_step(q: Seq<Seq<char>>, x: Seq<char>, cap: int) -> Seq<Seq<char>> {
    if q.len() < cap {
        q.push(x)
    } else {
        q.drop_first().push(x)
    }
}

/// The contents of a queue of capacity `cap` after inserting `items` in
/// order into an empty queue.
pub open spec fn contents_after_inserts(items: Seq<Seq<char>>, cap: int) -> Seq<Seq<char>>
    decreases items.len(),
{
    if items.len() == 0 {
        Seq::empty()
    } else {
        insert_step(contents_after_inserts(items.drop_last(), cap), items.last(), cap)
    }
}

/// Bounded tracker of object identifiers known to exist on the target.
/// Insertion beyond the capacity evicts the oldest item; `take` removes
/// and returns an item chosen by the configured selection mode. The view
/// lists the surviving identifiers, oldest first.
pub struct Queue {
    mode: QueueMode,
    capacity: usize,
    items: Vec<QueueItem>,
}

impl View for Queue {
    type V = Seq<Seq<char>>;

    closed spec fn view(&self) -> Seq<Seq<char>> {
        self.items.deep_view()
    }
}

impl Queue {
    pub closed spec fn mode(&self) -> QueueMode {
        self.mode
    }

    pub closed spec fn capacity(&self) -> int {
        self.capacity as int
    }

    /// The queue never holds more items than its capacity.
    pub open spec fn well_formed(&self) -> bool {
        self@.len() <= self.capacity() && self.capacity() >= 1
    }

    pub fn new(mode: QueueMode, capacity: usize) -> (q: Queue)
        requires
            capacity >= 1,
        ensures
            q@ == Seq::<Seq<char>>::empty(),
            q.mode() == mode,
            q.capacity() == capacity as int,
            q.well_formed(),
    {
        let q = Queue { mode, capacity, items: Vec::new() };
        proof {
            assert(q@ =~= Seq::<Seq<char>>::empty());
        }
        q
    }

    pub fn len(&self) -> (n: usize)
        ensures
            n == self@.len(),
    {
        self.items.len()
    }

    /// Append `item`; if the queue was full, evict the oldest item.
    pub fn insert(&mut self, item: QueueItem)
        requires
            old(self).well_formed(),
        ensures
            final(self)@ == insert_step(old(self)@, item@, old(self).capacity()),
            final(self).mode() == old(self).mode(),
            final(self).capacity() == old(self).capacity(),
            final(self).well_formed(),
    {
        let ghost item_view = item@;
        self.items.push(item);
        if self.items.len() > self.capacity {
            self.items.remove(0);
            proof {
                assert(final(self)@ =~= old(self)@.drop_first().push(item_view));
            }
        } else {
            proof {
                assert(final(self)@ =~= old(self)@.push(item_view));
            }
        }
    }

    /// Remove and return one item per the queue's selection mode, or
    /// `None` if the queue is empty. An empty queue is a legitimate
    /// no-op, never an error, and the call never blocks.
    pub fn take(&mut self) -> (r: Option<QueueItem>)
        requires
            old(self).well_formed(),
        ensures
            final(self).mode() == old(self).mode(),
            final(self).capacity() == old(self).capacity(),
            final(self).well_formed(),
            old(self)@.len() == 0 ==> r is None && final(self)@ == old(self)@,
            old(self)@.len() > 0 ==> match r {
                Some(it) => {
                    &&& final(self)@.len() == old(self)@.len() - 1
                    &&& match old(self).mode() {
                        QueueMode::Lru => it@ == old(self)@.first() && final(self)@
                            == old(self)@.drop_first(),
                        QueueMode::Mru => it@ == old(self)@.last() && final(self)@
                            == old(self)@.drop_last(),
                        QueueMode::Rand => exists|i: int|
                            0 <= i < old(self)@.len() && it@ == old(self)@[i] && final(self)@
                                == old(self)@.remove(i),
                    }
                },
                None => false,
            },
    {
        if self.items.len() == 0 {
            proof {
                assert(final(self)@ =~= old(self)@);
            }
            return None;
        }
        match self.mode {
            QueueMode::Lru => {
                let it = self.items.remove(0);
                proof {
                    assert(final(self)@ =~= old(self)@.drop_first());
                }
                Some(it)
            },
            QueueMode::Mru => {
                let it = self.items.pop().unwrap();
                proof {
                    assert(final(self)@ =~= old(self)@.drop_last());
                }
                Some(it)
            },
            QueueMode::Rand => {
                let i = random_index(self.items.len());
                let it = self.items.remove(i);
                proof {
                    old(self)@.remove_ensures(i as int);
                    assert(final(self)@ =~= old(self)@.remove(i as int));
                }
                Some(it)
            },
        }
    }
}

/// Capacity eviction law: after inserting `items` in order into an empty
/// queue of capacity `cap`, exactly `min(items.len(), cap)` identifiers
/// survive, and they are exactly the most recently inserted ones, in
/// insertion order — independent of the selection mode, which plays no
/// part in insertion.
pub proof fn lemma_bounded_inserts(items: Seq<Seq<char>>, cap: int)
    requires
        cap >= 1,
    ensures
        contents_after_inserts(items, cap).len() == vstd::math::min(items.len() as int, cap),
        items.len() <= cap ==> contents_after_inserts(items, cap) == items,
        items.len() > cap ==> contents_after_inserts(items, cap) == items.skip(
            items.len() - cap,
        ),
    decreases items.len(),
{
    if items.len() == 0 {
        assert(contents_after_inserts(items, cap) =~= items);
    } else {
        let prev = contents_after_inserts(items.drop_last(), cap);
        lemma_bounded_inserts(items.drop_last(), cap);
        if prev.len() < cap {
            assert(contents_after_inserts(items, cap) =~= items);
        } else {
            if items.len() - 1 <= cap {
                assert(prev == items.drop_last());
                assert(contents_after_inserts(items, cap) =~= items.skip(items.len() - cap));
            } else {
                assert(prev == items.drop_last().skip(items.len() - 1 - cap));
                assert(contents_after_inserts(items, cap) =~= items.skip(items.len() - cap));
            }
        }
    }
}

} // verus!
