use vstd::prelude::*;

verus! {

/// Items stored in a [`History`] must offer an executable equality test that
/// agrees with equality of their deep views; the adjacent-duplicate
/// suppression of [`History::push`] is specified in terms of that view.
pub trait HistoryItem: Sized + DeepView {
    fn same_as(&self, other: &Self) -> (r: bool)
        ensures
            r == (self.deep_view() == other.deep_view()),
    ;
}

impl HistoryItem for String {
    fn same_as(&self, other: &Self) -> (r: bool) {
        self.eq(other)
    }
}

/// Mathematical value of a [`History`]: the retained items (index 0 is the
/// oldest, the last index the most recent), the look-back depth, and the
/// capacity of the ring.
#[verifier::ext_equal]
pub struct HistView<V> {
    pub items: Seq<V>,
    pub lookback: nat,
    pub capacity: nat,
}

impl<V> HistView<V> {
    /// Model-level invariant: the ring retains at most `capacity` items and
    /// the look-back cursor stays on a retained item.
    pub open spec fn wf(self) -> bool {
        &&& self.items.len() <= self.capacity
        &&& self.items.len() == 0 ==> self.lookback == 0
        &&& self.items.len() > 0 ==> self.lookback < self.items.len()
    }

    /// The item currently viewed, honouring the look-back depth.
    pub open spec fn current(self) -> V
        recommends
            self.items.len() > 0,
    {
        self.items[self.items.len() - 1 - self.lookback]
    }

    /// The item currently viewed, or `None` when nothing is retained.
    pub open spec fn current_opt(self) -> Option<V> {
        if self.items.len() > 0 {
            Some(self.current())
        } else {
            None
        }
    }

    /// Whether a `look_back` call would move the cursor.
    pub open spec fn can_look_back(self) -> bool {
        self.lookback + 1 < self.items.len()
    }

    /// The items still retained after the branch beyond the look-back cursor
    /// is discarded.
    pub open spec fn kept(self) -> Seq<V> {
        self.items.take(self.items.len() - self.lookback)
    }

    /// The model after `push(v)`: the look-back branch is discarded; then `v`
    /// is appended unless it equals the (new) latest item, evicting the
    /// oldest item when the ring is full.  A zero-capacity history never
    /// retains anything.
    pub open spec fn pushed(self, v: V) -> HistView<V> {
        let kept = self.kept();
        let items = if kept.len() > 0 && kept.last() == v {
            kept
        } else if self.capacity == 0 {
            kept
        } else if kept.len() < self.capacity {
            kept.push(v)
        } else {
            kept.skip(1).push(v)
        };
        HistView { items, lookback: 0, capacity: self.capacity }
    }

    /// The model after `look_back()`.
    pub open spec fn after_look_back(self) -> HistView<V> {
        if self.can_look_back() {
            HistView { lookback: self.lookback + 1, ..self }
        } else {
            self
        }
    }

    /// The model after `advance()`.
    pub open spec fn after_advance(self) -> HistView<V> {
        if self.lookback > 0 {
            HistView { lookback: (self.lookback - 1) as nat, ..self }
        } else {
            self
        }
    }
}

/// A bounded circular log of visited items.
///
/// The backing vector is used as a ring: the retained item with logical
/// index `i` lives at physical slot `(i + offset) mod capacity`.  Slots that
/// no longer hold a retained item keep their stale value; the backing vector
/// grows lazily up to `capacity` slots.
pub struct History<T> {
    vec: Vec<T>,
    len: usize,
    offset: usize,
    lookback: usize,
    capacity: usize,
}

impl<T: HistoryItem> History<T> {
    /// Physical slot of logical index `i`.
    closed spec fn slot(&self, i: int) -> int {
        if i + self.offset >= self.capacity {
            i + self.offset - self.capacity
        } else {
            i + self.offset
        }
    }

    /// Representation invariant of the ring.
    pub closed spec fn wf(&self) -> bool {
        &&& self.len <= self.capacity
        &&& self.len == 0 ==> self.lookback == 0 && self.offset == 0 && self.vec.len() == 0
        &&& self.len > 0 ==> self.lookback < self.len
        &&& if self.offset == 0 {
            self.len <= self.vec.len() && self.vec.len() <= self.capacity
        } else {
            self.offset < self.capacity && self.vec.len() == self.capacity
        }
    }

    pub proof fn lemma_wf_view(&self)
        requires
            self.wf(),
        ensures
            self@.wf(),
    {
    }

    pub fn new(capacity: usize) -> (r: Self)
        ensures
            r.wf(),
            r@.items == Seq::<T::V>::empty(),
            r@.lookback == 0,
            r@.capacity == capacity,
    {
        let h = Self { vec: Vec::new(), len: 0, offset: 0, lookback: 0, capacity };
        proof {
            assert(h@.items =~= Seq::<T::V>::empty());
        }
        h
    }

    /// Changes the capacity of the ring.  May only be called while the
    /// history is still empty, i.e. before the first `push`.
    pub fn set_capacity(&mut self, capacity: usize)
        requires
            old(self).wf(),
            old(self)@.items.len() == 0,
        ensures
            final(self).wf(),
            final(self)@.items == old(self)@.items,
            final(self)@.lookback == 0,
            final(self)@.capacity == capacity,
    {
        self.capacity = capacity;
        proof {
            assert(final(self)@.items =~= old(self)@.items);
        }
    }

    fn get_offset_index(&self, i: usize) -> (r: usize)
        requires
            self.wf(),
            i <= self.len,
        ensures
            r == self.slot(i as int),
    {
        if i >= self.capacity - self.offset {
            i - (self.capacity - self.offset)
        } else {
            i + self.offset
        }
    }

    pub fn get(&self, i: usize) -> (r: Option<&T>)
        requires
            self.wf(),
        ensures
            i < self@.items.len() ==> (r matches Some(x) && x.deep_view() == self@.items[i as int]),
            i >= self@.items.len() ==> r is None,
    {
        if i < self.len {
            let j = self.get_offset_index(i);
            Some(&self.vec[j])
        } else {
            None
        }
    }

    /// Like `get`, except that the index is required to be in range.
    pub fn get_unchecked(&self, i: usize) -> (r: &T)
        requires
            self.wf(),
            i < self@.items.len(),
        ensures
            r.deep_view() == self@.items[i as int],
    {
        let j = self.get_offset_index(i);
        &self.vec[j]
    }

    pub fn push(&mut self, t: T)
        requires
            old(self).wf(),
        ensures
            final(self).wf(),
            final(self)@ == old(self)@.pushed(t.deep_view()),
    {
        // Discard the branch beyond the look-back cursor.
        self.len = self.len - self.lookback;
        self.lookback = 0;
        proof {
            assert(self@.items =~= old(self)@.kept());
        }
        let ghost mid = self@;

        let duplicate = match self.get_latest() {
            Some(u) => u.same_as(&t),
            None => false,
        };

        if !duplicate && self.capacity > 0 {
            let i = self.get_offset_index(self.len);
            if i == self.vec.len() {
                self.vec.push(t);
            } else {
                self.vec.set(i, t);
            }
            if self.len < self.capacity {
                self.len = self.len + 1;
                proof {
                    assert forall|k: int| 0 <= k < mid.items.len() implies self.slot(k)
                        != old(self).slot(mid.items.len() as int) by {}
                    assert(self@.items =~= mid.items.push(t.deep_view()));
                }
            } else {
                self.offset = if self.offset + 1 == self.capacity {
                    0
                } else {
                    self.offset + 1
                };
                proof {
                    assert forall|k: int| 0 <= k < self.len - 1 implies self.slot(k) == old(self).slot(k + 1) && self.slot(k) != old(self).slot(self.len as int) by {}
                    assert(self.slot(self.len - 1) == old(self).slot(self.len as int));
                    assert(self@.items =~= mid.items.skip(1).push(t.deep_view()));
                }
            }
        } else {
            proof {
                assert(self@.items =~= mid.items);
            }
        }
        proof {
            assert(final(self)@ =~= old(self)@.pushed(t.deep_view()));
        }
    }

    /// Moves the view one item towards the oldest entry and returns the item
    /// now viewed, or returns `None` (leaving the state unchanged) when the
    /// oldest retained item is already in view.
    pub fn look_back(&mut self) -> (r: Option<&T>)
        requires
            old(self).wf(),
        ensures
            final(self).wf(),
            final(self)@ == old(self)@.after_look_back(),
            old(self)@.can_look_back() ==> (r matches Some(x) && x.deep_view() == final(self)@.current()),
            !old(self)@.can_look_back() ==> r is None,
    {
        if self.can_look_back() {
            self.lookback = self.lookback + 1;
            self.get(self.len - 1 - self.lookback)
        } else {
            None
        }
    }

    /// Moves the view one item towards the latest entry and returns the item
    /// now viewed, or returns `None` when the latest item is already in view.
    pub fn advance(&mut self) -> (r: Option<&T>)
        requires
            old(self).wf(),
        ensures
            final(self).wf(),
            final(self)@ == old(self)@.after_advance(),
            old(self)@.lookback > 0 ==> (r matches Some(x) && x.deep_view() == final(self)@.current()),
            old(self)@.lookback == 0 ==> r is None,
    {
        if self.is_current_latest() {
            None
        } else {
            self.lookback = self.lookback - 1;
            self.get(self.len - 1 - self.lookback)
        }
    }

    pub fn can_look_back(&self) -> (r: bool)
        requires
            self.wf(),
        ensures
            r == self@.can_look_back(),
    {
        self.lookback + 1 < self.len
    }

    /// The item currently viewed, honouring the look-back depth.
    pub fn get_current(&self) -> (r: Option<&T>)
        requires
            self.wf(),
        ensures
            self@.items.len() > 0 ==> (r matches Some(x) && x.deep_view() == self@.current()),
            self@.items.len() == 0 ==> r is None,
    {
        if self.len == 0 {
            None
        } else {
            self.get(self.len - 1 - self.lookback)
        }
    }

    /// The most recently pushed item, irrespective of the look-back depth.
    pub fn get_latest(&self) -> (r: Option<&T>)
        requires
            self.wf(),
        ensures
            self@.items.len() > 0 ==> (r matches Some(x) && x.deep_view() == self@.items.last()),
            self@.items.len() == 0 ==> r is None,
    {
        if self.len == 0 {
            None
        } else {
            self.get(self.len - 1)
        }
    }

    pub fn is_current_latest(&self) -> (r: bool)
        ensures
            r == (self@.lookback == 0),
    {
        self.lookback == 0
    }

    /// Number of retained items.
    pub fn len(&self) -> (r: usize)
        ensures
            r == self@.items.len(),
    {
        self.len
    }

    /// Current look-back depth.
    pub fn lookback_depth(&self) -> (r: usize)
        ensures
            r == self@.lookback,
    {
        self.lookback
    }

    /// Rebuilds a history from its persisted form: the retained items oldest
    /// first plus the look-back depth.  The ring re-linearises with offset 0
    /// and is given `capacity` slots.
    pub fn from_parts(items: Vec<T>, lookback: usize, capacity: usize) -> (r: Self)
        requires
            items@.len() <= capacity,
            items@.len() == 0 ==> lookback == 0,
            items@.len() > 0 ==> lookback < items@.len(),
        ensures
            r.wf(),
            r@.items == items.deep_view(),
            r@.lookback == lookback,
            r@.capacity == capacity,
    {
        let len = items.len();
        let h = Self { vec: items, len, offset: 0, lookback, capacity };
        proof {
            assert(h@.items =~= h.vec.deep_view());
        }
        h
    }
}

/// A fresh, empty history model with the given capacity.
pub open spec fn empty_hist<V>(capacity: nat) -> HistView<V> {
    HistView { items: Seq::empty(), lookback: 0, capacity }
}

/// The model after pushing every item of `vs` in order.
pub open spec fn pushed_all<V>(h: HistView<V>, vs: Seq<V>) -> HistView<V>
    decreases vs.len(),
{
    if vs.len() == 0 {
        h
    } else {
        pushed_all(h, vs.drop_last()).pushed(vs.last())
    }
}

/// The model after `k` `look_back()` calls.
pub open spec fn after_look_backs<V>(h: HistView<V>, k: nat) -> HistView<V>
    decreases k,
{
    if k == 0 {
        h
    } else {
        after_look_backs(h, (k - 1) as nat).after_look_back()
    }
}

/// The model after `k` `advance()` calls.
pub open spec fn after_advances<V>(h: HistView<V>, k: nat) -> HistView<V>
    decreases k,
{
    if k == 0 {
        h
    } else {
        after_advances(h, (k - 1) as nat).after_advance()
    }
}

/// Pushing the same item twice in a row changes nothing the second time:
/// the history never grows past the first push.
pub proof fn lemma_push_dedup<V>(h: HistView<V>, v: V)
    requires
        h.wf(),
    ensures
        h.pushed(v).pushed(v) == h.pushed(v),
{
    let h1 = h.pushed(v);
    assert(h1.kept() =~= h1.items);
    if h1.items.len() == 0 {
        assert(h1.pushed(v).items =~= h1.items);
    }
    assert(h1.pushed(v) =~= h1);
}

/// FIFO eviction: pushing pairwise-distinct items into a fresh history
/// retains exactly the last `capacity` of them, oldest first.
pub proof fn lemma_fifo_eviction<V>(capacity: nat, vs: Seq<V>)
    requires
        capacity <= vs.len(),
        forall|i: int, j: int| 0 <= i < j < vs.len() ==> vs[i] != vs[j],
    ensures
        pushed_all(empty_hist::<V>(capacity), vs).items == vs.skip(vs.len() - capacity),
{
    lemma_pushed_all_fresh(capacity, vs);
    if vs.len() == capacity {
        assert(vs.skip(0) =~= vs);
    }
}

/// From a fresh history, pushing distinct items retains the last
/// `capacity` of them (or all of them while they still fit).
proof fn lemma_pushed_all_fresh<V>(capacity: nat, vs: Seq<V>)
    requires
        forall|i: int, j: int| 0 <= i < j < vs.len() ==> vs[i] != vs[j],
    ensures
        pushed_all(empty_hist::<V>(capacity), vs).lookback == 0,
        pushed_all(empty_hist::<V>(capacity), vs).capacity == capacity,
        pushed_all(empty_hist::<V>(capacity), vs).items == if vs.len() <= capacity {
            vs
        } else {
            vs.skip(vs.len() - capacity)
        },
    decreases vs.len(),
{
    if vs.len() > 0 {
        let prefix = vs.drop_last();
        let v = vs.last();
        lemma_pushed_all_fresh(capacity, prefix);
        let h = pushed_all(empty_hist::<V>(capacity), prefix);
        assert(h.kept() =~= h.items);
        if capacity == 0 {
            assert(h.pushed(v).items =~= vs.skip(vs.len() as int));
        } else if h.items.len() > 0 {
            // the latest retained item is the previous element of `vs`,
            // which is distinct from `v`
            assert(h.items.last() == prefix.last());
            assert(prefix.last() == vs[vs.len() - 2]);
            assert(vs[vs.len() - 2] != v);
        }
        if capacity > 0 {
            if h.items.len() < capacity {
                assert(h.pushed(v).items =~= if vs.len() <= capacity {
                    vs
                } else {
                    vs.skip(vs.len() - capacity)
                });
            } else {
                assert(h.pushed(v).items =~= vs.skip(vs.len() - capacity));
            }
        }
    } else {
        assert(pushed_all(empty_hist::<V>(capacity), vs).items =~= vs);
    }
}

/// Branch discard: pushing a new item while looked back drops every item
/// newer than the current view; what remains is the kept prefix plus the
/// new item, with the cursor back at the latest entry.
pub proof fn lemma_push_branch_discard<V>(h: HistView<V>, v: V)
    requires
        h.wf(),
        h.lookback > 0,
        v != h.current(),
    ensures
        h.pushed(v) == (HistView {
            items: h.items.take(h.items.len() - h.lookback).push(v),
            lookback: 0,
            capacity: h.capacity,
        }),
{
    assert(h.kept().last() == h.current());
    assert(h.pushed(v) =~= (HistView {
        items: h.items.take(h.items.len() - h.lookback).push(v),
        lookback: 0,
        capacity: h.capacity,
    }));
}

/// After `k` look-backs from the latest position the cursor is `k` items
/// back and nothing else has changed.
proof fn lemma_after_look_backs<V>(h: HistView<V>, k: nat)
    requires
        h.wf(),
        h.lookback + k < h.items.len(),
    ensures
        after_look_backs(h, k) == (HistView { lookback: h.lookback + k, ..h }),
    decreases k,
{
    if k == 0 {
        assert(after_look_backs(h, 0) =~= (HistView { lookback: h.lookback + 0, ..h }));
    } else {
        lemma_after_look_backs(h, (k - 1) as nat);
        assert(after_look_backs(h, k) =~= (HistView { lookback: h.lookback + k, ..h }));
    }
}

/// After `k` advances the cursor is `k` items closer to the latest entry.
proof fn lemma_after_advances<V>(h: HistView<V>, k: nat)
    requires
        h.wf(),
        k <= h.lookback,
    ensures
        after_advances(h, k) == (HistView { lookback: (h.lookback - k) as nat, ..h }),
    decreases k,
{
    if k == 0 {
        assert(after_advances(h, 0) =~= (HistView { lookback: (h.lookback - 0) as nat, ..h }));
    } else {
        lemma_after_advances(h, (k - 1) as nat);
        assert(after_advances(h, k) =~= (HistView { lookback: (h.lookback - k) as nat, ..h }));
    }
}

/// Look-back/advance symmetry: from the latest position, `k` look-backs
/// (`k` at most `length - 1`) followed by `k` advances restore the state,
/// so the original latest item is in view again.
pub proof fn lemma_look_back_advance_symmetry<V>(h: HistView<V>, k: nat)
    requires
        h.wf(),
        h.lookback == 0,
        k < h.items.len(),
    ensures
        after_advances(after_look_backs(h, k), k) == h,
        after_advances(after_look_backs(h, k), k).current_opt() == Some(h.items.last()),
{
    lemma_after_look_backs(h, k);
    lemma_after_advances(after_look_backs(h, k), k);
    assert(after_advances(after_look_backs(h, k), k) =~= h);
}

impl<T: HistoryItem> View for History<T> {
    type V = HistView<T::V>;

    closed spec fn view(&self) -> HistView<T::V> {
        HistView {
            items: Seq::new(self.len as nat, |i: int| self.vec@[self.slot(i)].deep_view()),
            lookback: self.lookback as nat,
            capacity: self.capacity as nat,
        }
    }
}

} // verus!
