//! A fixed-capacity ranking with first-fit replacement.
use vstd::prelude::*;

verus! {

/// Index of the first slot, from `i` on, whose score is below `score`;
/// `s.len()` where there is none.
pub open spec fn first_below_from<V>(s: Seq<(u64, V)>, score: u64, i: int) -> int
    decreases s.len() - i,
{
    if i < 0 || i >= s.len() {
        s.len() as int
    } else if s[i].0 < score {
        i
    } else {
        first_below_from(s, score, i + 1)
    }
}

/// Index of the first slot whose score is below `score`; `s.len()` where there is none.
pub open spec fn first_below<V>(s: Seq<(u64, V)>, score: u64) -> int {
    first_below_from(s, score, 0)
}

/// The slots after offering `(score, v)` to a ranking of capacity `cap`:
/// the first slot with a lower score is overwritten; failing that, the
/// candidate is appended while there is room; otherwise it is dropped.
pub open spec fn rank_insert<V>(s: Seq<(u64, V)>, cap: nat, score: u64, v: V) -> Seq<(u64, V)> {
    let j = first_below(s, score);
    if j < s.len() {
        s.update(j, (score, v))
    } else if s.len() < cap {
        s.push((score, v))
    } else {
        s
    }
}

pub proof fn lemma_first_below_range<V>(s: Seq<(u64, V)>, score: u64, i: int)
    requires
        0 <= i <= s.len(),
    ensures
        i <= first_below_from(s, score, i) <= s.len(),
    decreases s.len() - i,
{
    if i < s.len() && !(s[i].0 < score) {
        lemma_first_below_range(s, score, i + 1);
    }
}

/// An offer never makes a ranking longer than its capacity, and only ever
/// grows it by one slot.
pub proof fn lemma_rank_insert_len<V>(s: Seq<(u64, V)>, cap: nat, score: u64, v: V)
    requires
        s.len() <= cap,
    ensures
        rank_insert(s, cap, score, v).len() <= cap,
        rank_insert(s, cap, score, v).len() <= s.len() + 1,
        rank_insert(s, cap, score, v).len() >= s.len(),
{
    lemma_first_below_range(s, score, 0);
}

/// A bounded ranking of `(score, value)` slots.
pub struct RankSlot<T> {
    slots: Vec<(u64, T)>,
    capacity: usize,
}

/// The slots with each value seen through its view.
pub open spec fn slots_view<T: View>(s: Seq<(u64, T)>) -> Seq<(u64, T::V)> {
    s.map_values(|p: (u64, T)| (p.0, p.1@))
}

impl<T: View> View for RankSlot<T> {
    type V = Seq<(u64, T::V)>;

    closed spec fn view(&self) -> Seq<(u64, T::V)> {
        slots_view(self.slots@)
    }
}

impl<T: View> RankSlot<T> {
    /// The capacity fixed at construction.
    pub closed spec fn cap(&self) -> nat {
        self.capacity as nat
    }

    /// The ranking never holds more slots than its capacity.
    pub closed spec fn wf(&self) -> bool {
        self.slots@.len() <= self.capacity
    }

    /// An empty ranking that will hold at most `capacity` slots.
    pub fn new(capacity: usize) -> (r: Self)
        ensures
            r.wf(),
            r@ == Seq::<(u64, T::V)>::empty(),
            r.cap() == capacity,
    {
        let r = RankSlot { slots: Vec::new(), capacity };
        assert(r@ =~= Seq::<(u64, T::V)>::empty());
        r
    }

    pub fn capacity(&self) -> (r: usize)
        ensures
            r == self.cap(),
    {
        self.capacity
    }

    pub fn len(&self) -> (r: usize)
        ensures
            r == self@.len(),
    {
        self.slots.len()
    }

    pub fn is_empty(&self) -> (r: bool)
        ensures
            r == (self@.len() == 0),
    {
        self.slots.len() == 0
    }

    /// The slots in rank order.
    pub fn slots(&self) -> (r: &Vec<(u64, T)>)
        ensures
            slots_view(r@) == self@,
    {
        &self.slots
    }

    /// Offers `(score, value)`: slots are scanned from the first; the first
    /// one with a strictly lower score is overwritten, else the candidate is
    /// appended if there is room, else it is dropped.
    pub fn insert(&mut self, score: u64, value: T)
        requires
            old(self).wf(),
        ensures
            final(self).wf(),
            final(self).cap() == old(self).cap(),
            final(self)@ == rank_insert(old(self)@, old(self).cap(), score, value@),
    {
        let ghost s = self@;
        let n = self.slots.len();
        let mut i: usize = 0;
        while i < n
            invariant
                0 <= i <= n,
                n == self.slots@.len(),
                self.slots@.len() <= self.capacity,
                self.capacity == old(self).capacity,
                s == old(self)@,
                s == slots_view(self.slots@),
                first_below(s, score) == first_below_from(s, score, i as int),
            decreases n - i,
        {
            assert(s[i as int].0 == self.slots@[i as int].0);
            if self.slots[i].0 < score {
                self.slots.set(i, (score, value));
                proof {
                    assert(slots_view(self.slots@) =~= s.update(i as int, (score, value@)));
                }
                return;
            }
            i = i + 1;
        }
        assert(first_below(s, score) == n);
        if n < self.capacity {
            self.slots.push((score, value));
            proof {
                assert(slots_view(self.slots@) =~= s.push((score, value@)));
            }
        }
    }
}

} // verus!
