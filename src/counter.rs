//! Unbounded occurrence counters keyed by structurally compared values.
use vstd::prelude::*;

verus! {

/// How many times `k` occurs in `h`.
pub open spec fn occurrences<V>(h: Seq<V>, k: V) -> nat
    decreases h.len(),
{
    if h.len() == 0 {
        0
    } else {
        occurrences(h.drop_last(), k) + if h.last() == k {
            1nat
        } else {
            0nat
        }
    }
}

/// The distinct values of `h`, in order of first occurrence.
pub open spec fn first_seen<V>(h: Seq<V>) -> Seq<V>
    decreases h.len(),
{
    if h.len() == 0 {
        Seq::empty()
    } else {
        let prev = first_seen(h.drop_last());
        if prev.contains(h.last()) {
            prev
        } else {
            prev.push(h.last())
        }
    }
}

/// The keys of `e`, seen through their views.
pub open spec fn keys_view<K: View>(e: Seq<(K, u64)>) -> Seq<K::V> {
    e.map_values(|p: (K, u64)| p.0@)
}

pub proof fn lemma_first_seen_contains<V>(h: Seq<V>, k: V)
    ensures
        first_seen(h).contains(k) == (occurrences(h, k) > 0),
    decreases h.len(),
{
    if h.len() > 0 {
        lemma_first_seen_contains(h.drop_last(), k);
        let prev = first_seen(h.drop_last());
        if !prev.contains(h.last()) && h.last() == k {
            assert(prev.push(h.last())[prev.len() as int] == k);
        }
        if !prev.contains(h.last()) && h.last() != k && prev.push(h.last()).contains(k) {
            let i = choose|i: int| 0 <= i < prev.len() + 1 && prev.push(h.last())[i] == k;
            assert(prev[i] == k);
        }
        if !prev.contains(h.last()) && prev.contains(k) {
            let i = choose|i: int| 0 <= i < prev.len() && prev[i] == k;
            assert(prev.push(h.last())[i] == k);
        }
    }
}

/// The sum of the counts held in `s`.
pub open spec fn sum_counts<K>(s: Seq<(K, u64)>) -> nat
    decreases s.len(),
{
    if s.len() == 0 {
        0
    } else {
        sum_counts(s.drop_last()) + s.last().1 as nat
    }
}

pub proof fn lemma_occurrences_push<V>(h: Seq<V>, x: V, k: V)
    ensures
        occurrences(h.push(x), k) == occurrences(h, k) + if x == k {
            1nat
        } else {
            0nat
        },
{
    assert(h.push(x).drop_last() =~= h);
}

pub proof fn lemma_occurrences_le_len<V>(h: Seq<V>, k: V)
    ensures
        occurrences(h, k) <= h.len(),
    decreases h.len(),
{
    if h.len() > 0 {
        lemma_occurrences_le_len(h.drop_last(), k);
    }
}

pub proof fn lemma_sum_counts_push<K>(s: Seq<(K, u64)>, x: (K, u64))
    ensures
        sum_counts(s.push(x)) == sum_counts(s) + x.1,
{
    assert(s.push(x).drop_last() =~= s);
}

pub proof fn lemma_sum_counts_update<K>(s: Seq<(K, u64)>, i: int, x: (K, u64))
    requires
        0 <= i < s.len(),
    ensures
        sum_counts(s.update(i, x)) + s[i].1 == sum_counts(s) + x.1,
    decreases s.len(),
{
    if i == s.len() - 1 {
        assert(s.update(i, x).drop_last() =~= s.drop_last());
    } else {
        lemma_sum_counts_update(s.drop_last(), i, x);
        assert(s.update(i, x).drop_last() =~= s.drop_last().update(i, x));
    }
}

/// A key that can be compared and duplicated with its view kept.
pub trait CountKey: View + Sized {
    fn same_key(&self, other: &Self) -> (r: bool)
        ensures
            r == (self@ == other@),
    ;

    fn copy_key(&self) -> (r: Self)
        ensures
            r@ == self@,
    ;
}

impl CountKey for String {
    fn same_key(&self, other: &Self) -> (r: bool) {
        *self == *other
    }

    fn copy_key(&self) -> (r: Self) {
        self.clone()
    }
}

/// `e` holds one entry per distinct key of `h`, with its number of occurrences.
pub open spec fn counts_match<K: View>(e: Seq<(K, u64)>, h: Seq<K::V>) -> bool {
    &&& forall|i: int, j: int| 0 <= i < j < e.len() ==> e[i].0@ != e[j].0@
    &&& forall|i: int| 0 <= i < e.len() ==> #[trigger] e[i].1 == occurrences(h, e[i].0@)
    &&& forall|i: int| 0 <= i < e.len() ==> 0 < #[trigger] e[i].1
    &&& forall|k: K::V|
        occurrences(h, k) > 0 ==> exists|i: int| 0 <= i < e.len() && #[trigger] e[i].0@ == k
    &&& sum_counts(e) == h.len()
    &&& keys_view(e) == first_seen(h)
}

/// Counts of keys, one entry per distinct key, in order of first sighting.
pub struct Counter<K: View> {
    entries: Vec<(K, u64)>,
    seen: Ghost<Seq<K::V>>,
}

impl<K: CountKey> View for Counter<K> {
    type V = Seq<K::V>;

    /// Every key counted so far, in order.
    closed spec fn view(&self) -> Seq<K::V> {
        self.seen@
    }
}

impl<K: CountKey> Counter<K> {
    pub closed spec fn wf(&self) -> bool {
        counts_match(self.entries@, self.seen@)
    }

    /// The entries: each distinct key with its count.
    pub closed spec fn entries_view(&self) -> Seq<(K, u64)> {
        self.entries@
    }

    pub proof fn lemma_entries_match(&self)
        requires
            self.wf(),
        ensures
            keys_view(self.entries_view()) == first_seen(self@),
            forall|i: int|
                0 <= i < self.entries_view().len() ==> #[trigger] self.entries_view()[i].1
                    == occurrences(self@, self.entries_view()[i].0@),
    {
    }

    pub proof fn lemma_entries_sum(&self)
        requires
            self.wf(),
        ensures
            sum_counts(self.entries_view()) == self@.len(),
    {
    }

    pub fn new() -> (r: Self)
        ensures
            r.wf(),
            r@ == Seq::<K::V>::empty(),
    {
        let r = Counter { entries: Vec::new(), seen: Ghost(Seq::empty()) };
        assert(keys_view(r.entries@) =~= Seq::<K::V>::empty());
        r
    }

    /// Counts one more `key`; returns its new count.
    pub fn add(&mut self, key: K) -> (r: u64)
        requires
            old(self).wf(),
            old(self)@.len() < u64::MAX,
        ensures
            final(self).wf(),
            final(self)@ == old(self)@.push(key@),
            r == occurrences(final(self)@, key@),
    {
        let ghost h = self.seen@;
        let ghost e0 = self.entries@;
        let ghost h2 = h.push(key@);
        proof {
            lemma_occurrences_le_len(h, key@);
        }
        let n = self.entries.len();
        let mut i: usize = 0;
        while i < n
            invariant
                0 <= i <= n,
                n == self.entries@.len(),
                self.entries@ == e0,
                self.seen@ == h,
                counts_match(e0, h),
                h2 == h.push(key@),
                h == old(self)@,
                occurrences(h, key@) <= h.len(),
                h.len() < u64::MAX,
                forall|j: int| 0 <= j < i ==> e0[j].0@ != key@,
            decreases n - i,
        {
            if self.entries[i].0.same_key(&key) {
                let c = self.entries[i].1 + 1;
                let k = self.entries[i].0.copy_key();
                self.entries.set(i, (k, c));
                self.seen = Ghost(h2);
                proof {
                    let e = self.entries@;
                    assert(key@ == e0[i as int].0@);
                    assert(e0[i as int].1 == occurrences(h, e0[i as int].0@));
                    assert(e == e0.update(i as int, (k, c)));
                    lemma_sum_counts_update(e0, i as int, (k, c));
                    lemma_first_seen_contains(h, key@);
                    assert(h2.drop_last() =~= h);
                    assert(keys_view(e0)[i as int] == key@);
                    assert(keys_view(e) =~= keys_view(e0));
                    assert forall|a: int| 0 <= a < e.len() implies #[trigger] e[a].1 == occurrences(
                        h2,
                        e[a].0@,
                    ) by {
                        lemma_occurrences_push(h, key@, e[a].0@);
                        if a != i {
                            assert(e0[a].0@ != e0[i as int].0@);
                            assert(e[a] == e0[a]);
                            assert(e0[a].1 == occurrences(h, e0[a].0@));
                        }
                    }
                    assert forall|k2: K::V| occurrences(h2, k2) > 0 implies exists|a: int|
                        0 <= a < e.len() && #[trigger] e[a].0@ == k2 by {
                        lemma_occurrences_push(h, key@, k2);
                        if k2 == key@ {
                            assert(e[i as int].0@ == k2);
                        } else {
                            assert(occurrences(h, k2) > 0);
                            assert(exists|a: int| 0 <= a < e0.len() && #[trigger] e0[a].0@ == k2);
                            let a = choose|a: int| 0 <= a < e0.len() && #[trigger] e0[a].0@ == k2;
                            assert(e[a] == e0[a]);
                            assert(e[a].0@ == k2);
                        }
                    }
                }
                return c;
            }
            i = i + 1;
        }
        proof {
            if occurrences(h, key@) > 0 {
                let a = choose|a: int| 0 <= a < e0.len() && #[trigger] e0[a].0@ == key@;
                assert(false);
            }
        }
        self.entries.push((key, 1));
        self.seen = Ghost(h2);
        proof {
            let e = self.entries@;
            lemma_sum_counts_push(e0, e[n as int]);
            lemma_first_seen_contains(h, key@);
            assert(h2.drop_last() =~= h);
            assert(keys_view(e) =~= keys_view(e0).push(key@));
            assert forall|a: int| 0 <= a < e.len() implies #[trigger] e[a].1 == occurrences(
                h2,
                e[a].0@,
            ) by {
                lemma_occurrences_push(h, key@, e[a].0@);
                if a < n {
                    assert(e[a] == e0[a]);
                }
            }
            assert forall|k2: K::V| occurrences(h2, k2) > 0 implies exists|a: int|
                0 <= a < e.len() && #[trigger] e[a].0@ == k2 by {
                lemma_occurrences_push(h, key@, k2);
                if k2 == e[n as int].0@ {
                    assert(e[n as int].0@ == k2);
                } else {
                    let a = choose|a: int| 0 <= a < e0.len() && #[trigger] e0[a].0@ == k2;
                    assert(e[a].0@ == k2);
                }
            }
        }
        1
    }

    /// How many times `key` has been counted.
    pub fn get(&self, key: &K) -> (r: u64)
        requires
            self.wf(),
        ensures
            r == occurrences(self@, key@),
    {
        let n = self.entries.len();
        let mut i: usize = 0;
        while i < n
            invariant
                0 <= i <= n,
                n == self.entries@.len(),
                self.wf(),
                forall|j: int| 0 <= j < i ==> self.entries@[j].0@ != key@,
            decreases n - i,
        {
            if self.entries[i].0.same_key(key) {
                return self.entries[i].1;
            }
            i = i + 1;
        }
        proof {
            if occurrences(self.seen@, key@) > 0 {
                let a = choose|a: int|
                    0 <= a < self.entries@.len() && #[trigger] self.entries@[a].0@ == key@;
                assert(false);
            }
        }
        0
    }

    /// The distinct keys with their counts, in order of first sighting.
    pub fn entries(&self) -> (r: &Vec<(K, u64)>)
        requires
            self.wf(),
        ensures
            r@ == self.entries_view(),
            forall|i: int, j: int| 0 <= i < j < r@.len() ==> r@[i].0@ != r@[j].0@,
            forall|i: int| 0 <= i < r@.len() ==> #[trigger] r@[i].1 == occurrences(self@, r@[i].0@),
            forall|i: int| 0 <= i < r@.len() ==> 0 < #[trigger] r@[i].1,
            forall|k: K::V|
                occurrences(self@, k) > 0 ==> exists|i: int| 0 <= i < r@.len() && #[trigger] r@[i].0@ == k,
            sum_counts(r@) == self@.len(),
            keys_view(r@) == first_seen(self@),
    {
        &self.entries
    }
}

} // verus!
