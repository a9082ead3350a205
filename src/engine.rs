//! One pass over a stream of records: counts, rankings and per-process volume.
use crate::counter::{first_seen, keys_view, occurrences, sum_counts, CountKey, Counter};
use crate::filter::{admits, admitted, pattern_view, Pattern};
use crate::ranking::{rank_insert, RankSlot};
use crate::record::{identity_of, msg_size, opt_view, IdView, LogRecord, MessageIdentity};
use vstd::prelude::*;

verus! {

/// The most-frequent ranking after offering each admitted record from
/// index `start` on, scored by its count so far.
pub open spec fn top_run(cap: nat, h: Seq<IdView>, start: int) -> Seq<(u64, IdView)>
    decreases h.len(),
{
    if h.len() <= start || h.len() == 0 {
        Seq::empty()
    } else {
        rank_insert(
            top_run(cap, h.drop_last(), start),
            cap,
            occurrences(h, h.last()) as u64,
            h.last(),
        )
    }
}

/// The largest-message ranking after offering each admitted record from
/// index `start` on, scored by its size in bytes.
pub open spec fn size_run(cap: nat, h: Seq<IdView>, start: int) -> Seq<(u64, Seq<char>)>
    decreases h.len(),
{
    if h.len() <= start || h.len() == 0 {
        Seq::empty()
    } else {
        rank_insert(size_run(cap, h.drop_last(), start), cap, msg_size(h.last().0), h.last().0)
    }
}

/// The processes of the admitted records, in order.
pub open spec fn processes_of(h: Seq<IdView>) -> Seq<Seq<char>> {
    h.map_values(|id: IdView| id.1)
}

/// The identities of the records of `recs` that are admitted, in order.
pub open spec fn admitted_ids(unit: Option<Seq<char>>, pattern: Option<Seq<char>>, recs: Seq<LogRecord>) -> Seq<IdView>
    decreases recs.len(),
{
    if recs.len() == 0 {
        Seq::empty()
    } else {
        let prev = admitted_ids(unit, pattern, recs.drop_last());
        if admitted(unit, pattern, recs.last()) {
            prev.push(identity_of(recs.last()))
        } else {
            prev
        }
    }
}

/// The state of one pass.
pub struct JournalStat {
    input: String,
    unit: Option<String>,
    regex: Option<Pattern>,
    msg_freq: Counter<MessageIdentity>,
    top_talkers: RankSlot<MessageIdentity>,
    largest: RankSlot<String>,
    per_process: Counter<String>,
    total_msgs: u64,
    admitted: Ghost<Seq<IdView>>,
    top_start: Ghost<int>,
    largest_start: Ghost<int>,
}

impl View for JournalStat {
    type V = Seq<IdView>;

    /// The identities of the records admitted so far, in order.
    closed spec fn view(&self) -> Seq<IdView> {
        self.admitted@
    }
}

impl JournalStat {
    /// The configured unit filter.
    pub closed spec fn unit_filter(&self) -> Option<Seq<char>> {
        opt_view(self.unit)
    }

    /// The configured pattern filter.
    pub closed spec fn pattern(&self) -> Option<Seq<char>> {
        pattern_view(self.regex)
    }

    /// The label of the input.
    pub closed spec fn label(&self) -> Seq<char> {
        self.input@
    }

    /// Capacity of the most-frequent ranking.
    pub closed spec fn top_cap(&self) -> nat {
        self.top_talkers.cap()
    }

    /// Capacity of the largest-message ranking.
    pub closed spec fn largest_cap(&self) -> nat {
        self.largest.cap()
    }

    /// The admitted records from which the most-frequent ranking was fed.
    pub closed spec fn top_from(&self) -> int {
        self.top_start@
    }

    /// The admitted records from which the largest-message ranking was fed.
    pub closed spec fn largest_from(&self) -> int {
        self.largest_start@
    }

    /// The most-frequent ranking.
    pub closed spec fn top_view(&self) -> Seq<(u64, IdView)> {
        self.top_talkers@
    }

    /// The largest-message ranking.
    pub closed spec fn largest_view(&self) -> Seq<(u64, Seq<char>)> {
        self.largest@
    }

    /// The count of each identity.
    pub closed spec fn freq_view(&self) -> Seq<IdView> {
        self.msg_freq@
    }

    /// The process of each admitted record, as counted.
    pub closed spec fn process_view(&self) -> Seq<Seq<char>> {
        self.per_process@
    }

    /// The per-process entries: (process, count).
    pub closed spec fn process_entries(&self) -> Seq<(String, u64)> {
        self.per_process.entries_view()
    }

    /// Each structure is a function of the admitted records and the
    /// configuration.
    pub proof fn lemma_views_follow_history(&self)
        requires
            self.wf(),
        ensures
            self.top_view() == top_run(self.top_cap(), self@, self.top_from()),
            self.largest_view() == size_run(self.largest_cap(), self@, self.largest_from()),
            self.freq_view() == self@,
            self.process_view() == processes_of(self@),
            self.total() == self@.len(),
            keys_view(self.process_entries()) == first_seen(processes_of(self@)),
            forall|i: int|
                0 <= i < self.process_entries().len() ==> #[trigger] self.process_entries()[i].1
                    == occurrences(processes_of(self@), self.process_entries()[i].0@),
    {
        self.per_process.lemma_entries_match();
    }

    pub proof fn lemma_process_entries_sum(&self)
        requires
            self.wf(),
        ensures
            sum_counts(self.process_entries()) == self.total(),
    {
        self.per_process.lemma_entries_sum();
        assert(processes_of(self.admitted@).len() == self.admitted@.len());
    }

    /// The number of admitted records.
    pub closed spec fn total(&self) -> nat {
        self.total_msgs as nat
    }

    /// Every structure agrees with the admitted history.
    pub closed spec fn wf(&self) -> bool {
        let h = self.admitted@;
        &&& self.msg_freq.wf()
        &&& self.msg_freq@ == h
        &&& self.per_process.wf()
        &&& self.per_process@ == processes_of(h)
        &&& self.total_msgs == h.len()
        &&& self.top_talkers.wf()
        &&& 0 <= self.top_start@ <= h.len()
        &&& self.top_talkers@ == top_run(self.top_talkers.cap(), h, self.top_start@)
        &&& self.largest.wf()
        &&& 0 <= self.largest_start@ <= h.len()
        &&& self.largest@ == size_run(self.largest.cap(), h, self.largest_start@)
    }

    /// A pass over the input labelled `input`, with no filter and both
    /// rankings disabled (capacity 0).
    pub fn new(input: String) -> (r: Self)
        ensures
            r.wf(),
            r@ == Seq::<IdView>::empty(),
            r.label() == input@,
            r.unit_filter() == None::<Seq<char>>,
            r.pattern() == None::<Seq<char>>,
            r.top_cap() == 0,
            r.largest_cap() == 0,
            r.top_from() == 0,
            r.largest_from() == 0,
    {
        let r = JournalStat {
            input,
            unit: None,
            regex: None,
            msg_freq: Counter::new(),
            top_talkers: RankSlot::new(0),
            largest: RankSlot::new(0),
            per_process: Counter::new(),
            total_msgs: 0,
            admitted: Ghost(Seq::empty()),
            top_start: Ghost(0),
            largest_start: Ghost(0),
        };
        assert(processes_of(r.admitted@) =~= Seq::<Seq<char>>::empty());
        r
    }
}

impl JournalStat {
    /// Filters on a particular systemd unit.
    pub fn set_filter_unit(&mut self, unit: &Option<String>)
        requires
            old(self).wf(),
        ensures
            final(self).wf(),
            final(self)@ == old(self)@,
            final(self).unit_filter() == opt_view(*unit),
            final(self).pattern() == old(self).pattern(),
            final(self).label() == old(self).label(),
            final(self).top_cap() == old(self).top_cap(),
            final(self).largest_cap() == old(self).largest_cap(),
            final(self).top_from() == old(self).top_from(),
            final(self).largest_from() == old(self).largest_from(),
    {
        self.unit = match unit {
            Some(u) => Some(u.clone()),
            None => None,
        };
    }

    /// Sets the pattern that messages must match.
    pub fn set_regex(&mut self, regex: Option<Pattern>)
        requires
            old(self).wf(),
        ensures
            final(self).wf(),
            final(self)@ == old(self)@,
            final(self).unit_filter() == old(self).unit_filter(),
            final(self).pattern() == pattern_view(regex),
            final(self).label() == old(self).label(),
            final(self).top_cap() == old(self).top_cap(),
            final(self).largest_cap() == old(self).largest_cap(),
            final(self).top_from() == old(self).top_from(),
            final(self).largest_from() == old(self).largest_from(),
    {
        self.regex = regex;
    }

    /// Sets how many of the most frequent messages to keep; the ranking
    /// starts empty and is fed by the records admitted from now on.
    pub fn n_frequent(&mut self, n_freq: usize)
        requires
            old(self).wf(),
        ensures
            final(self).wf(),
            final(self)@ == old(self)@,
            final(self).unit_filter() == old(self).unit_filter(),
            final(self).pattern() == old(self).pattern(),
            final(self).label() == old(self).label(),
            final(self).top_cap() == n_freq,
            final(self).largest_cap() == old(self).largest_cap(),
            final(self).top_from() == old(self)@.len(),
            final(self).largest_from() == old(self).largest_from(),
            final(self).top_view() == Seq::<(u64, IdView)>::empty(),
    {
        self.top_talkers = RankSlot::new(n_freq);
        self.top_start = Ghost(self.admitted@.len() as int);
    }

    /// Sets how many of the largest messages to keep; the ranking starts
    /// empty and is fed by the records admitted from now on.
    pub fn n_largest(&mut self, n_largest: usize)
        requires
            old(self).wf(),
        ensures
            final(self).wf(),
            final(self)@ == old(self)@,
            final(self).unit_filter() == old(self).unit_filter(),
            final(self).pattern() == old(self).pattern(),
            final(self).label() == old(self).label(),
            final(self).top_cap() == old(self).top_cap(),
            final(self).largest_cap() == n_largest,
            final(self).top_from() == old(self).top_from(),
            final(self).largest_from() == old(self)@.len(),
            final(self).largest_view() == Seq::<(u64, Seq<char>)>::empty(),
    {
        self.largest = RankSlot::new(n_largest);
        self.largest_start = Ghost(self.admitted@.len() as int);
    }

    /// Takes one record into account: an admitted record is counted under
    /// its identity and its process, and offered to both rankings.
    pub fn parse_entry(&mut self, rec: &LogRecord)
        requires
            old(self).wf(),
            old(self).total() < u64::MAX,
        ensures
            final(self).wf(),
            final(self)@ == if admitted(old(self).unit_filter(), old(self).pattern(), *rec) {
                old(self)@.push(identity_of(*rec))
            } else {
                old(self)@
            },
            final(self).unit_filter() == old(self).unit_filter(),
            final(self).pattern() == old(self).pattern(),
            final(self).label() == old(self).label(),
            final(self).top_cap() == old(self).top_cap(),
            final(self).largest_cap() == old(self).largest_cap(),
            final(self).top_from() == old(self).top_from(),
            final(self).largest_from() == old(self).largest_from(),
    {
        if !admits(&self.unit, &self.regex, rec) {
            return;
        }
        let (msg, process, priority) = match (&rec.msg, &rec.process, &rec.priority) {
            (Some(m), Some(p), Some(q)) => (m, p, q),
            _ => {
                return;
            },
        };
        let ghost h = self.admitted@;
        let ghost h2 = h.push(identity_of(*rec));
        let key = MessageIdentity::new(msg.clone(), process.clone(), priority.clone());
        self.total_msgs = self.total_msgs + 1;
        let count = self.msg_freq.add(key.copy_key());
        self.per_process.add(process.clone());
        self.top_talkers.insert(count, key);
        let size = msg.as_str().len() as u64;
        self.largest.insert(size, msg.clone());
        self.admitted = Ghost(h2);
        proof {
            assert(h2.drop_last() =~= h);
            assert(processes_of(h2) =~= processes_of(h).push(process@));
        }
    }
}

pub proof fn lemma_admitted_ids_len(unit: Option<Seq<char>>, pattern: Option<Seq<char>>, recs: Seq<LogRecord>)
    ensures
        admitted_ids(unit, pattern, recs).len() <= recs.len(),
    decreases recs.len(),
{
    if recs.len() > 0 {
        lemma_admitted_ids_len(unit, pattern, recs.drop_last());
    }
}

impl JournalStat {
    /// Takes each record of `records` into account, in order.
    pub fn parse(&mut self, records: &Vec<LogRecord>)
        requires
            old(self).wf(),
            old(self).total() + records@.len() < u64::MAX,
        ensures
            final(self).wf(),
            final(self)@ == old(self)@ + admitted_ids(
                old(self).unit_filter(),
                old(self).pattern(),
                records@,
            ),
            final(self).unit_filter() == old(self).unit_filter(),
            final(self).pattern() == old(self).pattern(),
            final(self).label() == old(self).label(),
            final(self).top_cap() == old(self).top_cap(),
            final(self).largest_cap() == old(self).largest_cap(),
            final(self).top_from() == old(self).top_from(),
            final(self).largest_from() == old(self).largest_from(),
    {
        let ghost h0 = self@;
        let ghost u = self.unit_filter();
        let ghost p = self.pattern();
        let n = records.len();
        let mut i: usize = 0;
        proof {
            assert(records@.take(0) =~= Seq::<LogRecord>::empty());
            assert(h0 + Seq::<IdView>::empty() =~= h0);
        }
        while i < n
            invariant
                0 <= i <= n,
                n == records@.len(),
                self.wf(),
                h0.len() + n < u64::MAX,
                self@ == h0 + admitted_ids(u, p, records@.take(i as int)),
                self.unit_filter() == u,
                self.pattern() == p,
                self.label() == old(self).label(),
                self.top_cap() == old(self).top_cap(),
                self.largest_cap() == old(self).largest_cap(),
                self.top_from() == old(self).top_from(),
                self.largest_from() == old(self).largest_from(),
                h0 == old(self)@,
                u == old(self).unit_filter(),
                p == old(self).pattern(),
            decreases n - i,
        {
            proof {
                lemma_admitted_ids_len(u, p, records@.take(i as int));
            }
            self.parse_entry(&records[i]);
            proof {
                let t = records@.take(i as int + 1);
                assert(t.drop_last() =~= records@.take(i as int));
                assert(t.last() == records@[i as int]);
                let a = admitted_ids(u, p, records@.take(i as int));
                assert((h0 + a).push(identity_of(records@[i as int])) =~= h0 + a.push(
                    identity_of(records@[i as int]),
                ));
            }
            i = i + 1;
        }
        proof {
            assert(records@.take(n as int) =~= records@);
        }
    }

    /// The number of admitted records.
    pub fn total_msgs(&self) -> (r: u64)
        requires
            self.wf(),
        ensures
            r == self@.len(),
    {
        self.total_msgs
    }

    /// The label of the input.
    pub fn input(&self) -> (r: &str)
        ensures
            r@ == self.label(),
    {
        self.input.as_str()
    }

    /// How many admitted records have the identity `id`.
    pub fn frequency(&self, id: &MessageIdentity) -> (r: u64)
        requires
            self.wf(),
        ensures
            r == occurrences(self@, id@),
    {
        self.msg_freq.get(id)
    }

    /// How many admitted records come from `process`.
    pub fn process_count(&self, process: &String) -> (r: u64)
        requires
            self.wf(),
        ensures
            r == occurrences(processes_of(self@), process@),
    {
        self.per_process.get(process)
    }

    /// The most-frequent ranking, as (count, identity) slots in rank order.
    pub fn top_talkers(&self) -> (r: &Vec<(u64, MessageIdentity)>)
        requires
            self.wf(),
        ensures
            crate::ranking::slots_view(r@) == top_run(self.top_cap(), self@, self.top_from()),
    {
        self.top_talkers.slots()
    }

    /// The largest-message ranking, as (size, text) slots in rank order.
    pub fn largest(&self) -> (r: &Vec<(u64, String)>)
        requires
            self.wf(),
        ensures
            crate::ranking::slots_view(r@) == size_run(self.largest_cap(), self@, self.largest_from()),
    {
        self.largest.slots()
    }

    /// Each process with its number of admitted records, in order of first
    /// appearance, one entry per process.
    pub fn per_process(&self) -> (r: &Vec<(String, u64)>)
        requires
            self.wf(),
        ensures
            r@ == self.process_entries(),
            forall|i: int, j: int| 0 <= i < j < r@.len() ==> r@[i].0@ != r@[j].0@,
            forall|i: int|
                0 <= i < r@.len() ==> #[trigger] r@[i].1 == occurrences(processes_of(self@), r@[i].0@),
            forall|i: int| 0 <= i < r@.len() ==> 0 < #[trigger] r@[i].1,
            forall|k: Seq<char>|
                occurrences(processes_of(self@), k) > 0 ==> exists|i: int|
                    0 <= i < r@.len() && #[trigger] r@[i].0@ == k,
            sum_counts(r@) == self@.len(),
            keys_view(r@) == first_seen(processes_of(self@)),
    {
        self.per_process.entries()
    }
}

} // verus!
