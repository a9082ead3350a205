//! The rows of a report, ready to be rendered.
use crate::counter::{lemma_occurrences_le_len, occurrences};
use crate::engine::{processes_of, JournalStat};
use crate::ranking::slots_view;
use crate::record::{pretty_priority, priority_label};
use vstd::prelude::*;

verus! {

/// A row of the most-frequent ranking.
#[derive(Debug, Clone, PartialEq, Eq)]
pub struct TopRow {
    pub rank: usize,
    pub frequency: u64,
    pub process: String,
    pub priority: String,
    pub message: String,
}

/// A row of the largest-message ranking.
#[derive(Debug, Clone, PartialEq, Eq)]
pub struct SizeRow {
    pub rank: usize,
    pub size: u64,
    pub message: String,
}

/// A row of the per-process volume list.
#[derive(Debug, Clone, PartialEq, Eq)]
pub struct ProcessRow {
    pub rank: usize,
    pub process: String,
    /// The process's share of all admitted records, in hundredths of a percent.
    pub percent_hundredths: u64,
}

/// `count` out of `total` in hundredths of a percent, rounded to nearest
/// with halves up.
pub open spec fn share_hundredths(count: nat, total: nat) -> nat {
    ((20000 * count + total) / (2 * total)) as nat
}

/// `count` out of `total` in hundredths of a percent, rounded to nearest
/// with halves up.
pub fn percent_hundredths(count: u64, total: u64) -> (r: u64)
    requires
        0 < total,
        count <= total,
    ensures
        r == share_hundredths(count as nat, total as nat),
        r <= 10000,
{
    let c = count as u128;
    let t = total as u128;
    let r = (20000 * c + t) / (2 * t);
    assert(r <= 10000) by (nonlinear_arith)
        requires
            r == (20000 * c + t) / (2 * t),
            c <= t,
            0 < t,
    {
        assert(20000 * c + t <= 20001 * t);
        assert(20001 * t < 10001 * (2 * t));
    }
    r as u64
}

impl JournalStat {
    /// The most-frequent ranking as rows: rank (slot index + 1), count,
    /// process, priority name and message.
    pub fn top_rows(&self) -> (r: Vec<TopRow>)
        requires
            self.wf(),
        ensures
            r@.len() == self.top_view().len(),
            forall|i: int|
                0 <= i < r@.len() ==> {
                    let row = #[trigger] r@[i];
                    let slot = self.top_view()[i];
                    &&& row.rank == i + 1
                    &&& row.frequency == slot.0
                    &&& row.message@ == slot.1.0
                    &&& row.process@ == slot.1.1
                    &&& row.priority@ == priority_label(slot.1.2)
                },
    {
        proof {
            self.lemma_views_follow_history();
            crate::laws::top_within_capacity(self.top_cap(), self@, self.top_from());
        }
        let slots = self.top_talkers();
        let ghost v = slots_view(slots@);
        let mut rows: Vec<TopRow> = Vec::new();
        let mut i: usize = 0;
        while i < slots.len()
            invariant
                0 <= i <= slots@.len(),
                v == slots_view(slots@),
                v == self.top_view(),
                rows@.len() == i,
                forall|j: int|
                    0 <= j < i ==> {
                        let row = #[trigger] rows@[j];
                        let slot = v[j];
                        &&& row.rank == j + 1
                        &&& row.frequency == slot.0
                        &&& row.message@ == slot.1.0
                        &&& row.process@ == slot.1.1
                        &&& row.priority@ == priority_label(slot.1.2)
                    },
            decreases slots@.len() - i,
        {
            let (count, id) = &slots[i];
            assert(v[i as int] == (slots@[i as int].0, slots@[i as int].1@));
            rows.push(
                TopRow {
                    rank: i + 1,
                    frequency: *count,
                    process: id.process.clone(),
                    priority: pretty_priority(id.priority.as_str()),
                    message: id.msg.clone(),
                },
            );
            i = i + 1;
        }
        rows
    }

    /// The largest-message ranking as rows: rank (slot index + 1), size in
    /// bytes and message.
    pub fn size_rows(&self) -> (r: Vec<SizeRow>)
        requires
            self.wf(),
        ensures
            r@.len() == self.largest_view().len(),
            forall|i: int|
                0 <= i < r@.len() ==> {
                    let row = #[trigger] r@[i];
                    let slot = self.largest_view()[i];
                    &&& row.rank == i + 1
                    &&& row.size == slot.0
                    &&& row.message@ == slot.1
                },
    {
        proof {
            self.lemma_views_follow_history();
        }
        let slots = self.largest();
        let ghost v = slots_view(slots@);
        let mut rows: Vec<SizeRow> = Vec::new();
        let mut i: usize = 0;
        while i < slots.len()
            invariant
                0 <= i <= slots@.len(),
                v == slots_view(slots@),
                v == self.largest_view(),
                rows@.len() == i,
                forall|j: int|
                    0 <= j < i ==> {
                        let row = #[trigger] rows@[j];
                        let slot = v[j];
                        &&& row.rank == j + 1
                        &&& row.size == slot.0
                        &&& row.message@ == slot.1
                    },
            decreases slots@.len() - i,
        {
            let (size, msg) = &slots[i];
            assert(v[i as int] == (slots@[i as int].0, slots@[i as int].1@));
            rows.push(SizeRow { rank: i + 1, size: *size, message: msg.clone() });
            i = i + 1;
        }
        rows
    }
}

/// `order` lists each index below `n` once.
pub open spec fn is_arrangement(order: Seq<usize>, n: int) -> bool {
    &&& order.len() == n
    &&& forall|a: int, b: int| 0 <= a < b < order.len() ==> order[a] != order[b]
    &&& forall|a: int| 0 <= a < order.len() ==> order[a] < n
    &&& forall|j: usize| j < n ==> #[trigger] order.contains(j)
}

/// `order` arranges `e` by descending count, equal counts in their order in `e`.
pub open spec fn by_count_desc(e: Seq<(String, u64)>, order: Seq<usize>) -> bool {
    forall|a: int, b: int|
        0 <= a < b < order.len() ==> e[order[a] as int].1 > e[order[b] as int].1 || (e[order[a] as int].1
            == e[order[b] as int].1 && order[a] < order[b])
}

/// The indices of `e`, arranged by descending count; equal counts keep
/// their order in `e`.
pub fn rank_by_count(e: &Vec<(String, u64)>) -> (r: Vec<usize>)
    ensures
        is_arrangement(r@, e@.len() as int),
        by_count_desc(e@, r@),
{
    let n = e.len();
    let mut order: Vec<usize> = Vec::new();
    let mut i: usize = 0;
    while i < n
        invariant
            0 <= i <= n,
            n == e@.len(),
            is_arrangement(order@, i as int),
            by_count_desc(e@, order@),
        decreases n - i,
    {
        let c = e[i].1;
        let mut pos: usize = 0;
        while pos < order.len()
            invariant
                0 <= pos <= order@.len(),
                order@.len() == i,
                i < n,
                n == e@.len(),
                c == e@[i as int].1,
                forall|a: int| 0 <= a < order@.len() ==> order@[a] < i,
                forall|a: int| 0 <= a < pos ==> e@[order@[a] as int].1 >= c,
            ensures
                0 <= pos <= order@.len(),
                pos < order@.len() ==> e@[order@[pos as int] as int].1 < c,
                forall|a: int| 0 <= a < pos ==> e@[order@[a] as int].1 >= c,
            decreases order@.len() - pos,
        {
            if e[order[pos]].1 < c {
                break;
            }
            pos = pos + 1;
        }
        let ghost old_order = order@;
        order.insert(pos, i);
        proof {
            old_order.insert_ensures(pos as int, i);
            let o = order@;
            assert forall|a: int, b: int| 0 <= a < b < o.len() implies o[a] != o[b] by {
                if a < pos && b < pos {
                } else if a < pos && b == pos {
                } else if a < pos {
                    assert(o[b] == old_order[b - 1]);
                } else if a == pos {
                    assert(o[b] == old_order[b - 1]);
                } else {
                    assert(o[a] == old_order[a - 1]);
                    assert(o[b] == old_order[b - 1]);
                }
            }
            assert forall|a: int| 0 <= a < o.len() implies o[a] < i + 1 by {
                if a > pos {
                    assert(o[a] == old_order[a - 1]);
                }
            }
            assert forall|j: usize| j < i + 1 implies #[trigger] o.contains(j) by {
                if j == i {
                    assert(o[pos as int] == j);
                } else {
                    assert(old_order.contains(j));
                    let q = choose|a: int| 0 <= a < old_order.len() && old_order[a] == j;
                    if q < pos {
                        assert(o[q] == j);
                    } else {
                        assert(o[q + 1] == old_order[q]);
                    }
                }
            }
            assert forall|a: int, b: int| 0 <= a < b < o.len() implies e@[o[a] as int].1 > e@[o[b] as int].1
                || (e@[o[a] as int].1 == e@[o[b] as int].1 && o[a] < o[b]) by {
                if b < pos {
                } else if b == pos {
                } else if a < pos {
                    assert(o[b] == old_order[b - 1]);
                    if pos < old_order.len() {
                        assert(e@[old_order[pos as int] as int].1 < c);
                        if b - 1 > pos {
                            assert(e@[old_order[pos as int] as int].1 >= e@[old_order[b - 1] as int].1);
                        }
                    }
                } else if a == pos {
                    assert(o[b] == old_order[b - 1]);
                    assert(e@[old_order[pos as int] as int].1 < c);
                    if b - 1 > pos {
                        assert(e@[old_order[pos as int] as int].1 >= e@[old_order[b - 1] as int].1);
                    }
                } else {
                    assert(o[a] == old_order[a - 1]);
                    assert(o[b] == old_order[b - 1]);
                }
            }
        }
        i = i + 1;
    }
    order
}

/// `rows` lists `e` in the arrangement `order`, with each process's share
/// of `total`.
pub open spec fn rows_follow(rows: Seq<ProcessRow>, e: Seq<(String, u64)>, order: Seq<usize>, total: nat) -> bool {
    &&& rows.len() == order.len()
    &&& forall|i: int|
        0 <= i < rows.len() ==> {
            let row = #[trigger] rows[i];
            &&& row.rank == i + 1
            &&& row.process@ == e[order[i] as int].0@
            &&& row.percent_hundredths == share_hundredths(e[order[i] as int].1 as nat, total)
        }
}

impl JournalStat {
    /// The processes by descending number of admitted records (equal counts
    /// in order of first appearance), each with its share of the total; no
    /// rows where no record was admitted.
    pub fn process_rows(&self) -> (r: Vec<ProcessRow>)
        requires
            self.wf(),
        ensures
            self.total() == 0 ==> r@.len() == 0,
            self.total() > 0 ==> exists|order: Seq<usize>|
                is_arrangement(order, self.process_entries().len() as int) && by_count_desc(
                    self.process_entries(),
                    order,
                ) && rows_follow(r@, self.process_entries(), order, self.total()),
    {
        proof {
            self.lemma_views_follow_history();
        }
        let total = self.total_msgs();
        let mut rows: Vec<ProcessRow> = Vec::new();
        if total == 0 {
            return rows;
        }
        let e = self.per_process();
        proof {
            assert forall|k: Seq<char>| occurrences(processes_of(self@), k) <= total by {
                lemma_occurrences_le_len(processes_of(self@), k);
            }
        }
        let order = rank_by_count(e);
        let mut i: usize = 0;
        while i < order.len()
            invariant
                0 <= i <= order@.len(),
                0 < total,
                total == self.total(),
                e@ == self.process_entries(),
                is_arrangement(order@, e@.len() as int),
                forall|j: int| 0 <= j < e@.len() ==> #[trigger] e@[j].1 <= total,
                rows@.len() == i,
                forall|j: int|
                    0 <= j < i ==> {
                        let row = #[trigger] rows@[j];
                        &&& row.rank == j + 1
                        &&& row.process@ == e@[order@[j] as int].0@
                        &&& row.percent_hundredths == share_hundredths(
                            e@[order@[j] as int].1 as nat,
                            total as nat,
                        )
                    },
            decreases order@.len() - i,
        {
            let k = order[i];
            let (process, count) = &e[k];
            rows.push(
                ProcessRow {
                    rank: i + 1,
                    process: process.clone(),
                    percent_hundredths: percent_hundredths(*count, total),
                },
            );
            i = i + 1;
        }
        assert(rows_follow(rows@, e@, order@, total as nat));
        rows
    }
}

} // verus!
