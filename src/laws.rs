//! Properties of a pass, stated over the models of its parts.
use crate::counter::{keys_view, lemma_occurrences_push, occurrences, sum_counts};
use crate::engine::{admitted_ids, processes_of, size_run, top_run, JournalStat};
use crate::filter::admitted;
use crate::ranking::{lemma_rank_insert_len, rank_insert};
use crate::record::{identity_of, priority_label, IdView, LogRecord};
use vstd::prelude::*;

verus! {

/// Offering a candidate to a ranking of capacity 0 leaves it empty.
proof fn lemma_rank_insert_zero<V>(score: u64, v: V)
    ensures
        rank_insert(Seq::<(u64, V)>::empty(), 0, score, v) == Seq::<(u64, V)>::empty(),
{
}

/// The most-frequent ranking never holds more slots than its capacity,
/// whatever the admitted records.
pub proof fn top_within_capacity(cap: nat, h: Seq<IdView>, start: int)
    ensures
        top_run(cap, h, start).len() <= cap,
    decreases h.len(),
{
    if h.len() > start && h.len() > 0 {
        top_within_capacity(cap, h.drop_last(), start);
        lemma_rank_insert_len(
            top_run(cap, h.drop_last(), start),
            cap,
            occurrences(h, h.last()) as u64,
            h.last(),
        );
    }
}

/// The largest-message ranking never holds more slots than its capacity,
/// whatever the admitted records.
pub proof fn largest_within_capacity(cap: nat, h: Seq<IdView>, start: int)
    ensures
        size_run(cap, h, start).len() <= cap,
    decreases h.len(),
{
    if h.len() > start && h.len() > 0 {
        largest_within_capacity(cap, h.drop_last(), start);
        lemma_rank_insert_len(
            size_run(cap, h.drop_last(), start),
            cap,
            crate::record::msg_size(h.last().0),
            h.last().0,
        );
    }
}

/// A ranking of capacity 0 stays empty, whatever the admitted records.
pub proof fn disabled_top_stays_empty(h: Seq<IdView>, start: int)
    ensures
        top_run(0, h, start) == Seq::<(u64, IdView)>::empty(),
    decreases h.len(),
{
    if h.len() > start && h.len() > 0 {
        disabled_top_stays_empty(h.drop_last(), start);
        lemma_rank_insert_zero(occurrences(h, h.last()) as u64, h.last());
    }
}

/// A largest-message ranking of capacity 0 stays empty, whatever the
/// admitted records.
pub proof fn disabled_largest_stays_empty(h: Seq<IdView>, start: int)
    ensures
        size_run(0, h, start) == Seq::<(u64, Seq<char>)>::empty(),
    decreases h.len(),
{
    if h.len() > start && h.len() > 0 {
        disabled_largest_stays_empty(h.drop_last(), start);
        lemma_rank_insert_zero(crate::record::msg_size(h.last().0), h.last().0);
    }
}

/// The records of `recs` that are admitted and have identity `k`.
pub open spec fn records_matching(
    unit: Option<Seq<char>>,
    pattern: Option<Seq<char>>,
    recs: Seq<LogRecord>,
    k: IdView,
) -> Seq<LogRecord> {
    recs.filter(|r: LogRecord| admitted(unit, pattern, r) && identity_of(r) == k)
}

/// The count kept for an identity is exactly the number of admitted records
/// with that text, process and priority.
pub proof fn frequency_is_exact(
    unit: Option<Seq<char>>,
    pattern: Option<Seq<char>>,
    recs: Seq<LogRecord>,
    k: IdView,
)
    ensures
        occurrences(admitted_ids(unit, pattern, recs), k) == records_matching(
            unit,
            pattern,
            recs,
            k,
        ).len(),
    decreases recs.len(),
{
    reveal(Seq::filter);
    if recs.len() > 0 {
        frequency_is_exact(unit, pattern, recs.drop_last(), k);
        let prev = admitted_ids(unit, pattern, recs.drop_last());
        if admitted(unit, pattern, recs.last()) {
            lemma_occurrences_push(prev, identity_of(recs.last()), k);
        }
    }
}

/// The per-process counts add up to the number of admitted records.
pub proof fn process_counts_sum_to_total(e: &JournalStat)
    requires
        e.wf(),
    ensures
        sum_counts(e.process_entries()) == e.total(),
{
    e.lemma_process_entries_sum();
}

/// Under a unit filter, a record without a unit is judged as if there were
/// no unit filter; a record with another unit is always rejected.
pub proof fn unit_filter_is_asymmetric(
    unit: Seq<char>,
    pattern: Option<Seq<char>>,
    rec: LogRecord,
)
    ensures
        rec.unit is None ==> admitted(Some(unit), pattern, rec) == admitted(None, pattern, rec),
        (rec.unit matches Some(u) && u@ != unit) ==> !admitted(Some(unit), pattern, rec),
{
}

/// Code `3` is named `error`, and any text other than a single digit from
/// `0` to `7` is named `unknown`.
pub proof fn priority_names_are_total(code: Seq<char>)
    ensures
        priority_label(seq!['3']) == "error"@,
        (code.len() != 1 || !('0' <= code[0] <= '7')) ==> priority_label(code) == "unknown"@,
{
    assert(seq!['3'].len() == 1 && seq!['3'][0] == '3');
}

/// The per-process entries as (process, count).
pub open spec fn entry_views(e: Seq<(String, u64)>) -> Seq<(Seq<char>, u64)> {
    e.map_values(|p: (String, u64)| (p.0@, p.1))
}

/// Two passes with the same configuration that admitted the same records
/// hold the same rankings and the same counts.
pub proof fn passes_are_deterministic(a: &JournalStat, b: &JournalStat)
    requires
        a.wf(),
        b.wf(),
        a@ == b@,
        a.top_cap() == b.top_cap(),
        a.largest_cap() == b.largest_cap(),
        a.top_from() == b.top_from(),
        a.largest_from() == b.largest_from(),
    ensures
        a.top_view() == b.top_view(),
        a.largest_view() == b.largest_view(),
        a.total() == b.total(),
        a.freq_view() == b.freq_view(),
        a.process_view() == b.process_view(),
        entry_views(a.process_entries()) == entry_views(b.process_entries()),
{
    a.lemma_views_follow_history();
    b.lemma_views_follow_history();
    let ea = a.process_entries();
    let eb = b.process_entries();
    assert(keys_view(ea).len() == keys_view(eb).len());
    assert forall|i: int| 0 <= i < ea.len() implies entry_views(ea)[i] == entry_views(eb)[i] by {
        assert(keys_view(ea)[i] == keys_view(eb)[i]);
        assert(ea[i].1 == occurrences(processes_of(a@), ea[i].0@));
        assert(eb[i].1 == occurrences(processes_of(b@), eb[i].0@));
    }
    assert(entry_views(ea) =~= entry_views(eb));
}

} // verus!
