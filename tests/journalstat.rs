use journalstat::engine::JournalStat;
use journalstat::filter::{admit_with, admits, ConfigError, Pattern};
use journalstat::ranking::RankSlot;
use journalstat::record::{pretty_priority, LogRecord, MessageIdentity};
use journalstat::report::{percent_hundredths, rank_by_count};

fn rec(msg: &str, process: &str, priority: &str, unit: Option<&str>) -> LogRecord {
    LogRecord {
        msg: Some(msg.to_string()),
        process: Some(process.to_string()),
        priority: Some(priority.to_string()),
        unit: unit.map(|u| u.to_string()),
    }
}

fn id(msg: &str, process: &str, priority: &str) -> MessageIdentity {
    MessageIdentity::new(msg.to_string(), process.to_string(), priority.to_string())
}

fn engine(top: usize, largest: usize) -> JournalStat {
    let mut e = JournalStat::new("test.journal".to_string());
    e.n_frequent(top);
    e.n_largest(largest);
    e
}

#[test]
fn first_fit_replacement_scenario() {
    let mut r: RankSlot<String> = RankSlot::new(2);
    r.insert(1, "A".to_string());
    r.insert(1, "B".to_string());
    assert_eq!(r.slots(), &vec![(1, "A".to_string()), (1, "B".to_string())]);
    r.insert(2, "C".to_string());
    assert_eq!(r.slots(), &vec![(2, "C".to_string()), (1, "B".to_string())]);
    r.insert(3, "D".to_string());
    assert_eq!(r.slots(), &vec![(3, "D".to_string()), (1, "B".to_string())]);
}

#[test]
fn candidate_not_beating_any_slot_is_dropped() {
    let mut r: RankSlot<String> = RankSlot::new(2);
    r.insert(5, "A".to_string());
    r.insert(4, "B".to_string());
    r.insert(4, "C".to_string());
    assert_eq!(r.slots(), &vec![(5, "A".to_string()), (4, "B".to_string())]);
    assert_eq!(r.len(), 2);
    assert_eq!(r.capacity(), 2);
}

#[test]
fn stale_entries_of_one_value_remain() {
    let mut r: RankSlot<String> = RankSlot::new(3);
    r.insert(1, "A".to_string());
    r.insert(1, "B".to_string());
    r.insert(2, "B".to_string());
    assert_eq!(
        r.slots(),
        &vec![(2, "B".to_string()), (1, "B".to_string())]
    );
}

#[test]
fn zero_capacity_tracker_stays_empty() {
    let mut e = engine(0, 0);
    for i in 0..50 {
        e.parse_entry(&rec(&format!("m{}", i % 7), "p", "6", None));
    }
    assert!(e.top_talkers().is_empty());
    assert!(e.largest().is_empty());
    assert!(e.top_rows().is_empty());
    assert!(e.size_rows().is_empty());
    assert_eq!(e.total_msgs(), 50);
}

#[test]
fn tracker_never_exceeds_capacity() {
    for cap in 0..6usize {
        let mut e = engine(cap, cap);
        for i in 0..200u32 {
            let msg = "x".repeat((i % 13) as usize);
            e.parse_entry(&rec(&format!("{}{}", msg, i % 11), "p", "3", None));
            assert!(e.top_talkers().len() <= cap);
            assert!(e.largest().len() <= cap);
        }
    }
}

#[test]
fn frequency_counts_exact_identities() {
    let mut e = engine(3, 0);
    let recs = vec![
        rec("boot", "kernel", "6", None),
        rec("boot", "kernel", "6", None),
        rec("boot", "kernel", "5", None),
        rec("boot", "systemd", "6", None),
        rec("boot", "kernel", "6", None),
    ];
    e.parse(&recs);
    assert_eq!(e.frequency(&id("boot", "kernel", "6")), 3);
    assert_eq!(e.frequency(&id("boot", "kernel", "5")), 1);
    assert_eq!(e.frequency(&id("boot", "systemd", "6")), 1);
    assert_eq!(e.frequency(&id("halt", "kernel", "6")), 0);
}

#[test]
fn per_process_sum_equals_total() {
    let mut e = engine(0, 0);
    let names = ["a", "b", "c", "a", "a", "b"];
    for (i, n) in names.iter().enumerate() {
        e.parse_entry(&rec(&format!("m{}", i), n, "4", None));
    }
    let sum: u64 = e.per_process().iter().map(|(_, c)| *c).sum();
    assert_eq!(sum, e.total_msgs());
    assert_eq!(sum, 6);
    assert_eq!(e.process_count(&"a".to_string()), 3);
    assert_eq!(e.process_count(&"b".to_string()), 2);
    assert_eq!(e.process_count(&"z".to_string()), 0);
}

#[test]
fn unit_filter_is_asymmetric() {
    let mut e = engine(0, 0);
    e.set_filter_unit(&Some("sshd.service".to_string()));
    e.parse_entry(&rec("no unit", "p", "6", None));
    assert_eq!(e.total_msgs(), 1);
    e.parse_entry(&rec("other unit", "p", "6", Some("cron.service")));
    assert_eq!(e.total_msgs(), 1);
    e.parse_entry(&rec("same unit", "p", "6", Some("sshd.service")));
    assert_eq!(e.total_msgs(), 2);
}

#[test]
fn incomplete_records_are_skipped() {
    let mut e = engine(2, 2);
    let mut r = rec("m", "p", "6", None);
    r.priority = None;
    e.parse_entry(&r);
    let mut r = rec("m", "p", "6", None);
    r.process = None;
    e.parse_entry(&r);
    let mut r = rec("m", "p", "6", None);
    r.msg = None;
    e.parse_entry(&r);
    assert_eq!(e.total_msgs(), 0);
    assert!(e.per_process().is_empty());
    assert!(e.process_rows().is_empty());
}

#[test]
fn admit_with_combines_the_filters() {
    let unit = Some("a.service".to_string());
    assert!(admit_with(&unit, &rec("m", "p", "6", None), None));
    assert!(admit_with(&unit, &rec("m", "p", "6", Some("a.service")), Some(true)));
    assert!(!admit_with(&unit, &rec("m", "p", "6", Some("a.service")), Some(false)));
    assert!(!admit_with(&unit, &rec("m", "p", "6", Some("b.service")), None));
    assert!(admit_with(&None, &rec("m", "p", "6", Some("b.service")), None));
}

#[test]
fn pattern_filter_searches_within_text() {
    let p = Pattern::new("o+b").ok().unwrap();
    assert_eq!(p.as_str(), "o+b");
    assert!(p.is_found_in("xx foobar yy"));
    assert!(!p.is_found_in("xyz"));
    let pat = Some(p);
    assert!(admits(&None, &pat, &rec("foobar", "p", "6", None)));
    assert!(!admits(&None, &pat, &rec("nothing", "p", "6", None)));

    let mut e = engine(0, 0);
    e.set_regex(Some(Pattern::new("^err").ok().unwrap()));
    e.parse_entry(&rec("error: disk", "p", "3", None));
    e.parse_entry(&rec("an error", "p", "3", None));
    assert_eq!(e.total_msgs(), 1);
}

#[test]
fn invalid_pattern_is_rejected() {
    assert!(matches!(Pattern::new("foo("), Err(ConfigError::InvalidPattern)));
    assert!(Pattern::new("foo(bar)").is_ok());
}

#[test]
fn priority_names() {
    assert_eq!(pretty_priority("3"), "error");
    assert_eq!(pretty_priority("0"), "emergency");
    assert_eq!(pretty_priority("1"), "alert");
    assert_eq!(pretty_priority("2"), "critical");
    assert_eq!(pretty_priority("4"), "warn");
    assert_eq!(pretty_priority("5"), "notice");
    assert_eq!(pretty_priority("6"), "info");
    assert_eq!(pretty_priority("7"), "debug");
    assert_eq!(pretty_priority("8"), "unknown");
    assert_eq!(pretty_priority(""), "unknown");
    assert_eq!(pretty_priority("33"), "unknown");
    assert_eq!(pretty_priority("x"), "unknown");
}

#[test]
fn repeated_identity_reaches_the_ranking() {
    let mut e = engine(5, 0);
    let mut recs = Vec::new();
    let mut single = 0;
    for i in 0..10_000 {
        if i % 10 == 9 {
            recs.push(rec(&format!("single {}", single), "p", "6", None));
            single += 1;
        } else {
            recs.push(rec("repeated", "p", "6", None));
        }
    }
    assert_eq!(single, 1000);
    e.parse(&recs);
    assert_eq!(e.total_msgs(), 10_000);
    assert_eq!(e.frequency(&id("repeated", "p", "6")), 9000);
    assert!(e
        .top_talkers()
        .iter()
        .any(|(c, m)| *c == 9000 && m.msg == "repeated"));
    assert!(e.top_talkers().len() <= 5);
}

#[test]
fn identical_runs_give_identical_reports() {
    let recs: Vec<LogRecord> = (0..300)
        .map(|i| rec(&format!("msg {}", (i * 7) % 23), &format!("p{}", i % 4), "5", None))
        .collect();
    let run = || {
        let mut e = engine(4, 3);
        e.parse(&recs);
        let top: Vec<(usize, u64, String, String, String)> = e
            .top_rows()
            .into_iter()
            .map(|r| (r.rank, r.frequency, r.process, r.priority, r.message))
            .collect();
        let size: Vec<(usize, u64, String)> =
            e.size_rows().into_iter().map(|r| (r.rank, r.size, r.message)).collect();
        let procs: Vec<(usize, String, u64)> = e
            .process_rows()
            .into_iter()
            .map(|r| (r.rank, r.process, r.percent_hundredths))
            .collect();
        (top, size, procs)
    };
    assert_eq!(run(), run());
}

#[test]
fn partial_stream_reflects_processed_records() {
    let recs: Vec<LogRecord> = (0..40)
        .map(|i| rec(&format!("m{}", i % 5), "p", "6", None))
        .collect();
    let mut stopped = engine(3, 3);
    for r in recs.iter().take(17) {
        stopped.parse_entry(r);
    }
    let mut prefix = engine(3, 3);
    prefix.parse(&recs[..17].to_vec());
    assert_eq!(stopped.total_msgs(), 17);
    assert_eq!(stopped.top_talkers(), prefix.top_talkers());
    assert_eq!(stopped.largest(), prefix.largest());
    assert_eq!(stopped.frequency(&id("m0", "p", "6")), 4);
}

#[test]
fn largest_ranking_uses_byte_length() {
    let mut e = engine(0, 2);
    e.parse_entry(&rec("ab", "p", "6", None));
    e.parse_entry(&rec("éé", "p", "6", None));
    e.parse_entry(&rec("abc", "p", "6", None));
    assert_eq!(
        e.largest(),
        &vec![(4, "éé".to_string()), (3, "abc".to_string())]
    );
    let rows = e.size_rows();
    assert_eq!(rows.len(), 2);
    assert_eq!((rows[0].rank, rows[0].size, rows[0].message.as_str()), (1, 4, "éé"));
    assert_eq!((rows[1].rank, rows[1].size, rows[1].message.as_str()), (2, 3, "abc"));
}

#[test]
fn top_rows_carry_rank_and_priority_name() {
    let mut e = engine(2, 0);
    e.parse_entry(&rec("disk full", "kernel", "3", None));
    e.parse_entry(&rec("hello", "bash", "9", None));
    let rows = e.top_rows();
    assert_eq!(rows.len(), 2);
    assert_eq!(rows[0].rank, 1);
    assert_eq!(rows[0].frequency, 1);
    assert_eq!(rows[0].process, "kernel");
    assert_eq!(rows[0].priority, "error");
    assert_eq!(rows[0].message, "disk full");
    assert_eq!(rows[1].rank, 2);
    assert_eq!(rows[1].priority, "unknown");
}

#[test]
fn ranking_capacity_can_be_reset() {
    let mut e = engine(2, 0);
    e.parse_entry(&rec("a", "p", "6", None));
    e.n_frequent(1);
    assert!(e.top_talkers().is_empty());
    e.parse_entry(&rec("a", "p", "6", None));
    assert_eq!(e.top_talkers(), &vec![(2, id("a", "p", "6"))]);
}

#[test]
fn process_rows_sorted_by_count() {
    let mut e = engine(0, 0);
    for n in ["a", "b", "b", "c", "c", "c", "d"] {
        e.parse_entry(&rec("m", n, "6", None));
    }
    let rows: Vec<(usize, String, u64)> = e
        .process_rows()
        .into_iter()
        .map(|r| (r.rank, r.process, r.percent_hundredths))
        .collect();
    assert_eq!(
        rows,
        vec![
            (1, "c".to_string(), 4286),
            (2, "b".to_string(), 2857),
            (3, "a".to_string(), 1429),
            (4, "d".to_string(), 1429),
        ]
    );
    assert_eq!(e.input(), "test.journal");
}

#[test]
fn percentages_in_hundredths() {
    assert_eq!(percent_hundredths(1, 3), 3333);
    assert_eq!(percent_hundredths(2, 3), 6667);
    assert_eq!(percent_hundredths(1, 8), 1250);
    assert_eq!(percent_hundredths(1, 16), 625);
    assert_eq!(percent_hundredths(1, 1), 10000);
    assert_eq!(percent_hundredths(0, 5), 0);
    assert_eq!(percent_hundredths(1, 20000), 1);
    assert_eq!(percent_hundredths(1, 20001), 0);
}

#[test]
fn rank_by_count_is_stable() {
    let e = vec![
        ("a".to_string(), 1u64),
        ("b".to_string(), 3),
        ("c".to_string(), 1),
        ("d".to_string(), 3),
        ("e".to_string(), 2),
    ];
    assert_eq!(rank_by_count(&e), vec![1, 3, 4, 0, 2]);
}
