use journal_query::entry::{LogEntry, RawRecord};
use journal_query::query::{find_position, query_journal, query_log, Collector, QueryError, QueryPlan};
use journal_query::severity::Severity;

fn record(priority: &str, ts: i64, cursor: &str) -> LogEntry {
    LogEntry::from_journal_entry(&RawRecord {
        priority: Some(priority.to_string()),
        message: Some(format!("message at {}", ts)),
        origin: Some("unit.service".to_string()),
        wallclock_us: Some(ts),
        cursor: Some(cursor.to_string()),
    })
}

/// Oldest first: priorities 6, 2, 4, 2 at 100, 200, 300, 400.
fn sample_log() -> Vec<LogEntry> {
    vec![
        record("6", 100, "c100"),
        record("2", 200, "c200"),
        record("4", 300, "c300"),
        record("2", 400, "c400"),
    ]
}

fn dates(entries: &[LogEntry]) -> Vec<i64> {
    entries.iter().map(|e| e.date).collect()
}

fn plan(limit: usize, threshold: usize, lower_bound: Option<u128>) -> QueryPlan {
    QueryPlan { limit, threshold, lower_bound }
}

#[test]
fn warning_threshold_keeps_errors_and_warnings() {
    let log = sample_log();
    let r = query_journal(&Some(10), &Some("warning".to_string()), &None, &None, 0, &log).unwrap();
    assert_eq!(dates(&r.entries), vec![400, 300, 200]);
    let sev: Vec<Severity> = r.entries.iter().map(|e| e.severity).collect();
    assert_eq!(sev, vec![Severity::Error, Severity::Warning, Severity::Error]);
    assert_eq!(r.last_cursor, "c200");
}

#[test]
fn limit_then_resume_from_last_cursor() {
    let log = sample_log();
    let r = query_journal(&Some(2), &None, &None, &None, 0, &log).unwrap();
    assert_eq!(dates(&r.entries), vec![400, 300]);
    assert_eq!(r.last_cursor, "c300");
    let next = query_journal(&Some(10), &None, &None, &Some(r.last_cursor.clone()), 0, &log).unwrap();
    assert_eq!(dates(&next.entries), vec![200, 100]);
    assert_eq!(next.last_cursor, "c100");
}

#[test]
fn unknown_cursor_is_an_open_error() {
    let log = sample_log();
    let r = query_journal(&Some(10), &None, &None, &Some("gone".to_string()), 0, &log);
    assert_eq!(r.unwrap_err(), QueryError::Open);
    let empty: Vec<LogEntry> = Vec::new();
    let r = query_journal(&None, &None, &None, &Some("c1".to_string()), 0, &empty);
    assert_eq!(r.unwrap_err(), QueryError::Open);
}

#[test]
fn polling_twice_at_tail_gives_the_same_entries() {
    let log = sample_log();
    let a = query_journal(&Some(3), &None, &None, &None, 0, &log).unwrap();
    let b = query_journal(&Some(3), &None, &None, &None, 0, &log).unwrap();
    assert_eq!(dates(&a.entries), dates(&b.entries));
    assert_eq!(a.last_cursor, b.last_cursor);
    let empty: Vec<LogEntry> = Vec::new();
    let c = query_journal(&None, &None, &None, &None, 0, &empty).unwrap();
    let d = query_journal(&None, &None, &None, &None, 0, &empty).unwrap();
    assert!(c.entries.is_empty() && d.entries.is_empty());
    assert_eq!(c.last_cursor, "");
    assert_eq!(d.last_cursor, "");
}

#[test]
fn resumption_matches_a_query_of_double_limit() {
    let log: Vec<LogEntry> = (0..9)
        .map(|i| record(if i % 3 == 0 { "6" } else { "3" }, 10 * i as i64, &format!("k{}", i)))
        .collect();
    let first = query_journal(&Some(2), &Some("error".to_string()), &None, &None, 0, &log).unwrap();
    let second = query_journal(
        &Some(2),
        &Some("error".to_string()),
        &None,
        &Some(first.last_cursor.clone()),
        0,
        &log,
    )
    .unwrap();
    let whole = query_journal(&Some(4), &Some("error".to_string()), &None, &None, 0, &log).unwrap();
    let mut joined = dates(&first.entries);
    joined.extend(dates(&second.entries));
    assert_eq!(joined, dates(&whole.entries));
    assert_eq!(joined, vec![80, 70, 50, 40]);
}

#[test]
fn results_never_exceed_the_limit() {
    let log = sample_log();
    for limit in 0..6usize {
        let r = query_journal(&Some(limit), &None, &None, &None, 0, &log).unwrap();
        assert_eq!(r.entries.len(), limit.min(4));
    }
}

#[test]
fn zero_limit_returns_nothing() {
    let log = sample_log();
    let r = query_journal(&Some(0), &None, &None, &None, 0, &log).unwrap();
    assert!(r.entries.is_empty());
    assert_eq!(r.last_cursor, "");
}

#[test]
fn default_limit_is_one_hundred() {
    let log: Vec<LogEntry> = (0..150).map(|i| record("6", i as i64, &format!("k{}", i))).collect();
    let r = query_journal(&None, &None, &None, &None, 0, &log).unwrap();
    assert_eq!(r.entries.len(), 100);
    assert_eq!(r.entries[0].date, 149);
    assert_eq!(r.last_cursor, "k50");
}

#[test]
fn entries_come_most_recent_first() {
    let log = sample_log();
    let r = query_journal(&None, &None, &None, &None, 0, &log).unwrap();
    assert_eq!(dates(&r.entries), vec![400, 300, 200, 100]);
}

#[test]
fn error_threshold_keeps_only_errors() {
    let log = sample_log();
    let r = query_journal(&None, &Some("Error".to_string()), &None, &None, 0, &log).unwrap();
    assert_eq!(dates(&r.entries), vec![400, 200]);
}

#[test]
fn unknown_severity_name_filters_nothing() {
    let log = sample_log();
    let r = query_journal(&None, &Some("loud".to_string()), &None, &None, 0, &log).unwrap();
    assert_eq!(dates(&r.entries), vec![400, 300, 200, 100]);
}

#[test]
fn time_bound_stops_the_walk() {
    // now is 10 s after the epoch; the last 9 s keep entries from 1_000_000 on.
    let log = vec![
        record("3", 2_500_000, "a"),
        record("3", 500_000, "b"),
        record("3", 3_000_000, "c"),
        record("3", 1_000_000, "d"),
    ];
    let r = query_journal(&None, &None, &Some(9), &None, 10_000_000, &log).unwrap();
    // "b" is too old and ends the walk, although "a" is recent enough.
    assert_eq!(dates(&r.entries), vec![1_000_000, 3_000_000]);
    assert_eq!(r.last_cursor, "c");
}

#[test]
fn time_bound_before_the_epoch_is_the_epoch() {
    let log = vec![record("3", -5, "a"), record("3", 0, "b")];
    let r = query_journal(&None, &None, &Some(100), &None, 10, &log).unwrap();
    assert_eq!(dates(&r.entries), vec![0]);
    let all = query_journal(&None, &None, &None, &None, 10, &log).unwrap();
    assert_eq!(dates(&all.entries), vec![0, -5]);
}

#[test]
fn resolve_applies_defaults() {
    let p = QueryPlan::resolve(&None, &None, &None, 42);
    assert_eq!(p, plan(100, usize::MAX, None));
}

#[test]
fn resolve_reads_every_parameter() {
    let p = QueryPlan::resolve(&Some(7), &Some("WARNING".to_string()), &Some(3), 10_000_000);
    assert_eq!(p, plan(7, 1, Some(7_000_000)));
    let q = QueryPlan::resolve(&Some(1), &Some("nope".to_string()), &Some(usize::MAX), 10);
    assert_eq!(q, plan(1, usize::MAX, Some(0)));
}

#[test]
fn query_log_walks_from_the_cursor() {
    let log = sample_log();
    let r = query_log(&plan(10, 2, None), &Some("c300".to_string()), &log).unwrap();
    assert_eq!(dates(&r.entries), vec![200, 100]);
    let at_oldest = query_log(&plan(10, 2, None), &Some("c100".to_string()), &log).unwrap();
    assert!(at_oldest.entries.is_empty());
    assert_eq!(at_oldest.last_cursor, "");
}

#[test]
fn find_position_locates_the_record() {
    let log = sample_log();
    assert_eq!(find_position(&log, &"c100".to_string()), Some(0));
    assert_eq!(find_position(&log, &"c400".to_string()), Some(3));
    assert_eq!(find_position(&log, &"c500".to_string()), None);
}

#[test]
fn collector_skips_stops_and_fills() {
    let mut c = Collector::new(plan(2, 1, Some(150)));
    assert!(!c.done);
    assert!(c.offer(record("6", 400, "x")));
    assert!(c.entries.is_empty());
    assert!(c.offer(record("2", 300, "y")));
    assert!(!c.offer(record("4", 200, "z")));
    assert!(c.done);
    assert!(!c.offer(record("2", 180, "w")));
    let r = c.finish();
    assert_eq!(dates(&r.entries), vec![300, 200]);
    assert_eq!(r.last_cursor, "z");
}

#[test]
fn collector_ends_at_an_old_entry() {
    let mut c = Collector::new(plan(5, 2, Some(150)));
    assert!(c.offer(record("6", 400, "x")));
    assert!(!c.offer(record("2", 100, "y")));
    assert!(c.done);
    let r = c.finish();
    assert_eq!(dates(&r.entries), vec![400]);
    assert_eq!(r.last_cursor, "x");
}

#[test]
fn collector_with_zero_limit_is_done_at_once() {
    let mut c = Collector::new(plan(0, 2, None));
    assert!(c.done);
    assert!(!c.offer(record("2", 1, "x")));
    assert!(c.finish().entries.is_empty());
}
