use vstd::prelude::*;
use crate::entry::LogEntry;
use crate::query::{admitted, collect, last_cursor_of, last_index_of, outcome, too_old, QueryPlan};
use crate::severity::{classified, classify, digits_value, is_digit, parsed_usize, rank, Severity};

verus! {

/// A priority text classifies as `Error` exactly when it is a number of at
/// most 3, as `Warning` exactly when it is 4 or 5, and as `Info` when it is 6
/// or more or is not a number at all.
pub proof fn law_classification(s: Seq<char>)
    ensures
        classified(s) == Severity::Error <==> (parsed_usize(s) matches Some(p) && p <= 3),
        classified(s) == Severity::Warning <==> (parsed_usize(s) matches Some(p) && 4 <= p <= 5),
        classified(s) == Severity::Info <==> (parsed_usize(s) matches Some(p) && p >= 6)
            || parsed_usize(s) is None,
        classify(None) == Severity::Info,
{
}

/// A single digit is read as its own value, so each level 0 to 9 written as
/// one digit classifies by the level rule.
pub proof fn law_single_digit(s: Seq<char>)
    requires
        s.len() == 1,
        is_digit(s[0]),
    ensures
        parsed_usize(s) == Some((s[0] as int - '0' as int) as nat),
        classified(s) == Severity::Error <==> s[0] as int - '0' as int <= 3,
        classified(s) == Severity::Warning <==> 4 <= s[0] as int - '0' as int <= 5,
        classified(s) == Severity::Info <==> s[0] as int - '0' as int >= 6,
{
    assert(s.drop_last() =~= Seq::<char>::empty());
    assert(digits_value(s.drop_last()) == 0);
    assert(s.last() == s[0]);
    assert(s[0] as int - '0' as int >= 0);
    assert(digits_value(s) == (s[0] as int - '0' as int) as nat);
}

/// The log's timestamps never decrease from oldest to newest record.
pub open spec fn chronological(log: Seq<LogEntry>) -> bool {
    forall|i: int, j: int| 0 <= i < j < log.len() ==> log[i].date <= log[j].date
}

/// Every entry a walk keeps is no newer than a bound on the records it reads.
proof fn lemma_collect_bounded(log: Seq<LogEntry>, pos: int, limit: nat, plan: QueryPlan, bound: i64)
    requires
        pos <= log.len(),
        forall|k: int| 0 <= k < pos ==> log[k].date <= bound,
    ensures
        forall|i: int|
            0 <= i < collect(log, pos, limit, plan).len() ==> #[trigger] collect(
                log,
                pos,
                limit,
                plan,
            )[i].date <= bound,
    decreases pos,
{
    if pos > 0 && limit > 0 && !too_old(log[pos - 1], plan.lower_bound) {
        if admitted(log[pos - 1], plan.threshold) {
            lemma_collect_bounded(log, pos - 1, (limit - 1) as nat, plan, bound);
        } else {
            lemma_collect_bounded(log, pos - 1, limit, plan, bound);
        }
    }
}

proof fn lemma_collect_ordered(log: Seq<LogEntry>, pos: int, limit: nat, plan: QueryPlan)
    requires
        0 <= pos <= log.len(),
        chronological(log),
    ensures
        forall|i: int, j: int|
            0 <= i < j < collect(log, pos, limit, plan).len() ==> #[trigger] collect(
                log,
                pos,
                limit,
                plan,
            )[i].date >= #[trigger] collect(log, pos, limit, plan)[j].date,
    decreases pos,
{
    if pos > 0 && limit > 0 && !too_old(log[pos - 1], plan.lower_bound) {
        if admitted(log[pos - 1], plan.threshold) {
            let rest = collect(log, pos - 1, (limit - 1) as nat, plan);
            lemma_collect_ordered(log, pos - 1, (limit - 1) as nat, plan);
            lemma_collect_bounded(log, pos - 1, (limit - 1) as nat, plan, log[pos - 1].date);
            let r = collect(log, pos, limit, plan);
            assert(r == seq![log[pos - 1]] + rest);
            assert forall|i: int, j: int| 0 <= i < j < r.len() implies r[i].date >= r[j].date by {
                assert(r[j] == rest[j - 1]);
                if i > 0 {
                    assert(r[i] == rest[i - 1]);
                }
            }
        } else {
            lemma_collect_ordered(log, pos - 1, limit, plan);
        }
    }
}

/// Over a log whose timestamps never decrease, the entries of a query never
/// increase in timestamp: they come most recent first.
pub proof fn law_reverse_chronological(log: Seq<LogEntry>, plan: QueryPlan, cursor: Option<Seq<char>>)
    requires
        chronological(log),
    ensures
        outcome(log, plan, cursor) matches Some(es) ==> forall|i: int, j: int|
            0 <= i < j < es.len() ==> #[trigger] es[i].date >= #[trigger] es[j].date,
{
    if let Some(c) = cursor {
        lemma_last_index_bounds(log, c, log.len() as int);
    }
    if let Some(p) = crate::query::start_of(log, cursor) {
        lemma_collect_ordered(log, p, plan.limit as nat, plan);
    }
}

proof fn lemma_last_index_bounds(log: Seq<LogEntry>, c: Seq<char>, upto: int)
    ensures
        last_index_of(log, c, upto) matches Some(i) ==> 0 <= i < upto && log[i].cursor@ == c,
    decreases upto,
{
    if upto > 0 && log[upto - 1].cursor@ != c {
        lemma_last_index_bounds(log, c, upto - 1);
    }
}

/// No query returns more entries than its limit.
pub proof fn law_limit(log: Seq<LogEntry>, plan: QueryPlan, cursor: Option<Seq<char>>)
    ensures
        outcome(log, plan, cursor) matches Some(es) ==> es.len() <= plan.limit,
{
    if let Some(p) = crate::query::start_of(log, cursor) {
        crate::query::lemma_collect_len(log, p, plan.limit as nat, plan);
    }
}

proof fn lemma_collect_admitted(log: Seq<LogEntry>, pos: int, limit: nat, plan: QueryPlan)
    ensures
        forall|i: int|
            0 <= i < collect(log, pos, limit, plan).len() ==> rank(
                #[trigger] collect(log, pos, limit, plan)[i].severity,
            ) <= plan.threshold,
    decreases pos,
{
    if pos > 0 && limit > 0 && !too_old(log[pos - 1], plan.lower_bound) {
        if admitted(log[pos - 1], plan.threshold) {
            let rest = collect(log, pos - 1, (limit - 1) as nat, plan);
            lemma_collect_admitted(log, pos - 1, (limit - 1) as nat, plan);
            let r = collect(log, pos, limit, plan);
            assert forall|i: int| 0 <= i < r.len() implies rank(r[i].severity) <= plan.threshold by {
                if i > 0 {
                    assert(r[i] == rest[i - 1]);
                }
            }
        } else {
            lemma_collect_admitted(log, pos - 1, limit, plan);
        }
    }
}

/// Every entry a query returns is at least as severe as its threshold asks;
/// with the threshold of `Warning`, no entry is `Info`.
pub proof fn law_severity_threshold(log: Seq<LogEntry>, plan: QueryPlan, cursor: Option<Seq<char>>)
    ensures
        outcome(log, plan, cursor) matches Some(es) ==> forall|i: int|
            0 <= i < es.len() ==> rank(#[trigger] es[i].severity) <= plan.threshold,
        plan.threshold == rank(Severity::Warning) ==> (outcome(log, plan, cursor) matches Some(es)
            ==> forall|i: int| 0 <= i < es.len() ==> #[trigger] es[i].severity != Severity::Info),
{
    if let Some(p) = crate::query::start_of(log, cursor) {
        lemma_collect_admitted(log, p, plan.limit as nat, plan);
    }
}

/// Each record of the log has a position of its own.
pub open spec fn unique_cursors(log: Seq<LogEntry>) -> bool {
    forall|i: int, j: int| 0 <= i < j < log.len() ==> log[i].cursor@ != log[j].cursor@
}

/// A walk that keeps nothing with room to keep something keeps nothing with
/// any room.
proof fn lemma_empty_walk(log: Seq<LogEntry>, pos: int, a: nat, b: nat, plan: QueryPlan)
    requires
        a > 0,
        collect(log, pos, a, plan).len() == 0,
    ensures
        collect(log, pos, b, plan).len() == 0,
    decreases pos,
{
    if pos > 0 && b > 0 && !too_old(log[pos - 1], plan.lower_bound) {
        lemma_empty_walk(log, pos - 1, a, b, plan);
    }
}

/// Only the filters of a plan, not its limit, decide a walk.
proof fn lemma_same_filters(log: Seq<LogEntry>, pos: int, limit: nat, p: QueryPlan, q: QueryPlan)
    requires
        p.threshold == q.threshold,
        p.lower_bound == q.lower_bound,
    ensures
        collect(log, pos, limit, p) == collect(log, pos, limit, q),
    decreases pos,
{
    if pos > 0 && limit > 0 && !too_old(log[pos - 1], p.lower_bound) {
        if admitted(log[pos - 1], p.threshold) {
            lemma_same_filters(log, pos - 1, (limit - 1) as nat, p, q);
        } else {
            lemma_same_filters(log, pos - 1, limit, p, q);
        }
    }
}

/// A walk with room for `a + b` entries keeps what one with room for `a`
/// keeps, then what a walk with room for `b` keeps from just before the last
/// of those.
proof fn lemma_split(log: Seq<LogEntry>, pos: int, a: nat, b: nat, plan: QueryPlan) -> (m: int)
    requires
        0 <= pos <= log.len(),
        collect(log, pos, a, plan).len() > 0,
    ensures
        0 <= m < pos,
        log[m] == collect(log, pos, a, plan).last(),
        collect(log, pos, a + b, plan) == collect(log, pos, a, plan) + collect(log, m, b, plan),
    decreases pos,
{
    let e = log[pos - 1];
    if !admitted(e, plan.threshold) {
        lemma_split(log, pos - 1, a, b, plan)
    } else {
        let rest = collect(log, pos - 1, (a - 1) as nat, plan);
        if rest.len() == 0 {
            if a > 1 {
                lemma_empty_walk(log, pos - 1, (a - 1) as nat, (a + b - 1) as nat, plan);
                lemma_empty_walk(log, pos - 1, (a - 1) as nat, b, plan);
                assert(collect(log, pos - 1, (a + b - 1) as nat, plan) =~= collect(log, pos - 1, b, plan));
            }
            assert(collect(log, pos, a, plan) =~= seq![e]);
            pos - 1
        } else {
            let m = lemma_split(log, pos - 1, (a - 1) as nat, b, plan);
            assert(((a - 1) as nat + b) as nat == (a + b - 1) as nat);
            assert(collect(log, pos, a + b, plan) =~= collect(log, pos, a, plan) + collect(log, m, b, plan));
            m
        }
    }
}

proof fn lemma_unique_index(log: Seq<LogEntry>, m: int, upto: int)
    requires
        unique_cursors(log),
        0 <= m < upto <= log.len(),
    ensures
        last_index_of(log, log[m].cursor@, upto) == Some(m),
    decreases upto,
{
    if upto - 1 != m {
        lemma_unique_index(log, m, upto - 1);
    }
}

/// Resuming a query of limit `k` at the position it returned continues it
/// with no entry repeated and none left out: the two results together are
/// what one query of limit `2k` returns.
pub proof fn law_resumption(log: Seq<LogEntry>, plan: QueryPlan, wide: QueryPlan)
    requires
        unique_cursors(log),
        wide.threshold == plan.threshold,
        wide.lower_bound == plan.lower_bound,
        wide.limit == 2 * plan.limit,
    ensures
        ({
            let first = outcome(log, plan, None)->0;
            first.len() > 0 ==> (outcome(log, plan, Some(last_cursor_of(first))) matches Some(second)
                && first + second == outcome(log, wide, None)->0)
        }),
{
    let k = plan.limit as nat;
    let first = collect(log, log.len() as int, k, plan);
    if first.len() > 0 {
        let m = lemma_split(log, log.len() as int, k, k, plan);
        lemma_unique_index(log, m, log.len() as int);
        lemma_same_filters(log, log.len() as int, wide.limit as nat, plan, wide);
        assert(wide.limit as nat == k + k);
    }
}

/// A query from the tail always succeeds, and one made again on the same log
/// returns the same entries.
pub proof fn law_repeated_poll(log: Seq<LogEntry>, plan: QueryPlan, again: QueryPlan)
    requires
        again == plan,
    ensures
        outcome(log, plan, None) is Some,
        outcome(log, again, None) == outcome(log, plan, None),
{
}

/// A cursor that names no record of the log makes the query fail.
pub proof fn law_unknown_cursor(log: Seq<LogEntry>, plan: QueryPlan, c: Seq<char>)
    requires
        forall|i: int| 0 <= i < log.len() ==> log[i].cursor@ != c,
    ensures
        outcome(log, plan, Some(c)) is None,
{
    lemma_last_index_bounds(log, c, log.len() as int);
}

} // verus!
