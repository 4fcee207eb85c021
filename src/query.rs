use vstd::prelude::*;
use crate::entry::{text_of, LogEntry};
use crate::severity::{lower_of, named_severity, rank, Severity};

verus! {

/// The number of entries a query returns when the caller gives no limit.
pub const DEFAULT_LIMIT: usize = 100;

/// What a query keeps and where it stops, with its parameters resolved.
#[derive(Debug, Clone, Copy, PartialEq, Eq, Structural)]
pub struct QueryPlan {
    /// The most entries returned.
    pub limit: usize,
    /// Entries whose severity ordinal exceeds this are skipped.
    pub threshold: usize,
    /// The walk stops at the first entry older than this, in microseconds.
    pub lower_bound: Option<u128>,
}

/// The entries of one query, most recent first, and where to resume.
#[derive(Debug)]
pub struct QueryResult {
    pub entries: Vec<LogEntry>,
    /// The position of the last entry returned; empty if none was.
    pub last_cursor: String,
}

/// Why a query could not run.
#[derive(Debug, Clone, Copy, PartialEq, Eq, Structural)]
pub enum QueryError {
    /// The log could not be opened or the cursor names no record of it.
    Open,
}

/// A walk stops at an entry that is older than the lower bound.
pub open spec fn too_old(e: LogEntry, lower: Option<u128>) -> bool {
    match lower {
        Some(b) => (e.date as int) < (b as int),
        None => false,
    }
}

/// An entry is kept when its severity is at most as low as the threshold.
pub open spec fn admitted(e: LogEntry, threshold: usize) -> bool {
    rank(e.severity) <= threshold
}

/// The entries that a backward walk keeps, reading `log[pos - 1]`, then
/// `log[pos - 2]` and so on, keeping at most `limit` of them.
pub open spec fn collect(log: Seq<LogEntry>, pos: int, limit: nat, plan: QueryPlan) -> Seq<LogEntry>
    decreases pos,
{
    if pos <= 0 || limit == 0 {
        Seq::empty()
    } else if too_old(log[pos - 1], plan.lower_bound) {
        Seq::empty()
    } else if !admitted(log[pos - 1], plan.threshold) {
        collect(log, pos - 1, limit, plan)
    } else {
        seq![log[pos - 1]] + collect(log, pos - 1, (limit - 1) as nat, plan)
    }
}

/// The position of the latest record below `upto` whose cursor is `c`.
pub open spec fn last_index_of(log: Seq<LogEntry>, c: Seq<char>, upto: int) -> Option<int>
    decreases upto,
{
    if upto <= 0 {
        None
    } else if log[upto - 1].cursor@ == c {
        Some(upto - 1)
    } else {
        last_index_of(log, c, upto - 1)
    }
}

/// Where a walk starts: at the tail, or at the record that a cursor names,
/// so that the first entry read is the one just before it.
pub open spec fn start_of(log: Seq<LogEntry>, cursor: Option<Seq<char>>) -> Option<int> {
    match cursor {
        None => Some(log.len() as int),
        Some(c) => last_index_of(log, c, log.len() as int),
    }
}

/// The entries a query returns, or `None` where the cursor names no record.
pub open spec fn outcome(log: Seq<LogEntry>, plan: QueryPlan, cursor: Option<Seq<char>>) -> Option<Seq<LogEntry>> {
    match start_of(log, cursor) {
        Some(p) => Some(collect(log, p, plan.limit as nat, plan)),
        None => None,
    }
}

pub open spec fn last_cursor_of(entries: Seq<LogEntry>) -> Seq<char> {
    if entries.len() == 0 {
        Seq::empty()
    } else {
        entries.last().cursor@
    }
}

/// The severity threshold that a caller's severity name asks for; no name, or
/// one that is not a severity, filters nothing.
pub open spec fn threshold_of(severity: Option<String>) -> usize {
    match severity {
        Some(s) => match named_severity(lower_of(s@)) {
            Some(v) => rank(v) as usize,
            None => usize::MAX,
        },
        None => usize::MAX,
    }
}

/// The time bound for entries of the last `last_secs` seconds before `now_us`;
/// a bound before the epoch is the epoch.
pub open spec fn lower_bound_of(last_secs: Option<usize>, now_us: u128) -> Option<u128> {
    match last_secs {
        Some(k) => {
            let span = k as int * 1_000_000;
            if now_us as int >= span {
                Some((now_us as int - span) as u128)
            } else {
                Some(0)
            }
        },
        None => None,
    }
}

impl QueryPlan {
    /// Resolves a caller's parameters: `n` entries at most (100 by default),
    /// severity at most `severity`, and no entry older than `last_secs` seconds
    /// before `now_us`.
    pub fn resolve(
        n: &Option<usize>,
        severity: &Option<String>,
        last_secs: &Option<usize>,
        now_us: u128,
    ) -> (r: QueryPlan)
        ensures
            r.limit == match *n {
                Some(k) => k,
                None => DEFAULT_LIMIT,
            },
            r.threshold == threshold_of(*severity),
            r.lower_bound == lower_bound_of(*last_secs, now_us),
    {
        let limit = match n {
            Some(k) => *k,
            None => DEFAULT_LIMIT,
        };
        let threshold = match severity {
            Some(s) => match Severity::parse_name(s.as_str()) {
                Some(v) => v.cardinality(),
                None => usize::MAX,
            },
            None => usize::MAX,
        };
        let lower_bound = match last_secs {
            Some(k) => {
                let span: u128 = (*k as u128) * 1_000_000;
                if now_us >= span {
                    Some(now_us - span)
                } else {
                    Some(0)
                }
            },
            None => None,
        };
        QueryPlan { limit, threshold, lower_bound }
    }
}

/// The state of one query while the log is read backward, one entry at a time.
pub struct Collector {
    pub plan: QueryPlan,
    pub entries: Vec<LogEntry>,
    /// Set once the query wants no more entries.
    pub done: bool,
}

impl Collector {
    pub open spec fn wf(&self) -> bool {
        &&& self.entries.len() <= self.plan.limit
        &&& !self.done ==> self.entries.len() < self.plan.limit
    }

    /// A query that has kept nothing yet.
    pub fn new(plan: QueryPlan) -> (r: Collector)
        ensures
            r.wf(),
            r.plan == plan,
            r.entries@.len() == 0,
            r.done == (plan.limit == 0),
    {
        let done = plan.limit == 0;
        Collector { plan, entries: Vec::new(), done }
    }

    /// Hands the query the next older entry. Returns whether it wants another.
    /// An entry older than the bound ends the query and is not kept; one of
    /// too low a severity is skipped; the query ends when it holds `limit`.
    pub fn offer(&mut self, e: LogEntry) -> (more: bool)
        requires
            old(self).wf(),
        ensures
            final(self).wf(),
            final(self).plan == old(self).plan,
            more == !final(self).done,
            old(self).done ==> *final(self) == *old(self),
            !old(self).done && too_old(e, old(self).plan.lower_bound) ==> {
                &&& final(self).entries@ == old(self).entries@
                &&& final(self).done
            },
            !old(self).done && !too_old(e, old(self).plan.lower_bound) && !admitted(
                e,
                old(self).plan.threshold,
            ) ==> {
                &&& final(self).entries@ == old(self).entries@
                &&& !final(self).done
            },
            !old(self).done && !too_old(e, old(self).plan.lower_bound) && admitted(
                e,
                old(self).plan.threshold,
            ) ==> {
                &&& final(self).entries@ == old(self).entries@.push(e)
                &&& final(self).done == (final(self).entries.len() == old(self).plan.limit)
            },
    {
        if self.done {
            return false;
        }
        let old_enough = match self.plan.lower_bound {
            Some(b) => e.date < 0 || (e.date as u128) < b,
            None => false,
        };
        if old_enough {
            self.done = true;
            return false;
        }
        if e.severity.cardinality() > self.plan.threshold {
            return true;
        }
        self.entries.push(e);
        if self.entries.len() == self.plan.limit {
            self.done = true;
        }
        !self.done
    }

    /// The result of the query: what it kept, and the position of the last.
    pub fn finish(self) -> (r: QueryResult)
        ensures
            r.entries@ == self.entries@,
            r.last_cursor@ == last_cursor_of(self.entries@),
    {
        let n = self.entries.len();
        let last_cursor = if n == 0 {
            String::new()
        } else {
            self.entries[n - 1].cursor.clone()
        };
        QueryResult { entries: self.entries, last_cursor }
    }
}

/// The index of the latest record of `log` whose cursor is `c`.
pub fn find_position(log: &Vec<LogEntry>, c: &String) -> (r: Option<usize>)
    ensures
        match r {
            Some(i) => i < log@.len() && last_index_of(log@, c@, log@.len() as int) == Some(
                i as int,
            ),
            None => last_index_of(log@, c@, log@.len() as int) is None,
        },
{
    let mut upto = log.len();
    while upto > 0
        invariant
            upto <= log@.len(),
            last_index_of(log@, c@, log@.len() as int) == last_index_of(log@, c@, upto as int),
        decreases upto,
    {
        if log[upto - 1].cursor == *c {
            return Some(upto - 1);
        }
        upto = upto - 1;
    }
    None
}

/// Runs a resolved query over a log held in memory, oldest record first:
/// from the tail, or from just before the record that `cursor` names.
pub fn query_log(plan: &QueryPlan, cursor: &Option<String>, log: &Vec<LogEntry>) -> (r: Result<
    QueryResult,
    QueryError,
>)
    ensures
        r is Err <==> outcome(log@, *plan, text_of(*cursor)) is None,
        r is Err ==> r->Err_0 == QueryError::Open,
        r is Ok ==> {
            &&& r->Ok_0.entries@ == outcome(log@, *plan, text_of(*cursor))->0
            &&& r->Ok_0.last_cursor@ == last_cursor_of(r->Ok_0.entries@)
            &&& r->Ok_0.entries@.len() <= plan.limit
        },
{
    let start = match cursor {
        Some(c) => match find_position(log, c) {
            Some(i) => i,
            None => return Err(QueryError::Open),
        },
        None => log.len(),
    };
    let ghost total = collect(log@, start as int, plan.limit as nat, *plan);
    let mut col = Collector::new(*plan);
    let mut pos = start;
    while pos > 0 && !col.done
        invariant
            col.wf(),
            col.plan == *plan,
            pos <= start <= log@.len(),
            total == collect(log@, start as int, plan.limit as nat, *plan),
            !col.done ==> col.entries@ + collect(
                log@,
                pos as int,
                (plan.limit - col.entries@.len()) as nat,
                *plan,
            ) == total,
            col.done ==> col.entries@ == total,
        decreases pos,
    {
        let e = log[pos - 1].duplicate();
        let ghost before = col.entries@;
        let ghost rem = (plan.limit - before.len()) as nat;
        col.offer(e);
        proof {
            if !too_old(e, plan.lower_bound) && admitted(e, plan.threshold) {
                assert(before + collect(log@, pos as int, rem, *plan) == before.push(e) + collect(
                    log@,
                    pos - 1,
                    (rem - 1) as nat,
                    *plan,
                ));
                if col.done {
                    assert(col.entries@ =~= col.entries@ + collect(log@, pos - 1, 0, *plan));
                }
            } else if !too_old(e, plan.lower_bound) {
            } else {
                assert(before =~= before + collect(log@, pos as int, rem, *plan));
            }
        }
        pos = pos - 1;
    }
    proof {
        if !col.done {
            assert(col.entries@ =~= col.entries@ + collect(
                log@,
                0,
                (plan.limit - col.entries@.len()) as nat,
                *plan,
            ));
        }
        lemma_collect_len(log@, start as int, plan.limit as nat, *plan);
    }
    Ok(col.finish())
}

/// Queries a log held in memory, oldest record first: at most `n` entries
/// (100 by default), of severity at most `severity`, none older than
/// `last_secs` seconds before `now_us`, from the tail or from just before the
/// record that `cursor` names.
pub fn query_journal(
    n: &Option<usize>,
    severity: &Option<String>,
    last_secs: &Option<usize>,
    cursor: &Option<String>,
    now_us: u128,
    log: &Vec<LogEntry>,
) -> (r: Result<QueryResult, QueryError>)
    ensures
        ({
            let plan = QueryPlan {
                limit: match *n {
                    Some(k) => k,
                    None => DEFAULT_LIMIT,
                },
                threshold: threshold_of(*severity),
                lower_bound: lower_bound_of(*last_secs, now_us),
            };
            &&& r is Err <==> outcome(log@, plan, text_of(*cursor)) is None
            &&& r is Err ==> r->Err_0 == QueryError::Open
            &&& r is Ok ==> {
                &&& r->Ok_0.entries@ == outcome(log@, plan, text_of(*cursor))->0
                &&& r->Ok_0.last_cursor@ == last_cursor_of(r->Ok_0.entries@)
            }
        }),
{
    let plan = QueryPlan::resolve(n, severity, last_secs, now_us);
    query_log(&plan, cursor, log)
}

/// A walk keeps at most `limit` entries.
pub proof fn lemma_collect_len(log: Seq<LogEntry>, pos: int, limit: nat, plan: QueryPlan)
    ensures
        collect(log, pos, limit, plan).len() <= limit,
    decreases pos,
{
    if pos > 0 && limit > 0 && !too_old(log[pos - 1], plan.lower_bound) {
        if admitted(log[pos - 1], plan.threshold) {
            lemma_collect_len(log, pos - 1, (limit - 1) as nat, plan);
        } else {
            lemma_collect_len(log, pos - 1, limit, plan);
        }
    }
}

} // verus!
