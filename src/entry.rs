use vstd::prelude::*;
use crate::severity::{classify, Severity};

verus! {

/// The fields of one record of the underlying log, as the log holds them.
#[derive(Debug)]
pub struct RawRecord {
    /// The `PRIORITY` field: a numeric level, 0 to 7.
    pub priority: Option<String>,
    /// The `MESSAGE` field.
    pub message: Option<String>,
    /// The `_SYSTEMD_UNIT` field: the unit that wrote the record.
    pub origin: Option<String>,
    /// The wall-clock time of the record, in microseconds since the epoch.
    pub wallclock_us: Option<i64>,
    /// The `__CURSOR` field: the record's position in the log.
    pub cursor: Option<String>,
}

/// One decoded log entry.
#[derive(Debug)]
pub struct LogEntry {
    pub message: String,
    pub severity: Severity,
    pub origin: String,
    /// Microseconds since the epoch; 0 where the record has no wall-clock time.
    pub date: i64,
    /// The position of the record, from which a later query can resume.
    pub cursor: String,
}

pub open spec fn text_or_empty(s: Option<String>) -> Seq<char> {
    match s {
        Some(t) => t@,
        None => Seq::empty(),
    }
}

pub open spec fn text_of(s: Option<String>) -> Option<Seq<char>> {
    match s {
        Some(t) => Some(t@),
        None => None,
    }
}

/// What a raw record decodes to: absent fields take their defaults.
pub open spec fn decodes_to(raw: RawRecord, e: LogEntry) -> bool {
    &&& e.message@ == text_or_empty(raw.message)
    &&& e.severity == classify(text_of(raw.priority))
    &&& e.origin@ == text_or_empty(raw.origin)
    &&& e.date == match raw.wallclock_us {
        Some(t) => t,
        None => 0,
    }
    &&& e.cursor@ == text_or_empty(raw.cursor)
}

fn text_or_default(s: &Option<String>) -> (r: String)
    ensures
        r@ == text_or_empty(*s),
{
    match s {
        Some(t) => t.clone(),
        None => String::new(),
    }
}

impl LogEntry {
    /// Decodes one record of the underlying log. Never fails.
    pub fn from_journal_entry(raw: &RawRecord) -> (r: LogEntry)
        ensures
            decodes_to(*raw, r),
    {
        let severity = match &raw.priority {
            Some(p) => Severity::from_priority(p.as_str()),
            None => Severity::Info,
        };
        let date = match raw.wallclock_us {
            Some(t) => t,
            None => 0,
        };
        LogEntry {
            message: text_or_default(&raw.message),
            severity,
            origin: text_or_default(&raw.origin),
            date,
            cursor: text_or_default(&raw.cursor),
        }
    }

    /// A copy of this entry.
    pub fn duplicate(&self) -> (r: LogEntry)
        ensures
            r == *self,
    {
        LogEntry {
            message: self.message.clone(),
            severity: self.severity,
            origin: self.origin.clone(),
            date: self.date,
            cursor: self.cursor.clone(),
        }
    }
}

} // verus!
