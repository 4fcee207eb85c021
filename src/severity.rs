use vstd::prelude::*;

verus! {

/// How severe a log entry is, ordered from most to least severe.
#[derive(Debug, Clone, Copy, PartialEq, Eq, Structural)]
pub enum Severity {
    Error,
    Warning,
    Info,
}

/// The ordinal of a severity: `Error` is 0, `Warning` 1, `Info` 2.
pub open spec fn rank(s: Severity) -> nat {
    match s {
        Severity::Error => 0,
        Severity::Warning => 1,
        Severity::Info => 2,
    }
}

pub open spec fn is_digit(c: char) -> bool {
    '0' <= c <= '9'
}

/// The value of a string of decimal digits, most significant first.
pub open spec fn digits_value(s: Seq<char>) -> nat
    decreases s.len(),
{
    if s.len() == 0 {
        0
    } else {
        digits_value(s.drop_last()) * 10 + (s.last() as int - '0' as int) as nat
    }
}

/// The digits of an unsigned number's text: a leading `+` is allowed.
pub open spec fn unsigned_digits(s: Seq<char>) -> Seq<char> {
    if s.len() > 0 && s[0] == '+' {
        s.skip(1)
    } else {
        s
    }
}

/// The value that a text holds as a `usize` in decimal, if it holds one.
pub open spec fn parsed_usize(s: Seq<char>) -> Option<nat> {
    let d = unsigned_digits(s);
    if d.len() > 0 && (forall|i: int| 0 <= i < d.len() ==> is_digit(#[trigger] d[i]))
        && digits_value(d) <= usize::MAX {
        Some(digits_value(d))
    } else {
        None
    }
}

/// The severity of a numeric priority level: lower is more severe.
pub open spec fn severity_of_level(p: nat) -> Severity {
    if p <= 3 {
        Severity::Error
    } else if p <= 5 {
        Severity::Warning
    } else {
        Severity::Info
    }
}

/// The severity of a priority field's text; text that is not a number is `Info`.
pub open spec fn classified(s: Seq<char>) -> Severity {
    match parsed_usize(s) {
        Some(p) => severity_of_level(p),
        None => Severity::Info,
    }
}

/// The severity of a priority field that may be absent; absent is `Info`.
pub open spec fn classify(p: Option<Seq<char>>) -> Severity {
    match p {
        Some(s) => classified(s),
        None => Severity::Info,
    }
}

/// The severity that a lower-case name stands for.
pub open spec fn named_severity(s: Seq<char>) -> Option<Severity> {
    if s == seq!['e', 'r', 'r', 'o', 'r'] {
        Some(Severity::Error)
    } else if s == seq!['w', 'a', 'r', 'n', 'i', 'n', 'g'] {
        Some(Severity::Warning)
    } else if s == seq!['i', 'n', 'f', 'o'] {
        Some(Severity::Info)
    } else {
        None
    }
}

/// What `str::to_lowercase` makes of a text.
pub uninterp spec fn lower_of(s: Seq<char>) -> Seq<char>;

/// Relies on `str::parse::<usize>`: an optional `+` and then decimal digits only,
/// with a value that fits in `usize`; anything else is an error.
#[verifier::external_body]
fn parse_usize(s: &str) -> (r: Option<usize>)
    ensures
        r is Some <==> parsed_usize(s@) is Some,
        r is Some ==> r->0 as nat == parsed_usize(s@)->0,
{
    s.parse::<usize>().ok()
}

/// Relies on `str::to_lowercase`: the result depends on the characters alone.
#[verifier::external_body]
fn lowercase(s: &str) -> (r: String)
    ensures
        r@ == lower_of(s@),
{
    s.to_lowercase()
}

/// Whether two texts hold the same characters.
fn same_text(a: &str, b: &str) -> (r: bool)
    ensures
        r == (a@ == b@),
{
    let n = a.unicode_len();
    if n != b.unicode_len() {
        return false;
    }
    let mut i: usize = 0;
    while i < n
        invariant
            n == a@.len(),
            n == b@.len(),
            i <= n,
            a@.take(i as int) == b@.take(i as int),
        decreases n - i,
    {
        if a.get_char(i) != b.get_char(i) {
            assert(a@[i as int] != b@[i as int]);
            return false;
        }
        assert(a@.take(i + 1) == a@.take(i as int).push(a@[i as int]));
        assert(b@.take(i + 1) == b@.take(i as int).push(b@[i as int]));
        i = i + 1;
    }
    assert(a@ == a@.take(n as int));
    assert(b@ == b@.take(n as int));
    true
}

impl Severity {
    /// The ordinal used to compare severities against a threshold.
    pub fn cardinality(&self) -> (r: usize)
        ensures
            r == rank(*self),
    {
        match self {
            Severity::Error => 0,
            Severity::Warning => 1,
            Severity::Info => 2,
        }
    }

    /// The severity of a priority field's text. Text that is not a decimal
    /// number is `Info`.
    pub fn from_priority(it: &str) -> (r: Severity)
        ensures
            r == classified(it@),
    {
        match parse_usize(it) {
            Some(p) => {
                if p <= 3 {
                    Severity::Error
                } else if p <= 5 {
                    Severity::Warning
                } else {
                    Severity::Info
                }
            },
            None => Severity::Info,
        }
    }

    /// The severity named by a lower-case text, if any.
    pub fn from_lowercase_name(s: &str) -> (r: Option<Severity>)
        ensures
            r == named_severity(s@),
    {
        proof {
            reveal_strlit("error");
            reveal_strlit("warning");
            reveal_strlit("info");
            assert("error"@ =~= seq!['e', 'r', 'r', 'o', 'r']);
            assert("warning"@ =~= seq!['w', 'a', 'r', 'n', 'i', 'n', 'g']);
            assert("info"@ =~= seq!['i', 'n', 'f', 'o']);
        }
        if same_text(s, "error") {
            Some(Severity::Error)
        } else if same_text(s, "warning") {
            Some(Severity::Warning)
        } else if same_text(s, "info") {
            Some(Severity::Info)
        } else {
            None
        }
    }

    /// The severity named by a text, in any case: `error`, `warning` or `info`.
    pub fn parse_name(s: &str) -> (r: Option<Severity>)
        ensures
            r == named_severity(lower_of(s@)),
    {
        let lowered = lowercase(s);
        Severity::from_lowercase_name(lowered.as_str())
    }
}

} // verus!
