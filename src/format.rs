//! Journal records and the one output line that each of them becomes.
use vstd::prelude::*;
use vstd::std_specs::iter::IteratorSpec;
use crate::priority::{priority_of_text, severity_of, severity_spec, Priority};

verus! {

/// One structured journal record, as the tailing loop holds it.
pub struct LogRecord {
    /// Reception time, in microseconds since the Unix epoch.
    pub timestamp_us: i64,
    /// The raw `PRIORITY` field.
    pub priority: Option<String>,
    /// The `_HOSTNAME` field.
    pub hostname: Option<String>,
    /// The `SYSLOG_IDENTIFIER` field.
    pub identifier: Option<String>,
    /// The log text.
    pub message: Option<String>,
    /// The opaque position token of this record (`__CURSOR`).
    pub cursor: Option<String>,
}

/// The mathematical content of a `LogRecord`.
pub struct RecordView {
    pub timestamp_us: i64,
    pub priority: Option<Seq<char>>,
    pub hostname: Option<Seq<char>>,
    pub identifier: Option<Seq<char>>,
    pub message: Option<Seq<char>>,
    pub cursor: Option<Seq<char>>,
}

pub open spec fn opt_view(o: Option<String>) -> Option<Seq<char>> {
    match o {
        Some(s) => Some(s@),
        None => None,
    }
}

impl View for LogRecord {
    type V = RecordView;

    open spec fn view(&self) -> RecordView {
        RecordView {
            timestamp_us: self.timestamp_us,
            priority: opt_view(self.priority),
            hostname: opt_view(self.hostname),
            identifier: opt_view(self.identifier),
            message: opt_view(self.message),
            cursor: opt_view(self.cursor),
        }
    }
}

/// Why a record yields no output line.
#[derive(Debug, Clone, Copy, PartialEq, Eq, Structural)]
pub enum FormatError {
    /// The record has no message.
    MissingField,
    /// The reception time lies outside the calendar range that can be rendered.
    TimestampOutOfRange,
}

/// The whole seconds of a time in microseconds, rounded down.
pub open spec fn seconds_of(us: i64) -> int {
    us as int / 1_000_000
}

/// The rendering of `secs` seconds after the epoch as an ISO-8601 UTC time
/// with whole seconds and a `+00:00` offset, where that time can be rendered.
pub uninterp spec fn utc_text(secs: i64) -> Option<Seq<char>>;

/// The seconds on either side of the epoch that always render: about
/// 253,000 years, inside the years -262,143 to 262,142 that chrono covers.
pub open spec fn renderable_seconds(secs: int) -> bool {
    -8_000_000_000_000 <= secs <= 8_000_000_000_000
}

/// Relies on chrono's `DateTime::<Utc>::from_timestamp` (a value for every
/// time within its range of years, none outside) and `to_rfc3339_opts` with
/// `SecondsFormat::Secs`: the text depends on the number of seconds alone.
#[verifier::external_body]
fn utc_stamp(secs: i64) -> (r: Option<String>)
    ensures
        match r {
            Some(s) => utc_text(secs) == Some(s@),
            None => utc_text(secs) is None,
        },
        renderable_seconds(secs as int) ==> r is Some,
{
    match chrono::DateTime::from_timestamp(secs, 0) {
        Some(t) => Some(t.to_rfc3339_opts(chrono::SecondsFormat::Secs, false)),
        None => None,
    }
}

/// The host shown for a record; a record without one gets a fixed name.
pub open spec fn host_spec(r: RecordView) -> Seq<char> {
    match r.hostname {
        Some(h) => h,
        None => "airlink"@,
    }
}

/// The identifier shown for a record; empty when it has none.
pub open spec fn identifier_spec(r: RecordView) -> Seq<char> {
    match r.identifier {
        Some(i) => i,
        None => Seq::empty(),
    }
}

/// A character as it may stand in an output line: line breaks become spaces.
pub open spec fn flat_char(c: char) -> char {
    if c == '\n' || c == '\r' {
        ' '
    } else {
        c
    }
}

/// `s` with every line break (`'\n'` or `'\r'`) replaced by a space.
pub open spec fn one_line(s: Seq<char>) -> Seq<char> {
    s.map_values(|c: char| flat_char(c))
}

/// `<utc> <local> [<severity>] <host>: <identifier>: <message>`, before line
/// breaks are taken out.
pub open spec fn raw_line_of(r: RecordView, utc: Seq<char>, local: Seq<char>) -> Seq<char> {
    utc + " "@ + local + " ["@ + severity_spec(r.priority).name_spec() + "] "@ + host_spec(r)
        + ": "@ + identifier_spec(r) + ": "@ + r.message.unwrap()
}

/// The single output line of a record: its fields in the fixed layout, with
/// any line break inside them shown as a space.
pub open spec fn line_of(r: RecordView, utc: Seq<char>, local: Seq<char>) -> Seq<char> {
    one_line(raw_line_of(r, utc, local))
}

/// Relies on std's `String::push`: appends one character.
#[verifier::external_body]
fn push_char(s: &mut String, c: char)
    ensures
        final(s)@ == old(s)@.push(c),
{
    s.push(c);
}

/// `s` with every line break replaced by a space.
pub fn flatten(s: &str) -> (r: String)
    ensures
        r@ == one_line(s@),
        !r@.contains('\n'),
{
    let mut it = s.chars();
    let mut out = String::new();
    assert(it.remaining() == s@);
    loop
        invariant
            one_line(s@) == out@ + one_line(it.remaining()),
            it.decrease() is Some,
        ensures
            one_line(s@) == out@,
        decreases it.decrease()->0,
    {
        let ghost rem = it.remaining();
        match it.next() {
            Some(c) => {
                assert(one_line(rem) =~= seq![flat_char(c)] + one_line(it.remaining()));
                let f = if c == '\n' || c == '\r' {
                    ' '
                } else {
                    c
                };
                push_char(&mut out, f);
                assert(one_line(s@) =~= out@ + one_line(it.remaining()));
            },
            None => {
                assert(one_line(rem) =~= Seq::<char>::empty());
                assert(one_line(s@) =~= out@);
                break ;
            },
        }
    }
    assert forall|i: int| 0 <= i < out@.len() implies out@[i] != '\n' by {
        assert(out@[i] == flat_char(s@[i]));
    }
    out
}

/// The line a record becomes, given the rendering of its time in the local zone.
pub open spec fn outcome(r: RecordView, local: Seq<char>) -> Result<Seq<char>, FormatError> {
    if r.message is None {
        Err(FormatError::MissingField)
    } else {
        match utc_text(seconds_of(r.timestamp_us) as i64) {
            Some(u) => Ok(line_of(r, u, local)),
            None => Err(FormatError::TimestampOutOfRange),
        }
    }
}

fn opt_str(o: &Option<String>) -> (r: Option<&str>)
    ensures
        match r {
            Some(s) => o is Some && s@ == o.unwrap()@,
            None => o is None,
        },
{
    match o {
        Some(s) => Some(s.as_str()),
        None => None,
    }
}

/// The whole seconds of `us` microseconds, rounded down.
pub fn seconds(us: i64) -> (r: i64)
    ensures
        r as int == seconds_of(us),
{
    let q: i64 = us / 1_000_000;
    let m: i64 = us % 1_000_000;
    if m < 0 {
        q - 1
    } else {
        q
    }
}

/// The output line of `rec`, given its time already rendered in UTC and in
/// the local zone. Fails exactly when the record has no message.
pub fn compose_line(rec: &LogRecord, utc: &str, local: &str) -> (r: Result<String, FormatError>)
    ensures
        match r {
            Ok(l) => rec@.message is Some && l@ == line_of(rec@, utc@, local@),
            Err(e) => rec@.message is None && e == FormatError::MissingField,
        },
        r is Ok ==> !r->Ok_0@.contains('\n'),
{
    let msg = match &rec.message {
        Some(m) => m,
        None => return Err(FormatError::MissingField),
    };
    let sev = severity_of(opt_str(&rec.priority));
    let host: &str = match &rec.hostname {
        Some(h) => h.as_str(),
        None => "airlink",
    };
    let ident: &str = match &rec.identifier {
        Some(i) => i.as_str(),
        None => "",
    };
    proof {
        reveal_strlit("");
    }
    let mut line = String::from_str(utc);
    line.append(" ");
    line.append(local);
    line.append(" [");
    line.append(sev.name());
    line.append("] ");
    line.append(host);
    line.append(": ");
    line.append(ident);
    line.append(": ");
    line.append(msg.as_str());
    Ok(flatten(line.as_str()))
}

/// Formats `rec` into its output line; `local` is its time rendered in the
/// local zone. This is a pure function of the record and `local`. It
/// succeeds on every record with a message whose reception time lies within
/// about 253,000 years of the epoch; a time too far out to be rendered as a
/// calendar date gives `TimestampOutOfRange`.
pub fn format_record(rec: &LogRecord, local: &str) -> (r: Result<String, FormatError>)
    ensures
        match r {
            Ok(l) => outcome(rec@, local@) == Ok::<Seq<char>, FormatError>(l@),
            Err(e) => outcome(rec@, local@) == Err::<Seq<char>, FormatError>(e),
        },
        r is Ok ==> !r->Ok_0@.contains('\n'),
        rec@.message is Some && renderable_seconds(seconds_of(rec.timestamp_us)) ==> r is Ok,
{
    if rec.message.is_none() {
        return Err(FormatError::MissingField);
    }
    let secs = seconds(rec.timestamp_us);
    match utc_stamp(secs) {
        Some(u) => compose_line(rec, u.as_str(), local),
        None => Err(FormatError::TimestampOutOfRange),
    }
}

/// Formatting is a pure function: records with the same content, with the
/// same local-time rendering, give the same line or the same error.
pub proof fn lemma_format_deterministic(a: LogRecord, b: LogRecord, local: Seq<char>)
    requires
        a@ == b@,
    ensures
        outcome(a@, local) == outcome(b@, local),
{
}

/// A record whose severity field is missing or names no level is shown as
/// `[Emergency]`.
pub proof fn lemma_severity_default(r: RecordView, utc: Seq<char>, local: Seq<char>)
    requires
        r.message is Some,
        match r.priority {
            Some(p) => priority_of_text(p) is None,
            None => true,
        },
    ensures
        severity_spec(r.priority) == Priority::Emergency,
        raw_line_of(r, utc, local) == utc + " "@ + local + " ["@ + "Emergency"@ + "] "@ + host_spec(r)
            + ": "@ + identifier_spec(r) + ": "@ + r.message.unwrap(),
{
}

} // verus!
