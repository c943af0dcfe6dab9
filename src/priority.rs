//! Severity levels of journal records and their textual forms.
use vstd::prelude::*;
use vstd::std_specs::iter::IteratorSpec;

verus! {

/// Ordinal severity, from the most severe (`Emergency`, 1) to the least (`Debug`, 8).
#[derive(Debug, Clone, Copy, PartialEq, Eq, Structural)]
pub enum Priority {
    Emergency,
    Alert,
    Critical,
    Error,
    Warning,
    Notice,
    Informational,
    Debug,
}

/// Why a value names no severity level.
#[derive(Debug, Clone, Copy, PartialEq, Eq, Structural)]
pub enum PriorityError {
    /// The text is not a decimal number in `0..=255`.
    NotANumber,
    /// The number names no level.
    Unsupported(u8),
}

/// The level with ordinal `v`, if there is one.
pub open spec fn priority_of_ordinal(v: int) -> Option<Priority> {
    if v == 1 {
        Some(Priority::Emergency)
    } else if v == 2 {
        Some(Priority::Alert)
    } else if v == 3 {
        Some(Priority::Critical)
    } else if v == 4 {
        Some(Priority::Error)
    } else if v == 5 {
        Some(Priority::Warning)
    } else if v == 6 {
        Some(Priority::Notice)
    } else if v == 7 {
        Some(Priority::Informational)
    } else if v == 8 {
        Some(Priority::Debug)
    } else {
        None
    }
}

pub open spec fn is_digit(c: char) -> bool {
    '0' <= c && c <= '9'
}

/// The value of a string of decimal digits.
pub open spec fn digits_value(d: Seq<char>) -> nat
    decreases d.len(),
{
    if d.len() == 0 {
        0
    } else {
        digits_value(d.drop_last()) * 10 + (d.last() as nat - '0' as nat) as nat
    }
}

/// The digits of a decimal numeral: the text without its one optional leading `+`.
pub open spec fn numeral_digits(s: Seq<char>) -> Seq<char> {
    if s.len() > 0 && s[0] == '+' {
        s.drop_first()
    } else {
        s
    }
}

/// What `u8`'s `FromStr` reads from `s`: an optional `+` followed by one or
/// more decimal digits whose value fits in a byte; nothing else.
pub open spec fn decimal_u8(s: Seq<char>) -> Option<u8> {
    let d = numeral_digits(s);
    if d.len() > 0 && (forall|i: int| 0 <= i < d.len() ==> is_digit(#[trigger] d[i]))
        && digits_value(d) <= 255 {
        Some(digits_value(d) as u8)
    } else {
        None
    }
}

/// The level that a `PRIORITY` field names, if it names one.
pub open spec fn priority_of_text(s: Seq<char>) -> Option<Priority> {
    match decimal_u8(s) {
        Some(v) => priority_of_ordinal(v as int),
        None => None,
    }
}

/// The level a record is shown with: the one its field names, else `Emergency`.
pub open spec fn severity_spec(field: Option<Seq<char>>) -> Priority {
    match field {
        Some(s) => match priority_of_text(s) {
            Some(p) => p,
            None => Priority::Emergency,
        },
        None => Priority::Emergency,
    }
}

/// Ordinals and levels correspond one to one, and a smaller ordinal is a
/// more severe level.
pub proof fn lemma_ordinal_order(a: int, b: int)
    requires
        1 <= a <= b <= 8,
    ensures
        priority_of_ordinal(a) is Some,
        priority_of_ordinal(b) is Some,
        priority_of_ordinal(a).unwrap().ordinal_spec() == a,
        priority_of_ordinal(a).unwrap().ordinal_spec() <= priority_of_ordinal(b).unwrap().ordinal_spec(),
        a != b ==> priority_of_ordinal(a) != priority_of_ordinal(b),
{
}

/// A longer run of digits never has a smaller value than its prefix.
proof fn lemma_digits_prefix(d: Seq<char>, m: int)
    requires
        0 <= m <= d.len(),
        forall|i: int| 0 <= i < d.len() ==> is_digit(#[trigger] d[i]),
    ensures
        digits_value(d.take(m)) <= digits_value(d),
    decreases d.len(),
{
    if m < d.len() {
        let p = d.drop_last();
        assert forall|i: int| 0 <= i < p.len() implies is_digit(#[trigger] p[i]) by {
            assert(p[i] == d[i]);
        }
        lemma_digits_prefix(p, m);
        assert(p.take(m) =~= d.take(m));
    } else {
        assert(d.take(m) =~= d);
    }
}

/// The characters of `s`, one by one.
fn chars_of(s: &str) -> (r: Vec<char>)
    ensures
        r@ == s@,
{
    let mut it = s.chars();
    let mut out: Vec<char> = Vec::new();
    assert(it.remaining() == s@);
    loop
        invariant
            s@ == out@ + it.remaining(),
            it.decrease() is Some,
        ensures
            s@ == out@,
        decreases it.decrease()->0,
    {
        match it.next() {
            Some(c) => {
                out.push(c);
                assert(s@ =~= out@ + it.remaining());
            },
            None => {
                assert(s@ =~= out@);
                break ;
            },
        }
    }
    out
}

/// Reads a decimal byte: an optional `+`, then one or more digits whose
/// value is at most 255. Anything else gives `None`.
pub fn parse_u8(s: &str) -> (r: Option<u8>)
    ensures
        r == decimal_u8(s@),
{
    let v = chars_of(s);
    let n = v.len();
    let start: usize = if n > 0 && v[0] == '+' {
        1
    } else {
        0
    };
    let ghost d = numeral_digits(s@);
    assert(d =~= v@.skip(start as int));
    if start == n {
        return None;
    }
    let mut val: u32 = 0;
    let mut i: usize = start;
    while i < n
        invariant
            start <= i <= n,
            n == v@.len(),
            v@ == s@,
            d == v@.skip(start as int),
            d == numeral_digits(s@),
            forall|j: int| 0 <= j < i - start ==> is_digit(#[trigger] d[j]),
            val as nat == digits_value(d.take(i - start)),
            val <= 255,
        decreases n - i,
    {
        let c = v[i];
        assert(d[i - start] == c);
        if !('0' <= c && c <= '9') {
            assert(!is_digit(d[i - start]));
            assert(decimal_u8(s@) is None);
            return None;
        }
        let digit: u32 = (c as u32) - ('0' as u32);
        let next: u32 = val * 10 + digit;
        assert(d.take(i + 1 - start).drop_last() =~= d.take(i - start));
        assert(next as nat == digits_value(d.take(i + 1 - start)));
        if next > 255 {
            proof {
                if forall|j: int| 0 <= j < d.len() ==> is_digit(#[trigger] d[j]) {
                    lemma_digits_prefix(d, i + 1 - start);
                    assert(digits_value(d) > 255);
                }
                assert(decimal_u8(s@) is None);
            }
            return None;
        }
        val = next;
        i = i + 1;
    }
    assert(d.take(n - start) =~= d);
    Some(val as u8)
}

impl Priority {
    /// The ordinal of this level: 1 for `Emergency` up to 8 for `Debug`.
    pub open spec fn ordinal_spec(self) -> int {
        match self {
            Priority::Emergency => 1,
            Priority::Alert => 2,
            Priority::Critical => 3,
            Priority::Error => 4,
            Priority::Warning => 5,
            Priority::Notice => 6,
            Priority::Informational => 7,
            Priority::Debug => 8,
        }
    }

    /// The long-form name of this level.
    pub open spec fn name_spec(self) -> Seq<char> {
        match self {
            Priority::Emergency => "Emergency"@,
            Priority::Alert => "Alert"@,
            Priority::Critical => "Critical"@,
            Priority::Error => "Error"@,
            Priority::Warning => "Warning"@,
            Priority::Notice => "Notice"@,
            Priority::Informational => "Informational"@,
            Priority::Debug => "Debug"@,
        }
    }

    /// The level with ordinal `value`.
    pub fn try_from_u8(value: u8) -> (r: Result<Priority, PriorityError>)
        ensures
            match priority_of_ordinal(value as int) {
                Some(p) => r == Ok::<Priority, PriorityError>(p),
                None => r == Err::<Priority, PriorityError>(PriorityError::Unsupported(value)),
            },
    {
        match value {
            1 => Ok(Priority::Emergency),
            2 => Ok(Priority::Alert),
            3 => Ok(Priority::Critical),
            4 => Ok(Priority::Error),
            5 => Ok(Priority::Warning),
            6 => Ok(Priority::Notice),
            7 => Ok(Priority::Informational),
            8 => Ok(Priority::Debug),
            _ => Err(PriorityError::Unsupported(value)),
        }
    }

    /// The level that the decimal text `value` names.
    pub fn try_from_str(value: &str) -> (r: Result<Priority, PriorityError>)
        ensures
            match decimal_u8(value@) {
                None => r == Err::<Priority, PriorityError>(PriorityError::NotANumber),
                Some(v) => match priority_of_ordinal(v as int) {
                    Some(p) => r == Ok::<Priority, PriorityError>(p),
                    None => r == Err::<Priority, PriorityError>(PriorityError::Unsupported(v)),
                },
            },
    {
        match parse_u8(value) {
            Some(v) => Priority::try_from_u8(v),
            None => Err(PriorityError::NotANumber),
        }
    }

    /// The ordinal of this level; levels are ordered by it, the most severe first.
    pub fn ordinal(&self) -> (r: u8)
        ensures
            r as int == self.ordinal_spec(),
            priority_of_ordinal(r as int) == Some(*self),
    {
        match self {
            Priority::Emergency => 1,
            Priority::Alert => 2,
            Priority::Critical => 3,
            Priority::Error => 4,
            Priority::Warning => 5,
            Priority::Notice => 6,
            Priority::Informational => 7,
            Priority::Debug => 8,
        }
    }

    /// The long-form name, as it appears between brackets in an output line.
    pub fn name(&self) -> (r: &'static str)
        ensures
            r@ == self.name_spec(),
    {
        match self {
            Priority::Emergency => "Emergency",
            Priority::Alert => "Alert",
            Priority::Critical => "Critical",
            Priority::Error => "Error",
            Priority::Warning => "Warning",
            Priority::Notice => "Notice",
            Priority::Informational => "Informational",
            Priority::Debug => "Debug",
        }
    }
}

/// The level to show for a record whose `PRIORITY` field is `field`: a
/// missing or unreadable field gives the most severe level, `Emergency`.
pub fn severity_of(field: Option<&str>) -> (r: Priority)
    ensures
        r == severity_spec(
            match field {
                Some(s) => Some(s@),
                None => None,
            },
        ),
{
    match field {
        Some(s) => match Priority::try_from_str(s) {
            Ok(p) => p,
            Err(_) => Priority::Emergency,
        },
        None => Priority::Emergency,
    }
}

} // verus!
