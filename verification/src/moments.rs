//! Moments in time: seconds and nanoseconds since the Unix epoch, and the spans between them.
use vstd::prelude::*;

verus! {

/// A moment: seconds since the Unix epoch, and nanoseconds into the second. A leap second
/// counts as a second of double length.
#[derive(Debug, Clone, Copy, PartialEq, Eq, Structural)]
pub struct Moment {
    pub secs: i64,
    pub nanos: u32,
}

/// The first second that a moment can fall into.
pub const FIRST_SECOND: i64 = -8334601228800;

/// The last second that a moment can fall into.
pub const LAST_SECOND: i64 = 8210266876799;

/// The nanoseconds of a second.
pub const NANOS_PER_SECOND: i128 = 1000000000;

impl Moment {
    /// Whether there is such a moment: in range, and in a leap second only at the end of a
    /// minute.
    pub open spec fn is_valid(self) -> bool {
        &&& FIRST_SECOND <= self.secs <= LAST_SECOND
        &&& self.nanos < 1000000000 || (self.nanos < 2000000000 && self.secs % 60 == 59)
    }

    /// Whether the moment falls into an ordinary second.
    pub open spec fn is_ordinary(self) -> bool {
        self.is_valid() && self.nanos < 1000000000
    }

    /// Whether this moment is later than another.
    pub open spec fn later_than(self, other: Moment) -> bool {
        self.secs > other.secs || (self.secs == other.secs && self.nanos > other.nanos)
    }

    /// Whether this moment is later than another.
    pub fn is_later_than(&self, other: &Moment) -> (r: bool)
        ensures
            r == self.later_than(*other),
    {
        self.secs > other.secs || (self.secs == other.secs && self.nanos > other.nanos)
    }
}

/// The moment that an RFC 3339 text names, as `chrono` reads it: seconds and nanoseconds.
pub uninterp spec fn rfc3339_moment(text: Seq<char>) -> Option<(i64, u32)>;

/// The moment that a text names.
pub open spec fn moment_of_text(text: Seq<char>) -> Option<Moment> {
    match rfc3339_moment(text) {
        Some(m) => Some(Moment { secs: m.0, nanos: m.1 }),
        None => None,
    }
}

/// `chrono::DateTime::parse_from_rfc3339`: what it reads is a function of the text, and a
/// moment that exists; the grammar is left unsaid.
#[verifier::external_body]
fn parse_rfc3339(text: &str) -> (r: Option<(i64, u32)>)
    ensures
        r == rfc3339_moment(text@),
        r matches Some(m) ==> (Moment { secs: m.0, nanos: m.1 }).is_valid(),
{
    let moment = chrono::DateTime::parse_from_rfc3339(text).ok()?;
    Some((moment.timestamp(), moment.timestamp_subsec_nanos()))
}

/// The moment that a text names.
pub fn parse_moment(text: &str) -> (r: Option<Moment>)
    ensures
        r == moment_of_text(text@),
        r is Some ==> r->0.is_valid(),
{
    match parse_rfc3339(text) {
        Some((secs, nanos)) => Some(Moment { secs, nanos }),
        None => None,
    }
}

/// The beginning of a second, where it is in range.
pub open spec fn moment_of_second(secs: i64) -> Option<Moment> {
    if FIRST_SECOND <= secs <= LAST_SECOND {
        Some(Moment { secs, nanos: 0 })
    } else {
        None
    }
}

/// `chrono::DateTime::<Utc>::from_timestamp` with no nanoseconds: the beginning of the second
/// where it is in the range of dates, which reaches from the first day of the year -262143 to
/// the last of the year 262142.
#[verifier::external_body]
pub(crate) fn moment_at(secs: i64) -> (r: Option<Moment>)
    ensures
        r == moment_of_second(secs),
{
    let moment = chrono::DateTime::<chrono::Utc>::from_timestamp(secs, 0)?;
    Some(Moment { secs: moment.timestamp(), nanos: moment.timestamp_subsec_nanos() })
}

/// The nanoseconds from one moment to another: a leap second that lies between their times of
/// day is counted.
pub open spec fn nanos_between(earlier: Moment, later: Moment) -> int {
    let leap: int = if later.secs % 86400 > earlier.secs % 86400 && earlier.nanos >= 1000000000 {
        1
    } else if later.secs % 86400 < earlier.secs % 86400 && later.nanos >= 1000000000 {
        -1
    } else {
        0
    };
    (later.secs - earlier.secs + leap) * 1000000000 + later.nanos - earlier.nanos
}

/// `chrono::DateTime::signed_duration_since`, as whole seconds and the nanoseconds left: the
/// difference of the moments, with a leap second that lies between their times of day.
#[verifier::external_body]
fn duration_between(earlier: Moment, later: Moment) -> (r: (i64, i32))
    requires
        earlier.is_valid(),
        later.is_valid(),
    ensures
        r.0 * 1000000000 + r.1 == nanos_between(earlier, later),
        -1000000000 < r.1 < 1000000000,
{
    let from = chrono::DateTime::<chrono::Utc>::from_timestamp(earlier.secs, earlier.nanos).unwrap();
    let to = chrono::DateTime::<chrono::Utc>::from_timestamp(later.secs, later.nanos).unwrap();
    let span = to.signed_duration_since(from);
    (span.num_seconds(), span.subsec_nanos())
}

/// The nanoseconds from one moment to another.
pub fn elapsed_nanos(earlier: &Moment, later: &Moment) -> (r: i128)
    requires
        earlier.is_valid(),
        later.is_valid(),
    ensures
        r == nanos_between(*earlier, *later),
{
    let (secs, nanos) = duration_between(*earlier, *later);
    (secs as i128) * NANOS_PER_SECOND + (nanos as i128)
}

/// Between ordinary moments the span is the plain difference, and it turns its sign with the
/// order of the moments.
pub proof fn ordinary_spans_are_differences(a: Moment, b: Moment)
    requires
        a.is_ordinary(),
        b.is_ordinary(),
    ensures
        nanos_between(a, b) == (b.secs - a.secs) * 1000000000 + b.nanos - a.nanos,
        nanos_between(a, b) == -nanos_between(b, a),
        nanos_between(a, b) > 0 <==> b.later_than(a),
{
}

/// `chrono::DateTime::checked_add_signed` with whole hours: an ordinary moment moves by their
/// seconds.
#[verifier::external_body]
pub(crate) fn hours_later(moment: Moment, hours: i64) -> (r: Moment)
    requires
        moment.is_ordinary(),
        0 <= hours <= 2562047788015,
        moment.secs + hours * 3600 <= LAST_SECOND,
    ensures
        r == (Moment { secs: (moment.secs + hours * 3600) as i64, nanos: moment.nanos }),
{
    let from = chrono::DateTime::<chrono::Utc>::from_timestamp(moment.secs, moment.nanos).unwrap();
    let to = from.checked_add_signed(chrono::TimeDelta::hours(hours)).unwrap();
    Moment { secs: to.timestamp(), nanos: to.timestamp_subsec_nanos() }
}

} // verus!
