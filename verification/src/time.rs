//! Points in time.
use vstd::prelude::*;
use vstd::string::*;

verus! {

/// A point in time, in UTC: whole seconds since the start of 1970, and the
/// nanoseconds behind them.
#[derive(Debug, Clone, Copy, PartialEq, Eq, Structural)]
pub struct Timestamp {
    pub seconds: i64,
    pub nanos: u32,
}

/// A point in time as a person and a JSON document write it.
pub uninterp spec fn rfc3339(seconds: i64, nanos: u32) -> Seq<char>;

/// `chrono::DateTime::to_rfc3339_opts` of a point in UTC, with as many digits
/// behind the seconds as are needed and with `Z`: the form in which chrono
/// writes a `DateTime` into a document. It depends on the point alone, and is
/// empty for one outside the years that chrono counts.
#[verifier::external_body]
fn write(seconds: i64, nanos: u32) -> (r: String)
    ensures
        r@ == rfc3339(seconds, nanos),
{
    chrono::DateTime::from_timestamp(seconds, nanos).map(
        |t| t.to_rfc3339_opts(chrono::SecondsFormat::AutoSi, true),
    ).unwrap_or_default()
}

/// `chrono::Utc::now`: the point that the machine's clock shows.
#[verifier::external_body]
fn clock() -> (r: (i64, u32))
    ensures
        r.1 < 2_000_000_000,
{
    let now = chrono::Utc::now();
    (now.timestamp(), now.timestamp_subsec_nanos())
}

/// The machine's clock was asked, and showed this point.
pub closed spec fn shown_by_the_clock(point: Timestamp) -> bool {
    call_ensures(clock, (), (point.seconds, point.nanos))
}

impl Timestamp {
    /// The point in text.
    pub open spec fn text(self) -> Seq<char> {
        rfc3339(self.seconds, self.nanos)
    }

    /// The point is later than another.
    pub open spec fn later(self, other: Timestamp) -> bool {
        self.seconds > other.seconds || (self.seconds == other.seconds && self.nanos > other.nanos)
    }

    /// The point that the machine's clock shows.
    pub fn now() -> (r: Timestamp)
        ensures
            shown_by_the_clock(r),
            r.nanos < 2_000_000_000,
    {
        let (seconds, nanos) = clock();
        Timestamp { seconds, nanos }
    }

    /// Whether the point is later than another.
    pub fn is_after(&self, other: &Timestamp) -> (r: bool)
        ensures
            r == self.later(*other),
    {
        self.seconds > other.seconds || (self.seconds == other.seconds && self.nanos > other.nanos)
    }

    /// The point in text.
    pub fn to_text(&self) -> (r: String)
        ensures
            r@ == self.text(),
    {
        write(self.seconds, self.nanos)
    }
}

/// Of two different points one is later, and not both; and what is later than a
/// later point is later.
pub proof fn points_follow_one_another(a: Timestamp, b: Timestamp, c: Timestamp)
    ensures
        a != b ==> a.later(b) != b.later(a),
        !a.later(a),
        a.later(b) && b.later(c) ==> a.later(c),
        a.seconds > b.seconds ==> a.later(b),
        a.seconds == b.seconds && a.nanos > b.nanos ==> a.later(b),
{
}

/// Of two points the one is after the other that the clock showed later.
pub proof fn a_later_point_is_after_an_earlier(a: Timestamp, b: Timestamp, r: bool)
    requires
        call_ensures(Timestamp::is_after, (&a, &b), r),
    ensures
        a.nanos < 1_000_000_000 && b.nanos < 1_000_000_000 ==> (r <==> a.seconds * 1_000_000_000
            + a.nanos > b.seconds * 1_000_000_000 + b.nanos),
{
}

} // verus!
