//! Instants in UTC, held as whole seconds since the Unix epoch plus nanoseconds.
use vstd::prelude::*;

verus! {

#[derive(Debug, Clone, Copy, PartialEq, Eq, Structural)]
pub struct Timestamp {
    pub secs: i64,
    pub nanos: u32,
}

/// The earliest and latest whole seconds that `chrono::DateTime<Utc>` represents.
pub const MIN_SECS: i64 = -8334601315200;
pub const MAX_SECS: i64 = 8210266876799;

pub open spec fn in_range(secs: int) -> bool {
    MIN_SECS <= secs <= MAX_SECS
}

/// `chrono::DateTime::<Utc>::checked_add_signed` by whole seconds: the shifted
/// instant when it stays within chrono's range, else `None`.
#[verifier::external_body]
pub fn chrono_shift(t: Timestamp, delta_secs: i64) -> (r: Option<Timestamp>)
    requires
        t.wf(),
        in_range(t.secs as int),
    ensures
        in_range(t.secs + delta_secs) ==> r == Some(
            Timestamp { secs: (t.secs + delta_secs) as i64, nanos: t.nanos },
        ),
        !in_range(t.secs + delta_secs) ==> r is None,
{
    let at = chrono::DateTime::from_timestamp(t.secs, t.nanos)?;
    let shifted = at.checked_add_signed(chrono::TimeDelta::try_seconds(delta_secs)?)?;
    Some(Timestamp { secs: shifted.timestamp(), nanos: shifted.timestamp_subsec_nanos() })
}

/// `chrono::DateTime::<Utc>::from_timestamp(secs, 0)`: the whole second when
/// chrono represents it, else `None`.
#[verifier::external_body]
pub fn chrono_instant(secs: i64) -> (r: Option<Timestamp>)
    ensures
        in_range(secs as int) ==> r == Some(Timestamp { secs, nanos: 0 }),
        !in_range(secs as int) ==> r is None,
{
    let at = chrono::DateTime::from_timestamp(secs, 0)?;
    Some(Timestamp { secs: at.timestamp(), nanos: at.timestamp_subsec_nanos() })
}

/// A reading of the system clock that chrono can hold: at or after the epoch.
pub open spec fn clock_reading(t: Timestamp) -> bool {
    t.wf() && 0 <= t.secs && in_range(t.secs as int)
}

/// `chrono::Utc::now()`. Nothing ties the reading to an earlier one. chrono
/// panics where the system clock reads before the epoch; that case is not
/// stated here.
#[verifier::external_body]
pub fn utc_now() -> (r: Timestamp)
    ensures
        clock_reading(r),
{
    let now = chrono::Utc::now();
    Timestamp { secs: now.timestamp(), nanos: now.timestamp_subsec_nanos() }
}

impl Timestamp {
    /// Nanoseconds are always below one second.
    pub open spec fn wf(self) -> bool {
        self.nanos < 1_000_000_000
    }

    /// The instant as nanoseconds since the epoch.
    pub open spec fn ns(self) -> int {
        self.secs * 1_000_000_000 + self.nanos
    }

    pub fn from_secs(secs: i64) -> (r: Self)
        ensures
            r.secs == secs,
            r.nanos == 0,
    {
        Timestamp { secs, nanos: 0 }
    }

    /// Strictly earlier.
    pub fn before(&self, other: &Timestamp) -> (r: bool)
        requires
            self.wf(),
            other.wf(),
        ensures
            r == (self.ns() < other.ns()),
    {
        self.secs < other.secs || (self.secs == other.secs && self.nanos < other.nanos)
    }

    /// Whether the instant falls on a whole UTC hour.
    pub fn whole_hour(&self) -> (r: bool)
        ensures
            r == (self.secs % 3600 == 0 && self.nanos == 0),
    {
        self.secs % 3600 == 0 && self.nanos == 0
    }

    /// `self` moved by `delta` seconds, if that stays representable.
    pub fn plus_secs(&self, delta: i64) -> (r: Option<Timestamp>)
        ensures
            match r {
                Some(t) => t.secs == self.secs + delta && t.nanos == self.nanos,
                None => !(i64::MIN <= self.secs + delta <= i64::MAX),
            },
    {
        match self.secs.checked_add(delta) {
            Some(s) => Some(Timestamp { secs: s, nanos: self.nanos }),
            None => None,
        }
    }
}

} // verus!
