//! Wall-clock instants.

use vstd::prelude::*;

verus! {

/// Nanoseconds in a millisecond.
pub const NANOS_PER_MILLI: i128 = 1_000_000;

/// An instant: whole seconds since the Unix epoch and the nanoseconds beyond them.
#[derive(Debug, Clone, Copy, PartialEq, Eq, Structural)]
pub struct Timestamp {
    pub seconds: i64,
    pub nanos: u32,
}

impl Timestamp {
    /// Nanoseconds since the Unix epoch.
    pub open spec fn instant(self) -> int {
        self.seconds * 1_000_000_000 + self.nanos
    }

    /// Whole milliseconds since the Unix epoch.
    pub open spec fn as_millis(self) -> int {
        self.seconds * 1000 + (self.nanos / 1_000_000) as int
    }

    /// The range of instants that a calendar date of the clock can name, with
    /// a fraction below one second.
    pub open spec fn wf(self) -> bool {
        &&& -8_334_601_228_800 <= self.seconds <= 8_210_266_876_799
        &&& self.nanos < 1_000_000_000
    }

    /// Nanoseconds from `earlier` to `self`.
    pub fn since(&self, earlier: &Timestamp) -> (span: i128)
        ensures
            span == self.instant() - earlier.instant(),
    {
        (self.seconds as i128 * 1_000_000_000 + self.nanos as i128) - (earlier.seconds as i128
            * 1_000_000_000 + earlier.nanos as i128)
    }

    /// Whole milliseconds since the Unix epoch.
    pub fn millis(&self) -> (millis: i64)
        requires
            self.wf(),
        ensures
            millis == self.as_millis(),
    {
        self.seconds * 1000 + (self.nanos / 1_000_000) as i64
    }

    /// The instant `millis` milliseconds before this one.
    pub fn before(&self, millis: u32) -> (t: Timestamp)
        requires
            self.wf(),
        ensures
            t.instant() == self.instant() - millis * 1_000_000,
            t.nanos < 1_000_000_000,
            t.seconds <= self.seconds,
            t.seconds >= self.seconds - millis / 1000 - 1,
    {
        let whole: i64 = (millis / 1000) as i64;
        let rest: u32 = (millis % 1000) * 1_000_000;
        if rest <= self.nanos {
            Timestamp { seconds: self.seconds - whole, nanos: self.nanos - rest }
        } else {
            Timestamp {
                seconds: self.seconds - whole - 1,
                nanos: self.nanos + (1_000_000_000 - rest),
            }
        }
    }
}

/// `chrono::Utc::now`, taken apart into its Unix seconds and the nanoseconds
/// of the second.
///
/// Trusted: the system clock stands at or after the Unix epoch, inside
/// chrono's calendar, and the fraction is below one second. Which instant it
/// is rests on the machine's clock and is left unsaid.
#[verifier::external_body]
fn utc_now() -> (parts: (i64, u32))
    ensures
        0 <= parts.0 <= 8_210_266_876_799,
        parts.1 < 1_000_000_000,
{
    let now = chrono::Utc::now();
    (now.timestamp(), now.timestamp_subsec_nanos())
}

/// The current instant, which is the machine's to say: it lies at or after the
/// Unix epoch, inside the calendar, and nothing more is known of it.
pub fn now() -> (t: Timestamp)
    ensures
        t.wf(),
        t.seconds >= 0,
{
    let (seconds, nanos) = utc_now();
    Timestamp { seconds, nanos }
}

/// Instants are counted in nanoseconds: a second is a thousand million of them,
/// an instant is later where its seconds are more, and milliseconds are whole
/// millions of them, rounded down.
pub proof fn instants_are_counted_in_nanoseconds(a: Timestamp, b: Timestamp)
    requires
        a.nanos < 1_000_000_000,
        b.nanos < 1_000_000_000,
    ensures
        a.instant() - b.instant() == 1_000_000_000 * (a.seconds - b.seconds) + (a.nanos - b.nanos),
        a.instant() < b.instant() <==> a.seconds < b.seconds || (a.seconds == b.seconds && a.nanos
            < b.nanos),
        a.instant() == b.instant() ==> a == b,
        1_000_000 * a.as_millis() <= a.instant() < 1_000_000 * a.as_millis() + 1_000_000,
        (Timestamp { seconds: 0, nanos: 0 }).instant() == 0,
{
}

} // verus!
