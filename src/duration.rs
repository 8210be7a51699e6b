use crate::text::dec;
use vstd::prelude::*;

verus! {

/// A non-negative span of time in whole seconds.
#[derive(Clone, Copy, Debug, PartialEq, Eq, Structural, Hash, PartialOrd, Ord, Default)]
pub struct Duration {
    pub seconds: u64,
}

/// One component of a duration's text: the value and its unit, or nothing for 0.
pub open spec fn duration_item(v: nat, unit: char) -> Seq<char> {
    if v == 0 {
        Seq::empty()
    } else {
        dec(v).push(unit)
    }
}

/// The text of a duration of `secs` seconds: days, hours, minutes and seconds,
/// each only when not 0, and `0s` for nothing.
pub open spec fn duration_text(secs: nat) -> Seq<char> {
    if secs == 0 {
        seq!['0', 's']
    } else {
        duration_item(secs / 86400, 'd') + duration_item(secs / 3600 % 24, 'h') + duration_item(
            secs / 60 % 60,
            'm',
        ) + duration_item(secs % 60, 's')
    }
}

/// Relies on the `Display` of `time::Duration` for a whole, non-negative number of
/// seconds: days, hours, minutes and seconds, each only when not 0, and `0s` for 0.
#[verifier::external_body]
fn time_text(secs: i64) -> (r: String)
    requires
        secs >= 0,
    ensures
        r@ == duration_text(secs as nat),
{
    time::Duration::seconds(secs).to_string()
}

impl Duration {
    pub fn zero() -> (r: Duration)
        ensures
            r.seconds == 0,
    {
        Duration { seconds: 0 }
    }

    pub fn seconds(s: u64) -> (r: Duration)
        ensures
            r.seconds == s,
    {
        Duration { seconds: s }
    }

    pub fn minutes(m: u64) -> (r: Duration)
        requires
            m * 60 <= u64::MAX,
        ensures
            r.seconds == m * 60,
    {
        Duration { seconds: m * 60 }
    }

    pub fn whole_seconds(&self) -> (r: u64)
        ensures
            r == self.seconds,
    {
        self.seconds
    }

    /// The sum of two durations.
    pub fn plus(self, other: Duration) -> (r: Duration)
        requires
            self.seconds + other.seconds <= u64::MAX,
        ensures
            r.seconds == self.seconds + other.seconds,
    {
        Duration { seconds: self.seconds + other.seconds }
    }

    /// The duration repeated `n` times.
    pub fn times(self, n: u64) -> (r: Duration)
        requires
            self.seconds * n <= u64::MAX,
        ensures
            r.seconds == self.seconds * n,
    {
        Duration { seconds: self.seconds * n }
    }

    /// The duration written as `1h3m10s`.
    pub fn to_string(&self) -> (r: String)
        requires
            self.seconds <= i64::MAX,
        ensures
            r@ == duration_text(self.seconds as nat),
    {
        time_text(self.seconds as i64)
    }
}

} // verus!
