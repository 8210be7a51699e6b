use crate::duration::Duration;
use num_rational::Ratio;
use vstd::prelude::*;

verus! {

/// The longest time, in seconds, that a skill scales.
pub const MAX_SCALED_SECONDS: u64 = 0xFFFF_FFFF;

/// ⌈n · secs / d⌉.
pub open spec fn scaled_up(n: nat, d: nat, secs: nat) -> nat
    recommends
        d > 0,
{
    ((n * secs + d - 1) as nat) / d
}

/// Relies on `num_rational::Ratio<i64>`: `new_raw(n, d)` is n/d, `*= secs` multiplies
/// it exactly, and `ceil().to_integer()` of a non-negative ratio a/b is
/// (a + b - 1) / b, that is ⌈n · secs / d⌉.
#[verifier::external_body]
fn ratio_ceil(numer: i64, denom: i64, secs: i64) -> (r: i64)
    requires
        0 <= numer <= 100,
        0 < denom <= 100,
        0 <= secs <= MAX_SCALED_SECONDS,
    ensures
        r == scaled_up(numer as nat, denom as nat, secs as nat),
{
    let mut ratio = Ratio::new_raw(numer, denom);
    ratio *= secs;
    ratio.ceil().to_integer()
}

/// A skill level that shortens some kind of travel.
pub trait Skill {
    /// The scaled time: unchanged at level 0, else rounded up to a whole second.
    spec fn spec_time(&self, time: Duration) -> Option<Duration>;

    fn time(&self, time: Duration) -> (r: Option<Duration>)
        requires
            time.seconds <= MAX_SCALED_SECONDS,
        ensures
            r == self.spec_time(time),
    ;
}

/// The caravan route skill: level 1 takes 19/24 of the time.
#[derive(Clone, Copy, Debug, PartialEq, Eq, Structural, Hash, PartialOrd, Ord)]
pub struct RouteGuru(pub u32);

/// The walking skill: level 1 takes 50/53 of the time.
#[derive(Clone, Copy, Debug, PartialEq, Eq, Structural, Hash, PartialOrd, Ord)]
pub struct Fleetfoot(pub u32);

/// The time that a level with factor `ratio` gives.
pub open spec fn scaled_time(ratio: Option<(nat, nat)>, time: Duration) -> Option<Duration> {
    match ratio {
        None => None,
        Some((n, d)) => if n == d {
            Some(time)
        } else {
            Some(Duration { seconds: scaled_up(n, d, time.seconds as nat) as u64 })
        },
    }
}

pub proof fn lemma_scaled_up_le(n: nat, d: nat, secs: nat)
    requires
        0 < d,
        n <= d,
    ensures
        scaled_up(n, d, secs) <= secs,
{
    assert(n * secs <= d * secs) by (nonlinear_arith)
        requires
            n <= d,
    ;
    assert(((n * secs + d - 1) as nat) / d <= ((d * secs + d - 1) as nat) / d) by (nonlinear_arith)
        requires
            n * secs <= d * secs,
            0 < d,
    ;
    assert(((d * secs + d - 1) as nat) / d == secs) by (nonlinear_arith)
        requires
            0 < d,
    ;
}

fn level_time(level: u32, numer: i64, denom: i64, time: Duration) -> (r: Option<Duration>)
    requires
        time.seconds <= MAX_SCALED_SECONDS,
        0 < numer < denom <= 100,
    ensures
        r == scaled_time(
            if level == 0 {
                Some((1nat, 1nat))
            } else if level == 1 {
                Some((numer as nat, denom as nat))
            } else {
                None
            },
            time,
        ),
{
    if level == 0 {
        Some(time)
    } else if level == 1 {
        let secs = ratio_ceil(numer, denom, time.seconds as i64);
        proof {
            lemma_scaled_up_le(numer as nat, denom as nat, time.seconds as nat);
        }
        Some(Duration { seconds: secs as u64 })
    } else {
        None
    }
}

impl RouteGuru {
    pub open spec fn ratio_of(level: u32) -> Option<(nat, nat)> {
        if level == 0 {
            Some((1, 1))
        } else if level == 1 {
            Some((19, 24))
        } else {
            None
        }
    }

    /// The levels that exist: 0 and 1.
    pub fn max_level() -> (r: u32)
        ensures
            r == 1,
    {
        1
    }
}

impl Fleetfoot {
    pub open spec fn ratio_of(level: u32) -> Option<(nat, nat)> {
        if level == 0 {
            Some((1, 1))
        } else if level == 1 {
            Some((50, 53))
        } else {
            None
        }
    }

    /// The levels that exist: 0 and 1.
    pub fn max_level() -> (r: u32)
        ensures
            r == 1,
    {
        1
    }
}

impl Skill for RouteGuru {
    open spec fn spec_time(&self, time: Duration) -> Option<Duration> {
        scaled_time(RouteGuru::ratio_of(self.0), time)
    }

    fn time(&self, time: Duration) -> (r: Option<Duration>) {
        level_time(self.0, 19, 24, time)
    }
}

impl Skill for Fleetfoot {
    open spec fn spec_time(&self, time: Duration) -> Option<Duration> {
        scaled_time(Fleetfoot::ratio_of(self.0), time)
    }

    fn time(&self, time: Duration) -> (r: Option<Duration>) {
        level_time(self.0, 50, 53, time)
    }
}

/// A scaled time never exceeds the time it was scaled from.
pub proof fn lemma_scaled_time_le(ratio: Option<(nat, nat)>, time: Duration)
    requires
        ratio matches Some((n, d)) ==> 0 < d && n <= d,
        time.seconds <= MAX_SCALED_SECONDS,
    ensures
        scaled_time(ratio, time) matches Some(t) ==> t.seconds <= time.seconds,
{
    if let Some((n, d)) = ratio {
        lemma_scaled_up_le(n, d, time.seconds as nat);
    }
}

} // verus!
