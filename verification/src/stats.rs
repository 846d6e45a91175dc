//! Transfer statistics: time spent and bytes moved, and their totals.

use vstd::prelude::*;

verus! {

/// Nanoseconds in a second.
pub const NANOS_PER_SEC: u128 = 1_000_000_000;

/// Nanoseconds in a millisecond.
pub const NANOS_PER_MILLI: u128 = 1_000_000;

/// The longest span of time there is, in nanoseconds: `u64::MAX` seconds and
/// one nanosecond short of a second more.
pub const MAX_NANOS: u128 = 18_446_744_073_709_551_615_999_999_999;

/// A span of time, to the nanosecond. Its view is its length in nanoseconds,
/// which never exceeds `MAX_NANOS`.
#[derive(Clone, Copy, Debug, PartialEq, Eq, Structural)]
pub struct TimeSpan {
    nanos: u128,
}

impl View for TimeSpan {
    type V = nat;

    closed spec fn view(&self) -> nat {
        self.nanos as nat
    }
}

impl Default for TimeSpan {
    /// The empty span.
    fn default() -> (span: Self)
        ensures
            span@ == 0,
    {
        TimeSpan { nanos: 0 }
    }
}

impl TimeSpan {
    #[verifier::type_invariant]
    spec fn within_range(self) -> bool {
        self.nanos <= MAX_NANOS
    }

    /// The span of `secs` seconds.
    pub fn from_secs(secs: u64) -> (span: Self)
        ensures
            span@ == secs * NANOS_PER_SEC,
    {
        TimeSpan { nanos: (secs as u128) * NANOS_PER_SEC }
    }

    /// The span of `millis` milliseconds.
    pub fn from_millis(millis: u64) -> (span: Self)
        ensures
            span@ == millis * NANOS_PER_MILLI,
    {
        TimeSpan { nanos: (millis as u128) * NANOS_PER_MILLI }
    }

    /// The span of `nanos` nanoseconds, if there is one so long.
    pub fn from_nanos(nanos: u128) -> (span: Option<Self>)
        ensures
            nanos <= MAX_NANOS ==> span.is_some() && span.unwrap()@ == nanos,
            nanos > MAX_NANOS ==> span.is_none(),
    {
        if nanos <= MAX_NANOS {
            Some(TimeSpan { nanos })
        } else {
            None
        }
    }

    /// Length in nanoseconds.
    pub fn as_nanos(&self) -> (nanos: u128)
        ensures
            nanos == self@,
            nanos <= MAX_NANOS,
    {
        proof {
            use_type_invariant(self);
        }
        self.nanos
    }

    /// Length in whole milliseconds.
    pub fn as_millis(&self) -> (millis: u128)
        ensures
            millis == self@ / (NANOS_PER_MILLI as nat),
    {
        self.nanos / NANOS_PER_MILLI
    }

    /// Length in whole seconds.
    pub fn as_secs(&self) -> (secs: u64)
        ensures
            secs == self@ / (NANOS_PER_SEC as nat),
    {
        proof {
            use_type_invariant(self);
        }
        (self.nanos / NANOS_PER_SEC) as u64
    }

    /// The nanoseconds beyond the whole seconds.
    pub fn subsec_nanos(&self) -> (nanos: u32)
        ensures
            nanos == self@ % (NANOS_PER_SEC as nat),
    {
        (self.nanos % NANOS_PER_SEC) as u32
    }

    /// The two spans one after the other.
    pub fn plus(self, other: TimeSpan) -> (sum: TimeSpan)
        requires
            self@ + other@ <= MAX_NANOS,
        ensures
            sum@ == self@ + other@,
    {
        TimeSpan { nanos: self.nanos + other.nanos }
    }

    /// The two spans one after the other, if there is a span so long.
    pub fn checked_add(self, other: TimeSpan) -> (sum: Option<TimeSpan>)
        ensures
            self@ + other@ <= MAX_NANOS ==> sum.is_some() && sum.unwrap()@ == self@ + other@,
            self@ + other@ > MAX_NANOS ==> sum.is_none(),
    {
        proof {
            use_type_invariant(self);
            use_type_invariant(other);
        }
        let total: u128 = self.nanos + other.nanos;
        if total <= MAX_NANOS {
            Some(TimeSpan { nanos: total })
        } else {
            None
        }
    }
}

/// Spans of the same length are the same span.
pub proof fn lemma_length_determines_span(a: TimeSpan, b: TimeSpan)
    requires
        a@ == b@,
    ensures
        a == b,
{
}

/// What one transfer, or a number of them together, took and brought.
#[derive(Clone, Copy, Debug, PartialEq, Eq, Structural)]
pub struct Stats {
    /// Time spent.
    pub elapsed_time: TimeSpan,
    /// Bytes received.
    pub content_length: usize,
}

impl Stats {
    /// The statistics of no transfer at all.
    pub fn new() -> (stats: Self)
        ensures
            stats.elapsed_time@ == 0,
            stats.content_length == 0,
    {
        Stats { elapsed_time: TimeSpan::default(), content_length: 0 }
    }

    /// Whether the totals of `self` and `other` can be held: the time within
    /// `MAX_NANOS`, the bytes within `usize`.
    pub open spec fn fits(self, other: Stats) -> bool {
        &&& self.elapsed_time@ + other.elapsed_time@ <= MAX_NANOS
        &&& self.content_length + other.content_length <= usize::MAX
    }

    /// Decides `fits`.
    pub fn can_aggregate(&self, other: &Stats) -> (yes: bool)
        ensures
            yes == self.fits(*other),
    {
        self.elapsed_time.checked_add(other.elapsed_time).is_some()
            && self.content_length.checked_add(other.content_length).is_some()
    }

    /// Adds `other` to `self`: times add up and bytes add up.
    pub fn aggregate(&mut self, other: &Stats)
        requires
            old(self).fits(*other),
        ensures
            final(self).elapsed_time@ == old(self).elapsed_time@ + other.elapsed_time@,
            final(self).content_length == old(self).content_length + other.content_length,
    {
        self.elapsed_time = self.elapsed_time.plus(other.elapsed_time);
        self.content_length = self.content_length + other.content_length;
    }

    /// Whether a rate can be told from these statistics: it takes a
    /// millisecond of time at least.
    pub fn rate_is_defined(&self) -> (yes: bool)
        ensures
            yes == (self.elapsed_time@ >= NANOS_PER_MILLI),
    {
        self.elapsed_time.as_millis() > 0
    }
}

/// Adding the statistics of no transfer changes nothing.
pub proof fn lemma_aggregate_nothing(before: Stats, after: Stats, nothing: Stats)
    requires
        nothing.elapsed_time@ == 0,
        nothing.content_length == 0,
        after.elapsed_time@ == before.elapsed_time@ + nothing.elapsed_time@,
        after.content_length == before.content_length + nothing.content_length,
    ensures
        after == before,
{
    lemma_length_determines_span(after.elapsed_time, before.elapsed_time);
}

} // verus!
