//! Lengths of time, and the clock that they are read from.

use vstd::prelude::*;

use std::time::{Duration, Instant};

verus! {

/// The nanoseconds of a second.
pub const NANOS_PER_SEC: u32 = 1_000_000_000;

/// The longest length of time, in nanoseconds.
pub const MAX_NANOS: u128 = 18_446_744_073_709_551_615_999_999_999;

/// A length of time, in seconds and nanoseconds.
#[derive(Debug, Clone, Copy)]
pub struct Span {
    secs: u64,
    nanos: u32,
}

impl View for Span {
    type V = nat;

    /// The length in nanoseconds.
    closed spec fn view(&self) -> nat {
        (self.secs * 1_000_000_000 + self.nanos) as nat
    }
}

/// What `format!("{:.2?}")` writes of the `Duration` with these seconds and
/// nanoseconds.
pub uninterp spec fn duration_text(secs: u64, nanos: u32) -> Seq<char>;

/// A length of time as reports write it.
pub open spec fn span_text(total: nat) -> Seq<char> {
    duration_text((total / 1_000_000_000) as u64, (total % 1_000_000_000) as u32)
}

/// The `Debug` formatting of `Duration` with a precision of two digits. The
/// text depends on the duration alone; it is named and not described.
#[verifier::external_body]
fn format_duration(secs: u64, nanos: u32) -> (text: String)
    requires
        nanos < 1_000_000_000,
    ensures
        text@ == duration_text(secs, nanos),
{
    format!("{:.2?}", Duration::new(secs, nanos))
}

impl Span {
    #[verifier::type_invariant]
    closed spec fn well_formed(self) -> bool {
        self.nanos < 1_000_000_000
    }

    /// The length of so many seconds and nanoseconds.
    pub fn new(secs: u64, nanos: u32) -> (span: Span)
        requires
            nanos < 1_000_000_000,
        ensures
            span@ == secs * 1_000_000_000 + nanos,
    {
        Span { secs, nanos }
    }

    /// No time at all.
    pub fn zero() -> (span: Span)
        ensures
            span@ == 0,
    {
        Span { secs: 0, nanos: 0 }
    }

    /// The length of so many nanoseconds.
    fn from_total(total: u128) -> (span: Span)
        requires
            total <= MAX_NANOS,
        ensures
            span@ == total,
    {
        let secs: u64 = (total / 1_000_000_000) as u64;
        let nanos: u32 = (total % 1_000_000_000) as u32;
        Span { secs, nanos }
    }

    /// The length in nanoseconds.
    pub fn total_nanos(self) -> (total: u128)
        ensures
            total == self@,
            total <= MAX_NANOS,
    {
        proof {
            use_type_invariant(self);
        }
        self.secs as u128 * 1_000_000_000 + self.nanos as u128
    }

    /// The whole seconds.
    pub fn whole_seconds(self) -> (secs: u64)
        ensures
            secs == self@ / 1_000_000_000,
    {
        proof {
            use_type_invariant(self);
        }
        self.secs
    }

    /// The nanoseconds beyond the whole seconds.
    pub fn subsec_nanos(self) -> (nanos: u32)
        ensures
            nanos == self@ % 1_000_000_000,
    {
        proof {
            use_type_invariant(self);
        }
        self.nanos
    }

    /// The time from `earlier` to this moment, both counted from the same
    /// start; none where `earlier` is the later one.
    pub fn since(self, earlier: Span) -> (span: Span)
        ensures
            span@ == if self@ >= earlier@ {
                self@ - earlier@
            } else {
                0
            },
    {
        let a: u128 = self.total_nanos();
        let b: u128 = earlier.total_nanos();
        if a >= b {
            Span::from_total(a - b)
        } else {
            Span::zero()
        }
    }

    /// Whether the sum of the two lengths can be held.
    pub fn can_add(self, other: Span) -> (yes: bool)
        ensures
            yes == (self@ + other@ <= MAX_NANOS),
    {
        self.total_nanos() + other.total_nanos() <= MAX_NANOS
    }

    /// The sum of the two lengths.
    pub fn plus(self, other: Span) -> (span: Span)
        requires
            self@ + other@ <= MAX_NANOS,
        ensures
            span@ == self@ + other@,
    {
        Span::from_total(self.total_nanos() + other.total_nanos())
    }

    /// The `parts`-th part of the length, rounded down.
    pub fn divided_by(self, parts: u32) -> (span: Span)
        requires
            parts > 0,
        ensures
            span@ == self@ / (parts as nat),
    {
        let total: u128 = self.total_nanos();
        let part: u128 = total / parts as u128;
        assert(part <= total) by (nonlinear_arith)
            requires
                part == total / parts as u128,
                parts > 0,
        ;
        Span::from_total(part)
    }

    /// The length as reports write it.
    pub fn to_text(self) -> (text: String)
        ensures
            text@ == span_text(self@),
    {
        format_duration(self.whole_seconds(), self.subsec_nanos())
    }
}

/// A moment that the clock of the machine showed.
#[verifier::external_type_specification]
#[verifier::external_body]
pub struct ExInstant(Instant);

/// `Instant::now` reads the clock; nothing is promised of what it shows.
#[verifier::external_body]
pub(crate) fn clock_now() -> Instant {
    Instant::now()
}

/// `Instant::elapsed` reads the clock and gives the time since `start`, whose
/// nanoseconds beyond the whole seconds are less than a second. How long it
/// is depends on the clock.
#[verifier::external_body]
pub(crate) fn elapsed_parts(start: &Instant) -> (parts: (u64, u32))
    ensures
        parts.1 < 1_000_000_000,
{
    let elapsed = start.elapsed();
    (elapsed.as_secs(), elapsed.subsec_nanos())
}

/// The time since `start`: the seconds and nanoseconds that the clock gave,
/// whatever they are.
pub(crate) fn elapsed(start: &Instant) -> (span: Span)
    ensures
        exists|parts: (u64, u32)| #[trigger]
            call_ensures(elapsed_parts, (start,), parts) && span@ == parts.0 * 1_000_000_000
                + parts.1,
{
    let (secs, nanos) = elapsed_parts(start);
    Span::new(secs, nanos)
}

/// The clock can show this moment when it is started.
pub closed spec fn clock_starts(start: Instant) -> bool {
    call_ensures(clock_now, (), start)
}

/// The clock can show this moment, in nanoseconds from `start`.
pub closed spec fn clock_shows(start: Instant, moment: nat) -> bool {
    exists|parts: (u64, u32)| #[trigger]
        call_ensures(elapsed_parts, (&start,), parts) && moment == parts.0 * 1_000_000_000
            + parts.1
}

/// The moment `now` is what a reading of the clock leads to where `before` was
/// shown before: the later of the two.
pub open spec fn read_after(start: Instant, before: nat, now: nat) -> bool {
    exists|reading: nat| #[trigger]
        clock_shows(start, reading) && now == if reading > before {
            reading
        } else {
            before
        }
}

/// What is shown after a reading is the later of what was shown before and of
/// all the seconds and nanoseconds that the clock gave. A start is a moment
/// that the clock showed.
pub(crate) proof fn lemma_reading(start: Instant, before: nat, now: nat)
    requires
        read_after(start, before, now),
    ensures
        before <= now,
        clock_starts(start) ==> call_ensures(clock_now, (), start),
        exists|parts: (u64, u32)|
            {
                &&& #[trigger] call_ensures(elapsed_parts, (&start,), parts)
                &&& now == before || now == parts.0 * 1_000_000_000 + parts.1
                &&& now >= parts.0 * 1_000_000_000 + parts.1
            },
{
    let reading = choose|reading: nat| #[trigger]
        clock_shows(start, reading) && now == if reading > before {
            reading
        } else {
            before
        };
    let parts = choose|parts: (u64, u32)| #[trigger]
        call_ensures(elapsed_parts, (&start,), parts) && reading == parts.0 * 1_000_000_000
            + parts.1;
    assert(call_ensures(elapsed_parts, (&start,), parts));
}

/// A length of time is written as the duration of its seconds and of the
/// nanoseconds beyond them, and the longest one has all seconds that can be
/// counted.
pub proof fn lemma_span_text(secs: u64, nanos: u32)
    requires
        nanos < 1_000_000_000,
    ensures
        span_text((secs * 1_000_000_000 + nanos) as nat) == duration_text(secs, nanos),
        secs * 1_000_000_000 + nanos <= MAX_NANOS,
        u64::MAX * 1_000_000_000 + 999_999_999 == MAX_NANOS,
{
}

/// A clock that counts from its start and never goes back.
#[derive(Debug)]
pub(crate) struct Stopwatch {
    start: Instant,
    latest: Span,
}

impl Stopwatch {
    /// The moment that it counts from.
    pub closed spec fn started(&self) -> Instant {
        self.start
    }

    /// The moment that it showed last, in nanoseconds from the start.
    pub closed spec fn latest(&self) -> nat {
        self.latest@
    }

    /// Starts the clock.
    pub fn start() -> (watch: Stopwatch)
        ensures
            clock_starts(watch.started()),
            watch.latest() == 0,
    {
        Stopwatch { start: clock_now(), latest: Span::zero() }
    }

    /// Shows a reading, unless it lies behind what was shown before.
    fn show(&mut self, reading: Span)
        ensures
            final(self).latest() == if reading@ > old(self).latest() {
                reading@
            } else {
                old(self).latest()
            },
            final(self).latest() <= MAX_NANOS,
            final(self).started() == old(self).started(),
    {
        if reading.total_nanos() > self.latest.total_nanos() {
            self.latest = reading;
        }
    }

    /// Reads the clock.
    pub fn read(&mut self) -> (now: Span)
        ensures
            read_after(old(self).started(), old(self).latest(), final(self).latest()),
            now@ == final(self).latest(),
            old(self).latest() <= final(self).latest() <= MAX_NANOS,
            final(self).started() == old(self).started(),
    {
        let reading = elapsed(&self.start);
        assert(clock_shows(self.start, reading@));
        self.show(reading);
        self.latest
    }
}

} // verus!
