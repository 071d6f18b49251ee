//! The integer part of a card's review schedule: when it was reviewed, how
//! many whole days until the next review, when that is due, and how many
//! reviews it has had.

use vstd::prelude::*;
use vstd::arithmetic::div_mod::lemma_fundamental_div_mod_converse_div;

verus! {

/// Nanoseconds in one second.
pub const NANOS_PER_SECOND: u32 = 1_000_000_000;

/// Seconds in one day.
pub const SECONDS_PER_DAY: i64 = 86_400;

/// The shortest interval between two reviews, in days.
pub const MIN_INTERVAL_DAYS: usize = 1;

/// The longest interval between two reviews, in days.
pub const MAX_INTERVAL_DAYS: usize = 256;

/// A point in time in UTC: whole seconds since the Unix epoch, and the
/// nanoseconds past that second.
#[derive(Clone, Copy, Debug, PartialEq, Eq, Structural)]
pub struct Timestamp {
    pub secs: i64,
    pub nanos: u32,
}

impl Timestamp {
    /// The nanosecond part stays below one second.
    pub open spec fn wf(&self) -> bool {
        self.nanos < NANOS_PER_SECOND
    }

    /// The instant, in nanoseconds since the epoch.
    pub open spec fn instant(&self) -> int {
        self.secs * NANOS_PER_SECOND + self.nanos
    }
}

/// The whole seconds from `last` to `now`, or zero where `now` does not come
/// after `last`.
pub open spec fn elapsed_spec(last: Timestamp, now: Timestamp) -> int {
    if now.instant() <= last.instant() {
        0
    } else {
        (now.instant() - last.instant()) / (NANOS_PER_SECOND as int)
    }
}

/// The whole seconds that passed between two reviews. A review timestamped
/// before the previous one counts as no time at all.
pub fn elapsed_seconds(last: Timestamp, now: Timestamp) -> (r: u64)
    requires
        last.wf(),
        now.wf(),
    ensures
        r == elapsed_spec(last, now),
        now.instant() <= last.instant() ==> r == 0,
{
    let s: i128 = now.secs as i128 - last.secs as i128;
    let nd: i128 = now.nanos as i128 - last.nanos as i128;
    let ghost d: int = now.instant() - last.instant();
    assert(d == s * (NANOS_PER_SECOND as int) + nd) by (nonlinear_arith)
        requires
            d == now.instant() - last.instant(),
            s == now.secs - last.secs,
            nd == now.nanos - last.nanos,
    ;
    if s < 0 || (s == 0 && nd <= 0) {
        assert(d <= 0) by (nonlinear_arith)
            requires
                d == s * 1_000_000_000 + nd,
                s < 0 || (s == 0 && nd <= 0),
                -1_000_000_000 < nd < 1_000_000_000,
        ;
        return 0;
    }
    assert(d > 0) by (nonlinear_arith)
        requires
            d == s * 1_000_000_000 + nd,
            !(s < 0 || (s == 0 && nd <= 0)),
            -1_000_000_000 < nd < 1_000_000_000,
    ;
    if nd >= 0 {
        proof {
            lemma_fundamental_div_mod_converse_div(d, NANOS_PER_SECOND as int, s as int, nd as int);
        }
        s as u64
    } else {
        proof {
            assert(d == (s - 1) * 1_000_000_000 + (nd + 1_000_000_000)) by (nonlinear_arith)
                requires
                    d == s * 1_000_000_000 + nd,
            ;
            lemma_fundamental_div_mod_converse_div(
                d,
                NANOS_PER_SECOND as int,
                (s - 1) as int,
                (nd + NANOS_PER_SECOND) as int,
            );
        }
        (s - 1) as u64
    }
}

/// A rounded interval brought into the allowed range of days.
pub open spec fn clamp_spec(rounded: i64) -> int {
    if rounded < MIN_INTERVAL_DAYS {
        MIN_INTERVAL_DAYS as int
    } else if rounded > MAX_INTERVAL_DAYS {
        MAX_INTERVAL_DAYS as int
    } else {
        rounded as int
    }
}

/// Clamps a rounded interval to at least one day and at most 256 days.
pub fn clamp_interval(rounded: i64) -> (r: usize)
    ensures
        r == clamp_spec(rounded),
        MIN_INTERVAL_DAYS <= r <= MAX_INTERVAL_DAYS,
{
    if rounded < MIN_INTERVAL_DAYS as i64 {
        MIN_INTERVAL_DAYS
    } else if rounded > MAX_INTERVAL_DAYS as i64 {
        MAX_INTERVAL_DAYS
    } else {
        rounded as usize
    }
}

/// The timestamp a whole number of days after `t`.
pub open spec fn add_days_spec(t: Timestamp, days: int) -> Timestamp {
    Timestamp { secs: (t.secs + days * SECONDS_PER_DAY) as i64, nanos: t.nanos }
}

/// Moves a timestamp forward by whole days.
pub fn add_days(t: Timestamp, days: usize) -> (r: Timestamp)
    requires
        days * SECONDS_PER_DAY <= i64::MAX,
        t.secs + days * SECONDS_PER_DAY <= i64::MAX,
    ensures
        r == add_days_spec(t, days as int),
        r.secs == t.secs + days * SECONDS_PER_DAY,
{
    Timestamp { secs: t.secs + (days as i64) * SECONDS_PER_DAY, nanos: t.nanos }
}

/// The integer part of a reviewed card's state.
#[derive(Clone, Copy, Debug, PartialEq, Eq, Structural)]
pub struct Schedule {
    /// When the card was last reviewed.
    pub last_reviewed_at: Timestamp,
    /// Whole days from that review to the next.
    pub interval_days: usize,
    /// When the next review is due.
    pub due_date: Timestamp,
    /// How many reviews the card has had.
    pub review_count: usize,
}

impl Schedule {
    /// A schedule as reviews produce it: the interval within its bounds, the
    /// due date exactly that many days after the review, and at least one
    /// review counted.
    pub open spec fn wf(&self) -> bool {
        &&& self.last_reviewed_at.wf()
        &&& MIN_INTERVAL_DAYS <= self.interval_days <= MAX_INTERVAL_DAYS
        &&& self.due_date == add_days_spec(self.last_reviewed_at, self.interval_days as int)
        &&& self.due_date.secs == self.last_reviewed_at.secs + self.interval_days * SECONDS_PER_DAY
        &&& self.review_count >= 1
    }
}

/// The number of reviews before this one: none for a new card.
pub open spec fn count_before(prior: Option<Schedule>) -> int {
    match prior {
        Some(p) => p.review_count as int,
        None => 0,
    }
}

/// The schedule after a review at `reviewed_at`, given the schedule before it
/// (`None` for a card never reviewed) and the interval that the memory model
/// asks for, rounded to whole days.
pub fn schedule_review(prior: Option<Schedule>, reviewed_at: Timestamp, rounded_interval: i64) -> (r:
    Schedule)
    requires
        reviewed_at.wf(),
        count_before(prior) < usize::MAX,
        reviewed_at.secs + clamp_spec(rounded_interval) * SECONDS_PER_DAY <= i64::MAX,
    ensures
        r.wf(),
        r.last_reviewed_at == reviewed_at,
        r.interval_days == clamp_spec(rounded_interval),
        r.due_date == add_days_spec(reviewed_at, r.interval_days as int),
        r.review_count == count_before(prior) + 1,
{
    let before: usize = match prior {
        Some(p) => p.review_count,
        None => 0,
    };
    let interval_days = clamp_interval(rounded_interval);
    let due_date = add_days(reviewed_at, interval_days);
    Schedule {
        last_reviewed_at: reviewed_at,
        interval_days,
        due_date,
        review_count: before + 1,
    }
}

} // verus!
