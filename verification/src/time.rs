//! Points in time and lengths of time.
use vstd::prelude::*;

verus! {

/// A UTC instant: whole seconds since 1970 and nanoseconds within the second.
#[derive(Debug, Clone, Copy, PartialEq, Eq, Structural)]
pub struct Timestamp {
    pub secs: i64,
    pub nanos: u32,
}

impl View for Timestamp {
    type V = Timestamp;

    open spec fn view(&self) -> Timestamp {
        *self
    }
}

/// A reading of a monotonic clock, in nanoseconds since some fixed start.
#[derive(Debug, Clone, Copy, PartialEq, Eq, Structural)]
pub struct Tick {
    pub nanos: u64,
}

impl View for Tick {
    type V = Tick;

    open spec fn view(&self) -> Tick {
        *self
    }
}

impl Tick {
    /// The nanoseconds since `earlier`, zero if `earlier` is later.
    pub fn since(&self, earlier: Tick) -> (r: u64)
        ensures
            r == (if self.nanos >= earlier.nanos { self.nanos - earlier.nanos } else { 0 }),
    {
        self.nanos.saturating_sub(earlier.nanos)
    }
}

/// A length of time.
#[derive(Debug, Clone, Copy, PartialEq, Eq, Structural)]
pub struct Duration {
    pub secs: u64,
    pub nanos: u32,
}

impl View for Duration {
    type V = Duration;

    open spec fn view(&self) -> Duration {
        *self
    }
}

impl Duration {
    /// The length in nanoseconds.
    pub open spec fn total_nanos(self) -> int {
        self.secs * 1_000_000_000 + self.nanos
    }

    pub fn from_secs(secs: u64) -> (r: Self)
        ensures
            r == (Duration { secs, nanos: 0 }),
    {
        Duration { secs, nanos: 0 }
    }

    pub fn from_millis(millis: u64) -> (r: Self)
        ensures
            r == (Duration { secs: millis / 1000, nanos: ((millis % 1000) * 1_000_000) as u32 }),
            r.total_nanos() == millis * 1_000_000,
    {
        Duration { secs: millis / 1000, nanos: ((millis % 1000) * 1_000_000) as u32 }
    }

    pub fn as_nanos(&self) -> (r: u128)
        ensures
            r == self.total_nanos(),
    {
        self.secs as u128 * 1_000_000_000 + self.nanos as u128
    }
}

/// The text that `std::time::Duration` shows of itself for debugging, such as `1.5s` or `100ms`.
pub uninterp spec fn duration_debug(secs: u64, nanos: u32) -> Seq<char>;

/// Wraps the `Debug` text of `std::time::Duration`, which is named.
#[verifier::external_body]
pub(crate) fn duration_text(secs: u64, nanos: u32) -> (r: String)
    requires
        nanos < 1_000_000_000,
    ensures
        r@ == duration_debug(secs, nanos),
{
    format!("{:?}", std::time::Duration::new(secs, nanos))
}

/// The nanosecond part that goes with `secs`: a leap second may take it past a whole second in
/// the last second of a minute.
pub open spec fn valid_nanos(secs: i64, nanos: u32) -> bool {
    nanos < 1_000_000_000 || (nanos < 2_000_000_000 && secs % 60 == 59)
}

/// Wraps `chrono::DateTime::<Utc>::from_timestamp`: there is a date exactly for the seconds
/// from the start of the year -262143 to the end of the year 262142 with a valid nanosecond
/// part, and it reads back as the two numbers that made it.
#[verifier::external_body]
pub(crate) fn utc_from_timestamp(secs: i64, nanos: u32) -> (r: Option<Timestamp>)
    ensures
        r == (if -8_334_601_228_800 <= secs <= 8_210_266_876_799 && valid_nanos(secs, nanos) {
            Some(Timestamp { secs, nanos })
        } else {
            None::<Timestamp>
        }),
{
    let date = chrono::DateTime::<chrono::Utc>::from_timestamp(secs, nanos)?;
    Some(Timestamp { secs: date.timestamp(), nanos: date.timestamp_subsec_nanos() })
}

/// Wraps `chrono::Utc::now`. Nothing is claimed of what the clock shows.
#[verifier::external_body]
pub(crate) fn utc_now() -> (r: Timestamp) {
    let now = chrono::Utc::now();
    Timestamp { secs: now.timestamp(), nanos: now.timestamp_subsec_nanos() }
}

/// The text that chrono's `DateTime::format` makes of the UTC instant `secs` by `pattern`.
pub uninterp spec fn utc_format(secs: i64, pattern: Seq<char>) -> Seq<char>;

/// Wraps `chrono::DateTime::format` on a UTC instant, whose text is named. It is called with
/// patterns of the date and time items that every instant has.
#[verifier::external_body]
pub(crate) fn format_utc(secs: u32, pattern: &str) -> (r: String)
    requires
        pattern@ == "%Y-%-m-%-d"@ || pattern@ == "%Y-%-m-%-d-%H:%M:%S"@,
    ensures
        r@ == utc_format(secs as i64, pattern@),
{
    let date = chrono::DateTime::<chrono::Utc>::from_timestamp(secs as i64, 0).unwrap_or_default();
    date.format(pattern).to_string()
}

/// The difference between the FILETIME epoch (1601) and 1970, in 100 ns ticks.
pub const FILETIME_EPOCH_DIFF: u64 = 116_444_736_000_000_000;

/// The instant of a FILETIME. A PLC whose clock is not set sends a time before 1970: `now`
/// stands for it.
pub open spec fn filetime(ticks: u64, now: Timestamp) -> Timestamp {
    if ticks < FILETIME_EPOCH_DIFF {
        now
    } else {
        let unix = ticks - FILETIME_EPOCH_DIFF;
        Timestamp { secs: (unix / 10_000_000) as i64, nanos: (unix % 10_000_000 * 100) as u32 }
    }
}

/// A FILETIME after 1970 keeps its 100 ns ticks: they can be computed back from the instant.
pub proof fn law_filetime_exact(ticks: u64, now: Timestamp)
    requires
        ticks >= FILETIME_EPOCH_DIFF,
    ensures
        filetime(ticks, now).secs * 10_000_000 + filetime(ticks, now).nanos as int / 100 + FILETIME_EPOCH_DIFF == ticks,
        filetime(ticks, now).nanos % 100 == 0,
        filetime(ticks, now).nanos < 1_000_000_000,
{
}

} // verus!
