//! The wall clock and the numbers drawn from it.
use std::time::{Duration, SystemTime, UNIX_EPOCH};
use vstd::prelude::*;

verus! {

/// `std::time::SystemTime`, a reading of the wall clock.
#[verifier::external_type_specification]
#[verifier::external_body]
pub struct ExSystemTime(SystemTime);

/// `SystemTime::now`. Nothing is claimed of the reading.
#[verifier::external_body]
fn read_clock() -> SystemTime {
    SystemTime::now()
}

/// `SystemTime::duration_since` the Unix epoch, which fails for earlier readings. Nothing is
/// claimed of the distance.
#[verifier::external_body]
fn since_epoch(reading: SystemTime) -> Option<Duration> {
    reading.duration_since(UNIX_EPOCH).ok()
}

/// `Duration::as_millis`. Nothing is claimed of the count.
#[verifier::external_body]
fn whole_millis(distance: Duration) -> u128 {
    distance.as_millis()
}

/// `Duration::as_nanos`. Nothing is claimed of the count.
#[verifier::external_body]
fn whole_nanos(distance: Duration) -> u128 {
    distance.as_nanos()
}

/// A count of milliseconds as a time stamp: what does not fit is cut to the largest stamp, and
/// a clock before the epoch reads as the epoch.
pub open spec fn stamp_of(millis: Option<u128>) -> int {
    match millis {
        Some(ms) => if ms <= i64::MAX {
            ms as int
        } else {
            i64::MAX as int
        },
        None => 0,
    }
}

/// The time stamp for a count of milliseconds since the epoch.
pub fn to_stamp(millis: Option<u128>) -> (stamp: i64)
    ensures
        stamp == stamp_of(millis),
{
    match millis {
        Some(ms) => if ms <= 0x7fff_ffff_ffff_ffff {
            ms as i64
        } else {
            i64::MAX
        },
        None => 0,
    }
}

/// The current time in milliseconds since the Unix epoch.
pub fn now_millis() -> (stamp: i64)
    ensures
        0 <= stamp,
        exists|millis: Option<u128>| stamp == #[trigger] stamp_of(millis),
{
    let millis: Option<u128> = match since_epoch(read_clock()) {
        Some(distance) => Some(whole_millis(distance)),
        None => None,
    };
    to_stamp(millis)
}

/// `time` turned left by 17 bits.
pub open spec fn turned(time: u64) -> u64 {
    (time << 17) | (time >> 47)
}

/// The nonce for a reading of the clock in nanoseconds and a count.
pub open spec fn nonce_of(nanos: u128, counter: u64) -> u64 {
    turned((nanos % 0x1_0000_0000_0000_0000) as u64) ^ counter
}

/// Mixes a reading of the clock in nanoseconds with a count.
pub fn mix_nonce(nanos: u128, counter: u64) -> (nonce: u64)
    ensures
        nonce == nonce_of(nanos, counter),
{
    let time: u64 = (nanos % 0x1_0000_0000_0000_0000) as u64;
    ((time << 17) | (time >> 47)) ^ counter
}

/// With the clock standing still, different counts give different nonces.
pub proof fn law_counts_keep_nonces_apart(nanos: u128, a: u64, b: u64)
    requires
        a != b,
    ensures
        nonce_of(nanos, a) != nonce_of(nanos, b),
{
    let t = turned((nanos % 0x1_0000_0000_0000_0000) as u64);
    assert(a != b ==> t ^ a != t ^ b) by (bit_vector);
}

/// The count after this one.
pub open spec fn next_count(count: u64) -> u64 {
    if count == u64::MAX {
        0
    } else {
        (count + 1) as u64
    }
}

/// The part of a reading in nanoseconds that goes into a nonce.
pub open spec fn low_reading(nanos: u128) -> u64 {
    (nanos % 0x1_0000_0000_0000_0000) as u64
}

/// Whether two readings are less than about 19 hours apart.
pub open spec fn near(m: u128, n: u128) -> bool {
    m - n < 0x4000_0000_0000 && n - m < 0x4000_0000_0000
}

/// Whether all bits change from this count to the next. That is so for two of all counts.
pub open spec fn turns_over(count: u64) -> bool {
    count == 0x7fff_ffff_ffff_ffff || count == u64::MAX
}

/// Whether two readings, each with its count, surely give different nonces: the counts differ and
/// the clock stands still; or their last 17 bits differ and the readings have the same leading
/// bits, which change every 39 hours; or the second count follows the first and the readings are
/// near each other.
pub open spec fn drawn_apart(nanos: (u128, u128), counts: (u64, u64)) -> bool {
    ||| nanos.0 == nanos.1 && counts.0 != counts.1
    ||| low_reading(nanos.0) >> 47 == low_reading(nanos.1) >> 47 && counts.0 & 0x1_ffff != counts.1
        & 0x1_ffff
    ||| near(nanos.0, nanos.1) && counts.1 == next_count(counts.0) && !turns_over(counts.0)
}

proof fn lemma_same_span(x: u64, y: u64, a: u64, b: u64)
    requires
        x >> 47 == y >> 47,
        a & 0x1_ffff != b & 0x1_ffff,
    ensures
        turned(x) ^ a != turned(y) ^ b,
{
    assert(((x << 17) | (x >> 47)) ^ a != ((y << 17) | (y >> 47)) ^ b) by (bit_vector)
        requires
            x >> 47 == y >> 47,
            a & 0x1_ffff != b & 0x1_ffff,
    ;
}

/// A reading and a slightly later one, where the count of nanoseconds may have wrapped between.
proof fn lemma_later_reading(x: u64, y: u64, a: u64, b: u64)
    requires
        x <= y && y - x < 0x4000_0000_0000 || x - y > 0xffff_c000_0000_0000,
        b == a + 1,
        a != 0x7fff_ffff_ffff_ffff,
    ensures
        turned(x) ^ a != turned(y) ^ b,
        turned(x) ^ b != turned(y) ^ a,
{
    assert(((x << 17) | (x >> 47)) ^ a != ((y << 17) | (y >> 47)) ^ b && ((x << 17) | (x >> 47))
        ^ b != ((y << 17) | (y >> 47)) ^ a) by (bit_vector)
        requires
            x <= y && y - x < 0x4000_0000_0000 || x - y > 0xffff_c000_0000_0000,
            b == a + 1,
            a != 0x7fff_ffff_ffff_ffff,
    ;
}

/// Nonces that were drawn apart differ.
pub proof fn law_nonces_drawn_apart_differ(nanos: (u128, u128), counts: (u64, u64))
    requires
        drawn_apart(nanos, counts),
    ensures
        nonce_of(nanos.0, counts.0) != nonce_of(nanos.1, counts.1),
{
    let x = low_reading(nanos.0);
    let y = low_reading(nanos.1);
    if nanos.0 == nanos.1 && counts.0 != counts.1 {
        law_counts_keep_nonces_apart(nanos.0, counts.0, counts.1);
    } else if x >> 47 == y >> 47 && counts.0 & 0x1_ffff != counts.1 & 0x1_ffff {
        lemma_same_span(x, y, counts.0, counts.1);
    } else if nanos.0 <= nanos.1 {
        lemma_later_reading(x, y, counts.0, counts.1);
    } else {
        lemma_later_reading(y, x, counts.0, counts.1);
    }
}

/// Two nonces drawn one after the other from one source differ, whatever the clock did between
/// them within 19 hours, except at the two counts after which all bits turn over.
pub proof fn law_nonces_in_a_row_differ(first: u128, second: u128, count: u64)
    requires
        near(first, second),
        !turns_over(count),
    ensures
        nonce_of(first, count) != nonce_of(second, next_count(count)),
{
    law_nonces_drawn_apart_differ((first, second), (count, next_count(count)));
}

/// Hands out nonces. No two of them were drawn with the same count until the count wraps.
pub struct NonceSource {
    counter: u64,
}

impl NonceSource {
    /// The count that the next nonce is drawn with.
    pub closed spec fn count(self) -> u64 {
        self.counter
    }

    /// A source whose first nonce is drawn with the count one.
    pub fn new() -> (source: NonceSource)
        ensures
            source.count() == 1,
    {
        NonceSource { counter: 1 }
    }

    /// Draws the next nonce.
    pub fn next_nonce(&mut self) -> (nonce: u64)
        ensures
            final(self).count() == next_count(old(self).count()),
            exists|nanos: u128| nonce == #[trigger] nonce_of(nanos, old(self).count()),
    {
        let counter: u64 = self.counter;
        self.counter = if counter == u64::MAX {
            0
        } else {
            counter + 1
        };
        let nanos: u128 = match since_epoch(read_clock()) {
            Some(distance) => whole_nanos(distance),
            None => 0,
        };
        let nonce: u64 = mix_nonce(nanos, counter);
        assert(nonce == nonce_of(nanos, old(self).count()));
        nonce
    }
}

/// A time stamp is the count of milliseconds wherever that fits, and never goes back while the
/// clock does not.
pub proof fn law_stamps_follow_the_clock(earlier: u128, later: u128)
    requires
        earlier <= later,
    ensures
        earlier <= i64::MAX ==> stamp_of(Some(earlier)) == earlier,
        stamp_of(Some(earlier)) <= stamp_of(Some(later)),
        stamp_of(None) == 0,
        0 <= stamp_of(Some(later)) <= i64::MAX,
{
}

} // verus!
