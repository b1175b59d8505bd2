//! What comes from outside the library: random numbers, fresh identifiers and
//! the time. The calls themselves are taken on trust: the contract of each says
//! what the function that is called promises, and no more.

use rand::Rng;
use vstd::prelude::*;

verus! {

/// The standard library's point in time, carried from the clock to the
/// function that measures it.
#[verifier::external_type_specification]
#[verifier::external_body]
pub struct ExSystemTime(std::time::SystemTime);

/// `Rng::gen_range` of rand, on the generator of the current thread, with the
/// range from zero up to, but not including, `bound`. The result lies in that
/// range; the call panics on an empty range, which `requires` leaves out.
#[verifier::external_body]
pub(crate) fn random_below(bound: u64) -> (r: u64)
    requires
        bound > 0,
    ensures
        r < bound,
{
    rand::thread_rng().gen_range(0..bound)
}

/// `Rng::gen_ratio` of rand, on the generator of the current thread: true with
/// a chance of `numerator` in `denominator`. It is certainly true where the two
/// are equal and certainly false where the numerator is zero; the call panics
/// on a zero denominator and on a numerator above it, which `requires` leaves
/// out.
#[verifier::external_body]
pub(crate) fn random_chance(numerator: u32, denominator: u32) -> (hit: bool)
    requires
        0 < denominator,
        numerator <= denominator,
    ensures
        numerator == denominator ==> hit,
        numerator == 0 ==> !hit,
{
    rand::thread_rng().gen_ratio(numerator, denominator)
}

/// Whether the character is a hexadecimal digit in lower case.
pub open spec fn is_lower_hex(c: char) -> bool {
    ('0' <= c && c <= '9') || ('a' <= c && c <= 'f')
}

/// The shape of a random identifier: thirty-two hexadecimal digits in lower
/// case, in groups of eight, four, four, four and twelve with a hyphen between
/// them; the third group starts with the digit four, the fourth with one of
/// eight, nine, a and b.
pub open spec fn is_event_id(s: Seq<char>) -> bool {
    &&& s.len() == 36
    &&& forall|i: int|
        0 <= i < 36 ==> if i == 8 || i == 13 || i == 18 || i == 23 {
            #[trigger] s[i] == '-'
        } else {
            is_lower_hex(s[i])
        }
    &&& s[14] == '4'
    &&& (s[19] == '8' || s[19] == '9' || s[19] == 'a' || s[19] == 'b')
}

/// `Uuid::new_v4` of uuid, written out by the identifier's `Display`: a random
/// identifier of version four in the hyphenated lower-case form.
#[verifier::external_body]
pub(crate) fn fresh_event_id() -> (id: String)
    ensures
        is_event_id(id@),
{
    uuid::Uuid::new_v4().to_string()
}

/// `SystemTime::now` of the standard library: the time of the system clock.
#[verifier::external_body]
pub(crate) fn wall_clock() -> std::time::SystemTime {
    std::time::SystemTime::now()
}

/// The standard library's error for a time that lies before the one it is
/// measured from, carried to the function that tells by how much.
#[verifier::external_type_specification]
#[verifier::external_body]
pub struct ExSystemTimeError(std::time::SystemTimeError);

/// `SystemTime::duration_since` of the standard library, measured from the
/// epoch: the time that has passed since then, or the error for a time before
/// it.
#[verifier::external_body]
pub(crate) fn since_epoch(time: std::time::SystemTime) -> Result<
    core::time::Duration,
    std::time::SystemTimeError,
> {
    time.duration_since(std::time::UNIX_EPOCH)
}

/// `SystemTimeError::duration` of the standard library: how far before the
/// time it was measured from the other time lies.
#[verifier::external_body]
pub(crate) fn shortfall(error: &std::time::SystemTimeError) -> core::time::Duration {
    error.duration()
}

/// `Duration::as_millis` of the standard library: the whole milliseconds in a
/// span of time.
#[verifier::external_body]
pub(crate) fn whole_millis(span: core::time::Duration) -> u128 {
    span.as_millis()
}

/// The timestamp of an instant that lies `millis` milliseconds after the
/// epoch, or before it: the count, negative before the epoch, kept within what
/// a timestamp can hold.
pub open spec fn timestamp_spec(millis: nat, before_epoch: bool) -> int {
    if before_epoch {
        if millis <= -(i64::MIN as int) {
            -(millis as int)
        } else {
            i64::MIN as int
        }
    } else {
        if millis <= i64::MAX {
            millis as int
        } else {
            i64::MAX as int
        }
    }
}

/// Gives the timestamp of an instant that lies `millis` milliseconds after the
/// epoch, or before it.
pub fn timestamp_of(millis: u128, before_epoch: bool) -> (t: i64)
    ensures
        t == timestamp_spec(millis as nat, before_epoch),
{
    if before_epoch {
        if millis <= i64::MAX as u128 {
            -(millis as i64)
        } else {
            i64::MIN
        }
    } else {
        if millis <= i64::MAX as u128 {
            millis as i64
        } else {
            i64::MAX
        }
    }
}

/// Reads the clock: milliseconds since the epoch, negative where the clock
/// stands before it.
pub fn now_millis() -> i64 {
    match since_epoch(wall_clock()) {
        Ok(span) => timestamp_of(whole_millis(span), false),
        Err(error) => timestamp_of(whole_millis(shortfall(&error)), true),
    }
}

} // verus!
