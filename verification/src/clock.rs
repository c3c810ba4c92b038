//! Wall-clock time: the system clock read through std, rendered as RFC 3339
//! text by chrono.

use vstd::prelude::*;

verus! {

#[verifier::external_type_specification]
#[verifier::external_body]
pub struct ExSystemTime(std::time::SystemTime);

/// `std::time::SystemTime::now`: the current system time. It depends on the
/// clock, so nothing is stated of it.
#[verifier::external_body]
fn system_time_now() -> (r: std::time::SystemTime) {
    std::time::SystemTime::now()
}

/// `SystemTime::duration_since(UNIX_EPOCH)`: the time elapsed since the
/// epoch, `None` where the time lies before it (std returns an error
/// there). It depends on the clock reading, so nothing more is stated.
#[verifier::external_body]
fn since_epoch(t: &std::time::SystemTime) -> (r: Option<std::time::Duration>) {
    match t.duration_since(std::time::UNIX_EPOCH) {
        Ok(d) => Some(d),
        Err(_) => None,
    }
}

/// `Duration::as_secs`: the whole seconds of a duration. Durations are
/// opaque here, so nothing is stated of the value.
#[verifier::external_body]
fn duration_secs(d: &std::time::Duration) -> (r: u64) {
    d.as_secs()
}

/// `Duration::subsec_nanos`: the nanoseconds past the whole seconds, which
/// std documents as always less than one billion.
#[verifier::external_body]
fn duration_subsec_nanos(d: &std::time::Duration) -> (r: u32)
    ensures
        r < 1_000_000_000,
{
    d.subsec_nanos()
}

/// The time elapsed since the epoch as whole seconds and the nanoseconds
/// past them; `None` where the time lies before the epoch.
fn duration_since_epoch(t: &std::time::SystemTime) -> (r: Option<(u64, u32)>)
    ensures
        r matches Some((_, nanos)) ==> nanos < 1_000_000_000,
{
    match since_epoch(t) {
        Some(d) => Some((duration_secs(&d), duration_subsec_nanos(&d))),
        None => None,
    }
}

/// What `chrono::DateTime::<Utc>::from_timestamp(secs, nanos)` followed by
/// `to_rfc3339` gives: `None` where chrono finds the timestamp out of range,
/// else the RFC 3339 text of that instant in UTC.
pub uninterp spec fn rfc3339_text(secs: i64, nanos: u32) -> Option<Seq<char>>;

/// The text of an optional string, as a sequence of characters.
pub open spec fn opt_text(r: Option<String>) -> Option<Seq<char>> {
    match r {
        Some(t) => Some(t@),
        None => None,
    }
}

/// `chrono::DateTime::<Utc>::from_timestamp(secs, nanos)` (which returns
/// `None` on an out-of-range timestamp and does not panic), rendered with
/// `DateTime::to_rfc3339`. The text is named, not spelt out.
#[verifier::external_body]
fn rfc3339_at(secs: i64, nanos: u32) -> (r: Option<String>)
    ensures
        opt_text(r) == rfc3339_text(secs, nanos),
{
    match chrono::DateTime::<chrono::Utc>::from_timestamp(secs, nanos) {
        Some(d) => Some(d.to_rfc3339()),
        None => None,
    }
}

/// The text used where the clock gives no usable time: the epoch itself.
pub open spec fn epoch_text() -> Seq<char> {
    "1970-01-01T00:00:00+00:00"@
}

/// The timestamp text for a clock reading of whole seconds and nanoseconds
/// since the epoch: chrono's RFC 3339 text where the reading is in chrono's
/// range, else the epoch text (also where there is no reading).
pub open spec fn timestamp_text(reading: Option<(u64, u32)>) -> Seq<char> {
    match reading {
        Some((secs, nanos)) => if secs <= i64::MAX && rfc3339_text(secs as i64, nanos) is Some {
            rfc3339_text(secs as i64, nanos)->0
        } else {
            epoch_text()
        },
        None => epoch_text(),
    }
}

/// The RFC 3339 text of a clock reading, falling back to the epoch where
/// there is none or chrono cannot represent it.
pub fn timestamp_or_epoch(reading: Option<(u64, u32)>) -> (r: String)
    ensures
        r@ == timestamp_text(reading),
{
    match reading {
        Some((secs, nanos)) => {
            if secs <= 9_223_372_036_854_775_807u64 {
                match rfc3339_at(secs as i64, nanos) {
                    Some(t) => t,
                    None => epoch_string(),
                }
            } else {
                epoch_string()
            }
        },
        None => epoch_string(),
    }
}

fn epoch_string() -> (r: String)
    ensures
        r@ == epoch_text(),
{
    let s = "1970-01-01T00:00:00+00:00";
    proof {
        reveal_strlit("1970-01-01T00:00:00+00:00");
    }
    s.to_owned()
}

/// Text that some clock reading gives: chrono's RFC 3339 text of a time at
/// or after the epoch, or the epoch text.
pub open spec fn is_timestamp_text(t: Seq<char>) -> bool {
    exists|reading: Option<(u64, u32)>| t == timestamp_text(reading)
}

/// The current time as RFC 3339 text, such as `2026-05-01T10:01:00+00:00`:
/// the text for whatever the system clock reads, the epoch where the clock
/// reads before it.
pub fn now_rfc3339() -> (r: String)
    ensures
        is_timestamp_text(r@),
{
    let t = system_time_now();
    let reading = duration_since_epoch(&t);
    let r = timestamp_or_epoch(reading);
    assert(r@ == timestamp_text(reading));
    r
}

} // verus!
