//! Trusted declarations for the outside services the engine leans on:
//! fresh identifiers and the clock.  Everything here is believed, not
//! proved, so each item promises as little as possible.
use vstd::prelude::*;

verus! {

/// Relies on `uuid::Uuid::new_v4` and `uuid::Uuid::to_string`: a fresh
/// random identifier in hyphenated text form.  The value is random, so
/// nothing is promised of it.
#[verifier::external_body]
pub(crate) fn fresh_id() -> String {
    uuid::Uuid::new_v4().to_string()
}

/// Relies on `chrono::Utc::now` and `chrono::DateTime::timestamp`: the
/// current number of non-leap seconds since the Unix epoch.  The value
/// depends on the clock, so nothing is promised of it.
#[verifier::external_body]
pub(crate) fn now_timestamp() -> i64 {
    chrono::Utc::now().timestamp()
}

/// Relies on `core::iter::Iterator::collect` for `String`: collecting
/// characters yields the string of exactly those characters.
#[verifier::external_body]
pub fn string_from_chars(chars: &[char]) -> (r: String)
    ensures
        r@ == chars@,
{
    chars.iter().collect()
}

/// The current Unix time clamped to an unsigned count of seconds.
pub fn now_unix_secs() -> u64 {
    let t = now_timestamp();
    if t < 0 {
        0
    } else {
        t as u64
    }
}

/// Relies on `chrono::Local::now` and chrono's `Datelike`/`Timelike`
/// accessors: the local calendar date and wall-clock time as `(year,
/// month, day, hour, minute)`.  The values depend on the clock and the
/// machine's time zone, so nothing is promised of them.
#[verifier::external_body]
pub fn now_local_clock() -> (i32, u32, u32, u32, u32) {
    let now = chrono::Local::now();
    (
        chrono::Datelike::year(&now),
        chrono::Datelike::month(&now),
        chrono::Datelike::day(&now),
        chrono::Timelike::hour(&now),
        chrono::Timelike::minute(&now),
    )
}

/// Relies on `chrono::NaiveDate::from_ymd_opt`,
/// `chinese_lunisolar_calendar::LunisolarDate::from_date` and its lunar
/// month and day accessors: the lunisolar month and day of a Gregorian
/// date, a pure calendar computation; `None` outside the supported range.
#[verifier::external_body]
pub fn lunar_month_day(year: i32, month: u32, day: u32) -> Option<(u8, u8)> {
    let date = chrono::NaiveDate::from_ymd_opt(year, month, day)?;
    let ld = chinese_lunisolar_calendar::LunisolarDate::from_date(date).ok()?;
    Some((ld.to_lunar_month().to_u8(), ld.to_lunar_day().to_u8()))
}

/// Relies on `hound::WavReader::new`, `WavReader::duration` and
/// `WavReader::spec`: the per-channel sample count and the sample rate
/// read from a WAV header; `None` when the bytes are not a readable WAV.
#[verifier::external_body]
pub fn wav_samples_and_rate(bytes: &Vec<u8>) -> Option<(u32, u32)> {
    let cursor = std::io::Cursor::new(bytes);
    match hound::WavReader::new(cursor) {
        Ok(r) => Some((r.duration(), r.spec().sample_rate)),
        Err(_) => None,
    }
}

} // verus!
