//! The wall clock, in milliseconds since the Unix epoch.

use vstd::prelude::*;

verus! {

/// `std::time::SystemTime`, carried through unread.
#[verifier::external_type_specification]
#[verifier::external_body]
pub struct ExSystemTime(std::time::SystemTime);

/// `SystemTime::now` reads the machine's clock; nothing is said of the time.
pub assume_specification[ std::time::SystemTime::now ]() -> std::time::SystemTime
;

/// How long after the Unix epoch a time is (`SystemTime::duration_since`);
/// nothing where it is before. Nothing is said of the length.
#[verifier::external_body]
fn since_epoch(time: std::time::SystemTime) -> Option<std::time::Duration> {
    time.duration_since(std::time::UNIX_EPOCH).ok()
}

/// A length of time in whole milliseconds (`Duration::as_millis`). Nothing is
/// said of the number: the length itself is not read.
#[verifier::external_body]
fn whole_millis(length: std::time::Duration) -> u128 {
    length.as_millis()
}

/// The milliseconds that fit, or nothing for a clock set before the epoch.
pub fn epoch_ms(elapsed: Option<u128>) -> (res: u64)
    ensures
        match elapsed {
            Some(ms) => res == ms % 0x1_0000_0000_0000_0000,
            None => res == 0,
        },
{
    match elapsed {
        Some(ms) => (ms % 0x1_0000_0000_0000_0000) as u64,
        None => 0,
    }
}

/// Milliseconds since the epoch by the machine's clock: any number, as `epoch_ms` makes it of a reading.
pub fn now_ms() -> u64 {
    let time = std::time::SystemTime::now();
    let elapsed: Option<u128> = match since_epoch(time) {
        Some(length) => Some(whole_millis(length)),
        None => None,
    };
    epoch_ms(elapsed)
}

} // verus!
