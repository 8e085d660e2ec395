use vstd::prelude::*;

verus! {

/// Seconds since the Unix epoch, as the system clock reads now.
///
/// Relies on `std::time::SystemTime::now` and `SystemTime::duration_since`
/// for the reading. It depends on the machine's clock, so nothing is promised
/// of the value; a clock set before the epoch reads as zero.
#[verifier::external_body]
pub fn get_current_timestamp() -> u64 {
    match std::time::SystemTime::now().duration_since(std::time::UNIX_EPOCH) {
        Ok(elapsed) => elapsed.as_secs(),
        Err(_) => 0,
    }
}

} // verus!
