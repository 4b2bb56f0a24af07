use vstd::prelude::*;

verus! {

/// Relies on std::time::SystemTime::now: the wall clock as milliseconds
/// since the Unix epoch, zero if the clock precedes it, saturated at the
/// largest u64. Nothing is assumed of the value.
#[verifier::external_body]
pub fn now_millis() -> u64 {
    match std::time::SystemTime::now().duration_since(std::time::UNIX_EPOCH) {
        Ok(d) => {
            let ms = d.as_millis();
            if ms > u64::MAX as u128 {
                u64::MAX
            } else {
                ms as u64
            }
        },
        Err(_) => 0,
    }
}

} // verus!
