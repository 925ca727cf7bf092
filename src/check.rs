//! What one check of one endpoint leaves behind: a record to store when the
//! endpoint answered, with whatever status code, and nothing when it could not
//! be reached.
use vstd::prelude::*;
use crate::model::CreateStatus;

verus! {

/// Milliseconds between the two readings of the clock; zero when the clock
/// stepped back in between.
pub open spec fn elapsed_ms(start_ms: u64, end_ms: u64) -> u64 {
    if end_ms >= start_ms {
        (end_ms - start_ms) as u64
    } else {
        0
    }
}

/// The record of a check of the endpoint of `series` that started at
/// `start_ms` and returned at `end_ms` (milliseconds since the Unix epoch).
/// `response` is the status code the endpoint answered with, or `None` when
/// it could not be reached; only an answer, of any code, is recorded.
pub fn status_for_check(series: String, start_ms: u64, end_ms: u64, response: Option<u16>) -> (r:
    Option<CreateStatus>)
    ensures
        r is Some <==> response is Some,
        r matches Some(c) ==> {
            &&& c.series == series
            &&& c.status == response->0
            &&& c.start == start_ms / 1000
            &&& c.duration_ms == elapsed_ms(start_ms, end_ms)
        },
{
    match response {
        None => None,
        Some(code) => {
            let duration_ms: u64 = if end_ms >= start_ms {
                end_ms - start_ms
            } else {
                0
            };
            Some(CreateStatus { series, status: code, start: start_ms / 1000, duration_ms })
        },
    }
}

} // verus!
