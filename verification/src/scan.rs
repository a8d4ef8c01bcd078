//! Reporting the length of a library scan.
use vstd::prelude::*;

verus! {

/// The whole minutes and whole hours in a scan that took `secs` seconds.
pub fn scan_duration_parts(secs: u64) -> (r: (u64, u64))
    ensures
        r.0 == secs / 60,
        r.1 == secs / 60 / 60,
{
    let minutes = secs / 60;
    let hours = minutes / 60;
    (minutes, hours)
}

} // verus!
