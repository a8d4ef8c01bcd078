use vstd::prelude::*;

verus! {

/// Matches a requested folder against the mounted disks. The matching rule
/// is not written yet, so the function does nothing on any platform.
pub fn diskmatch() {
}

} // verus!
