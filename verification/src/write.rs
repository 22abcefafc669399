use vstd::prelude::*;

verus! {

/// Counts of individual entries within one target-request that the target
/// accepted (`success`) versus rejected (`failed`). Immutable once built;
/// totals across targets combine by pointwise addition.
#[derive(Debug, Clone, Copy, PartialEq, Eq, Structural)]
pub struct WriteResponse {
    pub success: u32,
    pub failed: u32,
}

impl WriteResponse {
    pub fn new(success: u32, failed: u32) -> (r: WriteResponse)
        ensures
            r.success == success,
            r.failed == failed,
    {
        WriteResponse { success, failed }
    }
}

} // verus!
