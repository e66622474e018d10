use vstd::prelude::*;

verus! {

/// Paging of a record listing.
pub struct PaginationParams {
    pub limit: u32,
    pub offset: u32,
}

/// Page size when none is given.
pub fn default_limit() -> (r: u32)
    ensures
        r == 20,
{
    20
}

/// Offset when none is given.
pub fn default_offset() -> (r: u32)
    ensures
        r == 0,
{
    0
}

/// Body of the health check.
pub struct HealthResponse {
    pub status: String,
}

impl HealthResponse {
    /// The answer of a healthy service.
    pub fn ok() -> (r: HealthResponse)
        ensures
            r.status@ == "ok"@,
    {
        HealthResponse { status: String::from_str("ok") }
    }
}

} // verus!
