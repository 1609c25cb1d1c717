use vstd::prelude::*;

verus! {

/// One probe result row. At most one row exists per (status_code, site_id)
/// pair: a repeat observation of the same status for the same site only
/// advances the row's updated_at stamp.
#[derive(Clone, Copy, PartialEq, Eq, Structural, Debug)]
pub struct Response {
    pub id: i64,
    pub status_code: i64,
    pub site_id: i64,
    pub created_at: i64,
    pub updated_at: i64,
}

impl Default for Response {
    fn default() -> (r: Self)
        ensures
            r.id == 0 && r.status_code == 0 && r.site_id == 0 && r.created_at == 0
                && r.updated_at == 0,
    {
        Response { id: 0, status_code: 0, site_id: 0, created_at: 0, updated_at: 0 }
    }
}

} // verus!
