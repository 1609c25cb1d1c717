use vstd::prelude::*;

use crate::db::{has_pair, Database};
use crate::models::Response;

verus! {

/// The status code recorded when a probe does not complete (network
/// error, timeout, malformed response). No completed HTTP exchange
/// carries a status below 100, so this value never collides with one.
pub const PROBE_FAILED: i64 = 0;

/// What one outbound probe of a site reduced to: the numeric status of a
/// completed HTTP exchange, or a failure to complete one.
#[derive(Clone, Copy, PartialEq, Eq, Structural, Debug)]
pub enum ProbeOutcome {
    Completed(u16),
    Failed,
}

/// One site's probe outcome within a tick.
#[derive(Clone, Copy, PartialEq, Eq, Structural, Debug)]
pub struct ProbeResult {
    pub site_id: i64,
    pub outcome: ProbeOutcome,
}

/// The status code a probe outcome is stored under: the HTTP status of a
/// completed exchange, and the reserved failure sentinel otherwise.
pub open spec fn spec_status_code(o: ProbeOutcome) -> i64 {
    match o {
        ProbeOutcome::Completed(s) => s as i64,
        ProbeOutcome::Failed => PROBE_FAILED,
    }
}

/// Reduces one probe outcome to the status code it is stored under.
pub fn status_code_of(outcome: &ProbeOutcome) -> (r: i64)
    ensures
        r == spec_status_code(*outcome),
{
    match outcome {
        ProbeOutcome::Completed(s) => *s as i64,
        ProbeOutcome::Failed => PROBE_FAILED,
    }
}

/// A stored status code counts as online exactly when it lies in the
/// HTTP success class.
pub fn is_online(status_code: i64) -> (r: bool)
    ensures
        r == (200 <= status_code < 300),
{
    200 <= status_code && status_code < 300
}

impl Database {
    /// Records one scheduler tick: each probe outcome is reduced to its
    /// status code and upserted for its site. Sites are isolated: the
    /// outcome of one site is recorded whatever happens to the others,
    /// and a failed probe is stored under the failure sentinel rather
    /// than dropped. Returns how many outcomes were stored.
    pub fn record_tick(&mut self, outcomes: &Vec<ProbeResult>) -> (stored: usize)
        requires
            old(self).wf(),
        ensures
            final(self).wf(),
            final(self)@.users == old(self)@.users,
            final(self)@.logins == old(self)@.logins,
            final(self)@.sites == old(self)@.sites,
            final(self)@.migrations == old(self)@.migrations,
            final(self)@.ledger == old(self)@.ledger,
            old(self)@.clock <= final(self)@.clock,
            stored <= outcomes@.len(),
            final(self)@.responses.len() < i64::MAX as int ==> stored == outcomes@.len(),
            old(self)@.responses.len() <= final(self)@.responses.len() <= old(
                self,
            )@.responses.len() + outcomes@.len(),
            forall|k: int|
                0 <= k < outcomes@.len() ==> has_pair(
                    final(self)@.responses,
                    spec_status_code((#[trigger] outcomes@[k]).outcome),
                    outcomes@[k].site_id,
                ) || final(self)@.responses.len() >= i64::MAX as int,
            old(self)@.responses.len() + outcomes@.len() < i64::MAX as int ==> forall|k: int|
                0 <= k < outcomes@.len() ==> has_pair(
                    final(self)@.responses,
                    spec_status_code((#[trigger] outcomes@[k]).outcome),
                    outcomes@[k].site_id,
                ),
    {
        let n = outcomes.len();
        let mut stored: usize = 0;
        let mut i: usize = 0;
        while i < n
            invariant
                i <= n,
                n == outcomes@.len(),
                self.wf(),
                self@.users == old(self)@.users,
                self@.logins == old(self)@.logins,
                self@.sites == old(self)@.sites,
                self@.migrations == old(self)@.migrations,
                self@.ledger == old(self)@.ledger,
                old(self)@.clock <= self@.clock,
                stored <= i,
                self@.responses.len() < i64::MAX as int ==> stored == i,
                old(self)@.responses.len() <= self@.responses.len() <= old(
                    self,
                )@.responses.len() + i,
                forall|k: int|
                    0 <= k < i ==> has_pair(
                        self@.responses,
                        spec_status_code((#[trigger] outcomes@[k]).outcome),
                        outcomes@[k].site_id,
                    ) || self@.responses.len() >= i64::MAX as int,
            decreases n - i,
        {
            let pr = outcomes[i];
            let status_code = status_code_of(&pr.outcome);
            let resp = Response {
                id: 0,
                status_code,
                site_id: pr.site_id,
                created_at: 0,
                updated_at: 0,
            };
            let ghost mid = self@;
            let res = self.upsert_response(resp);
            proof {
                assert(mid.responses.len() <= self@.responses.len());
                assert forall|k: int| 0 <= k < i + 1 implies has_pair(
                    self@.responses,
                    spec_status_code((#[trigger] outcomes@[k]).outcome),
                    outcomes@[k].site_id,
                ) || self@.responses.len() >= i64::MAX as int by {
                    if k < i {
                        if has_pair(
                            mid.responses,
                            spec_status_code(outcomes@[k].outcome),
                            outcomes@[k].site_id,
                        ) {
                        } else {
                            assert(mid.responses.len() >= i64::MAX as int);
                        }
                    } else {
                        if res is Err {
                            assert(mid.responses.len() >= i64::MAX as int);
                        }
                    }
                }
            }
            if res.is_ok() {
                stored += 1;
            }
            i += 1;
        }
        stored
    }
}

} // verus!
