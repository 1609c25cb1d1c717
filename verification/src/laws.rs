use vstd::prelude::*;

use crate::db::{distinct_codes, distinct_pairs, sites_of, Database};
use crate::migrate::{ledger_contains, spec_migrate, Migration};
use crate::tick::{spec_status_code, ProbeOutcome, PROBE_FAILED};
use crate::Site;

verus! {

/// A site keeps one row per status code it has ever shown: any two
/// stored response rows of the same site carry different status codes,
/// so a site with N distinct observed codes has exactly N rows.
pub proof fn lemma_one_row_per_status(db: Database, site_id: i64)
    requires
        db.wf(),
    ensures
        forall|i: int, j: int|
            0 <= i < j < db@.responses.len() && (#[trigger] db@.responses[i]).site_id == site_id
                && (#[trigger] db@.responses[j]).site_id == site_id ==> db@.responses[i].status_code
                != db@.responses[j].status_code,
{
    assert(distinct_pairs(db@.responses));
}

/// Login codes never collide: any two users of a well-formed store carry
/// different codes, so every code handed out at signup is unique across
/// all existing users.
pub proof fn lemma_login_codes_unique(db: Database)
    requires
        db.wf(),
    ensures
        distinct_codes(db@.users),
{
}

/// A user's site slice holds that user's sites and nothing else: every
/// entry is owned by the user and stored in the site table, and every
/// stored site of the user appears in the slice.
pub proof fn lemma_sites_of_exact(s: Seq<Site>, user_id: i64)
    ensures
        forall|k: int|
            0 <= k < sites_of(s, user_id).len() ==> (#[trigger] sites_of(s, user_id)[k]).user_id
                == user_id && s.contains(sites_of(s, user_id)[k]),
        forall|i: int|
            0 <= i < s.len() && (#[trigger] s[i]).user_id == user_id ==> sites_of(
                s,
                user_id,
            ).contains(s[i]),
    decreases s.len(),
{
    if s.len() > 0 {
        let head = s.drop_last();
        let rest = sites_of(head, user_id);
        lemma_sites_of_exact(head, user_id);
        assert forall|k: int| 0 <= k < sites_of(s, user_id).len() implies (#[trigger] sites_of(
            s,
            user_id,
        )[k]).user_id == user_id && s.contains(sites_of(s, user_id)[k]) by {
            if k < rest.len() {
                assert(sites_of(s, user_id)[k] == rest[k]);
                assert(head.contains(rest[k]));
                let i = choose|i: int| 0 <= i < head.len() && head[i] == rest[k];
                assert(s[i] == rest[k]);
                assert(s.contains(rest[k]));
            } else {
                assert(sites_of(s, user_id)[k] == s.last());
                assert(s[s.len() - 1] == s.last());
                assert(s.contains(s.last()));
            }
        }
        assert forall|i: int|
            0 <= i < s.len() && (#[trigger] s[i]).user_id == user_id implies sites_of(
            s,
            user_id,
        ).contains(s[i]) by {
            if i < s.len() - 1 {
                assert(head[i] == s[i]);
                assert(rest.contains(head[i]));
                let k = choose|k: int| 0 <= k < rest.len() && rest[k] == head[i];
                assert(sites_of(s, user_id)[k] == rest[k]);
                assert(sites_of(s, user_id).contains(s[i]));
            } else {
                assert(sites_of(s, user_id).last() == s.last());
                assert(sites_of(s, user_id).contains(s.last()));
            }
        }
    }
}

/// Running the migration plan records every plan version in the ledger
/// and invents no other: afterwards a version is recorded exactly when
/// it was already recorded or the plan names it.
pub proof fn lemma_migrate_records_plan(ledger: Seq<i64>, plan: Seq<Migration>)
    ensures
        forall|v: i64|
            #[trigger] ledger_contains(spec_migrate(ledger, plan), v) <==> (ledger_contains(
                ledger,
                v,
            ) || exists|i: int| 0 <= i < plan.len() && (#[trigger] plan[i]).version == v),
    decreases plan.len(),
{
    if plan.len() > 0 {
        let head = plan.drop_last();
        let prev = spec_migrate(ledger, head);
        lemma_migrate_records_plan(ledger, head);
        assert forall|v: i64| #[trigger] ledger_contains(spec_migrate(ledger, plan), v) implies (
        ledger_contains(ledger, v) || exists|i: int|
            0 <= i < plan.len() && (#[trigger] plan[i]).version == v) by {
            let post = spec_migrate(ledger, plan);
            let w = choose|j: int| 0 <= j < post.len() && post[j] == v;
            if w < prev.len() {
                assert(prev[w] == v);
                assert(ledger_contains(prev, v));
                if !ledger_contains(ledger, v) {
                    let i = choose|i: int| 0 <= i < head.len() && (#[trigger] head[i]).version
                        == v;
                    assert(plan[i].version == v);
                }
            } else {
                assert(post[w] == plan.last().version);
                assert(plan[plan.len() - 1].version == v);
            }
        }
        assert forall|v: i64|
            ledger_contains(ledger, v) || exists|i: int|
                0 <= i < plan.len() && (#[trigger] plan[i]).version
                    == v implies #[trigger] ledger_contains(spec_migrate(ledger, plan), v) by {
            let post = spec_migrate(ledger, plan);
            if ledger_contains(ledger, v) {
                assert(ledger_contains(prev, v));
                let j = choose|j: int| 0 <= j < prev.len() && prev[j] == v;
                assert(post[j] == v);
            } else {
                let i = choose|i: int| 0 <= i < plan.len() && (#[trigger] plan[i]).version == v;
                if i < plan.len() - 1 {
                    assert(head[i].version == v);
                    assert(exists|p: int| 0 <= p < head.len() && (#[trigger] head[p]).version
                        == v);
                    assert(ledger_contains(prev, v));
                    let j = choose|j: int| 0 <= j < prev.len() && prev[j] == v;
                    assert(post[j] == v);
                } else {
                    if ledger_contains(prev, v) {
                        let j = choose|j: int| 0 <= j < prev.len() && prev[j] == v;
                        assert(post[j] == v);
                    } else {
                        assert(post.last() == v);
                    }
                }
            }
        }
    }
}

/// The failure sentinel collides with no completed probe: every HTTP
/// status lies at or above 100, and the sentinel below it.
pub proof fn lemma_sentinel_no_http_status(status: u16)
    requires
        100 <= status,
    ensures
        spec_status_code(ProbeOutcome::Completed(status)) != PROBE_FAILED,
{
}

} // verus!
