use vstd::prelude::*;

verus! {

/// One entry of the statically defined migration plan. A reversible
/// migration carries a reverse ("down") script; rollback may undo only
/// the last such entry of the plan.
#[derive(Clone, Copy, PartialEq, Eq, Structural, Debug)]
pub struct Migration {
    pub version: i64,
    pub reversible: bool,
}

/// The plan shipped with the gateway: one migration per entity table,
/// each carrying a reverse script.
pub open spec fn default_plan() -> Seq<Migration> {
    seq![
        Migration { version: 1, reversible: true },
        Migration { version: 2, reversible: true },
        Migration { version: 3, reversible: true },
        Migration { version: 4, reversible: true },
    ]
}

/// The versions of a migration plan are pairwise distinct.
pub open spec fn distinct_versions(plan: Seq<Migration>) -> bool {
    forall|i: int, j: int|
        0 <= i < j < plan.len() ==> (#[trigger] plan[i]).version != (#[trigger] plan[j]).version
}

/// Some ledger row records `version` as applied.
pub open spec fn ledger_contains(ledger: Seq<i64>, version: i64) -> bool {
    exists|i: int| 0 <= i < ledger.len() && #[trigger] ledger[i] == version
}

/// The ledger after running all not-yet-applied migrations of `plan` in
/// plan order: each version missing from the ledger is appended.
pub open spec fn spec_migrate(ledger: Seq<i64>, plan: Seq<Migration>) -> Seq<i64>
    decreases plan.len(),
{
    if plan.len() == 0 {
        ledger
    } else {
        let prev = spec_migrate(ledger, plan.drop_last());
        if ledger_contains(prev, plan.last().version) {
            prev
        } else {
            prev.push(plan.last().version)
        }
    }
}

/// Some entry of the plan carries a reverse script.
pub open spec fn has_reversible(plan: Seq<Migration>) -> bool {
    exists|i: int| 0 <= i < plan.len() && (#[trigger] plan[i]).reversible
}

/// The index of the last plan entry that carries a reverse script, or -1
/// when none does. Rollback is defined on the plan, not on what the
/// ledger currently records as applied.
pub open spec fn last_reversible(plan: Seq<Migration>) -> int
    decreases plan.len(),
{
    if plan.len() == 0 {
        -1
    } else if plan.last().reversible {
        plan.len() - 1
    } else {
        last_reversible(plan.drop_last())
    }
}

/// `last_reversible` names a reversible entry exactly when one exists,
/// and no later entry is reversible.
pub proof fn lemma_last_reversible(plan: Seq<Migration>)
    ensures
        has_reversible(plan) <==> 0 <= last_reversible(plan) < plan.len(),
        !has_reversible(plan) ==> last_reversible(plan) == -1,
        0 <= last_reversible(plan) ==> (#[trigger] plan[last_reversible(plan)]).reversible,
        forall|j: int|
            last_reversible(plan) < j < plan.len() ==> !(#[trigger] plan[j]).reversible,
    decreases plan.len(),
{
    if plan.len() > 0 {
        lemma_last_reversible(plan.drop_last());
        if plan.last().reversible {
            assert(plan[plan.len() - 1].reversible);
        } else {
            assert forall|i: int|
                0 <= i < plan.len() && (#[trigger] plan[i]).reversible implies has_reversible(
                plan.drop_last(),
            ) by {
                assert(i < plan.len() - 1);
                assert(plan.drop_last()[i] == plan[i]);
            }
            assert forall|i: int|
                0 <= i < plan.drop_last().len() && (
            #[trigger] plan.drop_last()[i]).reversible implies has_reversible(plan) by {
                assert(plan[i] == plan.drop_last()[i]);
            }
            assert forall|j: int|
                last_reversible(plan) < j < plan.len() implies !(
            #[trigger] plan[j]).reversible by {
                if j < plan.len() - 1 {
                    assert(plan.drop_last()[j] == plan[j]);
                    assert(!plan.drop_last()[j].reversible);
                } else {
                    assert(plan[j] == plan.last());
                }
            }
        }
    }
}

/// The ledger with every row recording `version` removed; under a
/// duplicate-free ledger this is at most one row, and all other rows
/// keep their order.
pub open spec fn remove_version(ledger: Seq<i64>, version: i64) -> Seq<i64>
    decreases ledger.len(),
{
    if ledger.len() == 0 {
        Seq::empty()
    } else {
        let rest = remove_version(ledger.drop_last(), version);
        if ledger.last() == version {
            rest
        } else {
            rest.push(ledger.last())
        }
    }
}

/// Removing an absent version leaves the ledger as it was.
pub proof fn lemma_remove_version_absent(ledger: Seq<i64>, version: i64)
    requires
        !ledger_contains(ledger, version),
    ensures
        remove_version(ledger, version) == ledger,
    decreases ledger.len(),
{
    if ledger.len() > 0 {
        assert forall|i: int|
            0 <= i < ledger.drop_last().len() implies #[trigger] ledger.drop_last()[i]
            != version by {
            assert(ledger[i] == ledger.drop_last()[i]);
        }
        lemma_remove_version_absent(ledger.drop_last(), version);
        assert(ledger.last() != version);
        assert(remove_version(ledger, version) =~= ledger);
    }
}

/// On a duplicate-free ledger, removing the version stored at `k` is
/// exactly dropping the row at `k`.
pub proof fn lemma_remove_version_at(ledger: Seq<i64>, version: i64, k: int)
    requires
        forall|i: int, j: int|
            0 <= i < j < ledger.len() ==> #[trigger] ledger[i] != #[trigger] ledger[j],
        0 <= k < ledger.len(),
        ledger[k] == version,
    ensures
        remove_version(ledger, version) == ledger.remove(k),
    decreases ledger.len(),
{
    if k == ledger.len() - 1 {
        assert forall|i: int|
            0 <= i < ledger.drop_last().len() implies #[trigger] ledger.drop_last()[i]
            != version by {
            assert(ledger.drop_last()[i] == ledger[i]);
            assert(ledger[i] != ledger[k]);
        }
        assert(!ledger_contains(ledger.drop_last(), version));
        lemma_remove_version_absent(ledger.drop_last(), version);
        assert(remove_version(ledger, version) =~= ledger.remove(k));
    } else {
        let head = ledger.drop_last();
        assert forall|i: int, j: int| 0 <= i < j < head.len() implies #[trigger] head[i]
            != #[trigger] head[j] by {
            assert(head[i] == ledger[i]);
            assert(head[j] == ledger[j]);
        }
        assert(head[k] == ledger[k]);
        lemma_remove_version_at(head, version, k);
        assert(ledger.last() != version);
        assert(remove_version(ledger, version) =~= ledger.remove(k));
    }
}

} // verus!
