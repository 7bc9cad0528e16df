use crate::index::{lemma_table, table, Index, IndexView};
use crate::project::{Pid, Strategy};
use crate::text::{
    comes_before, lemma_precedes_irreflexive, lemma_precedes_total, lemma_precedes_transitive,
    precedes,
};
use vstd::prelude::*;

verus! {

/// The order of a plan: by project, and within a project by path.
pub open spec fn key_before(a: IndexView, b: IndexView) -> bool {
    a.pid.id() < b.pid.id() || (a.pid.id() == b.pid.id() && precedes(a.path, b.path))
}

/// No index comes before itself.
pub proof fn lemma_key_irreflexive(a: IndexView)
    ensures
        !key_before(a, a),
{
    lemma_precedes_irreflexive(a.path);
}

/// The order is transitive.
pub proof fn lemma_key_transitive(a: IndexView, b: IndexView, c: IndexView)
    requires
        key_before(a, b),
        key_before(b, c),
    ensures
        key_before(a, c),
{
    if a.pid.id() == b.pid.id() && b.pid.id() == c.pid.id() {
        lemma_precedes_transitive(a.path, b.path, c.path);
    }
}

/// Of two different indexes one comes before the other.
pub proof fn lemma_key_total(a: IndexView, b: IndexView)
    ensures
        a == b || key_before(a, b) || key_before(b, a),
{
    if a.pid.id() == b.pid.id() {
        Pid::lemma_id_injective(a.pid, b.pid);
        lemma_precedes_total(a.path, b.path);
    }
}

/// Whether `a` comes before `b` in the order of a plan.
pub fn key_less(a: &Index, b: &Index) -> (r: bool)
    ensures
        r == key_before(a@, b@),
{
    let x = a.pid().value();
    let y = b.pid().value();
    x < y || (x == y && comes_before(a.path(), b.path()))
}

/// Whether the indexes of `plan` stand in strictly rising order.
pub open spec fn ordered<V>(plan: Seq<(IndexView, V)>) -> bool {
    forall|i: int, j: int| 0 <= i < j < plan.len() ==> key_before(
        (#[trigger] plan[i]).0,
        (#[trigger] plan[j]).0,
    )
}

/// The views of the entries of a plan.
pub open spec fn plan_views(plan: Seq<(Index, Strategy)>) -> Seq<(IndexView, Strategy)> {
    plan.map_values(|e: (Index, Strategy)| (e.0@, e.1))
}

/// In an ordered plan no index stands twice, so the plan's map says of each
/// index what stands beside it.
pub proof fn lemma_ordered_table<V>(plan: Seq<(IndexView, V)>, at: int)
    requires
        ordered(plan),
        0 <= at < plan.len(),
    ensures
        table(plan).contains_key(plan[at].0),
        table(plan)[plan[at].0] == plan[at].1,
{
    assert forall|j: int| at < j < plan.len() implies plan[j].0 != plan[at].0 by {
        lemma_key_irreflexive(plan[at].0);
    }
    lemma_table(plan, plan[at].0, at);
}

/// The map of a run of pairs holds an index only where some pair does.
pub proof fn lemma_table_has<V>(plan: Seq<(IndexView, V)>, key: IndexView)
    requires
        table(plan).contains_key(key),
    ensures
        exists|i: int| 0 <= i < plan.len() && (#[trigger] plan[i]).0 == key,
    decreases plan.len(),
{
    if plan.len() > 0 {
        if plan.last().0 == key {
            assert(plan[plan.len() - 1].0 == key);
        } else {
            lemma_table_has(plan.drop_last(), key);
            let i = choose|i: int|
                0 <= i < plan.drop_last().len() && (#[trigger] plan.drop_last()[i]).0 == key;
            assert(plan[i].0 == key);
        }
    }
}

/// Two ordered plans with the same map are the same plan.
pub proof fn lemma_ordered_unique<V>(a: Seq<(IndexView, V)>, b: Seq<(IndexView, V)>)
    requires
        ordered(a),
        ordered(b),
        table(a) == table(b),
    ensures
        a == b,
    decreases a.len(),
{
    if a.len() == 0 {
        if b.len() > 0 {
            lemma_ordered_table(b, 0);
        }
        assert(a =~= b);
    } else {
        lemma_ordered_table(a, a.len() - 1);
        lemma_table_has(b, a.last().0);
        assert(b.len() > 0);
        lemma_ordered_table(b, b.len() - 1);
        lemma_table_has(a, b.last().0);
        let i = choose|i: int| 0 <= i < b.len() && (#[trigger] b[i]).0 == a.last().0;
        let j = choose|j: int| 0 <= j < a.len() && (#[trigger] a[j]).0 == b.last().0;
        // the last keys agree: each is no later than the other
        if a.last().0 != b.last().0 {
            lemma_key_total(a.last().0, b.last().0);
            if key_before(a.last().0, b.last().0) {
                assert(j < a.len() - 1);
                assert(key_before(a[j].0, a[a.len() - 1].0));
                lemma_key_transitive(a[j].0, a.last().0, b.last().0);
                lemma_key_irreflexive(b.last().0);
            } else {
                assert(i < b.len() - 1);
                assert(key_before(b[i].0, b[b.len() - 1].0));
                lemma_key_transitive(b[i].0, b.last().0, a.last().0);
                lemma_key_irreflexive(a.last().0);
            }
        }
        assert(a.last().1 == b.last().1);
        let fa = a.drop_last();
        let fb = b.drop_last();
        assert(ordered(fa)) by {
            assert forall|i: int, j: int| 0 <= i < j < fa.len() implies key_before(
                (#[trigger] fa[i]).0,
                (#[trigger] fa[j]).0,
            ) by {
                assert(key_before(a[i].0, a[j].0));
            }
        }
        assert(ordered(fb)) by {
            assert forall|i: int, j: int| 0 <= i < j < fb.len() implies key_before(
                (#[trigger] fb[i]).0,
                (#[trigger] fb[j]).0,
            ) by {
                assert(key_before(b[i].0, b[j].0));
            }
        }
        lemma_drop_last_table(a);
        lemma_drop_last_table(b);
        lemma_ordered_unique(fa, fb);
        assert(a =~= fa.push(a.last()));
        assert(b =~= fb.push(b.last()));
    }
}

/// The map of an ordered plan without its last entry is the plan's map without
/// that entry's index.
pub proof fn lemma_drop_last_table<V>(plan: Seq<(IndexView, V)>)
    requires
        ordered(plan),
        plan.len() > 0,
    ensures
        table(plan.drop_last()) == table(plan).remove(plan.last().0),
{
    let front = plan.drop_last();
    if table(front).contains_key(plan.last().0) {
        lemma_table_has(front, plan.last().0);
        let i = choose|i: int| 0 <= i < front.len() && (#[trigger] front[i]).0 == plan.last().0;
        assert(key_before(plan[i].0, plan[plan.len() - 1].0));
        lemma_key_irreflexive(plan.last().0);
    }
    assert(table(front) =~= table(plan).remove(plan.last().0));
}

/// Puts the entry for `index` into an ordered plan, in its place; an entry that
/// the plan holds for the same index is replaced.
pub fn place(plan: &mut Vec<(Index, Strategy)>, index: Index, strategy: Strategy)
    requires
        ordered(plan_views(old(plan)@)),
    ensures
        ordered(plan_views(final(plan)@)),
        table(plan_views(final(plan)@)) == table(plan_views(old(plan)@)).insert(index@, strategy),
{
    let ghost before = plan_views(plan@);
    let mut at: usize = 0;
    while at < plan.len() && key_less(&plan[at].0, &index)
        invariant
            at <= plan.len(),
            plan_views(plan@) == before,
            forall|j: int| 0 <= j < at ==> key_before((#[trigger] before[j]).0, index@),
        decreases plan.len() - at,
    {
        at += 1;
    }
    let ghost key = index@;
    let replaces = at < plan.len() && plan[at].0 == index;
    if replaces {
        plan.set(at, (index, strategy));
    } else {
        plan.insert(at, (index, strategy));
    }
    let ghost after = plan_views(plan@);
    proof {
        if replaces {
            assert(after =~= before.update(at as int, (key, strategy)));
            assert(ordered(after)) by {
                assert forall|i: int, j: int| 0 <= i < j < after.len() implies key_before(
                    (#[trigger] after[i]).0,
                    (#[trigger] after[j]).0,
                ) by {
                    assert(key_before(before[i].0, before[j].0));
                }
            }
        } else {
            assert(after =~= before.insert(at as int, (key, strategy)));
            assert forall|j: int| at <= j < before.len() implies key_before(
                key,
                (#[trigger] before[j]).0,
            ) by {
                lemma_key_total(key, before[at as int].0);
                if at < j {
                    assert(key_before(before[at as int].0, before[j].0));
                    lemma_key_transitive(key, before[at as int].0, before[j].0);
                }
            }
            assert(ordered(after)) by {
                assert forall|i: int, j: int| 0 <= i < j < after.len() implies key_before(
                    (#[trigger] after[i]).0,
                    (#[trigger] after[j]).0,
                ) by {
                    if i < at && j > at {
                        assert(key_before(before[i].0, before[j - 1].0) || i == j - 1);
                        if i == j - 1 {
                            lemma_key_transitive(before[i].0, key, before[j - 1].0);
                        }
                    } else if i < at && j < at {
                        assert(key_before(before[i].0, before[j].0));
                    } else if i > at {
                        assert(key_before(before[i - 1].0, before[j - 1].0));
                    } else if i == at {
                        assert(after[j] == before[j - 1]);
                    } else {
                        assert(j == at);
                    }
                }
            }
        }
        assert(table(after) =~= table(before).insert(key, strategy)) by {
            assert forall|k: IndexView| #[trigger]
                table(after).contains_key(k) == table(before).insert(key, strategy).contains_key(
                    k,
                ) by {
                if table(after).contains_key(k) {
                    lemma_table_has(after, k);
                    let i = choose|i: int| 0 <= i < after.len() && (#[trigger] after[i]).0 == k;
                    if k != key {
                        let o: int = if replaces || i < at {
                            i
                        } else {
                            i - 1
                        };
                        assert(before[o].0 == k);
                        lemma_ordered_table(before, o);
                    }
                }
                if table(before).contains_key(k) && k != key {
                    lemma_table_has(before, k);
                    let i = choose|i: int| 0 <= i < before.len() && (#[trigger] before[i]).0 == k;
                    let n: int = if replaces || i < at {
                        i
                    } else {
                        i + 1
                    };
                    assert(after[n].0 == k);
                    lemma_ordered_table(after, n);
                }
                if k == key {
                    assert(after[at as int].0 == key);
                    lemma_ordered_table(after, at as int);
                }
            }
            assert forall|k: IndexView| #[trigger] table(after).contains_key(k) implies table(
                after,
            )[k] == table(before).insert(key, strategy)[k] by {
                lemma_table_has(after, k);
                let i = choose|i: int| 0 <= i < after.len() && (#[trigger] after[i]).0 == k;
                lemma_ordered_table(after, i);
                if k != key {
                    let o: int = if replaces || i < at {
                        i
                    } else {
                        i - 1
                    };
                    assert(before[o] == after[i]);
                    lemma_ordered_table(before, o);
                } else {
                    lemma_ordered_table(after, at as int);
                }
            }
        }
    }
}

} // verus!
