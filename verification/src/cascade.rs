use crate::graph::{ascending, descendants_to_rebase, rebase_set, to_rebase};
use crate::ids::CommitId;
use crate::remap::{
    lemma_remapped_members, lemma_resolve_agree, remap_parents, remapped, rewritten_to,
    RemapPolicy, Rewrites,
};
use crate::rewriter::{lemma_rebased, lemma_rebased_tree_extends, rebase, rebased_tree_map};
use crate::store::{commit_fault, lemma_extends_trans, Store, StoreError, StoreView};
use vstd::prelude::*;

verus! {

/// Every recorded rewrite leads to a commit that the store holds.
pub open spec fn rewrites_valid(s: StoreView, m: Map<CommitId, CommitId>) -> bool {
    forall|x: CommitId| m.contains_key(x) ==> s.has_commit(#[trigger] m[x])
}

/// The descendant `d` of the store `s0` has been rebased: it is recorded as
/// rewritten to a commit of `s` that has its change id and description, the
/// remapped parents, and the tree that carries its change over.
pub open spec fn rebased_ok(
    s0: StoreView,
    s: StoreView,
    m: Map<CommitId, CommitId>,
    policy: RemapPolicy,
    first: CommitId,
    second: CommitId,
    d: CommitId,
) -> bool {
    let before = s0.commits[d.0 as int];
    let parents = remapped(before.parents, m, policy, first, second);
    &&& m.contains_key(d)
    &&& s.has_commit(m[d])
    &&& s.commits[m[d].0 as int].parents == parents
    &&& s.commits[m[d].0 as int].change_id == before.change_id
    &&& s.commits[m[d].0 as int].description == before.description
    &&& s.has_tree(s.commits[m[d].0 as int].tree)
    &&& s.trees[s.commits[m[d].0 as int].tree.0 as int] == rebased_tree_map(s, d, parents)
}

/// A rebased descendant stays rebased when the store grows and when a
/// commit that is neither it nor one of its parents is recorded as rewritten.
proof fn lemma_rebased_ok_stable(
    s0: StoreView,
    s: StoreView,
    s2: StoreView,
    m: Map<CommitId, CommitId>,
    x: CommitId,
    y: CommitId,
    policy: RemapPolicy,
    first: CommitId,
    second: CommitId,
    d: CommitId,
)
    requires
        s0.wf(),
        s.wf(),
        s2.wf(),
        s.extends(s0),
        s2.extends(s),
        s0.has_commit(d),
        d.0 > 0,
        rebased_ok(s0, s, m, policy, first, second, d),
        x != d,
        !s0.commits[d.0 as int].parents.contains(x),
    ensures
        rebased_ok(s0, s2, m.insert(x, y), policy, first, second, d),
{
    let before = s0.commits[d.0 as int];
    let m2 = m.insert(x, y);
    assert forall|i: int| 0 <= i < before.parents.len() implies rewritten_to(
        m,
        #[trigger] before.parents[i],
    ) == rewritten_to(m2, before.parents[i]) by {
        assert(before.parents.contains(before.parents[i]));
    }
    lemma_resolve_agree(before.parents, m, m2);
    let parents = remapped(before.parents, m, policy, first, second);
    let n = m[d];
    assert(s.commit_ok(n.0 as int));
    assert(s2.commits[n.0 as int] == s.commits[n.0 as int]);
    assert forall|k: int| 0 <= k < parents.len() implies s.has_commit(#[trigger] parents[k]) by {
        assert(s.commits[n.0 as int].parents[k].0 < n.0);
    }
    lemma_rebased_tree_extends(s, s2, d, parents);
    assert(s2.trees[s.commits[n.0 as int].tree.0 as int] == s.trees[s.commits[n.0 as int].tree.0 as int]);
}

/// Rebases every live descendant of the roots, parents before children and
/// each once, and says how many there were.
///
/// Each descendant's parents are followed through the rewrites recorded so
/// far, those of the descendants rebased before it among them, and then
/// remapped by the policy. Each rebased descendant is recorded as rewritten
/// to its replacement. The one failure is a store without room.
pub fn transform_descendants(
    store: &mut Store,
    heads: &Vec<CommitId>,
    rewrites: &mut Rewrites,
    roots: &Vec<CommitId>,
    policy: RemapPolicy,
    first: CommitId,
    second: CommitId,
) -> (r: Result<usize, StoreError>)
    requires
        old(store).wf(),
        old(rewrites).wf(),
        rewrites_valid(old(store)@, old(rewrites)@),
        old(store)@.has_commit(first),
        old(store)@.has_commit(second),
    ensures
        final(store).wf(),
        final(rewrites).wf(),
        final(store)@.extends(old(store)@),
        rewrites_valid(final(store)@, final(rewrites)@),
        final(store)@.commits.len() <= old(store)@.commits.len() + rebase_set(
            old(store)@,
            heads@,
            roots@,
        ).len(),
        final(store)@.trees.len() <= old(store)@.trees.len() + rebase_set(
            old(store)@,
            heads@,
            roots@,
        ).len(),
        r matches Ok(count) ==> {
            let set = rebase_set(old(store)@, heads@, roots@);
            &&& count == set.len()
            &&& forall|x: CommitId|
                final(rewrites)@.contains_key(x) == (old(rewrites)@.contains_key(x)
                    || set.contains(x))
            &&& forall|x: CommitId|
                !set.contains(x) ==> rewritten_to(final(rewrites)@, x) == rewritten_to(
                    old(rewrites)@,
                    x,
                )
            &&& forall|d: CommitId| #[trigger]
                set.contains(d) ==> rebased_ok(
                    old(store)@,
                    final(store)@,
                    final(rewrites)@,
                    policy,
                    first,
                    second,
                    d,
                )
        },
        r matches Err(e) ==> e == StoreError::Full,
        old(store)@.commits.len() + rebase_set(old(store)@, heads@, roots@).len() <= old(
            store,
        )@.capacity + 1 && old(store)@.trees.len() + rebase_set(
            old(store)@,
            heads@,
            roots@,
        ).len() <= old(store)@.capacity + 1 ==> r is Ok,
{
    let to_visit = descendants_to_rebase(store, heads, roots);
    let ghost s0 = store@;
    let ghost m0 = rewrites@;
    let ghost set = rebase_set(s0, heads@, roots@);
    let mut k: usize = 0;
    while k < to_visit.len()
        invariant
            k <= to_visit.len(),
            s0 == old(store)@,
            m0 == old(rewrites)@,
            s0.wf(),
            store.wf(),
            rewrites.wf(),
            store@.extends(s0),
            set == rebase_set(s0, heads@, roots@),
            ascending(to_visit@),
            forall|id: CommitId|
                to_visit@.contains(id) == to_rebase(s0, heads@, roots@, id.0 as int),
            forall|j: int|
                0 <= j < to_visit.len() ==> 0 < (#[trigger] to_visit[j]).0 < s0.commits.len(),
            to_visit.len() == set.len(),
            rewrites_valid(store@, rewrites@),
            store@.has_commit(first),
            store@.has_commit(second),
            store@.commits.len() <= s0.commits.len() + k,
            store@.trees.len() <= s0.trees.len() + k,
            forall|x: CommitId|
                rewrites@.contains_key(x) == (m0.contains_key(x) || to_visit@.subrange(
                    0,
                    k as int,
                ).contains(x)),
            forall|x: CommitId|
                !to_visit@.subrange(0, k as int).contains(x) ==> rewritten_to(rewrites@, x)
                    == rewritten_to(m0, x),
            forall|j: int|
                0 <= j < k ==> rebased_ok(
                    s0,
                    store@,
                    rewrites@,
                    policy,
                    first,
                    second,
                    #[trigger] to_visit@[j],
                ),
        decreases to_visit.len() - k,
    {
        let d = to_visit[k];
        let ghost s = store@;
        let ghost m = rewrites@;
        let ghost done = to_visit@.subrange(0, k as int);
        assert(s.commits[d.0 as int] == s0.commits[d.0 as int]);
        let parents = remap_parents(&store.commit(d).parents, rewrites, policy, first, second);
        proof {
            let before = s0.commits[d.0 as int];
            assert(s.commit_ok(d.0 as int));
            lemma_remapped_members(before.parents, m, policy, first, second);
            assert forall|i: int| 0 <= i < parents@.len() implies s.has_commit(
                #[trigger] parents@[i],
            ) by {
                let x = parents@[i];
                assert(parents@.contains(x));
                assert(remapped(before.parents, m, policy, first, second).contains(x));
                if x != first && x != second {
                    let j = choose|j: int|
                        0 <= j < before.parents.len() && x == rewritten_to(
                            m,
                            #[trigger] before.parents[j],
                        );
                    assert(before.parents[j].0 < d.0);
                }
            }
            assert(commit_fault(s, parents@, before.tree, Some(before.change_id)) is None);
            lemma_rebased(s, d, parents@);
        }
        match rebase(store, d, parents) {
            Err(e) => {
                proof {
                    lemma_extends_trans(s0, s, store@);
                }
                return Err(e);
            },
            Ok(n) => {
                rewrites.set(d, n);
                proof {
                    lemma_extends_trans(s0, s, store@);
                }
                proof {
                    let t = store@;
                    let m2 = rewrites@;
                    let before = s0.commits[d.0 as int];
                    let done2 = to_visit@.subrange(0, k + 1);
                    assert(done2.drop_last() =~= done);
                    assert(done2.last() == d);
                    assert forall|x: CommitId| done2.contains(x) == (done.contains(x) || x
                        == d) by {
                        if done.contains(x) {
                            let j = done.index_of(x);
                            assert(done2[j] == x);
                        }
                        if x == d {
                            assert(done2[k as int] == x);
                        }
                        if done2.contains(x) {
                            let j = done2.index_of(x);
                            if j < k {
                                assert(done[j] == x);
                            }
                        }
                    }
                    assert forall|j: int| 0 <= j < k + 1 implies rebased_ok(
                        s0,
                        t,
                        m2,
                        policy,
                        first,
                        second,
                        #[trigger] to_visit@[j],
                    ) by {
                        let e = to_visit@[j];
                        if j < k {
                            assert(e.0 < d.0);
                            assert(s0.commit_ok(e.0 as int));
                            assert(!s0.commits[e.0 as int].parents.contains(d)) by {
                                if s0.commits[e.0 as int].parents.contains(d) {
                                    let i = s0.commits[e.0 as int].parents.index_of(d);
                                    assert(s0.commits[e.0 as int].parents[i].0 < e.0);
                                }
                            }
                            lemma_rebased_ok_stable(s0, s, t, m, d, n, policy, first, second, e);
                        } else {
                            assert(!before.parents.contains(d)) by {
                                if before.parents.contains(d) {
                                    let i = before.parents.index_of(d);
                                    assert(before.parents[i].0 < d.0);
                                }
                            }
                            assert forall|i: int| 0 <= i < before.parents.len() implies rewritten_to(
                                m,
                                #[trigger] before.parents[i],
                            ) == rewritten_to(m2, before.parents[i]) by {
                                assert(before.parents.contains(before.parents[i]));
                            }
                            lemma_resolve_agree(before.parents, m, m2);
                        }
                    }
                }
            },
        }
        k += 1;
    }
    proof {
        assert(to_visit@.subrange(0, to_visit.len() as int) =~= to_visit@);
        assert forall|d: CommitId| #[trigger] set.contains(d) implies rebased_ok(
            s0,
            store@,
            rewrites@,
            policy,
            first,
            second,
            d,
        ) by {
            assert(to_visit@.contains(d));
            let j = to_visit@.index_of(d);
            assert(to_visit@[j] == d);
        }
    }
    Ok(to_visit.len())
}

} // verus!
