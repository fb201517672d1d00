use crate::cascade::rebased_ok;
use crate::graph::{descends, lemma_descends_after_root, lemma_live_parent, live, rebase_set};
use crate::ids::CommitId;
use crate::remap::{lemma_remapped_contains, remapped, resolves_to, rewritten_to, RemapPolicy};
use crate::repo::RepoView;
use crate::split::{split_done, SplitSummary};
use crate::store::StoreView;
use crate::tree::TreeMap;
use vstd::prelude::*;

verus! {

/// What the laws of this file start from: a store that grew out of `s0`,
/// the two parts of the split in it, the record of the split commit, and
/// every commit to rebase rebased.
pub open spec fn split_context(
    s0: StoreView,
    s: StoreView,
    heads: Seq<CommitId>,
    m: Map<CommitId, CommitId>,
    parallel: bool,
    legacy: bool,
    target: CommitId,
    first: CommitId,
    second: CommitId,
) -> bool {
    &&& s0.wf()
    &&& s.wf()
    &&& s.extends(s0)
    &&& s0.has_commit(target)
    &&& s.has_commit(first)
    &&& s.has_commit(second)
    &&& first.0 < second.0
    &&& rewritten_to(m, target) == (if legacy {
        second
    } else {
        first
    })
    &&& forall|d: CommitId| #[trigger]
        rebase_set(s0, heads, seq![target]).contains(d) ==> rebased_ok(
            s0,
            s,
            m,
            RemapPolicy::of(parallel, legacy),
            first,
            second,
            d,
        )
}

/// A live commit from which nothing live descends is a head.
proof fn lemma_head_without_descendants(s0: StoreView, heads: Seq<CommitId>, target: CommitId)
    requires
        s0.wf(),
        live(s0, heads, target.0 as int),
        forall|d: CommitId| !rebase_set(s0, heads, seq![target]).contains(d),
    ensures
        heads.contains(target),
{
    if !heads.contains(target) {
        let roots = seq![target];
        let j = choose|j: int|
            target.0 < j < s0.commits.len() && live(s0, heads, j)
                && (#[trigger] s0.commits[j]).parents.contains(target);
        let k = s0.commits[j].parents.index_of(target);
        assert(s0.commits[j].parents[k] == target);
        assert(roots[0] == target);
        assert(roots.contains(target));
        assert(descends(s0, roots, j));
        let e = CommitId(j as usize);
        assert(!roots.contains(e)) by {
            if roots.contains(e) {
                let i = roots.index_of(e);
                assert(roots[i] == target);
            }
        }
        assert(rebase_set(s0, heads, roots).contains(e));
    }
}

/// A parent of a commit to rebase that descends from the split commit is
/// itself a commit to rebase.
proof fn lemma_parent_to_rebase(
    s0: StoreView,
    heads: Seq<CommitId>,
    target: CommitId,
    d: CommitId,
    k: int,
)
    requires
        s0.wf(),
        rebase_set(s0, heads, seq![target]).contains(d),
        0 <= k < s0.commits[d.0 as int].parents.len(),
        descends(s0, seq![target], s0.commits[d.0 as int].parents[k].0 as int),
    ensures
        rebase_set(s0, heads, seq![target]).contains(s0.commits[d.0 as int].parents[k]),
{
    let roots = seq![target];
    let p = s0.commits[d.0 as int].parents[k];
    lemma_live_parent(s0, heads, d.0 as int, k);
    lemma_descends_after_root(s0, roots, p.0 as int);
    assert(!roots.contains(p)) by {
        if roots.contains(p) {
            let i = roots.index_of(p);
            assert(roots[i] == target);
            let r = choose|r: int| 0 <= r < roots.len() && (#[trigger] roots[r]).0 < p.0;
            assert(roots[r] == target);
        }
    }
}

/// Among the commits to rebase, if there are any, is a child of the split commit.
proof fn lemma_child_to_rebase(s0: StoreView, heads: Seq<CommitId>, target: CommitId, d: CommitId)
    -> (e: CommitId)
    requires
        s0.wf(),
        rebase_set(s0, heads, seq![target]).contains(d),
    ensures
        rebase_set(s0, heads, seq![target]).contains(e),
        s0.commits[e.0 as int].parents.contains(target),
    decreases d.0,
{
    let roots = seq![target];
    let k = choose|k: int|
        0 <= k < s0.commits[d.0 as int].parents.len() && {
            let p = #[trigger] s0.commits[d.0 as int].parents[k];
            p.0 < d.0 && (roots.contains(p) || descends(s0, roots, p.0 as int))
        };
    let p = s0.commits[d.0 as int].parents[k];
    if roots.contains(p) {
        let i = roots.index_of(p);
        assert(roots[i] == target);
        assert(s0.commits[d.0 as int].parents.contains(target));
        d
    } else {
        lemma_parent_to_rebase(s0, heads, target, d, k);
        lemma_child_to_rebase(s0, heads, target, p)
    }
}

/// Parents that include the split commit are remapped to parents that
/// include the second part, and in parallel the first part too.
proof fn lemma_includes_parts(
    parents: Seq<CommitId>,
    m: Map<CommitId, CommitId>,
    parallel: bool,
    legacy: bool,
    target: CommitId,
    first: CommitId,
    second: CommitId,
)
    requires
        parents.contains(target),
        first != second,
        rewritten_to(m, target) == (if legacy {
            second
        } else {
            first
        }),
    ensures
        remapped(parents, m, RemapPolicy::of(parallel, legacy), first, second).contains(second),
        parallel ==> remapped(
            parents,
            m,
            RemapPolicy::of(parallel, legacy),
            first,
            second,
        ).contains(first),
{
    let policy = RemapPolicy::of(parallel, legacy);
    let i = parents.index_of(target);
    assert(rewritten_to(m, parents[i]) == rewritten_to(m, target));
    assert(resolves_to(parents, m, rewritten_to(m, target)));
    lemma_remapped_contains(parents, m, policy, first, second, second);
    lemma_remapped_contains(parents, m, policy, first, second, first);
    let list = policy.replacement(first, second);
    if parallel {
        assert(list[0] == first);
        assert(list[1] == second);
    } else {
        assert(list[0] == second);
    }
}

/// The replacement of a rebased commit was written after the second part.
proof fn lemma_replacement_after_second(
    s0: StoreView,
    s: StoreView,
    heads: Seq<CommitId>,
    m: Map<CommitId, CommitId>,
    parallel: bool,
    legacy: bool,
    target: CommitId,
    first: CommitId,
    second: CommitId,
    d: CommitId,
)
    requires
        split_context(s0, s, heads, m, parallel, legacy, target, first, second),
        rebase_set(s0, heads, seq![target]).contains(d),
    ensures
        m[d].0 > second.0,
    decreases d.0,
{
    let roots = seq![target];
    let policy = RemapPolicy::of(parallel, legacy);
    let parents = s0.commits[d.0 as int].parents;
    let np = remapped(parents, m, policy, first, second);
    assert(rebased_ok(s0, s, m, policy, first, second, d));
    assert(s.commit_ok(m[d].0 as int));
    let k = choose|k: int|
        0 <= k < parents.len() && {
            let p = #[trigger] parents[k];
            p.0 < d.0 && (roots.contains(p) || descends(s0, roots, p.0 as int))
        };
    let p = parents[k];
    if roots.contains(p) {
        let i = roots.index_of(p);
        assert(roots[i] == target);
        assert(parents.contains(target));
        lemma_includes_parts(parents, m, parallel, legacy, target, first, second);
        let x = np.index_of(second);
        assert(np[x] == second);
        assert(s.commits[m[d].0 as int].parents[x].0 < m[d].0);
    } else {
        lemma_parent_to_rebase(s0, heads, target, d, k);
        lemma_replacement_after_second(s0, s, heads, m, parallel, legacy, target, first, second, p);
        assert(rebased_ok(s0, s, m, policy, first, second, p));
        assert(rewritten_to(m, parents[k]) == m[p]);
        assert(resolves_to(parents, m, m[p]));
        lemma_remapped_contains(parents, m, policy, first, second, m[p]);
        let x = np.index_of(m[p]);
        assert(np[x] == m[p]);
        assert(s.commits[m[d].0 as int].parents[x].0 < m[d].0);
    }
}

/// The replacement of a rebased commit is live once the heads have followed.
proof fn lemma_replacement_live(
    s0: StoreView,
    s: StoreView,
    heads: Seq<CommitId>,
    m: Map<CommitId, CommitId>,
    parallel: bool,
    legacy: bool,
    target: CommitId,
    first: CommitId,
    second: CommitId,
    d: CommitId,
)
    requires
        split_context(s0, s, heads, m, parallel, legacy, target, first, second),
        rebase_set(s0, heads, seq![target]).contains(d),
    ensures
        live(s, remapped(heads, m, RemapPolicy::of(parallel, legacy), first, second), m[d].0 as int),
    decreases s0.commits.len() - d.0,
{
    let roots = seq![target];
    let policy = RemapPolicy::of(parallel, legacy);
    let after = remapped(heads, m, policy, first, second);
    lemma_replacement_after_second(s0, s, heads, m, parallel, legacy, target, first, second, d);
    assert(rebased_ok(s0, s, m, policy, first, second, d));
    assert(m[d] != policy.anchor(first, second));
    lemma_descends_after_root(s0, roots, d.0 as int);
    let r = choose|r: int| 0 <= r < roots.len() && (#[trigger] roots[r]).0 < d.0;
    assert(roots[r] == target);
    if heads.contains(d) {
        let i = heads.index_of(d);
        assert(rewritten_to(m, heads[i]) == m[d]);
        assert(resolves_to(heads, m, m[d]));
        lemma_remapped_contains(heads, m, policy, first, second, m[d]);
    } else {
        let j = choose|j: int|
            d.0 < j < s0.commits.len() && live(s0, heads, j)
                && (#[trigger] s0.commits[j]).parents.contains(d);
        let e = CommitId(j as usize);
        let parents = s0.commits[j].parents;
        let k = parents.index_of(d);
        assert(parents[k] == d);
        assert(s0.commit_ok(j));
        assert(descends(s0, roots, j));
        assert(!roots.contains(e)) by {
            if roots.contains(e) {
                let i = roots.index_of(e);
                assert(roots[i] == target);
            }
        }
        assert(rebase_set(s0, heads, roots).contains(e));
        lemma_replacement_live(s0, s, heads, m, parallel, legacy, target, first, second, e);
        assert(rebased_ok(s0, s, m, policy, first, second, e));
        assert(rewritten_to(m, parents[k]) == m[d]);
        assert(resolves_to(parents, m, m[d]));
        lemma_remapped_contains(parents, m, policy, first, second, m[d]);
        let np = s.commits[m[e].0 as int].parents;
        let x = np.index_of(m[d]);
        assert(np[x] == m[d]);
        assert(s.commit_ok(m[e].0 as int));
        assert(np[x].0 < m[e].0);
        assert(live(s, after, m[e].0 as int) && (#[trigger] s.commits[m[e].0 as int]).parents.contains(
            m[d],
        ));
    }
}

/// After a split both parts are live, and so is the replacement of every
/// rebased descendant: what was reached from the heads before is reached,
/// in its new form, from the heads that have followed.
pub proof fn lemma_parts_live(
    before: RepoView,
    after: RepoView,
    legacy: bool,
    target: CommitId,
    selected: TreeMap,
    first_description: Seq<char>,
    second_description: Seq<char>,
    parallel: bool,
    summary: SplitSummary,
)
    requires
        before.wf(),
        after.wf(),
        before.is_live(target),
        split_done(
            before,
            after,
            legacy,
            target,
            selected,
            first_description,
            second_description,
            parallel,
            summary,
        ),
    ensures
        after.is_live(summary.first),
        after.is_live(summary.second),
        forall|d: CommitId| #[trigger]
            rebase_set(before.store, before.refs.heads, seq![target]).contains(d)
                ==> after.is_live(summary.rewritten@[d]),
{
    let s0 = before.store;
    let s = after.store;
    let heads = before.refs.heads;
    let m = summary.rewritten@;
    let first = summary.first;
    let second = summary.second;
    let policy = RemapPolicy::of(parallel, legacy);
    let set = rebase_set(s0, heads, seq![target]);
    let now = remapped(heads, m, policy, first, second);
    assert(after.refs.heads == now);
    assert(split_context(s0, s, heads, m, parallel, legacy, target, first, second));
    assert forall|d: CommitId| #[trigger] set.contains(d) implies after.is_live(m[d]) by {
        lemma_replacement_live(s0, s, heads, m, parallel, legacy, target, first, second, d);
    }
    assert(s.commit_ok(second.0 as int));
    if exists|d: CommitId| set.contains(d) {
        let d = choose|d: CommitId| set.contains(d);
        let e = lemma_child_to_rebase(s0, heads, target, d);
        lemma_replacement_live(s0, s, heads, m, parallel, legacy, target, first, second, e);
        assert(rebased_ok(s0, s, m, policy, first, second, e));
        lemma_includes_parts(
            s0.commits[e.0 as int].parents,
            m,
            parallel,
            legacy,
            target,
            first,
            second,
        );
        let np = s.commits[m[e].0 as int].parents;
        assert(s.commit_ok(m[e].0 as int));
        let x = np.index_of(second);
        assert(np[x] == second);
        assert(np[x].0 < m[e].0);
        assert(live(s, now, m[e].0 as int) && (#[trigger] s.commits[m[e].0 as int]).parents.contains(
            second,
        ));
        assert(live(s, now, second.0 as int));
        if parallel {
            let y = np.index_of(first);
            assert(np[y] == first);
            assert(np[y].0 < m[e].0);
            assert(live(s, now, m[e].0 as int) && (#[trigger] s.commits[m[e].0 as int]).parents.contains(
                first,
            ));
            assert(live(s, now, first.0 as int));
        }
    } else {
        lemma_head_without_descendants(s0, heads, target);
        lemma_includes_parts(heads, m, parallel, legacy, target, first, second);
        assert(live(s, now, second.0 as int));
        if parallel {
            assert(live(s, now, first.0 as int));
        }
    }
    if !parallel {
        assert(s.commits[second.0 as int].parents[0] == first);
        lemma_live_parent(s, now, second.0 as int, 0);
    }
}

} // verus!
