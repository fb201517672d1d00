use crate::cascade::{rebased_ok, rewrites_valid, transform_descendants};
use crate::graph::{
    is_listed, lemma_descends_after_root, lemma_live_ancestor, lemma_rebase_set_extends, live, mark_live,
    rebase_set,
};
use crate::ids::CommitId;
use crate::refs::{followed, lemma_followed_valid, Refs, RefsView};
use crate::remap::{lemma_policy_table, remapped, rewritten_to, RemapPolicy, Rewrites};
use crate::repo::{Repo, RepoView, Transaction};
use crate::rewriter::rewrite;
use crate::store::{
    copy_ids, lemma_commit_written, lemma_extends_trans, lemma_prefix_extends, lemma_tree_ids,
    lemma_tree_written, Store, StoreError, StoreView,
};
use crate::text::{hex_of, push_hex};
use crate::tree::{
    between, complement_map, has_conflict_map, lemma_complement_edges, lemma_merge_unchanged,
    lemma_parallel_partition, Tree, TreeMap,
};
use vstd::prelude::*;
use vstd::string::StringExecFns;

verus! {

/// What the user was told about the selection.
#[derive(Clone, Copy, Debug, PartialEq, Eq, Structural)]
pub enum SplitWarning {
    /// Everything was selected: the second commit is empty.
    AllSelected,
    /// Nothing was selected: the first commit is empty.
    NoneSelected,
}

/// Why a commit was not split.
#[derive(Clone, Copy, Debug, PartialEq, Eq, Structural)]
pub enum SplitError {
    /// The commit is not among the live commits of the repository.
    NoSuchRevision,
    /// The commit changes nothing.
    EmptyCommit,
    /// The commit may not be rewritten.
    Immutable,
    /// The store did not take what the split had to write.
    Store(StoreError),
}

/// What a split has done.
pub struct SplitSummary {
    pub first: CommitId,
    pub second: CommitId,
    /// How many descendants were rebased.
    pub num_rebased: usize,
    pub warning: Option<SplitWarning>,
    /// The split commit and each rebased descendant, with its replacement.
    pub rewritten: Rewrites,
    /// The new commits that have a conflict where the commit they stand for
    /// had none.
    pub new_conflicts: Vec<CommitId>,
}

/// The two commits that a split writes, and the warning that goes with them.
pub(crate) struct SplitParts {
    pub first: CommitId,
    pub second: CommitId,
    pub warning: Option<SplitWarning>,
}

/// A commit may not be rewritten if it is the root or is reached from one of
/// the immutable heads.
pub open spec fn is_immutable(s: StoreView, immutable_heads: Seq<CommitId>, id: CommitId) -> bool {
    id.0 == 0 || live(s, immutable_heads, id.0 as int)
}

/// Why the commit cannot be split, if it cannot. Each test is made before
/// anything is written.
pub open spec fn split_fault(r: RepoView, immutable_heads: Seq<CommitId>, target: CommitId)
    -> Option<SplitError> {
    if !r.is_live(target) {
        Some(SplitError::NoSuchRevision)
    } else if r.store.is_empty_commit(target) {
        Some(SplitError::EmptyCommit)
    } else if is_immutable(r.store, immutable_heads, target) {
        Some(SplitError::Immutable)
    } else {
        None
    }
}

/// The replacement has a conflict and the commit it stands for had none.
pub open spec fn newly_conflicted(s: StoreView, before: CommitId, after: CommitId) -> bool {
    !has_conflict_map(s.trees[s.commits[before.0 as int].tree.0 as int]) && has_conflict_map(
        s.trees[s.commits[after.0 as int].tree.0 as int],
    )
}

/// The commit is one of those that a split has to warn of: one of the two
/// parts, or the replacement of a rewritten commit, with a new conflict.
pub open spec fn conflict_among(
    s: StoreView,
    m: Map<CommitId, CommitId>,
    target: CommitId,
    first: CommitId,
    second: CommitId,
    id: CommitId,
) -> bool {
    ||| id == first && newly_conflicted(s, target, first)
    ||| id == second && newly_conflicted(s, target, second)
    ||| exists|d: CommitId| m.contains_key(d) && #[trigger] m[d] == id && newly_conflicted(s, d, id)
}

/// The store has room for two trees and two commits.
pub open spec fn parts_room(s: StoreView) -> bool {
    s.trees.len() + 2 <= s.capacity + 1 && s.commits.len() + 2 <= s.capacity + 1
}

/// The repository has room for whatever a split of the commit may write:
/// two trees and two commits, a tree and a commit for each descendant, and
/// one operation.
pub open spec fn split_room(r: RepoView, target: CommitId) -> bool {
    let n = rebase_set(r.store, r.refs.heads, seq![target]).len();
    &&& r.store.trees.len() + n + 2 <= r.store.capacity + 1
    &&& r.store.commits.len() + n + 2 <= r.store.capacity + 1
    &&& r.operations.len() < r.store.capacity
}

/// The description under which a split is committed.
pub open spec fn operation_text(target: CommitId) -> Seq<char> {
    "split commit "@ + hex_of(target.0 as nat, 16)
}

pub open spec fn warning_for(selected: TreeMap, end: TreeMap, base: TreeMap) -> Option<
    SplitWarning,
> {
    if selected == end {
        Some(SplitWarning::AllSelected)
    } else if selected == base {
        Some(SplitWarning::NoneSelected)
    } else {
        None
    }
}

/// The two commits of a split stand in the store `s`, which grew out of `s0`.
///
/// The first has the target's parents and change id, the description
/// entered for it and the selected tree. The second is written after it and
/// has a change id that no commit of `s0` has; in sequence it is a child of the first with the
/// target's tree, in parallel a child of the target's parents with the
/// changes that were not selected. Its description is the one entered, but
/// empty if the target had none.
pub open spec fn parts_written(
    s0: StoreView,
    s: StoreView,
    target: CommitId,
    selected: TreeMap,
    first_description: Seq<char>,
    second_description: Seq<char>,
    parallel: bool,
    first: CommitId,
    second: CommitId,
) -> bool {
    let c = s0.commits[target.0 as int];
    let end = s0.trees[c.tree.0 as int];
    let base = s0.trees[s0.parent_tree(target).0 as int];
    let f = s.commits[first.0 as int];
    let g = s.commits[second.0 as int];
    &&& s.has_commit(first)
    &&& s.has_commit(second)
    &&& f.parents == c.parents
    &&& f.change_id == c.change_id
    &&& f.description == first_description
    &&& s.has_tree(f.tree)
    &&& s.trees[f.tree.0 as int] == selected
    &&& g.parents == (if parallel {
        c.parents
    } else {
        seq![first]
    })
    &&& g.change_id.0 == second.0
    &&& second.0 >= s0.commits.len()
    &&& first.0 < second.0
    &&& g.description == (if c.description.len() == 0 {
        Seq::<char>::empty()
    } else {
        second_description
    })
    &&& s.has_tree(g.tree)
    &&& s.trees[g.tree.0 as int] == (if parallel {
        complement_map(end, selected, base)
    } else {
        end
    })
}

/// A split of `target` has taken the repository from `before` to `after`.
pub open spec fn split_done(
    before: RepoView,
    after: RepoView,
    legacy: bool,
    target: CommitId,
    selected: TreeMap,
    first_description: Seq<char>,
    second_description: Seq<char>,
    parallel: bool,
    summary: SplitSummary,
) -> bool {
    let s0 = before.store;
    let s = after.store;
    let c = s0.commits[target.0 as int];
    let policy = RemapPolicy::of(parallel, legacy);
    let m = summary.rewritten@;
    let set = rebase_set(s0, before.refs.heads, seq![target]);
    &&& s.extends(s0)
    &&& parts_written(
        s0,
        s,
        target,
        selected,
        first_description,
        second_description,
        parallel,
        summary.first,
        summary.second,
    )
    &&& summary.warning == warning_for(
        selected,
        s0.trees[c.tree.0 as int],
        s0.trees[s0.parent_tree(target).0 as int],
    )
    &&& rewritten_to(m, target) == (if legacy {
        summary.second
    } else {
        summary.first
    })
    &&& summary.num_rebased == set.len()
    &&& forall|x: CommitId| m.contains_key(x) ==> x == target || set.contains(x)
    &&& forall|d: CommitId| #[trigger]
        set.contains(d) ==> rebased_ok(s0, s, m, policy, summary.first, summary.second, d)
    &&& after.refs == followed(before.refs, m, policy, target, summary.first, summary.second)
    &&& after.operations == before.operations.push(operation_text(target))
    &&& forall|id: CommitId|
        summary.new_conflicts@.contains(id) == conflict_among(
            s,
            m,
            target,
            summary.first,
            summary.second,
            id,
        )
}

/// What was written stays written when the store grows.
pub proof fn lemma_parts_stable(
    s0: StoreView,
    s: StoreView,
    t: StoreView,
    target: CommitId,
    selected: TreeMap,
    first_description: Seq<char>,
    second_description: Seq<char>,
    parallel: bool,
    first: CommitId,
    second: CommitId,
)
    requires
        t.extends(s),
        parts_written(
            s0,
            s,
            target,
            selected,
            first_description,
            second_description,
            parallel,
            first,
            second,
        ),
    ensures
        parts_written(
            s0,
            t,
            target,
            selected,
            first_description,
            second_description,
            parallel,
            first,
            second,
        ),
{
    assert(t.commits[first.0 as int] == s.commits[first.0 as int]);
    assert(t.commits[second.0 as int] == s.commits[second.0 as int]);
    assert(t.trees[s.commits[first.0 as int].tree.0 as int] == s.trees[s.commits[first.0 as int].tree.0 as int]);
    assert(t.trees[s.commits[second.0 as int].tree.0 as int] == s.trees[s.commits[second.0 as int].tree.0 as int]);
}

/// Whether the commit may not be rewritten.
pub fn check_immutable(store: &Store, immutable_heads: &Vec<CommitId>, id: CommitId) -> (r: bool)
    requires
        store.wf(),
    ensures
        r == is_immutable(store@, immutable_heads@, id),
{
    if id.0 == 0 {
        return true;
    }
    if !store.has_commit(id) {
        return false;
    }
    let marks = mark_live(store, immutable_heads);
    marks[id.0]
}

/// Why the commit cannot be split, if it cannot.
pub fn check_split(repo: &Repo, immutable_heads: &Vec<CommitId>, target: CommitId) -> (r: Option<
    SplitError,
>)
    requires
        repo.wf(),
    ensures
        r == split_fault(repo@, immutable_heads@, target),
{
    if !repo.is_live(target) {
        return Some(SplitError::NoSuchRevision);
    }
    if repo.store().is_empty_commit(target) {
        return Some(SplitError::EmptyCommit);
    }
    if check_immutable(repo.store(), immutable_heads, target) {
        return Some(SplitError::Immutable);
    }
    None
}

/// Writes the two commits of a split.
pub(crate) fn write_parts(
    store: &mut Store,
    target: CommitId,
    selected: Tree,
    first_description: String,
    second_description: String,
    parallel: bool,
) -> (r: Result<SplitParts, StoreError>)
    requires
        old(store).wf(),
        old(store)@.has_commit(target),
        target.0 > 0,
        selected.wf(),
    ensures
        final(store).wf(),
        final(store)@.extends(old(store)@),
        final(store)@.trees.len() <= old(store)@.trees.len() + 2,
        final(store)@.commits.len() <= old(store)@.commits.len() + 2,
        r matches Err(e) ==> e == StoreError::Full,
        parts_room(old(store)@) ==> r is Ok,
        r matches Ok(parts) ==> parts_written(
            old(store)@,
            final(store)@,
            target,
            selected@,
            first_description@,
            second_description@,
            parallel,
            parts.first,
            parts.second,
        ) && parts.warning == warning_for(
            selected@,
            old(store)@.trees[old(store)@.commits[target.0 as int].tree.0 as int],
            old(store)@.trees[old(store)@.parent_tree(target).0 as int],
        ),
{
    let ghost s0 = store@;
    let ghost c = s0.commits[target.0 as int];
    let ghost chosen = selected@;
    let ghost d1 = first_description@;
    let ghost d2 = second_description@;
    let commit = store.commit(target);
    let end = commit.tree;
    let parents = copy_ids(&commit.parents);
    let described = !commit.description.as_str().is_empty();
    let base = store.parent_tree(target);
    proof {
        assert(s0.commit_ok(target.0 as int));
        lemma_tree_written(s0, chosen);
    }
    let sel = match store.write_tree(selected) {
        Ok(t) => t,
        Err(e) => {
            return Err(e);
        },
    };
    let ghost s1 = store@;
    let warning = if sel == end {
        Some(SplitWarning::AllSelected)
    } else if sel == base {
        Some(SplitWarning::NoneSelected)
    } else {
        None
    };
    proof {
        assert(s1.trees[end.0 as int] == s0.trees[end.0 as int]);
        assert(s1.trees[base.0 as int] == s0.trees[base.0 as int]);
        lemma_tree_ids(s1, sel, end);
        lemma_tree_ids(s1, sel, base);
        assert(s1.commits[target.0 as int] == c);
        assert forall|k: int| 0 <= k < c.parents.len() implies s1.has_commit(
            #[trigger] c.parents[k],
        ) by {}
        lemma_commit_written(s1, c.parents, sel, Some(c.change_id), d1);
    }
    let first = match rewrite(store, target, None, Some(sel), Some(first_description), false) {
        Ok(id) => id,
        Err(e) => {
            proof {
                lemma_extends_trans(s0, s1, store@);
            }
            return Err(e);
        },
    };
    let ghost s2 = store@;
    proof {
        lemma_extends_trans(s0, s1, s2);
        assert(s2.trees[end.0 as int] == s0.trees[end.0 as int]);
        assert(s2.trees[base.0 as int] == s0.trees[base.0 as int]);
        assert(s2.trees[sel.0 as int] == chosen);
        lemma_tree_written(s2, complement_map(s0.trees[end.0 as int], chosen, s0.trees[base.0 as int]));
    }
    let second_tree = if parallel {
        match store.merge_trees(end, base, sel) {
            Ok(t) => t,
            Err(e) => {
                proof {
                    lemma_extends_trans(s0, s2, store@);
                }
                return Err(e);
            },
        }
    } else {
        end
    };
    let ghost s3 = store@;
    let mut second_parents: Vec<CommitId> = Vec::new();
    if parallel {
        second_parents = parents;
    } else {
        second_parents.push(first);
        assert(second_parents@ =~= seq![first]);
    }
    let second_text = if described {
        second_description
    } else {
        String::new()
    };
    proof {
        lemma_extends_trans(s0, s2, s3);
        assert(s3.commits[target.0 as int] == c);
        assert(s3.commits[first.0 as int] == s2.commits[first.0 as int]);
        assert forall|k: int| 0 <= k < second_parents@.len() implies s3.has_commit(
            #[trigger] second_parents@[k],
        ) by {
            if parallel {
                assert(c.parents[k].0 < target.0);
            }
        }
        lemma_commit_written(s3, second_parents@, second_tree, None, second_text@);
    }
    let second = match rewrite(
        store,
        target,
        Some(second_parents),
        Some(second_tree),
        Some(second_text),
        true,
    ) {
        Ok(id) => id,
        Err(e) => {
            proof {
                lemma_extends_trans(s0, s3, store@);
            }
            return Err(e);
        },
    };
    proof {
        let s4 = store@;
        lemma_extends_trans(s0, s3, s4);
        assert(s4.commits[first.0 as int] == s2.commits[first.0 as int]);
        assert(s4.trees[sel.0 as int] == chosen);
        assert(s4.trees[second_tree.0 as int] == s3.trees[second_tree.0 as int]);
    }
    Ok(SplitParts { first, second, warning })
}

/// Whether the replacement has a conflict and the commit it stands for had none.
pub fn is_newly_conflicted(store: &Store, before: CommitId, after: CommitId) -> (r: bool)
    requires
        store.wf(),
        store@.has_commit(before),
        store@.has_commit(after),
    ensures
        r == newly_conflicted(store@, before, after),
{
    assert(store@.commit_ok(before.0 as int));
    assert(store@.commit_ok(after.0 as int));
    !store.tree(store.commit(before).tree).has_conflict() && store.tree(
        store.commit(after).tree,
    ).has_conflict()
}

/// The new commits of a split that the user has to be warned of.
pub(crate) fn collect_conflicts(
    store: &Store,
    rewrites: &Rewrites,
    target: CommitId,
    first: CommitId,
    second: CommitId,
) -> (out: Vec<CommitId>)
    requires
        store.wf(),
        rewrites.wf(),
        rewrites_valid(store@, rewrites@),
        forall|k: CommitId| rewrites@.contains_key(k) ==> store@.has_commit(k),
        store@.has_commit(target),
        store@.has_commit(first),
        store@.has_commit(second),
    ensures
        forall|id: CommitId|
            out@.contains(id) == conflict_among(store@, rewrites@, target, first, second, id),
{
    let ghost s = store@;
    let ghost m = rewrites@;
    let mut out: Vec<CommitId> = Vec::new();
    if is_newly_conflicted(store, target, first) {
        out.push(first);
    }
    if is_newly_conflicted(store, target, second) && !is_listed(&out, second) {
        out.push(second);
    }
    proof {
        rewrites.lemma_entries();
        assert forall|id: CommitId|
            out@.contains(id) == ((id == first && newly_conflicted(s, target, first)) || (id
                == second && newly_conflicted(s, target, second))) by {
            if out@.contains(id) {
                let j = out@.index_of(id);
                assert(out@[j] == id);
            }
            if id == first && newly_conflicted(s, target, first) {
                assert(out@[0] == id);
            }
            if id == second && newly_conflicted(s, target, second) {
                if out@.len() == 2 {
                    assert(out@[1] == id);
                } else {
                    assert(out@[0] == id);
                }
            }
        }
    }
    let n = rewrites.len();
    let mut i: usize = 0;
    while i < n
        invariant
            i <= n,
            s == store@,
            m == rewrites@,
            store.wf(),
            rewrites.wf(),
            n == rewrites.sources().len(),
            n == rewrites.targets().len(),
            rewrites_valid(s, m),
            forall|k: CommitId| m.contains_key(k) ==> s.has_commit(k),
            forall|j: int|
                0 <= j < n ==> m.contains_key(#[trigger] rewrites.sources()[j])
                    && m[rewrites.sources()[j]] == rewrites.targets()[j],
            forall|id: CommitId|
                out@.contains(id) == ((id == first && newly_conflicted(s, target, first)) || (id
                    == second && newly_conflicted(s, target, second)) || exists|j: int|
                    0 <= j < i && #[trigger] rewrites.targets()[j] == id && newly_conflicted(
                        s,
                        rewrites.sources()[j],
                        id,
                    )),
        decreases n - i,
    {
        let before = rewrites.source_at(i);
        let after = rewrites.target_at(i);
        let ghost listed = out@;
        assert(m.contains_key(rewrites.sources()[i as int]));
        assert(s.has_commit(m[before]));
        let add = is_newly_conflicted(store, before, after) && !is_listed(&out, after);
        if add {
            out.push(after);
        }
        proof {
            assert forall|id: CommitId|
                out@.contains(id) == ((id == first && newly_conflicted(s, target, first)) || (id
                    == second && newly_conflicted(s, target, second)) || exists|j: int|
                    0 <= j < i + 1 && #[trigger] rewrites.targets()[j] == id && newly_conflicted(
                        s,
                        rewrites.sources()[j],
                        id,
                    )) by {
                let earlier = exists|j: int|
                    0 <= j < i && #[trigger] rewrites.targets()[j] == id && newly_conflicted(
                        s,
                        rewrites.sources()[j],
                        id,
                    );
                let now = exists|j: int|
                    0 <= j < i + 1 && #[trigger] rewrites.targets()[j] == id && newly_conflicted(
                        s,
                        rewrites.sources()[j],
                        id,
                    );
                if earlier {
                    let j = choose|j: int|
                        0 <= j < i && #[trigger] rewrites.targets()[j] == id && newly_conflicted(
                            s,
                            rewrites.sources()[j],
                            id,
                        );
                    assert(0 <= j < i + 1 && rewrites.targets()[j] == id);
                }
                if now && !earlier {
                    let j = choose|j: int|
                        0 <= j < i + 1 && #[trigger] rewrites.targets()[j] == id
                            && newly_conflicted(s, rewrites.sources()[j], id);
                    assert(j == i);
                }
                if id == after && newly_conflicted(s, before, after) {
                    assert(rewrites.targets()[i as int] == id);
                }
                if listed.contains(id) {
                    let x = listed.index_of(id);
                    assert(out@[x] == id);
                }
                if out@.contains(id) {
                    let x = out@.index_of(id);
                    if x < listed.len() {
                        assert(listed[x] == id);
                    }
                }
                if add && id == after {
                    assert(out@[listed.len() as int] == id);
                }
            }
        }
        i += 1;
    }
    proof {
        assert forall|id: CommitId|
            out@.contains(id) == conflict_among(s, m, target, first, second, id) by {
            let by_index = exists|j: int|
                0 <= j < n && #[trigger] rewrites.targets()[j] == id && newly_conflicted(
                    s,
                    rewrites.sources()[j],
                    id,
                );
            let by_key = exists|d: CommitId|
                m.contains_key(d) && #[trigger] m[d] == id && newly_conflicted(s, d, id);
            if by_index {
                let j = choose|j: int|
                    0 <= j < n && #[trigger] rewrites.targets()[j] == id && newly_conflicted(
                        s,
                        rewrites.sources()[j],
                        id,
                    );
                let d = rewrites.sources()[j];
                assert(m.contains_key(d) && m[d] == id);
            }
            if by_key {
                let d = choose|d: CommitId|
                    m.contains_key(d) && #[trigger] m[d] == id && newly_conflicted(s, d, id);
                assert(rewrites.sources().contains(d));
                let j = rewrites.sources().index_of(d);
                assert(rewrites.sources()[j] == d);
                assert(rewrites.targets()[j] == id);
            }
        }
    }
    out
}

/// Writes the two commits of a split, rebases the descendants of the split
/// commit, and lets the view follow.
pub(crate) fn apply_split(
    store: &mut Store,
    refs: &mut Refs,
    legacy: bool,
    target: CommitId,
    selected: Tree,
    first_description: String,
    second_description: String,
    parallel: bool,
) -> (r: Result<SplitSummary, StoreError>)
    requires
        old(store).wf(),
        old(refs).wf(),
        old(refs)@.valid_in(old(store)@),
        old(store)@.has_commit(target),
        target.0 > 0,
        selected.wf(),
    ensures
        final(store).wf(),
        final(store)@.extends(old(store)@),
        final(refs).wf(),
        final(refs)@.valid_in(final(store)@),
        r matches Err(e) ==> e == StoreError::Full && !split_room(
            RepoView { store: old(store)@, refs: old(refs)@, operations: Seq::empty() },
            target,
        ),
        r matches Ok(summary) ==> summary.rewritten.wf() && split_done(
            RepoView { store: old(store)@, refs: old(refs)@, operations: Seq::empty() },
            RepoView {
                store: final(store)@,
                refs: final(refs)@,
                operations: seq![operation_text(target)],
            },
            legacy,
            target,
            selected@,
            first_description@,
            second_description@,
            parallel,
            summary,
        ),
{
    let ghost s0 = store@;
    let ghost r0 = refs@;
    let ghost chosen = selected@;
    let ghost d1 = first_description@;
    let ghost d2 = second_description@;
    let ghost set = rebase_set(s0, r0.heads, seq![target]);
    let parts = match write_parts(
        store,
        target,
        selected,
        first_description,
        second_description,
        parallel,
    ) {
        Ok(p) => p,
        Err(e) => {
            proof {
                lemma_refs_valid_extends(r0, s0, store@);
            }
            return Err(e);
        },
    };
    let first = parts.first;
    let second = parts.second;
    let ghost s1 = store@;
    let mut rewrites = Rewrites::new();
    if first != target {
        rewrites.set(target, first);
    }
    if legacy {
        rewrites.set(target, second);
    }
    let ghost m1 = rewrites@;
    let policy = RemapPolicy::for_flags(parallel, legacy);
    let mut roots: Vec<CommitId> = Vec::new();
    roots.push(target);
    proof {
        assert(roots@ =~= seq![target]);
        lemma_refs_valid_extends(r0, s0, s1);
        lemma_rebase_set_extends(s0, s1, r0.heads, roots@);
        assert(rewritten_to(m1, target) == (if legacy {
            second
        } else {
            first
        }));
    }
    let count = match transform_descendants(
        store,
        &refs.heads,
        &mut rewrites,
        &roots,
        policy,
        first,
        second,
    ) {
        Ok(n) => n,
        Err(e) => {
            proof {
                lemma_extends_trans(s0, s1, store@);
                lemma_refs_valid_extends(r0, s0, store@);
            }
            return Err(e);
        },
    };
    proof {
        let s = store@;
        let m = rewrites@;
        lemma_extends_trans(s0, s1, s);
        lemma_refs_valid_extends(r0, s0, s);
        lemma_parts_stable(s0, s1, s, target, chosen, d1, d2, parallel, first, second);
        lemma_followed_valid(r0, s, m, policy, target, first, second);
        assert(!set.contains(target)) by {
            assert(roots@[0] == target);
        }
        assert forall|d: CommitId| #[trigger] set.contains(d) implies rebased_ok(
            s0,
            s,
            m,
            policy,
            first,
            second,
            d,
        ) by {
            assert(rebased_ok(s1, s, m, policy, first, second, d));
            assert(live(s0, r0.heads, d.0 as int));
            assert(s1.commits[d.0 as int] == s0.commits[d.0 as int]);
        }
        assert(s.has_commit(first) && s.has_commit(second));
    }
    refs.follow(&rewrites, policy, target, first, second);
    assert(seq![operation_text(target)] =~= Seq::<Seq<char>>::empty().push(
        operation_text(target),
    ));
    proof {
        assert forall|k: CommitId| rewrites@.contains_key(k) implies store@.has_commit(k) by {
            if k != target {
                assert(set.contains(k));
                assert(live(s0, r0.heads, k.0 as int));
            }
        }
    }
    let new_conflicts = collect_conflicts(store, &rewrites, target, first, second);
    Ok(
        SplitSummary {
            first,
            second,
            num_rebased: count,
            warning: parts.warning,
            rewritten: rewrites,
            new_conflicts,
        },
    )
}

/// The description under which a split is committed.
pub fn operation_description(target: CommitId) -> (s: String)
    ensures
        s@ == operation_text(target),
{
    let mut s = String::from_str("split commit ");
    push_hex(&mut s, target.0, 16);
    s
}

/// Splits a commit in two and repairs everything that the split touches.
///
/// `selected` is the tree of the first commit: the target's parent tree with
/// the chosen part of the target's change. What `split_done` says is done in
/// one transaction: where the split fails the repository comes back as it
/// was given.
pub fn split(
    repo: Repo,
    immutable_heads: &Vec<CommitId>,
    legacy_bookmark_behavior: bool,
    target: CommitId,
    selected: Tree,
    first_description: String,
    second_description: String,
    parallel: bool,
) -> (out: (Repo, Result<SplitSummary, SplitError>))
    requires
        repo.wf(),
        selected.wf(),
    ensures
        out.0.wf(),
        split_fault(repo@, immutable_heads@, target) matches Some(e) ==> out.1 matches Err(x)
            && x == e,
        out.1 matches Err(e) ==> out.0@ == repo@ && (split_fault(
            repo@,
            immutable_heads@,
            target,
        ) == Some(e) || (split_fault(repo@, immutable_heads@, target) is None && e
            == SplitError::Store(StoreError::Full) && !split_room(repo@, target))),
        split_fault(repo@, immutable_heads@, target) is None && split_room(repo@, target)
            ==> out.1 is Ok,
        out.1 matches Ok(summary) ==> split_fault(repo@, immutable_heads@, target) is None
            && summary.rewritten.wf() && split_done(
            repo@,
            out.0@,
            legacy_bookmark_behavior,
            target,
            selected@,
            first_description@,
            second_description@,
            parallel,
            summary,
        ),
{
    match check_split(&repo, immutable_heads, target) {
        Some(e) => {
            return (repo, Err(e));
        },
        None => {},
    }
    let ghost before = repo@;
    let mut tx = Transaction::start(repo);
    let r = apply_split(
        &mut tx.store,
        &mut tx.refs,
        legacy_bookmark_behavior,
        target,
        selected,
        first_description,
        second_description,
        parallel,
    );
    proof {
        lemma_prefix_extends(before.store, tx.store@, tx.base_trees as int, tx.base_commits as int);
        assert(tx.base() == before);
    }
    match r {
        Err(e) => {
            let repo = tx.abort();
            (repo, Err(SplitError::Store(e)))
        },
        Ok(summary) => {
            let (repo, done) = tx.finish(operation_description(target));
            match done {
                Ok(()) => (repo, Ok(summary)),
                Err(e) => (repo, Err(SplitError::Store(e))),
            }
        },
    }
}

/// With the whole change selected, the first commit has the target's tree,
/// the second commit is empty, and the warning says so.
pub proof fn lemma_all_selected(
    before: RepoView,
    after: RepoView,
    legacy: bool,
    target: CommitId,
    selected: TreeMap,
    first_description: Seq<char>,
    second_description: Seq<char>,
    parallel: bool,
    summary: SplitSummary,
)
    requires
        before.wf(),
        after.wf(),
        before.store.has_commit(target),
        !before.store.is_empty_commit(target),
        split_done(
            before,
            after,
            legacy,
            target,
            selected,
            first_description,
            second_description,
            parallel,
            summary,
        ),
        selected == before.store.trees[before.store.commits[target.0 as int].tree.0 as int],
    ensures
        after.store.commits[summary.first.0 as int].tree
            == before.store.commits[target.0 as int].tree,
        after.store.is_empty_commit(summary.second),
        summary.warning == Some(SplitWarning::AllSelected),
{
    let s0 = before.store;
    let s = after.store;
    let c = s0.commits[target.0 as int];
    let f = s.commits[summary.first.0 as int];
    let g = s.commits[summary.second.0 as int];
    let base_id = s0.parent_tree(target);
    assert(target.0 > 0) by {
        if target.0 == 0 {
            assert(s0.commits[0] == crate::store::root_view());
        }
    }
    assert(s0.commit_ok(target.0 as int));
    assert(s0.commit_ok(c.parents[0].0 as int));
    assert(s.commits[c.parents[0].0 as int] == s0.commits[c.parents[0].0 as int]);
    assert(s.trees[c.tree.0 as int] == s0.trees[c.tree.0 as int]);
    assert(s.trees[base_id.0 as int] == s0.trees[base_id.0 as int]);
    lemma_tree_ids(s, f.tree, c.tree);
    lemma_complement_edges(s0.trees[c.tree.0 as int], s0.trees[base_id.0 as int]);
    if parallel {
        lemma_tree_ids(s, g.tree, base_id);
    } else {
        assert(g.parents[0] == summary.first);
        lemma_tree_ids(s, g.tree, f.tree);
    }
}

/// With nothing selected, the first commit is empty, the second commit has
/// the target's tree, and the warning says so.
pub proof fn lemma_none_selected(
    before: RepoView,
    after: RepoView,
    legacy: bool,
    target: CommitId,
    selected: TreeMap,
    first_description: Seq<char>,
    second_description: Seq<char>,
    parallel: bool,
    summary: SplitSummary,
)
    requires
        before.wf(),
        after.wf(),
        before.store.has_commit(target),
        !before.store.is_empty_commit(target),
        split_done(
            before,
            after,
            legacy,
            target,
            selected,
            first_description,
            second_description,
            parallel,
            summary,
        ),
        selected == before.store.trees[before.store.parent_tree(target).0 as int],
    ensures
        after.store.is_empty_commit(summary.first),
        after.store.commits[summary.second.0 as int].tree
            == before.store.commits[target.0 as int].tree,
        summary.warning == Some(SplitWarning::NoneSelected),
{
    let s0 = before.store;
    let s = after.store;
    let c = s0.commits[target.0 as int];
    let f = s.commits[summary.first.0 as int];
    let g = s.commits[summary.second.0 as int];
    let base_id = s0.parent_tree(target);
    assert(target.0 > 0) by {
        if target.0 == 0 {
            assert(s0.commits[0] == crate::store::root_view());
        }
    }
    assert(s0.commit_ok(target.0 as int));
    assert(s0.commit_ok(c.parents[0].0 as int));
    assert(s.commits[c.parents[0].0 as int] == s0.commits[c.parents[0].0 as int]);
    assert(s.trees[c.tree.0 as int] == s0.trees[c.tree.0 as int]);
    assert(s.trees[base_id.0 as int] == s0.trees[base_id.0 as int]);
    lemma_tree_ids(s0, c.tree, base_id);
    lemma_tree_ids(s, f.tree, base_id);
    lemma_complement_edges(s0.trees[c.tree.0 as int], s0.trees[base_id.0 as int]);
    lemma_tree_ids(s, g.tree, c.tree);
}

/// The second commit has a change id that no commit had before the split;
/// so the two commits of a split never share one.
pub proof fn lemma_no_divergence(
    before: RepoView,
    after: RepoView,
    legacy: bool,
    target: CommitId,
    selected: TreeMap,
    first_description: Seq<char>,
    second_description: Seq<char>,
    parallel: bool,
    summary: SplitSummary,
)
    requires
        before.wf(),
        before.store.has_commit(target),
        split_done(
            before,
            after,
            legacy,
            target,
            selected,
            first_description,
            second_description,
            parallel,
            summary,
        ),
    ensures
        after.store.commits[summary.first.0 as int].change_id
            != after.store.commits[summary.second.0 as int].change_id,
        forall|i: int|
            0 <= i < before.store.commits.len() ==> (#[trigger] before.store.commits[i]).change_id
                != after.store.commits[summary.second.0 as int].change_id,
{
    let s0 = before.store;
    assert(s0.commit_ok(target.0 as int));
    assert forall|i: int| 0 <= i < s0.commits.len() implies (#[trigger] s0.commits[i]).change_id
        != after.store.commits[summary.second.0 as int].change_id by {
        assert(s0.commit_ok(i));
    }
}

/// In sequence, the first commit's change applied to the target's parent
/// tree, and then the second commit's change, give the target's tree.
pub proof fn lemma_round_trip(
    before: RepoView,
    after: RepoView,
    legacy: bool,
    target: CommitId,
    selected: TreeMap,
    first_description: Seq<char>,
    second_description: Seq<char>,
    summary: SplitSummary,
)
    requires
        split_done(
            before,
            after,
            legacy,
            target,
            selected,
            first_description,
            second_description,
            false,
            summary,
        ),
    ensures
        ({
            let s = after.store;
            let base = before.store.trees[before.store.parent_tree(target).0 as int];
            let end = before.store.trees[before.store.commits[target.0 as int].tree.0 as int];
            let first_tree = s.trees[s.commits[summary.first.0 as int].tree.0 as int];
            let second_tree = s.trees[s.commits[summary.second.0 as int].tree.0 as int];
            &&& s.commits[summary.second.0 as int].parents == seq![summary.first]
            &&& second_tree == end
            &&& crate::tree::merge_maps(
                crate::tree::merge_maps(base, first_tree, base),
                second_tree,
                first_tree,
            ) == end
        }),
{
    let base = before.store.trees[before.store.parent_tree(target).0 as int];
    let end = before.store.trees[before.store.commits[target.0 as int].tree.0 as int];
    crate::tree::lemma_sequential_round_trip(base, selected, end);
}

/// A child of the split commit keeps its tree: in sequence always, and in
/// parallel where the split commit has one parent and the selection lies
/// between that parent's tree and the commit's own.
pub proof fn lemma_child_keeps_tree(
    before: RepoView,
    after: RepoView,
    legacy: bool,
    target: CommitId,
    selected: TreeMap,
    first_description: Seq<char>,
    second_description: Seq<char>,
    parallel: bool,
    summary: SplitSummary,
    child: CommitId,
)
    requires
        before.wf(),
        after.wf(),
        before.store.has_commit(target),
        split_done(
            before,
            after,
            legacy,
            target,
            selected,
            first_description,
            second_description,
            parallel,
            summary,
        ),
        rebase_set(before.store, before.refs.heads, seq![target]).contains(child),
        before.store.commits[child.0 as int].parents == seq![target],
        parallel ==> before.store.commits[target.0 as int].parents.len() == 1 && between(
            before.store.trees[before.store.parent_tree(target).0 as int],
            selected,
            before.store.tree_of(target),
        ),
    ensures
        summary.rewritten@.contains_key(child),
        after.store.tree_of(summary.rewritten@[child]) == before.store.tree_of(child),
        after.store.commits[summary.rewritten@[child].0 as int].tree
            == before.store.commits[child.0 as int].tree,
{
    let s0 = before.store;
    let s = after.store;
    let c = s0.commits[target.0 as int];
    let m = summary.rewritten@;
    let first = summary.first;
    let second = summary.second;
    let policy = RemapPolicy::of(parallel, legacy);
    let end = s0.tree_of(target);
    let base = s0.trees[s0.parent_tree(target).0 as int];
    let n = s.commits.len() as int;
    assert(s0.commit_ok(target.0 as int));
    assert(live(s0, before.refs.heads, child.0 as int));
    assert(s0.commit_ok(child.0 as int));
    assert(s.commits[child.0 as int] == s0.commits[child.0 as int]);
    assert(s.commits[target.0 as int] == c);
    assert(s.trees[c.tree.0 as int] == s0.trees[c.tree.0 as int]);
    assert(s.trees[s0.commits[child.0 as int].tree.0 as int] == s0.tree_of(child));
    assert(first != second);
    lemma_policy_table(target, m, legacy, first, second);
    let np = remapped(seq![target], m, policy, first, second);
    assert(rebased_ok(s0, s, m, policy, first, second, child));
    reveal_with_fuel(StoreView::merged, 3);
    assert(s.merged(seq![target], child.0 as int) == end);
    if parallel {
        assert(np == seq![first, second]);
        assert(np[1] == second);
        assert(np != seq![target]);
        let p = c.parents[0];
        assert(c.parents =~= seq![p]);
        assert(s0.commit_ok(p.0 as int));
        assert(s.commits[p.0 as int] == s0.commits[p.0 as int]);
        assert(s.tree_of(p) == base);
        assert(seq![first, second].drop_last() =~= seq![first]);
        assert(s.merged(seq![first], n) == s.tree_of(first));
        assert(s.merged(c.parents, second.0 as int) == base);
        lemma_parallel_partition(base, selected, end);
        assert(s.merged(np, n) == end);
    } else {
        assert(np == seq![second]);
        assert(np[0] == second);
        assert(np != seq![target]);
        assert(s.merged(np, n) == end);
    }
    lemma_merge_unchanged(s0.tree_of(child), end);
    assert(s.commit_ok(m[child].0 as int));
    lemma_tree_ids(s, s.commits[m[child].0 as int].tree, s0.commits[child.0 as int].tree);
}

/// Where the split commit may be rewritten, so may every descendant that
/// the cascade rewrites.
pub proof fn lemma_descendants_rewritable(
    s: StoreView,
    heads: Seq<CommitId>,
    immutable_heads: Seq<CommitId>,
    target: CommitId,
    d: CommitId,
)
    requires
        s.wf(),
        !is_immutable(s, immutable_heads, target),
        rebase_set(s, heads, seq![target]).contains(d),
    ensures
        !is_immutable(s, immutable_heads, d),
{
    lemma_descends_after_root(s, seq![target], d.0 as int);
    if live(s, immutable_heads, d.0 as int) {
        lemma_live_ancestor(s, immutable_heads, target, d.0 as int);
    }
}

/// Pointers that named commits of a store name commits of any store that
/// grew out of it.
pub proof fn lemma_refs_valid_extends(r: RefsView, s: StoreView, t: StoreView)
    requires
        r.valid_in(s),
        t.extends(s),
    ensures
        r.valid_in(t),
{
    assert forall|i: int| 0 <= i < r.heads.len() implies t.has_commit(#[trigger] r.heads[i]) by {
        assert(s.has_commit(r.heads[i]));
    }
    assert forall|k: Seq<char>| r.working_copies.contains_key(k) implies t.has_commit(
        #[trigger] r.working_copies[k],
    ) by {
        assert(s.has_commit(r.working_copies[k]));
    }
    assert forall|k: Seq<char>| r.bookmarks.contains_key(k) implies t.has_commit(
        #[trigger] r.bookmarks[k],
    ) by {
        assert(s.has_commit(r.bookmarks[k]));
    }
}

} // verus!
