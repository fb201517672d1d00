use crate::ids::{CommitId, TreeId};
use crate::store::{
    commit_fault, commit_written, copy_ids, ids_equal, lemma_commit_written, lemma_extends_trans,
    lemma_merged_bound, lemma_merged_extends, lemma_tree_written, tree_written, Store,
    StoreError, StoreView,
};
use crate::tree::{merge_maps, TreeMap};
use vstd::prelude::*;

verus! {

pub open spec fn ids_view(ids: Option<Vec<CommitId>>) -> Option<Seq<CommitId>> {
    match ids {
        Some(v) => Some(v@),
        None => None,
    }
}

pub open spec fn text_view(text: Option<String>) -> Option<Seq<char>> {
    match text {
        Some(t) => Some(t@),
        None => None,
    }
}

/// The store after a commit was rewritten, and the id of the replacement:
/// the source's parts, but for those given anew, and the source's change id
/// unless a fresh one is asked for.
pub open spec fn rewritten(
    s: StoreView,
    source: CommitId,
    parents: Option<Seq<CommitId>>,
    tree: Option<TreeId>,
    description: Option<Seq<char>>,
    fresh_change_id: bool,
) -> (StoreView, Result<CommitId, StoreError>) {
    if !s.has_commit(source) {
        (s, Err(StoreError::UnknownCommit))
    } else {
        let c = s.commits[source.0 as int];
        commit_written(
            s,
            match parents {
                Some(p) => p,
                None => c.parents,
            },
            match tree {
                Some(t) => t,
                None => c.tree,
            },
            if fresh_change_id {
                None
            } else {
                Some(c.change_id)
            },
            match description {
                Some(d) => d,
                None => c.description,
            },
        )
    }
}

/// The tree of a commit moved onto new parents. With the parents it had, its
/// tree stays. Otherwise its own change is carried over: its tree is merged
/// with the tree on which the new parents let it build, against the tree on
/// which it was built.
pub open spec fn rebased_tree_map(s: StoreView, child: CommitId, parents: Seq<CommitId>)
    -> TreeMap {
    let c = s.commits[child.0 as int];
    if parents == c.parents {
        s.trees[c.tree.0 as int]
    } else {
        merge_maps(
            s.trees[c.tree.0 as int],
            s.merged(parents, s.commits.len() as int),
            s.merged(c.parents, child.0 as int),
        )
    }
}

/// The store after a commit was moved onto new parents, and the id of the
/// moved commit.
pub open spec fn rebased(s: StoreView, child: CommitId, parents: Seq<CommitId>) -> (
    StoreView,
    Result<CommitId, StoreError>,
) {
    if !s.has_commit(child) {
        (s, Err(StoreError::UnknownCommit))
    } else {
        let c = s.commits[child.0 as int];
        match commit_fault(s, parents, c.tree, Some(c.change_id)) {
            Some(e) => (s, Err(e)),
            None => {
                let merged = if parents == c.parents {
                    (s, Ok(c.tree))
                } else {
                    tree_written(s, rebased_tree_map(s, child, parents))
                };
                match merged.1 {
                    Err(e) => (merged.0, Err(e)),
                    Ok(t) => commit_written(
                        merged.0,
                        parents,
                        t,
                        Some(c.change_id),
                        c.description,
                    ),
                }
            },
        }
    }
}

/// What a rebase computes does not change when the store grows.
pub proof fn lemma_rebased_tree_extends(
    s: StoreView,
    t: StoreView,
    child: CommitId,
    parents: Seq<CommitId>,
)
    requires
        s.wf(),
        t.wf(),
        t.extends(s),
        s.has_commit(child),
        forall|k: int| 0 <= k < parents.len() ==> s.has_commit(#[trigger] parents[k]),
    ensures
        rebased_tree_map(t, child, parents) == rebased_tree_map(s, child, parents),
{
    let c = s.commits[child.0 as int];
    assert(s.commit_ok(child.0 as int));
    assert(t.commits[child.0 as int] == c);
    assert(t.trees[c.tree.0 as int] == s.trees[c.tree.0 as int]);
    lemma_merged_bound(t, parents, s.commits.len() as int, t.commits.len() as int);
    lemma_merged_extends(s, t, parents, s.commits.len() as int);
    lemma_merged_extends(s, t, c.parents, child.0 as int);
}

/// A rebase keeps the store well formed and writes at most one tree and one
/// commit. The moved commit has the parents given, the child's change id and
/// description, and the tree that carries the child's change over. It fails
/// only on parts that the store does not hold, or for want of room.
pub proof fn lemma_rebased(s: StoreView, child: CommitId, parents: Seq<CommitId>)
    requires
        s.wf(),
    ensures
        rebased(s, child, parents).0.wf(),
        rebased(s, child, parents).0.extends(s),
        rebased(s, child, parents).0.commits.len() <= s.commits.len() + 1,
        rebased(s, child, parents).0.trees.len() <= s.trees.len() + 1,
        rebased(s, child, parents).1 matches Ok(id) ==> {
            let t = rebased(s, child, parents).0;
            let c = s.commits[child.0 as int];
            &&& s.has_commit(child)
            &&& t.has_commit(id)
            &&& t.commits[id.0 as int].parents == parents
            &&& t.commits[id.0 as int].change_id == c.change_id
            &&& t.commits[id.0 as int].description == c.description
            &&& t.has_tree(t.commits[id.0 as int].tree)
            &&& t.trees[t.commits[id.0 as int].tree.0 as int] == rebased_tree_map(
                t,
                child,
                parents,
            )
            &&& parents.len() > 0
            &&& forall|k: int| 0 <= k < parents.len() ==> s.has_commit(#[trigger] parents[k])
        },
        rebased(s, child, parents).1 matches Err(e) ==> e == StoreError::Full || (!s.has_commit(
            child,
        ) && e == StoreError::UnknownCommit) || (s.has_commit(child) && commit_fault(
            s,
            parents,
            s.commits[child.0 as int].tree,
            Some(s.commits[child.0 as int].change_id),
        ) == Some(e)),
        s.has_commit(child) && commit_fault(
            s,
            parents,
            s.commits[child.0 as int].tree,
            Some(s.commits[child.0 as int].change_id),
        ) is None && s.trees.len() <= s.capacity && s.commits.len() <= s.capacity ==> rebased(
            s,
            child,
            parents,
        ).1 is Ok,
{
    if s.has_commit(child) {
        let c = s.commits[child.0 as int];
        assert(s.commit_ok(child.0 as int));
        if commit_fault(s, parents, c.tree, Some(c.change_id)) is None {
            assert forall|k: int| 0 <= k < parents.len() implies s.has_commit(
                #[trigger] parents[k],
            ) by {}
            let m = rebased_tree_map(s, child, parents);
            let merged = if parents == c.parents {
                (s, Ok::<TreeId, StoreError>(c.tree))
            } else {
                tree_written(s, m)
            };
            if parents != c.parents {
                lemma_tree_written(s, m);
            }
            let s1 = merged.0;
            match merged.1 {
                Err(e) => {},
                Ok(t) => {
                    assert(s1.has_tree(t));
                    assert(s1.trees[t.0 as int] == m);
                    lemma_commit_written(s1, parents, t, Some(c.change_id), c.description);
                    assert(commit_fault(s1, parents, t, Some(c.change_id)) is None) by {
                        assert forall|k: int| 0 <= k < parents.len() implies s1.has_commit(
                            #[trigger] parents[k],
                        ) by {
                            assert(s.has_commit(parents[k]));
                        }
                    }
                    let t2 = commit_written(s1, parents, t, Some(c.change_id), c.description).0;
                    lemma_extends_trans(s, s1, t2);
                    lemma_rebased_tree_extends(s, t2, child, parents);
                },
            }
        }
    }
}

/// Writes a replacement for a commit: the source's parts, but for those
/// given anew, under the source's change id or a fresh one.
pub fn rewrite(
    store: &mut Store,
    source: CommitId,
    new_parents: Option<Vec<CommitId>>,
    new_tree: Option<TreeId>,
    new_description: Option<String>,
    fresh_change_id: bool,
) -> (r: Result<CommitId, StoreError>)
    requires
        old(store).wf(),
    ensures
        final(store).wf(),
        final(store)@ == rewritten(
            old(store)@,
            source,
            ids_view(new_parents),
            new_tree,
            text_view(new_description),
            fresh_change_id,
        ).0,
        r == rewritten(
            old(store)@,
            source,
            ids_view(new_parents),
            new_tree,
            text_view(new_description),
            fresh_change_id,
        ).1,
{
    if !store.has_commit(source) {
        return Err(StoreError::UnknownCommit);
    }
    let c = store.commit(source);
    let parents = match new_parents {
        Some(p) => p,
        None => copy_ids(&c.parents),
    };
    let tree = match new_tree {
        Some(t) => t,
        None => c.tree,
    };
    let change = if fresh_change_id {
        None
    } else {
        Some(c.change_id)
    };
    let description = match new_description {
        Some(d) => d,
        None => c.description.clone(),
    };
    store.write_commit(parents, tree, change, description)
}

/// Moves a commit onto new parents and carries its change over.
pub fn rebase(store: &mut Store, child: CommitId, new_parents: Vec<CommitId>) -> (r: Result<
    CommitId,
    StoreError,
>)
    requires
        old(store).wf(),
    ensures
        final(store).wf(),
        final(store)@ == rebased(old(store)@, child, new_parents@).0,
        r == rebased(old(store)@, child, new_parents@).1,
{
    if !store.has_commit(child) {
        return Err(StoreError::UnknownCommit);
    }
    proof {
        lemma_rebased(store@, child, new_parents@);
    }
    let c = store.commit(child);
    let tree = c.tree;
    let change_id = c.change_id;
    let description = c.description.clone();
    match store.fault_of(&new_parents, tree, Some(change_id)) {
        Some(e) => {
            return Err(e);
        },
        None => {},
    }
    let new_tree = if ids_equal(&new_parents, &c.parents) {
        tree
    } else {
        assert(store@.commit_ok(child.0 as int));
        assert forall|k: int| 0 <= k < new_parents@.len() implies (#[trigger] new_parents@[k]).0
            < store@.commits.len() by {
            assert(store@.has_commit(new_parents@[k]));
        }
        let old_base = store.merged_tree(&c.parents, child.0);
        let new_base = store.merged_tree(&new_parents, store.commit_count());
        let merged = store.tree(tree).merge(&new_base, &old_base);
        match store.write_tree(merged) {
            Ok(t) => t,
            Err(e) => {
                return Err(e);
            },
        }
    };
    store.write_commit(new_parents, new_tree, Some(change_id), description)
}

} // verus!
