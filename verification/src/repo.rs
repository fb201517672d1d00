use crate::graph::{is_listed, live, mark_live};
use crate::ids::{CommitId, TreeId};
use crate::refs::{Refs, RefsView};
use crate::store::{
    commit_written, lemma_commit_written, lemma_prefix_extends, lemma_tree_written, root_view,
    tree_written, Store, StoreError, StoreView,
};
use crate::tree::{Tree, TreeMap};
use vstd::prelude::*;

verus! {

/// A repository as mathematics: the store, the view of it, and the
/// descriptions of the operations that were committed.
pub struct RepoView {
    pub store: StoreView,
    pub refs: RefsView,
    pub operations: Seq<Seq<char>>,
}

impl RepoView {
    pub open spec fn wf(self) -> bool {
        &&& self.store.wf()
        &&& self.refs.valid_in(self.store)
        &&& self.operations.len() <= self.store.capacity
    }

    /// Whether a commit is reached from the heads.
    pub open spec fn is_live(self, id: CommitId) -> bool {
        live(self.store, self.refs.heads, id.0 as int)
    }
}

/// The heads that are no parents of a new commit.
pub open spec fn without(heads: Seq<CommitId>, parents: Seq<CommitId>) -> Seq<CommitId>
    decreases heads.len(),
{
    if heads.len() == 0 {
        Seq::empty()
    } else {
        let r = without(heads.drop_last(), parents);
        if parents.contains(heads.last()) {
            r
        } else {
            r.push(heads.last())
        }
    }
}

pub proof fn lemma_without(heads: Seq<CommitId>, parents: Seq<CommitId>)
    ensures
        forall|x: CommitId| #[trigger]
            without(heads, parents).contains(x) ==> heads.contains(x) && !parents.contains(x),
    decreases heads.len(),
{
    if heads.len() > 0 {
        let head = heads.drop_last();
        let r = without(head, parents);
        lemma_without(head, parents);
        assert forall|x: CommitId| #[trigger]
            without(heads, parents).contains(x) implies heads.contains(x) && !parents.contains(
            x,
        ) by {
            let j = without(heads, parents).index_of(x);
            if j < r.len() {
                assert(r[j] == x);
                assert(r.contains(x));
                let i = head.index_of(x);
                assert(heads[i] == x);
            } else {
                assert(heads[heads.len() - 1] == x);
            }
        }
    }
}

/// The repository after a new commit was made in it, and the commit's id:
/// the commit is written under a change id of its own and becomes a head in
/// the place of its parents.
pub open spec fn committed(
    r: RepoView,
    parents: Seq<CommitId>,
    tree: TreeId,
    description: Seq<char>,
) -> (RepoView, Result<CommitId, StoreError>) {
    let w = commit_written(r.store, parents, tree, None, description);
    match w.1 {
        Err(e) => (r, Err(e)),
        Ok(id) => (
            RepoView {
                store: w.0,
                refs: RefsView {
                    heads: without(r.refs.heads, parents).push(id),
                    working_copies: r.refs.working_copies,
                    bookmarks: r.refs.bookmarks,
                },
                operations: r.operations,
            },
            Ok(id),
        ),
    }
}

/// A store with the view that says which of its commits are live and where
/// the workspaces and bookmarks point.
pub struct Repo {
    store: Store,
    refs: Refs,
    operations: Vec<String>,
}

pub open spec fn texts(v: Seq<String>) -> Seq<Seq<char>> {
    Seq::new(v.len(), |i: int| v[i]@)
}

impl View for Repo {
    type V = RepoView;

    closed spec fn view(&self) -> RepoView {
        RepoView { store: self.store@, refs: self.refs@, operations: texts(self.operations@) }
    }
}

impl Repo {
    pub closed spec fn inv(&self) -> bool {
        self.store.inv() && self.refs.wf()
    }

    pub open spec fn wf(&self) -> bool {
        self.inv() && self@.wf()
    }

    /// A repository that holds the root commit alone and takes as many
    /// further trees, commits and operations as `capacity` says.
    pub fn with_capacity(capacity: usize) -> (r: Repo)
        ensures
            r.wf(),
            r@.store.commits == seq![root_view()],
            r@.store.trees == seq![TreeMap::empty()],
            r@.store.capacity == if capacity == usize::MAX {
                usize::MAX - 1
            } else {
                capacity as int
            },
            r@.refs.heads == seq![CommitId(0)],
            r@.refs.working_copies == Map::<Seq<char>, CommitId>::empty(),
            r@.refs.bookmarks == Map::<Seq<char>, CommitId>::empty(),
            r@.operations == Seq::<Seq<char>>::empty(),
    {
        let r = Repo {
            store: Store::with_capacity(capacity),
            refs: Refs::new(),
            operations: Vec::new(),
        };
        assert(r@.operations =~= Seq::<Seq<char>>::empty());
        r
    }

    /// A repository that holds the root commit alone.
    pub fn new() -> (r: Repo)
        ensures
            r.wf(),
            r@.store.commits == seq![root_view()],
            r@.store.trees == seq![TreeMap::empty()],
            r@.store.capacity == usize::MAX - 1,
            r@.refs.heads == seq![CommitId(0)],
            r@.refs.working_copies == Map::<Seq<char>, CommitId>::empty(),
            r@.refs.bookmarks == Map::<Seq<char>, CommitId>::empty(),
            r@.operations == Seq::<Seq<char>>::empty(),
    {
        Repo::with_capacity(usize::MAX)
    }

    pub fn store(&self) -> (s: &Store)
        requires
            self.wf(),
        ensures
            s.wf(),
            s@ == self@.store,
    {
        &self.store
    }

    pub fn refs(&self) -> (r: &Refs)
        requires
            self.wf(),
        ensures
            r.wf(),
            r@ == self@.refs,
    {
        &self.refs
    }

    /// The descriptions of the committed operations, oldest first.
    pub fn operations(&self) -> (ops: &Vec<String>)
        ensures
            texts(ops@) == self@.operations,
    {
        &self.operations
    }

    /// Whether a commit is reached from the heads.
    pub fn is_live(&self, id: CommitId) -> (r: bool)
        requires
            self.wf(),
        ensures
            r == self@.is_live(id),
    {
        if !self.store.has_commit(id) {
            return false;
        }
        let marks = mark_live(&self.store, &self.refs.heads);
        marks[id.0]
    }

    /// Hands a tree to the store.
    pub fn write_tree(&mut self, tree: Tree) -> (r: Result<TreeId, StoreError>)
        requires
            old(self).wf(),
            tree.wf(),
        ensures
            final(self).wf(),
            final(self)@.store == tree_written(old(self)@.store, tree@).0,
            final(self)@.refs == old(self)@.refs,
            final(self)@.operations == old(self)@.operations,
            r == tree_written(old(self)@.store, tree@).1,
    {
        proof {
            lemma_tree_written(self@.store, tree@);
        }
        self.store.write_tree(tree)
    }

    /// Makes a new commit; it becomes a head in the place of its parents.
    pub fn commit(&mut self, parents: Vec<CommitId>, tree: TreeId, description: String) -> (r:
        Result<CommitId, StoreError>)
        requires
            old(self).wf(),
        ensures
            final(self).wf(),
            final(self)@ == committed(old(self)@, parents@, tree, description@).0,
            r == committed(old(self)@, parents@, tree, description@).1,
    {
        let mut heads: Vec<CommitId> = Vec::new();
        let mut i: usize = 0;
        while i < self.refs.heads.len()
            invariant
                i <= self.refs.heads.len(),
                heads@ == without(self.refs.heads@.subrange(0, i as int), parents@),
            decreases self.refs.heads.len() - i,
        {
            let h = self.refs.heads[i];
            proof {
                let next = self.refs.heads@.subrange(0, i + 1);
                assert(next.drop_last() =~= self.refs.heads@.subrange(0, i as int));
                assert(next.last() == h);
            }
            if !is_listed(&parents, h) {
                heads.push(h);
            }
            i += 1;
        }
        proof {
            assert(self.refs.heads@.subrange(0, self.refs.heads.len() as int)
                =~= self.refs.heads@);
            lemma_commit_written(self@.store, parents@, tree, None, description@);
            lemma_without(self.refs.heads@, parents@);
        }
        let ghost before = self@;
        match self.store.write_commit(parents, tree, None, description) {
            Err(e) => Err(e),
            Ok(id) => {
                heads.push(id);
                self.refs.heads = heads;
                proof {
                    let s = self@.store;
                    assert forall|j: int| 0 <= j < self@.refs.heads.len() implies s.has_commit(
                        #[trigger] self@.refs.heads[j],
                    ) by {
                        let x = self@.refs.heads[j];
                        if j < self@.refs.heads.len() - 1 {
                            assert(without(before.refs.heads, parents@)[j] == x);
                            assert(without(before.refs.heads, parents@).contains(x));
                            assert(before.refs.heads.contains(x));
                            let i = before.refs.heads.index_of(x);
                            assert(before.store.has_commit(before.refs.heads[i]));
                        }
                    }
                    assert forall|k: Seq<char>|
                        self@.refs.working_copies.contains_key(k) implies s.has_commit(
                        #[trigger] self@.refs.working_copies[k],
                    ) by {
                        assert(before.store.has_commit(before.refs.working_copies[k]));
                    }
                    assert forall|k: Seq<char>|
                        self@.refs.bookmarks.contains_key(k) implies s.has_commit(
                        #[trigger] self@.refs.bookmarks[k],
                    ) by {
                        assert(before.store.has_commit(before.refs.bookmarks[k]));
                    }
                }
                Ok(id)
            },
        }
    }

    /// Points a workspace's working copy at a commit of the store.
    pub fn set_working_copy(&mut self, workspace: String, commit: CommitId) -> (r: Result<
        (),
        StoreError,
    >)
        requires
            old(self).wf(),
        ensures
            final(self).wf(),
            final(self)@.store == old(self)@.store,
            final(self)@.operations == old(self)@.operations,
            final(self)@.refs.heads == old(self)@.refs.heads,
            final(self)@.refs.bookmarks == old(self)@.refs.bookmarks,
            r is Ok == old(self)@.store.has_commit(commit),
            r is Err ==> r == Err::<(), StoreError>(StoreError::UnknownCommit) && final(self)@
                == old(self)@,
            r is Ok ==> final(self)@.refs.working_copies == old(
                self,
            )@.refs.working_copies.insert(workspace@, commit),
    {
        if !self.store.has_commit(commit) {
            return Err(StoreError::UnknownCommit);
        }
        let ghost name = workspace@;
        self.refs.working_copies.set(workspace, commit);
        proof {
            let before = old(self)@;
            assert forall|k: Seq<char>|
                self@.refs.working_copies.contains_key(k) implies self@.store.has_commit(
                #[trigger] self@.refs.working_copies[k],
            ) by {
                if k != name {
                    assert(before.store.has_commit(before.refs.working_copies[k]));
                }
            }
            assert forall|i: int| 0 <= i < self@.refs.heads.len() implies self@.store.has_commit(
                #[trigger] self@.refs.heads[i],
            ) by {
                assert(before.store.has_commit(before.refs.heads[i]));
            }
            assert forall|k: Seq<char>|
                self@.refs.bookmarks.contains_key(k) implies self@.store.has_commit(
                #[trigger] self@.refs.bookmarks[k],
            ) by {
                assert(before.store.has_commit(before.refs.bookmarks[k]));
            }
        }
        Ok(())
    }

    /// Points a bookmark at a commit of the store.
    pub fn set_bookmark(&mut self, name: String, commit: CommitId) -> (r: Result<(), StoreError>)
        requires
            old(self).wf(),
        ensures
            final(self).wf(),
            final(self)@.store == old(self)@.store,
            final(self)@.operations == old(self)@.operations,
            final(self)@.refs.heads == old(self)@.refs.heads,
            final(self)@.refs.working_copies == old(self)@.refs.working_copies,
            r is Ok == old(self)@.store.has_commit(commit),
            r is Err ==> r == Err::<(), StoreError>(StoreError::UnknownCommit) && final(self)@
                == old(self)@,
            r is Ok ==> final(self)@.refs.bookmarks == old(self)@.refs.bookmarks.insert(
                name@,
                commit,
            ),
    {
        if !self.store.has_commit(commit) {
            return Err(StoreError::UnknownCommit);
        }
        let ghost key = name@;
        self.refs.bookmarks.set(name, commit);
        proof {
            let before = old(self)@;
            assert forall|k: Seq<char>|
                self@.refs.bookmarks.contains_key(k) implies self@.store.has_commit(
                #[trigger] self@.refs.bookmarks[k],
            ) by {
                if k != key {
                    assert(before.store.has_commit(before.refs.bookmarks[k]));
                }
            }
            assert forall|i: int| 0 <= i < self@.refs.heads.len() implies self@.store.has_commit(
                #[trigger] self@.refs.heads[i],
            ) by {
                assert(before.store.has_commit(before.refs.heads[i]));
            }
            assert forall|k: Seq<char>|
                self@.refs.working_copies.contains_key(k) implies self@.store.has_commit(
                #[trigger] self@.refs.working_copies[k],
            ) by {
                assert(before.store.has_commit(before.refs.working_copies[k]));
            }
        }
        Ok(())
    }
}

/// One logical operation on a repository, staged: the store grows and the
/// view is worked on in a copy. The repository takes all of it at once, or
/// none of it.
pub(crate) struct Transaction {
    pub(crate) store: Store,
    pub(crate) refs: Refs,
    pub(crate) base_refs: Refs,
    pub(crate) operations: Vec<String>,
    pub(crate) base_trees: usize,
    pub(crate) base_commits: usize,
}

impl Transaction {
    /// The repository as it was when the transaction started.
    pub(crate) open spec fn base(&self) -> RepoView {
        RepoView {
            store: self.store@.prefix(self.base_trees as int, self.base_commits as int),
            refs: self.base_refs@,
            operations: texts(self.operations@),
        }
    }

    pub(crate) open spec fn wf(&self) -> bool {
        &&& self.store.wf()
        &&& self.refs.wf()
        &&& self.base_refs.wf()
        &&& self.base_trees <= self.store@.trees.len()
        &&& self.base_commits <= self.store@.commits.len()
        &&& self.base().wf()
        &&& self.refs@.valid_in(self.store@)
    }

    /// Starts a transaction on a repository.
    pub(crate) fn start(repo: Repo) -> (tx: Transaction)
        requires
            repo.wf(),
        ensures
            tx.wf(),
            tx.base() == repo@,
            tx.store@ == repo@.store,
            tx.refs@ == repo@.refs,
    {
        proof {
            lemma_prefix_extends(repo@.store, repo@.store, 0, 0);
        }
        let refs = repo.refs.copy();
        let base_trees = repo.store.tree_count();
        let base_commits = repo.store.commit_count();
        Transaction {
            store: repo.store,
            refs,
            base_refs: repo.refs,
            operations: repo.operations,
            base_trees,
            base_commits,
        }
    }

    /// Gives the repository back as it was when the transaction started.
    pub(crate) fn abort(self) -> (repo: Repo)
        requires
            self.wf(),
        ensures
            repo.wf(),
            repo@ == self.base(),
    {
        let mut store = self.store;
        store.truncate(self.base_trees, self.base_commits);
        Repo { store, refs: self.base_refs, operations: self.operations }
    }

    /// Commits the transaction: the staged view becomes the repository's
    /// view and the description is added to the operations. Where the
    /// repository has no room for one more operation, it comes back as it
    /// was when the transaction started.
    pub(crate) fn finish(self, description: String) -> (r: (Repo, Result<(), StoreError>))
        requires
            self.wf(),
        ensures
            r.0.wf(),
            r.1 is Ok == (self.base().operations.len() < self.store@.capacity),
            r.1 is Ok ==> r.0@.store == self.store@ && r.0@.refs == self.refs@ && r.0@.operations
                == self.base().operations.push(description@),
            r.1 is Err ==> r.1 == Err::<(), StoreError>(StoreError::Full) && r.0@ == self.base(),
    {
        if self.operations.len() >= self.store.capacity() {
            return (self.abort(), Err(StoreError::Full));
        }
        let mut operations = self.operations;
        let ghost before = texts(operations@);
        operations.push(description);
        let repo = Repo { store: self.store, refs: self.refs, operations };
        proof {
            assert(repo@.operations =~= before.push(description@));
        }
        (repo, Ok(()))
    }
}

} // verus!
