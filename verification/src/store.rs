use crate::ids::{ChangeId, CommitId, TreeId};
use crate::tree::{merge_maps, Tree, TreeMap};
use vstd::prelude::*;

verus! {

/// Why the store did not take an object.
#[derive(Clone, Copy, Debug, PartialEq, Eq, Structural)]
pub enum StoreError {
    /// The arena has reached its capacity.
    Full,
    /// A commit other than the root needs a parent.
    NoParents,
    /// A commit id that the store does not hold.
    UnknownCommit,
    /// A tree id that the store does not hold.
    UnknownTree,
    /// A change id that no commit could carry yet.
    UnknownChange,
}

/// An immutable snapshot in the commit graph.
pub struct Commit {
    pub parents: Vec<CommitId>,
    pub tree: TreeId,
    pub change_id: ChangeId,
    pub description: String,
}

/// A commit as mathematics.
pub struct CommitView {
    pub parents: Seq<CommitId>,
    pub tree: TreeId,
    pub change_id: ChangeId,
    pub description: Seq<char>,
}

impl View for Commit {
    type V = CommitView;

    open spec fn view(&self) -> CommitView {
        commit_view(self.parents@, self.tree, self.change_id, self.description@)
    }
}

pub open spec fn commit_view(
    parents: Seq<CommitId>,
    tree: TreeId,
    change_id: ChangeId,
    description: Seq<char>,
) -> CommitView {
    CommitView { parents, tree, change_id, description }
}

/// The commit from which every history starts: no parents, the empty tree.
pub open spec fn root_view() -> CommitView {
    commit_view(Seq::empty(), TreeId(0), ChangeId(0), Seq::empty())
}

/// The store as mathematics: two append-only arenas and their capacity.
pub struct StoreView {
    pub trees: Seq<TreeMap>,
    pub commits: Seq<CommitView>,
    pub capacity: nat,
}

impl StoreView {
    pub open spec fn has_commit(self, id: CommitId) -> bool {
        id.0 < self.commits.len()
    }

    pub open spec fn has_tree(self, id: TreeId) -> bool {
        id.0 < self.trees.len()
    }

    /// A commit's parents were written before it, its tree is in the store,
    /// and its change id is no younger than the commit itself.
    pub open spec fn commit_ok(self, i: int) -> bool {
        let c = self.commits[i];
        &&& forall|k: int| 0 <= k < c.parents.len() ==> (#[trigger] c.parents[k]).0 < i
        &&& (i > 0 ==> c.parents.len() > 0)
        &&& c.tree.0 < self.trees.len()
        &&& c.change_id.0 <= i
    }

    /// Tree 0 is the empty tree and commit 0 the root; equal content has one
    /// id; the graph is acyclic because parents precede children.
    pub open spec fn wf(self) -> bool {
        &&& self.capacity < usize::MAX
        &&& self.trees.len() >= 1
        &&& self.trees[0] == TreeMap::empty()
        &&& self.trees.len() <= self.capacity + 1
        &&& forall|i: int, j: int|
            0 <= i < j < self.trees.len() ==> self.trees[i] != self.trees[j]
        &&& self.commits.len() >= 1
        &&& self.commits[0] == root_view()
        &&& self.commits.len() <= self.capacity + 1
        &&& forall|i: int| 0 <= i < self.commits.len() ==> #[trigger] self.commit_ok(i)
        &&& forall|i: int, j: int|
            0 <= i < j < self.commits.len() ==> self.commits[i] != self.commits[j]
    }

    /// The store cut back to its first trees and commits.
    pub open spec fn prefix(self, trees: int, commits: int) -> StoreView {
        StoreView {
            trees: self.trees.subrange(0, trees),
            commits: self.commits.subrange(0, commits),
            capacity: self.capacity,
        }
    }

    /// This store holds everything the older one held, under the same ids.
    pub open spec fn extends(self, older: StoreView) -> bool {
        &&& older.trees.is_prefix_of(self.trees)
        &&& older.commits.is_prefix_of(self.commits)
        &&& older.capacity == self.capacity
    }

    /// The tree against which a commit's own change is read: its first
    /// parent's tree, and the empty tree for the root.
    pub open spec fn parent_tree(self, id: CommitId) -> TreeId {
        let c = self.commits[id.0 as int];
        if c.parents.len() == 0 {
            TreeId(0)
        } else {
            self.commits[c.parents[0].0 as int].tree
        }
    }

    /// A commit that changes nothing relative to its parent tree.
    pub open spec fn is_empty_commit(self, id: CommitId) -> bool {
        self.commits[id.0 as int].tree == self.parent_tree(id)
    }

    /// The tree of a commit.
    pub open spec fn tree_of(self, id: CommitId) -> TreeMap {
        self.trees[self.commits[id.0 as int].tree.0 as int]
    }

    /// The tree on which a commit with these parents builds: the first
    /// parent's tree, with the change of each further parent merged in. The
    /// change of a parent is read against the tree on which that parent
    /// itself builds. All the parents lie below `bound`.
    pub open spec fn merged(self, parents: Seq<CommitId>, bound: int) -> TreeMap
        decreases bound, parents.len(),
    {
        if parents.len() == 0 {
            TreeMap::empty()
        } else if parents.len() == 1 {
            self.tree_of(parents[0])
        } else {
            let last = parents.last();
            if 0 <= last.0 < bound {
                merge_maps(
                    self.merged(parents.drop_last(), bound),
                    self.tree_of(last),
                    self.merged(self.commits[last.0 as int].parents, last.0 as int),
                )
            } else {
                TreeMap::empty()
            }
        }
    }
}

/// The tree on which a commit builds does not depend on the bound under
/// which its parents are looked at.
pub proof fn lemma_merged_bound(s: StoreView, parents: Seq<CommitId>, low: int, high: int)
    requires
        low <= high,
        forall|k: int| 0 <= k < parents.len() ==> (#[trigger] parents[k]).0 < low,
    ensures
        s.merged(parents, low) == s.merged(parents, high),
    decreases parents.len(),
{
    if parents.len() > 1 {
        let head = parents.drop_last();
        assert forall|k: int| 0 <= k < head.len() implies (#[trigger] head[k]).0 < low by {
            assert(head[k] == parents[k]);
        }
        lemma_merged_bound(s, head, low, high);
        assert(parents[parents.len() - 1].0 < low);
    }
}

/// The tree on which a commit builds stays the same when the store grows.
pub proof fn lemma_merged_extends(s: StoreView, t: StoreView, parents: Seq<CommitId>, bound: int)
    requires
        s.wf(),
        t.extends(s),
        bound <= s.commits.len(),
        forall|k: int| 0 <= k < parents.len() ==> (#[trigger] parents[k]).0 < bound,
    ensures
        t.merged(parents, bound) == s.merged(parents, bound),
    decreases bound, parents.len(),
{
    if parents.len() > 0 {
        let last = parents.last();
        assert(parents[parents.len() - 1].0 < bound);
        assert(parents[0].0 < bound);
        assert(s.commit_ok(last.0 as int));
        assert(s.commit_ok(parents[0].0 as int));
        assert(t.commits[last.0 as int] == s.commits[last.0 as int]);
        assert(t.commits[parents[0].0 as int] == s.commits[parents[0].0 as int]);
        assert(t.tree_of(last) == s.tree_of(last));
        assert(t.tree_of(parents[0]) == s.tree_of(parents[0]));
        if parents.len() > 1 {
            let head = parents.drop_last();
            assert forall|k: int| 0 <= k < head.len() implies (#[trigger] head[k]).0 < bound by {
                assert(head[k] == parents[k]);
            }
            lemma_merged_extends(s, t, head, bound);
            lemma_merged_extends(s, t, s.commits[last.0 as int].parents, last.0 as int);
        }
    }
}

/// The store after a tree was handed to it, and the id under which the tree
/// is found: the id it already had, or the next free one.
pub open spec fn tree_written(s: StoreView, m: TreeMap) -> (StoreView, Result<TreeId, StoreError>) {
    if s.trees.contains(m) {
        (s, Ok(TreeId(s.trees.index_of(m) as usize)))
    } else if s.trees.len() <= s.capacity {
        (
            StoreView { trees: s.trees.push(m), commits: s.commits, capacity: s.capacity },
            Ok(TreeId(s.trees.len() as usize)),
        )
    } else {
        (s, Err(StoreError::Full))
    }
}

/// What is wrong with the parts of a commit, if anything.
pub open spec fn commit_fault(
    s: StoreView,
    parents: Seq<CommitId>,
    tree: TreeId,
    change: Option<ChangeId>,
) -> Option<StoreError> {
    if parents.len() == 0 {
        Some(StoreError::NoParents)
    } else if exists|k: int| 0 <= k < parents.len() && !s.has_commit(#[trigger] parents[k]) {
        Some(StoreError::UnknownCommit)
    } else if !s.has_tree(tree) {
        Some(StoreError::UnknownTree)
    } else if change matches Some(c) && c.0 >= s.commits.len() {
        Some(StoreError::UnknownChange)
    } else {
        None
    }
}

/// The change id that a written commit carries: the one given, or a new one
/// that no commit in the store has.
pub open spec fn change_of(s: StoreView, change: Option<ChangeId>) -> ChangeId {
    match change {
        Some(c) => c,
        None => ChangeId(s.commits.len() as usize),
    }
}

/// The store after a commit was handed to it, and the commit's id.
pub open spec fn commit_written(
    s: StoreView,
    parents: Seq<CommitId>,
    tree: TreeId,
    change: Option<ChangeId>,
    description: Seq<char>,
) -> (StoreView, Result<CommitId, StoreError>) {
    let content = commit_view(parents, tree, change_of(s, change), description);
    match commit_fault(s, parents, tree, change) {
        Some(e) => (s, Err(e)),
        None => if s.commits.contains(content) {
            (s, Ok(CommitId(s.commits.index_of(content) as usize)))
        } else if s.commits.len() <= s.capacity {
            (
                StoreView { trees: s.trees, commits: s.commits.push(content), capacity: s.capacity },
                Ok(CommitId(s.commits.len() as usize)),
            )
        } else {
            (s, Err(StoreError::Full))
        },
    }
}

/// The store after two trees were merged against a base in it, and the
/// merged tree's id.
pub open spec fn trees_merged(s: StoreView, a: TreeId, b: TreeId, base: TreeId) -> (
    StoreView,
    Result<TreeId, StoreError>,
) {
    if s.has_tree(a) && s.has_tree(b) && s.has_tree(base) {
        tree_written(
            s,
            merge_maps(s.trees[a.0 as int], s.trees[b.0 as int], s.trees[base.0 as int]),
        )
    } else {
        (s, Err(StoreError::UnknownTree))
    }
}

/// What extends an extension of a store extends that store.
pub proof fn lemma_extends_trans(a: StoreView, b: StoreView, c: StoreView)
    requires
        b.extends(a),
        c.extends(b),
    ensures
        c.extends(a),
{
}

/// Cutting an extension of a store back to lengths within that store gives
/// what cutting the store itself gives.
pub proof fn lemma_prefix_extends(s: StoreView, t: StoreView, trees: int, commits: int)
    requires
        t.extends(s),
        0 <= trees <= s.trees.len(),
        0 <= commits <= s.commits.len(),
    ensures
        t.prefix(trees, commits) == s.prefix(trees, commits),
        s.prefix(s.trees.len() as int, s.commits.len() as int) == s,
{
    assert(t.prefix(trees, commits).trees =~= s.prefix(trees, commits).trees);
    assert(t.prefix(trees, commits).commits =~= s.prefix(trees, commits).commits);
    assert(s.prefix(s.trees.len() as int, s.commits.len() as int).trees =~= s.trees);
    assert(s.prefix(s.trees.len() as int, s.commits.len() as int).commits =~= s.commits);
}

/// Writing a tree keeps the store well formed, only ever appends, and on
/// success the id names that tree.
pub proof fn lemma_tree_written(s: StoreView, m: TreeMap)
    requires
        s.wf(),
    ensures
        tree_written(s, m).0.wf(),
        tree_written(s, m).0.extends(s),
        tree_written(s, m).0.commits == s.commits,
        tree_written(s, m).1 matches Ok(id) ==> tree_written(s, m).0.has_tree(id)
            && tree_written(s, m).0.trees[id.0 as int] == m,
        tree_written(s, m).1 is Err ==> tree_written(s, m).0 == s,
{
    let t = tree_written(s, m).0;
    if s.trees.contains(m) {
        let k = s.trees.index_of(m);
        assert(0 <= k < s.trees.len() && s.trees[k] == m);
    } else if s.trees.len() <= s.capacity {
        assert(t.trees[s.trees.len() as int] == m);
        assert forall|i: int| 0 <= i < t.commits.len() implies #[trigger] t.commit_ok(i) by {
            assert(s.commit_ok(i));
        }
        assert forall|i: int, j: int| 0 <= i < j < t.trees.len() implies t.trees[i]
            != t.trees[j] by {
            if j == s.trees.len() {
                assert(s.trees[i] == t.trees[i]);
            }
        }
    }
}

/// Handing the same tree to the store again gives the same id and changes
/// nothing: a tree's id is a function of its content.
pub proof fn lemma_tree_written_again(s: StoreView, m: TreeMap)
    requires
        s.wf(),
        tree_written(s, m).1 is Ok,
    ensures
        tree_written(tree_written(s, m).0, m) == tree_written(s, m),
{
    let t = tree_written(s, m).0;
    lemma_tree_written(s, m);
    if !s.trees.contains(m) {
        let n = s.trees.len() as int;
        assert(t.trees[n] == m);
        assert(t.trees.contains(m));
        let k = t.trees.index_of(m);
        assert(k == n);
    }
}

/// Merging the same three trees again gives the same tree id and leaves the
/// store as the first merge left it.
pub proof fn lemma_merge_deterministic(s: StoreView, a: TreeId, b: TreeId, base: TreeId)
    requires
        s.wf(),
        trees_merged(s, a, b, base).1 is Ok,
    ensures
        trees_merged(trees_merged(s, a, b, base).0, a, b, base) == trees_merged(s, a, b, base),
{
    let m = merge_maps(s.trees[a.0 as int], s.trees[b.0 as int], s.trees[base.0 as int]);
    lemma_tree_written(s, m);
    lemma_tree_written_again(s, m);
}

/// In a well-formed store two tree ids are equal exactly when the trees are.
pub proof fn lemma_tree_ids(s: StoreView, a: TreeId, b: TreeId)
    requires
        s.wf(),
        s.has_tree(a),
        s.has_tree(b),
    ensures
        (a == b) == (s.trees[a.0 as int] == s.trees[b.0 as int]),
{
    if a.0 < b.0 {
        assert(s.trees[a.0 as int] != s.trees[b.0 as int]);
    } else if b.0 < a.0 {
        assert(s.trees[b.0 as int] != s.trees[a.0 as int]);
    }
}

/// Writing a commit keeps the store well formed, only ever appends, and on
/// success the id names a commit with exactly the parts given.
pub proof fn lemma_commit_written(
    s: StoreView,
    parents: Seq<CommitId>,
    tree: TreeId,
    change: Option<ChangeId>,
    description: Seq<char>,
)
    requires
        s.wf(),
    ensures
        commit_written(s, parents, tree, change, description).0.wf(),
        commit_written(s, parents, tree, change, description).0.extends(s),
        commit_written(s, parents, tree, change, description).0.trees == s.trees,
        commit_written(s, parents, tree, change, description).1 matches Ok(id) ==> {
            let t = commit_written(s, parents, tree, change, description).0;
            &&& t.has_commit(id)
            &&& t.commits[id.0 as int] == commit_view(
                parents,
                tree,
                change_of(s, change),
                description,
            )
            &&& (change is None ==> id.0 == s.commits.len())
        },
        commit_written(s, parents, tree, change, description).1 is Err ==> commit_written(
            s,
            parents,
            tree,
            change,
            description,
        ).0 == s,
{
    let content = commit_view(parents, tree, change_of(s, change), description);
    let t = commit_written(s, parents, tree, change, description).0;
    let n = s.commits.len() as int;
    if commit_fault(s, parents, tree, change) is None {
        if s.commits.contains(content) {
            let k = s.commits.index_of(content);
            assert(0 <= k < n && s.commits[k] == content);
            assert(s.commit_ok(k));
        } else if s.commits.len() <= s.capacity {
            assert(t.commits[n] == content);
            assert forall|i: int| 0 <= i < t.commits.len() implies #[trigger] t.commit_ok(i) by {
                if i < n {
                    assert(s.commit_ok(i));
                } else {
                    assert forall|k: int| 0 <= k < parents.len() implies (#[trigger] parents[k]).0
                        < n by {
                        assert(s.has_commit(parents[k]));
                    }
                }
            }
            assert forall|i: int, j: int| 0 <= i < j < t.commits.len() implies t.commits[i]
                != t.commits[j] by {
                if j == n {
                    assert(s.commits[i] == t.commits[i]);
                    assert(s.commits.contains(s.commits[i]));
                }
            }
        }
    }
}

/// The content-addressed home of trees and commits.
///
/// Nothing in it ever changes or goes away; an id is the position at which
/// the content was first written.
pub struct Store {
    trees: Vec<Tree>,
    commits: Vec<Commit>,
    capacity: usize,
}

pub fn ids_equal(a: &Vec<CommitId>, b: &Vec<CommitId>) -> (r: bool)
    ensures
        r == (a@ == b@),
{
    if a.len() != b.len() {
        return false;
    }
    let mut i: usize = 0;
    while i < a.len()
        invariant
            i <= a.len(),
            a.len() == b.len(),
            forall|j: int| 0 <= j < i ==> a@[j] == b@[j],
        decreases a.len() - i,
    {
        if a[i] != b[i] {
            return false;
        }
        i += 1;
    }
    assert(a@ =~= b@);
    true
}

pub fn copy_ids(a: &Vec<CommitId>) -> (r: Vec<CommitId>)
    ensures
        r@ == a@,
{
    let mut r: Vec<CommitId> = Vec::new();
    let mut i: usize = 0;
    while i < a.len()
        invariant
            i <= a.len(),
            r@ == a@.subrange(0, i as int),
        decreases a.len() - i,
    {
        r.push(a[i]);
        assert(r@ =~= a@.subrange(0, i + 1));
        i += 1;
    }
    assert(a@.subrange(0, a.len() as int) =~= a@);
    r
}

impl View for Store {
    type V = StoreView;

    closed spec fn view(&self) -> StoreView {
        StoreView {
            trees: Seq::new(self.trees@.len(), |i: int| self.trees@[i]@),
            commits: Seq::new(self.commits@.len(), |i: int| self.commits@[i]@),
            capacity: self.capacity as nat,
        }
    }
}

impl Store {
    /// Each stored tree is a valid tree.
    pub closed spec fn inv(&self) -> bool {
        forall|i: int| 0 <= i < self.trees@.len() ==> (#[trigger] self.trees@[i]).wf()
    }

    pub open spec fn wf(&self) -> bool {
        self.inv() && self@.wf()
    }

    /// A store that holds the empty tree and the root commit, and takes as
    /// many further trees, and as many further commits, as `capacity` says
    /// (one less than `usize::MAX` at most).
    pub fn with_capacity(capacity: usize) -> (s: Store)
        ensures
            s.wf(),
            s@.trees == seq![TreeMap::empty()],
            s@.commits == seq![root_view()],
            s@.capacity == if capacity == usize::MAX {
                usize::MAX - 1
            } else {
                capacity as int
            },
    {
        let capacity = if capacity == usize::MAX {
            usize::MAX - 1
        } else {
            capacity
        };
        let mut trees: Vec<Tree> = Vec::new();
        trees.push(Tree::new());
        let mut commits: Vec<Commit> = Vec::new();
        commits.push(
            Commit {
                parents: Vec::new(),
                tree: TreeId(0),
                change_id: ChangeId(0),
                description: String::new(),
            },
        );
        let s = Store { trees, commits, capacity };
        proof {
            assert(s@.trees =~= seq![TreeMap::empty()]);
            assert(s@.commits[0].parents =~= Seq::<CommitId>::empty());
            assert(s@.commits[0] == root_view());
            assert(s@.commits =~= seq![root_view()]);
            assert(s@.commit_ok(0));
        }
        s
    }

    /// A store with the largest capacity there is.
    pub fn new() -> (s: Store)
        ensures
            s.wf(),
            s@.trees == seq![TreeMap::empty()],
            s@.commits == seq![root_view()],
            s@.capacity == usize::MAX - 1,
    {
        Store::with_capacity(usize::MAX)
    }

    pub fn root_commit(&self) -> (id: CommitId)
        ensures
            id == CommitId(0),
    {
        CommitId(0)
    }

    pub fn empty_tree(&self) -> (id: TreeId)
        ensures
            id == TreeId(0),
    {
        TreeId(0)
    }

    pub fn capacity(&self) -> (n: usize)
        ensures
            n == self@.capacity,
    {
        self.capacity
    }

    pub fn commit_count(&self) -> (n: usize)
        ensures
            n == self@.commits.len(),
    {
        self.commits.len()
    }

    pub fn tree_count(&self) -> (n: usize)
        ensures
            n == self@.trees.len(),
    {
        self.trees.len()
    }

    pub fn has_commit(&self, id: CommitId) -> (r: bool)
        ensures
            r == self@.has_commit(id),
    {
        id.0 < self.commits.len()
    }

    pub fn has_tree(&self, id: TreeId) -> (r: bool)
        ensures
            r == self@.has_tree(id),
    {
        id.0 < self.trees.len()
    }

    pub fn commit(&self, id: CommitId) -> (c: &Commit)
        requires
            self@.has_commit(id),
        ensures
            c@ == self@.commits[id.0 as int],
    {
        &self.commits[id.0]
    }

    pub fn tree(&self, id: TreeId) -> (t: &Tree)
        requires
            self.wf(),
            self@.has_tree(id),
        ensures
            t.wf(),
            t@ == self@.trees[id.0 as int],
    {
        &self.trees[id.0]
    }

    /// The commit under an id, if the store holds one.
    pub fn get_commit(&self, id: CommitId) -> (r: Option<&Commit>)
        ensures
            r is Some == self@.has_commit(id),
            r matches Some(c) ==> c@ == self@.commits[id.0 as int],
    {
        if id.0 < self.commits.len() {
            Some(&self.commits[id.0])
        } else {
            None
        }
    }

    /// The tree under an id, if the store holds one.
    pub fn get_tree(&self, id: TreeId) -> (r: Option<&Tree>)
        requires
            self.wf(),
        ensures
            r is Some == self@.has_tree(id),
            r matches Some(t) ==> t.wf() && t@ == self@.trees[id.0 as int],
    {
        if id.0 < self.trees.len() {
            Some(&self.trees[id.0])
        } else {
            None
        }
    }

    /// The tree against which the commit's own change is read.
    pub fn parent_tree(&self, id: CommitId) -> (t: TreeId)
        requires
            self.wf(),
            self@.has_commit(id),
        ensures
            t == self@.parent_tree(id),
            self@.has_tree(t),
    {
        let c = &self.commits[id.0];
        assert(self@.commit_ok(id.0 as int));
        if c.parents.len() == 0 {
            TreeId(0)
        } else {
            let p = c.parents[0];
            assert(self@.commits[id.0 as int].parents[0] == p);
            assert(self@.commit_ok(p.0 as int));
            self.commits[p.0].tree
        }
    }

    /// The tree on which a commit with these parents builds.
    pub fn merged_tree(&self, parents: &Vec<CommitId>, bound: usize) -> (t: Tree)
        requires
            self.wf(),
            bound <= self@.commits.len(),
            forall|k: int| 0 <= k < parents@.len() ==> (#[trigger] parents@[k]).0 < bound,
        ensures
            t.wf(),
            t@ == self@.merged(parents@, bound as int),
        decreases bound,
    {
        if parents.len() == 0 {
            return Tree::new();
        }
        let first = parents[0];
        assert(parents@[0].0 < bound);
        assert(self@.commit_ok(first.0 as int));
        let mut acc = self.trees[self.commits[first.0].tree.0].copy();
        let mut i: usize = 1;
        proof {
            assert(parents@.subrange(0, 1).len() == 1);
            assert(parents@.subrange(0, 1)[0] == first);
        }
        while i < parents.len()
            invariant
                1 <= i <= parents.len(),
                self.wf(),
                bound <= self@.commits.len(),
                forall|k: int| 0 <= k < parents@.len() ==> (#[trigger] parents@[k]).0 < bound,
                acc.wf(),
                acc@ == self@.merged(parents@.subrange(0, i as int), bound as int),
            decreases parents.len() - i,
        {
            let p = parents[i];
            assert(parents@[i as int].0 < bound);
            assert(self@.commit_ok(p.0 as int));
            let commit = &self.commits[p.0];
            let base = self.merged_tree(&commit.parents, p.0);
            let ghost before = acc@;
            acc = acc.merge(&self.trees[commit.tree.0], &base);
            proof {
                let next = parents@.subrange(0, i + 1);
                assert(next.drop_last() =~= parents@.subrange(0, i as int));
                assert(next.last() == p);
                assert(next.len() > 1);
            }
            i += 1;
        }
        proof {
            assert(parents@.subrange(0, parents.len() as int) =~= parents@);
        }
        acc
    }

    /// Whether the commit leaves its parent tree as it is.
    pub fn is_empty_commit(&self, id: CommitId) -> (r: bool)
        requires
            self.wf(),
            self@.has_commit(id),
        ensures
            r == self@.is_empty_commit(id),
    {
        let base = self.parent_tree(id);
        self.commits[id.0].tree == base
    }

    /// Hands a tree to the store and says under which id it is found.
    pub fn write_tree(&mut self, tree: Tree) -> (r: Result<TreeId, StoreError>)
        requires
            old(self).wf(),
            tree.wf(),
        ensures
            final(self).wf(),
            final(self)@ == tree_written(old(self)@, tree@).0,
            r == tree_written(old(self)@, tree@).1,
    {
        let n = self.trees.len();
        let mut i: usize = 0;
        while i < n
            invariant
                i <= n,
                n == self.trees@.len(),
                self.wf(),
                tree.wf(),
                *self == *old(self),
                forall|j: int| 0 <= j < i ==> self@.trees[j] != tree@,
            decreases n - i,
        {
            if self.trees[i].same_content(&tree) {
                proof {
                    assert(self@.trees[i as int] == tree@);
                    assert(self@.trees.contains(tree@));
                    let k = self@.trees.index_of(tree@);
                    if k < i {
                        assert(self@.trees[k] != tree@);
                    } else if k > i {
                        assert(self@.trees[i as int] != self@.trees[k]);
                    }
                }
                return Ok(TreeId(i));
            }
            i += 1;
        }
        if n > self.capacity {
            return Err(StoreError::Full);
        }
        proof {
            lemma_tree_written(old(self)@, tree@);
        }
        self.trees.push(tree);
        proof {
            assert(self@.trees =~= old(self)@.trees.push(tree@));
            assert(self@.commits =~= old(self)@.commits);
        }
        Ok(TreeId(n))
    }

    /// Merges two stored trees against a stored base and stores the result.
    pub fn merge_trees(&mut self, a: TreeId, b: TreeId, base: TreeId) -> (r: Result<
        TreeId,
        StoreError,
    >)
        requires
            old(self).wf(),
        ensures
            final(self).wf(),
            final(self)@ == trees_merged(old(self)@, a, b, base).0,
            r == trees_merged(old(self)@, a, b, base).1,
    {
        if !(self.has_tree(a) && self.has_tree(b) && self.has_tree(base)) {
            return Err(StoreError::UnknownTree);
        }
        let merged = self.trees[a.0].merge(&self.trees[b.0], &self.trees[base.0]);
        self.write_tree(merged)
    }

    fn holds_commit(
        c: &Commit,
        parents: &Vec<CommitId>,
        tree: TreeId,
        change_id: ChangeId,
        description: &String,
    ) -> (r: bool)
        ensures
            r == (c@ == commit_view(parents@, tree, change_id, description@)),
    {
        ids_equal(&c.parents, parents) && c.tree == tree && c.change_id == change_id
            && c.description == *description
    }

    /// What is wrong with the parts of a commit, if anything.
    pub fn fault_of(&self, parents: &Vec<CommitId>, tree: TreeId, change: Option<ChangeId>) -> (r:
        Option<StoreError>)
        ensures
            r == commit_fault(self@, parents@, tree, change),
    {
        let n = self.commits.len();
        if parents.len() == 0 {
            return Some(StoreError::NoParents);
        }
        let mut k: usize = 0;
        while k < parents.len()
            invariant
                k <= parents.len(),
                n == self@.commits.len(),
                forall|j: int| 0 <= j < k ==> self@.has_commit(#[trigger] parents@[j]),
            decreases parents.len() - k,
        {
            if parents[k].0 >= n {
                assert(!self@.has_commit(parents@[k as int]));
                return Some(StoreError::UnknownCommit);
            }
            k += 1;
        }
        if tree.0 >= self.trees.len() {
            return Some(StoreError::UnknownTree);
        }
        match change {
            Some(c) => {
                if c.0 >= n {
                    return Some(StoreError::UnknownChange);
                }
            },
            None => {},
        }
        None
    }

    /// Hands a commit to the store and says under which id it is found.
    /// Without a change id the commit gets one that no other commit has.
    pub fn write_commit(
        &mut self,
        parents: Vec<CommitId>,
        tree: TreeId,
        change: Option<ChangeId>,
        description: String,
    ) -> (r: Result<CommitId, StoreError>)
        requires
            old(self).wf(),
        ensures
            final(self).wf(),
            final(self)@ == commit_written(old(self)@, parents@, tree, change, description@).0,
            r == commit_written(old(self)@, parents@, tree, change, description@).1,
    {
        let n = self.commits.len();
        match self.fault_of(&parents, tree, change) {
            Some(e) => {
                return Err(e);
            },
            None => {},
        }
        let change_id = match change {
            Some(c) => c,
            None => ChangeId(n),
        };
        let ghost content = commit_view(parents@, tree, change_id, description@);
        let mut i: usize = 0;
        while i < n
            invariant
                i <= n,
                n == self@.commits.len(),
                self.wf(),
                *self == *old(self),
                content == commit_view(parents@, tree, change_id, description@),
                commit_fault(self@, parents@, tree, change) is None,
                change_id == change_of(self@, change),
                forall|j: int| 0 <= j < i ==> self@.commits[j] != content,
            decreases n - i,
        {
            if Store::holds_commit(&self.commits[i], &parents, tree, change_id, &description) {
                proof {
                    assert(self@.commits[i as int] == content);
                    assert(self@.commits.contains(content));
                    let k = self@.commits.index_of(content);
                    if k < i {
                        assert(self@.commits[k] != content);
                    } else if k > i {
                        assert(self@.commits[i as int] != self@.commits[k]);
                    }
                }
                return Ok(CommitId(i));
            }
            i += 1;
        }
        if n > self.capacity {
            return Err(StoreError::Full);
        }
        proof {
            lemma_commit_written(old(self)@, parents@, tree, change, description@);
        }
        self.commits.push(Commit { parents, tree, change_id, description });
        proof {
            assert(self@.commits =~= old(self)@.commits.push(content));
            assert(self@.trees =~= old(self)@.trees);
        }
        Ok(CommitId(n))
    }

    /// Cuts the arenas back to earlier lengths.
    pub(crate) fn truncate(&mut self, trees: usize, commits: usize)
        requires
            old(self).wf(),
            trees <= old(self)@.trees.len(),
            commits <= old(self)@.commits.len(),
            old(self)@.prefix(trees as int, commits as int).wf(),
        ensures
            final(self).wf(),
            final(self)@ == old(self)@.prefix(trees as int, commits as int),
    {
        self.trees.truncate(trees);
        self.commits.truncate(commits);
        proof {
            assert(self@.trees =~= old(self)@.trees.subrange(0, trees as int));
            assert(self@.commits =~= old(self)@.commits.subrange(0, commits as int));
        }
    }
}

} // verus!
