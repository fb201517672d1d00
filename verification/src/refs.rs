use crate::ids::CommitId;
use crate::name_map::NameMap;
use crate::remap::{
    lemma_remapped_members, remap_parents, remapped, rewritten_to, RemapPolicy, Rewrites,
};
use crate::store::{copy_ids, StoreView};
use vstd::prelude::*;

verus! {

/// What a repository shows of its store: the heads, from which the live
/// commits are reached, each workspace's working-copy commit, and the
/// bookmarks.
pub struct Refs {
    pub heads: Vec<CommitId>,
    pub working_copies: NameMap<CommitId>,
    pub bookmarks: NameMap<CommitId>,
}

/// The heads and the two pointer maps as mathematics.
pub struct RefsView {
    pub heads: Seq<CommitId>,
    pub working_copies: Map<Seq<char>, CommitId>,
    pub bookmarks: Map<Seq<char>, CommitId>,
}

impl View for Refs {
    type V = RefsView;

    open spec fn view(&self) -> RefsView {
        RefsView {
            heads: self.heads@,
            working_copies: self.working_copies@,
            bookmarks: self.bookmarks@,
        }
    }
}

impl RefsView {
    /// Every head and every pointer names a commit of the store.
    pub open spec fn valid_in(self, s: StoreView) -> bool {
        &&& forall|i: int| 0 <= i < self.heads.len() ==> s.has_commit(#[trigger] self.heads[i])
        &&& forall|k: Seq<char>|
            self.working_copies.contains_key(k) ==> s.has_commit(#[trigger] self.working_copies[k])
        &&& forall|k: Seq<char>|
            self.bookmarks.contains_key(k) ==> s.has_commit(#[trigger] self.bookmarks[k])
    }
}

/// Where a pointer at `v` points once the rewrites are followed; a pointer
/// at `from` goes to `to` whatever is recorded.
pub open spec fn moved(
    v: CommitId,
    m: Map<CommitId, CommitId>,
    from: Option<CommitId>,
    to: CommitId,
) -> CommitId {
    if from == Some(v) {
        to
    } else {
        rewritten_to(m, v)
    }
}

/// A pointer map with every pointer moved.
pub open spec fn moved_map(
    p: Map<Seq<char>, CommitId>,
    m: Map<CommitId, CommitId>,
    from: Option<CommitId>,
    to: CommitId,
) -> Map<Seq<char>, CommitId> {
    Map::new(|k: Seq<char>| p.contains_key(k), |k: Seq<char>| moved(p[k], m, from, to))
}

/// The view after a split of `target` into `first` and `second`: the heads
/// are remapped as a descendant's parents are; each bookmark follows the
/// rewrites; each working copy follows them too, but one at the split commit
/// goes to the second commit.
pub open spec fn followed(
    r: RefsView,
    m: Map<CommitId, CommitId>,
    policy: RemapPolicy,
    target: CommitId,
    first: CommitId,
    second: CommitId,
) -> RefsView {
    RefsView {
        heads: remapped(r.heads, m, policy, first, second),
        working_copies: moved_map(r.working_copies, m, Some(target), second),
        bookmarks: moved_map(r.bookmarks, m, None, second),
    }
}

/// Pointers that named commits of a store name commits of the store that
/// the rewrites lead into.
pub proof fn lemma_followed_valid(
    r: RefsView,
    s: StoreView,
    m: Map<CommitId, CommitId>,
    policy: RemapPolicy,
    target: CommitId,
    first: CommitId,
    second: CommitId,
)
    requires
        r.valid_in(s),
        forall|x: CommitId| m.contains_key(x) ==> s.has_commit(#[trigger] m[x]),
        s.has_commit(first),
        s.has_commit(second),
    ensures
        followed(r, m, policy, target, first, second).valid_in(s),
{
    let f = followed(r, m, policy, target, first, second);
    lemma_remapped_members(r.heads, m, policy, first, second);
    assert forall|i: int| 0 <= i < f.heads.len() implies s.has_commit(#[trigger] f.heads[i]) by {
        let x = f.heads[i];
        assert(f.heads.contains(x));
        assert(remapped(r.heads, m, policy, first, second).contains(x));
        if x != first && x != second {
            let j = choose|j: int|
                0 <= j < r.heads.len() && x == rewritten_to(m, #[trigger] r.heads[j]);
            assert(s.has_commit(r.heads[j]));
        }
    }
    assert forall|k: Seq<char>| f.working_copies.contains_key(k) implies s.has_commit(
        #[trigger] f.working_copies[k],
    ) by {
        assert(s.has_commit(r.working_copies[k]));
    }
    assert forall|k: Seq<char>| f.bookmarks.contains_key(k) implies s.has_commit(
        #[trigger] f.bookmarks[k],
    ) by {
        assert(s.has_commit(r.bookmarks[k]));
    }
}

/// Moves every pointer of a map.
pub fn move_pointers(
    map: &mut NameMap<CommitId>,
    rewrites: &Rewrites,
    from: Option<CommitId>,
    to: CommitId,
)
    requires
        old(map).wf(),
        rewrites.wf(),
    ensures
        final(map).wf(),
        final(map).keys() == old(map).keys(),
        final(map)@ == moved_map(old(map)@, rewrites@, from, to),
{
    let ghost before = *map;
    let n = map.len();
    let mut i: usize = 0;
    while i < n
        invariant
            i <= n,
            before.wf(),
            map.wf(),
            rewrites.wf(),
            n == before.keys().len(),
            map.keys() == before.keys(),
            map.vals().len() == before.vals().len(),
            forall|j: int|
                0 <= j < i ==> map.vals()[j] == moved(before.vals()[j], rewrites@, from, to),
            forall|j: int| i <= j < n ==> map.vals()[j] == before.vals()[j],
        decreases n - i,
    {
        let v = map.value_at(i);
        let target = match from {
            Some(f) => if f == v {
                to
            } else {
                rewrites.follow(v)
            },
            None => rewrites.follow(v),
        };
        map.set_value_at(i, target);
        i += 1;
    }
    proof {
        let want = moved_map(before@, rewrites@, from, to);
        assert forall|k: Seq<char>| map@.contains_key(k) == want.contains_key(k) by {
            map.lemma_domain(k);
            before.lemma_domain(k);
        }
        assert forall|k: Seq<char>| map@.contains_key(k) implies map@[k] == want[k] by {
            map.lemma_domain(k);
            let j = map.keys().index_of(k);
            assert(map.keys()[j] == k);
            map.lemma_entry(j);
            before.lemma_entry(j);
        }
        assert(map@ =~= want);
    }
}

impl Refs {
    pub open spec fn wf(&self) -> bool {
        self.working_copies.wf() && self.bookmarks.wf()
    }

    /// The view of a repository that holds the root commit alone.
    pub fn new() -> (r: Refs)
        ensures
            r.wf(),
            r@.heads == seq![CommitId(0)],
            r@.working_copies == Map::<Seq<char>, CommitId>::empty(),
            r@.bookmarks == Map::<Seq<char>, CommitId>::empty(),
    {
        let mut heads: Vec<CommitId> = Vec::new();
        heads.push(CommitId(0));
        assert(heads@ =~= seq![CommitId(0)]);
        Refs { heads, working_copies: NameMap::new(), bookmarks: NameMap::new() }
    }

    pub fn copy(&self) -> (r: Refs)
        requires
            self.wf(),
        ensures
            r.wf(),
            r@ == self@,
    {
        Refs {
            heads: copy_ids(&self.heads),
            working_copies: self.working_copies.copy(),
            bookmarks: self.bookmarks.copy(),
        }
    }

    /// The working-copy commit of a workspace, if the workspace is known.
    pub fn working_copy(&self, workspace: &String) -> (r: Option<CommitId>)
        requires
            self.wf(),
        ensures
            r == crate::name_map::lookup(self@.working_copies, workspace@),
    {
        self.working_copies.get(workspace)
    }

    /// The commit that a bookmark points to, if there is such a bookmark.
    pub fn bookmark(&self, name: &String) -> (r: Option<CommitId>)
        requires
            self.wf(),
        ensures
            r == crate::name_map::lookup(self@.bookmarks, name@),
    {
        self.bookmarks.get(name)
    }

    /// Lets heads, working copies and bookmarks follow a split.
    pub fn follow(
        &mut self,
        rewrites: &Rewrites,
        policy: RemapPolicy,
        target: CommitId,
        first: CommitId,
        second: CommitId,
    )
        requires
            old(self).wf(),
            rewrites.wf(),
        ensures
            final(self).wf(),
            final(self)@ == followed(old(self)@, rewrites@, policy, target, first, second),
    {
        let heads = remap_parents(&self.heads, rewrites, policy, first, second);
        self.heads = heads;
        move_pointers(&mut self.working_copies, rewrites, Some(target), second);
        move_pointers(&mut self.bookmarks, rewrites, None, second);
    }
}

} // verus!
