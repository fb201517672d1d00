use crate::graph::is_listed;
use crate::ids::CommitId;
use vstd::prelude::*;

verus! {

/// How the descendants of a split commit find their new parents.
#[derive(Clone, Copy, Debug, PartialEq, Eq, Structural)]
pub enum RemapPolicy {
    /// Parent and child: the second commit takes the place of the first.
    Linear,
    /// Siblings: both take the place of the first.
    ParallelPlain,
    /// Siblings, with the old commit already recorded as rewritten to the
    /// second: both take the place of the second.
    ParallelLegacy,
}

impl RemapPolicy {
    pub open spec fn of(parallel: bool, legacy: bool) -> RemapPolicy {
        if !parallel {
            RemapPolicy::Linear
        } else if legacy {
            RemapPolicy::ParallelLegacy
        } else {
            RemapPolicy::ParallelPlain
        }
    }

    /// The parent that is looked for among a descendant's parents.
    pub open spec fn anchor(self, first: CommitId, second: CommitId) -> CommitId {
        match self {
            RemapPolicy::ParallelLegacy => second,
            _ => first,
        }
    }

    /// What is put in the anchor's place.
    pub open spec fn replacement(self, first: CommitId, second: CommitId) -> Seq<CommitId> {
        match self {
            RemapPolicy::Linear => seq![second],
            _ => seq![first, second],
        }
    }

    pub fn for_flags(parallel: bool, legacy: bool) -> (p: RemapPolicy)
        ensures
            p == RemapPolicy::of(parallel, legacy),
    {
        if !parallel {
            RemapPolicy::Linear
        } else if legacy {
            RemapPolicy::ParallelLegacy
        } else {
            RemapPolicy::ParallelPlain
        }
    }

    pub fn anchor_of(self, first: CommitId, second: CommitId) -> (a: CommitId)
        ensures
            a == self.anchor(first, second),
    {
        match self {
            RemapPolicy::ParallelLegacy => second,
            _ => first,
        }
    }

    pub fn replacement_of(self, first: CommitId, second: CommitId) -> (r: Vec<CommitId>)
        ensures
            r@ == self.replacement(first, second),
    {
        let mut r: Vec<CommitId> = Vec::new();
        match self {
            RemapPolicy::Linear => {
                r.push(second);
                assert(r@ =~= seq![second]);
            },
            _ => {
                r.push(first);
                r.push(second);
                assert(r@ =~= seq![first, second]);
            },
        }
        r
    }
}

/// The commit that stands for `id` once the recorded rewrites are followed.
pub open spec fn rewritten_to(m: Map<CommitId, CommitId>, id: CommitId) -> CommitId {
    if m.contains_key(id) {
        m[id]
    } else {
        id
    }
}

/// Each parent, followed through the recorded rewrites.
pub open spec fn resolve(parents: Seq<CommitId>, m: Map<CommitId, CommitId>) -> Seq<CommitId> {
    Seq::new(parents.len(), |i: int| rewritten_to(m, parents[i]))
}

/// The list with every occurrence of `old` replaced by the list `new`.
pub open spec fn replace(parents: Seq<CommitId>, old: CommitId, new: Seq<CommitId>) -> Seq<
    CommitId,
>
    decreases parents.len(),
{
    if parents.len() == 0 {
        Seq::empty()
    } else {
        replace(parents.drop_last(), old, new) + (if parents.last() == old {
            new
        } else {
            seq![parents.last()]
        })
    }
}

/// The list without repetitions: of equal ids the first one stays.
pub open spec fn unique(s: Seq<CommitId>) -> Seq<CommitId>
    decreases s.len(),
{
    if s.len() == 0 {
        Seq::empty()
    } else {
        let r = unique(s.drop_last());
        if r.contains(s.last()) {
            r
        } else {
            r.push(s.last())
        }
    }
}

/// The parents of a rebased descendant: its old parents followed through
/// the recorded rewrites, then the policy's anchor replaced, each time
/// without repetitions.
pub open spec fn remapped(
    parents: Seq<CommitId>,
    m: Map<CommitId, CommitId>,
    policy: RemapPolicy,
    first: CommitId,
    second: CommitId,
) -> Seq<CommitId> {
    unique(
        replace(
            unique(resolve(parents, m)),
            policy.anchor(first, second),
            policy.replacement(first, second),
        ),
    )
}

/// A list without repetitions has the members of the list it came from.
pub proof fn lemma_unique(s: Seq<CommitId>)
    ensures
        unique(s).no_duplicates(),
        forall|x: CommitId| unique(s).contains(x) == s.contains(x),
        s.len() > 0 ==> unique(s).len() > 0,
        unique(s).len() <= s.len(),
        s.len() > 0 ==> unique(s)[0] == s[0],
    decreases s.len(),
{
    if s.len() > 0 {
        let head = s.drop_last();
        let r = unique(head);
        lemma_unique(head);
        assert forall|x: CommitId| unique(s).contains(x) == s.contains(x) by {
            if s.contains(x) {
                let i = s.index_of(x);
                if i < head.len() {
                    assert(head[i] == x);
                    assert(head.contains(x));
                    assert(unique(head).contains(x) == head.contains(x));
                    assert(r.contains(x));
                    let j = r.index_of(x);
                    assert(unique(s)[j] == x);
                } else {
                    assert(x == s.last());
                    if !r.contains(x) {
                        assert(unique(s)[r.len() as int] == x);
                    }
                }
            }
            if unique(s).contains(x) {
                let j = unique(s).index_of(x);
                if j < r.len() {
                    assert(r[j] == x);
                    assert(r.contains(x));
                    assert(unique(head).contains(x) == head.contains(x));
                    assert(head.contains(x));
                    let i = head.index_of(x);
                    assert(s[i] == x);
                } else {
                    assert(x == s.last());
                    assert(s[s.len() - 1] == x);
                }
            }
        }
        if head.len() == 0 {
            assert(!r.contains(s.last()));
        }
    }
}

/// After a replacement the list holds what it held, but for `old`, and the
/// new ids where `old` was.
pub proof fn lemma_replace(parents: Seq<CommitId>, old: CommitId, new: Seq<CommitId>)
    ensures
        forall|x: CommitId|
            replace(parents, old, new).contains(x) == ((parents.contains(x) && x != old) || (
            parents.contains(old) && new.contains(x))),
        parents.len() > 0 && new.len() > 0 ==> replace(parents, old, new).len() > 0,
        !parents.contains(old) ==> replace(parents, old, new) == parents,
    decreases parents.len(),
{
    if parents.len() > 0 {
        let head = parents.drop_last();
        let last = parents.last();
        let tail = if last == old {
            new
        } else {
            seq![last]
        };
        let r = replace(head, old, new);
        lemma_replace(head, old, new);
        assert forall|x: CommitId|
            replace(parents, old, new).contains(x) == ((parents.contains(x) && x != old) || (
            parents.contains(old) && new.contains(x))) by {
            let out = replace(parents, old, new);
            assert(r.contains(x) == ((head.contains(x) && x != old) || (head.contains(old)
                && new.contains(x))));
            if out.contains(x) {
                let j = out.index_of(x);
                if j < r.len() {
                    assert(r[j] == x);
                    assert(r.contains(x));
                    if head.contains(x) {
                        let i = head.index_of(x);
                        assert(parents[i] == x);
                    }
                    if head.contains(old) {
                        let i = head.index_of(old);
                        assert(parents[i] == old);
                    }
                } else {
                    assert(tail[j - r.len()] == x);
                    assert(parents[parents.len() - 1] == last);
                    if last == old {
                        assert(new.contains(x));
                    }
                }
            }
            if parents.contains(x) && x != old {
                let i = parents.index_of(x);
                if i < head.len() {
                    assert(head[i] == x);
                    assert(head.contains(x));
                    assert(r.contains(x));
                    let j = r.index_of(x);
                    assert(out[j] == x);
                } else {
                    assert(tail[0] == x);
                    assert(out[r.len() as int] == x);
                }
            }
            if parents.contains(old) && new.contains(x) {
                let i = parents.index_of(old);
                if i < head.len() {
                    assert(head[i] == old);
                    assert(head.contains(old));
                    assert(r.contains(x));
                    let j = r.index_of(x);
                    assert(out[j] == x);
                } else {
                    let j = new.index_of(x);
                    assert(out[r.len() + j] == x);
                }
            }
        }
        if !parents.contains(old) {
            assert(!head.contains(old)) by {
                if head.contains(old) {
                    let i = head.index_of(old);
                    assert(parents[i] == old);
                }
            }
            assert(parents[parents.len() - 1] == last);
            assert(replace(parents, old, new) =~= parents);
        }
    } else {
        assert forall|x: CommitId| !parents.contains(x) by {}
    }
}

/// Rewrites of commits that are not among the parents do not matter.
pub proof fn lemma_resolve_agree(
    parents: Seq<CommitId>,
    m1: Map<CommitId, CommitId>,
    m2: Map<CommitId, CommitId>,
)
    requires
        forall|i: int|
            0 <= i < parents.len() ==> rewritten_to(m1, #[trigger] parents[i]) == rewritten_to(
                m2,
                parents[i],
            ),
    ensures
        resolve(parents, m1) == resolve(parents, m2),
{
    assert(resolve(parents, m1) =~= resolve(parents, m2));
}

/// One of the parents is rewritten to `x`, or is `x` and not rewritten.
pub open spec fn resolves_to(parents: Seq<CommitId>, m: Map<CommitId, CommitId>, x: CommitId)
    -> bool {
    exists|i: int| 0 <= i < parents.len() && rewritten_to(m, #[trigger] parents[i]) == x
}

/// The remapped parents are the rewrites of the old parents, but for the
/// anchor, and where the anchor was among them, the commits put in its place.
pub proof fn lemma_remapped_contains(
    parents: Seq<CommitId>,
    m: Map<CommitId, CommitId>,
    policy: RemapPolicy,
    first: CommitId,
    second: CommitId,
    x: CommitId,
)
    ensures
        remapped(parents, m, policy, first, second).contains(x) == ((resolves_to(parents, m, x)
            && x != policy.anchor(first, second)) || (resolves_to(
            parents,
            m,
            policy.anchor(first, second),
        ) && policy.replacement(first, second).contains(x))),
{
    let res = resolve(parents, m);
    let u = unique(res);
    let anchor = policy.anchor(first, second);
    let list = policy.replacement(first, second);
    let rep = replace(u, anchor, list);
    lemma_unique(res);
    lemma_replace(u, anchor, list);
    lemma_unique(rep);
    assert(unique(rep).contains(x) == rep.contains(x));
    assert(rep.contains(x) == ((u.contains(x) && x != anchor) || (u.contains(anchor)
        && list.contains(x))));
    assert(u.contains(x) == res.contains(x));
    assert(u.contains(anchor) == res.contains(anchor));
    assert forall|y: CommitId| res.contains(y) == resolves_to(parents, m, y) by {
        if res.contains(y) {
            let i = res.index_of(y);
            assert(rewritten_to(m, parents[i]) == y);
        }
        if resolves_to(parents, m, y) {
            let i = choose|i: int|
                0 <= i < parents.len() && rewritten_to(m, #[trigger] parents[i]) == y;
            assert(res[i] == y);
        }
    }
}

/// A remapped parent is the rewrite of an old parent, or one of the two
/// commits of the split; there is at least one if there was one before.
pub proof fn lemma_remapped_members(
    parents: Seq<CommitId>,
    m: Map<CommitId, CommitId>,
    policy: RemapPolicy,
    first: CommitId,
    second: CommitId,
)
    ensures
        forall|x: CommitId| #[trigger]
            remapped(parents, m, policy, first, second).contains(x) ==> x == first || x == second
                || exists|i: int|
                0 <= i < parents.len() && x == rewritten_to(m, #[trigger] parents[i]),
        parents.len() > 0 ==> remapped(parents, m, policy, first, second).len() > 0,
        remapped(parents, m, policy, first, second).no_duplicates(),
        !remapped(parents, m, policy, first, second).contains(policy.anchor(first, second))
            || policy.replacement(first, second).contains(policy.anchor(first, second)),
{
    let res = resolve(parents, m);
    let u = unique(res);
    let anchor = policy.anchor(first, second);
    let list = policy.replacement(first, second);
    let rep = replace(u, anchor, list);
    lemma_unique(res);
    lemma_replace(u, anchor, list);
    lemma_unique(rep);
    assert(list.len() > 0);
    assert forall|x: CommitId| #[trigger]
        remapped(parents, m, policy, first, second).contains(x) implies x == first || x == second
        || exists|i: int| 0 <= i < parents.len() && x == rewritten_to(m, #[trigger] parents[i]) by {
        assert(rep.contains(x));
        if u.contains(x) && x != anchor {
            assert(res.contains(x));
            let i = res.index_of(x);
            assert(x == rewritten_to(m, parents[i]));
        } else {
            assert(list.contains(x));
            let j = list.index_of(x);
            assert(list[j] == x);
        }
    }
}

/// The policy table, for a descendant whose one parent is the split commit:
/// in sequence it becomes a child of the second commit, in parallel a child
/// of both, whether the old commit is recorded as rewritten to the first
/// commit, to the second, or not at all.
pub proof fn lemma_policy_table(
    target: CommitId,
    m: Map<CommitId, CommitId>,
    legacy: bool,
    first: CommitId,
    second: CommitId,
)
    requires
        first != second,
        legacy ==> rewritten_to(m, target) == second,
        !legacy ==> rewritten_to(m, target) == first,
    ensures
        remapped(seq![target], m, RemapPolicy::of(false, legacy), first, second) == seq![second],
        remapped(seq![target], m, RemapPolicy::of(true, legacy), first, second) == seq![
            first,
            second,
        ],
{
    let res = resolve(seq![target], m);
    let to = rewritten_to(m, target);
    assert(res =~= seq![to]);
    reveal_with_fuel(unique, 3);
    reveal_with_fuel(replace, 3);
    assert(seq![to].drop_last() =~= Seq::<CommitId>::empty());
    assert(unique(seq![to]) =~= seq![to]);
    let linear = RemapPolicy::of(false, legacy);
    let parallel = RemapPolicy::of(true, legacy);
    if legacy {
        assert(replace(seq![to], linear.anchor(first, second), seq![second]) =~= seq![second]);
    } else {
        assert(replace(seq![to], linear.anchor(first, second), seq![second]) =~= seq![second]);
    }
    assert(seq![second].drop_last() =~= Seq::<CommitId>::empty());
    assert(unique(seq![second]) =~= seq![second]);
    assert(replace(seq![to], parallel.anchor(first, second), seq![first, second]) =~= seq![
        first,
        second,
    ]);
    assert(seq![first, second].drop_last() =~= seq![first]);
    assert(seq![first].drop_last() =~= Seq::<CommitId>::empty());
    assert(unique(seq![first]) =~= seq![first]);
    assert(unique(seq![first, second]) =~= seq![first, second]);
}

/// The commits rewritten so far in a transaction, each with the commit it
/// was rewritten to.
pub struct Rewrites {
    olds: Vec<CommitId>,
    news: Vec<CommitId>,
}

impl View for Rewrites {
    type V = Map<CommitId, CommitId>;

    closed spec fn view(&self) -> Map<CommitId, CommitId> {
        Map::new(
            |k: CommitId| self.olds@.contains(k),
            |k: CommitId| self.news@[self.olds@.index_of(k)],
        )
    }
}

impl Rewrites {
    pub closed spec fn wf(&self) -> bool {
        self.olds@.len() == self.news@.len() && self.olds@.no_duplicates()
    }

    /// The rewritten commits, in the order in which they were recorded.
    pub closed spec fn sources(&self) -> Seq<CommitId> {
        self.olds@
    }

    /// The replacements, each at the position of the commit it replaces.
    pub closed spec fn targets(&self) -> Seq<CommitId> {
        self.news@
    }

    /// The entries in order are the entries of the map.
    pub proof fn lemma_entries(&self)
        requires
            self.wf(),
        ensures
            self.sources().len() == self.targets().len(),
            forall|i: int|
                0 <= i < self.sources().len() ==> self@.contains_key(#[trigger] self.sources()[i])
                    && self@[self.sources()[i]] == self.targets()[i],
            forall|k: CommitId| self@.contains_key(k) ==> self.sources().contains(k),
    {
        assert forall|i: int| 0 <= i < self.sources().len() implies self@.contains_key(
            #[trigger] self.sources()[i],
        ) && self@[self.sources()[i]] == self.targets()[i] by {
            let k = self.olds@[i];
            assert(self.olds@.contains(k));
            assert(self.olds@.index_of(k) == i);
        }
    }

    pub fn len(&self) -> (n: usize)
        requires
            self.wf(),
        ensures
            n == self.sources().len(),
            n == self.targets().len(),
    {
        self.olds.len()
    }

    pub fn source_at(&self, i: usize) -> (id: CommitId)
        requires
            self.wf(),
            i < self.sources().len(),
        ensures
            id == self.sources()[i as int],
    {
        self.olds[i]
    }

    pub fn target_at(&self, i: usize) -> (id: CommitId)
        requires
            self.wf(),
            i < self.sources().len(),
        ensures
            id == self.targets()[i as int],
    {
        self.news[i]
    }

    pub fn new() -> (r: Rewrites)
        ensures
            r.wf(),
            r@ == Map::<CommitId, CommitId>::empty(),
    {
        let r = Rewrites { olds: Vec::new(), news: Vec::new() };
        assert(r@ =~= Map::<CommitId, CommitId>::empty());
        r
    }

    fn position(&self, old: CommitId) -> (r: Option<usize>)
        requires
            self.wf(),
        ensures
            match r {
                Some(i) => i < self.olds@.len() && self.olds@[i as int] == old
                    && self.olds@.index_of(old) == i,
                None => !self.olds@.contains(old),
            },
    {
        let mut i: usize = 0;
        while i < self.olds.len()
            invariant
                i <= self.olds.len(),
                self.wf(),
                forall|j: int| 0 <= j < i ==> self.olds@[j] != old,
            decreases self.olds.len() - i,
        {
            if self.olds[i] == old {
                return Some(i);
            }
            i += 1;
        }
        None
    }

    /// The commit that `old` was rewritten to, if it was rewritten.
    pub fn get(&self, old: CommitId) -> (r: Option<CommitId>)
        requires
            self.wf(),
        ensures
            r is Some == self@.contains_key(old),
            r matches Some(n) ==> n == self@[old],
    {
        match self.position(old) {
            Some(i) => Some(self.news[i]),
            None => None,
        }
    }

    /// The commit that stands for `id`: what it was rewritten to, or itself.
    pub fn follow(&self, id: CommitId) -> (r: CommitId)
        requires
            self.wf(),
        ensures
            r == rewritten_to(self@, id),
    {
        match self.get(id) {
            Some(n) => n,
            None => id,
        }
    }

    /// Records that `from` was rewritten to `to`, in place of what was
    /// recorded for `from` before.
    pub fn set(&mut self, from: CommitId, to: CommitId)
        requires
            old(self).wf(),
        ensures
            final(self).wf(),
            final(self)@ == old(self)@.insert(from, to),
    {
        let ghost before = *self;
        match self.position(from) {
            Some(i) => {
                self.news.set(i, to);
                proof {
                    assert forall|k: CommitId| self.olds@.contains(k) implies (#[trigger] self@[k])
                        == before@.insert(from, to)[k] by {
                        let j = self.olds@.index_of(k);
                        if k != from {
                            assert(j != i);
                        }
                    }
                    assert(self@ =~= before@.insert(from, to));
                }
            },
            None => {
                self.olds.push(from);
                self.news.push(to);
                proof {
                    let keys = self.olds@;
                    let n = before.olds@.len() as int;
                    assert(keys[n] == from);
                    assert forall|k: CommitId| keys.contains(k) == (before.olds@.contains(k) || k
                        == from) by {
                        if before.olds@.contains(k) {
                            let j = before.olds@.index_of(k);
                            assert(keys[j] == k);
                        }
                    }
                    assert forall|k: CommitId| keys.contains(k) implies (#[trigger] self@[k])
                        == before@.insert(from, to)[k] by {
                        let j = keys.index_of(k);
                        if k == from {
                            assert(j == n);
                        } else {
                            assert(j < n);
                            assert(before.olds@[j] == k);
                            assert(before.olds@.index_of(k) == j);
                        }
                    }
                    assert(self@ =~= before@.insert(from, to));
                }
            },
        }
    }
}

/// The list without repetitions.
pub fn unique_ids(ids: &Vec<CommitId>) -> (r: Vec<CommitId>)
    ensures
        r@ == unique(ids@),
{
    let mut r: Vec<CommitId> = Vec::new();
    let mut i: usize = 0;
    while i < ids.len()
        invariant
            i <= ids.len(),
            r@ == unique(ids@.subrange(0, i as int)),
        decreases ids.len() - i,
    {
        let id = ids[i];
        proof {
            let next = ids@.subrange(0, i + 1);
            assert(next.drop_last() =~= ids@.subrange(0, i as int));
            assert(next.last() == id);
        }
        if !is_listed(&r, id) {
            r.push(id);
        }
        i += 1;
    }
    assert(ids@.subrange(0, ids.len() as int) =~= ids@);
    r
}

/// Puts the commits `new` where `old` stands among the parents, and drops
/// repetitions.
pub fn replace_parent(parents: &Vec<CommitId>, old: CommitId, new: &Vec<CommitId>) -> (r: Vec<
    CommitId,
>)
    ensures
        r@ == unique(replace(parents@, old, new@)),
{
    let mut out: Vec<CommitId> = Vec::new();
    let mut i: usize = 0;
    while i < parents.len()
        invariant
            i <= parents.len(),
            out@ == replace(parents@.subrange(0, i as int), old, new@),
        decreases parents.len() - i,
    {
        let id = parents[i];
        let ghost before = out@;
        proof {
            let next = parents@.subrange(0, i + 1);
            assert(next.drop_last() =~= parents@.subrange(0, i as int));
            assert(next.last() == id);
        }
        if id == old {
            let mut j: usize = 0;
            while j < new.len()
                invariant
                    j <= new.len(),
                    out@ == before + new@.subrange(0, j as int),
                decreases new.len() - j,
            {
                out.push(new[j]);
                assert(out@ =~= before + new@.subrange(0, j + 1));
                j += 1;
            }
            assert(new@.subrange(0, new.len() as int) =~= new@);
        } else {
            out.push(id);
            assert(out@ =~= before + seq![id]);
        }
        i += 1;
    }
    assert(parents@.subrange(0, parents.len() as int) =~= parents@);
    unique_ids(&out)
}

/// Follows each parent through the recorded rewrites, and drops repetitions.
pub fn resolve_parents(parents: &Vec<CommitId>, rewrites: &Rewrites) -> (r: Vec<CommitId>)
    requires
        rewrites.wf(),
    ensures
        r@ == unique(resolve(parents@, rewrites@)),
{
    let mut out: Vec<CommitId> = Vec::new();
    let mut i: usize = 0;
    while i < parents.len()
        invariant
            i <= parents.len(),
            rewrites.wf(),
            out@.len() == i,
            forall|j: int| 0 <= j < i ==> out@[j] == rewritten_to(rewrites@, parents@[j]),
        decreases parents.len() - i,
    {
        out.push(rewrites.follow(parents[i]));
        i += 1;
    }
    assert(out@ =~= resolve(parents@, rewrites@));
    unique_ids(&out)
}

/// The parents of a rebased descendant.
pub fn remap_parents(
    parents: &Vec<CommitId>,
    rewrites: &Rewrites,
    policy: RemapPolicy,
    first: CommitId,
    second: CommitId,
) -> (r: Vec<CommitId>)
    requires
        rewrites.wf(),
    ensures
        r@ == remapped(parents@, rewrites@, policy, first, second),
{
    let resolved = resolve_parents(parents, rewrites);
    let list = policy.replacement_of(first, second);
    replace_parent(&resolved, policy.anchor_of(first, second), &list)
}

} // verus!
