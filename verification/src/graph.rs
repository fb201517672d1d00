use crate::ids::CommitId;
use crate::store::{Store, StoreView};
use vstd::prelude::*;

verus! {

/// A commit descends from the roots when one of its parents is a root or
/// descends from the roots.
pub open spec fn descends(s: StoreView, roots: Seq<CommitId>, c: int) -> bool
    decreases c,
{
    0 <= c < s.commits.len() && exists|k: int|
        0 <= k < s.commits[c].parents.len() && {
            let p = #[trigger] s.commits[c].parents[k];
            p.0 < c && (roots.contains(p) || descends(s, roots, p.0 as int))
        }
}

/// A commit is live when it is a head or a parent of a live commit.
pub open spec fn live(s: StoreView, heads: Seq<CommitId>, c: int) -> bool
    decreases s.commits.len() - c,
{
    0 <= c < s.commits.len() && (heads.contains(CommitId(c as usize)) || exists|j: int|
        c < j < s.commits.len() && live(s, heads, j) && (#[trigger] s.commits[j]).parents.contains(
            CommitId(c as usize),
        ))
}

/// A commit is a head, or a parent of a live commit at or after `from`.
pub open spec fn live_from(s: StoreView, heads: Seq<CommitId>, c: int, from: int) -> bool {
    heads.contains(CommitId(c as usize)) || exists|j: int|
        from <= j < s.commits.len() && c < j && live(s, heads, j)
            && (#[trigger] s.commits[j]).parents.contains(CommitId(c as usize))
}

/// The commits that a cascade from the roots has to rebase: the live ones
/// that descend from a root and are no root themselves.
pub open spec fn to_rebase(s: StoreView, heads: Seq<CommitId>, roots: Seq<CommitId>, c: int)
    -> bool {
    live(s, heads, c) && descends(s, roots, c) && !roots.contains(CommitId(c as usize))
}

/// The set of commits that a cascade from the roots has to rebase.
pub open spec fn rebase_set(s: StoreView, heads: Seq<CommitId>, roots: Seq<CommitId>) -> Set<
    CommitId,
> {
    Set::new(|id: CommitId| to_rebase(s, heads, roots, id.0 as int))
}

/// The ids rise strictly: a walk along them meets parents before children
/// and no commit twice.
pub open spec fn ascending(ids: Seq<CommitId>) -> bool {
    forall|a: int, b: int| 0 <= a < b < ids.len() ==> ids[a].0 < ids[b].0
}

proof fn lemma_live_from_start(s: StoreView, heads: Seq<CommitId>, c: int)
    requires
        0 <= c < s.commits.len(),
    ensures
        live(s, heads, c) == live_from(s, heads, c, 0),
        live(s, heads, c) == live_from(s, heads, c, c + 1),
{
    let x = CommitId(c as usize);
    if live(s, heads, c) && !heads.contains(x) {
        let j = choose|j: int|
            c < j < s.commits.len() && live(s, heads, j)
                && (#[trigger] s.commits[j]).parents.contains(x);
        assert(live(s, heads, j) && s.commits[j].parents.contains(x));
        assert(live_from(s, heads, c, 0));
        assert(live_from(s, heads, c, c + 1));
    }
    if live_from(s, heads, c, 0) && !heads.contains(x) {
        let j = choose|j: int|
            0 <= j < s.commits.len() && c < j && live(s, heads, j)
                && (#[trigger] s.commits[j]).parents.contains(x);
        assert(live(s, heads, j) && s.commits[j].parents.contains(x));
        assert(live(s, heads, c));
    }
    if live_from(s, heads, c, c + 1) && !heads.contains(x) {
        let j = choose|j: int|
            c + 1 <= j < s.commits.len() && c < j && live(s, heads, j)
                && (#[trigger] s.commits[j]).parents.contains(x);
        assert(live(s, heads, j) && s.commits[j].parents.contains(x));
        assert(live(s, heads, c));
    }
}

proof fn lemma_live_step(s: StoreView, heads: Seq<CommitId>, c: int, t: int)
    requires
        0 <= c < s.commits.len(),
        0 <= t < s.commits.len(),
    ensures
        live_from(s, heads, c, t) == (live_from(s, heads, c, t + 1) || (c < t && live(
            s,
            heads,
            t,
        ) && s.commits[t].parents.contains(CommitId(c as usize)))),
{
    if live_from(s, heads, c, t) && !heads.contains(CommitId(c as usize)) {
        let j = choose|j: int|
            t <= j < s.commits.len() && c < j && live(s, heads, j)
                && (#[trigger] s.commits[j]).parents.contains(CommitId(c as usize));
        if j != t {
            assert(t + 1 <= j);
        }
    }
}

/// A commit that descends from a root is younger than some root.
pub proof fn lemma_descends_after_root(s: StoreView, roots: Seq<CommitId>, c: int)
    requires
        descends(s, roots, c),
    ensures
        exists|r: int| 0 <= r < roots.len() && (#[trigger] roots[r]).0 < c,
    decreases c,
{
    let k = choose|k: int|
        0 <= k < s.commits[c].parents.len() && {
            let p = #[trigger] s.commits[c].parents[k];
            p.0 < c && (roots.contains(p) || descends(s, roots, p.0 as int))
        };
    let p = s.commits[c].parents[k];
    if roots.contains(p) {
        let r = roots.index_of(p);
        assert(roots[r].0 < c);
    } else {
        lemma_descends_after_root(s, roots, p.0 as int);
    }
}

/// A parent of a live commit is live.
pub proof fn lemma_live_parent(s: StoreView, heads: Seq<CommitId>, c: int, k: int)
    requires
        s.wf(),
        live(s, heads, c),
        0 <= k < s.commits[c].parents.len(),
    ensures
        live(s, heads, s.commits[c].parents[k].0 as int),
{
    let p = s.commits[c].parents[k];
    assert(s.commit_ok(c));
    assert(p.0 < c);
    assert(s.commits[c].parents.contains(p));
    assert(live(s, heads, c) && (#[trigger] s.commits[c]).parents.contains(p));
}

/// Whatever is live and descends from a commit has that commit among the
/// live ones: liveness is closed under ancestors.
pub proof fn lemma_live_ancestor(s: StoreView, heads: Seq<CommitId>, root: CommitId, c: int)
    requires
        s.wf(),
        live(s, heads, c),
        descends(s, seq![root], c),
    ensures
        live(s, heads, root.0 as int),
    decreases c,
{
    let roots = seq![root];
    let k = choose|k: int|
        0 <= k < s.commits[c].parents.len() && {
            let p = #[trigger] s.commits[c].parents[k];
            p.0 < c && (roots.contains(p) || descends(s, roots, p.0 as int))
        };
    let p = s.commits[c].parents[k];
    lemma_live_parent(s, heads, c, k);
    if roots.contains(p) {
        let i = roots.index_of(p);
        assert(roots[i] == root);
    } else {
        lemma_live_ancestor(s, heads, root, p.0 as int);
    }
}

/// Commits written after the heads were set are not live, and the older
/// commits are live as they were.
pub proof fn lemma_live_extends(s0: StoreView, s1: StoreView, heads: Seq<CommitId>, c: int)
    requires
        s1.wf(),
        s1.extends(s0),
        forall|i: int| 0 <= i < heads.len() ==> s0.has_commit(#[trigger] heads[i]),
        0 <= c,
    ensures
        live(s1, heads, c) == (c < s0.commits.len() && live(s0, heads, c)),
    decreases s1.commits.len() - c,
{
    let x = CommitId(c as usize);
    if c < s1.commits.len() {
        if heads.contains(x) {
            let i = heads.index_of(x);
            assert(s0.has_commit(heads[i]));
        } else {
            if live(s1, heads, c) {
                let j = choose|j: int|
                    c < j < s1.commits.len() && live(s1, heads, j)
                        && (#[trigger] s1.commits[j]).parents.contains(x);
                lemma_live_extends(s0, s1, heads, j);
                assert(s0.commits[j] == s1.commits[j]);
                assert(live(s0, heads, j) && (#[trigger] s0.commits[j]).parents.contains(x));
                assert(live(s0, heads, c)) by {
                    assert(c < j < s0.commits.len());
                }
            }
            if c < s0.commits.len() && live(s0, heads, c) {
                let j = choose|j: int|
                    c < j < s0.commits.len() && live(s0, heads, j)
                        && (#[trigger] s0.commits[j]).parents.contains(x);
                lemma_live_extends(s0, s1, heads, j);
                assert(s0.commits[j] == s1.commits[j]);
                assert(live(s1, heads, j) && (#[trigger] s1.commits[j]).parents.contains(x));
            }
        }
    }
}

/// Whether an older commit descends from the roots does not depend on what
/// was written later.
pub proof fn lemma_descends_extends(s0: StoreView, s1: StoreView, roots: Seq<CommitId>, c: int)
    requires
        s1.extends(s0),
        0 <= c < s0.commits.len(),
    ensures
        descends(s1, roots, c) == descends(s0, roots, c),
    decreases c,
{
    assert(s0.commits[c] == s1.commits[c]);
    if descends(s1, roots, c) {
        let k = choose|k: int|
            0 <= k < s1.commits[c].parents.len() && {
                let p = #[trigger] s1.commits[c].parents[k];
                p.0 < c && (roots.contains(p) || descends(s1, roots, p.0 as int))
            };
        let p = s1.commits[c].parents[k];
        if !roots.contains(p) {
            lemma_descends_extends(s0, s1, roots, p.0 as int);
        }
        assert(s0.commits[c].parents[k] == p);
    }
    if descends(s0, roots, c) {
        let k = choose|k: int|
            0 <= k < s0.commits[c].parents.len() && {
                let p = #[trigger] s0.commits[c].parents[k];
                p.0 < c && (roots.contains(p) || descends(s0, roots, p.0 as int))
            };
        let p = s0.commits[c].parents[k];
        if !roots.contains(p) {
            lemma_descends_extends(s0, s1, roots, p.0 as int);
        }
        assert(s1.commits[c].parents[k] == p);
    }
}

/// The commits to rebase are the same whether they are looked for before
/// or after further commits were written.
pub proof fn lemma_rebase_set_extends(
    s0: StoreView,
    s1: StoreView,
    heads: Seq<CommitId>,
    roots: Seq<CommitId>,
)
    requires
        s1.wf(),
        s1.extends(s0),
        forall|i: int| 0 <= i < heads.len() ==> s0.has_commit(#[trigger] heads[i]),
    ensures
        rebase_set(s1, heads, roots) == rebase_set(s0, heads, roots),
{
    assert forall|id: CommitId|
        to_rebase(s1, heads, roots, id.0 as int) == to_rebase(s0, heads, roots, id.0 as int) by {
        lemma_live_extends(s0, s1, heads, id.0 as int);
        if id.0 < s0.commits.len() {
            lemma_descends_extends(s0, s1, roots, id.0 as int);
        }
    }
    assert(rebase_set(s1, heads, roots) =~= rebase_set(s0, heads, roots));
}

/// The number of commits to rebase is the length of any ascending list of
/// exactly those commits.
pub proof fn lemma_rebase_count(
    s: StoreView,
    heads: Seq<CommitId>,
    roots: Seq<CommitId>,
    ids: Seq<CommitId>,
)
    requires
        ascending(ids),
        forall|id: CommitId| ids.contains(id) == to_rebase(s, heads, roots, id.0 as int),
    ensures
        rebase_set(s, heads, roots).finite(),
        rebase_set(s, heads, roots).len() == ids.len(),
        ids.no_duplicates(),
{
    assert(ids.no_duplicates()) by {
        assert forall|a: int, b: int| 0 <= a < ids.len() && 0 <= b < ids.len() && a
            != b implies ids[a] != ids[b] by {
            if a < b {
                assert(ids[a].0 < ids[b].0);
            } else {
                assert(ids[b].0 < ids[a].0);
            }
        }
    }
    ids.unique_seq_to_set();
    assert(ids.to_set() =~= rebase_set(s, heads, roots));
}

pub fn is_listed(ids: &Vec<CommitId>, id: CommitId) -> (r: bool)
    ensures
        r == ids@.contains(id),
{
    let mut i: usize = 0;
    while i < ids.len()
        invariant
            i <= ids.len(),
            forall|j: int| 0 <= j < i ==> ids@[j] != id,
        decreases ids.len() - i,
    {
        if ids[i] == id {
            return true;
        }
        i += 1;
    }
    false
}

fn all_false(n: usize) -> (marks: Vec<bool>)
    ensures
        marks.len() == n,
        forall|c: int| 0 <= c < n ==> !marks[c],
{
    let mut marks: Vec<bool> = Vec::new();
    let mut i: usize = 0;
    while i < n
        invariant
            i <= n,
            marks.len() == i,
            forall|c: int| 0 <= c < i ==> !marks[c],
        decreases n - i,
    {
        marks.push(false);
        i += 1;
    }
    marks
}

/// Marks the live commits: the heads and all their ancestors.
pub fn mark_live(store: &Store, heads: &Vec<CommitId>) -> (marks: Vec<bool>)
    requires
        store.wf(),
    ensures
        marks.len() == store@.commits.len(),
        forall|c: int| 0 <= c < marks.len() ==> marks[c] == live(store@, heads@, c),
{
    let n = store.commit_count();
    let mut marks = all_false(n);
    let mut h: usize = 0;
    while h < heads.len()
        invariant
            h <= heads.len(),
            marks.len() == n,
            forall|c: int|
                0 <= c < n ==> marks[c] == heads@.subrange(0, h as int).contains(
                    CommitId(c as usize),
                ),
        decreases heads.len() - h,
    {
        let id = heads[h];
        let ghost before = marks@;
        if id.0 < n {
            marks.set(id.0, true);
        }
        proof {
            assert forall|c: int| 0 <= c < n implies marks[c] == heads@.subrange(
                0,
                h + 1,
            ).contains(CommitId(c as usize)) by {
                let x = CommitId(c as usize);
                let was = heads@.subrange(0, h as int).contains(x);
                let now = heads@.subrange(0, h + 1).contains(x);
                assert(before[c] == was);
                if x == id {
                    assert(heads@.subrange(0, h + 1)[h as int] == x);
                } else {
                    if was {
                        let j = heads@.subrange(0, h as int).index_of(x);
                        assert(heads@.subrange(0, h + 1)[j] == x);
                    }
                    if now {
                        let j = heads@.subrange(0, h + 1).index_of(x);
                        assert(heads@.subrange(0, h as int)[j] == x);
                    }
                }
            }
        }
        h += 1;
    }
    proof {
        assert(heads@.subrange(0, heads.len() as int) =~= heads@);
    }
    let mut i: usize = n;
    while i > 0
        invariant
            i <= n,
            n == store@.commits.len(),
            marks.len() == n,
            store.wf(),
            forall|c: int| 0 <= c < n ==> marks[c] == live_from(store@, heads@, c, i as int),
        decreases i,
    {
        i -= 1;
        let ghost t = i as int;
        proof {
            lemma_live_from_start(store@, heads@, t);
            assert(store@.commit_ok(t));
            assert forall|c: int| 0 <= c < n implies live_from(store@, heads@, c, t)
                == (live_from(store@, heads@, c, t + 1) || (c < t && live(store@, heads@, t)
                && store@.commits[t].parents.contains(CommitId(c as usize)))) by {
                lemma_live_step(store@, heads@, c, t);
            }
        }
        if marks[i] {
            let parents = &store.commit(CommitId(i)).parents;
            let mut k: usize = 0;
            while k < parents.len()
                invariant
                    k <= parents.len(),
                    n == store@.commits.len(),
                    marks.len() == n,
                    t == i,
                    t < n,
                    parents@ == store@.commits[t].parents,
                    store@.commit_ok(t),
                    forall|c: int|
                        0 <= c < n ==> marks[c] == (live_from(store@, heads@, c, t + 1)
                            || parents@.subrange(0, k as int).contains(CommitId(c as usize))),
                decreases parents.len() - k,
            {
                let p = parents[k];
                let ghost before = marks@;
                assert(parents@[k as int].0 < t);
                marks.set(p.0, true);
                proof {
                    assert forall|c: int| 0 <= c < n implies marks[c] == (live_from(
                        store@,
                        heads@,
                        c,
                        t + 1,
                    ) || parents@.subrange(0, k + 1).contains(CommitId(c as usize))) by {
                        let x = CommitId(c as usize);
                        let was = parents@.subrange(0, k as int).contains(x);
                        let now = parents@.subrange(0, k + 1).contains(x);
                        assert(before[c] == (live_from(store@, heads@, c, t + 1) || was));
                        if x == p {
                            assert(parents@.subrange(0, k + 1)[k as int] == x);
                        } else {
                            if was {
                                let j = parents@.subrange(0, k as int).index_of(x);
                                assert(parents@.subrange(0, k + 1)[j] == x);
                            }
                            if now {
                                let j = parents@.subrange(0, k + 1).index_of(x);
                                assert(parents@.subrange(0, k as int)[j] == x);
                            }
                        }
                    }
                }
                k += 1;
            }
            proof {
                assert(parents@.subrange(0, parents.len() as int) =~= parents@);
                assert forall|x: CommitId| #[trigger] parents@.contains(x) implies x.0 < t by {
                    let j = parents@.index_of(x);
                    assert(parents@[j].0 < t);
                }
            }
        }
    }
    proof {
        assert forall|c: int| 0 <= c < marks.len() implies marks[c] == live(
            store@,
            heads@,
            c,
        ) by {
            lemma_live_from_start(store@, heads@, c);
        }
    }
    marks
}

/// Marks the commits that descend from the roots.
pub fn mark_descendants(store: &Store, roots: &Vec<CommitId>) -> (marks: Vec<bool>)
    requires
        store.wf(),
    ensures
        marks.len() == store@.commits.len(),
        forall|c: int| 0 <= c < marks.len() ==> marks[c] == descends(store@, roots@, c),
{
    let n = store.commit_count();
    let mut marks: Vec<bool> = Vec::new();
    let mut i: usize = 0;
    while i < n
        invariant
            i <= n,
            n == store@.commits.len(),
            marks.len() == i,
            store.wf(),
            forall|c: int| 0 <= c < i ==> marks[c] == descends(store@, roots@, c),
        decreases n - i,
    {
        let parents = &store.commit(CommitId(i)).parents;
        let mut found = false;
        let mut k: usize = 0;
        assert(store@.commit_ok(i as int));
        while k < parents.len()
            invariant
                k <= parents.len(),
                i < n,
                n == store@.commits.len(),
                marks.len() == i,
                parents@ == store@.commits[i as int].parents,
                store@.commit_ok(i as int),
                forall|c: int| 0 <= c < i ==> marks[c] == descends(store@, roots@, c),
                found == exists|j: int|
                    0 <= j < k && {
                        let p = #[trigger] parents@[j];
                        p.0 < i && (roots@.contains(p) || descends(store@, roots@, p.0 as int))
                    },
            decreases parents.len() - k,
        {
            let p = parents[k];
            assert(parents@[k as int].0 < i);
            if is_listed(roots, p) || marks[p.0] {
                found = true;
            }
            k += 1;
        }
        marks.push(found);
        i += 1;
    }
    marks
}

/// The commits that a cascade from the roots has to rebase, parents before
/// children and each once.
pub fn descendants_to_rebase(store: &Store, heads: &Vec<CommitId>, roots: &Vec<CommitId>) -> (ids:
    Vec<CommitId>)
    requires
        store.wf(),
    ensures
        ascending(ids@),
        forall|id: CommitId| ids@.contains(id) == to_rebase(store@, heads@, roots@, id.0 as int),
        forall|k: int| 0 <= k < ids.len() ==> 0 < (#[trigger] ids[k]).0 < store@.commits.len(),
        ids.len() == rebase_set(store@, heads@, roots@).len(),
{
    let n = store.commit_count();
    let live_marks = mark_live(store, heads);
    let descendant_marks = mark_descendants(store, roots);
    let mut ids: Vec<CommitId> = Vec::new();
    let mut i: usize = 0;
    while i < n
        invariant
            i <= n,
            n == store@.commits.len(),
            live_marks.len() == n,
            descendant_marks.len() == n,
            forall|c: int| 0 <= c < n ==> live_marks[c] == live(store@, heads@, c),
            forall|c: int| 0 <= c < n ==> descendant_marks[c] == descends(store@, roots@, c),
            ascending(ids@),
            forall|k: int| 0 <= k < ids.len() ==> 0 < (#[trigger] ids[k]).0 < i,
            forall|id: CommitId|
                ids@.contains(id) == (id.0 < i && to_rebase(store@, heads@, roots@, id.0 as int)),
        decreases n - i,
    {
        let ghost before = ids@;
        if live_marks[i] && descendant_marks[i] && !is_listed(roots, CommitId(i)) {
            proof {
                if i == 0 {
                    lemma_descends_after_root(store@, roots@, 0);
                }
            }
            ids.push(CommitId(i));
        }
        proof {
            assert forall|id: CommitId| ids@.contains(id) == (id.0 < i + 1 && to_rebase(
                store@,
                heads@,
                roots@,
                id.0 as int,
            )) by {
                if before.contains(id) {
                    let j = before.index_of(id);
                    assert(ids@[j] == id);
                }
                if ids@.contains(id) {
                    let j = ids@.index_of(id);
                    if j < before.len() {
                        assert(before[j] == id);
                    }
                }
                if id.0 == i && ids@.len() > before.len() {
                    assert(ids@[before.len() as int] == id);
                }
            }
        }
        i += 1;
    }
    proof {
        lemma_rebase_count(store@, heads@, roots@, ids@);
    }
    ids
}

} // verus!
