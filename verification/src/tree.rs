use crate::ids::FileId;
use crate::name_map::{lookup, NameMap};
use vstd::prelude::*;

verus! {

/// What one term of a conflict held at the path.
#[derive(Clone, Copy, Debug, PartialEq, Eq, Structural)]
pub enum Side {
    /// The path did not exist.
    Absent,
    /// The path held a file.
    File(FileId),
    /// The path already held a conflict.
    Conflicted,
}

/// What a tree holds at a path.
#[derive(Clone, Copy, Debug, PartialEq, Eq, Structural)]
pub enum TreeValue {
    File(FileId),
    /// Both sides of a merge changed the path and disagreed.
    Conflict { base: Side, left: Side, right: Side },
}

/// A tree as mathematics: the paths it holds, each with its value.
pub type TreeMap = Map<Seq<char>, TreeValue>;

pub open spec fn side_of(v: Option<TreeValue>) -> Side {
    match v {
        None => Side::Absent,
        Some(TreeValue::File(f)) => Side::File(f),
        Some(TreeValue::Conflict { .. }) => Side::Conflicted,
    }
}

/// Three-way merge at one path: a side that kept the base's value yields to
/// the other; sides that agree win; sides that both changed and disagree
/// leave a conflict.
pub open spec fn merge_value(
    a: Option<TreeValue>,
    b: Option<TreeValue>,
    base: Option<TreeValue>,
) -> Option<TreeValue> {
    if a == b {
        a
    } else if a == base {
        b
    } else if b == base {
        a
    } else {
        Some(TreeValue::Conflict { base: side_of(base), left: side_of(a), right: side_of(b) })
    }
}

/// The merge of three trees at one path.
pub open spec fn merged_at(a: TreeMap, b: TreeMap, base: TreeMap, p: Seq<char>) -> Option<
    TreeValue,
> {
    merge_value(lookup(a, p), lookup(b, p), lookup(base, p))
}

/// Three-way merge of two trees against a base, path by path.
pub open spec fn merge_maps(a: TreeMap, b: TreeMap, base: TreeMap) -> TreeMap {
    Map::new(
        |p: Seq<char>| merged_at(a, b, base, p) is Some,
        |p: Seq<char>| merged_at(a, b, base, p).unwrap(),
    )
}

/// The tree that takes the chosen paths from `end` and every other path from `base`.
pub open spec fn chosen_at(base: TreeMap, end: TreeMap, chosen: Set<Seq<char>>, p: Seq<char>)
    -> Option<TreeValue> {
    if chosen.contains(p) {
        lookup(end, p)
    } else {
        lookup(base, p)
    }
}

pub open spec fn select_map(base: TreeMap, end: TreeMap, chosen: Set<Seq<char>>) -> TreeMap {
    Map::new(
        |p: Seq<char>| chosen_at(base, end, chosen, p) is Some,
        |p: Seq<char>| chosen_at(base, end, chosen, p).unwrap(),
    )
}

/// The names of a path list, as a set.
pub open spec fn path_set(paths: Seq<String>) -> Set<Seq<char>> {
    Set::new(|p: Seq<char>| exists|i: int| 0 <= i < paths.len() && (#[trigger] paths[i])@ == p)
}

/// The two trees differ at the path.
pub open spec fn changed(from: TreeMap, to: TreeMap, p: Seq<char>) -> bool {
    lookup(from, p) != lookup(to, p)
}

/// At every path the middle tree holds what `base` holds or what `end` holds.
pub open spec fn between(base: TreeMap, mid: TreeMap, end: TreeMap) -> bool {
    forall|p: Seq<char>|
        #[trigger] lookup(mid, p) == lookup(base, p) || lookup(mid, p) == lookup(end, p)
}

/// What remains of the change from `base` to `end` once the part that leads
/// to `selected` is taken out: `end` merged with `base`, with `selected` as
/// the merge base.
pub open spec fn complement_map(end: TreeMap, selected: TreeMap, base: TreeMap) -> TreeMap {
    merge_maps(end, base, selected)
}

pub open spec fn has_conflict_map(m: TreeMap) -> bool {
    exists|p: Seq<char>| m.contains_key(p) && #[trigger] m[p] is Conflict
}

/// Two maps that hold the same at every path are one map.
pub proof fn lemma_maps_equal(x: TreeMap, y: TreeMap)
    requires
        forall|p: Seq<char>| lookup(x, p) == lookup(y, p),
    ensures
        x == y,
{
    assert forall|p: Seq<char>| x.contains_key(p) == y.contains_key(p) by {
        assert(lookup(x, p) == lookup(y, p));
    }
    assert forall|p: Seq<char>| x.contains_key(p) implies x[p] == y[p] by {
        assert(lookup(x, p) == lookup(y, p));
    }
    assert(x =~= y);
}

/// A tree merged with another that is also the base stays as it is.
pub proof fn lemma_merge_unchanged(a: TreeMap, x: TreeMap)
    ensures
        merge_maps(a, x, x) == a,
{
    lemma_maps_equal(merge_maps(a, x, x), a);
}

/// With everything selected nothing remains; with nothing selected everything does.
pub proof fn lemma_complement_edges(end: TreeMap, base: TreeMap)
    ensures
        complement_map(end, end, base) == base,
        complement_map(end, base, base) == end,
{
    lemma_maps_equal(complement_map(end, end, base), base);
    lemma_maps_equal(complement_map(end, base, base), end);
}

/// Applying the first part's change to the base and then the second part's
/// change gives back the whole tree, whatever was selected.
pub proof fn lemma_sequential_round_trip(base: TreeMap, selected: TreeMap, end: TreeMap)
    ensures
        merge_maps(base, selected, base) == selected,
        merge_maps(selected, end, selected) == end,
{
    lemma_maps_equal(merge_maps(base, selected, base), selected);
    lemma_maps_equal(merge_maps(selected, end, selected), end);
}

/// Where the selection lies between base and end, each changed path is
/// changed by exactly one of the two sequential parts.
pub proof fn lemma_sequential_partition(
    base: TreeMap,
    selected: TreeMap,
    end: TreeMap,
    p: Seq<char>,
)
    requires
        between(base, selected, end),
    ensures
        changed(base, end, p) == (changed(base, selected, p) || changed(selected, end, p)),
        !(changed(base, selected, p) && changed(selected, end, p)),
{
    assert(lookup(selected, p) == lookup(base, p) || lookup(selected, p) == lookup(end, p));
}

/// Where the selection lies between base and end, the complement holds the
/// base's value at each selected change and the end's value elsewhere; each
/// changed path is changed by exactly one of the two parallel parts; and the
/// two parts merge back, against the base, into the whole tree.
pub proof fn lemma_parallel_partition(base: TreeMap, selected: TreeMap, end: TreeMap)
    requires
        between(base, selected, end),
    ensures
        forall|p: Seq<char>|
            #[trigger] lookup(complement_map(end, selected, base), p) == if changed(
                base,
                selected,
                p,
            ) {
                lookup(base, p)
            } else {
                lookup(end, p)
            },
        forall|p: Seq<char>|
            #[trigger] changed(base, end, p) == (changed(base, selected, p) || changed(
                base,
                complement_map(end, selected, base),
                p,
            )),
        forall|p: Seq<char>|
            !(#[trigger] changed(base, selected, p) && changed(
                base,
                complement_map(end, selected, base),
                p,
            )),
        merge_maps(selected, complement_map(end, selected, base), base) == end,
{
    let rest = complement_map(end, selected, base);
    assert forall|p: Seq<char>| #[trigger]
        lookup(rest, p) == if changed(base, selected, p) {
            lookup(base, p)
        } else {
            lookup(end, p)
        } by {
        assert(lookup(selected, p) == lookup(base, p) || lookup(selected, p) == lookup(end, p));
    }
    assert forall|p: Seq<char>| #[trigger]
        changed(base, end, p) == (changed(base, selected, p) || changed(base, rest, p)) by {
        assert(lookup(selected, p) == lookup(base, p) || lookup(selected, p) == lookup(end, p));
    }
    assert forall|p: Seq<char>| !(#[trigger] changed(base, selected, p) && changed(
        base,
        rest,
        p,
    )) by {
        assert(lookup(selected, p) == lookup(base, p) || lookup(selected, p) == lookup(end, p));
    }
    assert forall|p: Seq<char>| lookup(merge_maps(selected, rest, base), p) == lookup(end, p) by {
        assert(lookup(selected, p) == lookup(base, p) || lookup(selected, p) == lookup(end, p));
    }
    lemma_maps_equal(merge_maps(selected, rest, base), end);
}

/// A selection by paths lies between the base and the end.
pub proof fn lemma_select_between(base: TreeMap, end: TreeMap, chosen: Set<Seq<char>>)
    ensures
        between(base, select_map(base, end, chosen), end),
        forall|p: Seq<char>|
            lookup(select_map(base, end, chosen), p) == chosen_at(base, end, chosen, p),
{
    let mid = select_map(base, end, chosen);
    assert forall|p: Seq<char>| #[trigger]
        lookup(mid, p) == lookup(base, p) || lookup(mid, p) == lookup(end, p) by {
        assert(lookup(mid, p) == chosen_at(base, end, chosen, p));
    }
}

pub fn same_value(a: Option<TreeValue>, b: Option<TreeValue>) -> (r: bool)
    ensures
        r == (a == b),
{
    match (a, b) {
        (None, None) => true,
        (Some(x), Some(y)) => x == y,
        _ => false,
    }
}

pub fn side(v: Option<TreeValue>) -> (s: Side)
    ensures
        s == side_of(v),
{
    match v {
        None => Side::Absent,
        Some(TreeValue::File(f)) => Side::File(f),
        Some(TreeValue::Conflict { .. }) => Side::Conflicted,
    }
}

/// Three-way merge of what two sides and their base hold at one path.
pub fn merge_values(a: Option<TreeValue>, b: Option<TreeValue>, base: Option<TreeValue>) -> (r:
    Option<TreeValue>)
    ensures
        r == merge_value(a, b, base),
{
    if same_value(a, b) {
        a
    } else if same_value(a, base) {
        b
    } else if same_value(b, base) {
        a
    } else {
        Some(TreeValue::Conflict { base: side(base), left: side(a), right: side(b) })
    }
}

/// Whether a list of paths names the path.
pub fn names_path(paths: &Vec<String>, path: &String) -> (r: bool)
    ensures
        r == path_set(paths@).contains(path@),
{
    let mut i: usize = 0;
    while i < paths.len()
        invariant
            i <= paths.len(),
            forall|j: int| 0 <= j < i ==> (#[trigger] paths@[j])@ != path@,
        decreases paths.len() - i,
    {
        if paths[i] == *path {
            return true;
        }
        i += 1;
    }
    false
}

/// A snapshot of the file hierarchy: each path that exists, with its value.
pub struct Tree {
    entries: NameMap<TreeValue>,
}

impl View for Tree {
    type V = TreeMap;

    closed spec fn view(&self) -> TreeMap {
        self.entries@
    }
}

impl Tree {
    /// No path occurs twice.
    pub closed spec fn wf(&self) -> bool {
        self.entries.wf()
    }

    /// The paths, in the order in which `path_at` gives them.
    pub closed spec fn paths(&self) -> Seq<Seq<char>> {
        self.entries.keys()
    }

    /// The paths are those of the view, each once.
    pub proof fn lemma_paths(&self)
        requires
            self.wf(),
        ensures
            self.paths().no_duplicates(),
            forall|p: Seq<char>| self.paths().contains(p) == self@.contains_key(p),
    {
    }

    /// The tree without any path.
    pub fn new() -> (t: Tree)
        ensures
            t.wf(),
            t@ == TreeMap::empty(),
    {
        Tree { entries: NameMap::new() }
    }

    pub fn len(&self) -> (n: usize)
        requires
            self.wf(),
        ensures
            n == self.paths().len(),
    {
        self.entries.len()
    }

    pub fn path_at(&self, i: usize) -> (p: &String)
        requires
            self.wf(),
            i < self.paths().len(),
        ensures
            p@ == self.paths()[i as int],
            self@.contains_key(p@),
    {
        proof {
            self.entries.lemma_entry(i as int);
        }
        self.entries.key_at(i)
    }

    pub fn get(&self, path: &String) -> (r: Option<TreeValue>)
        requires
            self.wf(),
        ensures
            r == lookup(self@, path@),
    {
        self.entries.get(path)
    }

    pub fn set(&mut self, path: String, value: TreeValue)
        requires
            old(self).wf(),
        ensures
            final(self).wf(),
            final(self)@ == old(self)@.insert(path@, value),
    {
        self.entries.set(path, value);
    }

    pub fn remove(&mut self, path: &String)
        requires
            old(self).wf(),
        ensures
            final(self).wf(),
            final(self)@ == old(self)@.remove(path@),
    {
        self.entries.remove(path);
    }

    /// A tree with the same entries.
    pub fn copy(&self) -> (t: Tree)
        requires
            self.wf(),
        ensures
            t.wf(),
            t@ == self@,
    {
        Tree { entries: self.entries.copy() }
    }

    /// The paths at which this tree and the other differ, each once: first
    /// those of this tree, then those that only the other has.
    pub fn changed_paths(&self, other: &Tree) -> (out: Vec<String>)
        requires
            self.wf(),
            other.wf(),
        ensures
            forall|p: Seq<char>| path_set(out@).contains(p) == changed(self@, other@, p),
            forall|i: int, j: int| 0 <= i < j < out@.len() ==> out@[i]@ != out@[j]@,
    {
        let mut out: Vec<String> = Vec::new();
        let n = self.entries.len();
        let mut i: usize = 0;
        while i < n
            invariant
                i <= n,
                n == self.entries.keys().len(),
                self.wf(),
                other.wf(),
                forall|p: Seq<char>|
                    path_set(out@).contains(p) == (self.entries.keys().subrange(
                        0,
                        i as int,
                    ).contains(p) && changed(self@, other@, p)),
                forall|a: int, b: int| 0 <= a < b < out@.len() ==> out@[a]@ != out@[b]@,
            decreases n - i,
        {
            let k = self.entries.key_at(i);
            let v = self.entries.value_at(i);
            let ghost keys = self.entries.keys();
            let ghost before = out@;
            proof {
                self.entries.lemma_entry(i as int);
                assert(!keys.subrange(0, i as int).contains(keys[i as int]));
                assert(!path_set(before).contains(keys[i as int]));
            }
            let differs = !same_value(other.entries.get(k), Some(v));
            if differs {
                out.push(k.clone());
            }
            proof {
                assert forall|p: Seq<char>|
                    path_set(out@).contains(p) == (keys.subrange(0, i + 1).contains(p) && changed(
                        self@,
                        other@,
                        p,
                    )) by {
                    let was = keys.subrange(0, i as int).contains(p);
                    let now = keys.subrange(0, i + 1).contains(p);
                    assert(path_set(before).contains(p) == (was && changed(self@, other@, p)));
                    if path_set(before).contains(p) {
                        let x = choose|x: int| 0 <= x < before.len() && (#[trigger] before[x])@ == p;
                        assert(out@[x]@ == p);
                    }
                    if path_set(out@).contains(p) {
                        let x = choose|x: int| 0 <= x < out@.len() && (#[trigger] out@[x])@ == p;
                        if x < before.len() {
                            assert(before[x]@ == p);
                        }
                    }
                    if p == keys[i as int] {
                        assert(keys.subrange(0, i + 1)[i as int] == p);
                        if differs {
                            assert(out@[before.len() as int]@ == p);
                        }
                    } else {
                        if was {
                            let x = keys.subrange(0, i as int).index_of(p);
                            assert(keys.subrange(0, i + 1)[x] == p);
                        }
                        if now {
                            let x = keys.subrange(0, i + 1).index_of(p);
                            assert(x != i);
                            assert(keys.subrange(0, i as int)[x] == p);
                        }
                    }
                }
                assert forall|a: int, b: int| 0 <= a < b < out@.len() implies out@[a]@
                    != out@[b]@ by {
                    if b == before.len() {
                        assert(before[a]@ == out@[a]@);
                        assert(path_set(before).contains(before[a]@));
                    }
                }
            }
            i += 1;
        }
        let m = other.entries.len();
        let mut j: usize = 0;
        proof {
            assert(self.entries.keys().subrange(0, n as int) =~= self.entries.keys());
        }
        while j < m
            invariant
                j <= m,
                m == other.entries.keys().len(),
                self.wf(),
                other.wf(),
                forall|p: Seq<char>|
                    path_set(out@).contains(p) == ((self.entries.keys().contains(p)
                        || other.entries.keys().subrange(0, j as int).contains(p)) && changed(
                        self@,
                        other@,
                        p,
                    )),
                forall|a: int, b: int| 0 <= a < b < out@.len() ==> out@[a]@ != out@[b]@,
            decreases m - j,
        {
            let k = other.entries.key_at(j);
            let ghost keys = other.entries.keys();
            let ghost before = out@;
            proof {
                other.entries.lemma_entry(j as int);
                self.entries.lemma_domain(keys[j as int]);
                assert(!keys.subrange(0, j as int).contains(keys[j as int]));
            }
            let fresh = self.entries.get(k).is_none();
            if fresh {
                assert(!path_set(before).contains(keys[j as int]));
                out.push(k.clone());
            }
            proof {
                assert forall|p: Seq<char>|
                    path_set(out@).contains(p) == ((self.entries.keys().contains(p)
                        || keys.subrange(0, j + 1).contains(p)) && changed(self@, other@, p)) by {
                    let was = keys.subrange(0, j as int).contains(p);
                    let now = keys.subrange(0, j + 1).contains(p);
                    assert(path_set(before).contains(p) == ((self.entries.keys().contains(p)
                        || was) && changed(self@, other@, p)));
                    if path_set(before).contains(p) {
                        let x = choose|x: int| 0 <= x < before.len() && (#[trigger] before[x])@ == p;
                        assert(out@[x]@ == p);
                    }
                    if path_set(out@).contains(p) {
                        let x = choose|x: int| 0 <= x < out@.len() && (#[trigger] out@[x])@ == p;
                        if x < before.len() {
                            assert(before[x]@ == p);
                        }
                    }
                    if p == keys[j as int] {
                        assert(keys.subrange(0, j + 1)[j as int] == p);
                        if fresh {
                            assert(out@[before.len() as int]@ == p);
                        }
                    } else {
                        if was {
                            let x = keys.subrange(0, j as int).index_of(p);
                            assert(keys.subrange(0, j + 1)[x] == p);
                        }
                        if now {
                            let x = keys.subrange(0, j + 1).index_of(p);
                            assert(x != j);
                            assert(keys.subrange(0, j as int)[x] == p);
                        }
                    }
                }
                assert forall|a: int, b: int| 0 <= a < b < out@.len() implies out@[a]@
                    != out@[b]@ by {
                    if b == before.len() {
                        assert(before[a]@ == out@[a]@);
                        assert(path_set(before).contains(before[a]@));
                    }
                }
            }
            j += 1;
        }
        proof {
            assert(other.entries.keys().subrange(0, m as int) =~= other.entries.keys());
            assert forall|p: Seq<char>| path_set(out@).contains(p) == changed(self@, other@, p) by {
                self.entries.lemma_domain(p);
                other.entries.lemma_domain(p);
            }
        }
        out
    }

    /// Whether every entry of this tree is an entry of the other.
    fn included_in(&self, other: &Tree) -> (r: bool)
        requires
            self.wf(),
            other.wf(),
        ensures
            r == (forall|p: Seq<char>|
                self@.contains_key(p) ==> lookup(other@, p) == #[trigger] lookup(self@, p)),
    {
        let n = self.entries.len();
        let mut i: usize = 0;
        while i < n
            invariant
                i <= n,
                n == self.entries.keys().len(),
                self.wf(),
                other.wf(),
                forall|j: int|
                    0 <= j < i ==> lookup(other@, #[trigger] self.entries.keys()[j]) == lookup(
                        self@,
                        self.entries.keys()[j],
                    ),
            decreases n - i,
        {
            let k = self.entries.key_at(i);
            let v = self.entries.value_at(i);
            proof {
                self.entries.lemma_entry(i as int);
            }
            if !same_value(other.entries.get(k), Some(v)) {
                return false;
            }
            i += 1;
        }
        proof {
            assert forall|p: Seq<char>| self@.contains_key(p) implies lookup(other@, p)
                == #[trigger] lookup(self@, p) by {
                let j = self.entries.keys().index_of(p);
                assert(self.entries.keys()[j] == p);
            }
        }
        true
    }

    /// Whether two trees hold the same value at every path.
    pub fn same_content(&self, other: &Tree) -> (r: bool)
        requires
            self.wf(),
            other.wf(),
        ensures
            r == (self@ == other@),
    {
        let r = self.included_in(other) && other.included_in(self);
        proof {
            if r {
                assert forall|p: Seq<char>| lookup(self@, p) == lookup(other@, p) by {
                    if self@.contains_key(p) {
                        assert(lookup(other@, p) == lookup(self@, p));
                    } else if other@.contains_key(p) {
                        assert(lookup(self@, p) == lookup(other@, p));
                    }
                }
                lemma_maps_equal(self@, other@);
            }
        }
        r
    }

    /// Whether some path holds a conflict.
    pub fn has_conflict(&self) -> (r: bool)
        requires
            self.wf(),
        ensures
            r == has_conflict_map(self@),
    {
        let n = self.entries.len();
        let mut i: usize = 0;
        while i < n
            invariant
                i <= n,
                n == self.entries.keys().len(),
                self.wf(),
                forall|j: int| 0 <= j < i ==> !(#[trigger] self.entries.vals()[j] is Conflict),
            decreases n - i,
        {
            let v = self.entries.value_at(i);
            match v {
                TreeValue::Conflict { .. } => {
                    proof {
                        self.entries.lemma_entry(i as int);
                        assert(self@[self.entries.keys()[i as int]] is Conflict);
                    }
                    return true;
                },
                TreeValue::File(_) => {},
            }
            i += 1;
        }
        proof {
            assert forall|p: Seq<char>| self@.contains_key(p) implies !(#[trigger] self@[p]
                is Conflict) by {
                let j = self.entries.keys().index_of(p);
                assert(self.entries.keys()[j] == p);
                self.entries.lemma_entry(j);
                assert(!(self.entries.vals()[j] is Conflict));
            }
        }
        false
    }

    /// Three-way merge of this tree with another against their base.
    pub fn merge(&self, other: &Tree, base: &Tree) -> (out: Tree)
        requires
            self.wf(),
            other.wf(),
            base.wf(),
        ensures
            out.wf(),
            out@ == merge_maps(self@, other@, base@),
    {
        let mut out: NameMap<TreeValue> = NameMap::new();
        let n = self.entries.len();
        let mut i: usize = 0;
        while i < n
            invariant
                i <= n,
                n == self.entries.keys().len(),
                self.wf(),
                other.wf(),
                base.wf(),
                out.wf(),
                forall|p: Seq<char>|
                    #[trigger] lookup(out@, p) == if self.entries.keys().subrange(
                        0,
                        i as int,
                    ).contains(p) {
                        merged_at(self@, other@, base@, p)
                    } else {
                        None
                    },
            decreases n - i,
        {
            let k = self.entries.key_at(i);
            let va = self.entries.value_at(i);
            let ghost keys = self.entries.keys();
            let ghost before = out@;
            proof {
                self.entries.lemma_entry(i as int);
                assert(!keys.subrange(0, i as int).contains(keys[i as int]));
                assert(lookup(before, keys[i as int]) is None);
            }
            let v = merge_values(Some(va), other.entries.get(k), base.entries.get(k));
            match v {
                Some(x) => {
                    out.set(k.clone(), x);
                },
                None => {},
            }
            proof {
                assert forall|p: Seq<char>| #[trigger]
                    lookup(out@, p) == if keys.subrange(0, i + 1).contains(p) {
                        merged_at(self@, other@, base@, p)
                    } else {
                        None
                    } by {
                    let was = keys.subrange(0, i as int).contains(p);
                    let now = keys.subrange(0, i + 1).contains(p);
                    assert(lookup(before, p) == if was {
                        merged_at(self@, other@, base@, p)
                    } else {
                        None
                    });
                    if p == keys[i as int] {
                        assert(keys.subrange(0, i + 1)[i as int] == p);
                    } else {
                        if was {
                            let j = keys.subrange(0, i as int).index_of(p);
                            assert(keys.subrange(0, i + 1)[j] == p);
                        }
                        if now {
                            let j = keys.subrange(0, i + 1).index_of(p);
                            assert(j != i);
                            assert(keys.subrange(0, i as int)[j] == p);
                        }
                    }
                }
            }
            i += 1;
        }
        let m = other.entries.len();
        let mut j: usize = 0;
        proof {
            assert(self.entries.keys().subrange(0, n as int) =~= self.entries.keys());
        }
        while j < m
            invariant
                j <= m,
                m == other.entries.keys().len(),
                self.wf(),
                other.wf(),
                base.wf(),
                out.wf(),
                forall|p: Seq<char>|
                    #[trigger] lookup(out@, p) == if self.entries.keys().contains(p)
                        || other.entries.keys().subrange(0, j as int).contains(p) {
                        merged_at(self@, other@, base@, p)
                    } else {
                        None
                    },
            decreases m - j,
        {
            let k = other.entries.key_at(j);
            let vb = other.entries.value_at(j);
            let ghost keys = other.entries.keys();
            let ghost before = out@;
            proof {
                other.entries.lemma_entry(j as int);
                self.entries.lemma_domain(keys[j as int]);
                assert(!keys.subrange(0, j as int).contains(keys[j as int]));
            }
            if self.entries.get(k).is_none() {
                let v = merge_values(None, Some(vb), base.entries.get(k));
                match v {
                    Some(x) => {
                        out.set(k.clone(), x);
                    },
                    None => {},
                }
            }
            proof {
                assert forall|p: Seq<char>| #[trigger]
                    lookup(out@, p) == if self.entries.keys().contains(p) || keys.subrange(
                        0,
                        j + 1,
                    ).contains(p) {
                        merged_at(self@, other@, base@, p)
                    } else {
                        None
                    } by {
                    let was = keys.subrange(0, j as int).contains(p);
                    let now = keys.subrange(0, j + 1).contains(p);
                    assert(lookup(before, p) == if self.entries.keys().contains(p) || was {
                        merged_at(self@, other@, base@, p)
                    } else {
                        None
                    });
                    if p == keys[j as int] {
                        assert(keys.subrange(0, j + 1)[j as int] == p);
                    } else {
                        if was {
                            let x = keys.subrange(0, j as int).index_of(p);
                            assert(keys.subrange(0, j + 1)[x] == p);
                        }
                        if now {
                            let x = keys.subrange(0, j + 1).index_of(p);
                            assert(x != j);
                            assert(keys.subrange(0, j as int)[x] == p);
                        }
                    }
                }
            }
            j += 1;
        }
        proof {
            assert(other.entries.keys().subrange(0, m as int) =~= other.entries.keys());
            assert forall|p: Seq<char>|
                lookup(out@, p) == lookup(merge_maps(self@, other@, base@), p) by {
                self.entries.lemma_domain(p);
                other.entries.lemma_domain(p);
                assert(lookup(out@, p) == if self.entries.keys().contains(p)
                    || other.entries.keys().contains(p) {
                    merged_at(self@, other@, base@, p)
                } else {
                    None
                });
            }
            lemma_maps_equal(out@, merge_maps(self@, other@, base@));
        }
        Tree { entries: out }
    }

    /// The tree that takes the listed paths from `end` and every other path from `base`.
    pub fn select_paths(base: &Tree, end: &Tree, paths: &Vec<String>) -> (out: Tree)
        requires
            base.wf(),
            end.wf(),
        ensures
            out.wf(),
            out@ == select_map(base@, end@, path_set(paths@)),
    {
        let ghost chosen = path_set(paths@);
        let mut out: NameMap<TreeValue> = NameMap::new();
        let n = base.entries.len();
        let mut i: usize = 0;
        while i < n
            invariant
                i <= n,
                n == base.entries.keys().len(),
                base.wf(),
                end.wf(),
                out.wf(),
                chosen == path_set(paths@),
                forall|p: Seq<char>|
                    #[trigger] lookup(out@, p) == if !chosen.contains(p)
                        && base.entries.keys().subrange(0, i as int).contains(p) {
                        lookup(base@, p)
                    } else {
                        None
                    },
            decreases n - i,
        {
            let k = base.entries.key_at(i);
            let v = base.entries.value_at(i);
            let ghost keys = base.entries.keys();
            let ghost before = out@;
            proof {
                base.entries.lemma_entry(i as int);
                assert(!keys.subrange(0, i as int).contains(keys[i as int]));
            }
            if !names_path(paths, k) {
                out.set(k.clone(), v);
            }
            proof {
                assert forall|p: Seq<char>| #[trigger]
                    lookup(out@, p) == if !chosen.contains(p) && keys.subrange(
                        0,
                        i + 1,
                    ).contains(p) {
                        lookup(base@, p)
                    } else {
                        None
                    } by {
                    let was = keys.subrange(0, i as int).contains(p);
                    let now = keys.subrange(0, i + 1).contains(p);
                    assert(lookup(before, p) == if !chosen.contains(p) && was {
                        lookup(base@, p)
                    } else {
                        None
                    });
                    if p == keys[i as int] {
                        assert(keys.subrange(0, i + 1)[i as int] == p);
                    } else {
                        if was {
                            let x = keys.subrange(0, i as int).index_of(p);
                            assert(keys.subrange(0, i + 1)[x] == p);
                        }
                        if now {
                            let x = keys.subrange(0, i + 1).index_of(p);
                            assert(x != i);
                            assert(keys.subrange(0, i as int)[x] == p);
                        }
                    }
                }
            }
            i += 1;
        }
        let m = end.entries.len();
        let mut j: usize = 0;
        proof {
            assert(base.entries.keys().subrange(0, n as int) =~= base.entries.keys());
        }
        while j < m
            invariant
                j <= m,
                m == end.entries.keys().len(),
                base.wf(),
                end.wf(),
                out.wf(),
                chosen == path_set(paths@),
                forall|p: Seq<char>|
                    #[trigger] lookup(out@, p) == if !chosen.contains(p) {
                        lookup(base@, p)
                    } else if end.entries.keys().subrange(0, j as int).contains(p) {
                        lookup(end@, p)
                    } else {
                        None
                    },
            decreases m - j,
        {
            let k = end.entries.key_at(j);
            let v = end.entries.value_at(j);
            let ghost keys = end.entries.keys();
            let ghost before = out@;
            proof {
                end.entries.lemma_entry(j as int);
                assert(!keys.subrange(0, j as int).contains(keys[j as int]));
            }
            if names_path(paths, k) {
                out.set(k.clone(), v);
            }
            proof {
                assert forall|p: Seq<char>| #[trigger]
                    lookup(out@, p) == if !chosen.contains(p) {
                        lookup(base@, p)
                    } else if keys.subrange(0, j + 1).contains(p) {
                        lookup(end@, p)
                    } else {
                        None
                    } by {
                    let was = keys.subrange(0, j as int).contains(p);
                    let now = keys.subrange(0, j + 1).contains(p);
                    assert(lookup(before, p) == if !chosen.contains(p) {
                        lookup(base@, p)
                    } else if was {
                        lookup(end@, p)
                    } else {
                        None
                    });
                    if p == keys[j as int] {
                        assert(keys.subrange(0, j + 1)[j as int] == p);
                    } else {
                        if was {
                            let x = keys.subrange(0, j as int).index_of(p);
                            assert(keys.subrange(0, j + 1)[x] == p);
                        }
                        if now {
                            let x = keys.subrange(0, j + 1).index_of(p);
                            assert(x != j);
                            assert(keys.subrange(0, j as int)[x] == p);
                        }
                    }
                }
            }
            j += 1;
        }
        proof {
            assert(end.entries.keys().subrange(0, m as int) =~= end.entries.keys());
            assert forall|p: Seq<char>|
                lookup(out@, p) == lookup(select_map(base@, end@, chosen), p) by {
                base.entries.lemma_domain(p);
                end.entries.lemma_domain(p);
                assert(lookup(out@, p) == if !chosen.contains(p) {
                    lookup(base@, p)
                } else if end.entries.keys().contains(p) {
                    lookup(end@, p)
                } else {
                    None
                });
            }
            lemma_maps_equal(out@, select_map(base@, end@, chosen));
        }
        Tree { entries: out }
    }
}

} // verus!
