use jj_cli::cascade::transform_descendants;
use jj_cli::graph::{descendants_to_rebase, mark_descendants, mark_live};
use jj_cli::ids::{ChangeId, CommitId, FileId, TreeId};
use jj_cli::remap::{
    remap_parents, replace_parent, resolve_parents, unique_ids, RemapPolicy, Rewrites,
};
use jj_cli::rewriter::{rebase, rewrite};
use jj_cli::store::{Store, StoreError};
use jj_cli::text::push_hex;
use jj_cli::tree::{Tree, TreeValue};

fn tree(entries: &[(&str, u64)]) -> Tree {
    let mut t = Tree::new();
    for (path, content) in entries {
        t.set(path.to_string(), TreeValue::File(FileId(*content)));
    }
    t
}

fn ids(list: &[usize]) -> Vec<CommitId> {
    list.iter().map(|i| CommitId(*i)).collect()
}

/// root - 1 - 2 - 4
///          \ 3 /     5 (child of root)
fn history() -> Store {
    let mut store = Store::new();
    let t1 = store.write_tree(tree(&[("a", 1)])).unwrap();
    let t2 = store.write_tree(tree(&[("a", 1), ("b", 2)])).unwrap();
    let t3 = store.write_tree(tree(&[("a", 1), ("c", 3)])).unwrap();
    let t4 = store.write_tree(tree(&[("a", 1), ("b", 2), ("c", 3)])).unwrap();
    let t5 = store.write_tree(tree(&[("z", 9)])).unwrap();
    assert_eq!(store.write_commit(ids(&[0]), t1, None, "one".to_string()), Ok(CommitId(1)));
    assert_eq!(store.write_commit(ids(&[1]), t2, None, "two".to_string()), Ok(CommitId(2)));
    assert_eq!(store.write_commit(ids(&[1]), t3, None, "three".to_string()), Ok(CommitId(3)));
    assert_eq!(store.write_commit(ids(&[2, 3]), t4, None, "four".to_string()), Ok(CommitId(4)));
    assert_eq!(store.write_commit(ids(&[0]), t5, None, "five".to_string()), Ok(CommitId(5)));
    store
}

#[test]
fn equal_content_has_one_id() {
    let mut store = Store::new();
    let a = store.write_tree(tree(&[("x", 1), ("y", 2)])).unwrap();
    let b = store.write_tree(tree(&[("y", 2), ("x", 1)])).unwrap();
    assert_eq!(a, TreeId(1));
    assert_eq!(a, b);
    assert_eq!(store.write_tree(Tree::new()), Ok(TreeId(0)));
    assert_eq!(store.tree_count(), 2);
    let c = store.write_commit(ids(&[0]), a, None, "c".to_string()).unwrap();
    let change = store.commit(c).change_id;
    assert_eq!(change, ChangeId(1));
    assert_eq!(store.write_commit(ids(&[0]), a, Some(change), "c".to_string()), Ok(c));
    assert_eq!(store.commit_count(), 2);
    assert_eq!(store.write_commit(ids(&[0]), a, None, "c".to_string()), Ok(CommitId(2)));
    assert_eq!(store.commit(CommitId(2)).change_id, ChangeId(2));
}

#[test]
fn merging_the_same_trees_again_gives_the_same_id() {
    let mut store = Store::new();
    let base = store.write_tree(tree(&[("x", 1), ("y", 2)])).unwrap();
    let selected = store.write_tree(tree(&[("x", 10), ("y", 2)])).unwrap();
    let end = store.write_tree(tree(&[("x", 10), ("y", 20)])).unwrap();
    let rest = store.merge_trees(end, base, selected).unwrap();
    assert_eq!(rest, TreeId(4));
    assert!(store.tree(rest).same_content(&tree(&[("x", 1), ("y", 20)])));
    let trees = store.tree_count();
    assert_eq!(store.merge_trees(end, base, selected), Ok(rest));
    assert_eq!(store.tree_count(), trees);
    // with everything selected nothing is left, with nothing selected everything
    assert_eq!(store.merge_trees(end, base, end), Ok(base));
    assert_eq!(store.merge_trees(end, base, base), Ok(end));
    assert_eq!(store.merge_trees(end, base, TreeId(99)), Err(StoreError::UnknownTree));
}

#[test]
fn the_store_refuses_what_it_cannot_hold() {
    let mut store = Store::with_capacity(1);
    assert_eq!(store.capacity(), 1);
    assert_eq!(store.write_commit(Vec::new(), TreeId(0), None, String::new()), Err(StoreError::NoParents));
    assert_eq!(
        store.write_commit(ids(&[1]), TreeId(0), None, String::new()),
        Err(StoreError::UnknownCommit)
    );
    assert_eq!(
        store.write_commit(ids(&[0]), TreeId(1), None, String::new()),
        Err(StoreError::UnknownTree)
    );
    assert_eq!(
        store.write_commit(ids(&[0]), TreeId(0), Some(ChangeId(1)), String::new()),
        Err(StoreError::UnknownChange)
    );
    assert_eq!(store.fault_of(&ids(&[0]), TreeId(0), Some(ChangeId(0))), None);
    assert_eq!(store.write_commit(ids(&[0]), TreeId(0), None, "one".to_string()), Ok(CommitId(1)));
    assert_eq!(
        store.write_commit(ids(&[1]), TreeId(0), None, "two".to_string()),
        Err(StoreError::Full)
    );
    assert_eq!(store.write_tree(tree(&[("a", 1)])), Ok(TreeId(1)));
    assert_eq!(store.write_tree(tree(&[("a", 2)])), Err(StoreError::Full));
    assert_eq!(store.write_tree(tree(&[("a", 1)])), Ok(TreeId(1)));
    assert_eq!(Store::with_capacity(usize::MAX).capacity(), usize::MAX - 1);
}

#[test]
fn empty_commits_and_parent_trees() {
    let mut store = history();
    assert_eq!(store.parent_tree(CommitId(0)), TreeId(0));
    assert_eq!(store.parent_tree(CommitId(2)), store.commit(CommitId(1)).tree);
    assert_eq!(store.parent_tree(CommitId(4)), store.commit(CommitId(2)).tree);
    // a merge builds on its first parent's tree with the other parent's change merged in
    assert!(store
        .merged_tree(&ids(&[2, 3]), 4)
        .same_content(&tree(&[("a", 1), ("b", 2), ("c", 3)])));
    assert!(store.merged_tree(&ids(&[3, 2]), 6).same_content(&tree(&[("a", 1), ("b", 2), ("c", 3)])));
    assert!(store.merged_tree(&ids(&[2, 5]), 6).same_content(&tree(&[("a", 1), ("b", 2), ("z", 9)])));
    assert!(store.merged_tree(&ids(&[2]), 6).same_content(&tree(&[("a", 1), ("b", 2)])));
    assert!(store.merged_tree(&Vec::new(), 0).same_content(&Tree::new()));
    assert!(store.is_empty_commit(CommitId(0)));
    assert!(!store.is_empty_commit(CommitId(1)));
    let t = store.commit(CommitId(5)).tree;
    let e = store.write_commit(ids(&[5]), t, None, String::new()).unwrap();
    assert!(store.is_empty_commit(e));
}

#[test]
fn live_commits_and_descendants() {
    let store = history();
    assert_eq!(mark_live(&store, &ids(&[4])), vec![true, true, true, true, true, false]);
    assert_eq!(mark_live(&store, &ids(&[3, 5])), vec![true, true, false, true, false, true]);
    assert_eq!(mark_live(&store, &ids(&[17])), vec![false; 6]);
    assert_eq!(mark_descendants(&store, &ids(&[1])), vec![false, false, true, true, true, false]);
    assert_eq!(mark_descendants(&store, &ids(&[2, 5])), vec![false, false, false, false, true, false]);
    assert_eq!(descendants_to_rebase(&store, &ids(&[4, 5]), &ids(&[1])), ids(&[2, 3, 4]));
    assert_eq!(descendants_to_rebase(&store, &ids(&[3]), &ids(&[1])), ids(&[3]));
    assert_eq!(descendants_to_rebase(&store, &ids(&[4]), &ids(&[1, 2])), ids(&[3, 4]));
    assert_eq!(descendants_to_rebase(&store, &ids(&[4]), &ids(&[0])), ids(&[1, 2, 3, 4]));
    assert_eq!(descendants_to_rebase(&store, &ids(&[4]), &ids(&[5])), ids(&[]));
}

#[test]
fn parents_are_remapped_by_the_policy() {
    let first = CommitId(10);
    let second = CommitId(11);
    let mut plain = Rewrites::new();
    plain.set(CommitId(1), first);
    let mut legacy = Rewrites::new();
    legacy.set(CommitId(1), first);
    legacy.set(CommitId(1), second);
    assert_eq!(legacy.len(), 1);
    assert_eq!(legacy.get(CommitId(1)), Some(second));
    assert_eq!(legacy.follow(CommitId(2)), CommitId(2));
    let linear = RemapPolicy::for_flags(false, false);
    assert_eq!(linear, RemapPolicy::Linear);
    assert_eq!(RemapPolicy::for_flags(false, true), RemapPolicy::Linear);
    assert_eq!(RemapPolicy::for_flags(true, false), RemapPolicy::ParallelPlain);
    assert_eq!(RemapPolicy::for_flags(true, true), RemapPolicy::ParallelLegacy);
    assert_eq!(remap_parents(&ids(&[1]), &plain, linear, first, second), ids(&[11]));
    assert_eq!(remap_parents(&ids(&[1]), &legacy, linear, first, second), ids(&[11]));
    assert_eq!(
        remap_parents(&ids(&[1]), &plain, RemapPolicy::ParallelPlain, first, second),
        ids(&[10, 11])
    );
    assert_eq!(
        remap_parents(&ids(&[1]), &legacy, RemapPolicy::ParallelLegacy, first, second),
        ids(&[10, 11])
    );
    assert_eq!(
        remap_parents(&ids(&[7, 1, 8]), &plain, RemapPolicy::ParallelPlain, first, second),
        ids(&[7, 10, 11, 8])
    );
    assert_eq!(remap_parents(&ids(&[7, 8]), &plain, linear, first, second), ids(&[7, 8]));
    assert_eq!(unique_ids(&ids(&[3, 1, 3, 2, 1])), ids(&[3, 1, 2]));
    assert_eq!(replace_parent(&ids(&[1, 2, 3]), CommitId(2), &ids(&[3, 4])), ids(&[1, 3, 4]));
    assert_eq!(replace_parent(&ids(&[1, 2]), CommitId(9), &ids(&[3, 4])), ids(&[1, 2]));
    assert_eq!(resolve_parents(&ids(&[1, 2, 1]), &plain), ids(&[10, 2]));
    assert_eq!(RemapPolicy::Linear.anchor_of(first, second), first);
    assert_eq!(RemapPolicy::ParallelLegacy.anchor_of(first, second), second);
    assert_eq!(RemapPolicy::Linear.replacement_of(first, second), ids(&[11]));
}

#[test]
fn a_rewrite_keeps_what_is_not_given_anew() {
    let mut store = history();
    let t = store.commit(CommitId(5)).tree;
    let kept = rewrite(&mut store, CommitId(2), None, None, None, false).unwrap();
    assert_eq!(kept, CommitId(2));
    let moved = rewrite(&mut store, CommitId(2), Some(ids(&[5])), Some(t), None, false).unwrap();
    assert_eq!(moved, CommitId(6));
    assert_eq!(store.commit(moved).parents, ids(&[5]));
    assert_eq!(store.commit(moved).tree, t);
    assert_eq!(store.commit(moved).change_id, store.commit(CommitId(2)).change_id);
    assert_eq!(store.commit(moved).description, "two");
    let fresh =
        rewrite(&mut store, CommitId(2), None, None, Some("new".to_string()), true).unwrap();
    assert_eq!(store.commit(fresh).change_id, ChangeId(fresh.0));
    assert_eq!(store.commit(fresh).description, "new");
    assert_eq!(store.commit(fresh).parents, ids(&[1]));
    assert_eq!(
        rewrite(&mut store, CommitId(99), None, None, None, false),
        Err(StoreError::UnknownCommit)
    );
    assert_eq!(rewrite(&mut store, CommitId(0), None, None, None, false), Err(StoreError::NoParents));
}

#[test]
fn a_rebase_carries_the_change_over() {
    let mut store = history();
    // commit 2 adds b on top of 1; onto 5 it adds b on top of z
    let moved = rebase(&mut store, CommitId(2), ids(&[5])).unwrap();
    assert!(store.tree(store.commit(moved).tree).same_content(&tree(&[("z", 9), ("b", 2)])));
    assert_eq!(store.commit(moved).parents, ids(&[5]));
    assert_eq!(store.commit(moved).description, "two");
    // onto its own parents nothing changes
    assert_eq!(rebase(&mut store, CommitId(2), ids(&[1])), Ok(CommitId(2)));
    assert_eq!(rebase(&mut store, CommitId(2), Vec::new()), Err(StoreError::NoParents));
    assert_eq!(rebase(&mut store, CommitId(2), ids(&[77])), Err(StoreError::UnknownCommit));
    assert_eq!(rebase(&mut store, CommitId(77), ids(&[1])), Err(StoreError::UnknownCommit));
}

#[test]
fn a_cascade_rebases_each_descendant_once() {
    let mut store = history();
    let t = store.write_tree(tree(&[("a", 100)])).unwrap();
    let second = rewrite(&mut store, CommitId(1), None, Some(t), None, true).unwrap();
    let mut rewrites = Rewrites::new();
    let count = transform_descendants(
        &mut store,
        &ids(&[4, 5]),
        &mut rewrites,
        &ids(&[1]),
        RemapPolicy::Linear,
        CommitId(1),
        second,
    );
    assert_eq!(count, Ok(3));
    assert_eq!(rewrites.len(), 3);
    let two = rewrites.get(CommitId(2)).unwrap();
    let three = rewrites.get(CommitId(3)).unwrap();
    let four = rewrites.get(CommitId(4)).unwrap();
    assert_eq!(rewrites.get(CommitId(5)), None);
    assert_eq!(store.commit(two).parents, vec![second]);
    assert_eq!(store.commit(three).parents, vec![second]);
    assert_eq!(store.commit(four).parents, vec![two, three]);
    assert!(store.tree(store.commit(two).tree).same_content(&tree(&[("a", 100), ("b", 2)])));
    assert!(store
        .tree(store.commit(four).tree)
        .same_content(&tree(&[("a", 100), ("b", 2), ("c", 3)])));
    assert_eq!(rewrites.source_at(0), CommitId(2));
    assert_eq!(rewrites.target_at(0), two);
}

#[test]
fn a_cascade_without_room_fails() {
    let mut store = Store::with_capacity(3);
    let t1 = store.write_tree(tree(&[("a", 1)])).unwrap();
    let t2 = store.write_tree(tree(&[("a", 1), ("b", 2)])).unwrap();
    let one = store.write_commit(ids(&[0]), t1, None, "one".to_string()).unwrap();
    let _two = store.write_commit(vec![one], t2, None, "two".to_string()).unwrap();
    let t = store.write_tree(tree(&[("a", 100)])).unwrap();
    let second = rewrite(&mut store, one, None, Some(t), None, true).unwrap();
    let mut rewrites = Rewrites::new();
    let count = transform_descendants(
        &mut store,
        &ids(&[2]),
        &mut rewrites,
        &ids(&[1]),
        RemapPolicy::Linear,
        one,
        second,
    );
    assert_eq!(count, Err(StoreError::Full));
}

#[test]
fn numbers_in_text() {
    let mut s = "id ".to_string();
    push_hex(&mut s, 0xbeef, 16);
    assert_eq!(s, "id 000000000000beef");
    let mut s = String::new();
    push_hex(&mut s, 0x1234, 2);
    assert_eq!(s, "34");
    let mut s = String::new();
    push_hex(&mut s, 7, 0);
    assert_eq!(s, "");
}
