use jj_cli::ids::FileId;
use jj_cli::tree::{merge_values, names_path, same_value, side, Side, Tree, TreeValue};

fn file(content: u64) -> Option<TreeValue> {
    Some(TreeValue::File(FileId(content)))
}

fn tree(entries: &[(&str, u64)]) -> Tree {
    let mut t = Tree::new();
    for (path, content) in entries {
        t.set(path.to_string(), TreeValue::File(FileId(*content)));
    }
    t
}

#[test]
fn a_side_that_kept_the_base_yields_to_the_other() {
    assert_eq!(merge_values(file(1), file(2), file(1)), file(2));
    assert_eq!(merge_values(file(2), file(1), file(1)), file(2));
    assert_eq!(merge_values(None, file(1), None), file(1));
    assert_eq!(merge_values(file(1), None, file(1)), None);
}

#[test]
fn sides_that_agree_win() {
    assert_eq!(merge_values(file(2), file(2), file(1)), file(2));
    assert_eq!(merge_values(None, None, file(1)), None);
    assert_eq!(merge_values(file(1), file(1), file(1)), file(1));
}

#[test]
fn sides_that_disagree_leave_a_conflict() {
    assert_eq!(
        merge_values(file(2), file(3), file(1)),
        Some(TreeValue::Conflict {
            base: Side::File(FileId(1)),
            left: Side::File(FileId(2)),
            right: Side::File(FileId(3))
        })
    );
    assert_eq!(
        merge_values(None, file(3), file(1)),
        Some(TreeValue::Conflict {
            base: Side::File(FileId(1)),
            left: Side::Absent,
            right: Side::File(FileId(3))
        })
    );
    let conflict = merge_values(file(2), file(3), None);
    assert_eq!(side(conflict), Side::Conflicted);
    assert_eq!(
        merge_values(conflict, file(4), file(1)),
        Some(TreeValue::Conflict {
            base: Side::File(FileId(1)),
            left: Side::Conflicted,
            right: Side::File(FileId(4))
        })
    );
    assert_eq!(merge_values(conflict, file(4), conflict), file(4));
}

#[test]
fn values_are_compared_by_what_they_hold() {
    assert!(same_value(file(1), file(1)));
    assert!(!same_value(file(1), file(2)));
    assert!(!same_value(file(1), None));
    assert!(same_value(None, None));
}

#[test]
fn a_tree_is_a_map_from_paths() {
    let mut t = Tree::new();
    assert_eq!(t.len(), 0);
    t.set("a".to_string(), TreeValue::File(FileId(1)));
    t.set("b".to_string(), TreeValue::File(FileId(2)));
    t.set("a".to_string(), TreeValue::File(FileId(3)));
    assert_eq!(t.len(), 2);
    assert_eq!(t.get(&"a".to_string()), file(3));
    assert_eq!(t.path_at(1), "b");
    t.remove(&"a".to_string());
    t.remove(&"never".to_string());
    assert_eq!(t.get(&"a".to_string()), None);
    assert_eq!(t.len(), 1);
    assert!(t.same_content(&tree(&[("b", 2)])));
}

#[test]
fn trees_with_the_same_entries_in_another_order_are_the_same() {
    let a = tree(&[("x", 1), ("y", 2)]);
    let b = tree(&[("y", 2), ("x", 1)]);
    assert!(a.same_content(&b));
    assert!(!a.same_content(&tree(&[("x", 1)])));
    assert!(!tree(&[("x", 1)]).same_content(&a));
    assert!(!a.same_content(&tree(&[("x", 1), ("y", 3)])));
}

#[test]
fn a_merge_goes_path_by_path() {
    let base = tree(&[("same", 1), ("ours", 1), ("theirs", 1), ("both", 1), ("gone", 1)]);
    let ours = tree(&[("same", 1), ("ours", 2), ("theirs", 1), ("both", 2), ("new", 7)]);
    let theirs = tree(&[("same", 1), ("ours", 1), ("theirs", 3), ("both", 3), ("gone", 1)]);
    let merged = ours.merge(&theirs, &base);
    assert_eq!(merged.get(&"same".to_string()), file(1));
    assert_eq!(merged.get(&"ours".to_string()), file(2));
    assert_eq!(merged.get(&"theirs".to_string()), file(3));
    assert_eq!(merged.get(&"new".to_string()), file(7));
    assert_eq!(merged.get(&"gone".to_string()), None);
    assert_eq!(
        merged.get(&"both".to_string()),
        Some(TreeValue::Conflict {
            base: Side::File(FileId(1)),
            left: Side::File(FileId(2)),
            right: Side::File(FileId(3))
        })
    );
    assert_eq!(merged.len(), 5);
    assert!(merged.has_conflict());
    assert!(!ours.has_conflict());
    // without a conflict the two sides may be swapped
    let left = tree(&[("a", 2), ("b", 1)]);
    let right = tree(&[("a", 1), ("b", 3)]);
    let start = tree(&[("a", 1), ("b", 1)]);
    assert!(left.merge(&right, &start).same_content(&right.merge(&left, &start)));
}

#[test]
fn a_selection_takes_the_listed_paths_from_the_end() {
    let base = tree(&[("a", 1), ("b", 1), ("c", 1)]);
    let end = tree(&[("a", 2), ("b", 2), ("d", 2)]);
    let paths = vec!["a".to_string(), "c".to_string(), "d".to_string(), "zzz".to_string()];
    let selected = Tree::select_paths(&base, &end, &paths);
    assert!(selected.same_content(&tree(&[("a", 2), ("b", 1), ("d", 2)])));
    assert!(Tree::select_paths(&base, &end, &Vec::new()).same_content(&base));
    assert!(names_path(&paths, &"c".to_string()));
    assert!(!names_path(&paths, &"b".to_string()));
}

#[test]
fn the_changed_paths_are_those_where_two_trees_differ() {
    let base = tree(&[("same", 1), ("changed", 1), ("removed", 1)]);
    let end = tree(&[("added", 4), ("same", 1), ("changed", 2)]);
    assert_eq!(base.changed_paths(&end), vec!["changed", "removed", "added"]);
    assert_eq!(end.changed_paths(&base), vec!["added", "changed", "removed"]);
    assert!(base.changed_paths(&base).is_empty());
    let copy = base.copy();
    assert!(copy.same_content(&base));
    assert_eq!(copy.len(), 3);
}
