use jj_cli::commands::split::{
    cmd_split, resolve_single_rev, RevisionArg, Settings, SplitAction, SplitArgs, SplitEvent,
    SplitState,
};
use jj_cli::ids::{ChangeId, CommitId, FileId, TreeId};
use jj_cli::repo::Repo;
use jj_cli::split::{split, SplitError, SplitSummary, SplitWarning};
use jj_cli::store::StoreError;
use jj_cli::tree::{Side, Tree, TreeValue};

fn file(content: u64) -> TreeValue {
    TreeValue::File(FileId(content))
}

fn tree(entries: &[(&str, u64)]) -> Tree {
    let mut t = Tree::new();
    for (path, content) in entries {
        t.set(path.to_string(), file(*content));
    }
    t
}

fn commit(repo: &mut Repo, parents: &[CommitId], entries: &[(&str, u64)], text: &str) -> CommitId {
    let t = repo.write_tree(tree(entries)).unwrap();
    repo.commit(parents.to_vec(), t, text.to_string()).unwrap()
}

fn contents(repo: &Repo, id: CommitId) -> Vec<(String, TreeValue)> {
    let t = repo.store().tree(repo.store().commit(id).tree);
    let mut out: Vec<(String, TreeValue)> = Vec::new();
    let mut i: usize = 0;
    while i < t.len() {
        let path = t.path_at(i).clone();
        let value = t.get(&path).unwrap();
        out.push((path, value));
        i += 1;
    }
    out.sort_by(|a, b| a.0.cmp(&b.0));
    out
}

fn files(entries: &[(&str, u64)]) -> Vec<(String, TreeValue)> {
    entries.iter().map(|(p, c)| (p.to_string(), file(*c))).collect()
}

fn settings(legacy: bool) -> Settings {
    Settings {
        default_description: "(default)".to_string(),
        legacy_bookmark_behavior: legacy,
        immutable_heads: Vec::new(),
    }
}

fn args(revision: RevisionArg, parallel: bool, paths: &[&str]) -> SplitArgs {
    SplitArgs {
        interactive: false,
        tool: None,
        revision,
        parallel,
        paths: paths.iter().map(|p| p.to_string()).collect(),
    }
}

/// Runs the split command to its end; the selector and the editor answer
/// from the lists given.
fn run(
    repo: Repo,
    settings: &Settings,
    args: &SplitArgs,
    selection: Option<Tree>,
    descriptions: &[&str],
) -> (Repo, Result<SplitSummary, String>, Vec<String>) {
    let workspace = "default".to_string();
    let mut asked: Vec<String> = Vec::new();
    let mut selection = selection;
    let mut next_description: usize = 0;
    let mut repo = repo;
    let mut state = SplitState::Start;
    let mut event = SplitEvent::Start;
    loop {
        let (r, s, action) = cmd_split(repo, &workspace, settings, args, state, event);
        repo = r;
        state = s;
        event = match action {
            SplitAction::Select { base, end } => {
                asked.push(format!("select {} {}", base.0, end.0));
                match selection.take() {
                    Some(t) => SplitEvent::Selected(t),
                    None => SplitEvent::Failed("the diff editor exited with status 1".to_string()),
                }
            }
            SplitAction::Describe { second, description, warning } => {
                if let Some(w) = warning {
                    asked.push(format!("warning: {}", w.message()));
                }
                asked.push(format!(
                    "describe {}: {}",
                    if second { "second" } else { "first" },
                    description
                ));
                if next_description < descriptions.len() {
                    next_description += 1;
                    SplitEvent::Described(descriptions[next_description - 1].to_string())
                } else {
                    SplitEvent::Failed("the editor exited with status 1".to_string())
                }
            }
            SplitAction::Done(summary) => return (repo, Ok(summary), asked),
            SplitAction::Fail(e) => return (repo, Err(e.render()), asked),
        };
    }
}

#[test]
fn scenario_split_by_path_in_sequence() {
    let mut repo = Repo::new();
    let root = repo.store().root_commit();
    let a = commit(&mut repo, &[root], &[("x", 1), ("y", 2)], "add x and y");
    repo.set_bookmark("main".to_string(), a).unwrap();
    let (repo, result, asked) = run(
        repo,
        &settings(true),
        &args(RevisionArg::Commit(a), false, &["x"]),
        None,
        &["add x", "add y"],
    );
    let summary = result.unwrap();
    assert_eq!(asked, vec!["describe first: add x and y", "describe second: add x and y"]);
    assert_eq!(contents(&repo, summary.first), files(&[("x", 1)]));
    assert_eq!(contents(&repo, summary.second), files(&[("x", 1), ("y", 2)]));
    assert_eq!(repo.store().commit(summary.first).parents, vec![root]);
    assert_eq!(repo.store().commit(summary.second).parents, vec![summary.first]);
    assert_eq!(repo.store().commit(summary.first).description, "add x");
    assert_eq!(repo.store().commit(summary.second).description, "add y");
    assert_eq!(summary.num_rebased, 0);
    assert_eq!(summary.warning, None);
    assert!(summary.new_conflicts.is_empty());
    assert_eq!(repo.refs().bookmark(&"main".to_string()), Some(summary.second));
    assert_eq!(repo.refs().heads, vec![summary.second]);
    assert!(repo.is_live(summary.first));
    assert!(!repo.is_live(a));
}

#[test]
fn bookmarks_stay_on_the_first_commit_without_the_legacy_behavior() {
    let mut repo = Repo::new();
    let root = repo.store().root_commit();
    let a = commit(&mut repo, &[root], &[("x", 1), ("y", 2)], "add x and y");
    repo.set_bookmark("main".to_string(), a).unwrap();
    let (repo, result, _) = run(
        repo,
        &settings(false),
        &args(RevisionArg::Bookmark("main".to_string()), false, &["x"]),
        None,
        &["add x", "add y"],
    );
    let summary = result.unwrap();
    assert_eq!(repo.refs().bookmark(&"main".to_string()), Some(summary.first));
    assert_eq!(summary.rewritten.get(a), Some(summary.first));
}

#[test]
fn scenario_parallel_split_rebases_child() {
    let mut repo = Repo::new();
    let root = repo.store().root_commit();
    let a = commit(&mut repo, &[root], &[("x", 1), ("y", 2)], "a");
    let b = commit(&mut repo, &[a], &[("x", 1), ("y", 2), ("z", 3)], "b");
    let (repo, result, _) = run(
        repo,
        &settings(false),
        &args(RevisionArg::Commit(a), true, &["x"]),
        None,
        &["a1", "a2"],
    );
    let summary = result.unwrap();
    let a1 = summary.first;
    let a2 = summary.second;
    assert_eq!(repo.store().commit(a1).parents, vec![root]);
    assert_eq!(repo.store().commit(a2).parents, vec![root]);
    assert_eq!(contents(&repo, a1), files(&[("x", 1)]));
    assert_eq!(contents(&repo, a2), files(&[("y", 2)]));
    assert_eq!(summary.num_rebased, 1);
    let b2 = summary.rewritten.get(b).unwrap();
    assert_eq!(repo.store().commit(b2).parents, vec![a1, a2]);
    assert_eq!(contents(&repo, b2), files(&[("x", 1), ("y", 2), ("z", 3)]));
    assert_eq!(repo.store().commit(b2).tree, repo.store().commit(b).tree);
    assert!(summary.new_conflicts.is_empty());
    assert_eq!(repo.store().commit(b2).description, "b");
    assert_eq!(repo.store().commit(b2).change_id, repo.store().commit(b).change_id);
    assert_eq!(repo.refs().heads, vec![b2]);
}

#[test]
fn parallel_split_with_legacy_behavior_gives_the_child_both_parents() {
    let mut repo = Repo::new();
    let root = repo.store().root_commit();
    let a = commit(&mut repo, &[root], &[("x", 1), ("y", 2)], "a");
    let b = commit(&mut repo, &[a], &[("x", 1), ("y", 2), ("z", 3)], "b");
    repo.set_bookmark("on-a".to_string(), a).unwrap();
    let (repo, result, _) = run(
        repo,
        &settings(true),
        &args(RevisionArg::Commit(a), true, &["x"]),
        None,
        &["a1", "a2"],
    );
    let summary = result.unwrap();
    let b2 = summary.rewritten.get(b).unwrap();
    assert_eq!(repo.store().commit(b2).parents, vec![summary.first, summary.second]);
    assert_eq!(repo.refs().bookmark(&"on-a".to_string()), Some(summary.second));
    assert_eq!(summary.rewritten.get(a), Some(summary.second));
}

#[test]
fn sequential_split_puts_the_child_on_the_second_commit() {
    let mut repo = Repo::new();
    let root = repo.store().root_commit();
    let a = commit(&mut repo, &[root], &[("x", 1), ("y", 2)], "a");
    let b = commit(&mut repo, &[a], &[("x", 1), ("y", 2), ("z", 3)], "b");
    let c = commit(&mut repo, &[b], &[("x", 1), ("y", 2), ("z", 4)], "c");
    let (repo, result, _) = run(
        repo,
        &settings(false),
        &args(RevisionArg::Commit(a), false, &["x"]),
        None,
        &["a1", "a2"],
    );
    let summary = result.unwrap();
    assert_eq!(summary.num_rebased, 2);
    let b2 = summary.rewritten.get(b).unwrap();
    let c2 = summary.rewritten.get(c).unwrap();
    assert_eq!(repo.store().commit(b2).parents, vec![summary.second]);
    assert_eq!(repo.store().commit(c2).parents, vec![b2]);
    assert_eq!(contents(&repo, b2), files(&[("x", 1), ("y", 2), ("z", 3)]));
    assert_eq!(contents(&repo, c2), files(&[("x", 1), ("y", 2), ("z", 4)]));
    assert_eq!(repo.refs().heads, vec![c2]);
}

#[test]
fn each_descendant_in_a_diamond_is_rebased_once() {
    let mut repo = Repo::new();
    let root = repo.store().root_commit();
    let a = commit(&mut repo, &[root], &[("x", 1), ("y", 2)], "a");
    let left = commit(&mut repo, &[a], &[("x", 1), ("y", 2), ("l", 5)], "left");
    let right = commit(&mut repo, &[a], &[("x", 1), ("y", 2), ("r", 6)], "right");
    let join = commit(&mut repo, &[left, right], &[("x", 1), ("y", 2), ("l", 5), ("r", 6)], "join");
    let aside = commit(&mut repo, &[root], &[("other", 9)], "aside");
    let commits_before = repo.store().commit_count();
    let (repo, result, _) = run(
        repo,
        &settings(false),
        &args(RevisionArg::Commit(a), false, &["x"]),
        None,
        &["a1", "a2"],
    );
    let summary = result.unwrap();
    assert_eq!(summary.num_rebased, 3);
    assert_eq!(repo.store().commit_count(), commits_before + 5);
    let left2 = summary.rewritten.get(left).unwrap();
    let right2 = summary.rewritten.get(right).unwrap();
    let join2 = summary.rewritten.get(join).unwrap();
    assert_eq!(repo.store().commit(left2).parents, vec![summary.second]);
    assert_eq!(repo.store().commit(right2).parents, vec![summary.second]);
    assert_eq!(repo.store().commit(join2).parents, vec![left2, right2]);
    assert_eq!(summary.rewritten.get(aside), None);
    assert_eq!(repo.refs().heads, vec![join2, aside]);
}

#[test]
fn hidden_descendants_are_not_rebased() {
    let mut repo = Repo::new();
    let root = repo.store().root_commit();
    let a = commit(&mut repo, &[root], &[("x", 1), ("y", 2)], "a");
    let _b = commit(&mut repo, &[a], &[("x", 1), ("y", 2), ("z", 3)], "b");
    let (repo, result, _) = run(
        repo,
        &settings(false),
        &args(RevisionArg::Commit(a), false, &["x"]),
        None,
        &["a1", "a2"],
    );
    let first_split = result.unwrap();
    // `a` and `b` are hidden now; splitting the root's other child must not touch them.
    let (repo, result, _) = run(
        repo,
        &settings(false),
        &args(RevisionArg::Commit(first_split.second), false, &["x"]),
        None,
        &["s1", "s2"],
    );
    let second_split = result.unwrap();
    assert_eq!(second_split.num_rebased, 1);
    assert_eq!(second_split.rewritten.get(a), None);
    assert!(repo.is_live(second_split.second));
}

#[test]
fn selecting_everything_leaves_the_second_commit_empty() {
    for parallel in [false, true] {
        let mut repo = Repo::new();
        let root = repo.store().root_commit();
        let a = commit(&mut repo, &[root], &[("x", 1), ("y", 2)], "a");
        let (repo, result, asked) = run(
            repo,
            &settings(false),
            &args(RevisionArg::Commit(a), parallel, &["x", "y"]),
            None,
            &["first", "second"],
        );
        let summary = result.unwrap();
        assert_eq!(
            asked[0],
            "warning: All changes have been selected, so the second commit will be empty"
        );
        assert_eq!(summary.warning, Some(SplitWarning::AllSelected));
        assert_eq!(repo.store().commit(summary.first).tree, repo.store().commit(a).tree);
        assert!(repo.store().is_empty_commit(summary.second));
        assert!(!repo.store().is_empty_commit(summary.first));
    }
}

#[test]
fn selecting_nothing_leaves_the_first_commit_empty() {
    for parallel in [false, true] {
        let mut repo = Repo::new();
        let root = repo.store().root_commit();
        let a = commit(&mut repo, &[root], &[("x", 1), ("y", 2)], "a");
        let (repo, result, asked) = run(
            repo,
            &settings(false),
            &args(RevisionArg::Commit(a), parallel, &["not-there"]),
            None,
            &["first", "second"],
        );
        let summary = result.unwrap();
        assert_eq!(
            asked[0],
            "warning: No changes have been selected, so the first commit will be empty"
        );
        assert_eq!(summary.warning, Some(SplitWarning::NoneSelected));
        assert!(repo.store().is_empty_commit(summary.first));
        assert_eq!(repo.store().commit(summary.second).tree, repo.store().commit(a).tree);
    }
}

#[test]
fn the_two_parts_put_together_give_the_tree_back() {
    let base = tree(&[("kept", 1), ("changed", 2), ("removed", 3)]);
    let end = tree(&[("kept", 1), ("changed", 20), ("added", 4)]);
    let paths = vec!["changed".to_string(), "removed".to_string()];
    let selected = Tree::select_paths(&base, &end, &paths);
    assert!(selected.same_content(&tree(&[("kept", 1), ("changed", 20)])));
    // in sequence: base -> selected -> end
    let after_first = base.merge(&selected, &base);
    assert!(after_first.same_content(&selected));
    assert!(after_first.merge(&end, &selected).same_content(&end));
    // in parallel: the rest holds what was not selected, and both merge back
    let rest = end.merge(&base, &selected);
    assert!(rest.same_content(&tree(&[("kept", 1), ("changed", 2), ("removed", 3), ("added", 4)])));
    assert!(selected.merge(&rest, &base).same_content(&end));
    assert!(!selected.merge(&rest, &base).has_conflict());
}

#[test]
fn the_rest_of_a_parallel_split_is_the_same_tree_on_every_merge() {
    let mut repo = Repo::new();
    let root = repo.store().root_commit();
    let base = repo.write_tree(tree(&[("x", 1), ("y", 2)])).unwrap();
    let p = repo.commit(vec![root], base, "p".to_string()).unwrap();
    let end = repo.write_tree(tree(&[("x", 10), ("y", 20)])).unwrap();
    let a = repo.commit(vec![p], end, "a".to_string()).unwrap();
    let (repo, result, _) = run(
        repo,
        &settings(false),
        &args(RevisionArg::Commit(a), true, &[]),
        Some(tree(&[("x", 10), ("y", 2)])),
        &["first", "second"],
    );
    let summary = result.unwrap();
    let selected = repo.store().commit(summary.first).tree;
    let rest = repo.store().commit(summary.second).tree;
    assert_eq!(contents(&repo, summary.second), files(&[("x", 1), ("y", 20)]));
    // the same merge, made again, finds the tree that the split wrote
    let mut repo = repo;
    let trees = repo.store().tree_count();
    let merged = repo
        .store()
        .tree(end)
        .merge(repo.store().tree(base), repo.store().tree(selected));
    assert_eq!(repo.write_tree(merged), Ok(rest));
    assert_eq!(repo.store().tree_count(), trees);
}

#[test]
fn splitting_an_empty_commit_is_refused_and_changes_nothing() {
    let mut repo = Repo::new();
    let root = repo.store().root_commit();
    let a = commit(&mut repo, &[root], &[("x", 1)], "a");
    let empty = commit(&mut repo, &[a], &[("x", 1)], "nothing new");
    let commits = repo.store().commit_count();
    let trees = repo.store().tree_count();
    let (repo, result, asked) = run(
        repo,
        &settings(false),
        &args(RevisionArg::Commit(empty), false, &["x"]),
        None,
        &["first", "second"],
    );
    assert_eq!(
        result.err().unwrap(),
        "Error: Refusing to split empty commit 0000000000000002.\nHint: Use `jj new` if you want \
         to create another empty commit.\n"
    );
    assert!(asked.is_empty());
    assert_eq!(repo.store().commit_count(), commits);
    assert_eq!(repo.store().tree_count(), trees);
    assert_eq!(repo.refs().heads, vec![empty]);
    assert!(repo.operations().is_empty());
}

#[test]
fn the_second_commit_gets_a_change_id_of_its_own() {
    let mut repo = Repo::new();
    let root = repo.store().root_commit();
    let a = commit(&mut repo, &[root], &[("x", 1), ("y", 2)], "a");
    let change = repo.store().commit(a).change_id;
    for parallel in [false, true] {
        let mut repo = Repo::new();
        let a = commit(&mut repo, &[root], &[("x", 1), ("y", 2)], "a");
        let b = commit(&mut repo, &[a], &[("x", 1), ("y", 2), ("z", 3)], "b");
        let (repo, result, _) = run(
            repo,
            &settings(false),
            &args(RevisionArg::Commit(a), parallel, &["x"]),
            None,
            &["first", "second"],
        );
        let summary = result.unwrap();
        let first = repo.store().commit(summary.first).change_id;
        let second = repo.store().commit(summary.second).change_id;
        assert_eq!(first, change);
        assert_ne!(first, second);
        assert_ne!(second, repo.store().commit(b).change_id);
        assert_eq!(second, ChangeId(summary.second.0));
    }
}

#[test]
fn an_immutable_commit_is_not_split() {
    let mut repo = Repo::new();
    let root = repo.store().root_commit();
    let a = commit(&mut repo, &[root], &[("x", 1), ("y", 2)], "a");
    let b = commit(&mut repo, &[a], &[("x", 1), ("y", 2), ("z", 3)], "b");
    let mut s = settings(false);
    s.immutable_heads = vec![a];
    let (repo, result, _) =
        run(repo, &s, &args(RevisionArg::Commit(a), false, &["x"]), None, &["first", "second"]);
    assert_eq!(
        result.err().unwrap(),
        "Error: Commit 0000000000000001 is immutable\nHint: Immutable commits are used to \
         protect shared history.\n"
    );
    // a descendant of the immutable commit may be split
    let (repo, result, _) =
        run(repo, &s, &args(RevisionArg::Commit(b), false, &["z"]), None, &["first", "second"]);
    assert!(result.is_ok());
    // the root never
    let (_, result, _) = run(
        repo,
        &settings(false),
        &args(RevisionArg::Commit(root), false, &["x"]),
        None,
        &["first", "second"],
    );
    assert!(result.is_err());
}

#[test]
fn split_reports_each_fault() {
    let mut repo = Repo::new();
    let root = repo.store().root_commit();
    let a = commit(&mut repo, &[root], &[("x", 1), ("y", 2)], "a");
    let none: Vec<CommitId> = Vec::new();
    let (repo, r) = split(repo, &none, false, root, Tree::new(), String::new(), String::new(), false);
    assert_eq!(r.err(), Some(SplitError::EmptyCommit));
    let (repo, r) =
        split(repo, &none, false, CommitId(7), Tree::new(), String::new(), String::new(), false);
    assert_eq!(r.err(), Some(SplitError::NoSuchRevision));
    let (repo, r) =
        split(repo, &vec![a], false, a, Tree::new(), String::new(), String::new(), false);
    assert_eq!(r.err(), Some(SplitError::Immutable));
    assert_eq!(repo.refs().heads, vec![a]);
}

#[test]
fn a_hidden_commit_is_no_revision_to_split() {
    let mut repo = Repo::new();
    let root = repo.store().root_commit();
    let a = commit(&mut repo, &[root], &[("x", 1), ("y", 2)], "a");
    let (repo, result, _) = run(
        repo,
        &settings(false),
        &args(RevisionArg::Commit(a), false, &["x"]),
        None,
        &["first", "second"],
    );
    assert!(result.is_ok());
    let (_, result, _) = run(
        repo,
        &settings(false),
        &args(RevisionArg::Commit(a), false, &["x"]),
        None,
        &["first", "second"],
    );
    assert_eq!(result.err().unwrap(), "Error: Revision \"0000000000000001\" doesn't exist\n");
}

#[test]
fn a_store_without_room_leaves_the_repository_as_it_was() {
    // room for the three commits and trees of the history, and for the two
    // parts of the split, but not for the descendant
    let mut repo = Repo::with_capacity(4);
    let root = repo.store().root_commit();
    let a = commit(&mut repo, &[root], &[("x", 1), ("y", 2)], "a");
    let b = commit(&mut repo, &[a], &[("x", 1), ("y", 2), ("z", 3)], "b");
    repo.set_working_copy("default".to_string(), a).unwrap();
    let (repo, result, _) = run(
        repo,
        &settings(false),
        &args(RevisionArg::WorkingCopy, false, &["x"]),
        None,
        &["first", "second"],
    );
    assert_eq!(
        result.err().unwrap(),
        "Internal error: Failed to write the split to the store\nCaused by: the store has no \
         room\n"
    );
    assert_eq!(repo.store().commit_count(), 3);
    assert_eq!(repo.store().tree_count(), 3);
    assert_eq!(repo.refs().heads, vec![b]);
    assert_eq!(repo.refs().working_copy(&"default".to_string()), Some(a));
    assert!(repo.operations().is_empty());
    // with room the same split goes through
    let mut repo = Repo::with_capacity(5);
    let a = commit(&mut repo, &[root], &[("x", 1), ("y", 2)], "a");
    let _b = commit(&mut repo, &[a], &[("x", 1), ("y", 2), ("z", 3)], "b");
    let (_, result, _) = run(
        repo,
        &settings(false),
        &args(RevisionArg::Commit(a), false, &["x"]),
        None,
        &["first", "second"],
    );
    assert!(result.is_ok());
}

#[test]
fn the_working_copy_moves_to_the_second_commit() {
    let mut repo = Repo::new();
    let root = repo.store().root_commit();
    let a = commit(&mut repo, &[root], &[("x", 1), ("y", 2)], "a");
    let b = commit(&mut repo, &[a], &[("x", 1), ("y", 2), ("z", 3)], "b");
    repo.set_working_copy("default".to_string(), a).unwrap();
    repo.set_working_copy("second".to_string(), b).unwrap();
    repo.set_working_copy("third".to_string(), root).unwrap();
    let (repo, result, _) = run(
        repo,
        &settings(false),
        &args(RevisionArg::WorkingCopy, false, &["x"]),
        None,
        &["first", "second"],
    );
    let summary = result.unwrap();
    assert_eq!(repo.refs().working_copy(&"default".to_string()), Some(summary.second));
    assert_eq!(repo.refs().working_copy(&"second".to_string()), summary.rewritten.get(b));
    assert_eq!(repo.refs().working_copy(&"third".to_string()), Some(root));
    assert_eq!(repo.operations(), &vec!["split commit 0000000000000001".to_string()]);
}

#[test]
fn revisions_are_resolved_or_refused() {
    let mut repo = Repo::new();
    let root = repo.store().root_commit();
    let a = commit(&mut repo, &[root], &[("x", 1)], "a");
    repo.set_bookmark("main".to_string(), a).unwrap();
    let ws = "default".to_string();
    assert_eq!(resolve_single_rev(&repo, &ws, &RevisionArg::Commit(a)).ok(), Some(a));
    assert_eq!(
        resolve_single_rev(&repo, &ws, &RevisionArg::Bookmark("main".to_string())).ok(),
        Some(a)
    );
    assert_eq!(
        resolve_single_rev(&repo, &ws, &RevisionArg::Bookmark("gone".to_string()))
            .err()
            .unwrap()
            .render(),
        "Error: Revision \"gone\" doesn't exist\n"
    );
    assert_eq!(
        resolve_single_rev(&repo, &ws, &RevisionArg::Commit(CommitId(255))).err().unwrap().render(),
        "Error: Revision \"00000000000000ff\" doesn't exist\n"
    );
    assert_eq!(
        resolve_single_rev(&repo, &ws, &RevisionArg::WorkingCopy).err().unwrap().render(),
        "Error: Workspace \"default\" doesn't have a working-copy commit\n"
    );
}

#[test]
fn a_commit_without_description_is_asked_for_one_only() {
    let mut repo = Repo::new();
    let root = repo.store().root_commit();
    let a = commit(&mut repo, &[root], &[("x", 1), ("y", 2)], "");
    let (repo, result, asked) = run(
        repo,
        &settings(false),
        &args(RevisionArg::Commit(a), false, &["x"]),
        None,
        &["only x"],
    );
    let summary = result.unwrap();
    assert_eq!(asked, vec!["describe first: (default)"]);
    assert_eq!(repo.store().commit(summary.first).description, "only x");
    assert_eq!(repo.store().commit(summary.second).description, "");
}

#[test]
fn the_selector_is_asked_when_no_paths_are_given() {
    let mut repo = Repo::new();
    let root = repo.store().root_commit();
    let a = commit(&mut repo, &[root], &[("x", 1), ("y", 2)], "a");
    let end = repo.store().commit(a).tree;
    let (repo, result, asked) = run(
        repo,
        &settings(false),
        &args(RevisionArg::Commit(a), false, &[]),
        Some(tree(&[("y", 2)])),
        &["only y", "the rest"],
    );
    let summary = result.unwrap();
    assert_eq!(asked[0], format!("select 0 {}", end.0));
    assert_eq!(contents(&repo, summary.first), files(&[("y", 2)]));
    // a tool makes the selection interactive even with paths
    let mut with_tool = args(RevisionArg::Commit(summary.second), false, &["x"]);
    with_tool.tool = Some("meld".to_string());
    let (_, _, asked) = run(repo, &settings(false), &with_tool, Some(Tree::new()), &["a", "b"]);
    assert!(asked[0].starts_with("select "));
}

#[test]
fn a_failing_selector_or_editor_ends_the_split_without_a_change() {
    let mut repo = Repo::new();
    let root = repo.store().root_commit();
    let a = commit(&mut repo, &[root], &[("x", 1), ("y", 2)], "a");
    let (repo, result, _) =
        run(repo, &settings(false), &args(RevisionArg::Commit(a), false, &[]), None, &[]);
    assert_eq!(
        result.err().unwrap(),
        "Error: Failed to select changes\nCaused by: the diff editor exited with status 1\n"
    );
    let (repo, result, _) =
        run(repo, &settings(false), &args(RevisionArg::Commit(a), false, &["x"]), None, &["one"]);
    assert_eq!(
        result.err().unwrap(),
        "Error: Failed to edit description\nCaused by: the editor exited with status 1\n"
    );
    assert_eq!(repo.refs().heads, vec![a]);
    assert_eq!(repo.store().commit_count(), 2);
}

#[test]
fn an_event_out_of_turn_ends_the_command() {
    let repo = Repo::new();
    let (_, state, action) = cmd_split(
        repo,
        &"default".to_string(),
        &settings(false),
        &args(RevisionArg::WorkingCopy, false, &[]),
        SplitState::Start,
        SplitEvent::Described("early".to_string()),
    );
    assert!(matches!(state, SplitState::Finished));
    match action {
        SplitAction::Fail(e) => assert_eq!(
            e.render(),
            "Internal error: Unexpected event\nCaused by: the event does not answer the action\n"
        ),
        _ => panic!("the command went on"),
    }
}

#[test]
fn a_selection_that_is_in_neither_tree_leaves_conflicts() {
    let mut repo = Repo::new();
    let root = repo.store().root_commit();
    let a = commit(&mut repo, &[root], &[("x", 1), ("y", 2)], "a");
    let b = commit(&mut repo, &[a], &[("x", 1), ("y", 2), ("z", 3)], "b");
    let (repo, result, _) = run(
        repo,
        &settings(false),
        &args(RevisionArg::Commit(a), true, &[]),
        Some(tree(&[("x", 5)])),
        &["a1", "a2"],
    );
    let summary = result.unwrap();
    let b2 = summary.rewritten.get(b).unwrap();
    assert_eq!(summary.new_conflicts, vec![summary.second, b2]);
    assert_eq!(summary.warning, None);
    let rest = repo.store().tree(repo.store().commit(summary.second).tree);
    assert_eq!(
        rest.get(&"x".to_string()),
        Some(TreeValue::Conflict {
            base: Side::File(FileId(5)),
            left: Side::File(FileId(1)),
            right: Side::Absent
        })
    );
    assert_eq!(rest.get(&"y".to_string()), Some(file(2)));
    let t = repo.store().tree(repo.store().commit(b2).tree);
    assert!(t.has_conflict());
    assert_eq!(t.get(&"z".to_string()), Some(file(3)));
    assert_eq!(t.get(&"y".to_string()), Some(file(2)));
    assert!(!repo.store().tree(repo.store().commit(summary.first).tree).has_conflict());
}

#[test]
fn a_child_keeps_its_tree_whatever_it_changed() {
    for parallel in [false, true] {
        let mut repo = Repo::new();
        let root = repo.store().root_commit();
        let a = commit(&mut repo, &[root], &[("x", 1), ("y", 2)], "a");
        let b = commit(&mut repo, &[a], &[("x", 1), ("y", 3)], "b");
        let c = commit(&mut repo, &[b], &[("y", 3)], "c");
        let (repo, result, _) = run(
            repo,
            &settings(false),
            &args(RevisionArg::Commit(a), parallel, &["x"]),
            None,
            &["a1", "a2"],
        );
        let summary = result.unwrap();
        let b2 = summary.rewritten.get(b).unwrap();
        let c2 = summary.rewritten.get(c).unwrap();
        assert_eq!(contents(&repo, b2), files(&[("x", 1), ("y", 3)]));
        assert_eq!(contents(&repo, c2), files(&[("y", 3)]));
        assert!(summary.new_conflicts.is_empty());
    }
}

#[test]
fn ids_of_the_root() {
    let repo = Repo::new();
    assert_eq!(repo.store().root_commit(), CommitId(0));
    assert_eq!(repo.store().empty_tree(), TreeId(0));
    assert_eq!(repo.store().commit(CommitId(0)).parents, Vec::<CommitId>::new());
    assert!(repo.store().get_commit(CommitId(1)).is_none());
    assert!(repo.store().get_tree(TreeId(0)).is_some());
    assert_eq!(
        Repo::new().commit(vec![], TreeId(0), String::new()).err(),
        Some(StoreError::NoParents)
    );
}

#[test]
fn a_first_commit_equal_to_the_split_commit_keeps_its_id() {
    let mut repo = Repo::new();
    let root = repo.store().root_commit();
    let a = commit(&mut repo, &[root], &[("x", 1), ("y", 2)], "a");
    let b = commit(&mut repo, &[a], &[("x", 1), ("y", 2), ("z", 3)], "b");
    repo.set_bookmark("main".to_string(), a).unwrap();
    // everything selected and the description kept: the first commit is `a` itself
    let (repo, result, _) = run(
        repo,
        &settings(false),
        &args(RevisionArg::Commit(a), false, &["x", "y"]),
        None,
        &["a", "rest"],
    );
    let summary = result.unwrap();
    assert_eq!(summary.first, a);
    assert_eq!(summary.rewritten.get(a), None);
    assert_eq!(repo.store().commit(summary.second).parents, vec![a]);
    assert!(repo.store().is_empty_commit(summary.second));
    let b2 = summary.rewritten.get(b).unwrap();
    assert_eq!(repo.store().commit(b2).parents, vec![summary.second]);
    assert_eq!(contents(&repo, b2), files(&[("x", 1), ("y", 2), ("z", 3)]));
    assert_eq!(repo.refs().heads, vec![b2]);
    assert_eq!(repo.refs().bookmark(&"main".to_string()), Some(a));
    assert!(repo.is_live(a));
    assert!(!repo.is_live(b));
    // in parallel the two parts are siblings and the child has both as parents
    let mut repo = Repo::new();
    let a = commit(&mut repo, &[root], &[("x", 1), ("y", 2)], "a");
    let b = commit(&mut repo, &[a], &[("x", 1), ("y", 2), ("z", 3)], "b");
    let (repo, result, _) = run(
        repo,
        &settings(true),
        &args(RevisionArg::Commit(a), true, &["x", "y"]),
        None,
        &["a", "rest"],
    );
    let summary = result.unwrap();
    assert_eq!(summary.first, a);
    let b2 = summary.rewritten.get(b).unwrap();
    assert_eq!(repo.store().commit(b2).parents, vec![a, summary.second]);
    assert_eq!(repo.store().commit(summary.second).parents, vec![root]);
    assert!(repo.is_live(a));
}

#[test]
fn a_head_that_is_split_gives_way_to_its_parts() {
    let mut repo = Repo::new();
    let root = repo.store().root_commit();
    let a = commit(&mut repo, &[root], &[("x", 1), ("y", 2)], "a");
    let other = commit(&mut repo, &[root], &[("o", 5)], "other");
    assert_eq!(repo.refs().heads, vec![a, other]);
    let (repo, result, _) = run(
        repo,
        &settings(false),
        &args(RevisionArg::Commit(a), true, &["x"]),
        None,
        &["a1", "a2"],
    );
    let summary = result.unwrap();
    assert_eq!(repo.refs().heads, vec![summary.first, summary.second, other]);
    assert_eq!(repo.operations().len(), 1);
}

#[test]
fn the_parts_and_the_rebased_descendants_are_live() {
    for (parallel, legacy) in [(false, false), (false, true), (true, false), (true, true)] {
        let mut repo = Repo::new();
        let root = repo.store().root_commit();
        let a = commit(&mut repo, &[root], &[("x", 1), ("y", 2)], "a");
        let b = commit(&mut repo, &[a], &[("x", 1), ("y", 2), ("z", 3)], "b");
        let c = commit(&mut repo, &[a, b], &[("x", 1), ("y", 2), ("z", 3)], "c");
        let (repo, result, _) = run(
            repo,
            &settings(legacy),
            &args(RevisionArg::Commit(a), parallel, &["x"]),
            None,
            &["a1", "a2"],
        );
        let summary = result.unwrap();
        assert!(repo.is_live(summary.first));
        assert!(repo.is_live(summary.second));
        assert!(repo.is_live(summary.rewritten.get(b).unwrap()));
        assert!(repo.is_live(summary.rewritten.get(c).unwrap()));
        assert!(!repo.is_live(a));
        assert!(!repo.is_live(b));
        assert!(!repo.is_live(c));
        assert_eq!(summary.num_rebased, 2);
    }
}
