use jj_cli::commands::git::colocate::Event;
use jj_cli::commands::git::move_directory::{
    copy_dir_recursive, move_directory, CopyAction, CopyEvent, CopyPhase, CopyState, DirEntry,
    MoveAction, MoveState,
};
use std::collections::BTreeMap;

/// A source tree in memory: each directory with its entries in listing order.
fn source() -> BTreeMap<String, Vec<(String, bool)>> {
    let mut dirs: BTreeMap<String, Vec<(String, bool)>> = BTreeMap::new();
    dirs.insert(
        String::new(),
        vec![
            ("HEAD".to_string(), false),
            ("refs".to_string(), true),
            ("config".to_string(), false),
            ("objects".to_string(), true),
        ],
    );
    dirs.insert("refs".to_string(), vec![("heads".to_string(), true), ("packed".to_string(), false)]);
    dirs.insert("refs/heads".to_string(), vec![("main".to_string(), false)]);
    dirs.insert("objects".to_string(), Vec::new());
    dirs
}

fn start() -> CopyState {
    CopyState { phase: CopyPhase::Start, current: String::new(), stack: Vec::new() }
}

/// Runs the copy; `existing` are the directories that the destination has
/// already, `failing` the path at which the system fails.
fn run(existing: &[&str], failing: Option<&str>) -> (Vec<String>, Result<(), String>) {
    let dirs = source();
    let mut log: Vec<String> = Vec::new();
    let mut state = start();
    let mut event = CopyEvent::Start;
    loop {
        let (next, action) = copy_dir_recursive(state, event);
        state = next;
        event = match action {
            CopyAction::DestExists(p) => CopyEvent::Answer(existing.contains(&p.as_str())),
            CopyAction::CreateDest(p) => {
                log.push(format!("mkdir {}", p));
                CopyEvent::Done
            }
            CopyAction::ReadSource(p) => {
                if failing == Some(p.as_str()) {
                    CopyEvent::Failed(format!("cannot read {}", p))
                } else {
                    CopyEvent::Entries(
                        dirs[&p]
                            .iter()
                            .map(|(name, is_dir)| DirEntry { name: name.clone(), is_dir: *is_dir })
                            .collect(),
                    )
                }
            }
            CopyAction::CopyFile(p) => {
                if failing == Some(p.as_str()) {
                    CopyEvent::Failed(format!("cannot copy {}", p))
                } else {
                    log.push(format!("copy {}", p));
                    CopyEvent::Done
                }
            }
            CopyAction::Finish(r) => return (log, r),
        };
    }
}

#[test]
fn a_tree_is_copied_depth_first_in_listing_order() {
    let (log, result) = run(&[], None);
    assert_eq!(result, Ok(()));
    assert_eq!(
        log,
        vec![
            "mkdir ",
            "copy HEAD",
            "mkdir refs",
            "mkdir refs/heads",
            "copy refs/heads/main",
            "copy refs/packed",
            "copy config",
            "mkdir objects",
        ]
    );
}

#[test]
fn directories_that_are_there_are_not_made_again() {
    let (log, result) = run(&["", "refs"], None);
    assert_eq!(result, Ok(()));
    assert_eq!(
        log,
        vec![
            "copy HEAD",
            "mkdir refs/heads",
            "copy refs/heads/main",
            "copy refs/packed",
            "copy config",
            "mkdir objects",
        ]
    );
}

#[test]
fn the_first_failure_ends_the_copy() {
    let (log, result) = run(&[], Some("refs/packed"));
    assert_eq!(result, Err("cannot copy refs/packed".to_string()));
    assert_eq!(
        log,
        vec!["mkdir ", "copy HEAD", "mkdir refs", "mkdir refs/heads", "copy refs/heads/main"]
    );
    let (log, result) = run(&[], Some("refs"));
    assert_eq!(result, Err("cannot read refs".to_string()));
    assert_eq!(log, vec!["mkdir ", "copy HEAD", "mkdir refs"]);
}

#[test]
fn a_copy_event_out_of_turn_ends_the_copy() {
    let (state, action) = copy_dir_recursive(start(), CopyEvent::Done);
    assert_eq!(state.phase, CopyPhase::Finished);
    match action {
        CopyAction::Finish(r) => assert_eq!(r, Err("unexpected event".to_string())),
        _ => panic!("the copy went on"),
    }
}

fn moved(rename: Result<(), &str>, copy: Result<(), &str>, remove: Result<(), &str>) -> (Vec<&'static str>, Result<(), String>) {
    let answer = |r: Result<(), &str>| match r {
        Ok(()) => Event::Done,
        Err(e) => Event::Failed(e.to_string()),
    };
    let mut log: Vec<&'static str> = Vec::new();
    let mut state = MoveState::Start;
    let mut event = Event::Start;
    loop {
        let (next, action) = move_directory(state, event);
        state = next;
        event = match action {
            MoveAction::Rename => {
                log.push("rename");
                answer(rename)
            }
            MoveAction::CopyTree => {
                log.push("copy");
                answer(copy)
            }
            MoveAction::RemoveSource => {
                log.push("remove");
                answer(remove)
            }
            MoveAction::Finish(r) => return (log, r),
        };
    }
}

#[test]
fn a_move_is_a_rename_or_else_a_copy_and_a_removal() {
    assert_eq!(moved(Ok(()), Ok(()), Ok(())), (vec!["rename"], Ok(())));
    assert_eq!(
        moved(Err("cross-device link"), Ok(()), Ok(())),
        (vec!["rename", "copy", "remove"], Ok(()))
    );
    assert_eq!(
        moved(Err("cross-device link"), Err("disk full"), Ok(())),
        (vec!["rename", "copy"], Err("disk full".to_string()))
    );
    assert_eq!(
        moved(Err("cross-device link"), Ok(()), Err("busy")),
        (vec!["rename", "copy", "remove"], Err("busy".to_string()))
    );
    let (state, action) = move_directory(MoveState::Renaming, Event::Answer(true));
    assert_eq!(state, MoveState::Finished);
    assert!(matches!(action, MoveAction::Finish(Err(_))));
}
