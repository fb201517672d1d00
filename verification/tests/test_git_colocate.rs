use jj_cli::commands::git::colocate::{
    cmd_git_colocate, Action, Colocation, Event, GitColocateArgs, GitConfig, Location,
};
use jj_cli::commands::git::move_directory::{move_directory, MoveAction, MoveState};
use std::collections::BTreeMap;
use std::collections::BTreeSet;

/// A workspace in memory: its directories, its files, and what the fake
/// system is told to do wrong.
struct TestEnvironment {
    dirs: BTreeSet<String>,
    files: BTreeMap<String, String>,
    bare: bool,
    rename_fails: bool,
    copy_fails: bool,
    remove_fails: bool,
    git_stderr: Option<String>,
    snapshots: usize,
}

struct Output {
    stderr: String,
    success: bool,
}

impl TestEnvironment {
    fn init(colocate: bool) -> TestEnvironment {
        let mut env = TestEnvironment {
            dirs: BTreeSet::new(),
            files: BTreeMap::new(),
            bare: !colocate,
            rename_fails: false,
            copy_fails: false,
            remove_fails: false,
            git_stderr: None,
            snapshots: 0,
        };
        env.dirs.insert(".jj".to_string());
        env.dirs.insert(".jj/repo".to_string());
        env.dirs.insert(".jj/repo/store".to_string());
        if colocate {
            env.dirs.insert(".git".to_string());
            env.files.insert(".git/HEAD".to_string(), "ref: refs/heads/main".to_string());
            env.files.insert(".jj/repo/store/git_target".to_string(), "../../../.git".to_string());
            env.files.insert(".jj/.gitignore".to_string(), "/*\n".to_string());
        } else {
            env.dirs.insert(".jj/repo/store/git".to_string());
            env.files.insert(
                ".jj/repo/store/git/HEAD".to_string(),
                "ref: refs/heads/main".to_string(),
            );
            env.files.insert(".jj/repo/store/git_target".to_string(), "git".to_string());
        }
        env
    }

    fn has_path(&self, path: &str) -> bool {
        self.dirs.contains(path) || self.files.contains_key(path)
    }

    fn read_git_target(&self) -> String {
        self.files[".jj/repo/store/git_target"].clone()
    }

    fn is_colocated(&self) -> bool {
        self.dirs.contains(".git") && self.read_git_target() == "../../../.git"
    }

    fn rename(&mut self, from: &str, to: &str) {
        let prefix = format!("{}/", from);
        let dirs: Vec<String> = self.dirs.iter().cloned().collect();
        for d in dirs {
            if d == from || d.starts_with(&prefix) {
                self.dirs.remove(&d);
                self.dirs.insert(format!("{}{}", to, &d[from.len()..]));
            }
        }
        let files: Vec<(String, String)> =
            self.files.iter().map(|(k, v)| (k.clone(), v.clone())).collect();
        for (k, v) in files {
            if k.starts_with(&prefix) {
                self.files.remove(&k);
                self.files.insert(format!("{}{}", to, &k[from.len()..]), v);
            }
        }
    }

    fn move_tree(&mut self, from: Location, to: Location) -> Event {
        let mut state = MoveState::Start;
        let mut event = Event::Start;
        loop {
            let (next, action) = move_directory(state, event);
            state = next;
            event = match action {
                MoveAction::Rename => {
                    if self.rename_fails {
                        Event::Failed("cross-device link".to_string())
                    } else {
                        self.rename(from.relative_path(), to.relative_path());
                        Event::Done
                    }
                }
                MoveAction::CopyTree => {
                    if self.copy_fails {
                        Event::Failed("permission denied".to_string())
                    } else {
                        self.rename(from.relative_path(), to.relative_path());
                        self.dirs.insert(from.relative_path().to_string());
                        Event::Done
                    }
                }
                MoveAction::RemoveSource => {
                    self.dirs.remove(from.relative_path());
                    Event::Done
                }
                MoveAction::Finish(Ok(())) => return Event::Done,
                MoveAction::Finish(Err(e)) => return Event::Failed(e),
            };
        }
    }

    /// Runs `jj git colocate` with the flags given.
    fn run_jj_in(&mut self, args: &[&str]) -> Output {
        assert_eq!(&args[..2], ["git", "colocate"]);
        let args = GitColocateArgs {
            enable: args.contains(&"--enable"),
            disable: args.contains(&"--disable"),
        };
        let mut stderr = String::new();
        let mut state = Colocation::Start;
        let mut event = Event::Start;
        loop {
            let (next, action) = cmd_git_colocate(&args, state, event);
            state = next;
            event = match action {
                Action::QueryColocated => Event::Answer(self.is_colocated()),
                Action::Exists(l) => Event::Answer(self.has_path(l.relative_path())),
                Action::IsFile(l) => Event::Answer(self.files.contains_key(l.relative_path())),
                Action::WriteFile { location, content } => {
                    self.files.insert(location.relative_path().to_string(), content);
                    Event::Done
                }
                Action::RemoveFile(l) => {
                    if self.remove_fails {
                        Event::Failed("permission denied".to_string())
                    } else {
                        self.files.remove(l.relative_path());
                        Event::Done
                    }
                }
                Action::MoveDirectory { from, to } => self.move_tree(from, to),
                Action::RunGit(config) => match &self.git_stderr {
                    Some(text) => Event::GitExited { success: false, stderr: text.clone() },
                    None => {
                        self.bare = config == GitConfig::SetBare;
                        Event::GitExited { success: true, stderr: String::new() }
                    }
                },
                Action::Snapshot => {
                    self.snapshots += 1;
                    Event::Done
                }
                Action::Status(line) => {
                    stderr.push_str(&line);
                    stderr.push('\n');
                    Event::Done
                }
                Action::Finish(Ok(())) => return Output { stderr, success: true },
                Action::Finish(Err(e)) => {
                    stderr.push_str(&e.render());
                    return Output { stderr, success: false };
                }
            };
        }
    }
}

#[test]
fn test_git_colocate_enable_success() {
    // Initialize a regular jj repo backed by git
    let mut test_env = TestEnvironment::init(false);

    // Verify it's not co-located initially
    assert!(!test_env.has_path(".git"));
    assert_eq!(test_env.read_git_target(), "git");

    // Run colocate command
    let _output = test_env.run_jj_in(&["git", "colocate", "--enable"]);

    // Verify colocate succeeded
    assert!(test_env.has_path(".git"));
    assert!(!test_env.has_path(".jj/repo/store/git"));
    assert_eq!(test_env.read_git_target(), "../../../.git");

    // Verify .jj/.gitignore was created
    let gitignore_content = test_env.files[".jj/.gitignore"].clone();
    assert_eq!(gitignore_content, "/*\n");
}

#[test]
fn test_git_colocate_enable_already_colocated() {
    // Initialize a co-located jj repo
    let mut test_env = TestEnvironment::init(true);

    // Try to colocate again - should fail
    let output = test_env.run_jj_in(&["git", "colocate", "--enable"]);
    assert!(output.stderr.contains("Repository is already co-located with Git"));
}

#[test]
fn test_git_colocate_enable_with_existing_git_dir() {
    // Initialize a regular jj repo
    let mut test_env = TestEnvironment::init(false);

    // Create a .git directory manually
    test_env.dirs.insert(".git".to_string());
    test_env.files.insert(".git/dummy".to_string(), "dummy".to_string());

    // Try to colocate - should fail
    let output = test_env.run_jj_in(&["git", "colocate", "--enable"]);
    assert!(output.stderr.contains("A .git directory already exists"));
}

#[test]
fn test_git_colocate_disable_success() {
    // Initialize and colocate a repo first
    let mut test_env = TestEnvironment::init(false);
    let _ = test_env.run_jj_in(&["git", "colocate", "--enable"]);

    // Verify it's co-located
    assert!(test_env.has_path(".git"));
    assert_eq!(test_env.read_git_target(), "../../../.git");

    // Disable co-location
    let _ = test_env.run_jj_in(&["git", "colocate", "--disable"]);

    // Verify that disable co-location succeeded
    assert!(!test_env.has_path(".git"));
    assert!(test_env.has_path(".jj/repo/store/git"));
    assert_eq!(test_env.read_git_target(), "git");
    assert!(!test_env.has_path(".jj/.gitignore"));
}

#[test]
fn test_git_colocate_disable_not_colocated() {
    // Initialize a regular jj repo (non co-located)
    let mut test_env = TestEnvironment::init(false);

    // Try to disable co-location when not co-located - should fail
    let output = test_env.run_jj_in(&["git", "colocate", "--disable"]);
    assert!(output.stderr.contains("Repository is already not co-located with Git."));
}

#[test]
fn test_git_colocate_round_trip() {
    // Initialize repo
    let mut test_env = TestEnvironment::init(false);

    // Enable co-location
    let _ = test_env.run_jj_in(&["git", "colocate", "--enable"]);
    assert!(test_env.has_path(".git"));

    // Disable co-location
    let _ = test_env.run_jj_in(&["git", "colocate", "--disable"]);
    assert!(!test_env.has_path(".git"));
    assert_eq!(test_env.read_git_target(), "git");
}

#[test]
fn test_git_colocate_status_non_colocated() {
    // Initialize a regular jj repo (non co-located)
    let mut test_env = TestEnvironment::init(false);

    // Check status - should show non co-located
    let output = test_env.run_jj_in(&["git", "colocate"]);
    assert!(output.success);
    assert!(output.stderr.contains("Repository is currently not co-located with Git"));
    assert!(output.stderr.contains("To enable co-location, run: jj git colocate --enable"));
}

#[test]
fn test_git_colocate_status_colocated() {
    // Initialize a co-located jj repo
    let mut test_env = TestEnvironment::init(true);

    // Check status - should show co-located
    let output = test_env.run_jj_in(&["git", "colocate"]);
    assert!(output.success);
    assert!(output.stderr.contains("Repository is currently co-located with Git"));
    assert!(output.stderr.contains("To disable co-location, run: jj git colocate --disable"));
}

#[test]
fn test_git_colocate_both_flags_error() {
    // Initialize a regular jj repo
    let mut test_env = TestEnvironment::init(false);

    // Try to use both flags - should fail
    let output = test_env.run_jj_in(&["git", "colocate", "--enable", "--disable"]);
    assert!(output.stderr.contains("Cannot specify both --enable and --disable flags"));
}

#[test]
fn both_flags_change_nothing() {
    let mut test_env = TestEnvironment::init(false);
    let output = test_env.run_jj_in(&["git", "colocate", "--enable", "--disable"]);
    assert!(!output.success);
    assert_eq!(output.stderr, "Error: Cannot specify both --enable and --disable flags\n");
    assert!(!test_env.has_path(".git"));
    assert_eq!(test_env.read_git_target(), "git");
}

#[test]
fn enable_makes_the_git_repository_non_bare_and_snapshots() {
    let mut test_env = TestEnvironment::init(false);
    let output = test_env.run_jj_in(&["git", "colocate", "--enable"]);
    assert!(output.success);
    assert_eq!(
        output.stderr,
        "Repository successfully converted into a co-located Jujutsu/git repository.\n"
    );
    assert!(!test_env.bare);
    assert_eq!(test_env.snapshots, 1);
    assert_eq!(test_env.files[".git/HEAD"], "ref: refs/heads/main");
}

#[test]
fn enable_refuses_a_workspace_of_another_repository() {
    let mut test_env = TestEnvironment::init(false);
    test_env.dirs.remove(".jj/repo");
    test_env.files.insert(".jj/repo".to_string(), "/elsewhere/.jj/repo".to_string());
    let output = test_env.run_jj_in(&["git", "colocate", "--enable"]);
    assert_eq!(output.stderr, "Error: Cannot co-locate a Jujutsu workspace.\n");
    assert!(!test_env.has_path(".jj/.gitignore"));
}

#[test]
fn enable_refuses_a_repository_without_git_store() {
    let mut test_env = TestEnvironment::init(false);
    test_env.dirs.remove(".jj/repo/store/git");
    test_env.files.remove(".jj/repo/store/git/HEAD");
    let output = test_env.run_jj_in(&["git", "colocate", "--enable"]);
    assert_eq!(
        output.stderr,
        "Error: git store not found. This repository might not be using the git back-end.\n"
    );
    assert!(!test_env.has_path(".jj/.gitignore"));
}

#[test]
fn enable_falls_back_to_copy_when_rename_fails() {
    let mut test_env = TestEnvironment::init(false);
    test_env.rename_fails = true;
    let output = test_env.run_jj_in(&["git", "colocate", "--enable"]);
    assert!(output.success);
    assert!(test_env.has_path(".git"));
    assert!(!test_env.has_path(".jj/repo/store/git"));
    assert_eq!(test_env.files[".git/HEAD"], "ref: refs/heads/main");
}

#[test]
fn enable_takes_the_pointer_file_back_when_the_move_fails() {
    let mut test_env = TestEnvironment::init(false);
    test_env.rename_fails = true;
    test_env.copy_fails = true;
    let output = test_env.run_jj_in(&["git", "colocate", "--enable"]);
    assert!(!output.success);
    assert_eq!(
        output.stderr,
        "Error: Failed to move git repository from .jj/repo/store/git to repository root \
         directory.\nCaused by: permission denied\n"
    );
    assert!(!test_env.has_path(".jj/repo/store/git_target"));
    assert!(test_env.has_path(".jj/repo/store/git"));
}

#[test]
fn enable_reports_a_pointer_file_that_could_not_be_removed() {
    let mut test_env = TestEnvironment::init(false);
    test_env.rename_fails = true;
    test_env.copy_fails = true;
    test_env.remove_fails = true;
    let output = test_env.run_jj_in(&["git", "colocate", "--enable"]);
    assert_eq!(
        output.stderr,
        "Error: Failed to move git repository from .jj/repo/store/git to repository root \
         directory.\nCaused by: permission denied\nHint: Could not remove the git_target file: \
         permission denied\n"
    );
}

#[test]
fn enable_reports_what_git_config_said_without_the_whitespace_around_it() {
    let mut test_env = TestEnvironment::init(false);
    test_env.git_stderr = Some("  error: could not lock config file\n\n".to_string());
    let output = test_env.run_jj_in(&["git", "colocate", "--enable"]);
    assert_eq!(
        output.stderr,
        "Error: Failed to unset core.bare in git config.\nCaused by: git config failed: error: \
         could not lock config file\n"
    );
    assert_eq!(test_env.snapshots, 0);
}

#[test]
fn disable_reports_what_git_config_said_and_moves_nothing() {
    let mut test_env = TestEnvironment::init(true);
    test_env.git_stderr = Some("fatal: not in a git directory\n".to_string());
    let output = test_env.run_jj_in(&["git", "colocate", "--disable"]);
    assert_eq!(
        output.stderr,
        "Error: Failed to set core.bare in git config.\nCaused by: git config failed: fatal: \
         not in a git directory\n"
    );
    assert!(test_env.has_path(".git"));
    assert_eq!(test_env.read_git_target(), "../../../.git");
}

#[test]
fn disable_refuses_when_a_git_store_is_already_there() {
    let mut test_env = TestEnvironment::init(true);
    test_env.dirs.insert(".jj/repo/store/git".to_string());
    let output = test_env.run_jj_in(&["git", "colocate", "--disable"]);
    assert_eq!(
        output.stderr,
        "Error: git store already exists at .jj/repo/store/git. Cannot disable co-location.\n"
    );
}

#[test]
fn disable_makes_the_git_repository_bare_again() {
    let mut test_env = TestEnvironment::init(true);
    let output = test_env.run_jj_in(&["git", "colocate", "--disable"]);
    assert_eq!(
        output.stderr,
        "Repository successfully converted into a non co-located regular Jujutsu repository.\n"
    );
    assert!(test_env.bare);
}

#[test]
fn an_event_that_answers_nothing_ends_the_command() {
    let args = GitColocateArgs { enable: true, disable: false };
    let (state, action) = cmd_git_colocate(&args, Colocation::Start, Event::Start);
    assert!(matches!(action, Action::QueryColocated));
    let (_, action) = cmd_git_colocate(&args, state, Event::Done);
    match action {
        Action::Finish(Err(e)) => {
            assert_eq!(
                e.render(),
                "Internal error: Unexpected event\nCaused by: the event does not answer the \
                 action\n"
            );
        }
        _ => panic!("the command went on"),
    }
}

#[test]
fn git_config_arguments() {
    assert_eq!(GitConfig::UnsetBare.argument_list(), vec!["config", "--unset", "core.bare"]);
    assert_eq!(GitConfig::SetBare.argument_list(), vec!["config", "core.bare", "true"]);
    assert_eq!(Location::GitTarget.relative_path(), ".jj/repo/store/git_target");
}
