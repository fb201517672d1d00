use crate::command_error::{
    error_view, internal_error_with_message, user_error, user_error_with_message, CommandError,
    CommandErrorKind, CommandErrorView,
};
use vstd::prelude::*;
use vstd::string::StringExecFns;

verus! {

/// Manage the colocation of the repository with Git.
#[derive(Clone, Copy, Debug, PartialEq, Eq, Structural)]
pub struct GitColocateArgs {
    /// Enable co-location (convert into a co-located repository).
    pub enable: bool,
    /// Disable co-location (convert into a repository that is not co-located).
    pub disable: bool,
}

/// A place in the workspace that the conversion reads or changes.
#[derive(Clone, Copy, Debug, PartialEq, Eq, Structural)]
pub enum Location {
    /// `.git` in the workspace root.
    DotGit,
    /// `.jj/repo`.
    JjRepo,
    /// `.jj/repo/store/git`.
    GitStore,
    /// `.jj/repo/store/git_target`.
    GitTarget,
    /// `.jj/.gitignore`.
    JjGitignore,
}

impl Location {
    /// The path, relative to the workspace root.
    pub open spec fn path(self) -> Seq<char> {
        match self {
            Location::DotGit => ".git"@,
            Location::JjRepo => ".jj/repo"@,
            Location::GitStore => ".jj/repo/store/git"@,
            Location::GitTarget => ".jj/repo/store/git_target"@,
            Location::JjGitignore => ".jj/.gitignore"@,
        }
    }

    pub fn relative_path(self) -> (p: &'static str)
        ensures
            p@ == self.path(),
    {
        match self {
            Location::DotGit => ".git",
            Location::JjRepo => ".jj/repo",
            Location::GitStore => ".jj/repo/store/git",
            Location::GitTarget => ".jj/repo/store/git_target",
            Location::JjGitignore => ".jj/.gitignore",
        }
    }
}

/// A change of the Git repository's `core.bare` setting.
#[derive(Clone, Copy, Debug, PartialEq, Eq, Structural)]
pub enum GitConfig {
    /// `git config --unset core.bare`
    UnsetBare,
    /// `git config core.bare true`
    SetBare,
}

impl GitConfig {
    pub open spec fn arguments(self) -> Seq<Seq<char>> {
        match self {
            GitConfig::UnsetBare => seq!["config"@, "--unset"@, "core.bare"@],
            GitConfig::SetBare => seq!["config"@, "core.bare"@, "true"@],
        }
    }

    /// The arguments for `git`, after `-C` and the directory.
    pub fn argument_list(self) -> (args: Vec<&'static str>)
        ensures
            args@.len() == 3,
            forall|i: int| 0 <= i < 3 ==> (#[trigger] args@[i])@ == self.arguments()[i],
    {
        let mut args: Vec<&'static str> = Vec::new();
        match self {
            GitConfig::UnsetBare => {
                args.push("config");
                args.push("--unset");
                args.push("core.bare");
            },
            GitConfig::SetBare => {
                args.push("config");
                args.push("core.bare");
                args.push("true");
            },
        }
        args
    }
}

/// What the outside reports of the action it was asked for.
pub enum Event {
    /// Nothing yet: the command begins.
    Start,
    /// The answer to a question.
    Answer(bool),
    /// The action was carried out.
    Done,
    /// The action failed, with what the system reported.
    Failed(String),
    /// `git` ran and ended.
    GitExited { success: bool, stderr: String },
}

pub enum EventView {
    Start,
    Answer(bool),
    Done,
    Failed(Seq<char>),
    GitExited { success: bool, stderr: Seq<char> },
}

impl View for Event {
    type V = EventView;

    open spec fn view(&self) -> EventView {
        match *self {
            Event::Start => EventView::Start,
            Event::Answer(b) => EventView::Answer(b),
            Event::Done => EventView::Done,
            Event::Failed(e) => EventView::Failed(e@),
            Event::GitExited { success, stderr } => EventView::GitExited {
                success,
                stderr: stderr@,
            },
        }
    }
}

/// What the command asks the outside to do next.
pub enum Action {
    /// Say whether the workspace is co-located with Git.
    QueryColocated,
    /// Say whether anything exists at the place.
    Exists(Location),
    /// Say whether the place holds a plain file.
    IsFile(Location),
    /// Write the file, over what is there.
    WriteFile { location: Location, content: String },
    /// Remove the file.
    RemoveFile(Location),
    /// Move the directory tree.
    MoveDirectory { from: Location, to: Location },
    /// Run `git` in `.git` of the workspace root.
    RunGit(GitConfig),
    /// Take a snapshot of the working copy, which exports to Git.
    Snapshot,
    /// Tell the user.
    Status(String),
    /// End the command.
    Finish(Result<(), CommandError>),
}

pub enum ActionView {
    QueryColocated,
    Exists(Location),
    IsFile(Location),
    WriteFile { location: Location, content: Seq<char> },
    RemoveFile(Location),
    MoveDirectory { from: Location, to: Location },
    RunGit(GitConfig),
    Snapshot,
    Status(Seq<char>),
    Finish(Result<(), CommandErrorView>),
}

impl View for Action {
    type V = ActionView;

    open spec fn view(&self) -> ActionView {
        match *self {
            Action::QueryColocated => ActionView::QueryColocated,
            Action::Exists(l) => ActionView::Exists(l),
            Action::IsFile(l) => ActionView::IsFile(l),
            Action::WriteFile { location, content } => ActionView::WriteFile {
                location,
                content: content@,
            },
            Action::RemoveFile(l) => ActionView::RemoveFile(l),
            Action::MoveDirectory { from, to } => ActionView::MoveDirectory { from, to },
            Action::RunGit(c) => ActionView::RunGit(c),
            Action::Snapshot => ActionView::Snapshot,
            Action::Status(s) => ActionView::Status(s@),
            Action::Finish(r) => ActionView::Finish(
                match r {
                    Ok(_) => Ok(()),
                    Err(e) => Err(e@),
                },
            ),
        }
    }
}

/// The text without the whitespace at its two ends, as `str::trim` gives it.
pub uninterp spec fn trimmed(text: Seq<char>) -> Seq<char>;

/// `str::trim` of the standard library, with the result made a `String`.
/// The contract only names the result: the text without leading and
/// trailing whitespace, which is a function of the text alone.
#[verifier::external_body]
fn trim(text: &str) -> (r: String)
    ensures
        r@ == trimmed(text@),
{
    text.trim().to_string()
}

pub open spec fn user_failure(message: Seq<char>) -> ActionView {
    ActionView::Finish(Err(error_view(CommandErrorKind::User, message, None, None)))
}

pub open spec fn user_failure_with(message: Seq<char>, cause: Seq<char>) -> ActionView {
    ActionView::Finish(Err(error_view(CommandErrorKind::User, message, Some(cause), None)))
}

/// The error for an action of the user interface that failed.
pub open spec fn io_failure(cause: Seq<char>) -> ActionView {
    ActionView::Finish(Err(error_view(CommandErrorKind::Internal, "I/O error"@, Some(cause), None)))
}

/// The error for an event that does not answer the action asked for.
pub open spec fn protocol_failure() -> ActionView {
    ActionView::Finish(
        Err(
            error_view(
                CommandErrorKind::Internal,
                "Unexpected event"@,
                Some("the event does not answer the action"@),
                None,
            ),
        ),
    )
}

/// What `git config` is reported to have said when it failed.
pub open spec fn git_failure(stderr: Seq<char>) -> Seq<char> {
    "git config failed: "@ + trimmed(stderr)
}

fn fail(message: &str) -> (a: Action)
    ensures
        a@ == user_failure(message@),
{
    Action::Finish(Err(user_error(message)))
}

fn fail_with(message: &str, cause: String) -> (a: Action)
    ensures
        a@ == user_failure_with(message@, cause@),
{
    Action::Finish(Err(user_error_with_message(message, cause)))
}

fn fail_io(cause: String) -> (a: Action)
    ensures
        a@ == io_failure(cause@),
{
    Action::Finish(Err(internal_error_with_message("I/O error", cause)))
}

fn fail_protocol() -> (a: Action)
    ensures
        a@ == protocol_failure(),
{
    Action::Finish(
        Err(
            internal_error_with_message(
                "Unexpected event",
                String::from_str("the event does not answer the action"),
            ),
        ),
    )
}

fn git_failed(stderr: &String) -> (text: String)
    ensures
        text@ == git_failure(stderr@),
{
    let mut text = String::from_str("git config failed: ");
    let rest = trim(stderr.as_str());
    text.append(rest.as_str());
    text
}

fn say(message: &str) -> (a: Action)
    ensures
        a@ == ActionView::Status(message@),
{
    Action::Status(String::from_str(message))
}

/// Where the report of the state stands.
#[derive(Clone, Copy, Debug, PartialEq, Eq, Structural)]
pub enum StatusState {
    Start,
    /// Asked whether the workspace is co-located.
    Asked,
    /// Said which it is.
    Said(bool),
    /// Said how to change it.
    Hinted,
    Finished,
}

/// One step of the report: says whether the repository is co-located, and
/// how to change that.
pub open spec fn show_status_step(state: StatusState, event: EventView) -> (
    StatusState,
    ActionView,
) {
    match (state, event) {
        (StatusState::Start, EventView::Start) => (StatusState::Asked, ActionView::QueryColocated),
        (StatusState::Asked, EventView::Answer(colocated)) => (
            StatusState::Said(colocated),
            ActionView::Status(
                if colocated {
                    "Repository is currently co-located with Git"@
                } else {
                    "Repository is currently not co-located with Git"@
                },
            ),
        ),
        (StatusState::Said(colocated), EventView::Done) => (
            StatusState::Hinted,
            ActionView::Status(
                if colocated {
                    "To disable co-location, run: jj git colocate --disable"@
                } else {
                    "To enable co-location, run: jj git colocate --enable"@
                },
            ),
        ),
        (StatusState::Hinted, EventView::Done) => (StatusState::Finished, ActionView::Finish(Ok(()))),
        (StatusState::Said(_), EventView::Failed(cause)) => (
            StatusState::Finished,
            io_failure(cause),
        ),
        (StatusState::Hinted, EventView::Failed(cause)) => (
            StatusState::Finished,
            io_failure(cause),
        ),
        _ => (StatusState::Finished, protocol_failure()),
    }
}

pub fn show_status(state: StatusState, event: Event) -> (r: (StatusState, Action))
    ensures
        r.0 == show_status_step(state, event@).0,
        r.1@ == show_status_step(state, event@).1,
{
    match (state, event) {
        (StatusState::Start, Event::Start) => (StatusState::Asked, Action::QueryColocated),
        (StatusState::Asked, Event::Answer(colocated)) => {
            let line = if colocated {
                say("Repository is currently co-located with Git")
            } else {
                say("Repository is currently not co-located with Git")
            };
            (StatusState::Said(colocated), line)
        },
        (StatusState::Said(colocated), Event::Done) => {
            let line = if colocated {
                say("To disable co-location, run: jj git colocate --disable")
            } else {
                say("To enable co-location, run: jj git colocate --enable")
            };
            (StatusState::Hinted, line)
        },
        (StatusState::Hinted, Event::Done) => (StatusState::Finished, Action::Finish(Ok(()))),
        (StatusState::Said(_), Event::Failed(cause)) => (StatusState::Finished, fail_io(cause)),
        (StatusState::Hinted, Event::Failed(cause)) => (StatusState::Finished, fail_io(cause)),
        _ => (StatusState::Finished, fail_protocol()),
    }
}

/// Where the conversion into a co-located repository stands.
pub enum EnableState {
    Start,
    AskedColocated,
    SaidAlready,
    AskedDotGit,
    AskedWorkspace,
    AskedGitStore,
    WroteGitignore,
    WroteGitTarget,
    Moved,
    /// The move failed; the pointer file is being taken back.
    Cleaning(String),
    RanGit,
    Snapshotted,
    SaidDone,
    Finished,
}

pub enum EnableStateView {
    Start,
    AskedColocated,
    SaidAlready,
    AskedDotGit,
    AskedWorkspace,
    AskedGitStore,
    WroteGitignore,
    WroteGitTarget,
    Moved,
    Cleaning(Seq<char>),
    RanGit,
    Snapshotted,
    SaidDone,
    Finished,
}

impl View for EnableState {
    type V = EnableStateView;

    open spec fn view(&self) -> EnableStateView {
        match *self {
            EnableState::Start => EnableStateView::Start,
            EnableState::AskedColocated => EnableStateView::AskedColocated,
            EnableState::SaidAlready => EnableStateView::SaidAlready,
            EnableState::AskedDotGit => EnableStateView::AskedDotGit,
            EnableState::AskedWorkspace => EnableStateView::AskedWorkspace,
            EnableState::AskedGitStore => EnableStateView::AskedGitStore,
            EnableState::WroteGitignore => EnableStateView::WroteGitignore,
            EnableState::WroteGitTarget => EnableStateView::WroteGitTarget,
            EnableState::Moved => EnableStateView::Moved,
            EnableState::Cleaning(cause) => EnableStateView::Cleaning(cause@),
            EnableState::RanGit => EnableStateView::RanGit,
            EnableState::Snapshotted => EnableStateView::Snapshotted,
            EnableState::SaidDone => EnableStateView::SaidDone,
            EnableState::Finished => EnableStateView::Finished,
        }
    }
}

/// The error after a failed move, once the pointer file has been dealt
/// with: it says so if the file could not be removed.
pub open spec fn move_failure(cause: Seq<char>, cleanup: Option<Seq<char>>) -> ActionView {
    ActionView::Finish(
        Err(
            error_view(
                CommandErrorKind::User,
                "Failed to move git repository from .jj/repo/store/git to repository root directory."@,
                Some(cause),
                match cleanup {
                    Some(e) => Some("Could not remove the git_target file: "@ + e),
                    None => None,
                },
            ),
        ),
    )
}

/// One step of the conversion into a co-located repository.
///
/// Nothing is written before the three tests have passed: no `.git` in the
/// workspace root, the repository no workspace of another, and a Git store
/// inside it. The pointer file is written before the move, and taken back
/// if the move fails.
pub open spec fn enable_step(state: EnableStateView, event: EventView) -> (
    EnableStateView,
    ActionView,
) {
    match (state, event) {
        (EnableStateView::Start, EventView::Start) => (
            EnableStateView::AskedColocated,
            ActionView::QueryColocated,
        ),
        (EnableStateView::AskedColocated, EventView::Answer(true)) => (
            EnableStateView::SaidAlready,
            ActionView::Status("Repository is already co-located with Git."@),
        ),
        (EnableStateView::SaidAlready, EventView::Done) => (
            EnableStateView::Finished,
            ActionView::Finish(Ok(())),
        ),
        (EnableStateView::AskedColocated, EventView::Answer(false)) => (
            EnableStateView::AskedDotGit,
            ActionView::Exists(Location::DotGit),
        ),
        (EnableStateView::AskedDotGit, EventView::Answer(true)) => (
            EnableStateView::Finished,
            user_failure(
                "A .git directory already exists in the workspace root. Cannot co-locate."@,
            ),
        ),
        (EnableStateView::AskedDotGit, EventView::Answer(false)) => (
            EnableStateView::AskedWorkspace,
            ActionView::IsFile(Location::JjRepo),
        ),
        (EnableStateView::AskedWorkspace, EventView::Answer(true)) => (
            EnableStateView::Finished,
            user_failure("Cannot co-locate a Jujutsu workspace."@),
        ),
        (EnableStateView::AskedWorkspace, EventView::Answer(false)) => (
            EnableStateView::AskedGitStore,
            ActionView::Exists(Location::GitStore),
        ),
        (EnableStateView::AskedGitStore, EventView::Answer(false)) => (
            EnableStateView::Finished,
            user_failure(
                "git store not found. This repository might not be using the git back-end."@,
            ),
        ),
        (EnableStateView::AskedGitStore, EventView::Answer(true)) => (
            EnableStateView::WroteGitignore,
            ActionView::WriteFile { location: Location::JjGitignore, content: "/*\n"@ },
        ),
        (EnableStateView::WroteGitignore, EventView::Failed(cause)) => (
            EnableStateView::Finished,
            user_failure_with("Failed to create .jj/.gitignore file."@, cause),
        ),
        (EnableStateView::WroteGitignore, EventView::Done) => (
            EnableStateView::WroteGitTarget,
            ActionView::WriteFile { location: Location::GitTarget, content: "../../../.git"@ },
        ),
        (EnableStateView::WroteGitTarget, EventView::Failed(cause)) => (
            EnableStateView::Finished,
            user_failure_with("Failed to create git_target file."@, cause),
        ),
        (EnableStateView::WroteGitTarget, EventView::Done) => (
            EnableStateView::Moved,
            ActionView::MoveDirectory { from: Location::GitStore, to: Location::DotGit },
        ),
        (EnableStateView::Moved, EventView::Failed(cause)) => (
            EnableStateView::Cleaning(cause),
            ActionView::RemoveFile(Location::GitTarget),
        ),
        (EnableStateView::Cleaning(cause), EventView::Done) => (
            EnableStateView::Finished,
            move_failure(cause, None),
        ),
        (EnableStateView::Cleaning(cause), EventView::Failed(e)) => (
            EnableStateView::Finished,
            move_failure(cause, Some(e)),
        ),
        (EnableStateView::Moved, EventView::Done) => (
            EnableStateView::RanGit,
            ActionView::RunGit(GitConfig::UnsetBare),
        ),
        (EnableStateView::RanGit, EventView::GitExited { success: true, stderr }) => (
            EnableStateView::Snapshotted,
            ActionView::Snapshot,
        ),
        (EnableStateView::RanGit, EventView::GitExited { success: false, stderr }) => (
            EnableStateView::Finished,
            user_failure_with("Failed to unset core.bare in git config."@, git_failure(stderr)),
        ),
        (EnableStateView::RanGit, EventView::Failed(cause)) => (
            EnableStateView::Finished,
            user_failure_with("Failed to run git config command to unset core.bare."@, cause),
        ),
        (EnableStateView::Snapshotted, EventView::Failed(cause)) => (
            EnableStateView::Finished,
            user_failure_with("Failed to snapshot the working copy."@, cause),
        ),
        (EnableStateView::Snapshotted, EventView::Done) => (
            EnableStateView::SaidDone,
            ActionView::Status(
                "Repository successfully converted into a co-located Jujutsu/git repository."@,
            ),
        ),
        (EnableStateView::SaidDone, EventView::Done) => (
            EnableStateView::Finished,
            ActionView::Finish(Ok(())),
        ),
        (EnableStateView::SaidAlready, EventView::Failed(cause)) => (
            EnableStateView::Finished,
            io_failure(cause),
        ),
        (EnableStateView::SaidDone, EventView::Failed(cause)) => (
            EnableStateView::Finished,
            io_failure(cause),
        ),
        _ => (EnableStateView::Finished, protocol_failure()),
    }
}

fn move_failed(cause: String, cleanup: Option<String>) -> (a: Action)
    ensures
        a@ == move_failure(
            cause@,
            match cleanup {
                Some(e) => Some(e@),
                None => None,
            },
        ),
{
    let hint = match cleanup {
        Some(e) => {
            let mut text = String::from_str("Could not remove the git_target file: ");
            text.append(e.as_str());
            Some(text)
        },
        None => None,
    };
    Action::Finish(
        Err(
            CommandError {
                kind: CommandErrorKind::User,
                message: String::from_str(
                    "Failed to move git repository from .jj/repo/store/git to repository root directory.",
                ),
                source: Some(cause),
                hint,
            },
        ),
    )
}

pub fn enable_repository_colocation(state: EnableState, event: Event) -> (r: (EnableState, Action))
    ensures
        r.0@ == enable_step(state@, event@).0,
        r.1@ == enable_step(state@, event@).1,
{
    match (state, event) {
        (EnableState::Start, Event::Start) => (EnableState::AskedColocated, Action::QueryColocated),
        (EnableState::AskedColocated, Event::Answer(true)) => (
            EnableState::SaidAlready,
            say("Repository is already co-located with Git."),
        ),
        (EnableState::SaidAlready, Event::Done) => (EnableState::Finished, Action::Finish(Ok(()))),
        (EnableState::AskedColocated, Event::Answer(false)) => (
            EnableState::AskedDotGit,
            Action::Exists(Location::DotGit),
        ),
        (EnableState::AskedDotGit, Event::Answer(true)) => (
            EnableState::Finished,
            fail("A .git directory already exists in the workspace root. Cannot co-locate."),
        ),
        (EnableState::AskedDotGit, Event::Answer(false)) => (
            EnableState::AskedWorkspace,
            Action::IsFile(Location::JjRepo),
        ),
        (EnableState::AskedWorkspace, Event::Answer(true)) => (
            EnableState::Finished,
            fail("Cannot co-locate a Jujutsu workspace."),
        ),
        (EnableState::AskedWorkspace, Event::Answer(false)) => (
            EnableState::AskedGitStore,
            Action::Exists(Location::GitStore),
        ),
        (EnableState::AskedGitStore, Event::Answer(false)) => (
            EnableState::Finished,
            fail("git store not found. This repository might not be using the git back-end."),
        ),
        (EnableState::AskedGitStore, Event::Answer(true)) => (
            EnableState::WroteGitignore,
            Action::WriteFile {
                location: Location::JjGitignore,
                content: String::from_str("/*\n"),
            },
        ),
        (EnableState::WroteGitignore, Event::Failed(cause)) => (
            EnableState::Finished,
            fail_with("Failed to create .jj/.gitignore file.", cause),
        ),
        (EnableState::WroteGitignore, Event::Done) => (
            EnableState::WroteGitTarget,
            Action::WriteFile {
                location: Location::GitTarget,
                content: String::from_str("../../../.git"),
            },
        ),
        (EnableState::WroteGitTarget, Event::Failed(cause)) => (
            EnableState::Finished,
            fail_with("Failed to create git_target file.", cause),
        ),
        (EnableState::WroteGitTarget, Event::Done) => (
            EnableState::Moved,
            Action::MoveDirectory { from: Location::GitStore, to: Location::DotGit },
        ),
        (EnableState::Moved, Event::Failed(cause)) => (
            EnableState::Cleaning(cause),
            Action::RemoveFile(Location::GitTarget),
        ),
        (EnableState::Cleaning(cause), Event::Done) => (
            EnableState::Finished,
            move_failed(cause, None),
        ),
        (EnableState::Cleaning(cause), Event::Failed(e)) => (
            EnableState::Finished,
            move_failed(cause, Some(e)),
        ),
        (EnableState::Moved, Event::Done) => (
            EnableState::RanGit,
            Action::RunGit(GitConfig::UnsetBare),
        ),
        (EnableState::RanGit, Event::GitExited { success, stderr }) => {
            if success {
                (EnableState::Snapshotted, Action::Snapshot)
            } else {
                (
                    EnableState::Finished,
                    fail_with("Failed to unset core.bare in git config.", git_failed(&stderr)),
                )
            }
        },
        (EnableState::RanGit, Event::Failed(cause)) => (
            EnableState::Finished,
            fail_with("Failed to run git config command to unset core.bare.", cause),
        ),
        (EnableState::Snapshotted, Event::Failed(cause)) => (
            EnableState::Finished,
            fail_with("Failed to snapshot the working copy.", cause),
        ),
        (EnableState::Snapshotted, Event::Done) => (
            EnableState::SaidDone,
            say("Repository successfully converted into a co-located Jujutsu/git repository."),
        ),
        (EnableState::SaidDone, Event::Done) => (EnableState::Finished, Action::Finish(Ok(()))),
        (EnableState::SaidAlready, Event::Failed(cause)) => (EnableState::Finished, fail_io(cause)),
        (EnableState::SaidDone, Event::Failed(cause)) => (EnableState::Finished, fail_io(cause)),
        _ => (EnableState::Finished, fail_protocol()),
    }
}

/// Where the conversion into a repository that is not co-located stands.
#[derive(Clone, Copy, Debug, PartialEq, Eq, Structural)]
pub enum DisableState {
    Start,
    AskedColocated,
    SaidAlready,
    AskedDotGit,
    AskedGitStore,
    RanGit,
    Moved,
    WroteGitTarget,
    AskedGitignore,
    RemovedGitignore,
    SaidDone,
    Finished,
}

/// One step of the conversion into a repository that is not co-located.
///
/// Nothing is changed before the two tests have passed: a `.git` in the
/// workspace root, and no Git store inside the repository yet.
pub open spec fn disable_step(state: DisableState, event: EventView) -> (DisableState, ActionView) {
    match (state, event) {
        (DisableState::Start, EventView::Start) => (
            DisableState::AskedColocated,
            ActionView::QueryColocated,
        ),
        (DisableState::AskedColocated, EventView::Answer(false)) => (
            DisableState::SaidAlready,
            ActionView::Status("Repository is already not co-located with Git."@),
        ),
        (DisableState::SaidAlready, EventView::Done) => (
            DisableState::Finished,
            ActionView::Finish(Ok(())),
        ),
        (DisableState::AskedColocated, EventView::Answer(true)) => (
            DisableState::AskedDotGit,
            ActionView::Exists(Location::DotGit),
        ),
        (DisableState::AskedDotGit, EventView::Answer(false)) => (
            DisableState::Finished,
            user_failure("No .git directory found in workspace root."@),
        ),
        (DisableState::AskedDotGit, EventView::Answer(true)) => (
            DisableState::AskedGitStore,
            ActionView::Exists(Location::GitStore),
        ),
        (DisableState::AskedGitStore, EventView::Answer(true)) => (
            DisableState::Finished,
            user_failure(
                "git store already exists at .jj/repo/store/git. Cannot disable co-location."@,
            ),
        ),
        (DisableState::AskedGitStore, EventView::Answer(false)) => (
            DisableState::RanGit,
            ActionView::RunGit(GitConfig::SetBare),
        ),
        (DisableState::RanGit, EventView::Failed(cause)) => (
            DisableState::Finished,
            user_failure_with("Failed to run git config command to set core.bare."@, cause),
        ),
        (DisableState::RanGit, EventView::GitExited { success: false, stderr }) => (
            DisableState::Finished,
            user_failure_with("Failed to set core.bare in git config."@, git_failure(stderr)),
        ),
        (DisableState::RanGit, EventView::GitExited { success: true, stderr }) => (
            DisableState::Moved,
            ActionView::MoveDirectory { from: Location::DotGit, to: Location::GitStore },
        ),
        (DisableState::Moved, EventView::Failed(cause)) => (
            DisableState::Finished,
            user_failure_with("Failed to move git repository to .jj/repo/store/git"@, cause),
        ),
        (DisableState::Moved, EventView::Done) => (
            DisableState::WroteGitTarget,
            ActionView::WriteFile { location: Location::GitTarget, content: "git"@ },
        ),
        (DisableState::WroteGitTarget, EventView::Failed(cause)) => (
            DisableState::Finished,
            user_failure_with("Failed to update git_target file."@, cause),
        ),
        (DisableState::WroteGitTarget, EventView::Done) => (
            DisableState::AskedGitignore,
            ActionView::Exists(Location::JjGitignore),
        ),
        (DisableState::AskedGitignore, EventView::Answer(true)) => (
            DisableState::RemovedGitignore,
            ActionView::RemoveFile(Location::JjGitignore),
        ),
        (DisableState::RemovedGitignore, EventView::Failed(cause)) => (
            DisableState::Finished,
            user_failure_with("Failed to remove .jj/.gitignore file."@, cause),
        ),
        (DisableState::AskedGitignore, EventView::Answer(false)) => (
            DisableState::SaidDone,
            ActionView::Status(
                "Repository successfully converted into a non co-located regular Jujutsu repository."@,
            ),
        ),
        (DisableState::RemovedGitignore, EventView::Done) => (
            DisableState::SaidDone,
            ActionView::Status(
                "Repository successfully converted into a non co-located regular Jujutsu repository."@,
            ),
        ),
        (DisableState::SaidDone, EventView::Done) => (
            DisableState::Finished,
            ActionView::Finish(Ok(())),
        ),
        (DisableState::SaidAlready, EventView::Failed(cause)) => (
            DisableState::Finished,
            io_failure(cause),
        ),
        (DisableState::SaidDone, EventView::Failed(cause)) => (
            DisableState::Finished,
            io_failure(cause),
        ),
        _ => (DisableState::Finished, protocol_failure()),
    }
}

pub fn disable_repository_colocation(state: DisableState, event: Event) -> (r: (
    DisableState,
    Action,
))
    ensures
        r.0 == disable_step(state, event@).0,
        r.1@ == disable_step(state, event@).1,
{
    match (state, event) {
        (DisableState::Start, Event::Start) => (DisableState::AskedColocated, Action::QueryColocated),
        (DisableState::AskedColocated, Event::Answer(false)) => (
            DisableState::SaidAlready,
            say("Repository is already not co-located with Git."),
        ),
        (DisableState::SaidAlready, Event::Done) => (DisableState::Finished, Action::Finish(Ok(()))),
        (DisableState::AskedColocated, Event::Answer(true)) => (
            DisableState::AskedDotGit,
            Action::Exists(Location::DotGit),
        ),
        (DisableState::AskedDotGit, Event::Answer(false)) => (
            DisableState::Finished,
            fail("No .git directory found in workspace root."),
        ),
        (DisableState::AskedDotGit, Event::Answer(true)) => (
            DisableState::AskedGitStore,
            Action::Exists(Location::GitStore),
        ),
        (DisableState::AskedGitStore, Event::Answer(true)) => (
            DisableState::Finished,
            fail("git store already exists at .jj/repo/store/git. Cannot disable co-location."),
        ),
        (DisableState::AskedGitStore, Event::Answer(false)) => (
            DisableState::RanGit,
            Action::RunGit(GitConfig::SetBare),
        ),
        (DisableState::RanGit, Event::Failed(cause)) => (
            DisableState::Finished,
            fail_with("Failed to run git config command to set core.bare.", cause),
        ),
        (DisableState::RanGit, Event::GitExited { success, stderr }) => {
            if success {
                (
                    DisableState::Moved,
                    Action::MoveDirectory { from: Location::DotGit, to: Location::GitStore },
                )
            } else {
                (
                    DisableState::Finished,
                    fail_with("Failed to set core.bare in git config.", git_failed(&stderr)),
                )
            }
        },
        (DisableState::Moved, Event::Failed(cause)) => (
            DisableState::Finished,
            fail_with("Failed to move git repository to .jj/repo/store/git", cause),
        ),
        (DisableState::Moved, Event::Done) => (
            DisableState::WroteGitTarget,
            Action::WriteFile { location: Location::GitTarget, content: String::from_str("git") },
        ),
        (DisableState::WroteGitTarget, Event::Failed(cause)) => (
            DisableState::Finished,
            fail_with("Failed to update git_target file.", cause),
        ),
        (DisableState::WroteGitTarget, Event::Done) => (
            DisableState::AskedGitignore,
            Action::Exists(Location::JjGitignore),
        ),
        (DisableState::AskedGitignore, Event::Answer(true)) => (
            DisableState::RemovedGitignore,
            Action::RemoveFile(Location::JjGitignore),
        ),
        (DisableState::RemovedGitignore, Event::Failed(cause)) => (
            DisableState::Finished,
            fail_with("Failed to remove .jj/.gitignore file.", cause),
        ),
        (DisableState::AskedGitignore, Event::Answer(false)) => (
            DisableState::SaidDone,
            say(
                "Repository successfully converted into a non co-located regular Jujutsu repository.",
            ),
        ),
        (DisableState::RemovedGitignore, Event::Done) => (
            DisableState::SaidDone,
            say(
                "Repository successfully converted into a non co-located regular Jujutsu repository.",
            ),
        ),
        (DisableState::SaidDone, Event::Done) => (DisableState::Finished, Action::Finish(Ok(()))),
        (DisableState::SaidAlready, Event::Failed(cause)) => (DisableState::Finished, fail_io(cause)),
        (DisableState::SaidDone, Event::Failed(cause)) => (DisableState::Finished, fail_io(cause)),
        _ => (DisableState::Finished, fail_protocol()),
    }
}

/// Where the command stands: before its flags were looked at, or within
/// one of its three courses.
pub enum Colocation {
    Start,
    Status(StatusState),
    Enable(EnableState),
    Disable(DisableState),
    Finished,
}

pub enum ColocationView {
    Start,
    Status(StatusState),
    Enable(EnableStateView),
    Disable(DisableState),
    Finished,
}

impl View for Colocation {
    type V = ColocationView;

    open spec fn view(&self) -> ColocationView {
        match *self {
            Colocation::Start => ColocationView::Start,
            Colocation::Status(s) => ColocationView::Status(s),
            Colocation::Enable(s) => ColocationView::Enable(s@),
            Colocation::Disable(s) => ColocationView::Disable(s),
            Colocation::Finished => ColocationView::Finished,
        }
    }
}

/// One step of the command. It begins by refusing the two flags together;
/// with `--enable` it converts into a co-located repository, with
/// `--disable` back, and with neither it reports which the repository is.
pub open spec fn colocate_step(args: GitColocateArgs, state: ColocationView, event: EventView) -> (
    ColocationView,
    ActionView,
) {
    match state {
        ColocationView::Start => if event != EventView::Start {
            (ColocationView::Finished, protocol_failure())
        } else if args.enable && args.disable {
            (
                ColocationView::Finished,
                user_failure("Cannot specify both --enable and --disable flags"@),
            )
        } else if args.enable {
            (
                ColocationView::Enable(enable_step(EnableStateView::Start, event).0),
                enable_step(EnableStateView::Start, event).1,
            )
        } else if args.disable {
            (
                ColocationView::Disable(disable_step(DisableState::Start, event).0),
                disable_step(DisableState::Start, event).1,
            )
        } else {
            (
                ColocationView::Status(show_status_step(StatusState::Start, event).0),
                show_status_step(StatusState::Start, event).1,
            )
        },
        ColocationView::Enable(s) => (
            ColocationView::Enable(enable_step(s, event).0),
            enable_step(s, event).1,
        ),
        ColocationView::Disable(s) => (
            ColocationView::Disable(disable_step(s, event).0),
            disable_step(s, event).1,
        ),
        ColocationView::Status(s) => (
            ColocationView::Status(show_status_step(s, event).0),
            show_status_step(s, event).1,
        ),
        ColocationView::Finished => (ColocationView::Finished, protocol_failure()),
    }
}

pub fn cmd_git_colocate(args: &GitColocateArgs, state: Colocation, event: Event) -> (r: (
    Colocation,
    Action,
))
    ensures
        r.0@ == colocate_step(*args, state@, event@).0,
        r.1@ == colocate_step(*args, state@, event@).1,
{
    match state {
        Colocation::Start => {
            match event {
                Event::Start => {},
                _ => {
                    return (Colocation::Finished, fail_protocol());
                },
            }
            if args.enable && args.disable {
                return (
                    Colocation::Finished,
                    fail("Cannot specify both --enable and --disable flags"),
                );
            }
            if args.enable {
                let (s, a) = enable_repository_colocation(EnableState::Start, event);
                (Colocation::Enable(s), a)
            } else if args.disable {
                let (s, a) = disable_repository_colocation(DisableState::Start, event);
                (Colocation::Disable(s), a)
            } else {
                let (s, a) = show_status(StatusState::Start, event);
                (Colocation::Status(s), a)
            }
        },
        Colocation::Enable(s) => {
            let (s, a) = enable_repository_colocation(s, event);
            (Colocation::Enable(s), a)
        },
        Colocation::Disable(s) => {
            let (s, a) = disable_repository_colocation(s, event);
            (Colocation::Disable(s), a)
        },
        Colocation::Status(s) => {
            let (s, a) = show_status(s, event);
            (Colocation::Status(s), a)
        },
        Colocation::Finished => (Colocation::Finished, fail_protocol()),
    }
}

} // verus!
