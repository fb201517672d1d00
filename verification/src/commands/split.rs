use crate::command_error::{
    error_view, internal_error_with_message, user_error_with_hint, user_error_with_message,
    CommandError, CommandErrorKind, CommandErrorView,
};
use crate::ids::{CommitId, TreeId};
use crate::name_map::lookup;
use crate::repo::{Repo, RepoView};
use crate::split::{
    check_split, split, split_done, split_fault, split_room, warning_for, SplitError,
    SplitSummary, SplitWarning,
};
use crate::store::StoreError;
use crate::text::{hex_of, push_hex};
use crate::tree::{path_set, select_map, Tree, TreeMap};
use vstd::prelude::*;
use vstd::string::StringExecFns;

verus! {

/// The revision that a command works on.
pub enum RevisionArg {
    /// `@`: the working-copy commit of the workspace.
    WorkingCopy,
    /// A commit, by its id.
    Commit(CommitId),
    /// The commit that a bookmark points to.
    Bookmark(String),
}

/// Split a revision in two.
///
/// The changes chosen for the first part stay in a commit with the
/// revision's change id; what remains goes into a second commit. If the
/// revision had a description, one is asked for each part; if it had none,
/// only for the first, and the second part gets none.
pub struct SplitArgs {
    /// Choose interactively which parts to split off. This is also what
    /// happens when no paths are given.
    pub interactive: bool,
    /// The diff editor to use (implies `interactive`).
    pub tool: Option<String>,
    /// The revision to split.
    pub revision: RevisionArg,
    /// Split into two parallel revisions instead of a parent and a child.
    pub parallel: bool,
    /// Files at these paths are put in the first commit.
    pub paths: Vec<String>,
}

/// What the repository's settings say of a split.
pub struct Settings {
    /// The description offered for a commit that has none.
    pub default_description: String,
    /// Whether bookmarks on the split commit move to the second commit.
    pub legacy_bookmark_behavior: bool,
    /// The commits that, with their ancestors, may not be rewritten.
    pub immutable_heads: Vec<CommitId>,
}

/// Whether the selection is left to the diff selector.
pub open spec fn is_interactive(args: SplitArgs) -> bool {
    args.interactive || args.tool is Some || args.paths@.len() == 0
}

/// Where a split stands.
pub enum SplitState {
    Start,
    /// The diff selector was asked for the first part.
    Selecting { target: CommitId },
    /// The editor was asked for the first description.
    DescribingFirst { target: CommitId, selected: Tree },
    /// The editor was asked for the second description.
    DescribingSecond { target: CommitId, selected: Tree, first_description: String },
    Finished,
}

pub enum SplitStateView {
    Start,
    Selecting { target: CommitId },
    DescribingFirst { target: CommitId, selected: TreeMap },
    DescribingSecond { target: CommitId, selected: TreeMap, first_description: Seq<char> },
    Finished,
}

impl View for SplitState {
    type V = SplitStateView;

    open spec fn view(&self) -> SplitStateView {
        match *self {
            SplitState::Start => SplitStateView::Start,
            SplitState::Selecting { target } => SplitStateView::Selecting { target },
            SplitState::DescribingFirst { target, selected } => SplitStateView::DescribingFirst {
                target,
                selected: selected@,
            },
            SplitState::DescribingSecond {
                target,
                selected,
                first_description,
            } => SplitStateView::DescribingSecond {
                target,
                selected: selected@,
                first_description: first_description@,
            },
            SplitState::Finished => SplitStateView::Finished,
        }
    }
}

impl SplitState {
    /// The tree that the state holds, if it holds one, is a valid tree.
    pub open spec fn wf(&self) -> bool {
        match *self {
            SplitState::DescribingFirst { target, selected } => selected.wf(),
            SplitState::DescribingSecond { target, selected, first_description } => selected.wf(),
            _ => true,
        }
    }
}

/// What the outside reports to a split.
pub enum SplitEvent {
    /// Nothing yet: the command begins.
    Start,
    /// The diff selector's answer: the tree of the first part.
    Selected(Tree),
    /// The editor's answer.
    Described(String),
    /// The selector or the editor failed.
    Failed(String),
}

pub enum SplitEventView {
    Start,
    Selected(TreeMap),
    Described(Seq<char>),
    Failed(Seq<char>),
}

impl View for SplitEvent {
    type V = SplitEventView;

    open spec fn view(&self) -> SplitEventView {
        match *self {
            SplitEvent::Start => SplitEventView::Start,
            SplitEvent::Selected(t) => SplitEventView::Selected(t@),
            SplitEvent::Described(d) => SplitEventView::Described(d@),
            SplitEvent::Failed(e) => SplitEventView::Failed(e@),
        }
    }
}

impl SplitEvent {
    pub open spec fn wf(&self) -> bool {
        match *self {
            SplitEvent::Selected(t) => t.wf(),
            _ => true,
        }
    }
}

/// What a split asks the outside to do next.
pub enum SplitAction {
    /// Let the user choose, between the two trees, the tree of the first part.
    Select { base: TreeId, end: TreeId },
    /// Tell the user the warning, if there is one, and let the user edit
    /// the description of the first or of the second part.
    Describe { second: bool, description: String, warning: Option<SplitWarning> },
    /// Tell the user what was done.
    Done(SplitSummary),
    /// Tell the user why nothing was done.
    Fail(CommandError),
}

pub enum SplitActionView {
    Select { base: TreeId, end: TreeId },
    Describe { second: bool, description: Seq<char>, warning: Option<SplitWarning> },
    Done(SplitSummary),
    Fail(CommandErrorView),
}

impl View for SplitAction {
    type V = SplitActionView;

    open spec fn view(&self) -> SplitActionView {
        match *self {
            SplitAction::Select { base, end } => SplitActionView::Select { base, end },
            SplitAction::Describe { second, description, warning } => SplitActionView::Describe {
                second,
                description: description@,
                warning,
            },
            SplitAction::Done(s) => SplitActionView::Done(s),
            SplitAction::Fail(e) => SplitActionView::Fail(e@),
        }
    }
}

impl SplitWarning {
    pub open spec fn text(self) -> Seq<char> {
        match self {
            SplitWarning::AllSelected => "All changes have been selected, so the second commit will be empty"@,
            SplitWarning::NoneSelected => "No changes have been selected, so the first commit will be empty"@,
        }
    }

    /// What the user is told.
    pub fn message(self) -> (m: &'static str)
        ensures
            m@ == self.text(),
    {
        match self {
            SplitWarning::AllSelected => "All changes have been selected, so the second commit will be empty",
            SplitWarning::NoneSelected => "No changes have been selected, so the first commit will be empty",
        }
    }
}

/// The name of a commit in messages.
pub open spec fn hex(id: CommitId) -> Seq<char> {
    hex_of(id.0 as nat, 16)
}

pub open spec fn no_revision(name: Seq<char>) -> CommandErrorView {
    error_view(
        CommandErrorKind::User,
        "Revision \""@ + name + "\" doesn't exist"@,
        None,
        None,
    )
}

pub open spec fn no_working_copy(workspace: Seq<char>) -> CommandErrorView {
    error_view(
        CommandErrorKind::User,
        "Workspace \""@ + workspace + "\" doesn't have a working-copy commit"@,
        None,
        None,
    )
}

/// The commit that a revision names in the repository, or why it names none.
pub open spec fn resolved(r: RepoView, workspace: Seq<char>, revision: RevisionArg) -> Result<
    CommitId,
    CommandErrorView,
> {
    match revision {
        RevisionArg::WorkingCopy => match lookup(r.refs.working_copies, workspace) {
            Some(id) => Ok(id),
            None => Err(no_working_copy(workspace)),
        },
        RevisionArg::Commit(id) => if r.store.has_commit(id) {
            Ok(id)
        } else {
            Err(no_revision(hex(id)))
        },
        RevisionArg::Bookmark(name) => match lookup(r.refs.bookmarks, name@) {
            Some(id) => Ok(id),
            None => Err(no_revision(name@)),
        },
    }
}

/// What the user is told when a commit cannot be split. An empty commit and
/// an immutable one are the user's errors; a store without room is not.
pub open spec fn split_failure(e: SplitError, target: CommitId) -> CommandErrorView {
    match e {
        SplitError::NoSuchRevision => no_revision(hex(target)),
        SplitError::EmptyCommit => error_view(
            CommandErrorKind::User,
            "Refusing to split empty commit "@ + hex(target) + "."@,
            None,
            Some("Use `jj new` if you want to create another empty commit."@),
        ),
        SplitError::Immutable => error_view(
            CommandErrorKind::User,
            "Commit "@ + hex(target) + " is immutable"@,
            None,
            Some("Immutable commits are used to protect shared history."@),
        ),
        SplitError::Store(_) => error_view(
            CommandErrorKind::Internal,
            "Failed to write the split to the store"@,
            Some("the store has no room"@),
            None,
        ),
    }
}

/// A commit that cannot be split for what it is, empty, immutable or not a
/// live revision, is the user's error; only a store without room is not.
pub proof fn lemma_faults_are_user_errors(e: SplitError, target: CommitId)
    ensures
        (e is Store) == (split_failure(e, target).kind == CommandErrorKind::Internal),
        !(e is Store) == (split_failure(e, target).kind == CommandErrorKind::User),
{
}

pub open spec fn protocol_failure() -> CommandErrorView {
    error_view(
        CommandErrorKind::Internal,
        "Unexpected event"@,
        Some("the event does not answer the action"@),
        None,
    )
}

/// The description that the editor starts from for the first part.
pub open spec fn first_template(r: RepoView, settings: Settings, target: CommitId) -> Seq<char> {
    let d = r.store.commits[target.0 as int].description;
    if d.len() == 0 {
        settings.default_description@
    } else {
        d
    }
}

/// The request for the first description, with the warning that the
/// selection calls for.
pub open spec fn describe_first(
    r: RepoView,
    settings: Settings,
    target: CommitId,
    selected: TreeMap,
) -> SplitActionView {
    SplitActionView::Describe {
        second: false,
        description: first_template(r, settings, target),
        warning: warning_for(
            selected,
            r.store.trees[r.store.commits[target.0 as int].tree.0 as int],
            r.store.trees[r.store.parent_tree(target).0 as int],
        ),
    }
}

/// Whether this step is the one in which the split is made: the last
/// description has come in.
pub open spec fn applies(r: RepoView, state: SplitStateView, event: SplitEventView) -> bool {
    match (state, event) {
        (SplitStateView::DescribingFirst { target, selected }, SplitEventView::Described(_)) =>
            r.store.has_commit(target) && r.store.commits[target.0 as int].description.len() == 0,
        (
            SplitStateView::DescribingSecond { target, selected, first_description },
            SplitEventView::Described(_),
        ) => true,
        _ => false,
    }
}

/// A step that leaves the repository as it is: the next state and what is
/// asked of the outside.
pub open spec fn split_step(
    r: RepoView,
    workspace: Seq<char>,
    settings: Settings,
    args: SplitArgs,
    state: SplitStateView,
    event: SplitEventView,
) -> (SplitStateView, SplitActionView) {
    match (state, event) {
        (SplitStateView::Start, SplitEventView::Start) => match resolved(
            r,
            workspace,
            args.revision,
        ) {
            Err(e) => (SplitStateView::Finished, SplitActionView::Fail(e)),
            Ok(target) => match split_fault(r, settings.immutable_heads@, target) {
                Some(f) => (
                    SplitStateView::Finished,
                    SplitActionView::Fail(split_failure(f, target)),
                ),
                None => {
                    let end = r.store.commits[target.0 as int].tree;
                    let base = r.store.parent_tree(target);
                    if is_interactive(args) {
                        (
                            SplitStateView::Selecting { target },
                            SplitActionView::Select { base, end },
                        )
                    } else {
                        let selected = select_map(
                            r.store.trees[base.0 as int],
                            r.store.trees[end.0 as int],
                            path_set(args.paths@),
                        );
                        (
                            SplitStateView::DescribingFirst { target, selected },
                            describe_first(r, settings, target, selected),
                        )
                    }
                },
            },
        },
        (SplitStateView::Selecting { target }, SplitEventView::Selected(selected)) => if r.store.has_commit(
            target,
        ) {
            (
                SplitStateView::DescribingFirst { target, selected },
                describe_first(r, settings, target, selected),
            )
        } else {
            (SplitStateView::Finished, SplitActionView::Fail(protocol_failure()))
        },
        (SplitStateView::DescribingFirst { target, selected }, SplitEventView::Described(text)) => if r.store.has_commit(
            target,
        ) {
            (
                SplitStateView::DescribingSecond { target, selected, first_description: text },
                SplitActionView::Describe {
                    second: true,
                    description: r.store.commits[target.0 as int].description,
                    warning: None,
                },
            )
        } else {
            (SplitStateView::Finished, SplitActionView::Fail(protocol_failure()))
        },
        (SplitStateView::Selecting { target }, SplitEventView::Failed(cause)) => (
            SplitStateView::Finished,
            SplitActionView::Fail(
                error_view(
                    CommandErrorKind::User,
                    "Failed to select changes"@,
                    Some(cause),
                    None,
                ),
            ),
        ),
        (SplitStateView::DescribingFirst { target, selected }, SplitEventView::Failed(cause)) => (
            SplitStateView::Finished,
            SplitActionView::Fail(
                error_view(
                    CommandErrorKind::User,
                    "Failed to edit description"@,
                    Some(cause),
                    None,
                ),
            ),
        ),
        (
            SplitStateView::DescribingSecond { target, selected, first_description },
            SplitEventView::Failed(cause),
        ) => (
            SplitStateView::Finished,
            SplitActionView::Fail(
                error_view(
                    CommandErrorKind::User,
                    "Failed to edit description"@,
                    Some(cause),
                    None,
                ),
            ),
        ),
        _ => (SplitStateView::Finished, SplitActionView::Fail(protocol_failure())),
    }
}

/// The commit, the first part's tree and the two descriptions of the step
/// in which the split is made.
pub open spec fn split_inputs(state: SplitStateView, event: SplitEventView) -> (
    CommitId,
    TreeMap,
    Seq<char>,
    Seq<char>,
) {
    match (state, event) {
        (SplitStateView::DescribingFirst { target, selected }, SplitEventView::Described(text)) => (
            target,
            selected,
            text,
            Seq::empty(),
        ),
        (
            SplitStateView::DescribingSecond { target, selected, first_description },
            SplitEventView::Described(text),
        ) => (target, selected, first_description, text),
        _ => (CommitId(0), TreeMap::empty(), Seq::empty(), Seq::empty()),
    }
}

fn quoted(before: &str, name: &str, after: &str) -> (s: String)
    ensures
        s@ == before@ + name@ + after@,
{
    let mut s = String::from_str(before);
    s.append(name);
    s.append(after);
    s
}

fn commit_hex(id: CommitId) -> (s: String)
    ensures
        s@ == hex(id),
{
    let mut s = String::new();
    push_hex(&mut s, id.0, 16);
    assert(s@ =~= hex(id));
    s
}

fn missing_revision(name: &str) -> (e: CommandError)
    ensures
        e@ == no_revision(name@),
{
    CommandError {
        kind: CommandErrorKind::User,
        message: quoted("Revision \"", name, "\" doesn't exist"),
        source: None,
        hint: None,
    }
}

fn unexpected() -> (e: CommandError)
    ensures
        e@ == protocol_failure(),
{
    internal_error_with_message(
        "Unexpected event",
        String::from_str("the event does not answer the action"),
    )
}

/// The commit that a revision names in the repository.
pub fn resolve_single_rev(repo: &Repo, workspace: &String, revision: &RevisionArg) -> (r: Result<
    CommitId,
    CommandError,
>)
    requires
        repo.wf(),
    ensures
        match resolved(repo@, workspace@, *revision) {
            Ok(id) => r == Ok::<CommitId, CommandError>(id),
            Err(e) => r matches Err(x) && x@ == e,
        },
{
    match revision {
        RevisionArg::WorkingCopy => match repo.refs().working_copy(workspace) {
            Some(id) => Ok(id),
            None => Err(
                CommandError {
                    kind: CommandErrorKind::User,
                    message: quoted(
                        "Workspace \"",
                        workspace.as_str(),
                        "\" doesn't have a working-copy commit",
                    ),
                    source: None,
                    hint: None,
                },
            ),
        },
        RevisionArg::Commit(id) => if repo.store().has_commit(*id) {
            Ok(*id)
        } else {
            let name = commit_hex(*id);
            Err(missing_revision(name.as_str()))
        },
        RevisionArg::Bookmark(name) => match repo.refs().bookmark(name) {
            Some(id) => Ok(id),
            None => Err(missing_revision(name.as_str())),
        },
    }
}

/// What the user is told when a commit cannot be split.
pub fn split_error(e: SplitError, target: CommitId) -> (r: CommandError)
    ensures
        r@ == split_failure(e, target),
{
    let name = commit_hex(target);
    match e {
        SplitError::NoSuchRevision => missing_revision(name.as_str()),
        SplitError::EmptyCommit => user_error_with_hint(
            quoted("Refusing to split empty commit ", name.as_str(), "."),
            "Use `jj new` if you want to create another empty commit.",
        ),
        SplitError::Immutable => user_error_with_hint(
            quoted("Commit ", name.as_str(), " is immutable"),
            "Immutable commits are used to protect shared history.",
        ),
        SplitError::Store(_) => internal_error_with_message(
            "Failed to write the split to the store",
            String::from_str("the store has no room"),
        ),
    }
}

fn ask_first(repo: &Repo, settings: &Settings, target: CommitId, selected: &Tree) -> (a:
    SplitAction)
    requires
        repo.wf(),
        repo@.store.has_commit(target),
        selected.wf(),
    ensures
        a@ == describe_first(repo@, *settings, target, selected@),
{
    let store = repo.store();
    let commit = store.commit(target);
    assert(store@.commit_ok(target.0 as int));
    let description = if commit.description.as_str().is_empty() {
        settings.default_description.clone()
    } else {
        commit.description.clone()
    };
    let base = store.parent_tree(target);
    let warning = if selected.same_content(store.tree(commit.tree)) {
        Some(SplitWarning::AllSelected)
    } else if selected.same_content(store.tree(base)) {
        Some(SplitWarning::NoneSelected)
    } else {
        None
    };
    SplitAction::Describe { second: false, description, warning }
}

fn finish_split(
    repo: Repo,
    settings: &Settings,
    parallel: bool,
    target: CommitId,
    selected: Tree,
    first_description: String,
    second_description: String,
) -> (r: (Repo, SplitState, SplitAction))
    requires
        repo.wf(),
        selected.wf(),
    ensures
        r.0.wf(),
        r.1 is Finished,
        r.2 matches SplitAction::Done(summary) ==> split_fault(
            repo@,
            settings.immutable_heads@,
            target,
        ) is None && summary.rewritten.wf() && split_done(
            repo@,
            r.0@,
            settings.legacy_bookmark_behavior,
            target,
            selected@,
            first_description@,
            second_description@,
            parallel,
            summary,
        ),
        r.2 matches SplitAction::Fail(e) ==> r.0@ == repo@ && (match split_fault(
            repo@,
            settings.immutable_heads@,
            target,
        ) {
            Some(f) => e@ == split_failure(f, target),
            None => e@ == split_failure(SplitError::Store(StoreError::Full), target)
                && !split_room(repo@, target),
        }),
        r.2 is Done || r.2 is Fail,
        split_fault(repo@, settings.immutable_heads@, target) is None && split_room(repo@, target)
            ==> r.2 is Done,
{
    let (repo, outcome) = split(
        repo,
        &settings.immutable_heads,
        settings.legacy_bookmark_behavior,
        target,
        selected,
        first_description,
        second_description,
        parallel,
    );
    match outcome {
        Ok(summary) => (repo, SplitState::Finished, SplitAction::Done(summary)),
        Err(e) => (repo, SplitState::Finished, SplitAction::Fail(split_error(e, target))),
    }
}

/// One step of the split command.
///
/// The command resolves the revision and refuses an empty or immutable
/// commit before anything else happens. It then has the first part
/// selected, by the diff selector or by the paths given, and the
/// descriptions entered; only the step that takes the last description
/// changes the repository, and it makes the whole split or none of it.
pub fn cmd_split(
    repo: Repo,
    workspace: &String,
    settings: &Settings,
    args: &SplitArgs,
    state: SplitState,
    event: SplitEvent,
) -> (r: (Repo, SplitState, SplitAction))
    requires
        repo.wf(),
        state.wf(),
        event.wf(),
    ensures
        r.0.wf(),
        r.1.wf(),
        !applies(repo@, state@, event@) ==> r.0@ == repo@ && r.1@ == split_step(
            repo@,
            workspace@,
            *settings,
            *args,
            state@,
            event@,
        ).0 && r.2@ == split_step(repo@, workspace@, *settings, *args, state@, event@).1,
        applies(repo@, state@, event@) ==> {
            let (target, selected, first, second) = split_inputs(state@, event@);
            let fault = split_fault(repo@, settings.immutable_heads@, target);
            &&& r.1 is Finished
            &&& r.2 is Done || r.2 is Fail
            &&& r.2 matches SplitAction::Done(summary) ==> fault is None
                && summary.rewritten.wf() && split_done(
                repo@,
                r.0@,
                settings.legacy_bookmark_behavior,
                target,
                selected,
                first,
                second,
                args.parallel,
                summary,
            )
            &&& r.2 matches SplitAction::Fail(e) ==> r.0@ == repo@ && (match fault {
                Some(f) => e@ == split_failure(f, target),
                None => e@ == split_failure(SplitError::Store(StoreError::Full), target)
                    && !split_room(repo@, target),
            })
            &&& fault is None && split_room(repo@, target) ==> r.2 is Done
        },
{
    match (state, event) {
        (SplitState::Start, SplitEvent::Start) => {
            let target = match resolve_single_rev(&repo, workspace, &args.revision) {
                Ok(t) => t,
                Err(e) => {
                    return (repo, SplitState::Finished, SplitAction::Fail(e));
                },
            };
            match check_split(&repo, &settings.immutable_heads, target) {
                Some(f) => {
                    return (
                        repo,
                        SplitState::Finished,
                        SplitAction::Fail(split_error(f, target)),
                    );
                },
                None => {},
            }
            let store = repo.store();
            assert(store@.commit_ok(target.0 as int));
            let end = store.commit(target).tree;
            let base = store.parent_tree(target);
            if args.interactive || args.tool.is_some() || args.paths.len() == 0 {
                (repo, SplitState::Selecting { target }, SplitAction::Select { base, end })
            } else {
                let selected = Tree::select_paths(store.tree(base), store.tree(end), &args.paths);
                let action = ask_first(&repo, settings, target, &selected);
                (repo, SplitState::DescribingFirst { target, selected }, action)
            }
        },
        (SplitState::Selecting { target }, SplitEvent::Selected(selected)) => {
            if !repo.store().has_commit(target) {
                return (repo, SplitState::Finished, SplitAction::Fail(unexpected()));
            }
            let action = ask_first(&repo, settings, target, &selected);
            (repo, SplitState::DescribingFirst { target, selected }, action)
        },
        (SplitState::DescribingFirst { target, selected }, SplitEvent::Described(text)) => {
            if !repo.store().has_commit(target) {
                return (repo, SplitState::Finished, SplitAction::Fail(unexpected()));
            }
            let description = repo.store().commit(target).description.clone();
            if description.as_str().is_empty() {
                finish_split(repo, settings, args.parallel, target, selected, text, String::new())
            } else {
                (
                    repo,
                    SplitState::DescribingSecond { target, selected, first_description: text },
                    SplitAction::Describe { second: true, description, warning: None },
                )
            }
        },
        (
            SplitState::DescribingSecond { target, selected, first_description },
            SplitEvent::Described(text),
        ) => finish_split(
            repo,
            settings,
            args.parallel,
            target,
            selected,
            first_description,
            text,
        ),
        (SplitState::Selecting { target }, SplitEvent::Failed(cause)) => (
            repo,
            SplitState::Finished,
            SplitAction::Fail(user_error_with_message("Failed to select changes", cause)),
        ),
        (SplitState::DescribingFirst { target, selected }, SplitEvent::Failed(cause)) => (
            repo,
            SplitState::Finished,
            SplitAction::Fail(user_error_with_message("Failed to edit description", cause)),
        ),
        (
            SplitState::DescribingSecond { target, selected, first_description },
            SplitEvent::Failed(cause),
        ) => (
            repo,
            SplitState::Finished,
            SplitAction::Fail(user_error_with_message("Failed to edit description", cause)),
        ),
        _ => (repo, SplitState::Finished, SplitAction::Fail(unexpected())),
    }
}

} // verus!
