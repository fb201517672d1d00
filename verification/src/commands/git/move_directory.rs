use crate::commands::git::colocate::{Event, EventView};
use vstd::prelude::*;
use vstd::string::StringExecFns;

verus! {

/// Where the move of a directory tree stands.
#[derive(Clone, Copy, Debug, PartialEq, Eq, Structural)]
pub enum MoveState {
    Start,
    /// Asked for the tree to be renamed.
    Renaming,
    /// The rename failed; asked for the tree to be copied.
    Copying,
    /// The copy is made; asked for the source to be removed.
    Removing,
    Finished,
}

/// What the move asks the outside to do next.
pub enum MoveAction {
    /// Rename the source to the destination.
    Rename,
    /// Copy the source tree into the destination.
    CopyTree,
    /// Remove the source tree.
    RemoveSource,
    /// End the move, with what the system reported if it failed.
    Finish(Result<(), String>),
}

pub enum MoveActionView {
    Rename,
    CopyTree,
    RemoveSource,
    Finish(Result<(), Seq<char>>),
}

impl View for MoveAction {
    type V = MoveActionView;

    open spec fn view(&self) -> MoveActionView {
        match *self {
            MoveAction::Rename => MoveActionView::Rename,
            MoveAction::CopyTree => MoveActionView::CopyTree,
            MoveAction::RemoveSource => MoveActionView::RemoveSource,
            MoveAction::Finish(r) => MoveActionView::Finish(
                match r {
                    Ok(_) => Ok(()),
                    Err(e) => Err(e@),
                },
            ),
        }
    }
}

/// One step of the move: a rename first; if that fails, whatever the
/// reason, a copy of the tree and then the removal of the source.
pub open spec fn move_step(state: MoveState, event: EventView) -> (MoveState, MoveActionView) {
    match (state, event) {
        (MoveState::Start, EventView::Start) => (MoveState::Renaming, MoveActionView::Rename),
        (MoveState::Renaming, EventView::Done) => (
            MoveState::Finished,
            MoveActionView::Finish(Ok(())),
        ),
        (MoveState::Renaming, EventView::Failed(_)) => (
            MoveState::Copying,
            MoveActionView::CopyTree,
        ),
        (MoveState::Copying, EventView::Done) => (MoveState::Removing, MoveActionView::RemoveSource),
        (MoveState::Copying, EventView::Failed(cause)) => (
            MoveState::Finished,
            MoveActionView::Finish(Err(cause)),
        ),
        (MoveState::Removing, EventView::Done) => (
            MoveState::Finished,
            MoveActionView::Finish(Ok(())),
        ),
        (MoveState::Removing, EventView::Failed(cause)) => (
            MoveState::Finished,
            MoveActionView::Finish(Err(cause)),
        ),
        _ => (MoveState::Finished, MoveActionView::Finish(Err("unexpected event"@))),
    }
}

pub fn move_directory(state: MoveState, event: Event) -> (r: (MoveState, MoveAction))
    ensures
        r.0 == move_step(state, event@).0,
        r.1@ == move_step(state, event@).1,
{
    match (state, event) {
        (MoveState::Start, Event::Start) => (MoveState::Renaming, MoveAction::Rename),
        (MoveState::Renaming, Event::Done) => (MoveState::Finished, MoveAction::Finish(Ok(()))),
        (MoveState::Renaming, Event::Failed(_)) => (MoveState::Copying, MoveAction::CopyTree),
        (MoveState::Copying, Event::Done) => (MoveState::Removing, MoveAction::RemoveSource),
        (MoveState::Copying, Event::Failed(cause)) => (
            MoveState::Finished,
            MoveAction::Finish(Err(cause)),
        ),
        (MoveState::Removing, Event::Done) => (MoveState::Finished, MoveAction::Finish(Ok(()))),
        (MoveState::Removing, Event::Failed(cause)) => (
            MoveState::Finished,
            MoveAction::Finish(Err(cause)),
        ),
        _ => (
            MoveState::Finished,
            MoveAction::Finish(Err(String::from_str("unexpected event"))),
        ),
    }
}

/// One entry of a directory.
pub struct DirEntry {
    pub name: String,
    pub is_dir: bool,
}

/// What the outside reports to the copy of a tree.
pub enum CopyEvent {
    /// Nothing yet: the copy begins.
    Start,
    /// The answer to a question.
    Answer(bool),
    /// The action was carried out.
    Done,
    /// The action failed, with what the system reported.
    Failed(String),
    /// The entries of the directory that was read.
    Entries(Vec<DirEntry>),
}

pub enum CopyEventView {
    Start,
    Answer(bool),
    Done,
    Failed(Seq<char>),
    Entries(Seq<(Seq<char>, bool)>),
}

pub open spec fn entries_view(entries: Seq<DirEntry>) -> Seq<(Seq<char>, bool)> {
    Seq::new(entries.len(), |i: int| (entries[i].name@, entries[i].is_dir))
}

impl View for CopyEvent {
    type V = CopyEventView;

    open spec fn view(&self) -> CopyEventView {
        match *self {
            CopyEvent::Start => CopyEventView::Start,
            CopyEvent::Answer(b) => CopyEventView::Answer(b),
            CopyEvent::Done => CopyEventView::Done,
            CopyEvent::Failed(e) => CopyEventView::Failed(e@),
            CopyEvent::Entries(list) => CopyEventView::Entries(entries_view(list@)),
        }
    }
}

/// What the copy asks the outside to do next. Each path is relative to the
/// root of the tree, the same in the source and in the destination; the
/// root itself is the empty path.
pub enum CopyAction {
    /// Say whether the destination has anything at the path.
    DestExists(String),
    /// Make the directory, and those above it, in the destination.
    CreateDest(String),
    /// List the directory of the source.
    ReadSource(String),
    /// Copy the file from the source to the destination.
    CopyFile(String),
    /// End the copy, with what the system reported if it failed.
    Finish(Result<(), String>),
}

pub enum CopyActionView {
    DestExists(Seq<char>),
    CreateDest(Seq<char>),
    ReadSource(Seq<char>),
    CopyFile(Seq<char>),
    Finish(Result<(), Seq<char>>),
}

impl View for CopyAction {
    type V = CopyActionView;

    open spec fn view(&self) -> CopyActionView {
        match *self {
            CopyAction::DestExists(p) => CopyActionView::DestExists(p@),
            CopyAction::CreateDest(p) => CopyActionView::CreateDest(p@),
            CopyAction::ReadSource(p) => CopyActionView::ReadSource(p@),
            CopyAction::CopyFile(p) => CopyActionView::CopyFile(p@),
            CopyAction::Finish(r) => CopyActionView::Finish(
                match r {
                    Ok(_) => Ok(()),
                    Err(e) => Err(e@),
                },
            ),
        }
    }
}

/// A directory whose entries are being copied: those before `next` are done.
pub struct Frame {
    pub dir: String,
    pub entries: Vec<DirEntry>,
    pub next: usize,
}

pub struct FrameView {
    pub dir: Seq<char>,
    pub entries: Seq<(Seq<char>, bool)>,
    pub next: nat,
}

impl View for Frame {
    type V = FrameView;

    open spec fn view(&self) -> FrameView {
        FrameView { dir: self.dir@, entries: entries_view(self.entries@), next: self.next as nat }
    }
}

pub open spec fn frames_view(frames: Seq<Frame>) -> Seq<FrameView> {
    Seq::new(frames.len(), |i: int| frames[i]@)
}

/// What the copy waits for.
#[derive(Clone, Copy, Debug, PartialEq, Eq, Structural)]
pub enum CopyPhase {
    Start,
    /// Asked whether the destination directory is there.
    AskedDest,
    /// Asked for the destination directory to be made.
    CreatedDest,
    /// Asked for the entries of the source directory.
    Listed,
    /// Asked for a file to be copied.
    Copied,
    Finished,
}

/// Where the copy of a tree stands: what it waits for, the directory it is
/// entering, and the directories it is in the middle of, innermost last.
pub struct CopyState {
    pub phase: CopyPhase,
    pub current: String,
    pub stack: Vec<Frame>,
}

pub struct CopyStateView {
    pub phase: CopyPhase,
    pub current: Seq<char>,
    pub stack: Seq<FrameView>,
}

impl View for CopyState {
    type V = CopyStateView;

    open spec fn view(&self) -> CopyStateView {
        CopyStateView { phase: self.phase, current: self.current@, stack: frames_view(self.stack@) }
    }
}

/// The path of an entry of a directory.
pub open spec fn joined(dir: Seq<char>, name: Seq<char>) -> Seq<char> {
    if dir.len() == 0 {
        name
    } else {
        dir + "/"@ + name
    }
}

/// The directories that still have an entry to copy: those that are done
/// are dropped from the inner end.
pub open spec fn settled(stack: Seq<FrameView>) -> Seq<FrameView>
    decreases stack.len(),
{
    if stack.len() > 0 && stack.last().next >= stack.last().entries.len() {
        settled(stack.drop_last())
    } else {
        stack
    }
}

pub open spec fn copy_finished() -> CopyStateView {
    CopyStateView { phase: CopyPhase::Finished, current: Seq::empty(), stack: Seq::empty() }
}

/// The next entry in depth-first order: a directory is entered, a file is
/// copied, and with nothing left the copy ends well.
pub open spec fn advanced(stack: Seq<FrameView>) -> (CopyStateView, CopyActionView) {
    let s = settled(stack);
    if s.len() == 0 {
        (copy_finished(), CopyActionView::Finish(Ok(())))
    } else {
        let top = s.last();
        let entry = top.entries[top.next as int];
        let child = joined(top.dir, entry.0);
        let rest = s.drop_last().push(
            FrameView { dir: top.dir, entries: top.entries, next: top.next + 1 },
        );
        if entry.1 {
            (
                CopyStateView { phase: CopyPhase::AskedDest, current: child, stack: rest },
                CopyActionView::DestExists(child),
            )
        } else {
            (
                CopyStateView { phase: CopyPhase::Copied, current: child, stack: rest },
                CopyActionView::CopyFile(child),
            )
        }
    }
}

/// One step of the copy of a directory tree. A directory is made in the
/// destination unless it is there, then its entries are copied in the
/// order in which they were listed, each directory among them in full
/// before the entry after it. The first failure ends the copy.
pub open spec fn copy_step(state: CopyStateView, event: CopyEventView) -> (
    CopyStateView,
    CopyActionView,
) {
    match (state.phase, event) {
        (CopyPhase::Start, CopyEventView::Start) => (
            CopyStateView {
                phase: CopyPhase::AskedDest,
                current: Seq::empty(),
                stack: Seq::empty(),
            },
            CopyActionView::DestExists(Seq::empty()),
        ),
        (CopyPhase::AskedDest, CopyEventView::Answer(true)) => (
            CopyStateView { phase: CopyPhase::Listed, current: state.current, stack: state.stack },
            CopyActionView::ReadSource(state.current),
        ),
        (CopyPhase::AskedDest, CopyEventView::Answer(false)) => (
            CopyStateView {
                phase: CopyPhase::CreatedDest,
                current: state.current,
                stack: state.stack,
            },
            CopyActionView::CreateDest(state.current),
        ),
        (CopyPhase::CreatedDest, CopyEventView::Done) => (
            CopyStateView { phase: CopyPhase::Listed, current: state.current, stack: state.stack },
            CopyActionView::ReadSource(state.current),
        ),
        (CopyPhase::Listed, CopyEventView::Entries(list)) => advanced(
            state.stack.push(FrameView { dir: state.current, entries: list, next: 0 }),
        ),
        (CopyPhase::Copied, CopyEventView::Done) => advanced(state.stack),
        (CopyPhase::CreatedDest, CopyEventView::Failed(cause)) => (
            copy_finished(),
            CopyActionView::Finish(Err(cause)),
        ),
        (CopyPhase::Listed, CopyEventView::Failed(cause)) => (
            copy_finished(),
            CopyActionView::Finish(Err(cause)),
        ),
        (CopyPhase::Copied, CopyEventView::Failed(cause)) => (
            copy_finished(),
            CopyActionView::Finish(Err(cause)),
        ),
        _ => (copy_finished(), CopyActionView::Finish(Err("unexpected event"@))),
    }
}

fn join(dir: &String, name: &String) -> (p: String)
    ensures
        p@ == joined(dir@, name@),
{
    if dir.as_str().is_empty() {
        name.clone()
    } else {
        let mut p = dir.clone();
        p.append("/");
        p.append(name.as_str());
        p
    }
}

fn finished() -> (s: CopyState)
    ensures
        s@ == copy_finished(),
{
    let s = CopyState { phase: CopyPhase::Finished, current: String::new(), stack: Vec::new() };
    assert(s@.stack =~= Seq::<FrameView>::empty());
    s
}

fn advance(frames: Vec<Frame>) -> (r: (CopyState, CopyAction))
    ensures
        r.0@ == advanced(frames_view(frames@)).0,
        r.1@ == advanced(frames_view(frames@)).1,
{
    let ghost start = frames_view(frames@);
    let mut stack = frames;
    loop
        invariant
            start == frames_view(frames@),
            settled(frames_view(stack@)) == settled(start),
        decreases stack.len(),
    {
        let ghost before = frames_view(stack@);
        let frame = match stack.pop() {
            Some(f) => f,
            None => {
                proof {
                    assert(before =~= Seq::<FrameView>::empty());
                    assert(settled(before) == before);
                }
                return (finished(), CopyAction::Finish(Ok(())));
            },
        };
        proof {
            assert(frames_view(stack@) =~= before.drop_last());
            assert(before.last() == frame@);
        }
        if frame.next < frame.entries.len() {
            let entry = &frame.entries[frame.next];
            let is_dir = entry.is_dir;
            let child = join(&frame.dir, &entry.name);
            let next = frame.next + 1;
            proof {
                assert(settled(before) == before);
                assert(before.last().entries[frame.next as int] == (entry.name@, is_dir));
            }
            stack.push(Frame { dir: frame.dir, entries: frame.entries, next });
            proof {
                assert(frames_view(stack@) =~= before.drop_last().push(
                    FrameView {
                        dir: before.last().dir,
                        entries: before.last().entries,
                        next: before.last().next + 1,
                    },
                ));
            }
            let path = child.clone();
            if is_dir {
                return (
                    CopyState { phase: CopyPhase::AskedDest, current: child, stack },
                    CopyAction::DestExists(path),
                );
            } else {
                return (
                    CopyState { phase: CopyPhase::Copied, current: child, stack },
                    CopyAction::CopyFile(path),
                );
            }
        }
    }
}

pub fn copy_dir_recursive(state: CopyState, event: CopyEvent) -> (r: (CopyState, CopyAction))
    ensures
        r.0@ == copy_step(state@, event@).0,
        r.1@ == copy_step(state@, event@).1,
{
    match (state.phase, event) {
        (CopyPhase::Start, CopyEvent::Start) => {
            let s = CopyState {
                phase: CopyPhase::AskedDest,
                current: String::new(),
                stack: Vec::new(),
            };
            assert(s@.stack =~= Seq::<FrameView>::empty());
            (s, CopyAction::DestExists(String::new()))
        },
        (CopyPhase::AskedDest, CopyEvent::Answer(there)) => {
            let path = state.current.clone();
            if there {
                (
                    CopyState { phase: CopyPhase::Listed, current: state.current, stack: state.stack },
                    CopyAction::ReadSource(path),
                )
            } else {
                (
                    CopyState {
                        phase: CopyPhase::CreatedDest,
                        current: state.current,
                        stack: state.stack,
                    },
                    CopyAction::CreateDest(path),
                )
            }
        },
        (CopyPhase::CreatedDest, CopyEvent::Done) => {
            let path = state.current.clone();
            (
                CopyState { phase: CopyPhase::Listed, current: state.current, stack: state.stack },
                CopyAction::ReadSource(path),
            )
        },
        (CopyPhase::Listed, CopyEvent::Entries(list)) => {
            let mut stack = state.stack;
            let ghost before = frames_view(stack@);
            let ghost entries = entries_view(list@);
            stack.push(Frame { dir: state.current, entries: list, next: 0 });
            assert(frames_view(stack@) =~= before.push(
                FrameView { dir: state.current@, entries, next: 0 },
            ));
            advance(stack)
        },
        (CopyPhase::Copied, CopyEvent::Done) => advance(state.stack),
        (CopyPhase::CreatedDest, CopyEvent::Failed(cause)) => (
            finished(),
            CopyAction::Finish(Err(cause)),
        ),
        (CopyPhase::Listed, CopyEvent::Failed(cause)) => (
            finished(),
            CopyAction::Finish(Err(cause)),
        ),
        (CopyPhase::Copied, CopyEvent::Failed(cause)) => (finished(), CopyAction::Finish(Err(cause))),
        _ => (finished(), CopyAction::Finish(Err(String::from_str("unexpected event")))),
    }
}

} // verus!
