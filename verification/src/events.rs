//! Domain events: what the workspace tells its listeners after a change, and
//! what a watcher tells them of changes on disk. Delivering the events is the
//! caller's business; which event follows which change is decided here.

use crate::error::FsError;
use crate::globs::strings_view;
use crate::search::show_path;
use crate::text::forward_slashes;
use crate::vfs::FileSystem;
use vstd::prelude::*;

verus! {

/// An event on the application's bus.
#[derive(Clone, Debug)]
pub enum ZymaEvent {
    WorkspaceChanged(String),
    FileSaved(String),
    FileCreated(String),
    FileDeleted(String),
    WindowFocused(bool),
}

/// The mathematical value of a [`ZymaEvent`].
pub enum ZymaEventView {
    WorkspaceChanged(Seq<char>),
    FileSaved(Seq<char>),
    FileCreated(Seq<char>),
    FileDeleted(Seq<char>),
    WindowFocused(bool),
}

impl View for ZymaEvent {
    type V = ZymaEventView;

    open spec fn view(&self) -> ZymaEventView {
        match self {
            ZymaEvent::WorkspaceChanged(p) => ZymaEventView::WorkspaceChanged(p@),
            ZymaEvent::FileSaved(p) => ZymaEventView::FileSaved(p@),
            ZymaEvent::FileCreated(p) => ZymaEventView::FileCreated(p@),
            ZymaEvent::FileDeleted(p) => ZymaEventView::FileDeleted(p@),
            ZymaEvent::WindowFocused(b) => ZymaEventView::WindowFocused(*b),
        }
    }
}

/// A change that a caller asks the workspace to make.
#[derive(Clone, Copy, Debug, PartialEq, Eq, Structural)]
pub enum Change {
    SetRoot,
    Write,
    CreateFile,
    CreateDir,
    Remove,
    Rename,
}

/// The view of an optional event.
pub open spec fn optional_event(e: Option<ZymaEvent>) -> Option<ZymaEventView> {
    match e {
        None => None,
        Some(ev) => Some(ev@),
    }
}

/// The event that follows a change: none when the change failed, and none for
/// a rename; else the event that names what happened to the path.
pub open spec fn event_for(change: Change, path: Seq<char>, succeeded: bool) -> Option<
    ZymaEventView,
> {
    if !succeeded {
        None
    } else {
        match change {
            Change::SetRoot => Some(ZymaEventView::WorkspaceChanged(path)),
            Change::Write => Some(ZymaEventView::FileSaved(path)),
            Change::CreateFile => Some(ZymaEventView::FileCreated(path)),
            Change::CreateDir => Some(ZymaEventView::FileCreated(path)),
            Change::Remove => Some(ZymaEventView::FileDeleted(path)),
            Change::Rename => None,
        }
    }
}

/// Decides which event, if any, is published after a change was attempted.
pub fn event_after(change: Change, path: &str, succeeded: bool) -> (r: Option<ZymaEvent>)
    ensures
        optional_event(r) == event_for(change, path@, succeeded),
{
    if !succeeded {
        return None;
    }
    match change {
        Change::SetRoot => Some(ZymaEvent::WorkspaceChanged(path.to_owned())),
        Change::Write => Some(ZymaEvent::FileSaved(path.to_owned())),
        Change::CreateFile => Some(ZymaEvent::FileCreated(path.to_owned())),
        Change::CreateDir => Some(ZymaEvent::FileCreated(path.to_owned())),
        Change::Remove => Some(ZymaEvent::FileDeleted(path.to_owned())),
        Change::Rename => None,
    }
}

/// The front of a workspace: owns the file system in use, hands every change
/// on to it with the arguments as they were given, hands its answer back, and
/// says which event is to be published. A change that failed publishes
/// nothing; an event that cannot be delivered never undoes a change. Reading
/// goes to `fs` directly: it publishes nothing.
pub struct WorkspaceService<F: FileSystem> {
    pub fs: F,
}

impl<F: FileSystem> WorkspaceService<F> {
    /// A workspace over the given file system.
    pub fn new(fs: F) -> (r: Self)
        ensures
            r.fs == fs,
    {
        WorkspaceService { fs }
    }

    /// Replaces the root of the workspace.
    pub fn set_cwd(&mut self, path: &str) -> (r: (Result<(), FsError>, Option<ZymaEvent>))
        ensures
            old(self).fs.sets_root(path@, &final(self).fs, r.0),
            optional_event(r.1) == event_for(Change::SetRoot, path@, r.0 is Ok),
    {
        let done = self.fs.set_cwd(path);
        let event = event_after(Change::SetRoot, path, done.is_ok());
        (done, event)
    }

    /// Writes a file.
    pub fn write_file(&mut self, path: &str, content: &str) -> (r: (
        Result<(), FsError>,
        Option<ZymaEvent>,
    ))
        ensures
            old(self).fs.writes(path@, content@, &final(self).fs, r.0),
            optional_event(r.1) == event_for(Change::Write, path@, r.0 is Ok),
    {
        let done = self.fs.write_file(path, content);
        let event = event_after(Change::Write, path, done.is_ok());
        (done, event)
    }

    /// Creates an empty file.
    pub fn create_file(&mut self, path: &str) -> (r: (Result<(), FsError>, Option<ZymaEvent>))
        ensures
            old(self).fs.creates_file(path@, &final(self).fs, r.0),
            optional_event(r.1) == event_for(Change::CreateFile, path@, r.0 is Ok),
    {
        let done = self.fs.create_file(path);
        let event = event_after(Change::CreateFile, path, done.is_ok());
        (done, event)
    }

    /// Creates a directory.
    pub fn create_dir(&mut self, path: &str) -> (r: (Result<(), FsError>, Option<ZymaEvent>))
        ensures
            old(self).fs.creates_dir(path@, &final(self).fs, r.0),
            optional_event(r.1) == event_for(Change::CreateDir, path@, r.0 is Ok),
    {
        let done = self.fs.create_dir(path);
        let event = event_after(Change::CreateDir, path, done.is_ok());
        (done, event)
    }

    /// Removes a file or a directory.
    pub fn remove_item(&mut self, path: &str) -> (r: (Result<(), FsError>, Option<ZymaEvent>))
        ensures
            old(self).fs.removes(path@, &final(self).fs, r.0),
            optional_event(r.1) == event_for(Change::Remove, path@, r.0 is Ok),
    {
        let done = self.fs.remove_item(path);
        let event = event_after(Change::Remove, path, done.is_ok());
        (done, event)
    }

    /// Moves a file or a directory: the file system is asked once, with the
    /// two paths as they were given, and what it answers is handed back.
    /// Publishes nothing, whether the move succeeded or not.
    pub fn rename_item(&mut self, from: &str, to: &str) -> (r: (
        Result<(), FsError>,
        Option<ZymaEvent>,
    ))
        ensures
            old(self).fs.renames(from@, to@, &final(self).fs, r.0),
            optional_event(r.1) == event_for(Change::Rename, from@, r.0 is Ok),
            r.1 is None,
    {
        let done = self.fs.rename_item(from, to);
        let event = event_after(Change::Rename, from, done.is_ok());
        (done, event)
    }
}

/// What happened to a path on disk.
#[derive(Clone, Copy, Debug, PartialEq, Eq, Structural)]
pub enum FsEventKind {
    Create,
    Modify,
    Remove,
    Unknown,
}

/// A change on disk, as a watcher reports it: what happened, and to which
/// paths, written with forward slashes.
#[derive(Clone, Debug)]
pub struct FsEvent {
    pub kind: FsEventKind,
    pub paths: Vec<String>,
}

/// The name under which changes of a kind are announced path by path; none
/// for a kind that is not announced.
pub open spec fn kind_event_name(kind: FsEventKind) -> Option<Seq<char>> {
    match kind {
        FsEventKind::Create => Some("fs_create"@),
        FsEventKind::Modify => Some("fs_change"@),
        FsEventKind::Remove => Some("fs_delete"@),
        FsEventKind::Unknown => None,
    }
}

/// Each path of a list with forward slashes.
pub open spec fn forward_each(paths: Seq<Seq<char>>) -> Seq<Seq<char>> {
    Seq::new(paths.len(), |i: int| forward_slashes(paths[i]))
}

impl FsEventKind {
    /// The name under which changes of this kind are announced path by path.
    pub fn event_name(&self) -> (r: Option<String>)
        ensures
            crate::search::optional_text(r) == kind_event_name(*self),
    {
        match self {
            FsEventKind::Create => Some("fs_create".to_owned()),
            FsEventKind::Modify => Some("fs_change".to_owned()),
            FsEventKind::Remove => Some("fs_delete".to_owned()),
            FsEventKind::Unknown => None,
        }
    }
}

impl FsEvent {
    /// The event that reports a change on disk: none for a change of unknown
    /// kind, else the kind with the paths written with forward slashes.
    pub fn new(kind: FsEventKind, paths: &Vec<String>) -> (r: Option<FsEvent>)
        ensures
            r is Some <==> kind != FsEventKind::Unknown,
            r matches Some(e) ==> e.kind == kind && strings_view(e.paths@) == forward_each(
                strings_view(paths@),
            ),
    {
        if kind == FsEventKind::Unknown {
            return None;
        }
        let mut clean: Vec<String> = Vec::new();
        let mut i: usize = 0;
        while i < paths.len()
            invariant
                i <= paths.len(),
                clean@.len() == i,
                forall|j: int| 0 <= j < i ==> clean@[j]@ == forward_slashes(paths@[j]@),
            decreases paths.len() - i,
        {
            clean.push(show_path(paths[i].as_str()));
            i += 1;
        }
        assert(strings_view(clean@) =~= forward_each(strings_view(paths@)));
        Some(FsEvent { kind, paths: clean })
    }
}

} // verus!
