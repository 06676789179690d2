//! What the program asks of the world outside: shells, windows, files, the clipboard of
//! the system and the objects behind pages.

use vstd::prelude::*;
use crate::input::{FocusDir, PaneId};
use crate::jobs::JobRequest;
use crate::navigation::search::string_view;

verus! {

/// How the size of the font is to change.
#[derive(Clone, Copy, Debug, PartialEq, Eq, Structural)]
pub enum FontChange {
    Larger,
    Reset,
    Smaller,
}

/// What is to be written to a file and opened.
#[derive(Clone, Copy, Debug, PartialEq, Eq, Structural)]
pub enum Export {
    /// The buffer, with colors as a terminal writes them.
    ScrollbackAnsi,
    /// The buffer as plain text.
    ScrollbackText,
    /// The buffer as a web page.
    ScrollbackHtml,
    /// The drawing of the block in view.
    BlockDrawing,
}

/// Something asked of the world outside.
#[derive(Debug)]
pub enum Request {
    /// Give a page the answer to its question.
    AnswerPage { pane: PaneId, answer: Option<String>, tag: String },
    /// Ask whether a pane is to be closed with edits in it that are nowhere else.
    AskBeforeClosing(PaneId),
    /// Ask the same of all panes of a tab but one.
    AskBeforeClosingOthers(PaneId),
    /// Attach to a session on another host.
    AttachRemote { host: String, session: String },
    /// Attach to a session.
    AttachSession(String),
    /// Stop jobs, by their numbers.
    CancelJobs(Vec<u64>),
    ChangeFont(FontChange),
    /// Answer a program's question for the clipboard.
    ClipboardAnswer(PaneId),
    /// Put a text on the clipboard for a program.
    ClipboardWrite(String),
    /// Put a text where a middle click pastes from.
    CopyToPrimary(String),
    /// Show blocks that have just come in, by pane and number.
    CreateTiles(Vec<(PaneId, u64)>),
    /// Take away what is shown of the blocks in a stretch of rows.
    DropBlocks { pane: PaneId, from: usize, to: usize },
    /// Take away what is shown of a block that is no longer kept.
    DropElided { pane: PaneId, block: usize, segment: usize },
    /// Take away the shell of a pane and all that is shown of it.
    DropPane(PaneId),
    Export { kind: Export, pane: PaneId },
    /// Give the pane that lies in a direction focus.
    FocusNeighbour(FocusDir),
    /// Take what floats over panes away.
    HideTiles,
    KillSession(String),
    /// Give no block of any pane more trust than this.
    LimitTrust(u8),
    /// List the files of the directory that the pane in focus is at.
    ListFiles,
    /// List the files of the directory above the one that is listed.
    ListFilesAbove,
    /// List the files of a directory.
    ListFilesIn(String),
    /// List the sessions there are, to attach to one or to kill one.
    ListSessions { kill: bool },
    /// Open a file in the user's editor, in a tab of its own.
    OpenEditor { path: String, line: Option<usize> },
    /// Open a path or a link with what the system has for it.
    OpenExternal(String),
    /// Open a file in a page.
    OpenPath { path: String, line: Option<usize> },
    OpenSettings,
    /// Show again a live block that has changed.
    PatchTile { pane: PaneId, block: usize },
    Quit,
    /// Resolve the theme's colors again.
    RebuildTheme,
    Reload,
    /// Carry what is anchored in a pane's rows over a resize, by its number.
    RemapAnchors { pane: PaneId, remap: u64 },
    /// Take away what a page draws for itself.
    RemoveSurface(PaneId),
    /// Draw a frame.
    Render,
    /// Fit the surface that is drawn on to the window.
    ResizeSurface { width: u32, height: u32 },
    /// Let a page that is in view again read again what it shows.
    ResumePage(PaneId),
    /// Keep what is kept from one run to the next.
    SaveState,
    /// Fit the window to whole cells.
    SnapWindow,
    /// Run a command in a tab of its own.
    SpawnCommand(String),
    /// Start a session.
    SpawnSession { name: String, command: Option<String>, cwd: Option<String> },
    /// Start a shell for a pane, `cells` columns and rows wide, or as wide as its room.
    SpawnShell { pane: PaneId, cells: Option<(usize, usize)>, cwd: Option<String> },
    /// Do a job.
    StartJob { id: u64, pane: PaneId, job: JobRequest },
    /// Call the window what it is called now.
    UpdateTitle,
}

/// What is asked of the world outside, by its contents.
pub enum RequestView {
    AnswerPage { pane: PaneId, answer: Option<Seq<char>>, tag: Seq<char> },
    AskBeforeClosing(PaneId),
    AskBeforeClosingOthers(PaneId),
    AttachRemote { host: Seq<char>, session: Seq<char> },
    AttachSession(Seq<char>),
    CancelJobs(Seq<u64>),
    ChangeFont(FontChange),
    ClipboardAnswer(PaneId),
    ClipboardWrite(Seq<char>),
    CopyToPrimary(Seq<char>),
    CreateTiles(Seq<(PaneId, u64)>),
    DropBlocks { pane: PaneId, from: usize, to: usize },
    DropElided { pane: PaneId, block: usize, segment: usize },
    DropPane(PaneId),
    Export { kind: Export, pane: PaneId },
    FocusNeighbour(FocusDir),
    HideTiles,
    KillSession(Seq<char>),
    LimitTrust(u8),
    ListFiles,
    ListFilesAbove,
    ListFilesIn(Seq<char>),
    ListSessions { kill: bool },
    OpenEditor { path: Seq<char>, line: Option<usize> },
    OpenExternal(Seq<char>),
    OpenPath { path: Seq<char>, line: Option<usize> },
    OpenSettings,
    PatchTile { pane: PaneId, block: usize },
    Quit,
    RebuildTheme,
    Reload,
    RemapAnchors { pane: PaneId, remap: u64 },
    RemoveSurface(PaneId),
    Render,
    ResizeSurface { width: u32, height: u32 },
    ResumePage(PaneId),
    SaveState,
    SnapWindow,
    SpawnCommand(Seq<char>),
    SpawnSession { name: Seq<char>, command: Option<Seq<char>>, cwd: Option<Seq<char>> },
    SpawnShell { pane: PaneId, cells: Option<(usize, usize)>, cwd: Option<Seq<char>> },
    StartJob { id: u64, pane: PaneId, job: JobRequest },
    UpdateTitle,
}

impl View for Request {
    type V = RequestView;

    open spec fn view(&self) -> RequestView {
        match *self {
            Request::AnswerPage { pane, answer, tag } => RequestView::AnswerPage {
                pane,
                answer: string_view(answer),
                tag: tag@,
            },
            Request::AskBeforeClosing(pane) => RequestView::AskBeforeClosing(pane),
            Request::AskBeforeClosingOthers(pane) => RequestView::AskBeforeClosingOthers(pane),
            Request::AttachRemote { host, session } => RequestView::AttachRemote {
                host: host@,
                session: session@,
            },
            Request::AttachSession(name) => RequestView::AttachSession(name@),
            Request::CancelJobs(ids) => RequestView::CancelJobs(ids@),
            Request::ChangeFont(change) => RequestView::ChangeFont(change),
            Request::ClipboardAnswer(pane) => RequestView::ClipboardAnswer(pane),
            Request::ClipboardWrite(text) => RequestView::ClipboardWrite(text@),
            Request::CopyToPrimary(text) => RequestView::CopyToPrimary(text@),
            Request::CreateTiles(tiles) => RequestView::CreateTiles(tiles@),
            Request::DropBlocks { pane, from, to } => RequestView::DropBlocks { pane, from, to },
            Request::DropElided { pane, block, segment } => RequestView::DropElided {
                pane,
                block,
                segment,
            },
            Request::DropPane(pane) => RequestView::DropPane(pane),
            Request::Export { kind, pane } => RequestView::Export { kind, pane },
            Request::FocusNeighbour(dir) => RequestView::FocusNeighbour(dir),
            Request::HideTiles => RequestView::HideTiles,
            Request::KillSession(name) => RequestView::KillSession(name@),
            Request::LimitTrust(level) => RequestView::LimitTrust(level),
            Request::ListFiles => RequestView::ListFiles,
            Request::ListFilesAbove => RequestView::ListFilesAbove,
            Request::ListFilesIn(dir) => RequestView::ListFilesIn(dir@),
            Request::ListSessions { kill } => RequestView::ListSessions { kill },
            Request::OpenEditor { path, line } => RequestView::OpenEditor { path: path@, line },
            Request::OpenExternal(path) => RequestView::OpenExternal(path@),
            Request::OpenPath { path, line } => RequestView::OpenPath { path: path@, line },
            Request::OpenSettings => RequestView::OpenSettings,
            Request::PatchTile { pane, block } => RequestView::PatchTile { pane, block },
            Request::Quit => RequestView::Quit,
            Request::RebuildTheme => RequestView::RebuildTheme,
            Request::Reload => RequestView::Reload,
            Request::RemapAnchors { pane, remap } => RequestView::RemapAnchors { pane, remap },
            Request::RemoveSurface(pane) => RequestView::RemoveSurface(pane),
            Request::Render => RequestView::Render,
            Request::ResizeSurface { width, height } => RequestView::ResizeSurface {
                width,
                height,
            },
            Request::ResumePage(pane) => RequestView::ResumePage(pane),
            Request::SaveState => RequestView::SaveState,
            Request::SnapWindow => RequestView::SnapWindow,
            Request::SpawnCommand(command) => RequestView::SpawnCommand(command@),
            Request::SpawnSession { name, command, cwd } => RequestView::SpawnSession {
                name: name@,
                command: string_view(command),
                cwd: string_view(cwd),
            },
            Request::SpawnShell { pane, cells, cwd } => RequestView::SpawnShell {
                pane,
                cells,
                cwd: string_view(cwd),
            },
            Request::StartJob { id, pane, job } => RequestView::StartJob { id, pane, job },
            Request::UpdateTitle => RequestView::UpdateTitle,
        }
    }
}

} // verus!
