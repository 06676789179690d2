//! What the user asks for: keys, cursor motions, text objects and the actions a
//! keymap resolves them to.

use vstd::prelude::*;

verus! {

/// Names a pane, uniquely over the life of the program.
#[derive(Clone, Copy, Debug, PartialEq, Eq, Structural)]
pub struct PaneId(pub u64);

// ------------------------------------------------------------------------
// Keys
// ------------------------------------------------------------------------

/// Which key was pressed.
#[derive(Clone, Copy, Debug, PartialEq, Eq, Structural)]
pub enum KeyCode {
    Backspace,
    Char(char),
    Delete,
    Down,
    End,
    Enter,
    Escape,
    F(u8),
    Home,
    Insert,
    Left,
    PageDown,
    PageUp,
    Right,
    Space,
    Tab,
    Unknown,
    Up,
}

/// A key and the modifiers held with it.
#[derive(Clone, Copy, Debug, PartialEq, Eq, Structural)]
pub struct Key {
    pub alt: bool,
    pub code: KeyCode,
    pub ctrl: bool,
    pub shift: bool,
}

/// Whether a key went down or came up.
#[derive(Clone, Copy, Debug, PartialEq, Eq, Structural)]
pub enum ElementState {
    Pressed,
    Released,
}

/// An Insert-mode edit of the prompt line.
#[derive(Clone, Copy, Debug, PartialEq, Eq, Structural)]
pub enum EditAction {
    DeleteToLineEnd,
    DeleteToLineStart,
    DeleteWordBackward,
    DeleteWordForward,
}

// ------------------------------------------------------------------------
// Modes
// ------------------------------------------------------------------------

/// What a pane does with keys.
#[derive(Clone, Copy, Debug, PartialEq, Eq, Structural)]
pub enum Mode {
    BlockFocus,
    Insert,
    Normal,
    Page,
    Visual,
}

/// What moves a pane from one mode to another.
#[derive(Clone, Copy, Debug, PartialEq, Eq, Structural)]
pub enum ModeEvent {
    EnterVisual,
    Escape,
    ToInsert,
}

/// The mode a pane starts in.
impl Default for Mode {
    fn default() -> (r: Self)
        ensures
            r == Mode::Insert,
    {
        Mode::Insert
    }
}

impl Mode {
    /// The mode `event` leads to. `EnterVisual` is a toggle, `Escape` backs out
    /// of Visual, and `ToInsert` goes to Insert from anywhere.
    pub open spec fn after(self, event: ModeEvent) -> Mode {
        match event {
            ModeEvent::ToInsert => Mode::Insert,
            ModeEvent::Escape => Mode::Normal,
            ModeEvent::EnterVisual => if self == Mode::Visual {
                Mode::Normal
            } else {
                Mode::Visual
            },
        }
    }

    /// The mode `event` leads to.
    pub fn apply(self, event: ModeEvent) -> (r: Mode)
        ensures
            r == self.after(event),
    {
        match event {
            ModeEvent::ToInsert => Mode::Insert,
            ModeEvent::Escape => Mode::Normal,
            ModeEvent::EnterVisual => if self == Mode::Visual {
                Mode::Normal
            } else {
                Mode::Visual
            },
        }
    }
}

// ------------------------------------------------------------------------
// Motions and targets
// ------------------------------------------------------------------------

/// A cursor motion.
#[derive(Clone, Copy, Debug, PartialEq, Eq, Structural)]
pub enum CursorMove {
    Bottom,
    Down,
    FirstNonBlank,
    HalfPageDown,
    HalfPageUp,
    LastNonBlank,
    Left,
    LineEnd,
    LineStart,
    LineToBottom,
    LineToCenter,
    LineToTop,
    MatchingBracket,
    PageDown,
    PageUp,
    ParagraphBack,
    ParagraphForward,
    Right,
    ScreenBottom,
    ScreenMiddle,
    ScreenTop,
    Top,
    Up,
    WordBack,
    WordBackBig,
    WordEnd,
    WordEndBack,
    WordEndBackBig,
    WordEndBig,
    WordForward,
    WordForwardBig,
}

/// A character search on a line: `f`, `F`, `t` or `T`.
#[derive(Clone, Copy, Debug, PartialEq, Eq, Structural)]
pub struct FindChar {
    pub ch: char,
    pub forward: bool,
    /// Stop one cell short of the character.
    pub till: bool,
}

impl FindChar {
    /// The same search in the other direction.
    pub fn reversed(self) -> (r: FindChar)
        ensures
            r == (FindChar { forward: !self.forward, ..self }),
    {
        FindChar { ch: self.ch, forward: !self.forward, till: self.till }
    }
}

/// What a text object covers.
#[derive(Clone, Copy, Debug, PartialEq, Eq, Structural)]
pub enum TextObject {
    Brackets(char, char),
    Paragraph,
    Quotes(char),
    Sentence,
    Word,
    WordBig,
}

/// A text object, with or without what surrounds it.
#[derive(Clone, Copy, Debug, PartialEq, Eq, Structural)]
pub struct TextObjectSpec {
    pub around: bool,
    pub object: TextObject,
}

/// A jump to a named mark.
#[derive(Clone, Copy, Debug, PartialEq, Eq, Structural)]
pub struct GotoMark {
    pub mark: char,
    pub exact: bool,
}

/// What a Visual selection covers.
#[derive(Clone, Copy, Debug, PartialEq, Eq, Structural)]
pub enum VisualKind {
    Block,
    Char,
    Line,
}

/// Where Insert mode starts.
#[derive(Clone, Copy, Debug, PartialEq, Eq, Structural)]
pub enum InsertAt {
    After,
    Cursor,
    LineEnd,
}

/// A step between command blocks, or the direction of a search.
#[derive(Clone, Copy, Debug, PartialEq, Eq, Structural)]
pub enum BlockNav {
    Next,
    Previous,
}

impl BlockNav {
    /// The other direction.
    pub open spec fn opposite(self) -> BlockNav {
        match self {
            BlockNav::Next => BlockNav::Previous,
            BlockNav::Previous => BlockNav::Next,
        }
    }

    /// The other direction.
    pub fn reversed(self) -> (r: BlockNav)
        ensures
            r == self.opposite(),
    {
        match self {
            BlockNav::Next => BlockNav::Previous,
            BlockNav::Previous => BlockNav::Next,
        }
    }
}

/// How a split divides its pane.
#[derive(Clone, Copy, Debug, PartialEq, Eq, Structural)]
pub enum Direction {
    Horizontal,
    Vertical,
}

/// Which neighbour takes focus.
#[derive(Clone, Copy, Debug, PartialEq, Eq, Structural)]
pub enum FocusDir {
    Down,
    Left,
    Right,
    Up,
}

/// What the keymap is waiting for.
#[derive(Clone, Copy, Debug, PartialEq, Eq, Structural)]
pub enum PendingPrefix {
    FindLabel,
    Idle,
    Other,
    SearchInput,
}

// ------------------------------------------------------------------------
// Actions
// ------------------------------------------------------------------------

/// What a key, or a command, asks for.
#[derive(Debug, PartialEq, Eq)]
pub enum Action {
    ChangeLine,
    ChangeNewer,
    ChangeOlder,
    ChangeSearchMatch { forward: bool },
    ChangeSurround { target: char, replacement: char },
    ChangeTextObject(TextObjectSpec),
    ChangeToLineEnd,
    ChangeToLineStart,
    ChangeWordBack,
    ChangeWordForward,
    CloseOtherPanes,
    ClosePane,
    ClosePaneByIndex(usize),
    CloseTab(Option<usize>),
    Copy,
    DecreaseFontSize,
    DeleteCharForward,
    DeleteLine,
    DeleteSearchMatch { forward: bool },
    DeleteSelection,
    DeleteSurround(char),
    DeleteTextObject(TextObjectSpec),
    DeleteToLineEnd,
    DeleteToLineStart,
    DeleteWordBack,
    DeleteWordForward,
    Edit(EditAction),
    EnterInsert(InsertAt),
    EnterVisual(VisualKind),
    FindCancel,
    FindChar(FindChar),
    FindJump(char),
    FindRepeat { reverse: bool },
    FocusBlock(BlockNav),
    FocusPane(FocusDir),
    FocusPaneByIndex(usize),
    ForwardToBlock(Vec<u8>),
    GotoMark(GotoMark),
    GotoTab(usize),
    Ignore,
    IncreaseFontSize,
    JumpNewer,
    JumpOlder,
    JumpToPreviousPrompt,
    JumpToPrompt,
    MoveCursor(CursorMove),
    MoveCursorN { count: usize, mv: CursorMove },
    MoveTabLeft,
    MoveTabRight,
    NewTab,
    NextTab,
    OpenSettings,
    OpenUnderCursor,
    Paste,
    PasteRegister { register: char, after: bool },
    PrevTab,
    PromptRedo,
    PromptUndo,
    QuickCancel,
    QuickJump(char),
    QuickSelect,
    RepeatLastChange,
    ReplaceChar(char),
    ResetFontSize,
    RestoreVisual,
    RunCommand(String),
    ScrollLineDown,
    ScrollLineUp,
    ScrollPageDown,
    ScrollPageUp,
    ScrollToBottom,
    ScrollToTop,
    SearchBackspace,
    SearchCancel,
    SearchChar(char),
    SearchExecute,
    SearchNext,
    SearchPrevious,
    SearchStart,
    SearchStartBackward,
    SearchWord { forward: bool },
    SelectParagraph,
    SelectSearchMatch { forward: bool },
    SelectTextObject(TextObjectSpec),
    SendBytes(Vec<u8>),
    SetMark(char),
    SplitPane(Direction),
    SubstituteChar,
    SurroundTextObject { spec: TextObjectSpec, delimiter: char },
    SwapVisualEnds,
    SwitchMode(Mode),
    ToggleCaseChar,
    ToggleFold,
    ToggleHistoryPalette,
    TogglePalette,
    TogglePaneSwitcher,
    ToggleSwoop,
    YankBlock,
    YankSelection,
    YankSelectionRegister(char),
    ZoomPane,
}

/// Whether an action changes the prompt line in a way that can be repeated: every
/// edit in Normal mode, and every put. What is typed in Insert mode is one change
/// for the whole of the visit.
pub open spec fn is_change(action: Action) -> bool {
    match action {
        Action::DeleteCharForward | Action::DeleteLine | Action::DeleteSelection
        | Action::DeleteTextObject(_) | Action::DeleteToLineEnd | Action::DeleteToLineStart
        | Action::DeleteWordBack | Action::DeleteWordForward | Action::ChangeLine
        | Action::ChangeToLineEnd | Action::ChangeToLineStart | Action::ChangeWordBack
        | Action::ChangeWordForward | Action::ChangeTextObject(_) | Action::SubstituteChar
        | Action::ReplaceChar(_) | Action::ToggleCaseChar | Action::ChangeSearchMatch { .. }
        | Action::DeleteSearchMatch { .. } | Action::ChangeSurround { .. }
        | Action::DeleteSurround(_) | Action::SurroundTextObject { .. } | Action::Paste
        | Action::PasteRegister { .. } => true,
        _ => false,
    }
}

/// Whether an action changes the prompt line in a way that can be repeated.
pub fn is_change_action(action: &Action) -> (r: bool)
    ensures
        r == is_change(*action),
{
    match action {
        Action::DeleteCharForward | Action::DeleteLine | Action::DeleteSelection
        | Action::DeleteTextObject(_) | Action::DeleteToLineEnd | Action::DeleteToLineStart
        | Action::DeleteWordBack | Action::DeleteWordForward | Action::ChangeLine
        | Action::ChangeToLineEnd | Action::ChangeToLineStart | Action::ChangeWordBack
        | Action::ChangeWordForward | Action::ChangeTextObject(_) | Action::SubstituteChar
        | Action::ReplaceChar(_) | Action::ToggleCaseChar | Action::ChangeSearchMatch { .. }
        | Action::DeleteSearchMatch { .. } | Action::ChangeSurround { .. }
        | Action::DeleteSurround(_) | Action::SurroundTextObject { .. } | Action::Paste
        | Action::PasteRegister { .. } => true,
        _ => false,
    }
}

/// A change, to be repeated later.
pub fn copy_change(action: &Action) -> (r: Action)
    requires
        is_change(*action),
    ensures
        r == *action,
{
    match action {
        Action::DeleteCharForward => Action::DeleteCharForward,
        Action::DeleteLine => Action::DeleteLine,
        Action::DeleteSelection => Action::DeleteSelection,
        Action::DeleteTextObject(spec) => Action::DeleteTextObject(*spec),
        Action::DeleteToLineEnd => Action::DeleteToLineEnd,
        Action::DeleteToLineStart => Action::DeleteToLineStart,
        Action::DeleteWordBack => Action::DeleteWordBack,
        Action::DeleteWordForward => Action::DeleteWordForward,
        Action::ChangeLine => Action::ChangeLine,
        Action::ChangeToLineEnd => Action::ChangeToLineEnd,
        Action::ChangeToLineStart => Action::ChangeToLineStart,
        Action::ChangeWordBack => Action::ChangeWordBack,
        Action::ChangeWordForward => Action::ChangeWordForward,
        Action::ChangeTextObject(spec) => Action::ChangeTextObject(*spec),
        Action::SubstituteChar => Action::SubstituteChar,
        Action::ReplaceChar(c) => Action::ReplaceChar(*c),
        Action::ToggleCaseChar => Action::ToggleCaseChar,
        Action::ChangeSearchMatch { forward } => Action::ChangeSearchMatch { forward: *forward },
        Action::DeleteSearchMatch { forward } => Action::DeleteSearchMatch { forward: *forward },
        Action::ChangeSurround { target, replacement } => Action::ChangeSurround {
            target: *target,
            replacement: *replacement,
        },
        Action::DeleteSurround(c) => Action::DeleteSurround(*c),
        Action::SurroundTextObject { spec, delimiter } => Action::SurroundTextObject {
            spec: *spec,
            delimiter: *delimiter,
        },
        Action::Paste => Action::Paste,
        Action::PasteRegister { register, after } => Action::PasteRegister {
            register: *register,
            after: *after,
        },
        _ => Action::Ignore,
    }
}

} // verus!
