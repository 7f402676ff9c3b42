//! Editor modes and the actions keys are bound to.

use vstd::prelude::*;

verus! {

/// The editing mode.
#[derive(Debug, Copy, Clone, PartialEq, Eq, Hash, Structural)]
pub enum Mode {
    Normal,
    Select,
    Insert,
}

impl Mode {
    /// The mode's name as shown to the user: `normal`, `select` or `insert`.
    pub open spec fn spec_name(self) -> Seq<char> {
        match self {
            Mode::Normal => "normal"@,
            Mode::Select => "select"@,
            Mode::Insert => "insert"@,
        }
    }

    /// The mode's name.
    pub fn name(&self) -> (r: &'static str)
        ensures
            r@ == self.spec_name(),
    {
        match self {
            Mode::Normal => "normal",
            Mode::Select => "select",
            Mode::Insert => "insert",
        }
    }
}

/// An action a key can be bound to.
#[derive(Debug, Copy, Clone, PartialEq, Eq, Hash, Structural)]
pub enum EditorAction {
    MoveLeft,
    MoveRight,
    MoveUp,
    MoveDown,
    MoveWordForward,
    MoveWordBackward,
    MoveWordEnd,
    SelectLine,
    EnterInsert,
    EnterInsertAfter,
    InsertAtLineStart,
    InsertAtLineEnd,
    EnterSelect,
    ExitToNormal,
    DeleteSelection,
    ChangeSelection,
    YankSelection,
    PasteAfter,
    PasteBefore,
    Undo,
    Redo,
    MatchBrackets,
    SurroundAdd,
    SurroundDelete,
    SurroundReplace,
    SelectTextObjectAround,
    SelectTextObjectInner,
    SelectRegister,
    YankToClipboard,
    PasteClipboardAfter,
    PasteClipboardBefore,
    GotoFileStart,
    GotoFileEnd,
    GotoLineStart,
    GotoLineEnd,
    GotoFirstNonWhitespace,
    OpenBelow,
    OpenAbove,
    Replace,
    SelectAll,
    CollapseSelection,
    FlipSelection,
    ToggleCase,
    GotoNextBuffer,
    GotoPreviousBuffer,
    FilePicker,
    BufferPicker,
    CommandPalette,
    Noop,
}

impl EditorAction {
    /// The description shown for the action.
    pub open spec fn spec_doc(self) -> Seq<char> {
        match self {
            EditorAction::MoveLeft => "move left"@,
            EditorAction::MoveRight => "move right"@,
            EditorAction::MoveUp => "move up"@,
            EditorAction::MoveDown => "move down"@,
            EditorAction::MoveWordForward => "move to next word start"@,
            EditorAction::MoveWordBackward => "move to previous word start"@,
            EditorAction::MoveWordEnd => "move to next word end"@,
            EditorAction::SelectLine => "select line"@,
            EditorAction::EnterInsert => "enter insert mode"@,
            EditorAction::EnterInsertAfter => "append after cursor"@,
            EditorAction::InsertAtLineStart => "insert at line start"@,
            EditorAction::InsertAtLineEnd => "insert at line end"@,
            EditorAction::EnterSelect => "enter select mode"@,
            EditorAction::ExitToNormal => "enter normal mode"@,
            EditorAction::DeleteSelection => "delete selection"@,
            EditorAction::ChangeSelection => "change selection"@,
            EditorAction::YankSelection => "yank selection"@,
            EditorAction::PasteAfter => "paste after"@,
            EditorAction::PasteBefore => "paste before"@,
            EditorAction::Undo => "undo change"@,
            EditorAction::Redo => "redo change"@,
            EditorAction::MatchBrackets => "goto matching bracket"@,
            EditorAction::SurroundAdd => "surround selection"@,
            EditorAction::SurroundDelete => "delete surround pair"@,
            EditorAction::SurroundReplace => "replace surround pair"@,
            EditorAction::SelectTextObjectAround => "select around textobject"@,
            EditorAction::SelectTextObjectInner => "select inside textobject"@,
            EditorAction::SelectRegister => "select register"@,
            EditorAction::YankToClipboard => "yank to clipboard"@,
            EditorAction::PasteClipboardAfter => "paste clipboard after"@,
            EditorAction::PasteClipboardBefore => "paste clipboard before"@,
            EditorAction::GotoFileStart => "goto file start"@,
            EditorAction::GotoFileEnd => "goto file end"@,
            EditorAction::GotoLineStart => "goto line start"@,
            EditorAction::GotoLineEnd => "goto line end"@,
            EditorAction::GotoFirstNonWhitespace => "goto first non-whitespace character"@,
            EditorAction::OpenBelow => "open newline below"@,
            EditorAction::OpenAbove => "open newline above"@,
            EditorAction::Replace => "replace character under cursor"@,
            EditorAction::SelectAll => "select all"@,
            EditorAction::CollapseSelection => "collapse selection to cursor"@,
            EditorAction::FlipSelection => "flip selection anchor and head"@,
            EditorAction::ToggleCase => "toggle case of selection"@,
            EditorAction::GotoNextBuffer => "goto next buffer"@,
            EditorAction::GotoPreviousBuffer => "goto previous buffer"@,
            EditorAction::FilePicker => "open file picker"@,
            EditorAction::BufferPicker => "open buffer picker"@,
            EditorAction::CommandPalette => "open command palette"@,
            EditorAction::Noop => "no operation"@,
        }
    }

    /// The description shown for the action.
    pub fn doc(&self) -> (r: &'static str)
        ensures
            r@ == self.spec_doc(),
    {
        match self {
            EditorAction::MoveLeft => "move left",
            EditorAction::MoveRight => "move right",
            EditorAction::MoveUp => "move up",
            EditorAction::MoveDown => "move down",
            EditorAction::MoveWordForward => "move to next word start",
            EditorAction::MoveWordBackward => "move to previous word start",
            EditorAction::MoveWordEnd => "move to next word end",
            EditorAction::SelectLine => "select line",
            EditorAction::EnterInsert => "enter insert mode",
            EditorAction::EnterInsertAfter => "append after cursor",
            EditorAction::InsertAtLineStart => "insert at line start",
            EditorAction::InsertAtLineEnd => "insert at line end",
            EditorAction::EnterSelect => "enter select mode",
            EditorAction::ExitToNormal => "enter normal mode",
            EditorAction::DeleteSelection => "delete selection",
            EditorAction::ChangeSelection => "change selection",
            EditorAction::YankSelection => "yank selection",
            EditorAction::PasteAfter => "paste after",
            EditorAction::PasteBefore => "paste before",
            EditorAction::Undo => "undo change",
            EditorAction::Redo => "redo change",
            EditorAction::MatchBrackets => "goto matching bracket",
            EditorAction::SurroundAdd => "surround selection",
            EditorAction::SurroundDelete => "delete surround pair",
            EditorAction::SurroundReplace => "replace surround pair",
            EditorAction::SelectTextObjectAround => "select around textobject",
            EditorAction::SelectTextObjectInner => "select inside textobject",
            EditorAction::SelectRegister => "select register",
            EditorAction::YankToClipboard => "yank to clipboard",
            EditorAction::PasteClipboardAfter => "paste clipboard after",
            EditorAction::PasteClipboardBefore => "paste clipboard before",
            EditorAction::GotoFileStart => "goto file start",
            EditorAction::GotoFileEnd => "goto file end",
            EditorAction::GotoLineStart => "goto line start",
            EditorAction::GotoLineEnd => "goto line end",
            EditorAction::GotoFirstNonWhitespace => "goto first non-whitespace character",
            EditorAction::OpenBelow => "open newline below",
            EditorAction::OpenAbove => "open newline above",
            EditorAction::Replace => "replace character under cursor",
            EditorAction::SelectAll => "select all",
            EditorAction::CollapseSelection => "collapse selection to cursor",
            EditorAction::FlipSelection => "flip selection anchor and head",
            EditorAction::ToggleCase => "toggle case of selection",
            EditorAction::GotoNextBuffer => "goto next buffer",
            EditorAction::GotoPreviousBuffer => "goto previous buffer",
            EditorAction::FilePicker => "open file picker",
            EditorAction::BufferPicker => "open buffer picker",
            EditorAction::CommandPalette => "open command palette",
            EditorAction::Noop => "no operation",
        }
    }
}

/// The character of `s` at `k`, or a space past its end.
spec fn char_or_space(s: Seq<char>, k: int) -> char {
    if k < s.len() {
        s[k]
    } else {
        ' '
    }
}

/// The length of a description with its characters at positions 0, 7
/// and 13: together they tell the actions' descriptions apart.
spec fn doc_fingerprint(s: Seq<char>) -> (nat, char, char, char) {
    (s.len(), char_or_space(s, 0), char_or_space(s, 7), char_or_space(s, 13))
}

/// The fingerprint of each action's description, written out.
spec fn fingerprint_of(a: EditorAction) -> (nat, char, char, char) {
    match a {
        EditorAction::MoveLeft => (9nat, 'm', 'f', ' '),
        EditorAction::MoveRight => (10nat, 'm', 'g', ' '),
        EditorAction::MoveUp => (7nat, 'm', ' ', ' '),
        EditorAction::MoveDown => (9nat, 'm', 'w', ' '),
        EditorAction::MoveWordForward => (23nat, 'm', ' ', 'w'),
        EditorAction::MoveWordBackward => (27nat, 'm', ' ', 'o'),
        EditorAction::MoveWordEnd => (21nat, 'm', ' ', 'w'),
        EditorAction::SelectLine => (11nat, 's', 'l', ' '),
        EditorAction::EnterInsert => (17nat, 'e', 'n', 'm'),
        EditorAction::EnterInsertAfter => (19nat, 'a', 'a', 'c'),
        EditorAction::InsertAtLineStart => (20nat, 'i', 'a', 'e'),
        EditorAction::InsertAtLineEnd => (18nat, 'i', 'a', 'e'),
        EditorAction::EnterSelect => (17nat, 'e', 'e', 'm'),
        EditorAction::ExitToNormal => (17nat, 'e', 'o', 'm'),
        EditorAction::DeleteSelection => (16nat, 'd', 's', 'i'),
        EditorAction::ChangeSelection => (16nat, 'c', 's', 'i'),
        EditorAction::YankSelection => (14nat, 'y', 'l', 'n'),
        EditorAction::PasteAfter => (11nat, 'p', 'f', ' '),
        EditorAction::PasteBefore => (12nat, 'p', 'e', ' '),
        EditorAction::Undo => (11nat, 'u', 'a', ' '),
        EditorAction::Redo => (11nat, 'r', 'a', ' '),
        EditorAction::MatchBrackets => (21nat, 'g', 't', ' '),
        EditorAction::SurroundAdd => (18nat, 's', 'd', 'c'),
        EditorAction::SurroundDelete => (20nat, 'd', 's', 'n'),
        EditorAction::SurroundReplace => (21nat, 'r', ' ', 'u'),
        EditorAction::SelectTextObjectAround => (24nat, 's', 'a', ' '),
        EditorAction::SelectTextObjectInner => (24nat, 's', 'i', ' '),
        EditorAction::SelectRegister => (15nat, 's', 'r', 'e'),
        EditorAction::YankToClipboard => (17nat, 'y', ' ', 'o'),
        EditorAction::PasteClipboardAfter => (21nat, 'p', 'l', 'r'),
        EditorAction::PasteClipboardBefore => (22nat, 'p', 'l', 'r'),
        EditorAction::GotoFileStart => (15nat, 'g', 'l', 'r'),
        EditorAction::GotoFileEnd => (13nat, 'g', 'l', ' '),
        EditorAction::GotoLineStart => (15nat, 'g', 'n', 'r'),
        EditorAction::GotoLineEnd => (13nat, 'g', 'n', ' '),
        EditorAction::GotoFirstNonWhitespace => (35nat, 'g', 'r', 'n'),
        EditorAction::OpenBelow => (18nat, 'o', 'w', 'b'),
        EditorAction::OpenAbove => (18nat, 'o', 'w', 'a'),
        EditorAction::Replace => (30nat, 'r', ' ', 'c'),
        EditorAction::SelectAll => (10nat, 's', 'a', ' '),
        EditorAction::CollapseSelection => (28nat, 'c', 'e', 'c'),
        EditorAction::FlipSelection => (30nat, 'f', 'l', 'n'),
        EditorAction::ToggleCase => (24nat, 't', 'c', 'f'),
        EditorAction::GotoNextBuffer => (16nat, 'g', 'x', 'f'),
        EditorAction::GotoPreviousBuffer => (20nat, 'g', 'e', ' '),
        EditorAction::FilePicker => (16nat, 'o', 'l', 'k'),
        EditorAction::BufferPicker => (18nat, 'o', 'f', 'i'),
        EditorAction::CommandPalette => (20nat, 'o', 'm', 'p'),
        EditorAction::Noop => (12nat, 'n', 'a', ' '),
    }
}

/// The fingerprint of an action's description is the one written out for
/// it, and the description is never empty.
proof fn lemma_doc_fingerprint(a: EditorAction)
    ensures
        doc_fingerprint(a.spec_doc()) == fingerprint_of(a),
        a.spec_doc().len() > 0,
{
    reveal_strlit("move left");
    reveal_strlit("move right");
    reveal_strlit("move up");
    reveal_strlit("move down");
    reveal_strlit("move to next word start");
    reveal_strlit("move to previous word start");
    reveal_strlit("move to next word end");
    reveal_strlit("select line");
    reveal_strlit("enter insert mode");
    reveal_strlit("append after cursor");
    reveal_strlit("insert at line start");
    reveal_strlit("insert at line end");
    reveal_strlit("enter select mode");
    reveal_strlit("enter normal mode");
    reveal_strlit("delete selection");
    reveal_strlit("change selection");
    reveal_strlit("yank selection");
    reveal_strlit("paste after");
    reveal_strlit("paste before");
    reveal_strlit("undo change");
    reveal_strlit("redo change");
    reveal_strlit("goto matching bracket");
    reveal_strlit("surround selection");
    reveal_strlit("delete surround pair");
    reveal_strlit("replace surround pair");
    reveal_strlit("select around textobject");
    reveal_strlit("select inside textobject");
    reveal_strlit("select register");
    reveal_strlit("yank to clipboard");
    reveal_strlit("paste clipboard after");
    reveal_strlit("paste clipboard before");
    reveal_strlit("goto file start");
    reveal_strlit("goto file end");
    reveal_strlit("goto line start");
    reveal_strlit("goto line end");
    reveal_strlit("goto first non-whitespace character");
    reveal_strlit("open newline below");
    reveal_strlit("open newline above");
    reveal_strlit("replace character under cursor");
    reveal_strlit("select all");
    reveal_strlit("collapse selection to cursor");
    reveal_strlit("flip selection anchor and head");
    reveal_strlit("toggle case of selection");
    reveal_strlit("goto next buffer");
    reveal_strlit("goto previous buffer");
    reveal_strlit("open file picker");
    reveal_strlit("open buffer picker");
    reveal_strlit("open command palette");
    reveal_strlit("no operation");
}

/// Distinct actions have distinct descriptions, and none is empty: a list
/// grouped by description never merges two actions.
pub proof fn lemma_doc_one_to_one(a: EditorAction, b: EditorAction)
    ensures
        a != b ==> a.spec_doc() != b.spec_doc(),
        a.spec_doc().len() > 0,
{
    lemma_doc_fingerprint(a);
    lemma_doc_fingerprint(b);
}

} // verus!
