//! The effect of each action, stated over the buffer's spec functions.

use vstd::prelude::*;
use crate::components::controller::KeyHandleResult;
use crate::components::which_key::is_register_overlay;
use crate::editor::document::DocumentId;
use crate::editor::register::Registers;
use crate::editor::state::{EditorState, NextKey, without, index_of};
use crate::keymap::actions::{EditorAction, Mode};
use crate::text::buffer::{TextBuf, line_count, start_of_line, line_start, line_end, splice};
use crate::text::match_brackets::spec_match_target;
use crate::text::movement::{
    same_text, spec_word_key, WordMotionTarget, spec_move_horizontally, spec_move_vertically,
    spec_select_line, last_text_line, spec_line_last, spec_first_nonwhitespace, spec_yank,
    spec_target_range, spec_paste_after, spec_paste_before, spec_open_below, spec_open_above,
    spec_toggle_case,
};

verus! {

/// How many times a command runs: the count typed, or once.
pub open spec fn count_of(raw: Option<usize>) -> int {
    match raw {
        Some(c) => c as int,
        None => 1,
    }
}

/// `c` is `b` with the same text and the selection `sel` (anchor, head).
pub open spec fn reselected(b: TextBuf, c: TextBuf, sel: (int, int)) -> bool {
    &&& c.wf()
    &&& same_text(b, c)
    &&& c.anchor == sel.0
    &&& c.head == sel.1
}

/// `c` is `b` after a motion that selects `m`, or that leaves the
/// selection as it was when `m` is `None`.
pub open spec fn moved_to(b: TextBuf, c: TextBuf, m: Option<(int, int)>) -> bool {
    match m {
        Some(sel) => reselected(b, c, sel),
        None => reselected(b, c, (b.anchor as int, b.head as int)),
    }
}

/// `c` is `b` with the anchor moved onto the head.
pub open spec fn collapsed(b: TextBuf, c: TextBuf) -> bool {
    reselected(b, c, (b.head as int, b.head as int))
}

/// `c` is `b` after an edit that gives the text and cursor `e`, made as
/// one undoable step; when `e` is `None`, `c` is `b`.
pub open spec fn edited(b: TextBuf, c: TextBuf, e: Option<(Seq<char>, int)>) -> bool {
    match e {
        Some((t, k)) => TextBuf::is_edit(b, c, t, k, k),
        None => c == b,
    }
}

/// Undoing: the latest saved state comes back and the current one is
/// saved for redo; with nothing to undo, nothing changes.
pub open spec fn undone(b: TextBuf, c: TextBuf) -> bool {
    if b.undo_stack@.len() == 0 {
        c == b
    } else {
        &&& c.wf()
        &&& c.text@ == b.undo_stack@.last().text@
        &&& c.anchor == b.undo_stack@.last().anchor
        &&& c.head == b.undo_stack@.last().head
        &&& c.undo_stack@ == b.undo_stack@.drop_last()
        &&& c.redo_stack@.len() == b.redo_stack@.len() + 1
        &&& c.redo_stack@.drop_last() == b.redo_stack@
        &&& c.redo_stack@.last().text@ == b.text@
        &&& c.redo_stack@.last().anchor == b.anchor
        &&& c.redo_stack@.last().head == b.head
    }
}

/// Redoing: the latest undone state comes back and the current one is
/// saved for undo; with nothing to redo, nothing changes.
pub open spec fn redone(b: TextBuf, c: TextBuf) -> bool {
    if b.redo_stack@.len() == 0 {
        c == b
    } else {
        &&& c.wf()
        &&& c.text@ == b.redo_stack@.last().text@
        &&& c.anchor == b.redo_stack@.last().anchor
        &&& c.head == b.redo_stack@.last().head
        &&& c.redo_stack@ == b.redo_stack@.drop_last()
        &&& c.undo_stack@.len() == b.undo_stack@.len() + 1
        &&& c.undo_stack@.drop_last() == b.undo_stack@
        &&& c.undo_stack@.last().text@ == b.text@
        &&& c.undo_stack@.last().anchor == b.anchor
        &&& c.undo_stack@.last().head == b.head
    }
}

/// Undoing a step and then redoing it gives back the text, the selection
/// and the undo history as they were, and leaves the redo history as it
/// was before the undo.
pub proof fn lemma_undo_then_redo(a: TextBuf, b: TextBuf, c: TextBuf)
    requires
        a.undo_stack@.len() > 0,
        undone(a, b),
        redone(b, c),
    ensures
        c.text@ == a.text@,
        c.anchor == a.anchor,
        c.head == a.head,
        c.redo_stack@ == a.redo_stack@,
        c.undo_stack@.len() == a.undo_stack@.len(),
        c.undo_stack@.drop_last() == a.undo_stack@.drop_last(),
        c.undo_stack@.last().text@ == a.undo_stack@.last().text@,
        c.undo_stack@.last().anchor == a.undo_stack@.last().anchor,
        c.undo_stack@.last().head == a.undo_stack@.last().head,
{
}

/// Redoing a step and then undoing it gives back the text, the selection
/// and the redo history as they were.
pub proof fn lemma_redo_then_undo(a: TextBuf, b: TextBuf, c: TextBuf)
    requires
        a.redo_stack@.len() > 0,
        redone(a, b),
        undone(b, c),
    ensures
        c.text@ == a.text@,
        c.anchor == a.anchor,
        c.head == a.head,
        c.undo_stack@ == a.undo_stack@,
        c.redo_stack@.len() == a.redo_stack@.len(),
        c.redo_stack@.drop_last() == a.redo_stack@.drop_last(),
        c.redo_stack@.last().text@ == a.redo_stack@.last().text@,
{
}

/// The edit `d` makes: the selection (or the character under a point
/// cursor) removed, the cursor where it began.
pub open spec fn spec_delete(b: TextBuf) -> Option<(Seq<char>, int)> {
    match spec_target_range(b) {
        Some((s, e)) => Some((splice(b.t(), s, e, Seq::empty()), s)),
        None => None,
    }
}

/// One run of a command that repeats with the count; `text` is what a
/// paste inserts.
pub open spec fn step(a: EditorAction, extend: bool, text: Seq<char>, b: TextBuf, c: TextBuf) -> bool {
    match a {
        EditorAction::MoveWordForward => moved_to(
            b,
            c,
            spec_word_key(b, WordMotionTarget::NextWordStart, extend, false),
        ),
        EditorAction::MoveWordBackward => moved_to(
            b,
            c,
            spec_word_key(b, WordMotionTarget::PrevWordStart, extend, true),
        ),
        EditorAction::MoveWordEnd => moved_to(
            b,
            c,
            spec_word_key(b, WordMotionTarget::NextWordEnd, extend, false),
        ),
        EditorAction::SelectLine => moved_to(b, c, spec_select_line(b)),
        EditorAction::PasteAfter => edited(b, c, spec_paste_after(b, text)),
        EditorAction::PasteBefore => edited(b, c, spec_paste_before(b, text)),
        EditorAction::Undo => undone(b, c),
        EditorAction::Redo => redone(b, c),
        _ => c == b,
    }
}

/// `c` is `b` after `n` runs of `step`.
pub open spec fn steps(a: EditorAction, extend: bool, text: Seq<char>, b: TextBuf, c: TextBuf, n: nat) -> bool
    decreases n,
{
    if n == 0 {
        c == b
    } else {
        exists|m: TextBuf| steps(a, extend, text, b, m, (n - 1) as nat) && #[trigger] step(a, extend, text, m, c)
    }
}

/// The selection a motion that runs once leaves, or `None` when it
/// leaves the selection as it was. `last` is the last bracket position
/// reported by the view.
pub open spec fn motion_target(
    a: EditorAction,
    b: TextBuf,
    extend: bool,
    raw: Option<usize>,
    last: Option<i32>,
) -> Option<(int, int)> {
    let n = count_of(raw);
    let t = b.t();
    let h = b.head as int;
    match a {
        EditorAction::MoveLeft => Some(spec_move_horizontally(b, -n, extend)),
        EditorAction::MoveRight => Some(spec_move_horizontally(b, n, extend)),
        EditorAction::MoveUp => Some(b.spec_set_cursor(spec_move_vertically(b, -n), extend)),
        EditorAction::MoveDown => Some(b.spec_set_cursor(spec_move_vertically(b, n), extend)),
        EditorAction::GotoFileStart => match raw {
            Some(c) => {
                let lc = line_count(t) as int;
                let line = c - 1;
                let tl = if line < lc { line } else { lc - 1 };
                Some(b.spec_set_cursor(start_of_line(t, tl), extend))
            },
            None => Some(b.spec_set_cursor(0, extend)),
        },
        EditorAction::GotoFileEnd => Some(b.spec_set_cursor(start_of_line(t, last_text_line(t)), extend)),
        EditorAction::GotoLineStart => Some(b.spec_set_cursor(line_start(t, h), extend)),
        EditorAction::GotoLineEnd => Some(b.spec_set_cursor(spec_line_last(b, h), extend)),
        EditorAction::GotoFirstNonWhitespace => Some(
            b.spec_set_cursor(spec_first_nonwhitespace(t, h), extend),
        ),
        EditorAction::SelectAll => Some((0, b.n())),
        EditorAction::CollapseSelection => Some((h, h)),
        EditorAction::FlipSelection => Some((h, b.anchor as int)),
        EditorAction::MatchBrackets => match spec_match_target(b, h, last) {
            Some(q) => Some(b.spec_set_cursor(q, extend)),
            None => None,
        },
        _ => None,
    }
}

/// Motions (and the case toggle) that run once.
pub open spec fn is_single_motion(a: EditorAction) -> bool {
    a == EditorAction::MoveLeft || a == EditorAction::MoveRight || a == EditorAction::MoveUp || a
        == EditorAction::MoveDown || a == EditorAction::GotoFileStart || a == EditorAction::GotoFileEnd
        || a == EditorAction::GotoLineStart || a == EditorAction::GotoLineEnd || a
        == EditorAction::GotoFirstNonWhitespace || a == EditorAction::SelectAll || a
        == EditorAction::CollapseSelection || a == EditorAction::FlipSelection || a
        == EditorAction::MatchBrackets || a == EditorAction::ToggleCase
}

/// Motions that repeat with the count.
pub open spec fn is_repeated_motion(a: EditorAction) -> bool {
    a == EditorAction::MoveWordForward || a == EditorAction::MoveWordBackward || a
        == EditorAction::MoveWordEnd || a == EditorAction::SelectLine
}

/// Commands that enter a mode.
pub open spec fn is_mode_command(a: EditorAction) -> bool {
    a == EditorAction::EnterInsert || a == EditorAction::EnterInsertAfter || a
        == EditorAction::InsertAtLineStart || a == EditorAction::InsertAtLineEnd || a
        == EditorAction::OpenBelow || a == EditorAction::OpenAbove || a == EditorAction::EnterSelect
        || a == EditorAction::ExitToNormal
}

/// Commands that read or write registers, and undo and redo.
pub open spec fn is_register_command(a: EditorAction) -> bool {
    a == EditorAction::DeleteSelection || a == EditorAction::ChangeSelection || a
        == EditorAction::YankSelection || a == EditorAction::YankToClipboard || a
        == EditorAction::PasteAfter || a == EditorAction::PasteBefore || a
        == EditorAction::PasteClipboardAfter || a == EditorAction::PasteClipboardBefore || a
        == EditorAction::Undo || a == EditorAction::Redo
}

/// Commands that wait for one more key.
pub open spec fn is_pending_command(a: EditorAction) -> bool {
    a == EditorAction::SurroundAdd || a == EditorAction::SurroundDelete || a
        == EditorAction::SurroundReplace || a == EditorAction::SelectTextObjectAround || a
        == EditorAction::SelectTextObjectInner || a == EditorAction::Replace || a
        == EditorAction::SelectRegister
}

/// Commands on documents and the user interface, and the no-operation.
pub open spec fn is_document_command(a: EditorAction) -> bool {
    a == EditorAction::GotoNextBuffer || a == EditorAction::GotoPreviousBuffer || a
        == EditorAction::FilePicker || a == EditorAction::BufferPicker || a
        == EditorAction::CommandPalette || a == EditorAction::Noop
}

/// What the next key is taken for after a command that waits for it.
pub open spec fn pending_purpose(a: EditorAction) -> NextKey {
    match a {
        EditorAction::SurroundAdd => NextKey::SurroundAdd,
        EditorAction::SurroundDelete => NextKey::SurroundDelete,
        EditorAction::SurroundReplace => NextKey::SurroundReplaceFrom,
        EditorAction::SelectTextObjectAround => NextKey::TextObjectAround,
        EditorAction::SelectTextObjectInner => NextKey::TextObjectInner,
        EditorAction::Replace => NextKey::ReplaceChar,
        _ => NextKey::SelectRegister,
    }
}

/// `r1` is `r0` after writing `value` to register `name`.
pub open spec fn written(r0: Registers, r1: Registers, name: char, value: Seq<char>) -> bool {
    &&& r1.spec_read(name) == if name == '_' { Seq::empty() } else { value }
    &&& forall|c: char| c != name ==> #[trigger] r1.spec_read(c) == r0.spec_read(c)
}

/// `r1` is `r0` after storing `value` in `name`, when there is any text.
pub open spec fn stored(r0: Registers, r1: Registers, name: char, value: Seq<char>) -> bool {
    if value.len() == 0 {
        r1 == r0
    } else {
        written(r0, r1, name, value)
    }
}

/// `r1` is `r0` after a yank of `value` into `name`: a yank into the
/// default register also fills the yank register `0`.
pub open spec fn yanked(r0: Registers, r1: Registers, name: char, value: Seq<char>) -> bool {
    if value.len() == 0 {
        r1 == r0
    } else if name == '"' {
        &&& r1.spec_read('"') == value
        &&& r1.spec_read('0') == value
        &&& forall|c: char| c != '"' && c != '0' ==> #[trigger] r1.spec_read(c) == r0.spec_read(c)
    } else {
        written(r0, r1, name, value)
    }
}

/// `s0` with the registers of `s1`.
pub open spec fn with_registers(s0: EditorState, s1: EditorState) -> EditorState {
    EditorState { registers: s1.registers, ..s0 }
}

/// The state after entering mode `m` and the answer that reports it.
pub open spec fn enters(s0: EditorState, s1: EditorState, m: Mode, r: KeyHandleResult) -> bool {
    &&& EditorState::is_mode_set(s0, s1, m)
    &&& r == KeyHandleResult::ModeChanged(m)
}

/// In select mode a command ends in normal mode; otherwise nothing else
/// changes and the answer is `Stop`.
pub open spec fn leaves_select(s0: EditorState, s1: EditorState, r: KeyHandleResult) -> bool {
    if s0.mode == Mode::Select {
        enters(s0, s1, Mode::Normal, r)
    } else {
        s1 == s0 && r == KeyHandleResult::Stop
    }
}

/// Whether `s1` is `s0` after switching to the open document `id`.
pub open spec fn switched_to(s0: EditorState, s1: EditorState, id: DocumentId) -> bool {
    &&& EditorState::only_switched(s0, s1)
    &&& s1.current_document_id == id
    &&& s1.access_history@ == without(s0.access_history@, id).push(id)
}

/// The document after `cur` in `docs`, wrapping around.
pub open spec fn next_in(docs: Seq<DocumentId>, cur: DocumentId) -> DocumentId {
    docs[(index_of(docs, cur) + 1) % (docs.len() as int)]
}

/// The document before `cur` in `docs`, wrapping around.
pub open spec fn prev_in(docs: Seq<DocumentId>, cur: DocumentId) -> DocumentId {
    let p = index_of(docs, cur);
    if p == 0 { docs[docs.len() - 1] } else { docs[p - 1] }
}

/// The effect of a document command: switching to `id` when the current
/// document is open, otherwise nothing; the answer names the current
/// document.
pub open spec fn document_step(s0: EditorState, s1: EditorState, id: DocumentId, r: KeyHandleResult) -> bool {
    if s0.documents@.contains(s0.current_document_id) {
        switched_to(s0, s1, id) && r == KeyHandleResult::DocumentChanged(id)
    } else {
        s1 == s0 && r == KeyHandleResult::DocumentChanged(s0.current_document_id)
    }
}

/// The effect of running `a` on state `s0` and buffer `b0` with the count
/// typed `raw` and the register `reg`: `s1`, `b1` and the answer `r`.
pub open spec fn dispatched(
    a: EditorAction,
    s0: EditorState,
    b0: TextBuf,
    raw: Option<usize>,
    reg: char,
    s1: EditorState,
    b1: TextBuf,
    r: KeyHandleResult,
) -> bool {
    let extend = s0.mode == Mode::Select;
    let n = count_of(raw);
    let t = b0.t();
    let h = b0.head as int;
    if a == EditorAction::ToggleCase {
        s1 == s0 && r == KeyHandleResult::Stop && edited(b0, b1, spec_toggle_case(b0))
    } else if is_single_motion(a) {
        &&& s1 == s0
        &&& r == KeyHandleResult::Stop
        &&& moved_to(b0, b1, motion_target(a, b0, extend, raw, s0.last_matched_bracket))
    } else if is_repeated_motion(a) {
        s1 == s0 && r == KeyHandleResult::Stop && steps(a, extend, Seq::empty(), b0, b1, n as nat)
    } else if is_pending_command(a) {
        &&& b1 == b0
        &&& r == KeyHandleResult::Stop
        &&& if a == EditorAction::SelectRegister {
            &&& s1 == (EditorState {
                next_key: Some(NextKey::SelectRegister),
                which_key: s1.which_key,
                ..s0
            })
            &&& s1.which_key matches Some(w) && is_register_overlay(w, s0.registers)
        } else {
            s1 == (EditorState { next_key: Some(pending_purpose(a)), ..s0 })
        }
    } else {
        match a {
            EditorAction::EnterInsert => b1 == b0 && enters(s0, s1, Mode::Insert, r),
            EditorAction::EnterInsertAfter => {
                &&& reselected(b0, b1, spec_move_horizontally(b0, 1, false))
                &&& enters(s0, s1, Mode::Insert, r)
            },
            EditorAction::InsertAtLineStart => {
                let p = spec_first_nonwhitespace(t, h);
                reselected(b0, b1, (p, p)) && enters(s0, s1, Mode::Insert, r)
            },
            EditorAction::InsertAtLineEnd => {
                let p = line_end(t, h);
                reselected(b0, b1, (p, p)) && enters(s0, s1, Mode::Insert, r)
            },
            EditorAction::OpenBelow => edited(b0, b1, spec_open_below(b0, n)) && enters(
                s0,
                s1,
                Mode::Insert,
                r,
            ),
            EditorAction::OpenAbove => edited(b0, b1, spec_open_above(b0, n)) && enters(
                s0,
                s1,
                Mode::Insert,
                r,
            ),
            EditorAction::EnterSelect => if s0.mode == Mode::Select {
                collapsed(b0, b1) && enters(s0, s1, Mode::Normal, r)
            } else {
                b1 == b0 && enters(s0, s1, Mode::Select, r)
            },
            EditorAction::ExitToNormal => collapsed(b0, b1) && enters(s0, s1, Mode::Normal, r),
            EditorAction::DeleteSelection => {
                &&& edited(b0, b1, spec_delete(b0))
                &&& stored(s0.registers, s1.registers, reg, spec_yank(b0))
                &&& leaves_select(with_registers(s0, s1), s1, r)
            },
            EditorAction::ChangeSelection => {
                &&& edited(b0, b1, spec_delete(b0))
                &&& stored(s0.registers, s1.registers, reg, spec_yank(b0))
                &&& enters(with_registers(s0, s1), s1, Mode::Insert, r)
            },
            EditorAction::YankSelection | EditorAction::YankToClipboard => {
                &&& if a == EditorAction::YankSelection {
                    yanked(s0.registers, s1.registers, reg, spec_yank(b0))
                } else {
                    stored(s0.registers, s1.registers, '+', spec_yank(b0))
                }
                &&& if s0.mode == Mode::Select {
                    collapsed(b0, b1) && enters(with_registers(s0, s1), s1, Mode::Normal, r)
                } else {
                    b1 == b0 && s1 == with_registers(s0, s1) && r == KeyHandleResult::Stop
                }
            },
            EditorAction::PasteAfter | EditorAction::PasteBefore => {
                let text = s0.registers.spec_read(reg);
                &&& if text.len() == 0 {
                    b1 == b0
                } else {
                    steps(a, extend, text, b0, b1, n as nat)
                }
                &&& leaves_select(s0, s1, r)
            },
            EditorAction::PasteClipboardAfter | EditorAction::PasteClipboardBefore => {
                let text = s0.registers.spec_read('+');
                let kind = if a == EditorAction::PasteClipboardAfter {
                    EditorAction::PasteAfter
                } else {
                    EditorAction::PasteBefore
                };
                &&& if text.len() == 0 {
                    b1 == b0
                } else {
                    steps(kind, extend, text, b0, b1, n as nat)
                }
                &&& s1 == s0
                &&& r == KeyHandleResult::Stop
            },
            EditorAction::Undo | EditorAction::Redo => {
                steps(a, extend, Seq::empty(), b0, b1, n as nat) && leaves_select(s0, s1, r)
            },
            EditorAction::GotoNextBuffer => b1 == b0 && document_step(
                s0,
                s1,
                next_in(s0.documents@, s0.current_document_id),
                r,
            ),
            EditorAction::GotoPreviousBuffer => b1 == b0 && document_step(
                s0,
                s1,
                prev_in(s0.documents@, s0.current_document_id),
                r,
            ),
            EditorAction::FilePicker => b1 == b0 && s1 == s0 && r == KeyHandleResult::OpenFilePicker,
            EditorAction::BufferPicker => b1 == b0 && s1 == s0 && r == KeyHandleResult::OpenBufferPicker,
            EditorAction::CommandPalette => b1 == b0 && s1 == s0 && r
                == KeyHandleResult::OpenCommandPalette,
            _ => b1 == b0 && s1 == s0 && r == KeyHandleResult::Stop,
        }
    }
}

} // verus!
