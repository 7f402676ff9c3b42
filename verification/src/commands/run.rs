//! The commands, grouped as `dispatch` sends them.

use vstd::prelude::*;
use crate::components::controller::KeyHandleResult;
use crate::components::which_key::WhichKeyData;
use crate::editor::state::{EditorState, NextKey, MAX_COUNT};
use crate::keymap::actions::{EditorAction, Mode};
use crate::text::buffer::TextBuf;
use crate::text::match_brackets::match_brackets;
use crate::text::movement;
use super::spec::{
    dispatched, step, steps, is_single_motion, is_repeated_motion, is_mode_command,
    is_register_command, is_pending_command, is_document_command, pending_purpose,
};

verus! {

/// Commands that repeat with the count.
pub open spec fn is_step_action(a: EditorAction) -> bool {
    is_repeated_motion(a) || a == EditorAction::PasteAfter || a == EditorAction::PasteBefore || a
        == EditorAction::Undo || a == EditorAction::Redo
}

/// Runs `step` of `a` `count` times; `text` is what a paste inserts.
pub fn repeat_step(a: EditorAction, buffer: &mut TextBuf, extend: bool, text: &str, count: usize)
    requires
        old(buffer).wf(),
        is_step_action(a),
    ensures
        final(buffer).wf(),
        steps(a, extend, text@, *old(buffer), *final(buffer), count as nat),
{
    let ghost b0 = *buffer;
    let mut i: usize = 0;
    while i < count
        invariant
            buffer.wf(),
            i <= count,
            is_step_action(a),
            steps(a, extend, text@, b0, *buffer, i as nat),
        decreases count - i,
    {
        let ghost prev = *buffer;
        match a {
            EditorAction::MoveWordForward => movement::move_word_forward(buffer, extend),
            EditorAction::MoveWordBackward => movement::move_word_backward(buffer, extend),
            EditorAction::MoveWordEnd => movement::move_word_end(buffer, extend),
            EditorAction::SelectLine => movement::select_line(buffer, extend),
            EditorAction::PasteAfter => movement::paste_after(buffer, text),
            EditorAction::PasteBefore => movement::paste_before(buffer, text),
            EditorAction::Undo => movement::undo(buffer),
            _ => movement::redo(buffer),
        }
        proof {
            lemma_steps_push(a, extend, text@, b0, prev, *buffer, i as nat);
        }
        i = i + 1;
    }
}

/// One more run extends a run of `n` steps.
proof fn lemma_steps_push(a: EditorAction, extend: bool, text: Seq<char>, b: TextBuf, m: TextBuf, c: TextBuf, n: nat)
    requires
        steps(a, extend, text, b, m, n),
        step(a, extend, text, m, c),
    ensures
        steps(a, extend, text, b, c, n + 1),
{
    reveal_with_fuel(steps, 2);
    let n1 = (n + 1) as nat;
    assert((n1 - 1) as nat == n);
    assert(steps(a, extend, text, b, m, (n1 - 1) as nat) && step(a, extend, text, m, c));
    assert(steps(a, extend, text, b, c, n1));
}

/// The count typed, or one.
fn count_or_one(raw: Option<usize>) -> (r: usize)
    ensures
        r == super::spec::count_of(raw),
{
    match raw {
        Some(c) => c,
        None => 1,
    }
}

/// Motions (and the case toggle) that run once.
pub fn run_single_motion(
    a: EditorAction,
    state: &mut EditorState,
    buffer: &mut TextBuf,
    raw: Option<usize>,
    register: char,
) -> (r: KeyHandleResult)
    requires
        is_single_motion(a),
        old(state).wf(),
        old(buffer).wf(),
        raw matches Some(c) ==> 1 <= c <= MAX_COUNT,
    ensures
        final(state).wf(),
        final(buffer).wf(),
        dispatched(a, *old(state), *old(buffer), raw, register, *final(state), *final(buffer), r),
{
    let extend = state.mode == Mode::Select;
    let count = count_or_one(raw);
    let n = count as i32;
    match a {
        EditorAction::MoveLeft => movement::move_horizontally(buffer, -n, extend),
        EditorAction::MoveRight => movement::move_horizontally(buffer, n, extend),
        EditorAction::MoveUp => movement::move_vertically(buffer, -n, extend),
        EditorAction::MoveDown => movement::move_vertically(buffer, n, extend),
        EditorAction::GotoFileStart => match raw {
            Some(c) => movement::goto_line(buffer, c - 1, extend),
            None => movement::goto_file_start(buffer, extend),
        },
        EditorAction::GotoFileEnd => movement::goto_file_end(buffer, extend),
        EditorAction::GotoLineStart => movement::goto_line_start(buffer, extend),
        EditorAction::GotoLineEnd => movement::goto_line_end(buffer, extend),
        EditorAction::GotoFirstNonWhitespace => movement::goto_first_nonwhitespace(buffer, extend),
        EditorAction::SelectAll => movement::select_all(buffer),
        EditorAction::CollapseSelection => movement::collapse_selection(buffer),
        EditorAction::FlipSelection => movement::flip_selection(buffer),
        EditorAction::MatchBrackets => match_brackets(buffer, state.last_matched_bracket, extend),
        _ => movement::toggle_case(buffer),
    }
    KeyHandleResult::Stop
}

/// Motions that repeat with the count.
pub fn run_repeated_motion(
    a: EditorAction,
    state: &mut EditorState,
    buffer: &mut TextBuf,
    raw: Option<usize>,
    register: char,
) -> (r: KeyHandleResult)
    requires
        is_repeated_motion(a),
        old(state).wf(),
        old(buffer).wf(),
        raw matches Some(c) ==> 1 <= c <= MAX_COUNT,
    ensures
        final(state).wf(),
        final(buffer).wf(),
        dispatched(a, *old(state), *old(buffer), raw, register, *final(state), *final(buffer), r),
{
    let extend = state.mode == Mode::Select;
    let count = count_or_one(raw);
    repeat_step(a, buffer, extend, "", count);
    proof {
        reveal_strlit("");
        assert(""@ =~= Seq::<char>::empty());
    }
    KeyHandleResult::Stop
}

/// Commands that enter a mode.
pub fn run_mode_command(
    a: EditorAction,
    state: &mut EditorState,
    buffer: &mut TextBuf,
    raw: Option<usize>,
    register: char,
) -> (r: KeyHandleResult)
    requires
        is_mode_command(a),
        old(state).wf(),
        old(buffer).wf(),
        raw matches Some(c) ==> 1 <= c <= MAX_COUNT,
    ensures
        final(state).wf(),
        final(buffer).wf(),
        dispatched(a, *old(state), *old(buffer), raw, register, *final(state), *final(buffer), r),
{
    let count = count_or_one(raw);
    match a {
        EditorAction::EnterInsert => {},
        EditorAction::EnterInsertAfter => movement::move_horizontally(buffer, 1, false),
        EditorAction::InsertAtLineStart => movement::insert_at_line_start(buffer),
        EditorAction::InsertAtLineEnd => movement::insert_at_line_end(buffer),
        EditorAction::OpenBelow => movement::open_below(buffer, count),
        EditorAction::OpenAbove => movement::open_above(buffer, count),
        EditorAction::EnterSelect => {
            if state.mode == Mode::Select {
                state.set_mode(Mode::Normal);
                let h = buffer.head;
                buffer.place_cursor(h);
                return KeyHandleResult::ModeChanged(Mode::Normal);
            } else {
                state.set_mode(Mode::Select);
                return KeyHandleResult::ModeChanged(Mode::Select);
            }
        },
        _ => {
            state.set_mode(Mode::Normal);
            let h = buffer.head;
            buffer.place_cursor(h);
            return KeyHandleResult::ModeChanged(Mode::Normal);
        },
    }
    state.set_mode(Mode::Insert);
    KeyHandleResult::ModeChanged(Mode::Insert)
}

/// Commands that read or write registers, and undo and redo.
pub fn run_register_command(
    a: EditorAction,
    state: &mut EditorState,
    buffer: &mut TextBuf,
    raw: Option<usize>,
    register: char,
) -> (r: KeyHandleResult)
    requires
        is_register_command(a),
        old(state).wf(),
        old(buffer).wf(),
        raw matches Some(c) ==> 1 <= c <= MAX_COUNT,
    ensures
        final(state).wf(),
        final(buffer).wf(),
        dispatched(a, *old(state), *old(buffer), raw, register, *final(state), *final(buffer), r),
{
    let extend = state.mode == Mode::Select;
    let count = count_or_one(raw);
    match a {
        EditorAction::DeleteSelection | EditorAction::ChangeSelection => {
            let txt = movement::yank_selection(buffer);
            movement::delete_selection(buffer);
            if !txt.as_str().is_empty() {
                state.registers.write(register, txt.as_str());
            }
            if a == EditorAction::ChangeSelection {
                state.set_mode(Mode::Insert);
                KeyHandleResult::ModeChanged(Mode::Insert)
            } else if state.mode == Mode::Select {
                state.set_mode(Mode::Normal);
                KeyHandleResult::ModeChanged(Mode::Normal)
            } else {
                KeyHandleResult::Stop
            }
        },
        EditorAction::YankSelection | EditorAction::YankToClipboard => {
            let txt = movement::yank_selection(buffer);
            if !txt.as_str().is_empty() {
                if a == EditorAction::YankToClipboard {
                    state.registers.write('+', txt.as_str());
                } else {
                    state.registers.write(register, txt.as_str());
                    if register == '"' {
                        state.registers.write('0', txt.as_str());
                    }
                }
            }
            if state.mode == Mode::Select {
                state.set_mode(Mode::Normal);
                let h = buffer.head;
                buffer.place_cursor(h);
                KeyHandleResult::ModeChanged(Mode::Normal)
            } else {
                KeyHandleResult::Stop
            }
        },
        EditorAction::PasteAfter | EditorAction::PasteBefore => {
            let text = state.registers.read(register).to_owned();
            if !text.as_str().is_empty() {
                repeat_step(a, buffer, extend, text.as_str(), count);
            }
            if state.mode == Mode::Select {
                state.set_mode(Mode::Normal);
                KeyHandleResult::ModeChanged(Mode::Normal)
            } else {
                KeyHandleResult::Stop
            }
        },
        EditorAction::PasteClipboardAfter | EditorAction::PasteClipboardBefore => {
            let text = state.registers.read('+').to_owned();
            let kind = if a == EditorAction::PasteClipboardAfter {
                EditorAction::PasteAfter
            } else {
                EditorAction::PasteBefore
            };
            if !text.as_str().is_empty() {
                repeat_step(kind, buffer, extend, text.as_str(), count);
            }
            KeyHandleResult::Stop
        },
        _ => {
            repeat_step(a, buffer, extend, "", count);
            proof {
                reveal_strlit("");
                assert(""@ =~= Seq::<char>::empty());
            }
            if state.mode == Mode::Select {
                state.set_mode(Mode::Normal);
                KeyHandleResult::ModeChanged(Mode::Normal)
            } else {
                KeyHandleResult::Stop
            }
        },
    }
}

/// What the next key is taken for after `a`.
fn purpose_of(a: EditorAction) -> (r: NextKey)
    ensures
        r == pending_purpose(a),
{
    match a {
        EditorAction::SurroundAdd => NextKey::SurroundAdd,
        EditorAction::SurroundDelete => NextKey::SurroundDelete,
        EditorAction::SurroundReplace => NextKey::SurroundReplaceFrom,
        EditorAction::SelectTextObjectAround => NextKey::TextObjectAround,
        EditorAction::SelectTextObjectInner => NextKey::TextObjectInner,
        EditorAction::Replace => NextKey::ReplaceChar,
        _ => NextKey::SelectRegister,
    }
}

/// Commands that wait for one more key; choosing a register also shows
/// the register overlay.
pub fn run_pending_command(
    a: EditorAction,
    state: &mut EditorState,
    buffer: &mut TextBuf,
    raw: Option<usize>,
    register: char,
) -> (r: KeyHandleResult)
    requires
        is_pending_command(a),
        old(state).wf(),
        old(buffer).wf(),
    ensures
        final(state).wf(),
        final(buffer).wf(),
        dispatched(a, *old(state), *old(buffer), raw, register, *final(state), *final(buffer), r),
{
    if a == EditorAction::SelectRegister {
        state.next_key = Some(NextKey::SelectRegister);
        state.which_key = Some(WhichKeyData::from_registers(&state.registers));
    } else {
        state.next_key = Some(purpose_of(a));
    }
    KeyHandleResult::Stop
}

/// Commands on documents and the user interface, and the no-operation.
pub fn run_document_command(
    a: EditorAction,
    state: &mut EditorState,
    buffer: &mut TextBuf,
    raw: Option<usize>,
    register: char,
) -> (r: KeyHandleResult)
    requires
        is_document_command(a),
        old(state).wf(),
        old(buffer).wf(),
    ensures
        final(state).wf(),
        final(buffer).wf(),
        dispatched(a, *old(state), *old(buffer), raw, register, *final(state), *final(buffer), r),
{
    match a {
        EditorAction::GotoNextBuffer => KeyHandleResult::DocumentChanged(state.next_document()),
        EditorAction::GotoPreviousBuffer => KeyHandleResult::DocumentChanged(state.prev_document()),
        EditorAction::FilePicker => KeyHandleResult::OpenFilePicker,
        EditorAction::BufferPicker => KeyHandleResult::OpenBufferPicker,
        EditorAction::CommandPalette => KeyHandleResult::OpenCommandPalette,
        _ => KeyHandleResult::Stop,
    }
}

} // verus!
