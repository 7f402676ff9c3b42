//! What each editor action does to the editor state and the text buffer.
//!
//! `dispatch` runs an action; `dispatched` states its effect. Motions and
//! edits act on the buffer through `text`, register commands read and
//! write the registers, mode commands enter a mode, and commands that wait
//! for one more key record what it is for (`NextKey`).

pub mod spec;
pub mod run;
pub mod ex;

use vstd::prelude::*;
use crate::components::controller::KeyHandleResult;
use crate::editor::state::{EditorState, MAX_COUNT};
use crate::keymap::actions::EditorAction;
use crate::text::buffer::TextBuf;
use self::spec::{dispatched, is_single_motion, is_repeated_motion, is_mode_command, is_register_command,
    is_pending_command};
use self::run::{run_single_motion, run_repeated_motion, run_mode_command, run_register_command,
    run_pending_command, run_document_command};

verus! {

/// Runs `action` with the count typed (`raw_count`; one when none) and the
/// register chosen (`register`). The effect is `dispatched`.
pub fn dispatch(
    action: EditorAction,
    state: &mut EditorState,
    buffer: &mut TextBuf,
    raw_count: Option<usize>,
    register: char,
) -> (r: KeyHandleResult)
    requires
        old(state).wf(),
        old(buffer).wf(),
        raw_count matches Some(c) ==> 1 <= c <= MAX_COUNT,
    ensures
        final(state).wf(),
        final(buffer).wf(),
        dispatched(action, *old(state), *old(buffer), raw_count, register, *final(state), *final(buffer), r),
{
    if is_single_motion_exec(action) {
        run_single_motion(action, state, buffer, raw_count, register)
    } else if is_repeated_motion_exec(action) {
        run_repeated_motion(action, state, buffer, raw_count, register)
    } else if is_mode_command_exec(action) {
        run_mode_command(action, state, buffer, raw_count, register)
    } else if is_register_command_exec(action) {
        run_register_command(action, state, buffer, raw_count, register)
    } else if is_pending_command_exec(action) {
        run_pending_command(action, state, buffer, raw_count, register)
    } else {
        run_document_command(action, state, buffer, raw_count, register)
    }
}

fn is_single_motion_exec(a: EditorAction) -> (r: bool)
    ensures
        r == is_single_motion(a),
{
    match a {
        EditorAction::MoveLeft | EditorAction::MoveRight | EditorAction::MoveUp | EditorAction::MoveDown
        | EditorAction::GotoFileStart | EditorAction::GotoFileEnd | EditorAction::GotoLineStart
        | EditorAction::GotoLineEnd | EditorAction::GotoFirstNonWhitespace | EditorAction::SelectAll
        | EditorAction::CollapseSelection | EditorAction::FlipSelection | EditorAction::MatchBrackets
        | EditorAction::ToggleCase => true,
        _ => false,
    }
}

fn is_repeated_motion_exec(a: EditorAction) -> (r: bool)
    ensures
        r == is_repeated_motion(a),
{
    match a {
        EditorAction::MoveWordForward | EditorAction::MoveWordBackward | EditorAction::MoveWordEnd
        | EditorAction::SelectLine => true,
        _ => false,
    }
}

fn is_mode_command_exec(a: EditorAction) -> (r: bool)
    ensures
        r == is_mode_command(a),
{
    match a {
        EditorAction::EnterInsert | EditorAction::EnterInsertAfter | EditorAction::InsertAtLineStart
        | EditorAction::InsertAtLineEnd | EditorAction::OpenBelow | EditorAction::OpenAbove
        | EditorAction::EnterSelect | EditorAction::ExitToNormal => true,
        _ => false,
    }
}

fn is_register_command_exec(a: EditorAction) -> (r: bool)
    ensures
        r == is_register_command(a),
{
    match a {
        EditorAction::DeleteSelection | EditorAction::ChangeSelection | EditorAction::YankSelection
        | EditorAction::YankToClipboard | EditorAction::PasteAfter | EditorAction::PasteBefore
        | EditorAction::PasteClipboardAfter | EditorAction::PasteClipboardBefore | EditorAction::Undo
        | EditorAction::Redo => true,
        _ => false,
    }
}

fn is_pending_command_exec(a: EditorAction) -> (r: bool)
    ensures
        r == is_pending_command(a),
{
    match a {
        EditorAction::SurroundAdd | EditorAction::SurroundDelete | EditorAction::SurroundReplace
        | EditorAction::SelectTextObjectAround | EditorAction::SelectTextObjectInner
        | EditorAction::Replace | EditorAction::SelectRegister => true,
        _ => false,
    }
}

} // verus!
