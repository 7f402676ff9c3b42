//! The key handler: what a key press does in each mode, with counts,
//! pending chords, keys awaited by a command, and cancellation.

use vstd::prelude::*;
use crate::commands::dispatch;
use crate::commands::spec::{
    dispatched, collapsed, edited, enters, leaves_select, moved_to,
};
use crate::components::which_key::{WhichKeyData, is_node_overlay};
use crate::editor::document::DocumentId;
use crate::editor::state::{EditorState, NextKey, MAX_COUNT};
use crate::keymap::actions::Mode;
use crate::keymap::input::{KeyCode, KeyEvent, KeyModifiers, canonicalize_key, spec_canonical};
use crate::keymap::trie::{KeyTrie, KeyTrieNode, KeyTrieRoot, KeymapResult, is_cancel_key};
use crate::text::buffer::TextBuf;
use crate::text::movement::{replace_char, spec_replace_char};
use crate::text::surround::{
    surround_add, surround_delete, surround_replace, spec_surround_add_text, spec_surround_span,
    spec_surround_delete, spec_surround_replace,
};
use crate::text::textobject::{select_textobject, spec_select_textobject};
use crate::text::movement::fits;
use crate::text::unicode::{is_ascii_digit, ascii_digit_value, string_from_chars};

verus! {

/// What the view does after a key was handled.
#[derive(Debug, Clone, Copy, PartialEq, Eq, Structural)]
pub enum KeyHandleResult {
    /// The key was consumed.
    Stop,
    /// The key goes on to the text view (insert mode).
    Propagate,
    /// The mode changed; the view shows the new one.
    ModeChanged(Mode),
    /// Another document became current; the view shows its buffer.
    DocumentChanged(DocumentId),
    /// The file picker is asked for.
    OpenFilePicker,
    /// The buffer picker is asked for.
    OpenBufferPicker,
    /// The command palette is asked for.
    OpenCommandPalette,
    /// The application should quit.
    Quit,
}

/// `c` is `b` with the selection surrounded by the pair of `ch`, when the
/// text can grow by two characters; otherwise `b` unchanged.
pub open spec fn surround_added(b: TextBuf, c: TextBuf, ch: char) -> bool {
    if fits(b.n() + 2) {
        TextBuf::is_edit(
            b,
            c,
            spec_surround_add_text(b, ch),
            spec_surround_span(b).0,
            spec_surround_span(b).1 + 2,
        )
    } else {
        c == b
    }
}

/// What the key `k` awaited for `p` does, from state `s0` (with nothing
/// awaited any more and no overlay) and buffer `b0`. A key that is not a
/// character does nothing.
pub open spec fn next_key_done(
    p: NextKey,
    k: KeyEvent,
    s0: EditorState,
    b0: TextBuf,
    s1: EditorState,
    b1: TextBuf,
    r: KeyHandleResult,
) -> bool {
    match k.code {
        KeyCode::Char(ch) => match p {
            NextKey::SelectRegister => {
                &&& b1 == b0
                &&& r == KeyHandleResult::Stop
                &&& s1 == (EditorState { selected_register: Some(ch), ..s0 })
            },
            NextKey::SurroundAdd => surround_added(b0, b1, ch) && leaves_select(s0, s1, r),
            NextKey::SurroundDelete => edited(b0, b1, spec_surround_delete(b0, ch)) && leaves_select(
                s0,
                s1,
                r,
            ),
            NextKey::SurroundReplaceFrom => {
                &&& b1 == b0
                &&& r == KeyHandleResult::Stop
                &&& s1 == (EditorState { next_key: Some(NextKey::SurroundReplaceTo(ch)), ..s0 })
            },
            NextKey::SurroundReplaceTo(from) => edited(b0, b1, spec_surround_replace(b0, from, ch))
                && leaves_select(s0, s1, r),
            NextKey::TextObjectAround => {
                &&& moved_to(b0, b1, spec_select_textobject(b0, ch, false))
                &&& s1 == s0
                &&& r == KeyHandleResult::Stop
            },
            NextKey::TextObjectInner => {
                &&& moved_to(b0, b1, spec_select_textobject(b0, ch, true))
                &&& s1 == s0
                &&& r == KeyHandleResult::Stop
            },
            NextKey::ReplaceChar => {
                &&& edited(b0, b1, spec_replace_char(b0, seq![ch]))
                &&& s1 == s0
                &&& r == KeyHandleResult::Stop
            },
        },
        _ => b1 == b0 && s1 == s0 && r == KeyHandleResult::Stop,
    }
}

/// Runs what the key `key` was awaited for (`p`).
fn run_next_key(p: NextKey, state: &mut EditorState, buffer: &mut TextBuf, key: KeyEvent) -> (r: KeyHandleResult)
    requires
        old(state).wf(),
        old(buffer).wf(),
    ensures
        final(state).wf(),
        final(buffer).wf(),
        next_key_done(p, key, *old(state), *old(buffer), *final(state), *final(buffer), r),
{
    let ch = match key.code {
        KeyCode::Char(c) => c,
        _ => {
            return KeyHandleResult::Stop;
        },
    };
    match p {
        NextKey::SelectRegister => {
            state.selected_register = Some(ch);
            return KeyHandleResult::Stop;
        },
        NextKey::SurroundAdd => surround_add(buffer, ch),
        NextKey::SurroundDelete => surround_delete(buffer, ch),
        NextKey::SurroundReplaceFrom => {
            state.next_key = Some(NextKey::SurroundReplaceTo(ch));
            return KeyHandleResult::Stop;
        },
        NextKey::SurroundReplaceTo(from) => surround_replace(buffer, from, ch),
        NextKey::TextObjectAround => {
            select_textobject(buffer, ch, false);
            return KeyHandleResult::Stop;
        },
        NextKey::TextObjectInner => {
            select_textobject(buffer, ch, true);
            return KeyHandleResult::Stop;
        },
        NextKey::ReplaceChar => {
            let v = vec![ch];
            let text = string_from_chars(&v);
            assert(v@ =~= seq![ch]);
            replace_char(buffer, text.as_str());
            return KeyHandleResult::Stop;
        },
    }
    if state.mode == Mode::Select {
        state.set_mode(Mode::Normal);
        KeyHandleResult::ModeChanged(Mode::Normal)
    } else {
        KeyHandleResult::Stop
    }
}

/// The value of a digit typed with no modifier, as a count is typed.
pub open spec fn count_digit(k: KeyEvent) -> Option<int> {
    match k.code {
        KeyCode::Char(c) => if k.modifiers == KeyModifiers::spec_empty() && '0' <= c && c <= '9' {
            Some(c as int - '0' as int)
        } else {
            None
        },
        _ => None,
    }
}

/// Whether `k` is bound in the sticky node or at the top of `mode`'s trie.
pub open spec fn root_binds(root: KeyTrieRoot, mode: Mode, k: KeyEvent) -> bool {
    ||| (root.sticky matches Some(n) && n.map.spec_get(k) is Some)
    ||| (root.map.spec_get(mode) matches Some(KeyTrie::Node(n)) && n.map.spec_get(k) is Some)
}

/// The register a command uses: the one chosen, or the default `"`.
pub open spec fn register_or_default(sel: Option<char>) -> char {
    match sel {
        Some(c) => c,
        None => '"',
    }
}

/// The overlay shown while a sticky node is active: its keys; none without
/// one.
pub open spec fn sticky_overlay(sticky: Option<KeyTrieNode>, w: Option<WhichKeyData>) -> bool {
    match sticky {
        Some(n) => w matches Some(o) && is_node_overlay(o, n),
        None => w is None,
    }
}

/// What follows a keymap lookup that answered `g` and left the keymap
/// `km`: a pending chord shows its overlay; a match runs the action with
/// the count and register chosen (both then consumed), showing the sticky
/// node's overlay; anything else drops the count, the register and the
/// overlay.
pub open spec fn after_lookup(
    g: KeymapResult,
    km: KeyTrieRoot,
    s0: EditorState,
    b0: TextBuf,
    s1: EditorState,
    b1: TextBuf,
    r: KeyHandleResult,
) -> bool {
    match g {
        KeymapResult::Pending(m) => {
            &&& b1 == b0
            &&& r == KeyHandleResult::Stop
            &&& s1 == (EditorState { keymap: km, which_key: s1.which_key, ..s0 })
            &&& s1.which_key matches Some(w) && is_node_overlay(w, m)
        },
        KeymapResult::Matched(a) => exists|mid: EditorState|
            #[trigger] dispatched(
                a,
                mid,
                b0,
                s0.count,
                register_or_default(s0.selected_register),
                s1,
                b1,
                r,
            ) && mid == (EditorState {
                keymap: km,
                which_key: mid.which_key,
                count: None,
                selected_register: None,
                ..s0
            }) && sticky_overlay(km.sticky, mid.which_key),
        _ => {
            &&& b1 == b0
            &&& r == KeyHandleResult::Stop
            &&& s1 == (EditorState {
                keymap: km,
                count: None,
                selected_register: None,
                which_key: None,
                ..s0
            })
        },
    }
}

/// The key `k` looked up in the keymap of the current mode (see
/// `KeyTrieRoot::trie_step`), and what follows (`after_lookup`).
pub open spec fn looked_up(s0: EditorState, b0: TextBuf, k: KeyEvent, s1: EditorState, b1: TextBuf, r: KeyHandleResult) -> bool {
    exists|g: KeymapResult, km: KeyTrieRoot|
        #[trigger] KeyTrieRoot::trie_step(s0.keymap, km, s0.mode, k, g) && km.map == s0.keymap.map
            && km.wf() && after_lookup(g, km, s0, b0, s1, b1, r)
}

/// What a key press does, from state `s0` and buffer `b0`. The key is
/// first made canonical. Esc and Control-g cancel: what was awaited, the
/// count, the register and the overlay are dropped; then pending keys are
/// dropped, or insert and select mode go back to normal mode with the
/// selection collapsed. A key awaited by a command goes to it. In insert
/// mode keys go on to the text view. A digit extends a count being typed
/// (up to `MAX_COUNT`), and a digit other than `0` that is not bound
/// starts one. Any other key goes through the keymap (`looked_up`).
pub open spec fn key_handled(s0: EditorState, b0: TextBuf, key: KeyEvent, s1: EditorState, b1: TextBuf, r: KeyHandleResult) -> bool {
    let k = spec_canonical(key);
    let cleared = EditorState {
        next_key: None,
        count: None,
        selected_register: None,
        which_key: None,
        ..s0
    };
    if is_cancel_key(k) {
        if s0.keymap.spec_pending().len() > 0 {
            &&& b1 == b0
            &&& r == KeyHandleResult::Stop
            &&& s1 == (EditorState { keymap: s1.keymap, ..cleared })
            &&& s1.keymap.map == s0.keymap.map
            &&& s1.keymap.sticky == s0.keymap.sticky
            &&& s1.keymap.spec_pending().len() == 0
        } else if s0.mode == Mode::Insert || s0.mode == Mode::Select {
            collapsed(b0, b1) && enters(cleared, s1, Mode::Normal, r)
        } else {
            b1 == b0 && s1 == cleared && r == KeyHandleResult::Stop
        }
    } else {
        match s0.next_key {
            Some(p) => next_key_done(p, k, EditorState { next_key: None, which_key: None, ..s0 }, b0, s1, b1, r),
            None => if s0.mode == Mode::Insert {
                b1 == b0 && s1 == s0 && r == KeyHandleResult::Propagate
            } else {
                match count_digit(k) {
                    Some(d) => match s0.count {
                        Some(cur) => {
                            let c = cur * 10 + d;
                            &&& b1 == b0
                            &&& r == KeyHandleResult::Stop
                            &&& s1 == (EditorState {
                                count: Some((if c < MAX_COUNT { c } else { MAX_COUNT as int }) as usize),
                                ..s0
                            })
                        },
                        None => if d > 0 && !root_binds(s0.keymap, s0.mode, k) {
                            &&& b1 == b0
                            &&& r == KeyHandleResult::Stop
                            &&& s1 == (EditorState { count: Some(d as usize), ..s0 })
                        } else {
                            looked_up(s0, b0, k, s1, b1, r)
                        },
                    },
                    None => looked_up(s0, b0, k, s1, b1, r),
                }
            },
        }
    }
}

/// Handles one key press; see `key_handled`.
pub fn handle_key(state: &mut EditorState, buffer: &mut TextBuf, key: KeyEvent) -> (r: KeyHandleResult)
    requires
        old(state).wf(),
        old(buffer).wf(),
    ensures
        final(state).wf(),
        final(buffer).wf(),
        key_handled(*old(state), *old(buffer), key, *final(state), *final(buffer), r),
{
    let ghost s0 = *state;
    let ghost b0 = *buffer;
    let mut key = key;
    canonicalize_key(&mut key);
    let is_cancel = key.code == KeyCode::Esc || (key.code == KeyCode::Char('g') && key.modifiers.contains(
        KeyModifiers::control(),
    ));
    if is_cancel {
        state.next_key = None;
        state.count = None;
        state.selected_register = None;
        state.which_key = None;
        if state.keymap.pending().len() > 0 {
            state.keymap.clear_pending();
            return KeyHandleResult::Stop;
        }
        if state.mode == Mode::Insert || state.mode == Mode::Select {
            state.set_mode(Mode::Normal);
            let h = buffer.head;
            buffer.place_cursor(h);
            return KeyHandleResult::ModeChanged(Mode::Normal);
        }
        return KeyHandleResult::Stop;
    }
    if let Some(p) = state.next_key {
        state.next_key = None;
        state.which_key = None;
        return run_next_key(p, state, buffer, key);
    }
    if state.mode == Mode::Insert {
        return KeyHandleResult::Propagate;
    }
    if let KeyCode::Char(c) = key.code {
        if key.modifiers.is_empty() && is_ascii_digit(c) {
            let d = ascii_digit_value(c) as usize;
            match state.count {
                Some(cur) => {
                    let nc = cur * 10 + d;
                    state.count = Some(if nc < MAX_COUNT { nc } else { MAX_COUNT });
                    return KeyHandleResult::Stop;
                },
                None => {
                    if d > 0 && !state.keymap.contains_key(state.mode, key) {
                        state.count = Some(d);
                        return KeyHandleResult::Stop;
                    }
                },
            }
        }
    }
    let mode = state.mode;
    let result = state.keymap.get(mode, key);
    let ghost km = state.keymap;
    match result {
        KeymapResult::Pending(node) => {
            state.which_key = Some(WhichKeyData::from_trie_node(&node));
            KeyHandleResult::Stop
        },
        KeymapResult::Matched(action) => {
            state.which_key = match &state.keymap.sticky {
                Some(n) => Some(WhichKeyData::from_trie_node(n)),
                None => None,
            };
            let raw = state.count;
            state.count = None;
            let register = match state.selected_register {
                Some(c) => c,
                None => '"',
            };
            state.selected_register = None;
            let ghost mid = *state;
            let r = dispatch(action, state, buffer, raw, register);
            proof {
                assert(dispatched(action, mid, b0, s0.count, register_or_default(s0.selected_register), *state, *buffer, r));
            }
            r
        },
        _ => {
            state.count = None;
            state.selected_register = None;
            state.which_key = None;
            KeyHandleResult::Stop
        },
    }
}

} // verus!
