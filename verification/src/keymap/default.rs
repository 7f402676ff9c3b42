//! The default keymap and its prefix nodes.

use vstd::prelude::*;
use super::actions::EditorAction;
use super::input::{KeyCode, KeyEvent, KeyModifiers, char_key, plain_key};
use super::trie::{KeyTrie, KeyTrieNode, ModeMap, entries_wf, trie_plain};

verus! {

/// Alt-`;`.
pub open spec fn alt_semicolon() -> KeyEvent {
    KeyEvent { code: KeyCode::Char(';'), modifiers: KeyModifiers { alt: true, ..KeyModifiers::spec_empty() } }
}

/// The match node: `m` matching brackets, `s`, `d`, `r` adding, deleting and
/// replacing surround pairs, `a` and `i` selecting around or inside text objects.
pub open spec fn is_match_node(n: KeyTrieNode) -> bool {
    &&& n.name@ == "Match"@
    &&& !n.is_sticky
    &&& n.map.entries@.len() == 6
    &&& entries_wf(n.map.entries@)
    &&& n.map.spec_get(char_key('m')) == Some(KeyTrie::Leaf(EditorAction::MatchBrackets))
    &&& n.map.spec_get(char_key('s')) == Some(KeyTrie::Leaf(EditorAction::SurroundAdd))
    &&& n.map.spec_get(char_key('d')) == Some(KeyTrie::Leaf(EditorAction::SurroundDelete))
    &&& n.map.spec_get(char_key('r')) == Some(KeyTrie::Leaf(EditorAction::SurroundReplace))
    &&& n.map.spec_get(char_key('a')) == Some(KeyTrie::Leaf(EditorAction::SelectTextObjectAround))
    &&& n.map.spec_get(char_key('i')) == Some(KeyTrie::Leaf(EditorAction::SelectTextObjectInner))
}

/// The space node: `y` yanking to the clipboard, `p` and `P` pasting from it,
/// `f` and `b` opening the file and buffer pickers.
pub open spec fn is_space_node(n: KeyTrieNode) -> bool {
    &&& n.name@ == "Space"@
    &&& !n.is_sticky
    &&& n.map.entries@.len() == 5
    &&& entries_wf(n.map.entries@)
    &&& n.map.spec_get(char_key('y')) == Some(KeyTrie::Leaf(EditorAction::YankToClipboard))
    &&& n.map.spec_get(char_key('p')) == Some(KeyTrie::Leaf(EditorAction::PasteClipboardAfter))
    &&& n.map.spec_get(char_key('P')) == Some(KeyTrie::Leaf(EditorAction::PasteClipboardBefore))
    &&& n.map.spec_get(char_key('f')) == Some(KeyTrie::Leaf(EditorAction::FilePicker))
    &&& n.map.spec_get(char_key('b')) == Some(KeyTrie::Leaf(EditorAction::BufferPicker))
}

/// The goto node: `g` file start, `e` file end, `h` line start, `l` line end,
/// `s` first non-whitespace character, `n` and `p` the next and previous buffer.
pub open spec fn is_goto_node(n: KeyTrieNode) -> bool {
    &&& n.name@ == "Goto"@
    &&& !n.is_sticky
    &&& n.map.entries@.len() == 7
    &&& entries_wf(n.map.entries@)
    &&& n.map.spec_get(char_key('g')) == Some(KeyTrie::Leaf(EditorAction::GotoFileStart))
    &&& n.map.spec_get(char_key('e')) == Some(KeyTrie::Leaf(EditorAction::GotoFileEnd))
    &&& n.map.spec_get(char_key('h')) == Some(KeyTrie::Leaf(EditorAction::GotoLineStart))
    &&& n.map.spec_get(char_key('l')) == Some(KeyTrie::Leaf(EditorAction::GotoLineEnd))
    &&& n.map.spec_get(char_key('s')) == Some(KeyTrie::Leaf(EditorAction::GotoFirstNonWhitespace))
    &&& n.map.spec_get(char_key('n')) == Some(KeyTrie::Leaf(EditorAction::GotoNextBuffer))
    &&& n.map.spec_get(char_key('p')) == Some(KeyTrie::Leaf(EditorAction::GotoPreviousBuffer))
}

/// The normal mode keymap.
pub open spec fn is_normal_node(n: KeyTrieNode) -> bool {
    &&& n.name@ == "Normal mode"@
    &&& !n.is_sticky
    &&& n.map.entries@.len() == 36
    &&& entries_wf(n.map.entries@)
    &&& n.map.spec_get(char_key('h')) == Some(KeyTrie::Leaf(EditorAction::MoveLeft))
    &&& n.map.spec_get(char_key('j')) == Some(KeyTrie::Leaf(EditorAction::MoveDown))
    &&& n.map.spec_get(char_key('k')) == Some(KeyTrie::Leaf(EditorAction::MoveUp))
    &&& n.map.spec_get(char_key('l')) == Some(KeyTrie::Leaf(EditorAction::MoveRight))
    &&& n.map.spec_get(char_key('w')) == Some(KeyTrie::Leaf(EditorAction::MoveWordForward))
    &&& n.map.spec_get(char_key('b')) == Some(KeyTrie::Leaf(EditorAction::MoveWordBackward))
    &&& n.map.spec_get(char_key('e')) == Some(KeyTrie::Leaf(EditorAction::MoveWordEnd))
    &&& n.map.spec_get(char_key('x')) == Some(KeyTrie::Leaf(EditorAction::SelectLine))
    &&& n.map.spec_get(char_key('i')) == Some(KeyTrie::Leaf(EditorAction::EnterInsert))
    &&& n.map.spec_get(char_key('I')) == Some(KeyTrie::Leaf(EditorAction::InsertAtLineStart))
    &&& n.map.spec_get(char_key('a')) == Some(KeyTrie::Leaf(EditorAction::EnterInsertAfter))
    &&& n.map.spec_get(char_key('A')) == Some(KeyTrie::Leaf(EditorAction::InsertAtLineEnd))
    &&& n.map.spec_get(char_key('v')) == Some(KeyTrie::Leaf(EditorAction::EnterSelect))
    &&& n.map.spec_get(char_key('d')) == Some(KeyTrie::Leaf(EditorAction::DeleteSelection))
    &&& n.map.spec_get(char_key('c')) == Some(KeyTrie::Leaf(EditorAction::ChangeSelection))
    &&& n.map.spec_get(char_key('y')) == Some(KeyTrie::Leaf(EditorAction::YankSelection))
    &&& n.map.spec_get(char_key('p')) == Some(KeyTrie::Leaf(EditorAction::PasteAfter))
    &&& n.map.spec_get(char_key('P')) == Some(KeyTrie::Leaf(EditorAction::PasteBefore))
    &&& n.map.spec_get(char_key('u')) == Some(KeyTrie::Leaf(EditorAction::Undo))
    &&& n.map.spec_get(char_key('U')) == Some(KeyTrie::Leaf(EditorAction::Redo))
    &&& n.map.spec_get(char_key('"')) == Some(KeyTrie::Leaf(EditorAction::SelectRegister))
    &&& n.map.spec_get(char_key('o')) == Some(KeyTrie::Leaf(EditorAction::OpenBelow))
    &&& n.map.spec_get(char_key('O')) == Some(KeyTrie::Leaf(EditorAction::OpenAbove))
    &&& n.map.spec_get(char_key('r')) == Some(KeyTrie::Leaf(EditorAction::Replace))
    &&& n.map.spec_get(char_key('%')) == Some(KeyTrie::Leaf(EditorAction::SelectAll))
    &&& n.map.spec_get(char_key(';')) == Some(KeyTrie::Leaf(EditorAction::CollapseSelection))
    &&& n.map.spec_get(alt_semicolon()) == Some(KeyTrie::Leaf(EditorAction::FlipSelection))
    &&& n.map.spec_get(char_key('~')) == Some(KeyTrie::Leaf(EditorAction::ToggleCase))
    &&& n.map.spec_get(char_key('g')) matches Some(KeyTrie::Node(c)) && is_goto_node(c)
    &&& n.map.spec_get(char_key('m')) matches Some(KeyTrie::Node(c)) && is_match_node(c)
    &&& n.map.spec_get(char_key(' ')) matches Some(KeyTrie::Node(c)) && is_space_node(c)
    &&& n.map.spec_get(char_key(':')) == Some(KeyTrie::Leaf(EditorAction::CommandPalette))
    &&& n.map.spec_get(plain_key(KeyCode::Left)) == Some(KeyTrie::Leaf(EditorAction::MoveLeft))
    &&& n.map.spec_get(plain_key(KeyCode::Right)) == Some(KeyTrie::Leaf(EditorAction::MoveRight))
    &&& n.map.spec_get(plain_key(KeyCode::Up)) == Some(KeyTrie::Leaf(EditorAction::MoveUp))
    &&& n.map.spec_get(plain_key(KeyCode::Down)) == Some(KeyTrie::Leaf(EditorAction::MoveDown))
}

/// The select mode keymap.
pub open spec fn is_select_node(n: KeyTrieNode) -> bool {
    &&& n.name@ == "Select mode"@
    &&& !n.is_sticky
    &&& n.map.entries@.len() == 30
    &&& entries_wf(n.map.entries@)
    &&& n.map.spec_get(char_key('h')) == Some(KeyTrie::Leaf(EditorAction::MoveLeft))
    &&& n.map.spec_get(char_key('j')) == Some(KeyTrie::Leaf(EditorAction::MoveDown))
    &&& n.map.spec_get(char_key('k')) == Some(KeyTrie::Leaf(EditorAction::MoveUp))
    &&& n.map.spec_get(char_key('l')) == Some(KeyTrie::Leaf(EditorAction::MoveRight))
    &&& n.map.spec_get(char_key('w')) == Some(KeyTrie::Leaf(EditorAction::MoveWordForward))
    &&& n.map.spec_get(char_key('b')) == Some(KeyTrie::Leaf(EditorAction::MoveWordBackward))
    &&& n.map.spec_get(char_key('e')) == Some(KeyTrie::Leaf(EditorAction::MoveWordEnd))
    &&& n.map.spec_get(char_key('x')) == Some(KeyTrie::Leaf(EditorAction::SelectLine))
    &&& n.map.spec_get(char_key('I')) == Some(KeyTrie::Leaf(EditorAction::InsertAtLineStart))
    &&& n.map.spec_get(char_key('A')) == Some(KeyTrie::Leaf(EditorAction::InsertAtLineEnd))
    &&& n.map.spec_get(char_key('d')) == Some(KeyTrie::Leaf(EditorAction::DeleteSelection))
    &&& n.map.spec_get(char_key('c')) == Some(KeyTrie::Leaf(EditorAction::ChangeSelection))
    &&& n.map.spec_get(char_key('y')) == Some(KeyTrie::Leaf(EditorAction::YankSelection))
    &&& n.map.spec_get(char_key('p')) == Some(KeyTrie::Leaf(EditorAction::PasteAfter))
    &&& n.map.spec_get(char_key('P')) == Some(KeyTrie::Leaf(EditorAction::PasteBefore))
    &&& n.map.spec_get(char_key('"')) == Some(KeyTrie::Leaf(EditorAction::SelectRegister))
    &&& n.map.spec_get(char_key('o')) == Some(KeyTrie::Leaf(EditorAction::OpenBelow))
    &&& n.map.spec_get(char_key('O')) == Some(KeyTrie::Leaf(EditorAction::OpenAbove))
    &&& n.map.spec_get(char_key('r')) == Some(KeyTrie::Leaf(EditorAction::Replace))
    &&& n.map.spec_get(char_key('%')) == Some(KeyTrie::Leaf(EditorAction::SelectAll))
    &&& n.map.spec_get(char_key(';')) == Some(KeyTrie::Leaf(EditorAction::CollapseSelection))
    &&& n.map.spec_get(alt_semicolon()) == Some(KeyTrie::Leaf(EditorAction::FlipSelection))
    &&& n.map.spec_get(char_key('~')) == Some(KeyTrie::Leaf(EditorAction::ToggleCase))
    &&& n.map.spec_get(char_key('g')) matches Some(KeyTrie::Node(c)) && is_goto_node(c)
    &&& n.map.spec_get(plain_key(KeyCode::Left)) == Some(KeyTrie::Leaf(EditorAction::MoveLeft))
    &&& n.map.spec_get(plain_key(KeyCode::Right)) == Some(KeyTrie::Leaf(EditorAction::MoveRight))
    &&& n.map.spec_get(plain_key(KeyCode::Up)) == Some(KeyTrie::Leaf(EditorAction::MoveUp))
    &&& n.map.spec_get(plain_key(KeyCode::Down)) == Some(KeyTrie::Leaf(EditorAction::MoveDown))
    &&& n.map.spec_get(char_key('m')) matches Some(KeyTrie::Node(c)) && is_match_node(c)
    &&& n.map.spec_get(char_key(' ')) matches Some(KeyTrie::Node(c)) && is_space_node(c)
}

/// The insert mode keymap: no key (Esc is handled before any trie).
pub open spec fn is_insert_node(n: KeyTrieNode) -> bool {
    &&& n.name@ == "Insert mode"@
    &&& !n.is_sticky
    &&& n.map.entries@.len() == 0
    &&& entries_wf(n.map.entries@)
}

/// The match node (`m`): see `is_match_node`.
pub fn build_match_node() -> (r: KeyTrieNode)
    ensures
        is_match_node(r),
        trie_plain(KeyTrie::Node(r)),
{
    let mut match_node = KeyTrieNode::new("Match");
    match_node.insert(KeyEvent::char('m'), KeyTrie::Leaf(EditorAction::MatchBrackets));
    match_node.insert(KeyEvent::char('s'), KeyTrie::Leaf(EditorAction::SurroundAdd));
    match_node.insert(KeyEvent::char('d'), KeyTrie::Leaf(EditorAction::SurroundDelete));
    match_node.insert(KeyEvent::char('r'), KeyTrie::Leaf(EditorAction::SurroundReplace));
    match_node.insert(KeyEvent::char('a'), KeyTrie::Leaf(EditorAction::SelectTextObjectAround));
    match_node.insert(KeyEvent::char('i'), KeyTrie::Leaf(EditorAction::SelectTextObjectInner));
    match_node
}

/// The space node: see `is_space_node`.
pub fn build_space_node() -> (r: KeyTrieNode)
    ensures
        is_space_node(r),
        trie_plain(KeyTrie::Node(r)),
{
    let mut space_node = KeyTrieNode::new("Space");
    space_node.insert(KeyEvent::char('y'), KeyTrie::Leaf(EditorAction::YankToClipboard));
    space_node.insert(KeyEvent::char('p'), KeyTrie::Leaf(EditorAction::PasteClipboardAfter));
    space_node.insert(KeyEvent::char('P'), KeyTrie::Leaf(EditorAction::PasteClipboardBefore));
    space_node.insert(KeyEvent::char('f'), KeyTrie::Leaf(EditorAction::FilePicker));
    space_node.insert(KeyEvent::char('b'), KeyTrie::Leaf(EditorAction::BufferPicker));
    space_node
}

/// The goto node (`g`): see `is_goto_node`.
pub fn build_goto_node() -> (r: KeyTrieNode)
    ensures
        is_goto_node(r),
        trie_plain(KeyTrie::Node(r)),
{
    let mut goto_node = KeyTrieNode::new("Goto");
    goto_node.insert(KeyEvent::char('g'), KeyTrie::Leaf(EditorAction::GotoFileStart));
    goto_node.insert(KeyEvent::char('e'), KeyTrie::Leaf(EditorAction::GotoFileEnd));
    goto_node.insert(KeyEvent::char('h'), KeyTrie::Leaf(EditorAction::GotoLineStart));
    goto_node.insert(KeyEvent::char('l'), KeyTrie::Leaf(EditorAction::GotoLineEnd));
    goto_node.insert(KeyEvent::char('s'), KeyTrie::Leaf(EditorAction::GotoFirstNonWhitespace));
    goto_node.insert(KeyEvent::char('n'), KeyTrie::Leaf(EditorAction::GotoNextBuffer));
    goto_node.insert(KeyEvent::char('p'), KeyTrie::Leaf(EditorAction::GotoPreviousBuffer));
    goto_node
}

/// The normal mode keymap: see `is_normal_node`.
pub fn normal_node() -> (r: KeyTrieNode)
    ensures
        is_normal_node(r),
        trie_plain(KeyTrie::Node(r)),
{
    let mut normal = KeyTrieNode::new("Normal mode");
    normal.insert(KeyEvent::char('h'), KeyTrie::Leaf(EditorAction::MoveLeft));
    normal.insert(KeyEvent::char('j'), KeyTrie::Leaf(EditorAction::MoveDown));
    normal.insert(KeyEvent::char('k'), KeyTrie::Leaf(EditorAction::MoveUp));
    normal.insert(KeyEvent::char('l'), KeyTrie::Leaf(EditorAction::MoveRight));
    normal.insert(KeyEvent::char('w'), KeyTrie::Leaf(EditorAction::MoveWordForward));
    normal.insert(KeyEvent::char('b'), KeyTrie::Leaf(EditorAction::MoveWordBackward));
    normal.insert(KeyEvent::char('e'), KeyTrie::Leaf(EditorAction::MoveWordEnd));
    normal.insert(KeyEvent::char('x'), KeyTrie::Leaf(EditorAction::SelectLine));
    normal.insert(KeyEvent::char('i'), KeyTrie::Leaf(EditorAction::EnterInsert));
    normal.insert(KeyEvent::char('I'), KeyTrie::Leaf(EditorAction::InsertAtLineStart));
    normal.insert(KeyEvent::char('a'), KeyTrie::Leaf(EditorAction::EnterInsertAfter));
    normal.insert(KeyEvent::char('A'), KeyTrie::Leaf(EditorAction::InsertAtLineEnd));
    normal.insert(KeyEvent::char('v'), KeyTrie::Leaf(EditorAction::EnterSelect));
    normal.insert(KeyEvent::char('d'), KeyTrie::Leaf(EditorAction::DeleteSelection));
    normal.insert(KeyEvent::char('c'), KeyTrie::Leaf(EditorAction::ChangeSelection));
    normal.insert(KeyEvent::char('y'), KeyTrie::Leaf(EditorAction::YankSelection));
    normal.insert(KeyEvent::char('p'), KeyTrie::Leaf(EditorAction::PasteAfter));
    normal.insert(KeyEvent::char('P'), KeyTrie::Leaf(EditorAction::PasteBefore));
    normal.insert(KeyEvent::char('u'), KeyTrie::Leaf(EditorAction::Undo));
    normal.insert(KeyEvent::char('U'), KeyTrie::Leaf(EditorAction::Redo));
    normal.insert(KeyEvent::char('"'), KeyTrie::Leaf(EditorAction::SelectRegister));
    normal.insert(KeyEvent::char('o'), KeyTrie::Leaf(EditorAction::OpenBelow));
    normal.insert(KeyEvent::char('O'), KeyTrie::Leaf(EditorAction::OpenAbove));
    normal.insert(KeyEvent::char('r'), KeyTrie::Leaf(EditorAction::Replace));
    normal.insert(KeyEvent::char('%'), KeyTrie::Leaf(EditorAction::SelectAll));
    normal.insert(KeyEvent::char(';'), KeyTrie::Leaf(EditorAction::CollapseSelection));
    normal.insert(KeyEvent::new(KeyCode::Char(';'), KeyModifiers::alt()), KeyTrie::Leaf(EditorAction::FlipSelection));
    normal.insert(KeyEvent::char('~'), KeyTrie::Leaf(EditorAction::ToggleCase));
    normal.insert(KeyEvent::char('g'), KeyTrie::Node(build_goto_node()));
    normal.insert(KeyEvent::char('m'), KeyTrie::Node(build_match_node()));
    normal.insert(KeyEvent { code: KeyCode::Char(' '), modifiers: KeyModifiers::empty() }, KeyTrie::Node(build_space_node()));
    normal.insert(KeyEvent::char(':'), KeyTrie::Leaf(EditorAction::CommandPalette));
    normal.insert(KeyEvent::new(KeyCode::Left, KeyModifiers::empty()), KeyTrie::Leaf(EditorAction::MoveLeft));
    normal.insert(KeyEvent::new(KeyCode::Right, KeyModifiers::empty()), KeyTrie::Leaf(EditorAction::MoveRight));
    normal.insert(KeyEvent::new(KeyCode::Up, KeyModifiers::empty()), KeyTrie::Leaf(EditorAction::MoveUp));
    normal.insert(KeyEvent::new(KeyCode::Down, KeyModifiers::empty()), KeyTrie::Leaf(EditorAction::MoveDown));
    normal
}

/// The select mode keymap: see `is_select_node`.
pub fn select_node() -> (r: KeyTrieNode)
    ensures
        is_select_node(r),
        trie_plain(KeyTrie::Node(r)),
{
    let mut select = KeyTrieNode::new("Select mode");
    select.insert(KeyEvent::char('h'), KeyTrie::Leaf(EditorAction::MoveLeft));
    select.insert(KeyEvent::char('j'), KeyTrie::Leaf(EditorAction::MoveDown));
    select.insert(KeyEvent::char('k'), KeyTrie::Leaf(EditorAction::MoveUp));
    select.insert(KeyEvent::char('l'), KeyTrie::Leaf(EditorAction::MoveRight));
    select.insert(KeyEvent::char('w'), KeyTrie::Leaf(EditorAction::MoveWordForward));
    select.insert(KeyEvent::char('b'), KeyTrie::Leaf(EditorAction::MoveWordBackward));
    select.insert(KeyEvent::char('e'), KeyTrie::Leaf(EditorAction::MoveWordEnd));
    select.insert(KeyEvent::char('x'), KeyTrie::Leaf(EditorAction::SelectLine));
    select.insert(KeyEvent::char('I'), KeyTrie::Leaf(EditorAction::InsertAtLineStart));
    select.insert(KeyEvent::char('A'), KeyTrie::Leaf(EditorAction::InsertAtLineEnd));
    select.insert(KeyEvent::char('d'), KeyTrie::Leaf(EditorAction::DeleteSelection));
    select.insert(KeyEvent::char('c'), KeyTrie::Leaf(EditorAction::ChangeSelection));
    select.insert(KeyEvent::char('y'), KeyTrie::Leaf(EditorAction::YankSelection));
    select.insert(KeyEvent::char('p'), KeyTrie::Leaf(EditorAction::PasteAfter));
    select.insert(KeyEvent::char('P'), KeyTrie::Leaf(EditorAction::PasteBefore));
    select.insert(KeyEvent::char('"'), KeyTrie::Leaf(EditorAction::SelectRegister));
    select.insert(KeyEvent::char('o'), KeyTrie::Leaf(EditorAction::OpenBelow));
    select.insert(KeyEvent::char('O'), KeyTrie::Leaf(EditorAction::OpenAbove));
    select.insert(KeyEvent::char('r'), KeyTrie::Leaf(EditorAction::Replace));
    select.insert(KeyEvent::char('%'), KeyTrie::Leaf(EditorAction::SelectAll));
    select.insert(KeyEvent::char(';'), KeyTrie::Leaf(EditorAction::CollapseSelection));
    select.insert(KeyEvent::new(KeyCode::Char(';'), KeyModifiers::alt()), KeyTrie::Leaf(EditorAction::FlipSelection));
    select.insert(KeyEvent::char('~'), KeyTrie::Leaf(EditorAction::ToggleCase));
    select.insert(KeyEvent::char('g'), KeyTrie::Node(build_goto_node()));
    select.insert(KeyEvent::new(KeyCode::Left, KeyModifiers::empty()), KeyTrie::Leaf(EditorAction::MoveLeft));
    select.insert(KeyEvent::new(KeyCode::Right, KeyModifiers::empty()), KeyTrie::Leaf(EditorAction::MoveRight));
    select.insert(KeyEvent::new(KeyCode::Up, KeyModifiers::empty()), KeyTrie::Leaf(EditorAction::MoveUp));
    select.insert(KeyEvent::new(KeyCode::Down, KeyModifiers::empty()), KeyTrie::Leaf(EditorAction::MoveDown));
    select.insert(KeyEvent::char('m'), KeyTrie::Node(build_match_node()));
    select.insert(KeyEvent { code: KeyCode::Char(' '), modifiers: KeyModifiers::empty() }, KeyTrie::Node(build_space_node()));
    select
}

/// The default keymap of every mode: normal (`h`/`j`/`k`/`l`, word
/// motions, edits, `g`, `m` and space prefixes), insert (no key; Esc is
/// handled before any trie) and select (the motions, extending).
pub fn default_keymap() -> (r: ModeMap)
    ensures
        r.normal matches Some(KeyTrie::Node(n)) && is_normal_node(n),
        r.insert matches Some(KeyTrie::Node(n)) && is_insert_node(n),
        r.select matches Some(KeyTrie::Node(n)) && is_select_node(n),
        r.wf(),
        r.normal matches Some(t) && trie_plain(t),
        r.insert matches Some(t) && trie_plain(t),
        r.select matches Some(t) && trie_plain(t),
{
    let mut m = ModeMap::new();
    m.normal = Some(KeyTrie::Node(normal_node()));
    m.insert = Some(KeyTrie::Node(KeyTrieNode::new("Insert mode")));
    m.select = Some(KeyTrie::Node(select_node()));
    m
}

} // verus!
