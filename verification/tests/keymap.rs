use strand::components::which_key::{format_key, WhichKeyData};
use strand::keymap::actions::{EditorAction, Mode};
use strand::keymap::default::{build_goto_node, build_match_node, build_space_node};
use strand::keymap::input::{canonicalize_key, gdk_to_key_event, KeyCode, KeyEvent, KeyModifiers};
use strand::keymap::trie::{default_keymap, KeyTrie, KeyTrieRoot, KeymapResult};

#[test]
fn input_parse_keys() {
    assert_eq!(KeyEvent::from_str("h").unwrap(), KeyEvent::char('h'));
    assert_eq!(KeyEvent::from_str("esc").unwrap().code, KeyCode::Esc);
    assert_eq!(
        KeyEvent::from_str("space").unwrap(),
        KeyEvent { code: KeyCode::Char(' '), modifiers: KeyModifiers::empty() }
    );
    assert_eq!(
        KeyEvent::from_str("<space>").unwrap(),
        KeyEvent { code: KeyCode::Char(' '), modifiers: KeyModifiers::empty() }
    );
    assert_eq!(
        KeyEvent::from_str("C-w").unwrap(),
        KeyEvent { code: KeyCode::Char('w'), modifiers: KeyModifiers::control() }
    );
    assert_eq!(
        KeyEvent::from_str("<C-w>").unwrap(),
        KeyEvent { code: KeyCode::Char('w'), modifiers: KeyModifiers::control() }
    );
    assert_eq!(
        KeyEvent::from_str("S-w").unwrap(),
        KeyEvent { code: KeyCode::Char('W'), modifiers: KeyModifiers::empty() }
    );
    assert_eq!(
        KeyEvent::from_str("-").unwrap(),
        KeyEvent { code: KeyCode::Char('-'), modifiers: KeyModifiers::empty() }
    );
    assert!(KeyEvent::from_str("invalid-key-foo").is_err());
}

#[test]
fn trie_parse_keys() {
    assert_eq!(KeyEvent::from_str("h").unwrap(), KeyEvent::char('h'));
    assert_eq!(KeyEvent::from_str("esc").unwrap().code, KeyCode::Esc);
    assert_eq!(
        KeyEvent::from_str("space").unwrap(),
        KeyEvent { code: KeyCode::Char(' '), modifiers: KeyModifiers::empty() }
    );
    assert_eq!(
        KeyEvent::from_str("C-w").unwrap(),
        KeyEvent { code: KeyCode::Char('w'), modifiers: KeyModifiers::control() }
    );
    assert_eq!(
        KeyEvent::from_str("S-w").unwrap(),
        KeyEvent { code: KeyCode::Char('W'), modifiers: KeyModifiers::empty() }
    );
    assert!(KeyEvent::from_str("invalid-key-foo").is_err());
}

#[test]
fn key_sequence_format_test() {
    assert_eq!(KeyEvent::char('w').key_sequence_format(), "w");
    assert_eq!(KeyEvent::ctrl('w').key_sequence_format(), "<C-w>");
    assert_eq!(KeyEvent::char(' ').key_sequence_format(), "<space>");
}

#[test]
fn input_gdk_conversion_space_and_chars() {
    let ev = gdk_to_key_event('h' as u32, 0).unwrap();
    assert_eq!(ev, KeyEvent::char('h'));
    let esc = gdk_to_key_event(0xff1b, 0).unwrap();
    assert_eq!(esc.code, KeyCode::Esc);
    let sp = gdk_to_key_event(0x20, 0).unwrap();
    assert_eq!(sp.code, KeyCode::Char(' '));
}

#[test]
fn trie_gdk_conversion_space_and_chars() {
    let ev = gdk_to_key_event('h' as u32, 0).unwrap();
    assert_eq!(ev, KeyEvent::char('h'));
    let esc = gdk_to_key_event(0xff1b, 0).unwrap();
    assert_eq!(esc.code, KeyCode::Esc);
    let sp = gdk_to_key_event(0x20, 0).unwrap();
    assert_eq!(sp.code, KeyCode::Char(' '));
}

#[test]
fn gdk_conversion_with_modifiers() {
    const SHIFT_MASK: u32 = 1;
    let ev_a = gdk_to_key_event('A' as u32, SHIFT_MASK).unwrap();
    assert_eq!(ev_a, KeyEvent::char('A'));
    let ev_i = gdk_to_key_event('I' as u32, SHIFT_MASK).unwrap();
    assert_eq!(ev_i, KeyEvent::char('I'));
    let ev_u = gdk_to_key_event('u' as u32, 0).unwrap();
    assert_eq!(ev_u, KeyEvent::char('u'));
    let ev_cap_u = gdk_to_key_event('U' as u32, SHIFT_MASK).unwrap();
    assert_eq!(ev_cap_u, KeyEvent::char('U'));
    let ev_quote = gdk_to_key_event('"' as u32, SHIFT_MASK).unwrap();
    assert_eq!(ev_quote, KeyEvent::char('"'));
    let ev_colon = gdk_to_key_event(':' as u32, SHIFT_MASK).unwrap();
    assert_eq!(ev_colon, KeyEvent::char(':'));
    let ev_plus = gdk_to_key_event('+' as u32, SHIFT_MASK).unwrap();
    assert_eq!(ev_plus, KeyEvent::char('+'));
}

#[test]
fn trie_search_single() {
    let map = default_keymap();
    let root = map.get(&Mode::Normal).unwrap();
    assert_eq!(root.search(&[KeyEvent::char('h')]), Some(KeyTrie::Leaf(EditorAction::MoveLeft)));
    assert_eq!(root.search(&[KeyEvent::char('x')]), Some(KeyTrie::Leaf(EditorAction::SelectLine)));
}

#[test]
fn trie_pending_g_prefix() {
    let map = default_keymap();
    let mut trie = KeyTrieRoot::new(map);
    let res = trie.get(Mode::Normal, KeyEvent::char('g'));
    assert!(matches!(res, KeymapResult::Pending(_)));
    let res2 = trie.get(Mode::Normal, KeyEvent::char('g'));
    assert_eq!(res2, KeymapResult::Matched(EditorAction::MoveLeft));
    assert!(trie.pending().is_empty());
}

#[test]
fn trie_cancelled_on_invalid_chord() {
    let map = default_keymap();
    let mut trie = KeyTrieRoot::new(map);
    let _ = trie.get(Mode::Normal, KeyEvent::char('g'));
    let res = trie.get(Mode::Normal, KeyEvent::char('z'));
    assert!(matches!(res, KeymapResult::Cancelled(_)));
    assert!(trie.pending().is_empty());
}

#[test]
fn esc_cancels_pending() {
    let map = default_keymap();
    let mut trie = KeyTrieRoot::new(map);
    let _ = trie.get(Mode::Normal, KeyEvent::char('g'));
    let res = trie.get(Mode::Normal, KeyEvent { code: KeyCode::Esc, modifiers: KeyModifiers::empty() });
    assert!(matches!(res, KeymapResult::Cancelled(_)));
}

#[test]
fn not_found_on_unbound_key() {
    let map = default_keymap();
    let mut trie = KeyTrieRoot::new(map);
    let res = trie.get(Mode::Normal, KeyEvent::char('q'));
    assert_eq!(res, KeymapResult::NotFound);
}

#[test]
fn space_pending() {
    let map = default_keymap();
    let mut trie = KeyTrieRoot::new(map);
    let res = trie.get(Mode::Normal, KeyEvent { code: KeyCode::Char(' '), modifiers: KeyModifiers::empty() });
    assert!(matches!(res, KeymapResult::Pending(_)));
}

#[test]
fn insert_mode_esc_matched() {
    let map = default_keymap();
    let mut trie = KeyTrieRoot::new(map);
    let res = trie.get(Mode::Insert, KeyEvent { code: KeyCode::Esc, modifiers: KeyModifiers::empty() });
    assert_eq!(res, KeymapResult::Matched(EditorAction::ExitToNormal));
}

#[test]
fn select_mode_motions() {
    let map = default_keymap();
    let root = map.get(&Mode::Select).unwrap();
    assert_eq!(root.search(&[KeyEvent::char('w')]), Some(KeyTrie::Leaf(EditorAction::MoveWordForward)));
    assert_eq!(root.search(&[KeyEvent::char('I')]), Some(KeyTrie::Leaf(EditorAction::InsertAtLineStart)));
    assert_eq!(root.search(&[KeyEvent::char('A')]), Some(KeyTrie::Leaf(EditorAction::InsertAtLineEnd)));
}

#[test]
fn helix_a_i_u_redo_keybinds() {
    let map = default_keymap();
    let root = map.get(&Mode::Normal).unwrap();
    assert_eq!(root.search(&[KeyEvent::char('I')]), Some(KeyTrie::Leaf(EditorAction::InsertAtLineStart)));
    assert_eq!(root.search(&[KeyEvent::char('A')]), Some(KeyTrie::Leaf(EditorAction::InsertAtLineEnd)));
    assert_eq!(root.search(&[KeyEvent::char('u')]), Some(KeyTrie::Leaf(EditorAction::Undo)));
    assert_eq!(root.search(&[KeyEvent::char('U')]), Some(KeyTrie::Leaf(EditorAction::Redo)));

    const SHIFT_MASK: u32 = 1;
    let ev_a = gdk_to_key_event('A' as u32, SHIFT_MASK).unwrap();
    assert_eq!(ev_a, KeyEvent::char('A'));
    let ev_i = gdk_to_key_event('I' as u32, SHIFT_MASK).unwrap();
    assert_eq!(ev_i, KeyEvent::char('I'));
    let ev_u = gdk_to_key_event('u' as u32, 0).unwrap();
    assert_eq!(ev_u, KeyEvent::char('u'));
    let ev_cap_u = gdk_to_key_event('U' as u32, SHIFT_MASK).unwrap();
    assert_eq!(ev_cap_u, KeyEvent::char('U'));
    let ev_quote = gdk_to_key_event('"' as u32, SHIFT_MASK).unwrap();
    assert_eq!(ev_quote, KeyEvent::char('"'));
    let ev_colon = gdk_to_key_event(':' as u32, SHIFT_MASK).unwrap();
    assert_eq!(ev_colon, KeyEvent::char(':'));
    let ev_plus = gdk_to_key_event('+' as u32, SHIFT_MASK).unwrap();
    assert_eq!(ev_plus, KeyEvent::char('+'));
}

#[test]
fn match_mode_keybinds() {
    let map = default_keymap();
    let mut trie = KeyTrieRoot::new(map);

    let res = trie.get(Mode::Normal, KeyEvent::char('m'));
    assert!(matches!(res, KeymapResult::Pending(_)));
    let res2 = trie.get(Mode::Normal, KeyEvent::char('m'));
    assert_eq!(res2, KeymapResult::Matched(EditorAction::MatchBrackets));

    let _ = trie.get(Mode::Normal, KeyEvent::char('m'));
    let res_ms = trie.get(Mode::Normal, KeyEvent::char('s'));
    assert_eq!(res_ms, KeymapResult::Matched(EditorAction::SurroundAdd));

    let _ = trie.get(Mode::Normal, KeyEvent::char('m'));
    let res_md = trie.get(Mode::Normal, KeyEvent::char('d'));
    assert_eq!(res_md, KeymapResult::Matched(EditorAction::SurroundDelete));

    let _ = trie.get(Mode::Normal, KeyEvent::char('m'));
    let res_mr = trie.get(Mode::Normal, KeyEvent::char('r'));
    assert_eq!(res_mr, KeymapResult::Matched(EditorAction::SurroundReplace));

    let _ = trie.get(Mode::Normal, KeyEvent::char('m'));
    let res_ma = trie.get(Mode::Normal, KeyEvent::char('a'));
    assert_eq!(res_ma, KeymapResult::Matched(EditorAction::SelectTextObjectAround));

    let _ = trie.get(Mode::Normal, KeyEvent::char('m'));
    let res_mi = trie.get(Mode::Normal, KeyEvent::char('i'));
    assert_eq!(res_mi, KeymapResult::Matched(EditorAction::SelectTextObjectInner));

    let _ = trie.get(Mode::Select, KeyEvent::char('m'));
    let res_sel_mm = trie.get(Mode::Select, KeyEvent::char('m'));
    assert_eq!(res_sel_mm, KeymapResult::Matched(EditorAction::MatchBrackets));

    let _ = trie.get(Mode::Select, KeyEvent::char('m'));
    let res_sel_ms = trie.get(Mode::Select, KeyEvent::char('s'));
    assert_eq!(res_sel_ms, KeymapResult::Matched(EditorAction::SurroundAdd));
}

#[test]
fn test_default_keymap_structure() {
    let keymap = strand::keymap::default::default_keymap();
    assert!(keymap.contains_key(&Mode::Normal));
    assert!(keymap.contains_key(&Mode::Insert));
    assert!(keymap.contains_key(&Mode::Select));

    let normal_node = keymap.get(&Mode::Normal).unwrap().node().unwrap();
    assert_eq!(normal_node.name, "Normal mode");
    assert!(normal_node.map.contains_key(&KeyEvent::char('h')));
    assert!(normal_node.map.contains_key(&KeyEvent::char('g')));
    assert!(normal_node.map.contains_key(&KeyEvent::char('m')));
    assert!(normal_node.map.contains_key(&KeyEvent::char(' ')));
}

#[test]
fn test_goto_node() {
    let goto = build_goto_node();
    assert_eq!(goto.name, "Goto");
    assert_eq!(goto.map.get(&KeyEvent::char('g')), Some(&KeyTrie::Leaf(EditorAction::GotoFileStart)));
    assert_eq!(goto.map.get(&KeyEvent::char('e')), Some(&KeyTrie::Leaf(EditorAction::GotoFileEnd)));
    assert_eq!(goto.map.get(&KeyEvent::char('h')), Some(&KeyTrie::Leaf(EditorAction::GotoLineStart)));
    assert_eq!(goto.map.get(&KeyEvent::char('l')), Some(&KeyTrie::Leaf(EditorAction::GotoLineEnd)));
    assert_eq!(
        goto.map.get(&KeyEvent::char('s')),
        Some(&KeyTrie::Leaf(EditorAction::GotoFirstNonWhitespace))
    );
}

#[test]
fn test_space_node() {
    let space = build_space_node();
    assert_eq!(space.name, "Space");
    assert_eq!(space.map.get(&KeyEvent::char('y')), Some(&KeyTrie::Leaf(EditorAction::YankToClipboard)));
    assert_eq!(space.map.get(&KeyEvent::char('p')), Some(&KeyTrie::Leaf(EditorAction::PasteClipboardAfter)));
    assert_eq!(space.map.get(&KeyEvent::char('P')), Some(&KeyTrie::Leaf(EditorAction::PasteClipboardBefore)));
}

#[test]
fn test_match_node() {
    let match_node = build_match_node();
    assert_eq!(match_node.name, "Match");
    assert_eq!(match_node.map.get(&KeyEvent::char('m')), Some(&KeyTrie::Leaf(EditorAction::MatchBrackets)));
    assert_eq!(match_node.map.get(&KeyEvent::char('s')), Some(&KeyTrie::Leaf(EditorAction::SurroundAdd)));
}

#[test]
fn test_format_key() {
    assert_eq!(format_key(&KeyEvent::char('a')), "a");
    assert_eq!(format_key(&KeyEvent::char(' ')), "Space");
    assert_eq!(format_key(&KeyEvent::new(KeyCode::Esc, KeyModifiers::empty())), "Esc");
    assert_eq!(format_key(&KeyEvent::new(KeyCode::Char('g'), KeyModifiers::control())), "C-g");
    assert_eq!(format_key(&KeyEvent::new(KeyCode::Left, KeyModifiers::empty())), "Left");
}

#[test]
fn test_from_space_node() {
    let node = build_space_node();
    let data = WhichKeyData::from_trie_node(&node);
    assert_eq!(data.title, "Space");
    assert!(!data.entries.is_empty());

    let labels: Vec<&str> = data.entries.iter().map(|e| e.key_label.as_str()).collect();
    assert!(labels.contains(&"y"));
    assert!(labels.contains(&"p"));
    assert!(labels.contains(&"P"));

    let y_entry = data.entries.iter().find(|e| e.key_label == "y").unwrap();
    assert_eq!(y_entry.description, "yank to clipboard");
    assert!(!y_entry.is_submenu);
}

#[test]
fn test_from_match_node() {
    let node = build_match_node();
    let data = WhichKeyData::from_trie_node(&node);
    assert_eq!(data.title, "Match");

    let m_entry = data.entries.iter().find(|e| e.key_label == "m").unwrap();
    assert_eq!(m_entry.description, "goto matching bracket");
    assert!(!m_entry.is_submenu);

    let s_entry = data.entries.iter().find(|e| e.key_label == "s").unwrap();
    assert_eq!(s_entry.description, "surround selection");
}

// Round trips, canonical forms and lookups.

#[test]
fn key_text_reads_back() {
    let keys = [
        KeyEvent::char('a'),
        KeyEvent::ctrl('w'),
        KeyEvent::alt(';'),
        KeyEvent::char(' '),
        KeyEvent::char('-'),
        KeyEvent::new(KeyCode::F(12), KeyModifiers::empty()),
        KeyEvent::new(KeyCode::PageDown, KeyModifiers::super_key()),
        KeyEvent::new(KeyCode::Left, KeyModifiers::shift()),
    ];
    for k in keys {
        assert_eq!(KeyEvent::from_str(k.to_string().as_str()).unwrap(), k);
    }
    assert_eq!(KeyEvent::new(KeyCode::F(12), KeyModifiers::empty()).to_string(), "F12");
    assert_eq!(KeyEvent::new(KeyCode::PageDown, KeyModifiers::super_key()).to_string(), "Meta-pagedown");
}

#[test]
fn key_parse_errors() {
    assert_eq!(KeyEvent::from_str("   ").unwrap_err(), "empty key");
    assert_eq!(KeyEvent::from_str("F25").unwrap_err(), "invalid F key F25");
    assert_eq!(KeyEvent::from_str("F300").unwrap_err(), "invalid F key F300");
    assert_eq!(KeyEvent::from_str("foo").unwrap_err(), "invalid key code 'foo'");
    assert_eq!(KeyEvent::from_str("X-a").unwrap_err(), "invalid modifier 'X'");
    assert_eq!(KeyEvent::from_str("é").unwrap_err(), "invalid key code 'é'");
    assert_eq!(KeyEvent::from_str(" Meta-S-a ").unwrap(), KeyEvent::new(KeyCode::Char('A'), KeyModifiers::super_key()));
}

#[test]
fn canonical_keys() {
    let mut k = KeyEvent::new(KeyCode::Char('q'), KeyModifiers::shift());
    canonicalize_key(&mut k);
    assert_eq!(k, KeyEvent::char('Q'));
    let mut once = k;
    canonicalize_key(&mut once);
    assert_eq!(once, k);
    let mut tab = KeyEvent::new(KeyCode::Tab, KeyModifiers::shift());
    canonicalize_key(&mut tab);
    assert_eq!(tab.modifiers, KeyModifiers::shift());
    assert_eq!(KeyEvent::shift('x'), KeyEvent::char('X'));
    assert_eq!(gdk_to_key_event(0x7f, 0), None);
    assert_eq!(gdk_to_key_event(0xd800, 0), None);
    assert_eq!(gdk_to_key_event('a' as u32, 4).unwrap(), KeyEvent::ctrl('a'));
}

#[test]
fn sticky_and_prefix_text() {
    let map = strand::keymap::default::default_keymap();
    let mut trie = KeyTrieRoot::new(map);
    assert_eq!(trie.pending_prefix_string(), "");
    let _ = trie.get(Mode::Normal, KeyEvent::char('g'));
    assert_eq!(trie.pending_prefix_string(), "g-");
    assert!(trie.contains_key(Mode::Normal, KeyEvent::char('h')));
    assert!(!trie.contains_key(Mode::Normal, KeyEvent::char('q')));
    let res = trie.get(Mode::Normal, KeyEvent::char('g'));
    assert_eq!(res, KeymapResult::Matched(EditorAction::GotoFileStart));
    let mut node = build_space_node();
    node.is_sticky = true;
    trie.sticky = Some(node);
    assert_eq!(trie.pending_prefix_string(), "space-");
    let res = trie.get(Mode::Normal, KeyEvent::ctrl('g'));
    assert_eq!(res, KeymapResult::Matched(EditorAction::ExitToNormal));
    assert!(trie.sticky.is_none());
}

#[test]
fn which_key_groups_and_orders() {
    let mut node = build_goto_node();
    node.insert(KeyEvent::char('G'), KeyTrie::Leaf(EditorAction::GotoFileStart));
    node.insert(KeyEvent::char('z'), KeyTrie::Leaf(EditorAction::Noop));
    node.insert(KeyEvent::char('m'), KeyTrie::Node(build_match_node()));
    let data = node.which_key_data();
    let labels: Vec<&str> = data.entries.iter().map(|e| e.key_label.as_str()).collect();
    assert_eq!(labels, vec!["G, g", "e", "h", "l", "m", "n", "p", "s"]);
    assert!(data.entries[4].is_submenu);
    assert_eq!(data.entries[4].description, "Match");
    assert_eq!(node.infobox(), data);
}

fn check_plain(t: &KeyTrie) {
    match t {
        KeyTrie::Leaf(a) => assert_ne!(*a, EditorAction::ExitToNormal),
        KeyTrie::Node(n) => {
            assert!(!n.is_sticky);
            for (k, sub) in n.map.entries.iter() {
                assert!(!(matches!(k.code, KeyCode::Char(_)) && k.modifiers.shift));
                check_plain(sub);
            }
        }
    }
}

#[test]
fn default_keymap_is_canonical_and_plain() {
    for km in [default_keymap(), strand::keymap::default::default_keymap()] {
        for mode in [Mode::Normal, Mode::Select, Mode::Insert] {
            check_plain(km.get(&mode).unwrap());
        }
        match km.get(&Mode::Insert).unwrap() {
            KeyTrie::Node(n) => assert!(n.map.entries.is_empty()),
            KeyTrie::Leaf(_) => panic!("insert mode keymap must be a node"),
        }
    }
}

#[test]
fn search_goes_on_from_its_prefix() {
    let km = strand::keymap::default::default_keymap();
    let t = km.get(&Mode::Normal).unwrap();
    assert_eq!(t.search(&[]).as_ref(), Some(t));
    match t.search(&[KeyEvent::char('g')]) {
        Some(KeyTrie::Node(n)) => assert_eq!(n.name, "Goto"),
        _ => panic!("g must lead to the goto node"),
    }
    assert_eq!(
        t.search(&[KeyEvent::char('g'), KeyEvent::char('n')]),
        Some(KeyTrie::Leaf(EditorAction::GotoNextBuffer))
    );
    assert_eq!(t.search(&[KeyEvent::char('h'), KeyEvent::char('n')]), None);
    assert_eq!(t.search(&[KeyEvent::char('g'), KeyEvent::char('Z')]), None);
}

#[test]
fn action_docs_are_distinct_and_not_empty() {
    let all = [
        EditorAction::MoveLeft,
        EditorAction::MoveRight,
        EditorAction::MoveUp,
        EditorAction::MoveDown,
        EditorAction::MoveWordForward,
        EditorAction::MoveWordBackward,
        EditorAction::MoveWordEnd,
        EditorAction::SelectLine,
        EditorAction::EnterInsert,
        EditorAction::EnterInsertAfter,
        EditorAction::InsertAtLineStart,
        EditorAction::InsertAtLineEnd,
        EditorAction::EnterSelect,
        EditorAction::ExitToNormal,
        EditorAction::DeleteSelection,
        EditorAction::ChangeSelection,
        EditorAction::YankSelection,
        EditorAction::PasteAfter,
        EditorAction::PasteBefore,
        EditorAction::Undo,
        EditorAction::Redo,
        EditorAction::MatchBrackets,
        EditorAction::SurroundAdd,
        EditorAction::SurroundDelete,
        EditorAction::SurroundReplace,
        EditorAction::SelectTextObjectAround,
        EditorAction::SelectTextObjectInner,
        EditorAction::SelectRegister,
        EditorAction::YankToClipboard,
        EditorAction::PasteClipboardAfter,
        EditorAction::PasteClipboardBefore,
        EditorAction::GotoFileStart,
        EditorAction::GotoFileEnd,
        EditorAction::GotoLineStart,
        EditorAction::GotoLineEnd,
        EditorAction::GotoFirstNonWhitespace,
        EditorAction::OpenBelow,
        EditorAction::OpenAbove,
        EditorAction::Replace,
        EditorAction::SelectAll,
        EditorAction::CollapseSelection,
        EditorAction::FlipSelection,
        EditorAction::ToggleCase,
        EditorAction::GotoNextBuffer,
        EditorAction::GotoPreviousBuffer,
        EditorAction::FilePicker,
        EditorAction::BufferPicker,
        EditorAction::CommandPalette,
        EditorAction::Noop,
    ];
    for (i, a) in all.iter().enumerate() {
        assert!(!a.doc().is_empty());
        for b in all[i + 1..].iter() {
            assert_ne!(a.doc(), b.doc());
        }
    }
    assert_eq!(EditorAction::MoveLeft.doc(), "move left");
    assert_eq!(EditorAction::YankToClipboard.doc(), "yank to clipboard");
    assert_eq!(EditorAction::MatchBrackets.doc(), "goto matching bracket");
    assert_eq!(EditorAction::SurroundAdd.doc(), "surround selection");
}

#[test]
fn which_key_one_line_per_description() {
    let mut node = build_space_node();
    node.insert(KeyEvent::char('Y'), KeyTrie::Leaf(EditorAction::YankToClipboard));
    node.insert(KeyEvent::new(KeyCode::Left, KeyModifiers::empty()), KeyTrie::Leaf(EditorAction::YankToClipboard));
    let data = WhichKeyData::from_trie_node(&node);
    assert_eq!(data.title, "Space");
    let lines: Vec<(&str, &str)> =
        data.entries.iter().map(|e| (e.key_label.as_str(), e.description.as_str())).collect();
    assert_eq!(
        lines,
        vec![
            ("P", "paste clipboard before"),
            ("Y, y, Left", "yank to clipboard"),
            ("b", "open buffer picker"),
            ("f", "open file picker"),
            ("p", "paste clipboard after"),
        ]
    );
}
