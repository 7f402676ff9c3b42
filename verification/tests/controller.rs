use strand::commands::dispatch;
use strand::components::controller::{handle_key, KeyHandleResult};
use strand::editor::state::EditorState;
use strand::editor::workspace::Workspace;
use strand::keymap::actions::{EditorAction, Mode};
use strand::keymap::default::default_keymap;
use strand::keymap::input::{gdk_to_key_event, KeyCode, KeyEvent, KeyModifiers};
use strand::text::buffer::TextBuf;

fn new_state() -> EditorState {
    EditorState::new(default_keymap(), Workspace::new("/tmp/project"))
}

fn buf_with(text: &str) -> TextBuf {
    TextBuf::new(text)
}

fn all_text(b: &TextBuf) -> String {
    b.text_string()
}

fn sel_text(b: &TextBuf) -> String {
    let (s, e) = b.selection_bounds().unwrap();
    b.text[s..e].iter().collect()
}

fn line(b: &TextBuf) -> usize {
    b.line_at(b.head)
}

fn line_offset(b: &TextBuf) -> usize {
    b.head - b.line_start_at(b.head)
}

fn esc() -> KeyEvent {
    KeyEvent::new(KeyCode::Esc, KeyModifiers::empty())
}

fn press(state: &mut EditorState, buf: &mut TextBuf, keys: &str) -> KeyHandleResult {
    let mut last = KeyHandleResult::Stop;
    for c in keys.chars() {
        last = handle_key(state, buf, KeyEvent::char(c));
    }
    last
}

#[test]
fn insert_passthrough_and_esc() {
    let mut state = new_state();
    state.set_mode(Mode::Insert);
    let mut buf = buf_with("hi");
    buf.place_cursor(2);
    let res = handle_key(&mut state, &mut buf, KeyEvent::char('a'));
    assert_eq!(res, KeyHandleResult::Propagate);
    assert_eq!(state.mode, Mode::Insert);
    let res2 = handle_key(&mut state, &mut buf, esc());
    assert_eq!(res2, KeyHandleResult::ModeChanged(Mode::Normal));
    assert_eq!(state.mode, Mode::Normal);
}

#[test]
fn normal_hjkl() {
    let mut state = new_state();
    let mut buf = buf_with("hello\nworld");
    buf.place_cursor(0);
    press(&mut state, &mut buf, "l");
    assert_eq!(buf.head, 1);
    press(&mut state, &mut buf, "j");
    assert_eq!(line(&buf), 1);
    press(&mut state, &mut buf, "h");
    assert_eq!(buf.head, 6);
    press(&mut state, &mut buf, "k");
    assert_eq!(line(&buf), 0);
}

#[test]
fn normal_i_enters_insert() {
    let mut state = new_state();
    let mut buf = buf_with("hi");
    let res = handle_key(&mut state, &mut buf, KeyEvent::char('i'));
    assert_eq!(res, KeyHandleResult::ModeChanged(Mode::Insert));
    assert_eq!(state.mode, Mode::Insert);
}

#[test]
fn normal_v_enters_select_and_extends() {
    let mut state = new_state();
    let mut buf = buf_with("hello world");
    buf.place_cursor(0);
    press(&mut state, &mut buf, "v");
    assert_eq!(state.mode, Mode::Select);
    press(&mut state, &mut buf, "l");
    assert!(buf.head != buf.anchor);
}

#[test]
fn esc_from_select_goes_normal() {
    let mut state = new_state();
    state.set_mode(Mode::Select);
    let mut buf = buf_with("hi");
    let res = handle_key(&mut state, &mut buf, esc());
    assert_eq!(res, KeyHandleResult::ModeChanged(Mode::Normal));
}

#[test]
fn word_motions_via_trie() {
    let mut state = new_state();
    let mut buf = buf_with("hello world foo");
    buf.place_cursor(0);
    press(&mut state, &mut buf, "w");
    assert!(buf.head > 0);
    press(&mut state, &mut buf, "b");
    assert_eq!(buf.head, 0);
    press(&mut state, &mut buf, "e");
    assert!(buf.head > 0);
}

#[test]
fn delete_yank_paste() {
    let mut state = new_state();
    let mut buf = buf_with("hello world");
    buf.select_range(0, 5);
    state.set_mode(Mode::Select);
    press(&mut state, &mut buf, "y");
    assert_eq!(state.registers.read('"'), "hello");
    assert_eq!(state.registers.read('0'), "hello");
    assert_eq!(state.mode, Mode::Normal);
    buf.place_cursor(5);
    press(&mut state, &mut buf, "p");
    assert!(all_text(&buf).contains("hello"));
}

#[test]
fn pending_g_and_space() {
    let mut state = new_state();
    let mut buf = buf_with("hi");
    let res = handle_key(&mut state, &mut buf, KeyEvent::char('g'));
    assert_eq!(res, KeyHandleResult::Stop);
    assert!(!state.keymap.pending().is_empty());
    assert!(state.which_key.is_some());
    assert_eq!(state.which_key.as_ref().unwrap().title, "Goto");
    handle_key(&mut state, &mut buf, esc());
    assert!(state.keymap.pending().is_empty());
    assert!(state.which_key.is_none());
}

#[test]
fn which_key_space_g_m_and_chord_completion() {
    let mut state = new_state();
    let mut buf = buf_with("hello world");
    press(&mut state, &mut buf, " ");
    assert!(state.which_key.is_some());
    let space_wk = state.which_key.as_ref().unwrap();
    assert_eq!(space_wk.title, "Space");
    assert!(space_wk.entries.iter().any(|e| e.key_label == "y"));
    press(&mut state, &mut buf, "y");
    assert!(state.which_key.is_none());
    assert!(state.keymap.pending().is_empty());
    press(&mut state, &mut buf, "m");
    assert!(state.which_key.is_some());
    assert_eq!(state.which_key.as_ref().unwrap().title, "Match");
    press(&mut state, &mut buf, "m");
    assert!(state.which_key.is_none());
}

#[test]
fn which_key_ctrl_g_dismisses() {
    let mut state = new_state();
    let mut buf = buf_with("hello");
    press(&mut state, &mut buf, " ");
    assert!(state.which_key.is_some());
    let ctrl_g = KeyEvent::new(KeyCode::Char('g'), KeyModifiers::control());
    handle_key(&mut state, &mut buf, ctrl_g);
    assert!(state.which_key.is_none());
    assert!(state.keymap.pending().is_empty());
}

#[test]
fn which_key_registers_lifecycle() {
    let mut state = new_state();
    state.registers.write('"', "yanked text");
    let mut buf = buf_with("hello");
    press(&mut state, &mut buf, "\"");
    assert!(state.which_key.is_some());
    let reg_wk = state.which_key.as_ref().unwrap();
    assert_eq!(reg_wk.title, "Registers");
    assert!(reg_wk.entries.iter().any(|e| e.key_label == "\""));
    press(&mut state, &mut buf, "0");
    assert!(state.which_key.is_none());
    assert_eq!(state.selected_register, Some('0'));
}

#[test]
fn x_selects_line() {
    let mut state = new_state();
    let mut buf = buf_with("line1\nline2\nline3");
    buf.place_cursor(6);
    press(&mut state, &mut buf, "x");
    assert_eq!(sel_text(&buf), "line2\n");
}

#[test]
fn x_extends_to_next_line_on_repeat() {
    let mut state = new_state();
    let mut buf = buf_with("line1\nline2\nline3\nline4");
    buf.place_cursor(0);
    press(&mut state, &mut buf, "x");
    assert_eq!(sel_text(&buf), "line1\n");
    press(&mut state, &mut buf, "x");
    assert_eq!(sel_text(&buf), "line1\nline2\n");
    press(&mut state, &mut buf, "x");
    assert_eq!(sel_text(&buf), "line1\nline2\nline3\n");
}

#[test]
fn v_then_l_extends_and_keeps_anchor() {
    let mut state = new_state();
    let mut buf = buf_with("hello");
    buf.place_cursor(0);
    press(&mut state, &mut buf, "v");
    assert_eq!(state.mode, Mode::Select);
    press(&mut state, &mut buf, "l");
    assert_eq!((buf.anchor, buf.head), (0, 1));
    press(&mut state, &mut buf, "l");
    assert_eq!((buf.anchor, buf.head), (0, 2));
    press(&mut state, &mut buf, "l");
    assert_eq!((buf.anchor, buf.head), (0, 3));
}

#[test]
fn w_in_normal_creates_selection_and_wc_deletes_word() {
    let mut state = new_state();
    let mut buf = buf_with("hello world foo");
    buf.place_cursor(0);
    press(&mut state, &mut buf, "w");
    let sel = sel_text(&buf);
    assert!(sel.contains("hello"), "w should select hello, got {:?}", sel);
    let res = press(&mut state, &mut buf, "c");
    assert_eq!(res, KeyHandleResult::ModeChanged(Mode::Insert));
    assert_eq!(state.mode, Mode::Insert);
    let txt = all_text(&buf);
    assert!(!txt.starts_with("hello"), "word should be deleted, got {:?}", txt);
}

#[test]
fn w_in_select_extends_selection() {
    let mut state = new_state();
    let mut buf = buf_with("hello world foo bar");
    buf.place_cursor(0);
    press(&mut state, &mut buf, "v");
    press(&mut state, &mut buf, "w");
    let sel1 = sel_text(&buf);
    assert!(sel1.contains("hello"), "v+w should select hello, got {:?}", sel1);
    press(&mut state, &mut buf, "w");
    let sel2 = sel_text(&buf);
    assert!(sel2.contains("world"), "second w should extend to world, got {:?}", sel2);
    assert!(sel2.len() > sel1.len());
}

#[test]
fn w_across_newline_does_not_select_newline() {
    let mut state = new_state();
    let mut buf = buf_with("hello\nworld\nfoo");
    buf.place_cursor(0);
    press(&mut state, &mut buf, "w");
    let sel = sel_text(&buf);
    assert!(!sel.contains('\n'), "w should not select newline, got {:?}", sel);
    assert!(sel.contains("hello"), "got {:?}", sel);
    buf.place_cursor(6);
    state.set_mode(Mode::Normal);
    press(&mut state, &mut buf, "b");
    let sel2 = sel_text(&buf);
    assert!(!sel2.contains('\n'), "b should not select newline, got {:?}", sel2);
}

#[test]
fn k_from_fn_main_goes_up_not_left() {
    let text = "// Strand — Phase 1: AdwApplicationWindow + GtkSourceView\n// Verify: syntax highlighting, line numbers, kinetic scroll\n\nfn main() {\n    println!(\"Hello, Strand!\");";
    let mut buf = buf_with(text);
    let offset = text.find("fn main").unwrap();
    let char_offset: usize = text[..offset].chars().count();
    let pos = char_offset + 3;
    buf.place_cursor(pos);
    let mut state = new_state();
    let before_line = line(&buf);
    press(&mut state, &mut buf, "k");
    assert_eq!(line(&buf), before_line - 1, "k should go up one line");
    buf.place_cursor(pos);
    let mut state2 = new_state();
    handle_key(&mut state2, &mut buf, KeyEvent::new(KeyCode::Up, KeyModifiers::empty()));
    assert_eq!(line(&buf), before_line - 1, "Up should go up");
}

#[test]
fn normal_i_and_a_insert_at_line_start_and_end() {
    let mut state = new_state();
    let mut buf = buf_with("    let x = 10;");
    buf.place_cursor(8);
    let res = press(&mut state, &mut buf, "I");
    assert_eq!(res, KeyHandleResult::ModeChanged(Mode::Insert));
    assert_eq!(state.mode, Mode::Insert);
    assert_eq!(buf.head, 4);
    handle_key(&mut state, &mut buf, esc());
    assert_eq!(state.mode, Mode::Normal);
    let res2 = press(&mut state, &mut buf, "A");
    assert_eq!(res2, KeyHandleResult::ModeChanged(Mode::Insert));
    assert_eq!(state.mode, Mode::Insert);
    assert_eq!(buf.head, 15);
}

#[test]
fn select_mode_i_and_a() {
    let mut state = new_state();
    let mut buf = buf_with("    fn main() {}");
    state.set_mode(Mode::Select);
    buf.select_range(4, 8);
    let res = press(&mut state, &mut buf, "I");
    assert_eq!(res, KeyHandleResult::ModeChanged(Mode::Insert));
    assert_eq!(state.mode, Mode::Insert);
    assert_eq!(buf.head, 4);
    handle_key(&mut state, &mut buf, esc());
    state.set_mode(Mode::Select);
    buf.select_range(4, 8);
    let res2 = press(&mut state, &mut buf, "A");
    assert_eq!(res2, KeyHandleResult::ModeChanged(Mode::Insert));
    assert_eq!(state.mode, Mode::Insert);
    assert_eq!(buf.head, 16);
}

#[test]
fn undo_and_redo_keys() {
    let mut state = new_state();
    let mut buf = buf_with("initial");
    buf.place_cursor(7);
    buf.insert_at_cursor(" text");
    assert_eq!(all_text(&buf), "initial text");
    let res = press(&mut state, &mut buf, "u");
    assert_eq!(res, KeyHandleResult::Stop);
    assert_eq!(all_text(&buf), "initial");
    let res2 = press(&mut state, &mut buf, "U");
    assert_eq!(res2, KeyHandleResult::Stop);
    assert_eq!(all_text(&buf), "initial text");
}

#[test]
fn match_mode_mm_jump() {
    let mut state = new_state();
    let mut buf = buf_with("fn foo() { let x = 1; }");
    buf.place_cursor(9);
    press(&mut state, &mut buf, "m");
    let res = press(&mut state, &mut buf, "m");
    assert_eq!(res, KeyHandleResult::Stop);
    assert_eq!(buf.head, 22);
}

#[test]
fn match_mode_surround_add_in_select() {
    let mut state = new_state();
    let mut buf = buf_with("hello world");
    state.set_mode(Mode::Select);
    buf.select_range(0, 5);
    press(&mut state, &mut buf, "ms");
    let res = press(&mut state, &mut buf, "(");
    assert_eq!(res, KeyHandleResult::ModeChanged(Mode::Normal));
    assert_eq!(state.mode, Mode::Normal);
    assert_eq!(all_text(&buf), "(hello) world");
}

#[test]
fn match_mode_surround_delete_and_replace() {
    let mut state = new_state();
    let mut buf = buf_with("let a = (foo);");
    buf.place_cursor(10);
    let res = press(&mut state, &mut buf, "mr([");
    assert_eq!(res, KeyHandleResult::Stop);
    assert_eq!(all_text(&buf), "let a = [foo];");
    let res2 = press(&mut state, &mut buf, "md[");
    assert_eq!(res2, KeyHandleResult::Stop);
    assert_eq!(all_text(&buf), "let a = foo;");
}

#[test]
fn match_mode_textobjects_inner_and_around() {
    let mut state = new_state();
    let mut buf = buf_with("fn bar() { hello_world }");
    buf.place_cursor(15);
    let res = press(&mut state, &mut buf, "mi{");
    assert_eq!(res, KeyHandleResult::Stop);
    assert_eq!(sel_text(&buf), " hello_world ");
    let res2 = press(&mut state, &mut buf, "ma{");
    assert_eq!(res2, KeyHandleResult::Stop);
    assert_eq!(sel_text(&buf), "{ hello_world }");
}

#[test]
fn numerical_count_hjkl_motions() {
    let mut state = new_state();
    let mut buf = buf_with("line0\nline1\nline2\nline3\nline4\nline5\nline6\n");
    buf.place_cursor(0);
    press(&mut state, &mut buf, "5");
    assert_eq!(state.count, Some(5));
    let res = press(&mut state, &mut buf, "j");
    assert_eq!(res, KeyHandleResult::Stop);
    assert_eq!(state.count, None);
    assert_eq!(line(&buf), 5);
    press(&mut state, &mut buf, "3k");
    assert_eq!(line(&buf), 2);
    press(&mut state, &mut buf, "4l");
    assert_eq!(line_offset(&buf), 4);
    press(&mut state, &mut buf, "2h");
    assert_eq!(line_offset(&buf), 2);
}

#[test]
fn numerical_count_multi_digit_and_reset() {
    let mut state = new_state();
    let mut buf = buf_with("abcdefghijklmnopqrstuvwxyz");
    buf.place_cursor(0);
    press(&mut state, &mut buf, "1");
    assert_eq!(state.count, Some(1));
    press(&mut state, &mut buf, "2");
    assert_eq!(state.count, Some(12));
    let res = press(&mut state, &mut buf, "l");
    assert_eq!(res, KeyHandleResult::Stop);
    assert_eq!(state.count, None);
    assert_eq!(buf.head, 12);
    press(&mut state, &mut buf, "l");
    assert_eq!(buf.head, 13);
}

#[test]
fn numerical_count_cancelled_by_esc() {
    let mut state = new_state();
    let mut buf = buf_with("line0\nline1\nline2\nline3\nline4\nline5\n");
    buf.place_cursor(0);
    press(&mut state, &mut buf, "5");
    assert_eq!(state.count, Some(5));
    handle_key(&mut state, &mut buf, esc());
    assert_eq!(state.count, None);
    press(&mut state, &mut buf, "j");
    assert_eq!(line(&buf), 1);
}

#[test]
fn numerical_count_word_and_line_selection() {
    let mut state = new_state();
    let mut buf = buf_with("apple banana cherry date elderberry\nsecond line\nthird line\n");
    buf.place_cursor(0);
    press(&mut state, &mut buf, "3w");
    assert_eq!(sel_text(&buf), "cherry ");
    buf.place_cursor(0);
    press(&mut state, &mut buf, "2x");
    assert_eq!(sel_text(&buf), "apple banana cherry date elderberry\nsecond line\n");
}

#[test]
fn dynamic_on_next_key_custom_chars() {
    let mut state = new_state();
    let mut buf = buf_with("target text");
    state.set_mode(Mode::Select);
    buf.select_range(0, 6);
    let res = press(&mut state, &mut buf, "ms*");
    assert_eq!(res, KeyHandleResult::ModeChanged(Mode::Normal));
    assert_eq!(all_text(&buf), "*target* text");
    buf.place_cursor(4);
    press(&mut state, &mut buf, "mr*#");
    assert_eq!(all_text(&buf), "#target# text");
    press(&mut state, &mut buf, "md#");
    assert_eq!(all_text(&buf), "target text");
}

#[test]
fn named_register_yank_and_paste() {
    let mut state = new_state();
    let mut buf = buf_with("foo bar baz");
    state.set_mode(Mode::Select);
    buf.select_range(0, 3);
    press(&mut state, &mut buf, "\"");
    assert!(state.next_key.is_some());
    press(&mut state, &mut buf, "a");
    assert_eq!(state.selected_register, Some('a'));
    press(&mut state, &mut buf, "y");
    assert_eq!(state.selected_register, None);
    assert_eq!(state.registers.read('a'), "foo");
    assert_eq!(state.registers.read('"'), "");
    assert_eq!(state.registers.read('0'), "");
    buf.place_cursor(11);
    press(&mut state, &mut buf, "\"ap");
    assert_eq!(all_text(&buf), "foo bar bazfoo");
}

#[test]
fn black_hole_register_delete() {
    let mut state = new_state();
    let mut buf = buf_with("keep_me delete_me");
    state.set_mode(Mode::Select);
    buf.select_range(0, 7);
    press(&mut state, &mut buf, "y");
    assert_eq!(state.registers.read('"'), "keep_me");
    state.set_mode(Mode::Select);
    buf.select_range(8, 17);
    press(&mut state, &mut buf, "\"_d");
    assert_eq!(all_text(&buf), "keep_me ");
    assert_eq!(state.registers.read('"'), "keep_me");
}

#[test]
fn yank_register_0_persists_across_deletes() {
    let mut state = new_state();
    let mut buf = buf_with("alpha beta gamma");
    state.set_mode(Mode::Select);
    buf.select_range(0, 5);
    press(&mut state, &mut buf, "y");
    assert_eq!(state.registers.read('"'), "alpha");
    assert_eq!(state.registers.read('0'), "alpha");
    state.set_mode(Mode::Select);
    buf.select_range(6, 10);
    press(&mut state, &mut buf, "d");
    assert_eq!(state.registers.read('"'), "beta");
    assert_eq!(state.registers.read('0'), "alpha");
    let end = buf.char_count();
    buf.place_cursor(end);
    press(&mut state, &mut buf, "\"0p");
    assert!(all_text(&buf).ends_with("alpha"));
}

#[test]
fn shifted_register_yank_and_paste_in_normal_mode() {
    let mut state = new_state();
    let mut buf = buf_with("hello world");
    assert_eq!(state.mode, Mode::Normal);
    buf.place_cursor(0);
    let key_quote = gdk_to_key_event('"' as u32, 1).unwrap();
    let res_quote = handle_key(&mut state, &mut buf, key_quote);
    assert_eq!(res_quote, KeyHandleResult::Stop);
    assert_eq!(state.mode, Mode::Normal);
    assert!(state.next_key.is_some());
    let res_a = press(&mut state, &mut buf, "a");
    assert_eq!(res_a, KeyHandleResult::Stop);
    assert_eq!(state.mode, Mode::Normal);
    assert_eq!(state.selected_register, Some('a'));
    let res_y = press(&mut state, &mut buf, "y");
    assert_eq!(res_y, KeyHandleResult::Stop);
    assert_eq!(state.mode, Mode::Normal);
    assert_eq!(state.selected_register, None);
    assert_eq!(state.registers.read('a'), "h");
    assert_eq!(all_text(&buf), "hello world");
    buf.place_cursor(11);
    assert_eq!(handle_key(&mut state, &mut buf, key_quote), KeyHandleResult::Stop);
    assert_eq!(press(&mut state, &mut buf, "a"), KeyHandleResult::Stop);
    assert_eq!(press(&mut state, &mut buf, "p"), KeyHandleResult::Stop);
    assert_eq!(all_text(&buf), "hello worldh");
}

#[test]
fn numbered_register_1_yank_and_paste_vs_default_register() {
    let mut state = new_state();
    let mut buf = buf_with("foo bar");
    let key_quote = gdk_to_key_event('"' as u32, 1).unwrap();
    state.set_mode(Mode::Select);
    buf.select_range(0, 3);
    handle_key(&mut state, &mut buf, key_quote);
    assert!(state.next_key.is_some());
    press(&mut state, &mut buf, "1");
    assert_eq!(state.selected_register, Some('1'));
    press(&mut state, &mut buf, "y");
    assert_eq!(state.registers.read('1'), "foo");
    assert_eq!(state.registers.read('"'), "");
    state.set_mode(Mode::Select);
    buf.select_range(4, 7);
    press(&mut state, &mut buf, "y");
    assert_eq!(state.registers.read('"'), "bar");
    assert_eq!(state.registers.read('1'), "foo");
    let end = buf.char_count();
    buf.place_cursor(end);
    press(&mut state, &mut buf, "p");
    assert!(all_text(&buf).ends_with("bar"));
    let end = buf.char_count();
    buf.place_cursor(end);
    handle_key(&mut state, &mut buf, key_quote);
    press(&mut state, &mut buf, "1p");
    assert!(all_text(&buf).ends_with("foo"));
}

#[test]
fn space_y_and_space_p_clipboard() {
    let mut state = new_state();
    let mut buf = buf_with("helix editor");
    state.set_mode(Mode::Select);
    buf.select_range(0, 5);
    press(&mut state, &mut buf, " ");
    let res = press(&mut state, &mut buf, "y");
    assert_eq!(res, KeyHandleResult::ModeChanged(Mode::Normal));
    assert_eq!(state.mode, Mode::Normal);
    assert_eq!(state.registers.read('+'), "helix");
    buf.place_cursor(12);
    press(&mut state, &mut buf, " p");
    assert_eq!(all_text(&buf), "helix editorhelix");
}

#[test]
fn paste_before_and_select_mode_paste() {
    let mut state = new_state();
    let mut buf = buf_with("world");
    state.registers.write('"', "hello ");
    buf.place_cursor(0);
    let res = press(&mut state, &mut buf, "P");
    assert_eq!(res, KeyHandleResult::Stop);
    assert_eq!(all_text(&buf), "hello world");
    state.set_mode(Mode::Select);
    buf.select_range(0, 5);
    state.registers.write('"', "brave");
    let res2 = press(&mut state, &mut buf, "p");
    assert_eq!(res2, KeyHandleResult::ModeChanged(Mode::Normal));
    assert_eq!(state.mode, Mode::Normal);
    assert_eq!(all_text(&buf), "brave world");
}

#[test]
fn goto_motions_suite() {
    let mut state = new_state();
    let mut buf = buf_with("    first line\n    second line\n    third line\n");
    let res = press(&mut state, &mut buf, "ge");
    assert_eq!(res, KeyHandleResult::Stop);
    assert_eq!(line(&buf), 2);
    let res2 = press(&mut state, &mut buf, "gg");
    assert_eq!(res2, KeyHandleResult::Stop);
    assert_eq!(buf.head, 0);
    let res3 = press(&mut state, &mut buf, "2gg");
    assert_eq!(res3, KeyHandleResult::Stop);
    assert_eq!(line(&buf), 1);
    press(&mut state, &mut buf, "gl");
    assert_eq!(buf.char_at(buf.head), 'e');
    assert!(buf.ends_line(buf.head + 1));
    press(&mut state, &mut buf, "gh");
    assert_eq!(line_offset(&buf), 0);
    press(&mut state, &mut buf, "gs");
    assert_eq!(line_offset(&buf), 4);
}

#[test]
fn editing_primitives_suite() {
    let mut state = new_state();
    let mut buf = buf_with("  hello world\n");
    buf.place_cursor(4);
    let res_o = press(&mut state, &mut buf, "o");
    assert_eq!(res_o, KeyHandleResult::ModeChanged(Mode::Insert));
    assert_eq!(state.mode, Mode::Insert);
    assert_eq!(line(&buf), 1);
    assert_eq!(line_offset(&buf), 2);
    assert_eq!(all_text(&buf), "  hello world\n  \n");
    handle_key(&mut state, &mut buf, esc());
    assert_eq!(state.mode, Mode::Normal);
    let res_big_o = press(&mut state, &mut buf, "O");
    assert_eq!(res_big_o, KeyHandleResult::ModeChanged(Mode::Insert));
    assert_eq!(state.mode, Mode::Insert);
    assert_eq!(line(&buf), 1);
    assert_eq!(line_offset(&buf), 2);
    handle_key(&mut state, &mut buf, esc());
    let res_pct = press(&mut state, &mut buf, "%");
    assert_eq!(res_pct, KeyHandleResult::Stop);
    let (s, e) = buf.selection_bounds().unwrap();
    assert_eq!(s, 0);
    assert_eq!(e, buf.char_count());
    let res_semi = press(&mut state, &mut buf, ";");
    assert_eq!(res_semi, KeyHandleResult::Stop);
    assert!(!buf.has_selection());
    buf.select_range(2, 5);
    let res_alt_semi = handle_key(&mut state, &mut buf, KeyEvent::new(KeyCode::Char(';'), KeyModifiers::alt()));
    assert_eq!(res_alt_semi, KeyHandleResult::Stop);
    assert_eq!(buf.head, 5);
    assert_eq!(buf.anchor, 2);
    buf.place_cursor(2);
    let res_r = press(&mut state, &mut buf, "r");
    assert_eq!(res_r, KeyHandleResult::Stop);
    let res_r_char = press(&mut state, &mut buf, "H");
    assert_eq!(res_r_char, KeyHandleResult::Stop);
    let first: String = buf.text[2..7].iter().collect();
    assert_eq!(first, "Hello");
    buf.place_cursor(2);
    let res_tilde = press(&mut state, &mut buf, "~");
    assert_eq!(res_tilde, KeyHandleResult::Stop);
    assert_eq!(buf.char_at(2), 'h');
}

#[test]
fn test_controller_goto_next_and_previous_buffer() {
    let mut state = new_state();
    let id1 = state.begin_open(true);
    state.finish_open(id1);
    let id2 = state.begin_open(false);
    state.finish_open(id2);
    assert_eq!(state.current_document_id, id2);
    let mut buf = buf_with("fn main() {}");
    let res_g = press(&mut state, &mut buf, "g");
    assert_eq!(res_g, KeyHandleResult::Stop);
    let res_n = press(&mut state, &mut buf, "n");
    assert_eq!(res_n, KeyHandleResult::DocumentChanged(id1));
    assert_eq!(state.current_document_id, id1);
    let res_p = press(&mut state, &mut buf, "gp");
    assert_eq!(res_p, KeyHandleResult::DocumentChanged(id2));
    assert_eq!(state.current_document_id, id2);
}

#[test]
fn test_controller_space_pickers_and_command_palette() {
    let mut state = new_state();
    let mut buf = buf_with("");
    assert_eq!(press(&mut state, &mut buf, " f"), KeyHandleResult::OpenFilePicker);
    assert_eq!(press(&mut state, &mut buf, " b"), KeyHandleResult::OpenBufferPicker);
    assert_eq!(press(&mut state, &mut buf, ":"), KeyHandleResult::OpenCommandPalette);
}

#[test]
fn count_is_capped_and_zero_extends_it() {
    let mut state = new_state();
    let mut buf = buf_with("abc");
    press(&mut state, &mut buf, "10");
    assert_eq!(state.count, Some(10));
    press(&mut state, &mut buf, "99999999");
    assert_eq!(state.count, Some(100_000_000));
    handle_key(&mut state, &mut buf, esc());
    assert_eq!(state.count, None);
}

#[test]
fn unbound_key_drops_count_and_register() {
    let mut state = new_state();
    let mut buf = buf_with("abc");
    press(&mut state, &mut buf, "\"a3");
    assert_eq!(state.selected_register, Some('a'));
    assert_eq!(state.count, Some(3));
    let res = press(&mut state, &mut buf, "z");
    assert_eq!(res, KeyHandleResult::Stop);
    assert_eq!(state.count, None);
    assert_eq!(state.selected_register, None);
    assert_eq!(all_text(&buf), "abc");
}

#[test]
fn invalid_chord_is_cancelled() {
    let mut state = new_state();
    let mut buf = buf_with("abc");
    press(&mut state, &mut buf, "g");
    assert!(!state.keymap.pending().is_empty());
    press(&mut state, &mut buf, "z");
    assert!(state.keymap.pending().is_empty());
    assert!(state.which_key.is_none());
    assert_eq!(buf.head, 0);
}

#[test]
fn esc_with_pending_keys_keeps_select_mode() {
    let mut state = new_state();
    let mut buf = buf_with("abc");
    press(&mut state, &mut buf, "vg");
    assert_eq!(state.mode, Mode::Select);
    let res = handle_key(&mut state, &mut buf, esc());
    assert_eq!(res, KeyHandleResult::Stop);
    assert_eq!(state.mode, Mode::Select);
    let res2 = handle_key(&mut state, &mut buf, esc());
    assert_eq!(res2, KeyHandleResult::ModeChanged(Mode::Normal));
}

#[test]
fn undo_in_select_returns_to_normal() {
    let mut state = new_state();
    let mut buf = buf_with("abc");
    buf.place_cursor(3);
    buf.insert_at_cursor("d");
    state.set_mode(Mode::Select);
    let res = dispatch(EditorAction::Undo, &mut state, &mut buf, None, '"');
    assert_eq!(res, KeyHandleResult::ModeChanged(Mode::Normal));
    assert_eq!(state.mode, Mode::Normal);
    assert_eq!(all_text(&buf), "abc");
}

#[test]
fn clipboard_paste_before_and_counted_paste() {
    let mut state = new_state();
    let mut buf = buf_with("xy");
    state.registers.write('+', "ab");
    buf.place_cursor(0);
    press(&mut state, &mut buf, " P");
    assert_eq!(all_text(&buf), "abxy");
    state.registers.write('"', "-");
    let end = buf.char_count();
    buf.place_cursor(end);
    press(&mut state, &mut buf, "3p");
    assert_eq!(all_text(&buf), "abxy---");
}
