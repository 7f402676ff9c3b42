use strand::text::buffer::TextBuf;
use strand::text::chars::{categorize, is_word_boundary, CharCategory};
use strand::text::match_brackets::match_brackets;
use strand::text::movement::{
    delete_selection, insert_at_line_end, insert_at_line_start, move_horizontally, move_vertically,
    move_word_backward, move_word_forward, paste_after, redo, select_line, undo, word_move,
    yank_selection, WordMotionTarget,
};
use strand::text::selection::Range;
use strand::text::surround::{surround_add, surround_delete, surround_replace};
use strand::text::textobject::select_textobject;

fn make_buffer(text: &str) -> TextBuf {
    TextBuf::new(text)
}

fn sel(b: &TextBuf) -> String {
    let (s, e) = b.selection_bounds().unwrap();
    b.text[s..e].iter().collect()
}

#[test]
fn horiz_moves() {
    let mut buf = make_buffer("hello");
    buf.place_cursor(0);
    move_horizontally(&mut buf, 1, false);
    assert_eq!(buf.head, 1);
    move_horizontally(&mut buf, -1, false);
    assert_eq!(buf.head, 0);
}

#[test]
fn vert_moves() {
    let mut buf = make_buffer("ab\ncd\nef");
    buf.place_cursor(0);
    move_vertically(&mut buf, 1, false);
    assert_eq!(buf.line_at(buf.head), 1);
    assert_eq!(buf.head - buf.line_start_at(buf.head), 0);
}

#[test]
fn word_forward() {
    let mut buf = make_buffer("hello world  foo");
    buf.place_cursor(0);
    move_word_forward(&mut buf, false);
    let txt = sel(&buf);
    assert!(txt.contains("hello"), "got {:?}", txt);
    assert!(!txt.contains('\n'));
}

#[test]
fn word_backward() {
    let mut buf = make_buffer("hello world");
    buf.place_cursor(6);
    move_word_backward(&mut buf, false);
    let txt = sel(&buf);
    assert!(txt.contains("hello"), "got {:?}", txt);
}

#[test]
fn select_line_test() {
    let mut buf = make_buffer("line1\nline2\nline3");
    buf.place_cursor(6);
    select_line(&mut buf, false);
    let txt = sel(&buf);
    assert!(txt.contains("line2"), "got {:?}", txt);
}

#[test]
fn delete_and_yank() {
    let mut buf = make_buffer("hello world");
    buf.select_range(0, 5);
    let yanked = yank_selection(&buf);
    assert_eq!(yanked, "hello");
    delete_selection(&mut buf);
    assert_eq!(buf.text_string(), " world");
}

#[test]
fn paste() {
    let mut buf = make_buffer("hello");
    buf.place_cursor(5);
    paste_after(&mut buf, " world");
    assert_eq!(buf.text_string(), "hello world");
}

#[test]
fn undo_redo_basic() {
    let mut buf = make_buffer("hello");
    buf.place_cursor(5);
    buf.insert_at_cursor(" world");
    assert_eq!(buf.text_string(), "hello world");
    assert!(buf.can_undo());
    undo(&mut buf);
    assert_eq!(buf.text_string(), "hello");
    assert!(buf.can_redo());
    redo(&mut buf);
    assert_eq!(buf.text_string(), "hello world");
}

#[test]
fn line_start_and_end_motions() {
    let mut buf = make_buffer("    fn foo() {\n        let x = 1;\n    }");
    buf.place_cursor(10);
    insert_at_line_start(&mut buf);
    assert_eq!(buf.head, 4);
    insert_at_line_end(&mut buf);
    assert_eq!(buf.head, 14);
    buf.place_cursor(20);
    insert_at_line_start(&mut buf);
    assert_eq!(buf.head, 23);
    insert_at_line_end(&mut buf);
    assert_eq!(buf.head, 33);
    let mut buf2 = make_buffer("hello world");
    buf2.place_cursor(5);
    insert_at_line_start(&mut buf2);
    assert_eq!(buf2.head, 0);
    insert_at_line_end(&mut buf2);
    assert_eq!(buf2.head, 11);
    let mut buf3 = make_buffer("    \nsecond");
    buf3.place_cursor(2);
    insert_at_line_start(&mut buf3);
    assert_eq!(buf3.head, 0);
    insert_at_line_end(&mut buf3);
    assert_eq!(buf3.head, 4);
}

#[test]
fn extend_keeps_anchor() {
    let mut buf = make_buffer("hello world");
    buf.place_cursor(0);
    move_horizontally(&mut buf, 1, true);
    assert_eq!(buf.anchor, 0);
    assert_eq!(buf.head, 1);
}

#[test]
fn grapheme_forward() {
    let mut buf = make_buffer("e\u{0301}abc");
    buf.place_cursor(0);
    move_horizontally(&mut buf, 1, false);
    let off = buf.head;
    assert!(off == 1 || off == 2);
}

#[test]
fn categorize_word() {
    assert_eq!(categorize('a'), CharCategory::Word);
    assert_eq!(categorize('_'), CharCategory::Word);
    assert_eq!(categorize(' '), CharCategory::Whitespace);
    assert_eq!(categorize('\n'), CharCategory::Eol);
    assert_eq!(categorize('!'), CharCategory::Punctuation);
}

#[test]
fn word_boundary_detection() {
    assert!(is_word_boundary('a', ' '));
    assert!(!is_word_boundary('a', 'b'));
    assert!(is_word_boundary(' ', '!'));
}

#[test]
fn pure_word_forward_logic() {
    let buf = make_buffer("hello world  foo");
    let start = word_move(&buf, Range::new(0, 0), WordMotionTarget::NextWordStart);
    assert_eq!(start.head, 6);
    let end = word_move(&buf, Range::new(0, 0), WordMotionTarget::NextWordEnd);
    assert_eq!(end.head, 5);
    let prev = word_move(&buf, Range::new(6, 6), WordMotionTarget::PrevWordStart);
    assert_eq!(prev.head, 0);
}

#[test]
fn test_match_brackets_logic() {
    let mut buf = make_buffer("fn foo() {\n    let x = 1;\n}");
    buf.place_cursor(6);
    match_brackets(&mut buf, None, false);
    assert_eq!(buf.head, 7);
    match_brackets(&mut buf, None, false);
    assert_eq!(buf.head, 6);
    buf.place_cursor(15);
    match_brackets(&mut buf, None, false);
    assert_eq!(buf.char_at(buf.head), '}');
    match_brackets(&mut buf, None, false);
    assert_eq!(buf.char_at(buf.head), '{');
}

#[test]
fn test_surround_operations() {
    let mut buf = make_buffer("hello world");
    buf.select_range(5, 0);
    surround_add(&mut buf, '(');
    assert_eq!(buf.text_string(), "(hello) world");
    buf.place_cursor(3);
    surround_replace(&mut buf, 'm', '[');
    assert_eq!(buf.text_string(), "[hello] world");
    buf.place_cursor(3);
    surround_delete(&mut buf, 'm');
    assert_eq!(buf.text_string(), "hello world");
}

#[test]
fn test_textobjects() {
    let mut buf = make_buffer("let x = (hello world);");
    buf.place_cursor(10);
    select_textobject(&mut buf, '(', true);
    assert_eq!(sel(&buf), "hello world");
    select_textobject(&mut buf, '(', false);
    assert_eq!(sel(&buf), "(hello world)");
    select_textobject(&mut buf, 'm', true);
    assert_eq!(sel(&buf), "hello world");
    select_textobject(&mut buf, 'w', true);
    assert_eq!(sel(&buf), "hello");
    select_textobject(&mut buf, 'w', false);
    assert_eq!(sel(&buf), "hello ");
}
