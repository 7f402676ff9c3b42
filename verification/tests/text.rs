use strand::text::buffer::TextBuf;
use strand::text::chars::{categorize, char_is_line_ending, is_long_word_boundary, is_word_boundary, CharCategory};
use strand::text::match_brackets::{is_close_pair, is_open_pair, is_valid_pair, match_brackets};
use strand::text::movement::{
    move_long_word_forward,
    collapse_selection, delete_selection, flip_selection, goto_file_end, goto_file_start,
    goto_first_nonwhitespace, goto_line, goto_line_end, goto_line_start, insert_at_line_end,
    insert_at_line_start, move_horizontally, move_vertically, move_word_backward, move_word_forward,
    open_above, open_below, paste_after, paste_before, redo, replace_char, select_all, select_line,
    toggle_case, undo, word_move, yank_selection, WordMotionTarget,
};
use strand::text::selection::{Direction, Range};
use strand::text::surround::{surround_add, surround_delete, surround_replace};
use strand::text::textobject::select_textobject;

fn make_buffer(text: &str) -> TextBuf {
    TextBuf::new(text)
}

fn all_text(b: &TextBuf) -> String {
    b.text_string()
}

fn sel_text(b: &TextBuf) -> String {
    let (s, e) = b.selection_bounds().unwrap();
    b.text[s..e].iter().collect()
}

fn line(b: &TextBuf) -> usize {
    b.line_at(b.head)
}

fn line_offset(b: &TextBuf) -> usize {
    b.head - b.line_start_at(b.head)
}

#[test]
fn test_categorize_word() {
    assert_eq!(categorize('a'), CharCategory::Word);
    assert_eq!(categorize('9'), CharCategory::Word);
    assert_eq!(categorize('_'), CharCategory::Word);
    assert_eq!(categorize(' '), CharCategory::Whitespace);
    assert_eq!(categorize('\t'), CharCategory::Whitespace);
    assert_eq!(categorize('\n'), CharCategory::Eol);
    assert_eq!(categorize('\r'), CharCategory::Eol);
    assert_eq!(categorize('!'), CharCategory::Punctuation);
    assert_eq!(categorize(';'), CharCategory::Punctuation);
}

#[test]
fn test_word_boundary_detection() {
    assert!(is_word_boundary('a', ' '));
    assert!(!is_word_boundary('a', 'b'));
    assert!(is_word_boundary(' ', '!'));
    assert!(is_word_boundary('a', '.'));
}

#[test]
fn test_long_word_boundary() {
    assert!(!is_long_word_boundary('a', '.'));
    assert!(!is_long_word_boundary('.', 'a'));
    assert!(is_long_word_boundary('a', ' '));
    assert!(is_long_word_boundary(' ', 'a'));
}

#[test]
fn test_line_ending() {
    assert!(char_is_line_ending('\n'));
    assert!(char_is_line_ending('\r'));
    assert!(!char_is_line_ending(' '));
    assert!(!char_is_line_ending('a'));
}

#[test]
fn test_range_properties() {
    let forward = Range::new(2, 6);
    assert_eq!(forward.from(), 2);
    assert_eq!(forward.to(), 6);
    assert_eq!(forward.len(), 4);
    assert_eq!(forward.cursor(), 5);
    assert_eq!(forward.direction(), Direction::Forward);

    let backward = Range::new(6, 2);
    assert_eq!(backward.from(), 2);
    assert_eq!(backward.to(), 6);
    assert_eq!(backward.len(), 4);
    assert_eq!(backward.cursor(), 2);
    assert_eq!(backward.direction(), Direction::Backward);

    let point = Range::point(5);
    assert!(point.is_empty());
    assert_eq!(point.cursor(), 5);
}

#[test]
fn test_horizontal_movement() {
    let mut buf = make_buffer("hello world\nsecond line\nthird line");
    buf.place_cursor(0);
    move_horizontally(&mut buf, 1, false);
    assert_eq!(buf.head, 1);
    move_horizontally(&mut buf, -1, false);
    assert_eq!(buf.head, 0);
}

#[test]
fn test_vertical_movement() {
    let mut buf = make_buffer("ab\ncd\nef");
    buf.place_cursor(0);
    move_vertically(&mut buf, 1, false);
    assert_eq!(line(&buf), 1);
    assert_eq!(line_offset(&buf), 0);
}

#[test]
fn test_word_moves() {
    let mut buf = make_buffer("hello world  foo");
    buf.place_cursor(0);
    move_word_forward(&mut buf, false);
    assert!(sel_text(&buf).contains("hello"));

    buf.place_cursor(6);
    move_word_backward(&mut buf, false);
    assert!(sel_text(&buf).contains("hello"));
}

#[test]
fn test_line_selection() {
    let mut buf = make_buffer("line1\nline2\nline3");
    let l1 = buf.line_start_of(1);
    buf.place_cursor(l1);
    select_line(&mut buf, false);
    assert_eq!(sel_text(&buf), "line2\n");
}

#[test]
fn test_edits() {
    let mut buf = make_buffer("hello world");
    buf.select_range(0, 5);
    let yanked = yank_selection(&buf);
    assert_eq!(yanked, "hello");
    delete_selection(&mut buf);
    assert_eq!(all_text(&buf), " world");
    paste_before(&mut buf, "big");
    assert_eq!(all_text(&buf), "big world");

    buf.place_cursor(0);
    let yanked_char = yank_selection(&buf);
    assert_eq!(yanked_char, "b");
}

#[test]
fn test_paste_semantics() {
    let mut buf = make_buffer("hello world");
    buf.place_cursor(0);
    paste_before(&mut buf, "[pre]");
    assert_eq!(all_text(&buf), "[pre]hello world");

    let mut buf2 = make_buffer("hello world");
    buf2.place_cursor(0);
    paste_after(&mut buf2, "[post]");
    assert_eq!(all_text(&buf2), "h[post]ello world");

    let mut buf3 = make_buffer("hello world");
    buf3.select_range(0, 5);
    paste_after(&mut buf3, "goodbye");
    assert_eq!(all_text(&buf3), "goodbye world");

    let mut buf4 = make_buffer("hello world");
    buf4.select_range(0, 5);
    paste_before(&mut buf4, "hi");
    assert_eq!(all_text(&buf4), "hi world");

    let mut buf5 = make_buffer("world\n");
    buf5.place_cursor(0);
    paste_before(&mut buf5, "hello\n");
    assert_eq!(all_text(&buf5), "hello\nworld\n");

    let mut buf6 = make_buffer("hello\nworld\n");
    buf6.place_cursor(0);
    paste_after(&mut buf6, "middle\n");
    assert_eq!(all_text(&buf6), "hello\nmiddle\nworld\n");

    let mut buf7 = make_buffer("hello\nworld");
    let l1 = buf7.line_start_of(1);
    buf7.place_cursor(l1);
    paste_after(&mut buf7, "tail\n");
    assert_eq!(all_text(&buf7), "hello\nworld\ntail\n");
}

#[test]
fn test_goto_motions_suite() {
    let mut buf = make_buffer("    fn foo() {\n        let x = 1;\n        let y = 2;\n    }\n");

    buf.place_cursor(30);
    goto_file_start(&mut buf, false);
    assert_eq!(buf.head, 0);

    goto_line(&mut buf, 2, false);
    assert_eq!(line(&buf), 2);

    goto_file_end(&mut buf, false);
    assert_eq!(line(&buf), 3);

    buf.place_cursor(25);
    assert_eq!(line(&buf), 1);
    goto_line_start(&mut buf, false);
    assert_eq!(line(&buf), 1);
    assert_eq!(line_offset(&buf), 0);

    goto_first_nonwhitespace(&mut buf, false);
    assert_eq!(line(&buf), 1);
    assert_eq!(line_offset(&buf), 8);

    goto_line_end(&mut buf, false);
    assert_eq!(line(&buf), 1);
    assert_eq!(buf.char_at(buf.head), ';');
}

#[test]
fn test_editing_primitives_suite() {
    let mut buf = make_buffer("    hello\n    world\n");
    buf.place_cursor(4);
    open_below(&mut buf, 1);
    assert_eq!(all_text(&buf), "    hello\n    \n    world\n");
    assert_eq!(line(&buf), 1);
    assert_eq!(line_offset(&buf), 4);

    let mut buf2 = make_buffer("    hello\n");
    buf2.place_cursor(4);
    open_above(&mut buf2, 1);
    assert_eq!(all_text(&buf2), "    \n    hello\n");
    assert_eq!(line(&buf2), 0);
    assert_eq!(line_offset(&buf2), 4);

    let mut buf3 = make_buffer("hello");
    buf3.place_cursor(0);
    replace_char(&mut buf3, "j");
    assert_eq!(all_text(&buf3), "jello");

    let mut buf4 = make_buffer("hello world");
    buf4.select_range(0, 5);
    replace_char(&mut buf4, "x");
    assert_eq!(all_text(&buf4), "xxxxx world");

    let mut buf5 = make_buffer("foo bar");
    select_all(&mut buf5);
    let (s, e) = buf5.selection_bounds().unwrap();
    assert_eq!(s, 0);
    assert_eq!(e, 7);

    collapse_selection(&mut buf5);
    assert!(buf5.selection_bounds().is_none());

    let mut buf6 = make_buffer("sample text");
    buf6.select_range(6, 0);
    assert_eq!(buf6.head, 6);
    assert_eq!(buf6.anchor, 0);
    flip_selection(&mut buf6);
    assert_eq!(buf6.head, 0);
    assert_eq!(buf6.anchor, 6);

    let mut buf7 = make_buffer("hello");
    buf7.place_cursor(0);
    toggle_case(&mut buf7);
    assert_eq!(all_text(&buf7), "Hello");

    let mut buf8 = make_buffer("hELLO wORLD");
    buf8.select_range(0, 11);
    toggle_case(&mut buf8);
    assert_eq!(all_text(&buf8), "Hello World");
}

#[test]
fn test_undo_redo_basic() {
    let mut buf = make_buffer("hello");
    buf.place_cursor(5);
    buf.insert_at_cursor(" world");
    assert_eq!(all_text(&buf), "hello world");
    assert!(buf.can_undo());
    undo(&mut buf);
    assert_eq!(all_text(&buf), "hello");
    assert!(buf.can_redo());
    redo(&mut buf);
    assert_eq!(all_text(&buf), "hello world");
}

#[test]
fn test_line_start_and_end_motions() {
    let mut buf = make_buffer("    fn foo() {\n        let x = 1;\n    }");
    buf.place_cursor(10);
    insert_at_line_start(&mut buf);
    assert_eq!(buf.head, 4);
    insert_at_line_end(&mut buf);
    assert_eq!(buf.head, 14);

    buf.place_cursor(20);
    insert_at_line_start(&mut buf);
    assert_eq!(buf.head, 23);
    insert_at_line_end(&mut buf);
    assert_eq!(buf.head, 33);

    let mut buf2 = make_buffer("hello world");
    buf2.place_cursor(5);
    insert_at_line_start(&mut buf2);
    assert_eq!(buf2.head, 0);
    insert_at_line_end(&mut buf2);
    assert_eq!(buf2.head, 11);

    let mut buf3 = make_buffer("    \nsecond");
    buf3.place_cursor(2);
    insert_at_line_start(&mut buf3);
    assert_eq!(buf3.head, 0);
    insert_at_line_end(&mut buf3);
    assert_eq!(buf3.head, 4);
}

#[test]
fn test_extend_keeps_anchor() {
    let mut buf = make_buffer("hello world");
    buf.place_cursor(0);
    move_horizontally(&mut buf, 1, true);
    assert_eq!(buf.anchor, 0);
    assert_eq!(buf.head, 1);
}

#[test]
fn test_grapheme_forward() {
    let mut buf = make_buffer("e\u{0301}abc");
    buf.place_cursor(0);
    move_horizontally(&mut buf, 1, false);
    let off = buf.head;
    assert!(off == 1 || off == 2);
}

#[test]
fn test_pure_word_forward_logic() {
    let buf = make_buffer("hello world  foo");
    let start = word_move(&buf, Range::new(0, 0), WordMotionTarget::NextWordStart);
    assert_eq!(start.head, 6);
    let end = word_move(&buf, Range::new(0, 0), WordMotionTarget::NextWordEnd);
    assert_eq!(end.head, 5);
    let prev = word_move(&buf, Range::new(6, 6), WordMotionTarget::PrevWordStart);
    assert_eq!(prev.head, 0);
}

#[test]
fn test_w_with_symbols_and_newline() {
    let buf = make_buffer("a/b");
    assert_eq!(word_move(&buf, Range::new(0, 0), WordMotionTarget::NextWordStart).head, 2);
    assert_eq!(word_move(&buf, Range::new(1, 2), WordMotionTarget::NextWordStart).head, 3);

    let buf2 = make_buffer("foo\n    /bar");
    assert_eq!(word_move(&buf2, Range::new(0, 0), WordMotionTarget::NextWordStart).head, 3);
    assert_eq!(word_move(&buf2, Range::new(3, 3), WordMotionTarget::NextWordStart).head, 8);
    assert_eq!(word_move(&buf2, Range::new(8, 8), WordMotionTarget::NextWordStart).head, 12);
    assert_eq!(word_move(&buf2, Range::new(12, 12), WordMotionTarget::PrevWordStart).head, 9);
    assert_eq!(word_move(&buf2, Range::new(9, 9), WordMotionTarget::PrevWordStart).head, 8);
    assert_eq!(word_move(&buf2, Range::new(8, 8), WordMotionTarget::PrevWordStart).head, 4);
    assert_eq!(word_move(&buf2, Range::new(4, 4), WordMotionTarget::PrevWordStart).head, 0);
}

#[test]
fn test_bracket_logic() {
    let mut buf = make_buffer("fn foo() {\n    let x = 1;\n}");
    buf.place_cursor(6);
    match_brackets(&mut buf, None, false);
    assert_eq!(buf.head, 7);
    match_brackets(&mut buf, None, false);
    assert_eq!(buf.head, 6);
}

#[test]
fn test_bracket_extend() {
    let mut buf = make_buffer("fn foo(bar, baz) {}");
    buf.place_cursor(6);
    match_brackets(&mut buf, None, true);
    assert_eq!(buf.head, 15);
    assert_eq!(buf.anchor, 6);
}

#[test]
fn test_surround_lifecycle() {
    let mut buf = make_buffer("hello world");
    buf.select_range(5, 0);
    surround_add(&mut buf, '(');
    assert_eq!(all_text(&buf), "(hello) world");

    buf.place_cursor(3);
    surround_replace(&mut buf, 'm', '[');
    assert_eq!(all_text(&buf), "[hello] world");

    buf.place_cursor(3);
    surround_delete(&mut buf, 'm');
    assert_eq!(all_text(&buf), "hello world");
}

#[test]
fn test_textobjects_suite() {
    let mut buf = make_buffer("let x = (hello world);");
    buf.place_cursor(10);

    select_textobject(&mut buf, '(', true);
    assert_eq!(sel_text(&buf), "hello world");

    select_textobject(&mut buf, '(', false);
    assert_eq!(sel_text(&buf), "(hello world)");

    select_textobject(&mut buf, 'm', true);
    assert_eq!(sel_text(&buf), "hello world");

    select_textobject(&mut buf, 'w', true);
    assert_eq!(sel_text(&buf), "hello");

    select_textobject(&mut buf, 'w', false);
    assert_eq!(sel_text(&buf), "hello ");
}

#[test]
fn long_words_and_bracket_pairs() {
    let mut b = TextBuf::new("foo.bar baz");
    b.place_cursor(0);
    move_long_word_forward(&mut b, false);
    assert_eq!((b.anchor, b.head), (8, 8));
    b.place_cursor(0);
    move_long_word_forward(&mut b, true);
    assert_eq!(b.slice(b.anchor.min(b.head), b.anchor.max(b.head)).iter().collect::<String>(), "foo.bar ");
    assert!(is_open_pair('('));
    assert!(is_close_pair(']'));
    assert!(!is_open_pair('}'));
    assert!(is_valid_pair('"'));
    assert!(!is_valid_pair('a'));
    let parts = TextBuf::from_parts(vec!['a', 'b'], vec![true, true, true], vec![false, false], 0, 2).unwrap();
    assert_eq!(parts.char_count(), 2);
    assert!(TextBuf::from_parts(vec!['a'], vec![true], vec![false], 0, 0).is_none());
}
