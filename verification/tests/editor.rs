use strand::commands::ex::{
    change_directory, execute_command, finish_open_file, finish_save, finish_theme, parse_command,
    CommandEffect, CommandKind,
};
use strand::components::controller::KeyHandleResult;
use strand::components::palette::{
    initial_selection,
    buffer_item, buffer_palette_items, builtin_commands, command_palette_items, command_to_run,
    counter_text, file_item, file_palette_items, moved_selection, palette_choice, palette_key,
    palette_rows, BufferPickerItem, PaletteChoice, PaletteItem, PaletteKey, PaletteMode,
};
use strand::components::statusline::{
    DiagnosticSeverity, IndentStyle, LineEnding, StatusLineConfig, StatusLineElement,
};
use strand::components::which_key::WhichKeyData;
use strand::editor::document::{detect_indent_style, detect_line_ending, DocumentError, DocumentId};
use strand::editor::register::Registers;
use strand::editor::state::{CloseError, EditorState};
use strand::editor::theme::{
    CatppuccinFlavor, CATPPUCCIN_FRAPPE, CATPPUCCIN_LATTE, CATPPUCCIN_MACCHIATO, CATPPUCCIN_MOCHA,
};
use strand::editor::workspace::{branch_from_head, find_workspace_in, gitdir_from_file, Workspace};
use strand::keymap::default::default_keymap;
use strand::text::fuzzy::{
    escape_pango, highlight_pango_markup, highlight_pango_markup_with_tags, rank, sorted_unique, FuzzyMatcher,
};

fn new_state() -> EditorState {
    EditorState::new(default_keymap(), Workspace::new("/home/user/strand"))
}

fn names(list: &[(usize, &str)]) -> Vec<(DocumentId, String)> {
    list.iter().map(|(i, n)| (DocumentId(*i), n.to_string())).collect()
}

fn status(state: &EditorState) -> (String, DiagnosticSeverity) {
    state.status_msg.clone().unwrap()
}

#[test]
fn test_default_register() {
    let mut reg = Registers::new();
    assert_eq!(reg.read('"'), "");
    reg.write('"', "sample text");
    assert_eq!(reg.read('"'), "sample text");
}

#[test]
fn test_yank_register() {
    let mut reg = Registers::new();
    assert_eq!(reg.read('0'), "");
    reg.write('0', "yanked text");
    assert_eq!(reg.read('0'), "yanked text");
    assert_eq!(reg.read('"'), "");
}

#[test]
fn test_black_hole_register() {
    let mut reg = Registers::new();
    assert_eq!(reg.read('_'), "");
    reg.write('_', "never saved");
    assert_eq!(reg.read('_'), "");
}

#[test]
fn test_named_registers() {
    let mut reg = Registers::new();
    reg.write('a', "alpha");
    reg.write('b', "beta");
    assert_eq!(reg.read('a'), "alpha");
    assert_eq!(reg.read('b'), "beta");
    assert_eq!(reg.read('c'), "");
}

#[test]
fn test_clipboard_registers() {
    let mut reg = Registers::new();
    reg.write('+', "system clip");
    assert_eq!(reg.read('+'), "system clip");
    reg.write('*', "primary clip");
    assert_eq!(reg.read('*'), "primary clip");
    reg.set_clipboard("external clip");
    assert_eq!(reg.read('+'), "external clip");
    assert_eq!(reg.read('*'), "external clip");
}

#[test]
fn test_overwrite_register() {
    let mut reg = Registers::new();
    reg.write('x', "first");
    assert_eq!(reg.read('x'), "first");
    reg.write('x', "second");
    assert_eq!(reg.read('x'), "second");
}

#[test]
fn test_iter_preview() {
    let mut reg = Registers::new();
    reg.write('"', "hello\nworld");
    reg.write('0', "yanked text");
    reg.write('a', "named alpha");
    let previews = reg.iter_preview();
    assert!(previews.iter().any(|(c, s)| *c == '"' && s.contains("hello")));
    assert!(previews.iter().any(|(c, s)| *c == '0' && s.contains("yanked text")));
    assert!(previews.iter().any(|(c, s)| *c == 'a' && s == "named alpha"));
    assert!(previews.iter().any(|(c, s)| *c == '_' && s.contains("black hole")));
}

#[test]
fn register_previews_in_order() {
    let mut reg = Registers::new();
    reg.write('"', "first line\nsecond");
    reg.write('z', "zed");
    reg.write('b', "bee");
    let previews = reg.iter_preview();
    let keys: Vec<char> = previews.iter().map(|(c, _)| *c).collect();
    assert_eq!(keys, vec!['"', '0', '+', '*', '_', 'b', 'z']);
    assert_eq!(previews[0].1, "default: first line");
    assert_eq!(previews[1].1, "yank: <empty>");
    assert_eq!(previews[4].1, "<black hole>");
}

#[test]
fn test_from_registers() {
    let mut reg = Registers::new();
    reg.write('"', "yanked text");
    reg.write('a', "custom register content");
    let data = WhichKeyData::from_registers(&reg);
    assert_eq!(data.title, "Registers");
    let def_entry = data.entries.iter().find(|e| e.key_label == "\"").unwrap();
    assert!(def_entry.description.contains("yanked text"));
    let a_entry = data.entries.iter().find(|e| e.key_label == "a").unwrap();
    assert_eq!(a_entry.description, "custom register content");
}

#[test]
fn config_test_default_config() {
    let config = StatusLineConfig::default();
    assert_eq!(config.mode.normal, "NOR");
    assert_eq!(config.mode.insert, "INS");
    assert_eq!(config.mode.select, "SEL");
    assert_eq!(config.separator, "│");
    assert!(config.left.contains(&StatusLineElement::Mode));
    assert!(config.right.contains(&StatusLineElement::Position));
}

#[test]
fn test_indent_style_display() {
    assert_eq!(IndentStyle::Spaces(4).to_string(), "4 Spaces");
    assert_eq!(IndentStyle::Spaces(2).to_string(), "2 Spaces");
    assert_eq!(IndentStyle::Tabs.to_string(), "Tabs");
}

#[test]
fn test_line_ending_display() {
    assert_eq!(LineEnding::Lf.to_string(), "LF");
    assert_eq!(LineEnding::Crlf.to_string(), "CRLF");
}

#[test]
fn line_ending_and_indent_detection() {
    assert_eq!(detect_line_ending("a\nb\n"), LineEnding::Lf);
    assert_eq!(detect_line_ending("a\r\nb\r\n"), LineEnding::Crlf);
    assert_eq!(detect_line_ending(""), LineEnding::Lf);
    assert_eq!(detect_indent_style("fn main() {\n\tlet x = 1;\n}\n"), IndentStyle::Tabs);
    assert_eq!(detect_indent_style("fn main() {\n  let x = 1;\n  x\n}\n"), IndentStyle::Spaces(2));
    assert_eq!(detect_indent_style("fn main() {\n    let x = 1;\n}\n"), IndentStyle::Spaces(4));
}

#[test]
fn document_error_messages() {
    assert_eq!(DocumentId(12).to_string(), "12");
    assert_eq!(DocumentError::NoPathSet.to_string(), "no path set for document");
    assert_eq!(CloseError::DoesNotExist.to_string(), "document does not exist");
}

#[test]
fn test_buffer_picker_item_display() {
    let item = BufferPickerItem {
        id: DocumentId(1),
        display_name: "main.rs".to_string(),
        relative_path: Some("src/main.rs".to_string()),
        is_modified: true,
        is_read_only: false,
    };
    assert_eq!(item.id, DocumentId(1));
    assert!(item.is_modified);
}

#[test]
fn buffer_items_are_numbered_and_badged() {
    let item = BufferPickerItem {
        id: DocumentId(3),
        display_name: "main.rs".to_string(),
        relative_path: Some("src/main.rs".to_string()),
        is_modified: true,
        is_read_only: false,
    };
    let p = buffer_item(&item);
    assert_eq!(p.id, "3");
    assert_eq!(p.title, "3: main.rs");
    assert_eq!(p.subtitle.as_deref(), Some("src/main.rs"));
    assert_eq!(p.badge.as_deref(), Some("[+]"));
    let all = buffer_palette_items(&vec![item]);
    assert_eq!(all.len(), 1);
}

#[test]
fn test_builtin_commands_catalog() {
    let commands = builtin_commands();
    assert!(commands.iter().any(|c| c.name == ":w"));
    assert!(commands.iter().any(|c| c.name == ":q"));
    assert!(commands.iter().any(|c| c.name == ":theme"));
    assert!(commands.iter().any(|c| c.name == ":e"));
    assert!(commands.iter().any(|c| c.name == ":b"));
}

#[test]
fn palette_items_and_command_choice() {
    let items = command_palette_items();
    assert_eq!(items.len(), builtin_commands().len());
    let item = PaletteItem::new("x", "Title", "key").with_subtitle("sub").with_badge("b").with_is_path(true);
    assert_eq!(item.subtitle.as_deref(), Some("sub"));
    assert!(item.is_path);
    assert_eq!(command_to_run(":e foo".to_string(), ":w".to_string()), ":e foo");
    assert_eq!(command_to_run(" : ".to_string(), ":w".to_string()), ":w");
    assert_eq!(command_to_run("".to_string(), ":q".to_string()), ":q");
}

#[test]
fn test_pango_markup_highlighting() {
    let text = "Cargo.toml";
    let indices = vec![0, 6];
    let markup = highlight_pango_markup(text, &indices);
    assert_eq!(markup, "<b>C</b>argo.<b>t</b>oml");
    let text_with_symbols = "foo <bar> & baz";
    let indices = vec![0, 5];
    let markup = highlight_pango_markup(text_with_symbols, &indices);
    assert_eq!(markup, "<b>f</b>oo &lt;<b>b</b>ar&gt; &amp; baz");
}

#[test]
fn pango_escaping_and_custom_tags() {
    assert_eq!(escape_pango("a<b>&\"'"), "a&lt;b&gt;&amp;&quot;&apos;");
    assert_eq!(highlight_pango_markup("plain", &[]), "plain");
    assert_eq!(highlight_pango_markup_with_tags("ab", &[1], "<u>", "</u>"), "a<u>b</u>");
}

#[test]
fn test_flavor_properties() {
    assert_eq!(CatppuccinFlavor::Mocha.id(), CATPPUCCIN_MOCHA);
    assert_eq!(CatppuccinFlavor::Macchiato.id(), CATPPUCCIN_MACCHIATO);
    assert_eq!(CatppuccinFlavor::Frappe.id(), CATPPUCCIN_FRAPPE);
    assert_eq!(CatppuccinFlavor::Latte.id(), CATPPUCCIN_LATTE);
    assert!(CatppuccinFlavor::Mocha.is_dark());
    assert!(CatppuccinFlavor::Macchiato.is_dark());
    assert!(CatppuccinFlavor::Frappe.is_dark());
    assert!(!CatppuccinFlavor::Latte.is_dark());
}

#[test]
fn test_workspace_relative_path() {
    let ws = Workspace::new("/home/user/strand");
    let cargo_toml = format!("{}/Cargo.toml", ws.root());
    let rel = ws.relative_path(&cargo_toml);
    assert_eq!(rel, "Cargo.toml");
}

#[test]
fn workspace_names_and_containment() {
    let ws = Workspace::new("/home/user/strand");
    assert_eq!(ws.name(), "strand");
    assert!(ws.contains_file("/home/user/strand/src/main.rs"));
    assert!(!ws.contains_file("/home/user/other/x.rs"));
    assert_eq!(ws.relative_path("/etc/hosts"), "/etc/hosts");
    assert_eq!(Workspace::new("/").name(), "Strand");
}

#[test]
fn workspace_found_at_first_marked_ancestor() {
    let (root, fallback) = find_workspace_in("/a/b/c", &vec![false, true, true, false]);
    assert_eq!(root, "/a/b");
    assert!(!fallback);
    let (root2, fallback2) = find_workspace_in("/a/b/c", &vec![false, false, false, false]);
    assert_eq!(root2, "/a/b/c");
    assert!(fallback2);
}

#[test]
fn git_head_and_gitdir_files() {
    assert_eq!(branch_from_head("ref: refs/heads/main\n"), "main");
    assert_eq!(branch_from_head("0123456789abcdef0123456789\n"), "0123456");
    assert_eq!(gitdir_from_file("gitdir: /repo/.git/worktrees/x\n").as_deref(), Some("/repo/.git/worktrees/x"));
    assert_eq!(gitdir_from_file("nothing here"), None);
}

#[test]
fn test_editor_state_initial_scratch() {
    let state = new_state();
    assert_eq!(state.documents.len(), 1);
    assert_eq!(state.current_document_id, DocumentId(1));
    assert_eq!(state.document_ids(), vec![DocumentId(1)]);
}

#[test]
fn test_editor_state_open_and_switch() {
    let mut state = new_state();
    let id1 = state.begin_open(true);
    state.finish_open(id1);
    assert_eq!(state.current_document_id, id1);
    assert_eq!(state.documents.len(), 1);
    let id2 = state.begin_open(false);
    state.finish_open(id2);
    assert_eq!(state.current_document_id, id2);
    assert_eq!(state.documents.len(), 2);
    assert!(state.switch_document(id1));
    assert_eq!(state.current_document_id, id1);
    assert_eq!(state.documents.len(), 2);
    assert_eq!(state.next_document(), id2);
    assert_eq!(state.next_document(), id1);
    assert_eq!(state.prev_document(), id2);
}

#[test]
fn test_editor_state_close_document() {
    let mut state = new_state();
    let id1 = state.begin_open(true);
    state.finish_open(id1);
    let id2 = state.begin_open(false);
    state.finish_open(id2);
    assert_eq!(state.documents.len(), 2);
    assert_eq!(state.current_document_id, id2);
    let remaining = state.close_document(id2, false, false).unwrap();
    assert_eq!(remaining, Some(id1));
    assert_eq!(state.documents.len(), 1);
    assert_eq!(state.current_document_id, id1);
    let remaining = state.close_document(id1, false, false).unwrap();
    assert_eq!(remaining, None);
    assert_eq!(state.documents.len(), 0);
}

#[test]
fn close_refusals_and_history() {
    let mut state = new_state();
    let id2 = state.new_scratch_document();
    let id3 = state.new_scratch_document();
    assert_eq!(state.close_document(DocumentId(9), false, false), Err(CloseError::DoesNotExist));
    assert_eq!(state.close_document(id3, false, true), Err(CloseError::Modified));
    assert!(state.switch_document(DocumentId(1)));
    assert!(state.switch_document(id3));
    assert_eq!(state.access_history, vec![id2, DocumentId(1), id3]);
    assert_eq!(state.close_document(id3, true, true), Ok(Some(DocumentId(1))));
    assert_eq!(state.current_document_id, DocumentId(1));
    assert!(!state.switch_document(id3));
}

#[test]
fn test_buffer_navigation_and_close() {
    let mut state = new_state();
    let id1 = state.begin_open(true);
    state.finish_open(id1);
    let id2 = state.begin_open(false);
    state.finish_open(id2);
    let n = names(&[(1, "Cargo.toml"), (2, "src/main.rs")]);
    assert_eq!(state.current_document_id, id2);
    let res1 = execute_command(&mut state, ":bn", false, &n);
    assert_eq!(res1, CommandEffect::Done(KeyHandleResult::DocumentChanged(id1)));
    assert_eq!(state.current_document_id, id1);
    let res2 = execute_command(&mut state, ":bp", false, &n);
    assert_eq!(res2, CommandEffect::Done(KeyHandleResult::DocumentChanged(id2)));
    assert_eq!(state.current_document_id, id2);
    let res_close = execute_command(&mut state, ":bc", true, &n);
    assert_eq!(res_close, CommandEffect::Done(KeyHandleResult::Stop));
    assert!(state.documents.contains(&id2));
    let res_fclose = execute_command(&mut state, ":bc!", true, &n);
    assert_eq!(res_fclose, CommandEffect::Done(KeyHandleResult::DocumentChanged(id1)));
    assert!(!state.documents.contains(&id2));
    assert_eq!(state.current_document_id, id1);
}

#[test]
fn test_execute_commands() {
    let mut state = new_state();
    let res = execute_command(&mut state, ":pwd", false, &names(&[(1, "[scratch]")]));
    assert_eq!(res, CommandEffect::Done(KeyHandleResult::Stop));
    assert!(state.status_msg.is_some());
    assert_eq!(
        execute_command(&mut state, ":e Cargo.toml", false, &names(&[(1, "[scratch]")])),
        CommandEffect::Open("Cargo.toml".to_string())
    );
    let id1 = state.begin_open(true);
    state.finish_open(id1);
    let id2 = state.begin_open(false);
    state.finish_open(id2);
    let n = names(&[(1, "Cargo.toml"), (2, "src/main.rs")]);
    let res_bp = execute_command(&mut state, ":bp", false, &n);
    assert_eq!(res_bp, CommandEffect::Done(KeyHandleResult::DocumentChanged(id1)));
    let res_bn = execute_command(&mut state, ":bn", false, &n);
    assert_eq!(res_bn, CommandEffect::Done(KeyHandleResult::DocumentChanged(id2)));
    let res_b = execute_command(&mut state, ":b Cargo", false, &n);
    assert_eq!(res_b, CommandEffect::Done(KeyHandleResult::DocumentChanged(id1)));
    assert_eq!(state.current_document_id, id1);
    let res_th = execute_command(&mut state, ":theme catppuccin-latte", false, &n);
    assert_eq!(
        res_th,
        CommandEffect::ApplyTheme("catppuccin-latte".to_string(), "catppuccin-latte".to_string())
    );
}

#[test]
fn command_lines_are_read_by_words() {
    let c = parse_command("  :w   notes.txt  extra ");
    assert_eq!(c.kind, CommandKind::Write);
    assert_eq!(c.name, "w");
    assert_eq!(c.arg.as_deref(), Some("notes.txt"));
    let d = parse_command("bclose!");
    assert_eq!(d.kind, CommandKind::ForceQuit);
    assert_eq!(d.arg, None);
    assert_eq!(parse_command("  : ").kind, CommandKind::Empty);
    assert_eq!(parse_command(":frobnicate").kind, CommandKind::Unknown);
    assert_eq!(parse_command("buffer-previous").kind, CommandKind::BufferPrevious);
}

#[test]
fn command_messages_and_effects() {
    let mut state = new_state();
    let n = names(&[(1, "[scratch]")]);
    assert_eq!(execute_command(&mut state, ":frob", false, &n), CommandEffect::Done(KeyHandleResult::Stop));
    assert_eq!(status(&state), ("Unknown command: :frob".to_string(), DiagnosticSeverity::Error));
    execute_command(&mut state, ":e", false, &n);
    assert_eq!(status(&state).0, "No path provided for :e / :open");
    execute_command(&mut state, ":cd", false, &n);
    assert_eq!(status(&state).0, "No path provided for :cd");
    execute_command(&mut state, ":theme", false, &n);
    assert_eq!(status(&state).0, "No theme name provided (try mocha, latte, frappe, macchiato)");
    assert_eq!(
        execute_command(&mut state, ":theme mocha", false, &n),
        CommandEffect::ApplyTheme("catppuccin-mocha".to_string(), "mocha".to_string())
    );
    assert_eq!(execute_command(&mut state, ":w out.txt", false, &n), CommandEffect::Save(Some("out.txt".to_string()), false));
    assert_eq!(execute_command(&mut state, ":wq", false, &n), CommandEffect::Save(None, true));
    assert_eq!(execute_command(&mut state, ":cd /tmp", false, &n), CommandEffect::ChangeDirectory("/tmp".to_string()));
    execute_command(&mut state, ":pwd", false, &n);
    assert_eq!(status(&state), ("Workspace root: /home/user/strand".to_string(), DiagnosticSeverity::Info));
    assert_eq!(execute_command(&mut state, ":b", false, &n), CommandEffect::Done(KeyHandleResult::OpenBufferPicker));
    assert_eq!(status(&state).0, "Buffer picker: 1 open buffers");
    execute_command(&mut state, ":b nothing", false, &n);
    assert_eq!(status(&state), ("Buffer not found: nothing".to_string(), DiagnosticSeverity::Error));
    assert_eq!(execute_command(&mut state, "", false, &n), CommandEffect::Done(KeyHandleResult::Stop));
    change_directory(&mut state, "/srv/project");
    assert_eq!(state.workspace.root(), "/srv/project");
    assert_eq!(state.workspace.name(), "project");
    assert_eq!(status(&state).0, "Workspace root set to: /srv/project");
}

#[test]
fn buffer_by_number_and_quit_on_last() {
    let mut state = new_state();
    let id2 = state.new_scratch_document();
    let n = names(&[(1, "a.rs"), (2, "b.rs")]);
    assert_eq!(execute_command(&mut state, ":b +1", false, &n), CommandEffect::Done(KeyHandleResult::DocumentChanged(DocumentId(1))));
    assert_eq!(status(&state).0, "Switched to buffer 1: a.rs");
    assert_eq!(execute_command(&mut state, ":q", true, &n), CommandEffect::Done(KeyHandleResult::Stop));
    assert_eq!(status(&state).0, "Buffer has unsaved changes (use :q! or force to close)");
    assert_eq!(execute_command(&mut state, ":q", false, &n), CommandEffect::Done(KeyHandleResult::DocumentChanged(id2)));
    assert_eq!(status(&state).0, "Closed buffer. Now at 2: b.rs");
    assert_eq!(execute_command(&mut state, ":quit!", true, &n), CommandEffect::Done(KeyHandleResult::Quit));
    assert_eq!(state.documents.len(), 0);
    assert_eq!(execute_command(&mut state, ":q!", false, &n), CommandEffect::Done(KeyHandleResult::Stop));
    assert_eq!(status(&state).0, "Error closing buffer: document does not exist");
}

#[test]
fn test_fuzzy_match_basic() {
    let mut matcher = FuzzyMatcher::new();
    let res = matcher.fuzzy_match("ct", "Cargo.toml", true);
    assert!(res.is_some());
    let (score, indices) = res.unwrap();
    assert!(score > 0);
    assert_eq!(indices, vec![0, 6]);
}

#[test]
fn test_fuzzy_match_empty_query() {
    let mut matcher = FuzzyMatcher::new();
    let res = matcher.fuzzy_match("", "Cargo.toml", true);
    assert_eq!(res, Some((0, Vec::new())));
}

#[test]
fn test_filter_and_sort() {
    let items = vec![
        "src/main.rs".to_string(),
        "src/app.rs".to_string(),
        "src/components/editor/controller.rs".to_string(),
        "Cargo.toml".to_string(),
    ];
    let mut matcher = FuzzyMatcher::new();
    let results = matcher.filter_and_sort("app", &items, true);
    assert_eq!(results.len(), 1);
    assert_eq!(results[0].item, "src/app.rs");
    assert!(!results[0].indices.is_empty());
    let results_rs = matcher.filter_and_sort("rs", &items, true);
    assert_eq!(results_rs.len(), 3);
}

#[test]
fn test_benchmarking_10000_strings() {
    let mut items = Vec::with_capacity(10_000);
    for i in 0..10_000 {
        items.push(format!("src/module_{}/component_{}/subfile_{}.rs", i % 50, i % 100, i));
    }
    let mut matcher = FuzzyMatcher::new();
    let start = std::time::Instant::now();
    let results = matcher.filter_and_sort("comp25sub425", &items, true);
    let duration = start.elapsed();
    assert!(!results.is_empty());
    println!("Fuzzy matched 10,000 items in {:?}", duration);
    assert!(duration.as_millis() < 50, "Matching took too long: {:?}", duration);
}

#[test]
fn ranking_keeps_item_order_for_equal_scores() {
    let items = vec!["b".to_string(), "a".to_string(), "c".to_string()];
    let mut matcher = FuzzyMatcher::new();
    let all = matcher.filter_and_sort("", &items, false);
    let names: Vec<&str> = all.iter().map(|r| r.item.as_str()).collect();
    assert_eq!(names, vec!["b", "a", "c"]);
    assert!(all.iter().all(|r| r.score == 0 && r.indices.is_empty()));
    let outs = vec![Some((5, vec![0])), None, Some((9, vec![2, 1]))];
    let ranked = rank(&items, &outs);
    let order: Vec<&str> = ranked.iter().map(|r| r.item.as_str()).collect();
    assert_eq!(order, vec!["c", "b"]);
    assert_eq!(sorted_unique(&vec![3, 1, 3, 2]), vec![1, 2, 3]);
    assert_eq!(matcher.fuzzy_match("zz", "Cargo.toml", false), None);
}

#[test]
fn outcomes_of_saving_opening_and_theming_are_reported() {
    let mut state = new_state();
    let n = names(&[(1, "notes.txt")]);
    let e = finish_save(&mut state, Ok(()), "notes.txt", false, false, &n);
    assert_eq!(e, CommandEffect::Done(KeyHandleResult::Stop));
    assert_eq!(state.status_msg, Some(("\"notes.txt\" written".to_string(), DiagnosticSeverity::Info)));
    finish_save(&mut state, Err(DocumentError::NoPathSet), "[scratch]", false, true, &n);
    assert_eq!(
        state.status_msg,
        Some(("Cannot save: no file name (use :w <path>)".to_string(), DiagnosticSeverity::Error))
    );
    finish_save(&mut state, Err(DocumentError::Io("disk full".to_string())), "notes.txt", false, true, &n);
    assert_eq!(state.status_msg, Some(("Save failed: I/O error: disk full".to_string(), DiagnosticSeverity::Error)));
    let quit = finish_save(&mut state, Ok(()), "notes.txt", true, false, &n);
    assert_eq!(quit, CommandEffect::Done(KeyHandleResult::Quit));

    let mut state = new_state();
    let r = finish_open_file(&mut state, Ok(DocumentId(2)), "src/main.rs");
    assert_eq!(r, KeyHandleResult::DocumentChanged(DocumentId(2)));
    assert_eq!(state.status_msg, Some(("Opened \"src/main.rs\"".to_string(), DiagnosticSeverity::Info)));
    let r = finish_open_file(&mut state, Err(DocumentError::IsADirectory("src".to_string())), "src");
    assert_eq!(r, KeyHandleResult::Stop);
    assert_eq!(state.status_msg, Some(("Open failed: 'src' is a directory".to_string(), DiagnosticSeverity::Error)));

    assert_eq!(finish_theme(&mut state, true, "catppuccin-latte", "latte"), KeyHandleResult::Stop);
    assert_eq!(state.status_msg, Some(("Applied theme: catppuccin-latte".to_string(), DiagnosticSeverity::Info)));
    finish_theme(&mut state, false, "catppuccin-nope", "nope");
    assert_eq!(state.status_msg, Some(("Theme not found: nope".to_string(), DiagnosticSeverity::Error)));
}

#[test]
fn file_items_show_name_and_directory() {
    let item = file_item("src/components/palette.rs");
    assert_eq!(item.id, "src/components/palette.rs");
    assert_eq!(item.title, "palette.rs");
    assert_eq!(item.subtitle.as_deref(), Some("src/components"));
    assert_eq!(item.search_key, "src/components/palette.rs");
    assert!(item.is_path);
    let top = file_item("Cargo.toml");
    assert_eq!(top.title, "Cargo.toml");
    assert_eq!(top.subtitle, None);
    assert_eq!(file_palette_items(&vec!["a.rs".to_string(), "b/c.rs".to_string()]).len(), 2);
}

#[test]
fn palette_rows_filter_and_rank_items() {
    let items = file_palette_items(&vec![
        "src/main.rs".to_string(),
        "src/app.rs".to_string(),
        "Cargo.toml".to_string(),
    ]);
    let mut matcher = FuzzyMatcher::new();
    let all = palette_rows(&mut matcher, &items, "   ", PaletteMode::FilePicker);
    assert_eq!(all.iter().map(|r| r.item).collect::<Vec<_>>(), vec![0, 1, 2]);
    assert!(all.iter().all(|r| r.indices.is_empty()));
    let app = palette_rows(&mut matcher, &items, " app ", PaletteMode::FilePicker);
    assert_eq!(app.len(), 1);
    assert_eq!(app[0].item, 1);
    assert!(!app[0].indices.is_empty());
}

#[test]
fn palette_keys_selection_and_choice() {
    assert_eq!(palette_key(0xff1b, false), Some(PaletteKey::Dismiss));
    assert_eq!(palette_key(0xff54, false), Some(PaletteKey::Next));
    assert_eq!(palette_key(0x6e, true), Some(PaletteKey::Next));
    assert_eq!(palette_key(0x6e, false), None);
    assert_eq!(palette_key(0x50, true), Some(PaletteKey::Previous));
    assert_eq!(palette_key(0xff56, false), Some(PaletteKey::PageDown));
    assert_eq!(palette_key(0xff55, false), Some(PaletteKey::PageUp));
    assert_eq!(palette_key(0xff8d, false), Some(PaletteKey::Activate));
    assert_eq!(moved_selection(None, 4, 1, true), Some(0));
    assert_eq!(moved_selection(Some(2), 4, 1, true), Some(3));
    assert_eq!(moved_selection(Some(3), 4, 1, true), Some(3));
    assert_eq!(moved_selection(Some(1), 10, 5, true), Some(6));
    assert_eq!(moved_selection(Some(3), 10, 5, false), Some(0));
    assert_eq!(moved_selection(Some(7), 10, 5, false), Some(2));
    assert_eq!(moved_selection(Some(2), 0, 1, true), Some(2));
    assert_eq!(palette_choice(Some(4), PaletteMode::Command, ":w"), PaletteChoice::Item(4));
    assert_eq!(palette_choice(None, PaletteMode::Command, "  :theme latte "), PaletteChoice::Typed(":theme latte".to_string()));
    assert_eq!(palette_choice(None, PaletteMode::Command, "   "), PaletteChoice::Nothing);
    assert_eq!(palette_choice(None, PaletteMode::FilePicker, "main"), PaletteChoice::Nothing);
    assert_eq!(counter_text(3, 120), "3 / 120");
}

#[test]
fn history_stays_in_step_with_open_documents() {
    let mut state = new_state();
    let check = |s: &EditorState| {
        let mut docs = s.documents.clone();
        let mut hist = s.access_history.clone();
        docs.sort();
        hist.sort();
        assert_eq!(docs, hist);
        if !s.documents.is_empty() {
            assert_eq!(s.access_history.last(), Some(&s.current_document_id));
        }
    };
    let a = state.begin_open(false);
    state.finish_open(a);
    check(&state);
    let b = state.new_scratch_document();
    check(&state);
    state.switch_document(a);
    check(&state);
    state.next_document();
    check(&state);
    state.prev_document();
    check(&state);
    assert_eq!(state.close_document(a, false, false), Ok(Some(b)));
    check(&state);
    assert_eq!(state.current_document_id, b);
    state.close_document(DocumentId(1), true, true).unwrap();
    check(&state);
    assert_eq!(state.documents_in_mru_order(), vec![b]);
}

#[test]
fn documents_in_most_recent_order() {
    let mut state = new_state();
    let a = state.begin_open(false);
    state.finish_open(a);
    let b = state.new_scratch_document();
    state.switch_document(a);
    assert_eq!(state.documents_in_mru_order(), vec![a, b, DocumentId(1)]);
}

#[test]
fn initial_selection_clamps_to_last_row() {
    assert_eq!(initial_selection(5, 3), Some(2));
    assert_eq!(initial_selection(1, 3), Some(1));
    assert_eq!(initial_selection(0, 1), Some(0));
    assert_eq!(initial_selection(0, 0), None);
    assert_eq!(initial_selection(7, 0), None);
}

#[test]
fn highlight_wraps_exactly_listed_positions() {
    assert_eq!(
        highlight_pango_markup_with_tags("a<b", &[0, 2, 7], "<b>", "</b>"),
        "<b>a</b>&lt;<b>b</b>"
    );
    assert_eq!(highlight_pango_markup_with_tags("abc", &[1], "[", "]"), "a[b]c");
    assert_eq!(highlight_pango_markup_with_tags("x&y", &[], "[", "]"), escape_pango("x&y"));
}

#[test]
fn document_ids_stay_increasing() {
    let mut state = new_state();
    let a = state.begin_open(true);
    state.finish_open(a);
    let b = state.begin_open(false);
    state.finish_open(b);
    let c = state.begin_open(false);
    state.finish_open(c);
    state.close_document(b, true, false).unwrap();
    let d = state.begin_open(false);
    state.finish_open(d);
    let ids = state.document_ids();
    assert_eq!(ids, vec![a, c, d]);
    for w in ids.windows(2) {
        assert!(w[0].0 < w[1].0);
    }
}
