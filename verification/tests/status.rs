use strand::components::controller::KeyHandleResult;
use strand::components::shell::{
    color_scheme_for, line_spacing_split, AppEffect, AppModel, AppMsg, ColorSchemeChoice, PaletteOpenRequest,
};
use strand::components::status::{
    goto_line_column, mode_description, mode_title, vcs_branch_text, vcs_diff_text,
    diagnostic_coords, diagnostic_icon, diagnostics_title, file_display, format_label, health_class,
    count_diagnostics, mode_class, mode_label, modified_text, parse_goto_input, pending_text,
    position_text, readonly_text, selections_text, severity_class, vcs_label,
};
use strand::components::statusline::{
    DiagnosticItem, DiagnosticSeverity, IndentStyle, LineEnding, ModeConfig, VcsInfo,
};
use strand::editor::document::{display_name, document_by_path, DocumentId};
use strand::editor::state::EditorState;
use strand::editor::workspace::{search_start, Workspace};
use strand::keymap::actions::Mode;
use strand::keymap::default::default_keymap;
use strand::text::buffer::TextBuf;

fn diag(severity: DiagnosticSeverity, line: u32, col: u32) -> DiagnosticItem {
    DiagnosticItem { severity, line, col, message: "m".to_string(), code: None }
}

#[test]
fn test_parse_goto_input() {
    assert_eq!(parse_goto_input("42"), Some((42, None)));
    assert_eq!(parse_goto_input("42:15"), Some((42, Some(15))));
    assert_eq!(parse_goto_input("42, 15"), Some((42, Some(15))));
    assert_eq!(parse_goto_input("line 42:5"), Some((42, Some(5))));
    assert_eq!(parse_goto_input(":15"), Some((1, Some(15))));
    assert_eq!(parse_goto_input("0"), Some((1, None)));
    assert_eq!(parse_goto_input(""), None);
    assert_eq!(parse_goto_input("   "), None);
    assert_eq!(parse_goto_input("abc"), None);
}

#[test]
fn goto_input_edge_cases() {
    assert_eq!(parse_goto_input("7:x"), Some((7, None)));
    assert_eq!(parse_goto_input("x7"), Some((7, None)));
    assert_eq!(parse_goto_input(":"), None);
    assert_eq!(parse_goto_input("99999999999"), None);
    assert_eq!(parse_goto_input("+3,0"), Some((3, Some(1))));
}

#[test]
fn mode_pill_and_pending_pill() {
    let config = ModeConfig::default();
    assert_eq!(mode_label(&config, Mode::Insert), "INS");
    assert_eq!(mode_class(Mode::Select), "select");
    assert_eq!(pending_text(None, "", None), None);
    assert_eq!(pending_text(Some(3), "g", Some('a')).as_deref(), Some("3 g reg=\"a"));
    assert_eq!(pending_text(None, "space-", None).as_deref(), Some("space-"));
    assert_eq!(pending_text(None, "", Some('0')).as_deref(), Some("reg=\"0"));
}

#[test]
fn file_pill_texts() {
    assert_eq!(file_display(Some("src/main.rs")), "main.rs");
    assert_eq!(file_display(None), "[scratch]");
    assert_eq!(modified_text(true), "[+]");
    assert_eq!(modified_text(false), "");
    assert_eq!(readonly_text(true), " [readonly]");
}

#[test]
fn diagnostics_texts() {
    assert_eq!(severity_class(DiagnosticSeverity::Hint), "info");
    assert_eq!(severity_class(DiagnosticSeverity::Error), "error");
    let ds = vec![
        diag(DiagnosticSeverity::Error, 3, 4),
        diag(DiagnosticSeverity::Error, 5, 1),
        diag(DiagnosticSeverity::Warning, 7, 2),
        diag(DiagnosticSeverity::Hint, 9, 9),
    ];
    let c = count_diagnostics(&ds);
    assert_eq!((c.errors, c.warnings, c.infos), (2, 1, 1));
    assert_eq!(health_class(c), "error");
    assert_eq!(diagnostics_title(&ds), "Diagnostics (2 errors, 1 warning, 1 info)");
    assert_eq!(diagnostics_title(&vec![]), "Diagnostics (0)");
    assert_eq!(diagnostics_title(&vec![diag(DiagnosticSeverity::Warning, 1, 1)]), "Diagnostics (1 warning)");
    assert_eq!(diagnostic_icon(DiagnosticSeverity::Warning), "dialog-warning-symbolic");
    assert_eq!(diagnostic_coords(&ds[0]), "3:4");
    assert_eq!(health_class(count_diagnostics(&vec![])), "ok");
}

#[test]
fn vcs_and_format_texts() {
    let clean = VcsInfo { branch: Some("dev".to_string()), added: 0, modified: 0, deleted: 0 };
    assert_eq!(vcs_label(&clean), "dev");
    let dirty = VcsInfo { branch: None, added: 2, modified: 3, deleted: 1 };
    assert_eq!(vcs_label(&dirty), "main +2 ~3");
    assert_eq!(format_label("UTF-8", LineEnding::Lf, IndentStyle::Spaces(4)), "UTF-8 · LF · 4 Spaces");
}

#[test]
fn position_and_selection_texts() {
    let mut b = TextBuf::new("ab\ncd\nef\n");
    b.place_cursor(4);
    assert_eq!(position_text(&b), "Ln 2, Col 2 (50%)");
    assert_eq!(selections_text(&b), "1 sel");
    b.select_range(5, 4);
    assert_eq!(selections_text(&b), "1 sel (1 char)");
    b.select_range(0, 5);
    assert_eq!(selections_text(&b), "1 sel (5 chars)");
}

#[test]
fn app_model_messages() {
    let mut model = AppModel::new();
    let mut state = EditorState::new(default_keymap(), Workspace::new("/w"));
    assert_eq!(model.update(&mut state, AppMsg::ModeChanged(Mode::Insert)), AppEffect::Nothing);
    assert_eq!(model.mode, Mode::Insert);
    assert_eq!(state.mode, Mode::Insert);
    assert_eq!(model.update(&mut state, AppMsg::OpenBufferPicker), AppEffect::Nothing);
    assert_eq!(model.take_pending_palette(), Some(PaletteOpenRequest::Buffer));
    assert_eq!(model.take_pending_palette(), None);
    assert_eq!(
        model.update(&mut state, AppMsg::OpenFile("a.rs".to_string())),
        AppEffect::OpenFile("a.rs".to_string())
    );
    assert_eq!(
        model.update(&mut state, AppMsg::ExecuteCommand(":w".to_string())),
        AppEffect::ExecuteCommand(":w".to_string())
    );
    let id2 = state.new_scratch_document();
    state.switch_document(DocumentId(1));
    model.update(&mut state, AppMsg::DocumentChanged(id2));
    assert_eq!(state.current_document_id, id2);
    assert_eq!(model.update(&mut state, AppMsg::Quit), AppEffect::Quit);
    assert_eq!(model.update(&mut state, AppMsg::HideWhichKey), AppEffect::Nothing);
    assert!(model.which_key.is_none());
    let _ = KeyHandleResult::Stop;
}

#[test]
fn workspace_search_start_and_lookup() {
    assert_eq!(search_start(None, false, "/cwd"), "/cwd");
    assert_eq!(search_start(Some("/p/q"), true, "/cwd"), "/p/q");
    assert_eq!(search_start(Some("/p/q/file.rs"), false, "/cwd"), "/p/q");
    assert_eq!(search_start(Some("file.rs"), false, "/cwd"), "/cwd");
    let ws = Workspace::from_path_or_cwd("/p/q", &vec![false, true, false]);
    assert_eq!(ws.root(), "/p");
    assert_eq!(ws.name(), "p");
    let fallback = Workspace::from_path_or_cwd("/p/q", &vec![false, false, false]);
    assert_eq!(fallback.root(), "/p/q");
}

#[test]
fn document_display_names_and_lookup_by_path() {
    assert_eq!(display_name(Some("/work/proj/src/main.rs"), "/work/proj"), "src/main.rs");
    assert_eq!(display_name(Some("/elsewhere/notes.txt"), "/work/proj"), "/elsewhere/notes.txt");
    assert_eq!(display_name(None, "/work/proj"), "[scratch]");
    let docs = vec![
        (DocumentId(1), "/work/proj/Cargo.toml".to_string()),
        (DocumentId(4), "/work/proj/src/main.rs".to_string()),
    ];
    assert_eq!(document_by_path(&docs, "/work/proj/src/main.rs"), Some(DocumentId(4)));
    assert_eq!(document_by_path(&docs, "/work/proj/src/app.rs"), None);
}

#[test]
fn workspace_resolves_relative_paths_below_its_root() {
    let ws = Workspace::new("/work/proj");
    assert_eq!(ws.resolve("src/main.rs"), "/work/proj/src/main.rs");
    assert_eq!(ws.resolve("/etc/hosts"), "/etc/hosts");
}

#[test]
fn warnings_and_diagnostic_icon_classes() {
    use_status_warning();
}

fn use_status_warning() {
    let mut state = EditorState::new(default_keymap(), Workspace::new("/w"));
    state.set_warning("careful");
    assert_eq!(state.status_msg, Some(("careful".to_string(), strand::components::statusline::DiagnosticSeverity::Warning)));
    assert_eq!(
        strand::components::status::diagnostic_icon_class(strand::components::statusline::DiagnosticSeverity::Error),
        "diag-error-label"
    );
    assert_eq!(
        strand::components::status::diagnostic_icon_class(strand::components::statusline::DiagnosticSeverity::Hint),
        "dim-label"
    );
    let key = strand::keymap::input::KeyEvent::char('x');
    assert_eq!(key.as_char(), Some('x'));
}

#[test]
fn window_settings_from_the_gui_section() {
    use_window_settings();
}

fn use_window_settings() {
    assert_eq!(color_scheme_for("Dark"), Some(ColorSchemeChoice::ForceDark));
    assert_eq!(color_scheme_for("light"), Some(ColorSchemeChoice::ForceLight));
    assert_eq!(color_scheme_for("SYSTEM"), Some(ColorSchemeChoice::Default));
    assert_eq!(color_scheme_for("default"), Some(ColorSchemeChoice::Default));
    assert_eq!(color_scheme_for("sepia"), None);
    assert_eq!(line_spacing_split(5), (2, 3));
    assert_eq!(line_spacing_split(0), (0, 0));
}

#[test]
fn goto_line_and_column_clamps_to_the_text() {
    let mut b = TextBuf::new("ab\ncd\nef");
    goto_line_column(&mut b, 2, Some(2));
    assert_eq!((b.anchor, b.head), (4, 4));
    goto_line_column(&mut b, 10, None);
    assert_eq!(b.head, 6);
    goto_line_column(&mut b, 2, Some(99));
    assert_eq!(b.head, 5);
    goto_line_column(&mut b, 3, Some(5));
    assert_eq!(b.head, 7);
    goto_line_column(&mut b, 0, Some(0));
    assert_eq!((b.anchor, b.head), (0, 0));
}

#[test]
fn popover_texts_for_version_control_and_modes() {
    let clean = VcsInfo { branch: None, added: 0, modified: 0, deleted: 0 };
    assert_eq!(vcs_branch_text(&clean), "Branch: main");
    assert_eq!(vcs_diff_text(&clean), "Working tree clean");
    let dirty = VcsInfo { branch: Some("feat/x".to_string()), added: 3, modified: 1, deleted: 2 };
    assert_eq!(vcs_branch_text(&dirty), "Branch: feat/x");
    assert_eq!(vcs_diff_text(&dirty), "+3 additions, ~1 modifications, -2 deletions");
    assert_eq!(mode_title(Mode::Insert), "INSERT Mode");
    assert_eq!(mode_description(Mode::Normal), "Object-first movement, motions, and selection commands.");
}
