//! The editor's configuration: its sections and their defaults, and the
//! names its enumerations are written with.

use vstd::prelude::*;
use crate::config::merge::TomlValue;
use crate::text::unicode::{str_to_lowercase, unicode_str_to_lowercase, push_str, push_all, string_from_chars, chars_of};

verus! {

/// A string of `a`, the characters `b`, and `c`.
fn message3(a: &str, b: &str, c: &str) -> (r: String)
    ensures
        r@ == a@ + b@ + c@,
{
    let mut v: Vec<char> = Vec::new();
    push_str(&mut v, a);
    push_str(&mut v, b);
    push_str(&mut v, c);
    assert(v@ =~= a@ + b@ + c@);
    string_from_chars(&v)
}

/// Whether two strings hold the same characters.
pub(crate) fn str_eq(a: &str, b: &str) -> (r: bool)
    ensures
        r == (a@ == b@),
{
    let x = chars_of(a);
    let y = chars_of(b);
    if x.len() != y.len() {
        return false;
    }
    let mut i: usize = 0;
    while i < x.len()
        invariant
            i <= x@.len(),
            x@.len() == y@.len(),
            x@ == a@,
            y@ == b@,
            forall|j: int| 0 <= j < i ==> x@[j] == y@[j],
        decreases x.len() - i,
    {
        if x[i] != y[i] {
            return false;
        }
        i = i + 1;
    }
    assert(x@ =~= y@);
    true
}

/// How line numbers are shown.
#[derive(Debug, Copy, Clone, PartialEq, Eq, Structural)]
pub enum LineNumber {
    Absolute,
    Relative,
}

impl Default for LineNumber {
    /// Absolute.
    fn default() -> (r: LineNumber)
        ensures
            r == LineNumber::Absolute,
    {
        LineNumber::Absolute
    }
}

impl LineNumber {
    /// The value that a name gives, by its lowercase form; `None` for an
    /// unknown name.
    pub open spec fn spec_from_name(lower: Seq<char>) -> Option<LineNumber> {
        if lower == "absolute"@ || lower == "abs"@ {
            Some(LineNumber::Absolute)
        } else if lower == "relative"@ || lower == "rel"@ {
            Some(LineNumber::Relative)
        } else {
            None
        }
    }

    /// Parses `absolute` (or `abs`) and `relative` (or `rel`), in any case.
    pub fn from_str(s: &str) -> (r: Result<LineNumber, String>)
        ensures
            match r {
                Ok(v) => Self::spec_from_name(unicode_str_to_lowercase(s@)) == Some(v),
                Err(e) => Self::spec_from_name(unicode_str_to_lowercase(s@)) is None && e@ == "invalid line-number mode '"@ + s@ + "', expected 'absolute' or 'relative'"@,
            },
    {
        let lower = str_to_lowercase(s);
        let l = lower.as_str();
        if str_eq(l, "absolute") || str_eq(l, "abs") {
            Ok(LineNumber::Absolute)
        } else if str_eq(l, "relative") || str_eq(l, "rel") {
            Ok(LineNumber::Relative)
        } else {
            Err(message3("invalid line-number mode '", s, "', expected 'absolute' or 'relative'"))
        }
    }
}

/// The shape of the cursor.
#[derive(Debug, Copy, Clone, PartialEq, Eq, Structural)]
pub enum CursorShape {
    Block,
    Bar,
    Underline,
}

impl Default for CursorShape {
    /// Block.
    fn default() -> (r: CursorShape)
        ensures
            r == CursorShape::Block,
    {
        CursorShape::Block
    }
}

impl CursorShape {
    /// The value that a name gives, by its lowercase form; `None` for an
    /// unknown name.
    pub open spec fn spec_from_name(lower: Seq<char>) -> Option<CursorShape> {
        if lower == "block"@ {
            Some(CursorShape::Block)
        } else if lower == "bar"@ {
            Some(CursorShape::Bar)
        } else if lower == "underline"@ {
            Some(CursorShape::Underline)
        } else {
            None
        }
    }

    /// Parses `block`, `bar` and `underline`, in any case.
    pub fn from_str(s: &str) -> (r: Result<CursorShape, String>)
        ensures
            match r {
                Ok(v) => Self::spec_from_name(unicode_str_to_lowercase(s@)) == Some(v),
                Err(e) => Self::spec_from_name(unicode_str_to_lowercase(s@)) is None && e@ == "invalid cursor-shape '"@ + s@ + "', expected 'block', 'bar', or 'underline'"@,
            },
    {
        let lower = str_to_lowercase(s);
        let l = lower.as_str();
        if str_eq(l, "block") {
            Ok(CursorShape::Block)
        } else if str_eq(l, "bar") {
            Ok(CursorShape::Bar)
        } else if str_eq(l, "underline") {
            Ok(CursorShape::Underline)
        } else {
            Err(message3("invalid cursor-shape '", s, "', expected 'block', 'bar', or 'underline'"))
        }
    }
}

/// The cursor shape in each mode.
#[derive(Debug, Clone, Copy, PartialEq, Eq, Structural)]
pub struct CursorShapeConfig {
    pub normal: CursorShape,
    pub insert: CursorShape,
    pub select: CursorShape,
}

impl CursorShapeConfig {
    /// Whether this is the default.
    pub open spec fn is_default(&self) -> bool {
        &&& *self == (CursorShapeConfig { normal: CursorShape::Block, insert: CursorShape::Block, select: CursorShape::Block })
    }
}

impl Default for CursorShapeConfig {
    /// A block in every mode.
    fn default() -> (r: CursorShapeConfig)
        ensures
            r.is_default(),
    {
        CursorShapeConfig { normal: CursorShape::Block, insert: CursorShape::Block, select: CursorShape::Block }
    }
}

/// What a gutter column shows.
#[derive(Debug, Copy, Clone, PartialEq, Eq, Structural)]
pub enum GutterType {
    Diagnostics,
    LineNumbers,
    Spacer,
    Diff,
    CodeActionHint,
}

impl GutterType {
    /// The value that a name gives, by its lowercase form; `None` for an
    /// unknown name.
    pub open spec fn spec_from_name(lower: Seq<char>) -> Option<GutterType> {
        if lower == "diagnostics"@ {
            Some(GutterType::Diagnostics)
        } else if lower == "line-numbers"@ {
            Some(GutterType::LineNumbers)
        } else if lower == "spacer"@ {
            Some(GutterType::Spacer)
        } else if lower == "diff"@ {
            Some(GutterType::Diff)
        } else if lower == "code-action-hint"@ {
            Some(GutterType::CodeActionHint)
        } else {
            None
        }
    }

    /// Parses `diagnostics`, `line-numbers`, `spacer`, `diff` and
    /// `code-action-hint`, in any case.
    pub fn from_str(s: &str) -> (r: Result<GutterType, String>)
        ensures
            match r {
                Ok(v) => Self::spec_from_name(unicode_str_to_lowercase(s@)) == Some(v),
                Err(e) => Self::spec_from_name(unicode_str_to_lowercase(s@)) is None && e@ == "invalid gutter-type '"@ + s@ + "'"@,
            },
    {
        let lower = str_to_lowercase(s);
        let l = lower.as_str();
        if str_eq(l, "diagnostics") {
            Ok(GutterType::Diagnostics)
        } else if str_eq(l, "line-numbers") {
            Ok(GutterType::LineNumbers)
        } else if str_eq(l, "spacer") {
            Ok(GutterType::Spacer)
        } else if str_eq(l, "diff") {
            Ok(GutterType::Diff)
        } else if str_eq(l, "code-action-hint") {
            Ok(GutterType::CodeActionHint)
        } else {
            Err(message3("invalid gutter-type '", s, "'"))
        }
    }
}

/// The line number gutter.
#[derive(Debug, Clone, Copy, PartialEq, Eq, Structural)]
pub struct GutterLineNumbersConfig {
    pub min_width: usize,
}

impl GutterLineNumbersConfig {
    /// Whether this is the default.
    pub open spec fn is_default(&self) -> bool {
        &&& self.min_width == 3
    }
}

impl Default for GutterLineNumbersConfig {
    /// At least three columns wide.
    fn default() -> (r: GutterLineNumbersConfig)
        ensures
            r.is_default(),
    {
        GutterLineNumbersConfig { min_width: 3 }
    }
}

/// The gutter columns, in order, and the line number column.
#[derive(Debug, Clone, PartialEq, Eq)]
pub struct GutterConfig {
    pub layout: Vec<GutterType>,
    pub line_numbers: GutterLineNumbersConfig,
}

impl GutterConfig {
    /// Whether this is the default.
    pub open spec fn is_default(&self) -> bool {
        &&& self.layout@ == seq![GutterType::Diagnostics, GutterType::Spacer, GutterType::LineNumbers, GutterType::Spacer, GutterType::Diff]
        &&& self.line_numbers.min_width == 3
    }
}

impl Default for GutterConfig {
    /// Diagnostics, a spacer, line numbers, a spacer and the diff column.
    fn default() -> (r: GutterConfig)
        ensures
            r.is_default(),
    {
        GutterConfig {
            layout: vec![GutterType::Diagnostics, GutterType::Spacer, GutterType::LineNumbers, GutterType::Spacer, GutterType::Diff],
            line_numbers: GutterLineNumbersConfig::default(),
        }
    }
}

impl GutterConfig {
    /// The gutter that a list of column names describes, with the default
    /// line number column; the first unknown name is an error.
    pub fn from_names(names: &Vec<String>) -> (r: Result<GutterConfig, String>)
        ensures
            match r {
                Ok(g) => g.layout@.len() == names@.len() && g.line_numbers.min_width == 3 && forall|i: int|
                    0 <= i < names@.len() ==> GutterType::spec_from_name(unicode_str_to_lowercase(#[trigger] names@[i]@))
                        == Some(g.layout@[i]),
                Err(e) => exists|i: int|
                    0 <= i < names@.len() && GutterType::spec_from_name(unicode_str_to_lowercase(#[trigger] names@[i]@)) is None
                        && (forall|j: int| 0 <= j < i ==> GutterType::spec_from_name(unicode_str_to_lowercase(#[trigger] names@[j]@)) is Some)
                        && e@ == "invalid gutter-type '"@ + names@[i]@ + "'"@,
            },
    {
        let mut layout: Vec<GutterType> = Vec::new();
        let mut i: usize = 0;
        while i < names.len()
            invariant
                i <= names@.len(),
                layout@.len() == i,
                forall|j: int| 0 <= j < i ==> GutterType::spec_from_name(unicode_str_to_lowercase(#[trigger] names@[j]@))
                    == Some(layout@[j]),
            decreases names.len() - i,
        {
            match GutterType::from_str(names[i].as_str()) {
                Ok(g) => {
                    layout.push(g);
                },
                Err(e) => {
                    return Err(e);
                },
            }
            i = i + 1;
        }
        Ok(GutterConfig { layout, line_numbers: GutterLineNumbersConfig::default() })
    }
}

/// What the file picker lists.
#[derive(Debug, Clone, PartialEq, Eq)]
pub struct FilePickerConfig {
    pub hidden: bool,
    pub follow_symlinks: bool,
    pub deduplicate_links: bool,
    pub parents: bool,
    pub ignore: bool,
    pub git_ignore: bool,
    pub git_global: bool,
    pub git_exclude: bool,
    pub max_depth: Option<usize>,
}

impl FilePickerConfig {
    /// Whether this is the default.
    pub open spec fn is_default(&self) -> bool {
        &&& self.hidden == true
        &&& self.follow_symlinks == true
        &&& self.deduplicate_links == true
        &&& self.parents == true
        &&& self.ignore == true
        &&& self.git_ignore == true
        &&& self.git_global == true
        &&& self.git_exclude == true
        &&& self.max_depth is None
    }
}

impl Default for FilePickerConfig {
    /// Hidden files shown, links followed and deduplicated, every ignore
    /// file respected, no depth limit.
    fn default() -> (r: FilePickerConfig)
        ensures
            r.is_default(),
    {
        FilePickerConfig {
            hidden: true,
            follow_symlinks: true,
            deduplicate_links: true,
            parents: true,
            ignore: true,
            git_ignore: true,
            git_global: true,
            git_exclude: true,
            max_depth: None,
        }
    }
}

/// What the file explorer lists.
#[derive(Debug, Clone, PartialEq, Eq)]
pub struct FileExplorerConfig {
    pub hidden: bool,
    pub follow_symlinks: bool,
    pub parents: bool,
    pub ignore: bool,
    pub git_ignore: bool,
    pub git_global: bool,
    pub git_exclude: bool,
    pub flatten_dirs: bool,
}

impl FileExplorerConfig {
    /// Whether this is the default.
    pub open spec fn is_default(&self) -> bool {
        &&& self.hidden == false
        &&& self.follow_symlinks == false
        &&& self.parents == false
        &&& self.ignore == false
        &&& self.git_ignore == false
        &&& self.git_global == false
        &&& self.git_exclude == false
        &&& self.flatten_dirs == true
    }
}

impl Default for FileExplorerConfig {
    /// Nothing hidden or ignored, no link followed; directories flattened.
    fn default() -> (r: FileExplorerConfig)
        ensures
            r.is_default(),
    {
        FileExplorerConfig {
            hidden: false,
            follow_symlinks: false,
            parents: false,
            ignore: false,
            git_ignore: false,
            git_global: false,
            git_exclude: false,
            flatten_dirs: true,
        }
    }
}

/// The status line's elements by name, and the separator.
#[derive(Debug, Clone, PartialEq, Eq)]
pub struct StatusLineConfig {
    pub left: Vec<String>,
    pub center: Vec<String>,
    pub right: Vec<String>,
    pub separator: String,
}

/// The strings of a list of literals.
fn strings(names: &[&str]) -> (r: Vec<String>)
    ensures
        r@.len() == names@.len(),
        forall|i: int| 0 <= i < names@.len() ==> #[trigger] r@[i]@ == names@[i]@,
{
    let mut r: Vec<String> = Vec::new();
    let mut i: usize = 0;
    while i < names.len()
        invariant
            i <= names@.len(),
            r@.len() == i,
            forall|j: int| 0 <= j < i ==> #[trigger] r@[j]@ == names@[j]@,
        decreases names.len() - i,
    {
        r.push(names[i].to_owned());
        i = i + 1;
    }
    r
}

impl StatusLineConfig {
    /// Whether this is the default.
    pub open spec fn is_default(&self) -> bool {
        &&& self.left@.len() == 5
        &&& self.left@[0]@ == "mode"@
        &&& self.left@[1]@ == "spinner"@
        &&& self.left@[2]@ == "file-name"@
        &&& self.left@[3]@ == "read-only-indicator"@
        &&& self.left@[4]@ == "file-modification-indicator"@
        &&& self.center@.len() == 0
        &&& self.right@.len() == 6
        &&& self.right@[0]@ == "diagnostics"@
        &&& self.right@[1]@ == "selections"@
        &&& self.right@[2]@ == "position"@
        &&& self.right@[3]@ == "file-encoding"@
        &&& self.right@[4]@ == "file-line-ending"@
        &&& self.right@[5]@ == "file-type"@
        &&& self.separator@ == "│"@
    }
}

impl Default for StatusLineConfig {
    /// Mode, spinner, file name, read-only and modification indicators on
    /// the left; nothing in the center; diagnostics, selections, position,
    /// encoding, line ending and file type on the right; `│` between.
    fn default() -> (r: StatusLineConfig)
        ensures
            r.is_default(),
    {
        let left_names: [&str; 5] = ["mode", "spinner", "file-name", "read-only-indicator", "file-modification-indicator"];
        let right_names: [&str; 6] = ["diagnostics", "selections", "position", "file-encoding", "file-line-ending", "file-type"];
        let left = strings(&left_names);
        let right = strings(&right_names);
        StatusLineConfig { left, center: Vec::new(), right, separator: "│".to_owned() }
    }
}

/// Indentation guides.
#[derive(Debug, Clone, PartialEq, Eq)]
pub struct IndentGuidesConfig {
    pub render: bool,
    pub character: char,
    pub skip_levels: u32,
}

impl IndentGuidesConfig {
    /// Whether this is the default.
    pub open spec fn is_default(&self) -> bool {
        &&& self.render == false
        &&& self.character == '│'
        &&& self.skip_levels == 0
    }
}

impl Default for IndentGuidesConfig {
    /// Not drawn; `│` when drawn; no level skipped.
    fn default() -> (r: IndentGuidesConfig)
        ensures
            r.is_default(),
    {
        IndentGuidesConfig {
            render: false,
            character: '│',
            skip_levels: 0,
        }
    }
}

/// Which whitespace is drawn visibly.
#[derive(Debug, Copy, Clone, PartialEq, Eq, Structural)]
pub enum WhitespaceRender {
    /// No whitespace is drawn.
    Off,
    All,
    Selected,
}

impl Default for WhitespaceRender {
    /// Off.
    fn default() -> (r: WhitespaceRender)
        ensures
            r == WhitespaceRender::Off,
    {
        WhitespaceRender::Off
    }
}

/// The characters that stand for whitespace when it is drawn.
#[derive(Debug, Clone, PartialEq, Eq)]
pub struct WhitespaceCharacters {
    pub space: char,
    pub nbsp: char,
    pub nnbsp: char,
    pub tab: char,
    pub newline: char,
}

impl WhitespaceCharacters {
    /// Whether this is the default.
    pub open spec fn is_default(&self) -> bool {
        &&& self.space == '·'
        &&& self.nbsp == '⍽'
        &&& self.nnbsp == '␣'
        &&& self.tab == '→'
        &&& self.newline == '⏎'
    }
}

impl Default for WhitespaceCharacters {
    /// `·`, `⍽`, `␣`, `→` and `⏎`.
    fn default() -> (r: WhitespaceCharacters)
        ensures
            r.is_default(),
    {
        WhitespaceCharacters {
            space: '·',
            nbsp: '⍽',
            nnbsp: '␣',
            tab: '→',
            newline: '⏎',
        }
    }
}

/// How whitespace is drawn.
#[derive(Debug, Clone, PartialEq, Eq)]
pub struct WhitespaceConfig {
    pub render: WhitespaceRender,
    pub characters: WhitespaceCharacters,
}

impl WhitespaceConfig {
    /// Whether this is the default.
    pub open spec fn is_default(&self) -> bool {
        &&& self.render == WhitespaceRender::Off
        &&& self.characters.space == '·'
        &&& self.characters.nbsp == '⍽'
        &&& self.characters.nnbsp == '␣'
        &&& self.characters.tab == '→'
        &&& self.characters.newline == '⏎'
    }
}

impl Default for WhitespaceConfig {
    /// Not drawn, with the default characters.
    fn default() -> (r: WhitespaceConfig)
        ensures
            r.is_default(),
    {
        WhitespaceConfig { render: WhitespaceRender::default(), characters: WhitespaceCharacters::default() }
    }
}

/// Language server features.
#[derive(Debug, Clone, PartialEq, Eq)]
pub struct LspConfig {
    pub display_messages: bool,
    pub auto_signature_help: bool,
    pub display_inlay_hints: bool,
    pub display_color_swatches: bool,
    pub snippets: bool,
}

impl LspConfig {
    /// Whether this is the default.
    pub open spec fn is_default(&self) -> bool {
        &&& self.display_messages == false
        &&& self.auto_signature_help == true
        &&& self.display_inlay_hints == false
        &&& self.display_color_swatches == true
        &&& self.snippets == true
    }
}

impl Default for LspConfig {
    /// Signature help, colour swatches and snippets on; messages and inlay
    /// hints off.
    fn default() -> (r: LspConfig)
        ensures
            r.is_default(),
    {
        LspConfig {
            display_messages: false,
            auto_signature_help: true,
            display_inlay_hints: false,
            display_color_swatches: true,
            snippets: true,
        }
    }
}

/// Search behaviour.
#[derive(Debug, Clone, PartialEq, Eq)]
pub struct SearchConfig {
    pub smart_case: bool,
    pub wrap_around: bool,
}

impl SearchConfig {
    /// Whether this is the default.
    pub open spec fn is_default(&self) -> bool {
        &&& self.smart_case == true
        &&& self.wrap_around == true
    }
}

impl Default for SearchConfig {
    /// Smart case, wrapping around.
    fn default() -> (r: SearchConfig)
        ensures
            r.is_default(),
    {
        SearchConfig {
            smart_case: true,
            wrap_around: true,
        }
    }
}

/// When the buffer line is shown.
#[derive(Debug, Copy, Clone, PartialEq, Eq, Structural)]
pub enum BufferLine {
    Never,
    Always,
    Multiple,
}

impl Default for BufferLine {
    /// Never.
    fn default() -> (r: BufferLine)
        ensures
            r == BufferLine::Never,
    {
        BufferLine::Never
    }
}

/// Soft wrapping of long lines.
#[derive(Debug, Clone, PartialEq, Eq)]
pub struct SoftWrapConfig {
    pub enable: bool,
    pub max_wrap: usize,
    pub max_indent_retain: usize,
    pub wrap_indicator: String,
    pub wrap_at_text_width: bool,
}

impl SoftWrapConfig {
    /// Whether this is the default.
    pub open spec fn is_default(&self) -> bool {
        &&& !self.enable
        &&& self.max_wrap == 20
        &&& self.max_indent_retain == 40
        &&& self.wrap_indicator@ == "↪ "@
        &&& !self.wrap_at_text_width
    }
}

impl Default for SoftWrapConfig {
    /// Off; at most 20 columns left free and 40 of indentation kept; `↪ `
    /// marks a wrapped line; not at the text width.
    fn default() -> (r: SoftWrapConfig)
        ensures
            r.is_default(),
    {
        SoftWrapConfig {
            enable: false,
            max_wrap: 20,
            max_indent_retain: 40,
            wrap_indicator: "↪ ".to_owned(),
            wrap_at_text_width: false,
        }
    }
}

/// Automatic pairing of brackets and quotes: on or off, or a list of
/// pairs, each an opening and a closing text.
#[derive(Debug, Clone, PartialEq, Eq)]
pub enum AutoPairsConfig {
    Enable(bool),
    Custom(Vec<(String, String)>),
}

impl Default for AutoPairsConfig {
    /// On.
    fn default() -> (r: AutoPairsConfig)
        ensures
            r == AutoPairsConfig::Enable(true),
    {
        AutoPairsConfig::Enable(true)
    }
}

/// The line ending new files get.
#[derive(Debug, Copy, Clone, PartialEq, Eq, Structural)]
pub enum LineEndingConfig {
    Native,
    Lf,
    Crlf,
}

impl Default for LineEndingConfig {
    /// The platform's.
    fn default() -> (r: LineEndingConfig)
        ensures
            r == LineEndingConfig::Native,
    {
        LineEndingConfig::Native
    }
}

/// Saving files by themselves: on or off, or settings by name.
#[derive(Debug, PartialEq)]
pub enum AutoSaveConfig {
    Enable(bool),
    Custom(Vec<(String, TomlValue)>),
}

impl Default for AutoSaveConfig {
    /// Off.
    fn default() -> (r: AutoSaveConfig)
        ensures
            r == AutoSaveConfig::Enable(false),
    {
        AutoSaveConfig::Enable(false)
    }
}

/// The editor's configuration, section by section.
#[derive(Debug, PartialEq)]
pub struct EditorConfig {
    pub scrolloff: usize,
    pub scroll_lines: isize,
    pub mouse: bool,
    pub line_number: LineNumber,
    pub cursorline: bool,
    pub cursorcolumn: bool,
    pub gutters: GutterConfig,
    pub auto_pairs: AutoPairsConfig,
    pub auto_completion: bool,
    pub path_completion: bool,
    pub auto_format: bool,
    pub auto_save: AutoSaveConfig,
    pub text_width: usize,
    pub idle_timeout: u64,
    pub completion_timeout: u64,
    pub preview_completion_insert: bool,
    pub completion_trigger_len: u8,
    pub auto_info: bool,
    pub file_picker: FilePickerConfig,
    pub file_explorer: FileExplorerConfig,
    pub statusline: StatusLineConfig,
    pub cursor_shape: CursorShapeConfig,
    pub true_color: bool,
    pub undercurl: bool,
    pub search: SearchConfig,
    pub lsp: LspConfig,
    pub rulers: Vec<u16>,
    pub whitespace: WhitespaceConfig,
    pub bufferline: BufferLine,
    pub indent_guides: IndentGuidesConfig,
    pub color_modes: bool,
    pub soft_wrap: SoftWrapConfig,
    pub default_line_ending: LineEndingConfig,
    pub insert_final_newline: bool,
    pub atomic_save: bool,
    pub trim_final_newlines: bool,
    pub trim_trailing_whitespace: bool,
}

impl Default for EditorConfig {
    /// Five lines of scroll margin, three lines a scroll step, the mouse
    /// on, absolute line numbers, no cursor line or column, completion,
    /// formatting and the info popup on, a text width of 80, 250 ms
    /// timeouts, completion after two characters, true colour, no
    /// undercurl, no rulers, no buffer line, no mode colours, the
    /// platform's line ending, a final newline added, atomic saves, no
    /// trimming; every section at its default.
    fn default() -> (r: EditorConfig)
        ensures
            r.scrolloff == 5,
            r.scroll_lines == 3,
            r.mouse,
            r.line_number == LineNumber::Absolute,
            !r.cursorline,
            !r.cursorcolumn,
            r.gutters.is_default(),
            r.auto_pairs == AutoPairsConfig::Enable(true),
            r.auto_completion,
            r.path_completion,
            r.auto_format,
            r.auto_save == AutoSaveConfig::Enable(false),
            r.text_width == 80,
            r.idle_timeout == 250,
            r.completion_timeout == 250,
            r.preview_completion_insert,
            r.completion_trigger_len == 2,
            r.auto_info,
            r.file_picker.is_default(),
            r.file_explorer.is_default(),
            r.statusline.is_default(),
            r.cursor_shape.is_default(),
            r.true_color,
            !r.undercurl,
            r.search.is_default(),
            r.lsp.is_default(),
            r.rulers@.len() == 0,
            r.whitespace.is_default(),
            r.bufferline == BufferLine::Never,
            r.indent_guides.is_default(),
            !r.color_modes,
            r.soft_wrap.is_default(),
            r.default_line_ending == LineEndingConfig::Native,
            r.insert_final_newline,
            r.atomic_save,
            !r.trim_final_newlines,
            !r.trim_trailing_whitespace,
    {
        EditorConfig {
            scrolloff: 5,
            scroll_lines: 3,
            mouse: true,
            line_number: LineNumber::Absolute,
            cursorline: false,
            cursorcolumn: false,
            gutters: GutterConfig::default(),
            auto_pairs: AutoPairsConfig::default(),
            auto_completion: true,
            path_completion: true,
            auto_format: true,
            auto_save: AutoSaveConfig::default(),
            text_width: 80,
            idle_timeout: 250,
            completion_timeout: 250,
            preview_completion_insert: true,
            completion_trigger_len: 2,
            auto_info: true,
            file_picker: FilePickerConfig::default(),
            file_explorer: FileExplorerConfig::default(),
            statusline: StatusLineConfig::default(),
            cursor_shape: CursorShapeConfig::default(),
            true_color: true,
            undercurl: false,
            search: SearchConfig::default(),
            lsp: LspConfig::default(),
            rulers: Vec::new(),
            whitespace: WhitespaceConfig::default(),
            bufferline: BufferLine::Never,
            indent_guides: IndentGuidesConfig::default(),
            color_modes: false,
            soft_wrap: SoftWrapConfig::default(),
            default_line_ending: LineEndingConfig::Native,
            insert_final_newline: true,
            atomic_save: true,
            trim_final_newlines: false,
            trim_trailing_whitespace: false,
        }
    }
}

} // verus!
