//! The status line's configuration and the values it shows.

use vstd::prelude::*;
use crate::text::unicode::{spec_decimal, decimal_chars, push_str, string_from_chars};

verus! {

/// What can appear in the status line.
#[derive(Debug, Clone, Copy, PartialEq, Eq, Hash, Structural)]
pub enum StatusLineElement {
    /// The editor mode.
    Mode,
    /// The language server activity spinner.
    Spinner,
    /// The last part of the open file's path.
    FileBaseName,
    /// The relative file path.
    FileName,
    /// The absolute file path.
    FileAbsolutePath,
    /// `[+]` when the file is modified.
    FileModificationIndicator,
    /// `[readonly]` when the file cannot be written.
    ReadOnlyIndicator,
    /// The file encoding.
    FileEncoding,
    /// The file's line endings.
    FileLineEnding,
    /// The file's indentation style.
    FileIndentStyle,
    /// The file type.
    FileType,
    /// The counts of errors and warnings in the document.
    Diagnostics,
    /// The counts of errors and warnings in the workspace.
    WorkspaceDiagnostics,
    /// The number of selections.
    Selections,
    /// The number of characters in the primary selection.
    PrimarySelectionLength,
    /// The cursor position, `line:col`.
    Position,
    /// The cursor position as a percentage of the file.
    PositionPercentage,
    /// The number of lines of the file.
    TotalLineNumbers,
    /// The separator.
    Separator,
    /// A space.
    Spacer,
    /// Version control information.
    VersionControl,
    /// The selected register, pending keys and count.
    Register,
    /// The last part of the working directory.
    CurrentWorkingDirectory,
    /// A hint that code actions are available.
    CodeActionHint,
}

/// The labels of the modes.
#[derive(Debug, Clone, PartialEq, Eq)]
pub struct ModeConfig {
    pub normal: String,
    pub insert: String,
    pub select: String,
}

impl Default for ModeConfig {
    /// `NOR`, `INS` and `SEL`.
    fn default() -> (r: ModeConfig)
        ensures
            r.normal@ == "NOR"@,
            r.insert@ == "INS"@,
            r.select@ == "SEL"@,
    {
        ModeConfig { normal: "NOR".to_owned(), insert: "INS".to_owned(), select: "SEL".to_owned() }
    }
}

/// How severe a diagnostic is.
#[derive(Debug, Clone, Copy, PartialEq, Eq, Structural)]
pub enum DiagnosticSeverity {
    Error,
    Warning,
    Info,
    Hint,
}

impl DiagnosticSeverity {
    /// The severity's name.
    pub open spec fn spec_text(self) -> Seq<char> {
        match self {
            DiagnosticSeverity::Error => "Error"@,
            DiagnosticSeverity::Warning => "Warning"@,
            DiagnosticSeverity::Info => "Info"@,
            DiagnosticSeverity::Hint => "Hint"@,
        }
    }

    /// The severity's name: `Error`, `Warning`, `Info` or `Hint`.
    pub fn to_string(&self) -> (r: String)
        ensures
            r@ == self.spec_text(),
    {
        match self {
            DiagnosticSeverity::Error => "Error".to_owned(),
            DiagnosticSeverity::Warning => "Warning".to_owned(),
            DiagnosticSeverity::Info => "Info".to_owned(),
            DiagnosticSeverity::Hint => "Hint".to_owned(),
        }
    }
}

/// A diagnostic as the status line and its popover show it.
#[derive(Debug, Clone, PartialEq, Eq)]
pub struct DiagnosticItem {
    pub severity: DiagnosticSeverity,
    pub line: u32,
    pub col: u32,
    pub message: String,
    pub code: Option<String>,
}

/// Version control state of the current buffer.
#[derive(Debug, Clone, PartialEq, Eq, Default)]
pub struct VcsInfo {
    pub branch: Option<String>,
    pub added: u32,
    pub modified: u32,
    pub deleted: u32,
}

/// Line endings a file can have.
#[derive(Debug, Clone, Copy, PartialEq, Eq, Structural)]
pub enum LineEnding {
    Lf,
    Crlf,
}

impl LineEnding {
    /// `LF` or `CRLF`.
    pub open spec fn spec_text(self) -> Seq<char> {
        match self {
            LineEnding::Lf => "LF"@,
            LineEnding::Crlf => "CRLF"@,
        }
    }

    /// `LF` or `CRLF`.
    pub fn to_string(&self) -> (r: String)
        ensures
            r@ == self.spec_text(),
    {
        match self {
            LineEnding::Lf => "LF".to_owned(),
            LineEnding::Crlf => "CRLF".to_owned(),
        }
    }
}

/// Indentation styles a file can have.
#[derive(Debug, Clone, Copy, PartialEq, Eq, Structural)]
pub enum IndentStyle {
    Spaces(u32),
    Tabs,
}

impl IndentStyle {
    /// `<n> Spaces` or `Tabs`.
    pub open spec fn spec_text(self) -> Seq<char> {
        match self {
            IndentStyle::Spaces(n) => spec_decimal(n as nat) + " Spaces"@,
            IndentStyle::Tabs => "Tabs"@,
        }
    }

    /// `<n> Spaces` or `Tabs`.
    pub fn to_string(&self) -> (r: String)
        ensures
            r@ == self.spec_text(),
    {
        match self {
            IndentStyle::Spaces(n) => {
                let mut v = decimal_chars(*n as u64);
                push_str(&mut v, " Spaces");
                string_from_chars(&v)
            },
            IndentStyle::Tabs => "Tabs".to_owned(),
        }
    }
}

/// The layout of the status line.
#[derive(Debug, Clone, PartialEq, Eq)]
pub struct StatusLineConfig {
    pub left: Vec<StatusLineElement>,
    pub center: Vec<StatusLineElement>,
    pub right: Vec<StatusLineElement>,
    pub separator: String,
    pub mode: ModeConfig,
    pub default_encoding: String,
}

impl Default for StatusLineConfig {
    /// Mode, register, file name, modification and read-only indicators and
    /// diagnostics on the left; a spacer in the center; spinner, version
    /// control, indentation, encoding, selections and position on the
    /// right; `│` between; the default mode labels; UTF-8.
    fn default() -> (r: StatusLineConfig)
        ensures
            r.left@ == seq![
                StatusLineElement::Mode,
                StatusLineElement::Register,
                StatusLineElement::FileBaseName,
                StatusLineElement::FileModificationIndicator,
                StatusLineElement::ReadOnlyIndicator,
                StatusLineElement::Diagnostics,
            ],
            r.center@ == seq![StatusLineElement::Spacer],
            r.right@ == seq![
                StatusLineElement::Spinner,
                StatusLineElement::VersionControl,
                StatusLineElement::FileIndentStyle,
                StatusLineElement::FileEncoding,
                StatusLineElement::Selections,
                StatusLineElement::Position,
            ],
            r.separator@ == "│"@,
            r.mode.normal@ == "NOR"@,
            r.mode.insert@ == "INS"@,
            r.mode.select@ == "SEL"@,
            r.default_encoding@ == "UTF-8"@,
    {
        let left = vec![
            StatusLineElement::Mode,
            StatusLineElement::Register,
            StatusLineElement::FileBaseName,
            StatusLineElement::FileModificationIndicator,
            StatusLineElement::ReadOnlyIndicator,
            StatusLineElement::Diagnostics,
        ];
        let center = vec![StatusLineElement::Spacer];
        let right = vec![
            StatusLineElement::Spinner,
            StatusLineElement::VersionControl,
            StatusLineElement::FileIndentStyle,
            StatusLineElement::FileEncoding,
            StatusLineElement::Selections,
            StatusLineElement::Position,
        ];
        StatusLineConfig {
            left,
            center,
            right,
            separator: "│".to_owned(),
            mode: ModeConfig::default(),
            default_encoding: "UTF-8".to_owned(),
        }
    }
}

} // verus!
