//! Document identifiers and errors, and what a document's text says of
//! its line endings and indentation.

use vstd::prelude::*;
use crate::components::statusline::{IndentStyle, LineEnding};
use crate::editor::workspace::{path_strip_prefix, std_path_strip_prefix};
use crate::config::editor::str_eq;
use crate::text::unicode::{
    spec_decimal, decimal_chars, push_str, push_all, string_from_chars, chars_of, split_on, views,
    split_chars, lemma_split_on_nonempty,
};

verus! {

/// The identifier of an open document.
#[derive(Debug, Clone, Copy, PartialEq, Eq, PartialOrd, Ord, Hash, Structural)]
pub struct DocumentId(pub usize);

impl DocumentId {
    /// The identifier's number in decimal.
    pub fn to_string(&self) -> (r: String)
        ensures
            r@ == spec_decimal(self.0 as nat),
    {
        let v = decimal_chars(self.0 as u64);
        string_from_chars(&v)
    }
}

/// Why a document could not be opened, read or saved.
#[derive(Debug, Clone, PartialEq, Eq)]
pub enum DocumentError {
    /// Reading or writing failed; the system's message.
    Io(String),
    /// The path names a directory.
    IsADirectory(String),
    /// The document has no file to save to.
    NoPathSet,
    /// The file is not valid UTF-8.
    InvalidEncoding,
}

impl DocumentError {
    /// The message for the error.
    pub open spec fn spec_text(&self) -> Seq<char> {
        match self {
            DocumentError::Io(e) => "I/O error: "@ + e@,
            DocumentError::IsADirectory(p) => "'"@ + p@ + "' is a directory"@,
            DocumentError::NoPathSet => "no path set for document"@,
            DocumentError::InvalidEncoding => "file contains invalid UTF-8 data"@,
        }
    }

    /// The message for the error, such as `'src' is a directory`.
    pub fn to_string(&self) -> (r: String)
        ensures
            r@ == self.spec_text(),
    {
        let mut v: Vec<char> = Vec::new();
        match self {
            DocumentError::Io(e) => {
                push_str(&mut v, "I/O error: ");
                push_str(&mut v, e.as_str());
            },
            DocumentError::IsADirectory(p) => {
                push_str(&mut v, "'");
                push_str(&mut v, p.as_str());
                push_str(&mut v, "' is a directory");
            },
            DocumentError::NoPathSet => push_str(&mut v, "no path set for document"),
            DocumentError::InvalidEncoding => push_str(&mut v, "file contains invalid UTF-8 data"),
        }
        assert(v@ =~= self.spec_text());
        string_from_chars(&v)
    }
}

/// The name a document is shown by: its path relative to its workspace
/// root (the path itself outside it), or `[scratch]` when it has none.
pub open spec fn spec_display_name(path: Option<Seq<char>>, workspace_root: Seq<char>) -> Seq<char> {
    match path {
        Some(p) => match std_path_strip_prefix(p, workspace_root) {
            Some(rel) => rel,
            None => p,
        },
        None => "[scratch]"@,
    }
}

/// The name a document with `path` (`None` for a scratch buffer) in the
/// workspace rooted at `workspace_root` is shown by.
pub fn display_name(path: Option<&str>, workspace_root: &str) -> (r: String)
    ensures
        r@ == spec_display_name(
            match path {
                Some(p) => Some(p@),
                None => None,
            },
            workspace_root@,
        ),
{
    match path {
        Some(p) => match path_strip_prefix(p, workspace_root) {
            Some(rel) => rel,
            None => p.to_owned(),
        },
        None => "[scratch]".to_owned(),
    }
}

/// Whether entry `k` of `docs` is the first with path `path`.
pub open spec fn is_first_with_path(docs: Seq<(DocumentId, String)>, path: Seq<char>, k: int) -> bool {
    &&& 0 <= k < docs.len()
    &&& docs[k].1@ == path
    &&& forall|j: int| 0 <= j < k ==> (#[trigger] docs[j]).1@ != path
}

/// The open document whose (canonical) path is `path`, if any: the first
/// such in `docs`, which lists each open document's identifier and path.
pub fn document_by_path(docs: &Vec<(DocumentId, String)>, path: &str) -> (r: Option<DocumentId>)
    ensures
        match r {
            Some(id) => exists|k: int| is_first_with_path(docs@, path@, k) && docs@[k].0 == id,
            None => forall|k: int| 0 <= k < docs@.len() ==> (#[trigger] docs@[k]).1@ != path@,
        },
{
    let mut i: usize = 0;
    while i < docs.len()
        invariant
            i <= docs@.len(),
            forall|j: int| 0 <= j < i ==> (#[trigger] docs@[j]).1@ != path@,
        decreases docs.len() - i,
    {
        if str_eq(docs[i].1.as_str(), path) {
            assert(is_first_with_path(docs@, path@, i as int));
            return Some(docs[i].0);
        }
        i = i + 1;
    }
    None
}

/// Whether `text` holds a carriage return followed by a line feed.
pub open spec fn has_crlf(text: Seq<char>) -> bool {
    exists|i: int| 0 <= i < text.len() - 1 && #[trigger] text[i] == '\r' && text[i + 1] == '\n'
}

/// The line ending a text uses: CRLF when it holds `\r\n` anywhere.
pub open spec fn spec_detect_line_ending(text: Seq<char>) -> LineEnding {
    if has_crlf(text) {
        LineEnding::Crlf
    } else {
        LineEnding::Lf
    }
}

/// The line ending a text uses: CRLF when it holds `\r\n` anywhere, LF
/// otherwise.
pub fn detect_line_ending(text: &str) -> (r: LineEnding)
    ensures
        r == spec_detect_line_ending(text@),
{
    let v = chars_of(text);
    let mut i: usize = 0;
    while i < v.len()
        invariant
            v@ == text@,
            i <= v@.len(),
            forall|j: int| 0 <= j < i && j < v@.len() - 1 ==> !(#[trigger] v@[j] == '\r' && v@[j + 1] == '\n'),
        decreases v.len() - i,
    {
        if i + 1 < v.len() && v[i] == '\r' && v[i + 1] == '\n' {
            return LineEnding::Crlf;
        }
        i = i + 1;
    }
    LineEnding::Lf
}

/// The lines of a text (`str::lines`, whose dropping of a carriage
/// return before a line feed changes nothing here): the pieces between
/// line feeds, without a last empty piece.
pub open spec fn text_lines(text: Seq<char>) -> Seq<Seq<char>> {
    let pieces = split_on(text, '\n');
    if pieces.last().len() == 0 {
        pieces.drop_last()
    } else {
        pieces
    }
}

/// How a line starts: 0 with a tab, 1 with four spaces, 2 with two
/// spaces, 3 otherwise.
pub open spec fn indent_kind(line: Seq<char>) -> int {
    if line.len() >= 1 && line[0] == '\t' {
        0
    } else if line.len() >= 4 && line[0] == ' ' && line[1] == ' ' && line[2] == ' ' && line[3] == ' ' {
        1
    } else if line.len() >= 2 && line[0] == ' ' && line[1] == ' ' {
        2
    } else {
        3
    }
}

/// How many of the lines start in the given way.
pub open spec fn count_kind(lines: Seq<Seq<char>>, kind: int) -> nat
    decreases lines.len(),
{
    if lines.len() == 0 {
        0
    } else {
        count_kind(lines.drop_last(), kind) + if indent_kind(lines.last()) == kind {
            1nat
        } else {
            0nat
        }
    }
}

/// The indentation a text uses, judged by its first hundred lines: tabs
/// when more of them start with a tab than with four or with two spaces;
/// else two spaces when more start with two spaces (but not four) than
/// with four; else four spaces.
pub open spec fn spec_detect_indent_style(text: Seq<char>) -> IndentStyle {
    let all = text_lines(text);
    let lines = all.subrange(0, if all.len() < 100 { all.len() as int } else { 100 });
    let tabs = count_kind(lines, 0);
    let four = count_kind(lines, 1);
    let two = count_kind(lines, 2);
    if tabs > four && tabs > two {
        IndentStyle::Tabs
    } else if two > four {
        IndentStyle::Spaces(2)
    } else {
        IndentStyle::Spaces(4)
    }
}

/// How a line starts (see `indent_kind`).
fn line_indent_kind(line: &Vec<char>) -> (r: u8)
    ensures
        r as int == indent_kind(line@),
{
    let n = line.len();
    if n >= 1 && line[0] == '\t' {
        0
    } else if n >= 4 && line[0] == ' ' && line[1] == ' ' && line[2] == ' ' && line[3] == ' ' {
        1
    } else if n >= 2 && line[0] == ' ' && line[1] == ' ' {
        2
    } else {
        3
    }
}

/// The indentation a text uses, judged by its first hundred lines (see
/// `spec_detect_indent_style`).
pub fn detect_indent_style(text: &str) -> (r: IndentStyle)
    ensures
        r == spec_detect_indent_style(text@),
{
    let v = chars_of(text);
    let mut pieces = split_chars(&v, '\n');
    proof {
        lemma_split_on_nonempty(v@, '\n');
    }
    let ghost all = text_lines(text@);
    if pieces[pieces.len() - 1].len() == 0 {
        pieces.pop();
    }
    assert(views(pieces@) =~= all);
    let limit: usize = if pieces.len() < 100 { pieces.len() } else { 100 };
    let ghost lines = all.subrange(0, limit as int);
    let mut tabs: u32 = 0;
    let mut four: u32 = 0;
    let mut two: u32 = 0;
    let mut i: usize = 0;
    while i < limit
        invariant
            i <= limit <= pieces@.len(),
            limit <= 100,
            views(pieces@) == all,
            lines == all.subrange(0, limit as int),
            tabs as nat == count_kind(lines.subrange(0, i as int), 0),
            four as nat == count_kind(lines.subrange(0, i as int), 1),
            two as nat == count_kind(lines.subrange(0, i as int), 2),
            tabs <= i && four <= i && two <= i,
        decreases limit - i,
    {
        let k = line_indent_kind(&pieces[i]);
        let ghost sub = lines.subrange(0, i + 1);
        assert(sub.drop_last() =~= lines.subrange(0, i as int));
        assert(sub.last() == pieces@[i as int]@);
        if k == 0 {
            tabs = tabs + 1;
        } else if k == 1 {
            four = four + 1;
        } else if k == 2 {
            two = two + 1;
        }
        i = i + 1;
    }
    assert(lines.subrange(0, i as int) =~= lines);
    if tabs > four && tabs > two {
        IndentStyle::Tabs
    } else if two > four {
        IndentStyle::Spaces(2)
    } else {
        IndentStyle::Spaces(4)
    }
}

} // verus!
