//! Command lines (`:w`, `:q`, `:e path`, `:b name`, ...): how they are read
//! and what they do to the editor state. Saving, opening files and
//! applying themes are left to the caller, as a `CommandEffect`.

use vstd::prelude::*;
use crate::commands::spec::switched_to;
use crate::components::controller::KeyHandleResult;
use crate::components::palette::opt_view;
use crate::components::statusline::DiagnosticSeverity;
use crate::editor::document::{DocumentId, DocumentError};
use crate::editor::state::{EditorState, CloseError};
use crate::editor::workspace::{Workspace, std_path_file_name};
use crate::editor::state::without;
use crate::keymap::input::{spec_trim, trim_start, trim_chars, copy_range};
use crate::text::unicode::{
    spec_is_whitespace, is_whitespace, chars_of, push_str, push_all, string_from_chars, spec_decimal,
    decimal_chars, spec_parse_decimal, parse_decimal,
};

verus! {

/// The kind of a command line, by its first word.
#[derive(Debug, Clone, Copy, PartialEq, Eq, Structural)]
pub enum CommandKind {
    /// Nothing was typed.
    Empty,
    /// `w`, `write`, `w!`, `write!`.
    Write,
    /// `q`, `quit`, `bc`, `bclose`.
    Quit,
    /// `q!`, `quit!`, `bc!`, `bclose!`.
    ForceQuit,
    /// `wq`, `x`.
    WriteQuit,
    /// `e`, `open`.
    Open,
    /// `bn`, `bnext`, `buffer-next`.
    BufferNext,
    /// `bp`, `bprev`, `buffer-previous`.
    BufferPrevious,
    /// `b`, `buffer`.
    Buffer,
    /// `pwd`.
    Pwd,
    /// `cd`.
    Cd,
    /// `theme`.
    Theme,
    /// Any other word.
    Unknown,
}

/// A command line read: its kind, its first word and its second word.
#[derive(Debug, Clone, PartialEq, Eq)]
pub struct ParsedCommand {
    pub kind: CommandKind,
    pub name: String,
    pub arg: Option<String>,
}

/// What is left for the caller after a command ran.
#[derive(Debug, Clone, PartialEq, Eq)]
pub enum CommandEffect {
    /// Nothing; the answer for the view.
    Done(KeyHandleResult),
    /// Save the current document, to the path when one is given; then,
    /// when the flag is set, close it as `:q` does.
    Save(Option<String>, bool),
    /// Open the file at the path.
    Open(String),
    /// Make the directory at the path (made canonical) the workspace root
    /// (see `change_directory`).
    ChangeDirectory(String),
    /// Apply the theme of the first name; the second is the name typed.
    ApplyTheme(String, String),
}

/// The longest prefix of `s` without whitespace.
pub open spec fn take_word(s: Seq<char>) -> Seq<char>
    decreases s.len(),
{
    if s.len() == 0 || spec_is_whitespace(s[0]) {
        Seq::empty()
    } else {
        seq![s[0]] + take_word(s.drop_first())
    }
}

/// The command line without surrounding whitespace and one leading `:`.
pub open spec fn command_body(s: Seq<char>) -> Seq<char> {
    let t = spec_trim(s);
    spec_trim(if t.len() > 0 && t[0] == ':' { t.drop_first() } else { t })
}

/// The first word of the command line.
pub open spec fn command_name(s: Seq<char>) -> Seq<char> {
    take_word(command_body(s))
}

/// The second word of the command line, if there is one.
pub open spec fn command_arg(s: Seq<char>) -> Option<Seq<char>> {
    let b = command_body(s);
    let rest = trim_start(b.subrange(take_word(b).len() as int, b.len() as int));
    if rest.len() > 0 {
        Some(take_word(rest))
    } else {
        None
    }
}

/// The kind of command a first word names.
pub open spec fn command_kind(name: Seq<char>) -> CommandKind {
    if name.len() == 0 {
        CommandKind::Empty
    } else if name == "w"@ || name == "write"@ || name == "w!"@ || name == "write!"@ {
        CommandKind::Write
    } else if name == "q"@ || name == "quit"@ || name == "bc"@ || name == "bclose"@ {
        CommandKind::Quit
    } else if name == "q!"@ || name == "quit!"@ || name == "bc!"@ || name == "bclose!"@ {
        CommandKind::ForceQuit
    } else if name == "wq"@ || name == "x"@ {
        CommandKind::WriteQuit
    } else if name == "e"@ || name == "open"@ {
        CommandKind::Open
    } else if name == "bn"@ || name == "bnext"@ || name == "buffer-next"@ {
        CommandKind::BufferNext
    } else if name == "bp"@ || name == "bprev"@ || name == "buffer-previous"@ {
        CommandKind::BufferPrevious
    } else if name == "b"@ || name == "buffer"@ {
        CommandKind::Buffer
    } else if name == "pwd"@ {
        CommandKind::Pwd
    } else if name == "cd"@ {
        CommandKind::Cd
    } else if name == "theme"@ {
        CommandKind::Theme
    } else {
        CommandKind::Unknown
    }
}

/// Whether `v` holds the characters of `s`.
fn chars_are(v: &Vec<char>, s: &str) -> (r: bool)
    ensures
        r == (v@ == s@),
{
    let w = chars_of(s);
    if v.len() != w.len() {
        return false;
    }
    let mut i: usize = 0;
    while i < v.len()
        invariant
            i <= v@.len(),
            v@.len() == w@.len(),
            w@ == s@,
            forall|j: int| 0 <= j < i ==> v@[j] == w@[j],
        decreases v.len() - i,
    {
        if v[i] != w[i] {
            return false;
        }
        i = i + 1;
    }
    assert(v@ =~= w@);
    true
}

/// The kind of command a first word names.
fn kind_of(name: &Vec<char>) -> (r: CommandKind)
    ensures
        r == command_kind(name@),
{
    if name.len() == 0 {
        CommandKind::Empty
    } else if chars_are(name, "w") || chars_are(name, "write") || chars_are(name, "w!") || chars_are(
        name,
        "write!",
    ) {
        CommandKind::Write
    } else if chars_are(name, "q") || chars_are(name, "quit") || chars_are(name, "bc") || chars_are(
        name,
        "bclose",
    ) {
        CommandKind::Quit
    } else if chars_are(name, "q!") || chars_are(name, "quit!") || chars_are(name, "bc!")
        || chars_are(name, "bclose!") {
        CommandKind::ForceQuit
    } else if chars_are(name, "wq") || chars_are(name, "x") {
        CommandKind::WriteQuit
    } else if chars_are(name, "e") || chars_are(name, "open") {
        CommandKind::Open
    } else if chars_are(name, "bn") || chars_are(name, "bnext") || chars_are(name, "buffer-next") {
        CommandKind::BufferNext
    } else if chars_are(name, "bp") || chars_are(name, "bprev") || chars_are(name, "buffer-previous") {
        CommandKind::BufferPrevious
    } else if chars_are(name, "b") || chars_are(name, "buffer") {
        CommandKind::Buffer
    } else if chars_are(name, "pwd") {
        CommandKind::Pwd
    } else if chars_are(name, "cd") {
        CommandKind::Cd
    } else if chars_are(name, "theme") {
        CommandKind::Theme
    } else {
        CommandKind::Unknown
    }
}

/// The end of the word that starts at `from` in `v`.
fn word_end(v: &Vec<char>, from: usize) -> (r: usize)
    requires
        from <= v@.len(),
    ensures
        from <= r <= v@.len(),
        take_word(v@.subrange(from as int, v@.len() as int)) == v@.subrange(from as int, r as int),
{
    let n = v.len();
    let mut i = from;
    while i < n && !is_whitespace(v[i])
        invariant
            from <= i <= n,
            n == v@.len(),
            take_word(v@.subrange(from as int, n as int)) == v@.subrange(from as int, i as int) + take_word(
                v@.subrange(i as int, n as int),
            ),
        decreases n - i,
    {
        assert(v@.subrange(i as int, n as int).drop_first() =~= v@.subrange(i + 1, n as int));
        assert(v@.subrange(from as int, i as int) + seq![v@[i as int]] =~= v@.subrange(
            from as int,
            i + 1,
        ));
        i = i + 1;
    }
    assert(take_word(v@.subrange(i as int, n as int)) =~= Seq::<char>::empty());
    assert(v@.subrange(from as int, i as int) + Seq::<char>::empty() =~= v@.subrange(from as int, i as int));
    i
}

/// The end of the whitespace that starts at `from` in `v`.
fn space_end(v: &Vec<char>, from: usize) -> (r: usize)
    requires
        from <= v@.len(),
    ensures
        from <= r <= v@.len(),
        trim_start(v@.subrange(from as int, v@.len() as int)) == v@.subrange(r as int, v@.len() as int),
{
    let n = v.len();
    let mut i = from;
    while i < n && is_whitespace(v[i])
        invariant
            from <= i <= n,
            n == v@.len(),
            trim_start(v@.subrange(from as int, n as int)) == trim_start(v@.subrange(i as int, n as int)),
        decreases n - i,
    {
        assert(v@.subrange(i as int, n as int).drop_first() =~= v@.subrange(i + 1, n as int));
        i = i + 1;
    }
    i
}

/// Reads a command line (see `command_name`, `command_arg`,
/// `command_kind`).
pub fn parse_command(input: &str) -> (r: ParsedCommand)
    ensures
        r.name@ == command_name(input@),
        opt_view(r.arg) == command_arg(input@),
        r.kind == command_kind(command_name(input@)),
{
    let v = chars_of(input);
    let t = trim_chars(&v);
    let body = if t.len() > 0 && t[0] == ':' {
        let rest = copy_range(&t, 1, t.len());
        assert(rest@ =~= t@.drop_first());
        trim_chars(&rest)
    } else {
        trim_chars(&t)
    };
    let n = body.len();
    assert(body@.subrange(0, n as int) =~= body@);
    let e1 = word_end(&body, 0);
    let name = copy_range(&body, 0, e1);
    let s2 = space_end(&body, e1);
    let arg = if s2 < n {
        let e2 = word_end(&body, s2);
        Some(string_from_chars(&copy_range(&body, s2, e2)))
    } else {
        None
    };
    let kind = kind_of(&name);
    ParsedCommand { kind, name: string_from_chars(&name), arg }
}

/// The display name given for document `id`: the first entry for it, or
/// nothing.
pub open spec fn display_in(names: Seq<(DocumentId, String)>, id: DocumentId) -> Seq<char>
    decreases names.len(),
{
    if names.len() == 0 {
        Seq::empty()
    } else if names[0].0 == id {
        names[0].1@
    } else {
        display_in(names.drop_first(), id)
    }
}

/// Whether `t` occurs in `s`.
pub open spec fn has_infix(s: Seq<char>, t: Seq<char>) -> bool {
    exists|i: int| 0 <= i && i + t.len() <= s.len() && #[trigger] s.subrange(i, i + t.len()) == t
}

/// The first document whose display name holds `t`.
pub open spec fn first_named(names: Seq<(DocumentId, String)>, t: Seq<char>) -> Option<DocumentId>
    decreases names.len(),
{
    if names.len() == 0 {
        None
    } else if has_infix(names[0].1@, t) {
        Some(names[0].0)
    } else {
        first_named(names.drop_first(), t)
    }
}

/// The theme a name stands for: the name, prefixed with `catppuccin-`
/// unless it starts with it.
pub open spec fn full_theme(name: Seq<char>) -> Seq<char> {
    let p = "catppuccin-"@;
    if p.len() <= name.len() && name.subrange(0, p.len() as int) == p {
        name
    } else {
        p + name
    }
}

/// `s1` is `s0` with the status line showing `msg` at `severity`.
pub open spec fn shows(s0: EditorState, s1: EditorState, msg: Seq<char>, severity: DiagnosticSeverity) -> bool {
    &&& s1 == (EditorState { status_msg: s1.status_msg, ..s0 })
    &&& s1.status_msg matches Some((m, v)) && m@ == msg && v == severity
}

/// `s1` is `s0` showing the error `msg`, and the answer is `Stop`.
pub open spec fn fails_with(s0: EditorState, s1: EditorState, msg: Seq<char>, e: CommandEffect) -> bool {
    shows(s0, s1, msg, DiagnosticSeverity::Error) && e == CommandEffect::Done(KeyHandleResult::Stop)
}

/// The message after switching to document `id`.
pub open spec fn switched_message(names: Seq<(DocumentId, String)>, id: DocumentId) -> Seq<char> {
    "Switched to buffer "@ + spec_decimal(id.0 as nat) + ": "@ + display_in(names, id)
}

/// `s1` is `s0` after a switch to the open document `id`, reported.
pub open spec fn switched_reported(
    s0: EditorState,
    s1: EditorState,
    names: Seq<(DocumentId, String)>,
    id: DocumentId,
    e: CommandEffect,
) -> bool {
    exists|mid: EditorState|
        #[trigger] switched_to(s0, mid, id) && shows(mid, s1, switched_message(names, id), DiagnosticSeverity::Info)
            && e == CommandEffect::Done(KeyHandleResult::DocumentChanged(id))
}

/// What closing the current document (`force`d or not) does: with none
/// left the editor quits; otherwise the new current document is reported;
/// a refusal is shown as an error.
pub open spec fn close_reported(
    s0: EditorState,
    s1: EditorState,
    force: bool,
    modified: bool,
    names: Seq<(DocumentId, String)>,
    e: CommandEffect,
) -> bool {
    exists|mid: EditorState, res: Result<Option<DocumentId>, CloseError>|
        #[trigger] EditorState::closed(s0, mid, s0.current_document_id, force, modified, res) && match res {
            Ok(None) => s1 == mid && e == CommandEffect::Done(KeyHandleResult::Quit),
            Ok(Some(id)) => {
                &&& shows(
                    mid,
                    s1,
                    "Closed buffer. Now at "@ + spec_decimal(mid.current_document_id.0 as nat) + ": "@
                        + display_in(names, mid.current_document_id),
                    DiagnosticSeverity::Info,
                )
                &&& e == CommandEffect::Done(KeyHandleResult::DocumentChanged(mid.current_document_id))
            },
            Err(err) => fails_with(
                mid,
                s1,
                if force {
                    "Error closing buffer: "@ + err.spec_text()
                } else if err == CloseError::Modified {
                    "Buffer has unsaved changes (use :q! or force to close)"@
                } else {
                    "Buffer does not exist"@
                },
                e,
            ),
        }
}

/// What `:b arg` does: a number naming an open document switches to it;
/// otherwise the first document whose name holds `arg`; otherwise an
/// error.
pub open spec fn buffer_chosen(
    s0: EditorState,
    s1: EditorState,
    names: Seq<(DocumentId, String)>,
    a: Seq<char>,
    e: CommandEffect,
) -> bool {
    let num = spec_parse_usize(a);
    if num is Some && s0.documents@.contains(DocumentId(num->0 as usize)) {
        switched_reported(s0, s1, names, DocumentId(num->0 as usize), e)
    } else {
        match first_named(names, a) {
            Some(id) => if s0.documents@.contains(id) {
                switched_reported(s0, s1, names, id, e)
            } else {
                &&& shows(s0, s1, switched_message(names, id), DiagnosticSeverity::Info)
                &&& e == CommandEffect::Done(KeyHandleResult::DocumentChanged(id))
            },
            None => fails_with(s0, s1, "Buffer not found: "@ + a, e),
        }
    }
}

/// What moving to the next or previous document (`target`) does: the
/// document that is then current is reported.
pub open spec fn cycled(
    s0: EditorState,
    s1: EditorState,
    names: Seq<(DocumentId, String)>,
    target: DocumentId,
    e: CommandEffect,
) -> bool {
    exists|mid: EditorState|
        #[trigger] crate::commands::spec::document_step(
            s0,
            mid,
            target,
            KeyHandleResult::DocumentChanged(mid.current_document_id),
        ) && shows(mid, s1, switched_message(names, mid.current_document_id), DiagnosticSeverity::Info)
            && e == CommandEffect::Done(KeyHandleResult::DocumentChanged(mid.current_document_id))
}

/// What running the command line `input` does from state `s0`:
/// `modified` tells whether the current document has unsaved changes and
/// `names` gives the display name of each open document, in order.
pub open spec fn command_done(
    s0: EditorState,
    input: Seq<char>,
    modified: bool,
    names: Seq<(DocumentId, String)>,
    s1: EditorState,
    e: CommandEffect,
) -> bool {
    let name = command_name(input);
    let arg = command_arg(input);
    match command_kind(name) {
        CommandKind::Empty => s1 == s0 && e == CommandEffect::Done(KeyHandleResult::Stop),
        CommandKind::Write => s1 == s0 && (e matches CommandEffect::Save(p, c) && opt_view(p) == arg && !c),
        CommandKind::WriteQuit => s1 == s0 && (e matches CommandEffect::Save(p, c) && p is None && c),
        CommandKind::Open => match arg {
            Some(a) => s1 == s0 && (e matches CommandEffect::Open(p) && p@ == a),
            None => fails_with(s0, s1, "No path provided for :e / :open"@, e),
        },
        CommandKind::Quit => close_reported(s0, s1, false, modified, names, e),
        CommandKind::ForceQuit => close_reported(s0, s1, true, modified, names, e),
        CommandKind::BufferNext => cycled(
            s0,
            s1,
            names,
            crate::commands::spec::next_in(s0.documents@, s0.current_document_id),
            e,
        ),
        CommandKind::BufferPrevious => cycled(
            s0,
            s1,
            names,
            crate::commands::spec::prev_in(s0.documents@, s0.current_document_id),
            e,
        ),
        CommandKind::Buffer => match arg {
            Some(a) => buffer_chosen(s0, s1, names, a, e),
            None => {
                &&& shows(
                    s0,
                    s1,
                    "Buffer picker: "@ + spec_decimal(s0.documents@.len()) + " open buffers"@,
                    DiagnosticSeverity::Info,
                )
                &&& e == CommandEffect::Done(KeyHandleResult::OpenBufferPicker)
            },
        },
        CommandKind::Pwd => {
            &&& shows(s0, s1, "Workspace root: "@ + s0.workspace.spec_root(), DiagnosticSeverity::Info)
            &&& e == CommandEffect::Done(KeyHandleResult::Stop)
        },
        CommandKind::Cd => match arg {
            Some(a) => s1 == s0 && (e matches CommandEffect::ChangeDirectory(p) && p@ == a),
            None => fails_with(s0, s1, "No path provided for :cd"@, e),
        },
        CommandKind::Theme => match arg {
            Some(a) => s1 == s0 && (e matches CommandEffect::ApplyTheme(t, n) && t@ == full_theme(a) && n@
                == a),
            None => fails_with(
                s0,
                s1,
                "No theme name provided (try mocha, latte, frappe, macchiato)"@,
                e,
            ),
        },
        CommandKind::Unknown => fails_with(s0, s1, "Unknown command: :"@ + name, e),
    }
}


/// The kinds of the command names.
proof fn lemma_command_kinds()
    ensures
        command_kind("w"@) == CommandKind::Write,
        command_kind("write"@) == CommandKind::Write,
        command_kind("w!"@) == CommandKind::Write,
        command_kind("write!"@) == CommandKind::Write,
        command_kind("q"@) == CommandKind::Quit,
        command_kind("quit"@) == CommandKind::Quit,
        command_kind("bc"@) == CommandKind::Quit,
        command_kind("bclose"@) == CommandKind::Quit,
        command_kind("q!"@) == CommandKind::ForceQuit,
        command_kind("quit!"@) == CommandKind::ForceQuit,
        command_kind("bc!"@) == CommandKind::ForceQuit,
        command_kind("bclose!"@) == CommandKind::ForceQuit,
        command_kind("wq"@) == CommandKind::WriteQuit,
        command_kind("x"@) == CommandKind::WriteQuit,
        command_kind("e"@) == CommandKind::Open,
        command_kind("open"@) == CommandKind::Open,
        command_kind("bn"@) == CommandKind::BufferNext,
        command_kind("bnext"@) == CommandKind::BufferNext,
        command_kind("buffer-next"@) == CommandKind::BufferNext,
        command_kind("bp"@) == CommandKind::BufferPrevious,
        command_kind("bprev"@) == CommandKind::BufferPrevious,
        command_kind("buffer-previous"@) == CommandKind::BufferPrevious,
        command_kind("b"@) == CommandKind::Buffer,
        command_kind("buffer"@) == CommandKind::Buffer,
{
    assert(command_kind("w"@) == CommandKind::Write) by {
        reveal_strlit("w");
    }
    assert(command_kind("write"@) == CommandKind::Write) by {
        reveal_strlit("w");
        reveal_strlit("write");
    }
    assert(command_kind("w!"@) == CommandKind::Write) by {
        reveal_strlit("w");
        reveal_strlit("write");
        reveal_strlit("w!");
    }
    assert(command_kind("write!"@) == CommandKind::Write) by {
        reveal_strlit("w");
        reveal_strlit("write");
        reveal_strlit("w!");
        reveal_strlit("write!");
    }
    assert(command_kind("q"@) == CommandKind::Quit) by {
        reveal_strlit("w");
        reveal_strlit("write");
        reveal_strlit("w!");
        reveal_strlit("write!");
        reveal_strlit("q");
        assert("q"@[0] != "w"@[0]);
    }
    assert(command_kind("quit"@) == CommandKind::Quit) by {
        reveal_strlit("w");
        reveal_strlit("write");
        reveal_strlit("w!");
        reveal_strlit("write!");
        reveal_strlit("q");
        reveal_strlit("quit");
    }
    assert(command_kind("bc"@) == CommandKind::Quit) by {
        reveal_strlit("w");
        reveal_strlit("write");
        reveal_strlit("w!");
        reveal_strlit("write!");
        reveal_strlit("q");
        reveal_strlit("quit");
        reveal_strlit("bc");
        assert("bc"@[0] != "w!"@[0]);
    }
    assert(command_kind("bclose"@) == CommandKind::Quit) by {
        reveal_strlit("w");
        reveal_strlit("write");
        reveal_strlit("w!");
        reveal_strlit("write!");
        reveal_strlit("q");
        reveal_strlit("quit");
        reveal_strlit("bc");
        reveal_strlit("bclose");
        assert("bclose"@[0] != "write!"@[0]);
    }
    assert(command_kind("q!"@) == CommandKind::ForceQuit) by {
        reveal_strlit("w");
        reveal_strlit("write");
        reveal_strlit("w!");
        reveal_strlit("write!");
        reveal_strlit("q");
        reveal_strlit("quit");
        reveal_strlit("bc");
        reveal_strlit("bclose");
        reveal_strlit("q!");
        assert("q!"@[0] != "w!"@[0]);
        assert("q!"@[0] != "bc"@[0]);
    }
    assert(command_kind("quit!"@) == CommandKind::ForceQuit) by {
        reveal_strlit("w");
        reveal_strlit("write");
        reveal_strlit("w!");
        reveal_strlit("write!");
        reveal_strlit("q");
        reveal_strlit("quit");
        reveal_strlit("bc");
        reveal_strlit("bclose");
        reveal_strlit("q!");
        reveal_strlit("quit!");
        assert("quit!"@[0] != "write"@[0]);
    }
    assert(command_kind("bc!"@) == CommandKind::ForceQuit) by {
        reveal_strlit("w");
        reveal_strlit("write");
        reveal_strlit("w!");
        reveal_strlit("write!");
        reveal_strlit("q");
        reveal_strlit("quit");
        reveal_strlit("bc");
        reveal_strlit("bclose");
        reveal_strlit("q!");
        reveal_strlit("quit!");
        reveal_strlit("bc!");
    }
    assert(command_kind("bclose!"@) == CommandKind::ForceQuit) by {
        reveal_strlit("w");
        reveal_strlit("write");
        reveal_strlit("w!");
        reveal_strlit("write!");
        reveal_strlit("q");
        reveal_strlit("quit");
        reveal_strlit("bc");
        reveal_strlit("bclose");
        reveal_strlit("q!");
        reveal_strlit("quit!");
        reveal_strlit("bc!");
        reveal_strlit("bclose!");
    }
    assert(command_kind("wq"@) == CommandKind::WriteQuit) by {
        reveal_strlit("w");
        reveal_strlit("write");
        reveal_strlit("w!");
        reveal_strlit("write!");
        reveal_strlit("q");
        reveal_strlit("quit");
        reveal_strlit("bc");
        reveal_strlit("bclose");
        reveal_strlit("q!");
        reveal_strlit("quit!");
        reveal_strlit("bc!");
        reveal_strlit("bclose!");
        reveal_strlit("wq");
        assert("wq"@[1] != "w!"@[1]);
        assert("wq"@[0] != "bc"@[0]);
        assert("wq"@[0] != "q!"@[0]);
    }
    assert(command_kind("x"@) == CommandKind::WriteQuit) by {
        reveal_strlit("w");
        reveal_strlit("write");
        reveal_strlit("w!");
        reveal_strlit("write!");
        reveal_strlit("q");
        reveal_strlit("quit");
        reveal_strlit("bc");
        reveal_strlit("bclose");
        reveal_strlit("q!");
        reveal_strlit("quit!");
        reveal_strlit("bc!");
        reveal_strlit("bclose!");
        reveal_strlit("wq");
        reveal_strlit("x");
        assert("x"@[0] != "w"@[0]);
        assert("x"@[0] != "q"@[0]);
    }
    assert(command_kind("e"@) == CommandKind::Open) by {
        reveal_strlit("w");
        reveal_strlit("write");
        reveal_strlit("w!");
        reveal_strlit("write!");
        reveal_strlit("q");
        reveal_strlit("quit");
        reveal_strlit("bc");
        reveal_strlit("bclose");
        reveal_strlit("q!");
        reveal_strlit("quit!");
        reveal_strlit("bc!");
        reveal_strlit("bclose!");
        reveal_strlit("wq");
        reveal_strlit("x");
        reveal_strlit("e");
        assert("e"@[0] != "w"@[0]);
        assert("e"@[0] != "q"@[0]);
        assert("e"@[0] != "x"@[0]);
    }
    assert(command_kind("open"@) == CommandKind::Open) by {
        reveal_strlit("w");
        reveal_strlit("write");
        reveal_strlit("w!");
        reveal_strlit("write!");
        reveal_strlit("q");
        reveal_strlit("quit");
        reveal_strlit("bc");
        reveal_strlit("bclose");
        reveal_strlit("q!");
        reveal_strlit("quit!");
        reveal_strlit("bc!");
        reveal_strlit("bclose!");
        reveal_strlit("wq");
        reveal_strlit("x");
        reveal_strlit("e");
        reveal_strlit("open");
        assert("open"@[0] != "quit"@[0]);
    }
    assert(command_kind("bn"@) == CommandKind::BufferNext) by {
        reveal_strlit("w");
        reveal_strlit("write");
        reveal_strlit("w!");
        reveal_strlit("write!");
        reveal_strlit("q");
        reveal_strlit("quit");
        reveal_strlit("bc");
        reveal_strlit("bclose");
        reveal_strlit("q!");
        reveal_strlit("quit!");
        reveal_strlit("bc!");
        reveal_strlit("bclose!");
        reveal_strlit("wq");
        reveal_strlit("x");
        reveal_strlit("e");
        reveal_strlit("open");
        reveal_strlit("bn");
        assert("bn"@[0] != "w!"@[0]);
        assert("bn"@[1] != "bc"@[1]);
        assert("bn"@[0] != "q!"@[0]);
        assert("bn"@[0] != "wq"@[0]);
    }
    assert(command_kind("bnext"@) == CommandKind::BufferNext) by {
        reveal_strlit("w");
        reveal_strlit("write");
        reveal_strlit("w!");
        reveal_strlit("write!");
        reveal_strlit("q");
        reveal_strlit("quit");
        reveal_strlit("bc");
        reveal_strlit("bclose");
        reveal_strlit("q!");
        reveal_strlit("quit!");
        reveal_strlit("bc!");
        reveal_strlit("bclose!");
        reveal_strlit("wq");
        reveal_strlit("x");
        reveal_strlit("e");
        reveal_strlit("open");
        reveal_strlit("bn");
        reveal_strlit("bnext");
        assert("bnext"@[0] != "write"@[0]);
        assert("bnext"@[0] != "quit!"@[0]);
    }
    assert(command_kind("buffer-next"@) == CommandKind::BufferNext) by {
        reveal_strlit("w");
        reveal_strlit("write");
        reveal_strlit("w!");
        reveal_strlit("write!");
        reveal_strlit("q");
        reveal_strlit("quit");
        reveal_strlit("bc");
        reveal_strlit("bclose");
        reveal_strlit("q!");
        reveal_strlit("quit!");
        reveal_strlit("bc!");
        reveal_strlit("bclose!");
        reveal_strlit("wq");
        reveal_strlit("x");
        reveal_strlit("e");
        reveal_strlit("open");
        reveal_strlit("bn");
        reveal_strlit("bnext");
        reveal_strlit("buffer-next");
    }
    assert(command_kind("bp"@) == CommandKind::BufferPrevious) by {
        reveal_strlit("w");
        reveal_strlit("write");
        reveal_strlit("w!");
        reveal_strlit("write!");
        reveal_strlit("q");
        reveal_strlit("quit");
        reveal_strlit("bc");
        reveal_strlit("bclose");
        reveal_strlit("q!");
        reveal_strlit("quit!");
        reveal_strlit("bc!");
        reveal_strlit("bclose!");
        reveal_strlit("wq");
        reveal_strlit("x");
        reveal_strlit("e");
        reveal_strlit("open");
        reveal_strlit("bn");
        reveal_strlit("bnext");
        reveal_strlit("buffer-next");
        reveal_strlit("bp");
        assert("bp"@[0] != "w!"@[0]);
        assert("bp"@[1] != "bc"@[1]);
        assert("bp"@[0] != "q!"@[0]);
        assert("bp"@[0] != "wq"@[0]);
        assert("bp"@[1] != "bn"@[1]);
    }
    assert(command_kind("bprev"@) == CommandKind::BufferPrevious) by {
        reveal_strlit("w");
        reveal_strlit("write");
        reveal_strlit("w!");
        reveal_strlit("write!");
        reveal_strlit("q");
        reveal_strlit("quit");
        reveal_strlit("bc");
        reveal_strlit("bclose");
        reveal_strlit("q!");
        reveal_strlit("quit!");
        reveal_strlit("bc!");
        reveal_strlit("bclose!");
        reveal_strlit("wq");
        reveal_strlit("x");
        reveal_strlit("e");
        reveal_strlit("open");
        reveal_strlit("bn");
        reveal_strlit("bnext");
        reveal_strlit("buffer-next");
        reveal_strlit("bp");
        reveal_strlit("bprev");
        assert("bprev"@[0] != "write"@[0]);
        assert("bprev"@[0] != "quit!"@[0]);
        assert("bprev"@[1] != "bnext"@[1]);
    }
    assert(command_kind("buffer-previous"@) == CommandKind::BufferPrevious) by {
        reveal_strlit("w");
        reveal_strlit("write");
        reveal_strlit("w!");
        reveal_strlit("write!");
        reveal_strlit("q");
        reveal_strlit("quit");
        reveal_strlit("bc");
        reveal_strlit("bclose");
        reveal_strlit("q!");
        reveal_strlit("quit!");
        reveal_strlit("bc!");
        reveal_strlit("bclose!");
        reveal_strlit("wq");
        reveal_strlit("x");
        reveal_strlit("e");
        reveal_strlit("open");
        reveal_strlit("bn");
        reveal_strlit("bnext");
        reveal_strlit("buffer-next");
        reveal_strlit("bp");
        reveal_strlit("bprev");
        reveal_strlit("buffer-previous");
    }
    assert(command_kind("b"@) == CommandKind::Buffer) by {
        reveal_strlit("w");
        reveal_strlit("write");
        reveal_strlit("w!");
        reveal_strlit("write!");
        reveal_strlit("q");
        reveal_strlit("quit");
        reveal_strlit("bc");
        reveal_strlit("bclose");
        reveal_strlit("q!");
        reveal_strlit("quit!");
        reveal_strlit("bc!");
        reveal_strlit("bclose!");
        reveal_strlit("wq");
        reveal_strlit("x");
        reveal_strlit("e");
        reveal_strlit("open");
        reveal_strlit("bn");
        reveal_strlit("bnext");
        reveal_strlit("buffer-next");
        reveal_strlit("bp");
        reveal_strlit("bprev");
        reveal_strlit("buffer-previous");
        reveal_strlit("b");
        assert("b"@[0] != "w"@[0]);
        assert("b"@[0] != "q"@[0]);
        assert("b"@[0] != "x"@[0]);
        assert("b"@[0] != "e"@[0]);
    }
    assert(command_kind("buffer"@) == CommandKind::Buffer) by {
        reveal_strlit("w");
        reveal_strlit("write");
        reveal_strlit("w!");
        reveal_strlit("write!");
        reveal_strlit("q");
        reveal_strlit("quit");
        reveal_strlit("bc");
        reveal_strlit("bclose");
        reveal_strlit("q!");
        reveal_strlit("quit!");
        reveal_strlit("bc!");
        reveal_strlit("bclose!");
        reveal_strlit("wq");
        reveal_strlit("x");
        reveal_strlit("e");
        reveal_strlit("open");
        reveal_strlit("bn");
        reveal_strlit("bnext");
        reveal_strlit("buffer-next");
        reveal_strlit("bp");
        reveal_strlit("bprev");
        reveal_strlit("buffer-previous");
        reveal_strlit("b");
        reveal_strlit("buffer");
        assert("buffer"@[0] != "write!"@[0]);
        assert("buffer"@[1] != "bclose"@[1]);
    }
}

/// Whether `b` is another spelling of the command `a`: `:write`, `:w!`
/// and `:write!` for `:w`; `:quit`, `:bc` and `:bclose` for `:q`; the same
/// with `!` for `:q!`; `:x` for `:wq`; `:open` for `:e`; `:bnext` and
/// `:buffer-next` for `:bn`; `:bprev` and `:buffer-previous` for `:bp`;
/// `:buffer` for `:b`.
pub open spec fn spelled_alike(a: Seq<char>, b: Seq<char>) -> bool {
    ||| (a == "w"@ && b == "write"@)
    ||| (a == "w"@ && b == "w!"@)
    ||| (a == "w"@ && b == "write!"@)
    ||| (a == "q"@ && b == "quit"@)
    ||| (a == "q"@ && b == "bc"@)
    ||| (a == "q"@ && b == "bclose"@)
    ||| (a == "q!"@ && b == "quit!"@)
    ||| (a == "q!"@ && b == "bc!"@)
    ||| (a == "q!"@ && b == "bclose!"@)
    ||| (a == "wq"@ && b == "x"@)
    ||| (a == "e"@ && b == "open"@)
    ||| (a == "bn"@ && b == "bnext"@)
    ||| (a == "bn"@ && b == "buffer-next"@)
    ||| (a == "bp"@ && b == "bprev"@)
    ||| (a == "bp"@ && b == "buffer-previous"@)
    ||| (a == "b"@ && b == "buffer"@)
}

/// Two command lines that spell one command differently, with the same
/// argument, do the same: the same state after and the same effect.
pub proof fn lemma_command_spellings(
    s0: EditorState,
    a: Seq<char>,
    b: Seq<char>,
    modified: bool,
    names: Seq<(DocumentId, String)>,
    s1: EditorState,
    e: CommandEffect,
)
    requires
        spelled_alike(command_name(a), command_name(b)),
        command_arg(a) == command_arg(b),
    ensures
        command_kind(command_name(a)) == command_kind(command_name(b)),
        command_kind(command_name(a)) != CommandKind::Unknown,
        command_done(s0, a, modified, names, s1, e) <==> command_done(s0, b, modified, names, s1, e),
{
    lemma_command_kinds();
    let k = command_kind(command_name(a));
    assert(k == command_kind(command_name(b)));
    assert(k != CommandKind::Unknown);
}

/// `:wq` and `:x`, whatever follows them, write the current document and
/// then close it: the state is left as it is and the effect is a save to
/// the document's own path followed by a close.
pub proof fn lemma_write_quit(
    s0: EditorState,
    input: Seq<char>,
    modified: bool,
    names: Seq<(DocumentId, String)>,
    s1: EditorState,
    e: CommandEffect,
)
    requires
        command_name(input) == "wq"@ || command_name(input) == "x"@,
    ensures
        command_kind(command_name(input)) == CommandKind::WriteQuit,
        command_done(s0, input, modified, names, s1, e) <==> (s1 == s0 && e == CommandEffect::Save(None, true)),
{
    lemma_command_kinds();
}

/// The display name given for document `id` (see `display_in`).
fn display_of(names: &Vec<(DocumentId, String)>, id: DocumentId) -> (r: Vec<char>)
    ensures
        r@ == display_in(names@, id),
{
    let n = names.len();
    let mut i: usize = 0;
    assert(names@.subrange(0, n as int) =~= names@);
    while i < n
        invariant
            i <= n,
            n == names@.len(),
            display_in(names@, id) == display_in(names@.subrange(i as int, n as int), id),
        decreases n - i,
    {
        assert(names@.subrange(i as int, n as int)[0] == names@[i as int]);
        assert(names@.subrange(i as int, n as int).drop_first() =~= names@.subrange(i + 1, n as int));
        if names[i].0 == id {
            return chars_of(names[i].1.as_str());
        }
        i = i + 1;
    }
    Vec::new()
}

/// Whether `t` occurs in `s` at `i`.
fn occurs_at(s: &Vec<char>, t: &Vec<char>, i: usize) -> (r: bool)
    requires
        i + t@.len() <= s@.len(),
    ensures
        r == (s@.subrange(i as int, i + t@.len()) == t@),
{
    let n = s.len();
    let mut j: usize = 0;
    while j < t.len()
        invariant
            j <= t@.len(),
            n == s@.len(),
            i + t@.len() <= s@.len(),
            forall|k: int| 0 <= k < j ==> s@[i + k] == t@[k],
        decreases t.len() - j,
    {
        if s[i + j] != t[j] {
            assert(s@.subrange(i as int, i + t@.len())[j as int] != t@[j as int]);
            return false;
        }
        j = j + 1;
    }
    assert(s@.subrange(i as int, i + t@.len()) =~= t@);
    true
}

/// Whether `t` occurs in `s` (see `has_infix`).
fn contains_infix(s: &Vec<char>, t: &Vec<char>) -> (r: bool)
    ensures
        r == has_infix(s@, t@),
{
    if t.len() > s.len() {
        return false;
    }
    if t.len() == 0 {
        assert(s@.subrange(0, t@.len() as int) =~= t@);
        assert(s@.subrange(0, 0int + t@.len()) == t@);
        return true;
    }
    let n = s.len();
    let last = n - t.len();
    let mut i: usize = 0;
    while i < last + 1
        invariant
            n == s@.len(),
            last == s@.len() - t@.len(),
            0 < t@.len() <= s@.len(),
            i <= last + 1,
            forall|k: int| 0 <= k < i ==> #[trigger] s@.subrange(k, k + t@.len()) != t@,
        decreases last + 1 - i,
    {
        if occurs_at(s, t, i) {
            return true;
        }
        i = i + 1;
    }
    false
}

/// The first document whose display name holds `t` (see `first_named`).
fn find_named(names: &Vec<(DocumentId, String)>, t: &Vec<char>) -> (r: Option<DocumentId>)
    ensures
        r == first_named(names@, t@),
{
    let n = names.len();
    let mut i: usize = 0;
    assert(names@.subrange(0, n as int) =~= names@);
    while i < n
        invariant
            i <= n,
            n == names@.len(),
            first_named(names@, t@) == first_named(names@.subrange(i as int, n as int), t@),
        decreases n - i,
    {
        assert(names@.subrange(i as int, n as int)[0] == names@[i as int]);
        assert(names@.subrange(i as int, n as int).drop_first() =~= names@.subrange(i + 1, n as int));
        let v = chars_of(names[i].1.as_str());
        if contains_infix(&v, t) {
            return Some(names[i].0);
        }
        i = i + 1;
    }
    None
}

/// Reads a number as `usize::from_str` does (see `spec_parse_usize`).
fn parse_usize(s: &Vec<char>) -> (r: Option<usize>)
    ensures
        r matches Some(v) ==> spec_parse_usize(s@) == Some(v as int),
        r is None ==> spec_parse_usize(s@) is None,
{
    match parse_decimal(s, usize::MAX as u64) {
        Some(v) => Some(v as usize),
        None => None,
    }
}

/// The number `s` spells as `usize::from_str` reads it (see
/// `spec_parse_decimal`).
pub open spec fn spec_parse_usize(s: Seq<char>) -> Option<int> {
    spec_parse_decimal(s, usize::MAX as int)
}

/// The message after switching to document `id`.
fn switched_text(names: &Vec<(DocumentId, String)>, id: DocumentId) -> (r: String)
    ensures
        r@ == switched_message(names@, id),
{
    let mut v: Vec<char> = Vec::new();
    push_str(&mut v, "Switched to buffer ");
    push_all(&mut v, &decimal_chars(id.0 as u64));
    push_str(&mut v, ": ");
    push_all(&mut v, &display_of(names, id));
    string_from_chars(&v)
}

/// The text `a` followed by `b`.
fn joined(a: &str, b: &Vec<char>) -> (r: String)
    ensures
        r@ == a@ + b@,
{
    let mut v: Vec<char> = Vec::new();
    push_str(&mut v, a);
    push_all(&mut v, b);
    string_from_chars(&v)
}

/// Closes the current document and reports it (see `close_reported`).
fn close_current(
    state: &mut EditorState,
    force: bool,
    modified: bool,
    names: &Vec<(DocumentId, String)>,
) -> (e: CommandEffect)
    ensures
        close_reported(*old(state), *final(state), force, modified, names@, e),
{
    let ghost s0 = *state;
    let cur = state.current_document_id;
    let res = state.close_document(cur, force, modified);
    let ghost mid = *state;
    let e = match res {
        Ok(None) => CommandEffect::Done(KeyHandleResult::Quit),
        Ok(Some(_)) => {
            let id = state.current_document_id;
            let mut v: Vec<char> = Vec::new();
            push_str(&mut v, "Closed buffer. Now at ");
            push_all(&mut v, &decimal_chars(id.0 as u64));
            push_str(&mut v, ": ");
            push_all(&mut v, &display_of(names, id));
            let msg = string_from_chars(&v);
            state.set_status(msg.as_str());
            CommandEffect::Done(KeyHandleResult::DocumentChanged(id))
        },
        Err(err) => {
            let msg = if force {
                let t = err.to_string();
                joined("Error closing buffer: ", &chars_of(t.as_str()))
            } else if err == CloseError::Modified {
                "Buffer has unsaved changes (use :q! or force to close)".to_owned()
            } else {
                "Buffer does not exist".to_owned()
            };
            state.set_error(msg.as_str());
            CommandEffect::Done(KeyHandleResult::Stop)
        },
    };
    proof {
        assert(EditorState::closed(s0, mid, s0.current_document_id, force, modified, res));
    }
    e
}

/// The theme a name stands for (see `full_theme`).
fn theme_name(a: &Vec<char>) -> (r: String)
    ensures
        r@ == full_theme(a@),
{
    let p = chars_of("catppuccin-");
    let mut is_prefixed = p.len() <= a.len();
    let mut i: usize = 0;
    while is_prefixed && i < p.len()
        invariant
            i <= p@.len(),
            p@ == "catppuccin-"@,
            is_prefixed ==> p@.len() <= a@.len(),
            is_prefixed ==> forall|k: int| 0 <= k < i ==> a@[k] == p@[k],
            !is_prefixed ==> !(p@.len() <= a@.len() && a@.subrange(0, p@.len() as int) == p@),
        decreases p.len() - i + (if is_prefixed { 1int } else { 0int }),
    {
        if a[i] != p[i] {
            assert(a@.subrange(0, p@.len() as int)[i as int] != p@[i as int]);
            is_prefixed = false;
        } else {
            i = i + 1;
        }
    }
    if is_prefixed {
        assert(a@.subrange(0, p@.len() as int) =~= p@);
        string_from_chars(a)
    } else {
        joined("catppuccin-", a)
    }
}

/// Whether `cmd` is the command line `input` read.
pub open spec fn reads(cmd: ParsedCommand, input: Seq<char>) -> bool {
    &&& cmd.name@ == command_name(input)
    &&& opt_view(cmd.arg) == command_arg(input)
    &&& cmd.kind == command_kind(command_name(input))
}

/// `:q` and `:q!` and their aliases.
fn ex_close(
    state: &mut EditorState,
    input: &str,
    cmd: &ParsedCommand,
    modified: bool,
    names: &Vec<(DocumentId, String)>,
) -> (e: CommandEffect)
    requires
        reads(*cmd, input@),
        cmd.kind == CommandKind::Quit || cmd.kind == CommandKind::ForceQuit,
    ensures
        command_done(*old(state), input@, modified, names@, *final(state), e),
{
    close_current(state, cmd.kind == CommandKind::ForceQuit, modified, names)
}

/// `:bn` and `:bp` and their aliases.
fn ex_cycle(
    state: &mut EditorState,
    input: &str,
    cmd: &ParsedCommand,
    modified: bool,
    names: &Vec<(DocumentId, String)>,
) -> (e: CommandEffect)
    requires
        reads(*cmd, input@),
        cmd.kind == CommandKind::BufferNext || cmd.kind == CommandKind::BufferPrevious,
    ensures
        command_done(*old(state), input@, modified, names@, *final(state), e),
{
    let ghost s0 = *state;
    let next = cmd.kind == CommandKind::BufferNext;
    let id = if next {
        state.next_document()
    } else {
        state.prev_document()
    };
    let ghost mid = *state;
    let msg = switched_text(names, id);
    state.set_status(msg.as_str());
    proof {
        assert(id == mid.current_document_id);
        assert(shows(mid, *state, switched_message(names@, mid.current_document_id), DiagnosticSeverity::Info));
        if next {
            let target = crate::commands::spec::next_in(s0.documents@, s0.current_document_id);
            assert(crate::commands::spec::document_step(
                s0,
                mid,
                target,
                KeyHandleResult::DocumentChanged(mid.current_document_id),
            ));
            assert(cycled(s0, *state, names@, target, CommandEffect::Done(KeyHandleResult::DocumentChanged(id))));
        } else {
            let target = crate::commands::spec::prev_in(s0.documents@, s0.current_document_id);
            assert(crate::commands::spec::document_step(
                s0,
                mid,
                target,
                KeyHandleResult::DocumentChanged(mid.current_document_id),
            ));
            assert(cycled(s0, *state, names@, target, CommandEffect::Done(KeyHandleResult::DocumentChanged(id))));
        }
    }
    CommandEffect::Done(KeyHandleResult::DocumentChanged(id))
}

/// `:b` and `:buffer`.
fn ex_buffer(
    state: &mut EditorState,
    input: &str,
    cmd: &ParsedCommand,
    modified: bool,
    names: &Vec<(DocumentId, String)>,
) -> (e: CommandEffect)
    requires
        reads(*cmd, input@),
        cmd.kind == CommandKind::Buffer,
    ensures
        command_done(*old(state), input@, modified, names@, *final(state), e),
{
    let ghost s0 = *state;
    match &cmd.arg {
        Some(a) => {
            let av = chars_of(a.as_str());
            if let Some(num) = parse_usize(&av) {
                let id = DocumentId(num);
                if state.switch_document(id) {
                    let ghost mid = *state;
                    let msg = switched_text(names, id);
                    state.set_status(msg.as_str());
                    proof {
                        assert(switched_to(s0, mid, id));
                    }
                    return CommandEffect::Done(KeyHandleResult::DocumentChanged(id));
                }
            }
            match find_named(names, &av) {
                Some(id) => {
                    state.switch_document(id);
                    let ghost mid = *state;
                    let msg = switched_text(names, id);
                    state.set_status(msg.as_str());
                    proof {
                        if s0.documents@.contains(id) {
                            assert(switched_to(s0, mid, id));
                        }
                    }
                    CommandEffect::Done(KeyHandleResult::DocumentChanged(id))
                },
                None => {
                    let msg = joined("Buffer not found: ", &av);
                    state.set_error(msg.as_str());
                    CommandEffect::Done(KeyHandleResult::Stop)
                },
            }
        },
        None => {
            let mut v: Vec<char> = Vec::new();
            push_str(&mut v, "Buffer picker: ");
            push_all(&mut v, &decimal_chars(state.documents.len() as u64));
            push_str(&mut v, " open buffers");
            let msg = string_from_chars(&v);
            state.set_status(msg.as_str());
            CommandEffect::Done(KeyHandleResult::OpenBufferPicker)
        },
    }
}

/// The commands that leave files and themes to the caller, and errors.
fn ex_other(
    state: &mut EditorState,
    input: &str,
    cmd: ParsedCommand,
    modified: bool,
    names: &Vec<(DocumentId, String)>,
) -> (e: CommandEffect)
    requires
        reads(cmd, input@),
        cmd.kind != CommandKind::Quit && cmd.kind != CommandKind::ForceQuit && cmd.kind
            != CommandKind::BufferNext && cmd.kind != CommandKind::BufferPrevious && cmd.kind
            != CommandKind::Buffer,
    ensures
        command_done(*old(state), input@, modified, names@, *final(state), e),
{
    match cmd.kind {
        CommandKind::Empty => CommandEffect::Done(KeyHandleResult::Stop),
        CommandKind::Write => CommandEffect::Save(cmd.arg, false),
        CommandKind::WriteQuit => CommandEffect::Save(None, true),
        CommandKind::Open => match cmd.arg {
            Some(p) => CommandEffect::Open(p),
            None => {
                state.set_error("No path provided for :e / :open");
                CommandEffect::Done(KeyHandleResult::Stop)
            },
        },
        CommandKind::Pwd => {
            let root = chars_of(state.workspace.root());
            let msg = joined("Workspace root: ", &root);
            state.set_status(msg.as_str());
            CommandEffect::Done(KeyHandleResult::Stop)
        },
        CommandKind::Cd => match cmd.arg {
            Some(p) => CommandEffect::ChangeDirectory(p),
            None => {
                state.set_error("No path provided for :cd");
                CommandEffect::Done(KeyHandleResult::Stop)
            },
        },
        CommandKind::Theme => match cmd.arg {
            Some(a) => {
                let full = theme_name(&chars_of(a.as_str()));
                CommandEffect::ApplyTheme(full, a)
            },
            None => {
                state.set_error("No theme name provided (try mocha, latte, frappe, macchiato)");
                CommandEffect::Done(KeyHandleResult::Stop)
            },
        },
        _ => {
            let msg = joined("Unknown command: :", &chars_of(cmd.name.as_str()));
            state.set_error(msg.as_str());
            CommandEffect::Done(KeyHandleResult::Stop)
        },
    }
}

/// Runs the command line `input` (see `command_done`): `modified` tells
/// whether the current document has unsaved changes, `names` gives the
/// display name of each open document, in order.
pub fn execute_command(
    state: &mut EditorState,
    input: &str,
    modified: bool,
    names: &Vec<(DocumentId, String)>,
) -> (e: CommandEffect)
    ensures
        command_done(*old(state), input@, modified, names@, *final(state), e),
{
    let cmd = parse_command(input);
    match cmd.kind {
        CommandKind::Quit | CommandKind::ForceQuit => ex_close(state, input, &cmd, modified, names),
        CommandKind::BufferNext | CommandKind::BufferPrevious => ex_cycle(state, input, &cmd, modified, names),
        CommandKind::Buffer => ex_buffer(state, input, &cmd, modified, names),
        _ => ex_other(state, input, cmd, modified, names),
    }
}

/// Makes `root` (a canonical directory) the workspace root and reports it.
pub fn change_directory(state: &mut EditorState, root: &str)
    ensures
        final(state).workspace.spec_root() == root@,
        final(state).workspace.spec_name() == match std_path_file_name(root@) {
            Some(n) => n,
            None => "Strand"@,
        },
        shows(
            EditorState { workspace: final(state).workspace, ..*old(state) },
            *final(state),
            "Workspace root set to: "@ + root@,
            DiagnosticSeverity::Info,
        ),
{
    state.workspace = Workspace::new(root);
    let msg = joined("Workspace root set to: ", &chars_of(root));
    state.set_status(msg.as_str());
}

/// The message after saving the current document, shown as `display`:
/// written, or why not.
pub open spec fn save_message(outcome: Result<(), DocumentError>, display: Seq<char>) -> (Seq<char>, DiagnosticSeverity) {
    match outcome {
        Ok(()) => ("\""@ + display + "\" written"@, DiagnosticSeverity::Info),
        Err(DocumentError::NoPathSet) => ("Cannot save: no file name (use :w <path>)"@, DiagnosticSeverity::Error),
        Err(e) => ("Save failed: "@ + e.spec_text(), DiagnosticSeverity::Error),
    }
}

/// Reports how saving the current document (shown as `display`) ended;
/// then, for `:wq` (`then_close`), closes it as `:q` does, with
/// `modified` telling whether it still has unsaved changes.
pub fn finish_save(
    state: &mut EditorState,
    outcome: Result<(), DocumentError>,
    display: &str,
    then_close: bool,
    modified: bool,
    names: &Vec<(DocumentId, String)>,
) -> (e: CommandEffect)
    ensures
        ({
            let (msg, sev) = save_message(outcome, display@);
            if then_close {
                exists|mid: EditorState|
                    #[trigger] shows(*old(state), mid, msg, sev) && close_reported(mid, *final(state), false, modified, names@, e)
            } else {
                shows(*old(state), *final(state), msg, sev) && e == CommandEffect::Done(KeyHandleResult::Stop)
            }
        }),
{
    let mut v: Vec<char> = Vec::new();
    match &outcome {
        Ok(()) => {
            push_str(&mut v, "\"");
            push_str(&mut v, display);
            push_str(&mut v, "\" written");
            let msg = string_from_chars(&v);
            state.set_status(msg.as_str());
        },
        Err(DocumentError::NoPathSet) => {
            state.set_error("Cannot save: no file name (use :w <path>)");
        },
        Err(err) => {
            push_str(&mut v, "Save failed: ");
            let t = err.to_string();
            push_str(&mut v, t.as_str());
            let msg = string_from_chars(&v);
            state.set_error(msg.as_str());
        },
    }
    let ghost msg = save_message(outcome, display@).0;
    let ghost sev = save_message(outcome, display@).1;
    assert(shows(*old(state), *state, msg, sev)) by {
        match outcome {
            Ok(()) => assert(v@ =~= "\""@ + display@ + "\" written"@),
            Err(DocumentError::NoPathSet) => {},
            Err(err) => assert(v@ =~= "Save failed: "@ + err.spec_text()),
        }
    }
    let ghost mid = *state;
    if then_close {
        let e = close_current(state, false, modified, names);
        assert(shows(*old(state), mid, msg, sev) && close_reported(mid, *state, false, modified, names@, e));
        e
    } else {
        CommandEffect::Done(KeyHandleResult::Stop)
    }
}

/// The message after opening a file, shown as `display`: opened, or why
/// not.
pub open spec fn open_message(outcome: Result<DocumentId, DocumentError>, display: Seq<char>) -> (Seq<char>, DiagnosticSeverity) {
    match outcome {
        Ok(_) => ("Opened \""@ + display + "\""@, DiagnosticSeverity::Info),
        Err(e) => ("Open failed: "@ + e.spec_text(), DiagnosticSeverity::Error),
    }
}

/// Reports how opening a file (shown as `display`) ended: the opened
/// document becomes the view's, a failure is shown as an error.
pub fn finish_open_file(state: &mut EditorState, outcome: Result<DocumentId, DocumentError>, display: &str) -> (r: KeyHandleResult)
    ensures
        shows(*old(state), *final(state), open_message(outcome, display@).0, open_message(outcome, display@).1),
        r == match outcome {
            Ok(id) => KeyHandleResult::DocumentChanged(id),
            Err(_) => KeyHandleResult::Stop,
        },
{
    let mut v: Vec<char> = Vec::new();
    match outcome {
        Ok(id) => {
            push_str(&mut v, "Opened \"");
            push_str(&mut v, display);
            push_str(&mut v, "\"");
            let msg = string_from_chars(&v);
            state.set_status(msg.as_str());
            KeyHandleResult::DocumentChanged(id)
        },
        Err(err) => {
            push_str(&mut v, "Open failed: ");
            let t = err.to_string();
            push_str(&mut v, t.as_str());
            let msg = string_from_chars(&v);
            state.set_error(msg.as_str());
            KeyHandleResult::Stop
        },
    }
}

/// Reports whether the theme `full` (typed as `typed`) was applied.
pub fn finish_theme(state: &mut EditorState, applied: bool, full: &str, typed: &str) -> (r: KeyHandleResult)
    ensures
        if applied {
            shows(*old(state), *final(state), "Applied theme: "@ + full@, DiagnosticSeverity::Info)
        } else {
            shows(*old(state), *final(state), "Theme not found: "@ + typed@, DiagnosticSeverity::Error)
        },
        r == KeyHandleResult::Stop,
{
    let mut v: Vec<char> = Vec::new();
    if applied {
        push_str(&mut v, "Applied theme: ");
        push_str(&mut v, full);
        let msg = string_from_chars(&v);
        state.set_status(msg.as_str());
    } else {
        push_str(&mut v, "Theme not found: ");
        push_str(&mut v, typed);
        let msg = string_from_chars(&v);
        state.set_error(msg.as_str());
    }
    KeyHandleResult::Stop
}

} // verus!
