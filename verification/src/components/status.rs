//! The texts the status line shows: the mode pill, the pending keys, the
//! file, diagnostics, version control, the format and the cursor
//! position, and the reading of a go-to-line entry.

use vstd::prelude::*;
use crate::components::statusline::{
    DiagnosticItem, DiagnosticSeverity, IndentStyle, LineEnding, ModeConfig, VcsInfo,
};
use crate::editor::workspace::{path_file_name, std_path_file_name};
use crate::keymap::actions::Mode;
use crate::keymap::input::{spec_trim, trim_chars, copy_range};
use crate::text::buffer::{
    TextBuf, line_of, line_start, line_end, line_count, start_of_line, lemma_line_of_monotonic, lemma_line_end_bounds,
};
use crate::text::unicode::{
    spec_decimal, decimal_chars, push_str, push_all, string_from_chars, chars_of, spec_is_whitespace,
    is_whitespace, spec_parse_decimal, parse_decimal, unicode_is_alphabetic, is_alphabetic,
};

verus! {

/// The label of a mode.
pub open spec fn spec_mode_label(config: ModeConfig, mode: Mode) -> Seq<char> {
    match mode {
        Mode::Normal => config.normal@,
        Mode::Insert => config.insert@,
        Mode::Select => config.select@,
    }
}

/// The label of the mode pill.
pub fn mode_label(config: &ModeConfig, mode: Mode) -> (r: String)
    ensures
        r@ == spec_mode_label(*config, mode),
{
    match mode {
        Mode::Normal => config.normal.clone(),
        Mode::Insert => config.insert.clone(),
        Mode::Select => config.select.clone(),
    }
}

/// The style class of the mode pill: the mode's name.
pub fn mode_class(mode: Mode) -> (r: &'static str)
    ensures
        r@ == mode.spec_name(),
{
    mode.name()
}

/// The pieces of the pending-keys pill: the count, the keys pressed so far
/// and the register chosen (`reg="x`), those that are there.
pub open spec fn pending_parts(count: Option<usize>, chord: Seq<char>, register: Option<char>) -> Seq<Seq<char>> {
    (match count {
        Some(c) => seq![spec_decimal(c as nat)],
        None => Seq::empty(),
    }) + (if chord.len() > 0 {
        seq![chord]
    } else {
        Seq::empty()
    }) + (match register {
        Some(r) => seq!["reg=\""@ + seq![r]],
        None => Seq::empty(),
    })
}

/// Texts joined with `sep` between each two.
pub open spec fn spec_join(parts: Seq<Seq<char>>, sep: Seq<char>) -> Seq<char>
    decreases parts.len(),
{
    if parts.len() == 0 {
        Seq::empty()
    } else if parts.len() == 1 {
        parts[0]
    } else {
        spec_join(parts.drop_last(), sep) + sep + parts.last()
    }
}

/// Texts joined with single spaces.
pub open spec fn join_spaces(parts: Seq<Seq<char>>) -> Seq<char> {
    spec_join(parts, " "@)
}

/// The views of character vectors.
pub open spec fn char_views(v: Seq<Vec<char>>) -> Seq<Seq<char>> {
    Seq::new(v.len(), |i: int| v[i]@)
}

/// Joins `parts` with `sep` (see `spec_join`).
fn join(parts: &Vec<Vec<char>>, sep: &str) -> (r: Vec<char>)
    ensures
        r@ == spec_join(char_views(parts@), sep@),
{
    let mut v: Vec<char> = Vec::new();
    let mut i: usize = 0;
    while i < parts.len()
        invariant
            i <= parts@.len(),
            v@ == spec_join(char_views(parts@.subrange(0, i as int)), sep@),
        decreases parts.len() - i,
    {
        let ghost prev = char_views(parts@.subrange(0, i as int));
        if i > 0 {
            push_str(&mut v, sep);
        }
        push_all(&mut v, &parts[i]);
        proof {
            let cur = char_views(parts@.subrange(0, i + 1));
            assert(cur.drop_last() =~= prev);
            assert(cur.last() == parts@[i as int]@);
            if i == 0 {
                assert(v@ =~= cur[0]);
            }
        }
        i = i + 1;
    }
    assert(parts@.subrange(0, parts@.len() as int) =~= parts@);
    v
}

/// The pending-keys pill: hidden (`None`) when nothing is pending,
/// otherwise the pieces joined with spaces.
pub fn pending_text(count: Option<usize>, chord: &str, register: Option<char>) -> (r: Option<String>)
    ensures
        match r {
            None => pending_parts(count, chord@, register).len() == 0,
            Some(t) => pending_parts(count, chord@, register).len() > 0 && t@ == join_spaces(
                pending_parts(count, chord@, register),
            ),
        },
{
    let mut v: Vec<char> = Vec::new();
    let mut any = false;
    let ghost mut parts: Seq<Seq<char>> = Seq::empty();
    match count {
        Some(c) => {
            v = decimal_chars(c as u64);
            any = true;
            proof {
                parts = seq![spec_decimal(c as nat)];
            }
        },
        None => {},
    }
    assert(v@ == join_spaces(parts));
    if !chord.is_empty() {
        if any {
            push_str(&mut v, " ");
        }
        push_str(&mut v, chord);
        any = true;
        proof {
            let old_parts = parts;
            parts = parts.push(chord@);
            assert(parts.drop_last() =~= old_parts);
            if old_parts.len() == 0 {
                assert(v@ =~= chord@);
            }
        }
    }
    match register {
        Some(r) => {
            if any {
                push_str(&mut v, " ");
            }
            push_str(&mut v, "reg=\"");
            v.push(r);
            any = true;
            proof {
                let old_parts = parts;
                parts = parts.push("reg=\""@ + seq![r]);
                assert(parts.drop_last() =~= old_parts);
                if old_parts.len() == 0 {
                    assert(v@ =~= "reg=\""@ + seq![r]);
                } else {
                    assert(v@ =~= join_spaces(old_parts) + " "@ + ("reg=\""@ + seq![r]));
                }
            }
        },
        None => {},
    }
    proof {
        assert(parts =~= pending_parts(count, chord@, register));
        assert(any == (parts.len() > 0));
    }
    if any {
        Some(string_from_chars(&v))
    } else {
        None
    }
}

/// The file name shown: the last part of the path, or `[scratch]` for a
/// buffer without one.
pub open spec fn spec_file_display(path: Option<Seq<char>>) -> Seq<char> {
    match path {
        Some(p) => match std_path_file_name(p) {
            Some(n) => n,
            None => "[scratch]"@,
        },
        None => "[scratch]"@,
    }
}

/// The file name shown (see `spec_file_display`).
pub fn file_display(path: Option<&str>) -> (r: String)
    ensures
        r@ == spec_file_display(
            match path {
                Some(p) => Some(p@),
                None => None,
            },
        ),
{
    match path {
        Some(p) => match path_file_name(p) {
            Some(n) => n,
            None => "[scratch]".to_owned(),
        },
        None => "[scratch]".to_owned(),
    }
}

/// `[+]` for a modified buffer, else nothing.
pub fn modified_text(modified: bool) -> (r: &'static str)
    ensures
        r@ == if modified { "[+]"@ } else { ""@ },
{
    if modified { "[+]" } else { "" }
}

/// ` [readonly]` for a read-only buffer, else nothing.
pub fn readonly_text(readonly: bool) -> (r: &'static str)
    ensures
        r@ == if readonly { " [readonly]"@ } else { ""@ },
{
    if readonly { " [readonly]" } else { "" }
}

/// The style class of a message: `info` (also for hints), `warning` or
/// `error`.
pub open spec fn spec_severity_class(s: DiagnosticSeverity) -> Seq<char> {
    match s {
        DiagnosticSeverity::Info | DiagnosticSeverity::Hint => "info"@,
        DiagnosticSeverity::Warning => "warning"@,
        DiagnosticSeverity::Error => "error"@,
    }
}

/// The style class of a message (see `spec_severity_class`).
pub fn severity_class(s: DiagnosticSeverity) -> (r: &'static str)
    ensures
        r@ == spec_severity_class(s),
{
    match s {
        DiagnosticSeverity::Info | DiagnosticSeverity::Hint => "info",
        DiagnosticSeverity::Warning => "warning",
        DiagnosticSeverity::Error => "error",
    }
}

/// How many diagnostics there are of each kind; hints count as infos.
#[derive(Debug, Clone, Copy, PartialEq, Eq, Structural)]
pub struct DiagnosticCounts {
    pub errors: usize,
    pub warnings: usize,
    pub infos: usize,
}

/// Which kind a severity is counted as: 0 errors, 1 warnings, 2 infos.
pub open spec fn kind_of(s: DiagnosticSeverity) -> int {
    match s {
        DiagnosticSeverity::Error => 0,
        DiagnosticSeverity::Warning => 1,
        _ => 2,
    }
}

/// How many of `ds` are counted as `kind`.
pub open spec fn count_kind(ds: Seq<DiagnosticItem>, kind: int) -> nat
    decreases ds.len(),
{
    if ds.len() == 0 {
        0
    } else {
        count_kind(ds.drop_last(), kind) + if kind_of(ds.last().severity) == kind { 1nat } else { 0nat }
    }
}

/// At most one per diagnostic is counted.
proof fn lemma_count_kind_bound(ds: Seq<DiagnosticItem>, kind: int)
    ensures
        count_kind(ds, kind) <= ds.len(),
    decreases ds.len(),
{
    if ds.len() > 0 {
        lemma_count_kind_bound(ds.drop_last(), kind);
    }
}

/// Counts the diagnostics of each kind.
pub fn count_diagnostics(ds: &Vec<DiagnosticItem>) -> (r: DiagnosticCounts)
    ensures
        r.errors == count_kind(ds@, 0),
        r.warnings == count_kind(ds@, 1),
        r.infos == count_kind(ds@, 2),
{
    let mut c = DiagnosticCounts { errors: 0, warnings: 0, infos: 0 };
    let mut i: usize = 0;
    while i < ds.len()
        invariant
            i <= ds@.len(),
            c.errors == count_kind(ds@.subrange(0, i as int), 0),
            c.warnings == count_kind(ds@.subrange(0, i as int), 1),
            c.infos == count_kind(ds@.subrange(0, i as int), 2),
        decreases ds.len() - i,
    {
        let ghost sub = ds@.subrange(0, i + 1);
        assert(sub.drop_last() =~= ds@.subrange(0, i as int));
        proof {
            lemma_count_kind_bound(ds@.subrange(0, i as int), 0);
            lemma_count_kind_bound(ds@.subrange(0, i as int), 1);
            lemma_count_kind_bound(ds@.subrange(0, i as int), 2);
        }
        match ds[i].severity {
            DiagnosticSeverity::Error => c.errors = c.errors + 1,
            DiagnosticSeverity::Warning => c.warnings = c.warnings + 1,
            _ => c.infos = c.infos + 1,
        }
        i = i + 1;
    }
    assert(ds@.subrange(0, ds@.len() as int) =~= ds@);
    c
}

/// The style class of the health dot: `error` with errors, else `warning`
/// with warnings, else `ok`.
pub fn health_class(c: DiagnosticCounts) -> (r: &'static str)
    ensures
        r@ == if c.errors > 0 {
            "error"@
        } else if c.warnings > 0 {
            "warning"@
        } else {
            "ok"@
        },
{
    if c.errors > 0 {
        "error"
    } else if c.warnings > 0 {
        "warning"
    } else {
        "ok"
    }
}

/// `n` followed by `word`, with an `s` unless `n` is one.
pub open spec fn counted(n: nat, word: Seq<char>) -> Seq<char> {
    spec_decimal(n) + " "@ + word + if n == 1 { Seq::empty() } else { "s"@ }
}

/// The parts of the diagnostics popover's title: errors, warnings and
/// infos, those there are.
pub open spec fn title_parts(c: DiagnosticCounts) -> Seq<Seq<char>> {
    (if c.errors > 0 { seq![counted(c.errors as nat, "error"@)] } else { Seq::empty() }) + (if c.warnings
        > 0 {
        seq![counted(c.warnings as nat, "warning"@)]
    } else {
        Seq::empty()
    }) + (if c.infos > 0 { seq![spec_decimal(c.infos as nat) + " info"@] } else { Seq::empty() })
}

/// Texts joined with `, `.
pub open spec fn join_commas(parts: Seq<Seq<char>>) -> Seq<char> {
    spec_join(parts, ", "@)
}

/// `n` followed by `word`, with an `s` unless `n` is one (see `counted`).
fn counted_text(n: usize, word: &str) -> (r: Vec<char>)
    ensures
        r@ == counted(n as nat, word@),
{
    let mut v = decimal_chars(n as u64);
    push_str(&mut v, " ");
    push_str(&mut v, word);
    if n != 1 {
        push_str(&mut v, "s");
    }
    v
}

/// The title of the diagnostics popover: `Diagnostics (0)` with none,
/// else the counts, such as `Diagnostics (2 errors, 1 warning)`.
pub fn diagnostics_title(ds: &Vec<DiagnosticItem>) -> (r: String)
    ensures
        ds@.len() == 0 ==> r@ == "Diagnostics (0)"@,
        ds@.len() > 0 ==> {
            let c = DiagnosticCounts {
                errors: count_kind(ds@, 0) as usize,
                warnings: count_kind(ds@, 1) as usize,
                infos: count_kind(ds@, 2) as usize,
            };
            r@ == "Diagnostics ("@ + join_commas(title_parts(c)) + ")"@
        },
{
    if ds.len() == 0 {
        return "Diagnostics (0)".to_owned();
    }
    let c = count_diagnostics(ds);
    let mut parts: Vec<Vec<char>> = Vec::new();
    if c.errors > 0 {
        parts.push(counted_text(c.errors, "error"));
    }
    if c.warnings > 0 {
        parts.push(counted_text(c.warnings, "warning"));
    }
    if c.infos > 0 {
        let mut p = decimal_chars(c.infos as u64);
        push_str(&mut p, " info");
        parts.push(p);
    }
    proof {
        assert(char_views(parts@) =~= title_parts(c));
    }
    let mut v: Vec<char> = Vec::new();
    push_str(&mut v, "Diagnostics (");
    push_all(&mut v, &join(&parts, ", "));
    push_str(&mut v, ")");
    string_from_chars(&v)
}

/// The icon of a diagnostic's severity.
pub fn diagnostic_icon(s: DiagnosticSeverity) -> (r: &'static str)
    ensures
        r@ == match s {
            DiagnosticSeverity::Error => "dialog-error-symbolic"@,
            DiagnosticSeverity::Warning => "dialog-warning-symbolic"@,
            _ => "dialog-information-symbolic"@,
        },
{
    match s {
        DiagnosticSeverity::Error => "dialog-error-symbolic",
        DiagnosticSeverity::Warning => "dialog-warning-symbolic",
        _ => "dialog-information-symbolic",
    }
}

/// The style class of a diagnostic's icon.
pub fn diagnostic_icon_class(s: DiagnosticSeverity) -> (r: &'static str)
    ensures
        r@ == match s {
            DiagnosticSeverity::Error => "diag-error-label"@,
            DiagnosticSeverity::Warning => "diag-warning-label"@,
            _ => "dim-label"@,
        },
{
    match s {
        DiagnosticSeverity::Error => "diag-error-label",
        DiagnosticSeverity::Warning => "diag-warning-label",
        _ => "dim-label",
    }
}

/// Where a diagnostic is, `line:col`.
pub fn diagnostic_coords(d: &DiagnosticItem) -> (r: String)
    ensures
        r@ == spec_decimal(d.line as nat) + ":"@ + spec_decimal(d.col as nat),
{
    let mut v = decimal_chars(d.line as u64);
    push_str(&mut v, ":");
    push_all(&mut v, &decimal_chars(d.col as u64));
    string_from_chars(&v)
}

/// The version control label: the branch (`main` when unknown), and when
/// lines changed, `+added ~modified`.
pub open spec fn spec_vcs_label(vcs: VcsInfo) -> Seq<char> {
    let branch = match vcs.branch {
        Some(b) => b@,
        None => "main"@,
    };
    if vcs.added > 0 || vcs.modified > 0 || vcs.deleted > 0 {
        branch + " +"@ + spec_decimal(vcs.added as nat) + " ~"@ + spec_decimal(vcs.modified as nat)
    } else {
        branch
    }
}

/// The version control label (see `spec_vcs_label`).
pub fn vcs_label(vcs: &VcsInfo) -> (r: String)
    ensures
        r@ == spec_vcs_label(*vcs),
{
    let mut v: Vec<char> = match &vcs.branch {
        Some(b) => chars_of(b.as_str()),
        None => chars_of("main"),
    };
    if vcs.added > 0 || vcs.modified > 0 || vcs.deleted > 0 {
        push_str(&mut v, " +");
        push_all(&mut v, &decimal_chars(vcs.added as u64));
        push_str(&mut v, " ~");
        push_all(&mut v, &decimal_chars(vcs.modified as u64));
    }
    string_from_chars(&v)
}

/// The branch line of the version control popover: `Branch: ` and the
/// branch, `main` when unknown.
pub fn vcs_branch_text(vcs: &VcsInfo) -> (r: String)
    ensures
        r@ == "Branch: "@ + match vcs.branch {
            Some(b) => b@,
            None => "main"@,
        },
{
    let mut v: Vec<char> = chars_of("Branch: ");
    match &vcs.branch {
        Some(b) => push_str(&mut v, b.as_str()),
        None => push_str(&mut v, "main"),
    }
    string_from_chars(&v)
}

/// The changes line of the version control popover: `Working tree clean`
/// with no change, else the counts of additions, modifications and
/// deletions.
pub fn vcs_diff_text(vcs: &VcsInfo) -> (r: String)
    ensures
        r@ == if vcs.added == 0 && vcs.modified == 0 && vcs.deleted == 0 {
            "Working tree clean"@
        } else {
            "+"@ + spec_decimal(vcs.added as nat) + " additions, ~"@ + spec_decimal(vcs.modified as nat)
                + " modifications, -"@ + spec_decimal(vcs.deleted as nat) + " deletions"@
        },
{
    if vcs.added == 0 && vcs.modified == 0 && vcs.deleted == 0 {
        return "Working tree clean".to_owned();
    }
    let mut v: Vec<char> = chars_of("+");
    push_all(&mut v, &decimal_chars(vcs.added as u64));
    push_str(&mut v, " additions, ~");
    push_all(&mut v, &decimal_chars(vcs.modified as u64));
    push_str(&mut v, " modifications, -");
    push_all(&mut v, &decimal_chars(vcs.deleted as u64));
    push_str(&mut v, " deletions");
    string_from_chars(&v)
}

/// The title of the mode popover.
pub fn mode_title(mode: Mode) -> (r: &'static str)
    ensures
        r@ == match mode {
            Mode::Normal => "NORMAL Mode"@,
            Mode::Insert => "INSERT Mode"@,
            Mode::Select => "SELECT Mode"@,
        },
{
    match mode {
        Mode::Normal => "NORMAL Mode",
        Mode::Insert => "INSERT Mode",
        Mode::Select => "SELECT Mode",
    }
}

/// What the mode popover says of a mode.
pub fn mode_description(mode: Mode) -> (r: &'static str)
    ensures
        r@ == match mode {
            Mode::Normal => "Object-first movement, motions, and selection commands."@,
            Mode::Insert => "Direct text insertion. Press Esc to return to Normal mode."@,
            Mode::Select => "Selection extension mode. Motions extend the active range."@,
        },
{
    match mode {
        Mode::Normal => "Object-first movement, motions, and selection commands.",
        Mode::Insert => "Direct text insertion. Press Esc to return to Normal mode.",
        Mode::Select => "Selection extension mode. Motions extend the active range.",
    }
}

/// The format pill: encoding, line endings and indentation, separated by
/// ` · `.
pub fn format_label(encoding: &str, line_ending: LineEnding, indent: IndentStyle) -> (r: String)
    ensures
        r@ == encoding@ + " · "@ + line_ending.spec_text() + " · "@ + indent.spec_text(),
{
    let mut v = chars_of(encoding);
    push_str(&mut v, " · ");
    let le = line_ending.to_string();
    push_str(&mut v, le.as_str());
    push_str(&mut v, " · ");
    let ind = indent.to_string();
    push_str(&mut v, ind.as_str());
    string_from_chars(&v)
}

/// The position readout: `Ln <line>, Col <col> (<percent>%)`, counting
/// from one, the percentage being how far the line is into the buffer.
pub open spec fn spec_position_text(b: TextBuf) -> Seq<char> {
    let t = b.t();
    let line = line_of(t, b.head as int) + 1;
    let col = b.head - line_start(t, b.head as int) + 1;
    let pct = line * 100 / line_count(t);
    "Ln "@ + spec_decimal(line as nat) + ", Col "@ + spec_decimal(col as nat) + " ("@ + spec_decimal(pct as nat)
        + "%)"@
}

/// The position readout (see `spec_position_text`).
pub fn position_text(b: &TextBuf) -> (r: String)
    requires
        b.wf(),
    ensures
        r@ == spec_position_text(*b),
{
    proof {
        lemma_line_of_monotonic(b.t(), 0, b.head as int);
    }
    let line = b.line_at(b.head) + 1;
    let col = b.head - b.line_start_at(b.head) + 1;
    let total = b.line_count();
    proof {
        lemma_line_of_monotonic(b.t(), b.head as int, b.n());
    }
    let wide = (line as u128) * 100 / (total as u128);
    assert(wide <= 100) by (nonlinear_arith)
        requires
            wide == (line as int) * 100 / (total as int),
            1 <= line <= total,
    ;
    let pct = wide as u64;
    let mut v: Vec<char> = Vec::new();
    push_str(&mut v, "Ln ");
    push_all(&mut v, &decimal_chars(line as u64));
    push_str(&mut v, ", Col ");
    push_all(&mut v, &decimal_chars(col as u64));
    push_str(&mut v, " (");
    push_all(&mut v, &decimal_chars(pct));
    push_str(&mut v, "%)");
    string_from_chars(&v)
}

/// The selection readout: `1 sel`, with the number of characters selected
/// when there is a selection, such as `1 sel (5 chars)`.
pub open spec fn spec_selections_text(b: TextBuf) -> Seq<char> {
    if b.anchor == b.head {
        "1 sel"@
    } else {
        let n = if b.anchor < b.head { b.head - b.anchor } else { b.anchor - b.head };
        "1 sel ("@ + spec_decimal(n as nat) + " char"@ + (if n == 1 { Seq::empty() } else { "s"@ }) + ")"@
    }
}

/// The selection readout (see `spec_selections_text`).
pub fn selections_text(b: &TextBuf) -> (r: String)
    ensures
        r@ == spec_selections_text(*b),
{
    if b.anchor == b.head {
        return "1 sel".to_owned();
    }
    let n = if b.anchor < b.head { b.head - b.anchor } else { b.anchor - b.head };
    let mut v: Vec<char> = Vec::new();
    push_str(&mut v, "1 sel (");
    push_all(&mut v, &decimal_chars(n as u64));
    push_str(&mut v, " char");
    if n != 1 {
        push_str(&mut v, "s");
    }
    push_str(&mut v, ")");
    string_from_chars(&v)
}


/// `s` without the letters and whitespace it starts with.
pub open spec fn skip_label(s: Seq<char>) -> Seq<char>
    decreases s.len(),
{
    if s.len() > 0 && (unicode_is_alphabetic(s[0]) || spec_is_whitespace(s[0])) {
        skip_label(s.drop_first())
    } else {
        s
    }
}

/// The position of the first `c` in `s`.
pub open spec fn first_index(s: Seq<char>, c: char) -> Option<int>
    decreases s.len(),
{
    if s.len() == 0 {
        None
    } else if s[0] == c {
        Some(0)
    } else {
        match first_index(s.drop_first(), c) {
            Some(i) => Some(i + 1),
            None => None,
        }
    }
}

/// `s` split at its first `:`, else at its first `,`, else not at all.
pub open spec fn split_goto(s: Seq<char>) -> (Seq<char>, Option<Seq<char>>) {
    match first_index(s, ':') {
        Some(i) => (s.subrange(0, i), Some(s.subrange(i + 1, s.len() as int))),
        None => match first_index(s, ',') {
            Some(i) => (s.subrange(0, i), Some(s.subrange(i + 1, s.len() as int))),
            None => (s, None),
        },
    }
}

/// `v`, or one when it is zero.
pub open spec fn at_least_one(v: int) -> int {
    if v < 1 { 1 } else { v }
}

/// A number as `u32::from_str` reads it, after trimming.
pub open spec fn spec_u32_of(s: Seq<char>) -> Option<int> {
    spec_parse_decimal(spec_trim(s), u32::MAX as int)
}

/// What a go-to entry asks for: `line`, `line:col`, `line, col` or
/// `:col` (on line 1), possibly after a word such as `line`; numbers are
/// at least one; a column that does not read is dropped, a line that does
/// not read gives nothing.
pub open spec fn spec_parse_goto(input: Seq<char>) -> Option<(u32, Option<u32>)> {
    let t = spec_trim(input);
    if t.len() == 0 {
        None
    } else if t[0] == ':' {
        match spec_u32_of(t.drop_first()) {
            Some(c) => Some((1u32, Some(at_least_one(c) as u32))),
            None => None,
        }
    } else {
        let cleaned = skip_label(t);
        if cleaned.len() == 0 {
            None
        } else {
            let (l, c) = split_goto(cleaned);
            match spec_u32_of(l) {
                None => None,
                Some(line) => Some(
                    (
                        at_least_one(line) as u32,
                        match c {
                            Some(cs) => match spec_u32_of(cs) {
                                Some(v) => Some(at_least_one(v) as u32),
                                None => None,
                            },
                            None => None,
                        },
                    ),
                ),
            }
        }
    }
}

/// The position of the first `c` in `v` (see `first_index`).
fn find_first(v: &Vec<char>, c: char) -> (r: Option<usize>)
    ensures
        match r {
            Some(i) => first_index(v@, c) == Some(i as int) && i < v@.len(),
            None => first_index(v@, c) is None,
        },
{
    let n = v.len();
    let mut i: usize = 0;
    assert(v@.subrange(0, n as int) =~= v@);
    while i < n
        invariant
            i <= n,
            n == v@.len(),
            forall|k: int| 0 <= k < i ==> v@[k] != c,
            first_index(v@, c) == match first_index(v@.subrange(i as int, n as int), c) {
                Some(j) => Some(j + i),
                None => None,
            },
        decreases n - i,
    {
        assert(v@.subrange(i as int, n as int)[0] == v@[i as int]);
        assert(v@.subrange(i as int, n as int).drop_first() =~= v@.subrange(i + 1, n as int));
        if v[i] == c {
            return Some(i);
        }
        i = i + 1;
    }
    None
}

/// A number as `u32::from_str` reads it, after trimming.
fn u32_of(v: &Vec<char>) -> (r: Option<u32>)
    ensures
        match r {
            Some(x) => spec_u32_of(v@) == Some(x as int),
            None => spec_u32_of(v@) is None,
        },
{
    let t = trim_chars(v);
    match parse_decimal(&t, u32::MAX as u64) {
        Some(x) => Some(x as u32),
        None => None,
    }
}

/// Reads a go-to entry (see `spec_parse_goto`).
pub fn parse_goto_input(input: &str) -> (r: Option<(u32, Option<u32>)>)
    ensures
        r == spec_parse_goto(input@),
{
    let v = chars_of(input);
    let t = trim_chars(&v);
    if t.len() == 0 {
        return None;
    }
    if t[0] == ':' {
        let rest = copy_range(&t, 1, t.len());
        assert(rest@ =~= t@.drop_first());
        return match u32_of(&rest) {
            Some(c) => Some((1, Some(if c < 1 { 1 } else { c }))),
            None => None,
        };
    }
    let n = t.len();
    let mut i: usize = 0;
    assert(t@.subrange(0, n as int) =~= t@);
    while i < n && (is_alphabetic(t[i]) || is_whitespace(t[i]))
        invariant
            i <= n,
            n == t@.len(),
            skip_label(t@) == skip_label(t@.subrange(i as int, n as int)),
        decreases n - i,
    {
        assert(t@.subrange(i as int, n as int).drop_first() =~= t@.subrange(i + 1, n as int));
        i = i + 1;
    }
    let cleaned = copy_range(&t, i, n);
    if cleaned.len() == 0 {
        return None;
    }
    let m = cleaned.len();
    let (l, c) = match find_first(&cleaned, ':') {
        Some(k) => (copy_range(&cleaned, 0, k), Some(copy_range(&cleaned, k + 1, m))),
        None => match find_first(&cleaned, ',') {
            Some(k) => (copy_range(&cleaned, 0, k), Some(copy_range(&cleaned, k + 1, m))),
            None => (copy_range(&cleaned, 0, m), None),
        },
    };
    assert(cleaned@.subrange(0, m as int) =~= cleaned@);
    match u32_of(&l) {
        None => None,
        Some(line) => {
            let col = match c {
                Some(cs) => match u32_of(&cs) {
                    Some(x) => Some(if x < 1 { 1 } else { x }),
                    None => None,
                },
                None => None,
            };
            Some((if line < 1 { 1 } else { line }, col))
        },
    }
}

/// Where a jump to `line` (counted from 1) and, when given, column `col`
/// (counted from 1) puts the cursor: the line clamped to the last one;
/// the column clamped to the line's characters, its line break included
/// (the last of them, or the line's start on an empty last line).
pub open spec fn goto_target(t: Seq<char>, line: u32, col: Option<u32>) -> int {
    let want = if line >= 1 { line - 1 } else { 0 };
    let l = if want < line_count(t) - 1 { want } else { line_count(t) - 1 };
    let s = start_of_line(t, l);
    match col {
        None => s,
        Some(c) => {
            let e = line_end(t, s);
            let chars_in_line = e - s + if e < t.len() { 1int } else { 0int };
            let last = if chars_in_line >= 1 { chars_in_line - 1 } else { 0 };
            let want_col = if c >= 1 { c - 1 } else { 0 };
            s + if want_col < last { want_col } else { last }
        },
    }
}

/// Moves the cursor, with no selection, to `line` and `col` as entered in
/// the go-to-line field (see `goto_target`).
pub fn goto_line_column(buffer: &mut TextBuf, line: u32, col: Option<u32>)
    requires
        old(buffer).wf(),
    ensures
        final(buffer).wf(),
        final(buffer).text@ == old(buffer).text@,
        final(buffer).undo_stack@ == old(buffer).undo_stack@,
        final(buffer).redo_stack@ == old(buffer).redo_stack@,
        final(buffer).anchor == goto_target(old(buffer).text@, line, col),
        final(buffer).head == goto_target(old(buffer).text@, line, col),
{
    let ghost t = buffer.text@;
    let total = buffer.line_count();
    let want: usize = if line >= 1 { (line - 1) as usize } else { 0 };
    let l = if want < total - 1 { want } else { total - 1 };
    let s = buffer.line_start_of(l);
    let target = match col {
        None => s,
        Some(c) => {
            let e = buffer.line_end_at(s);
            proof {
                lemma_line_end_bounds(t, s as int);
            }
            let chars_in_line = e - s + if e < buffer.text.len() { 1usize } else { 0usize };
            let last = if chars_in_line >= 1 { chars_in_line - 1 } else { 0 };
            let want_col: usize = if c >= 1 { (c - 1) as usize } else { 0 };
            s + if want_col < last { want_col } else { last }
        },
    };
    buffer.place_cursor(target);
}

} // verus!
