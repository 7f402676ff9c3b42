//! The workspace: the project directory the editor works in, and what
//! paths and version control files say about it. Paths are texts; the
//! caller canonicalises them (that reads the file system).

use vstd::prelude::*;
use crate::keymap::input::{spec_trim, trim_chars, copy_range};
use crate::text::unicode::{chars_of, string_from_chars, split_on, split_chars, views, lemma_split_on_nonempty};

verus! {

/// The last component of a path, as `Path::file_name` gives it.
pub uninterp spec fn std_path_file_name(p: Seq<char>) -> Option<Seq<char>>;

/// The rest of a path after a base path, as `Path::strip_prefix` gives it.
pub uninterp spec fn std_path_strip_prefix(p: Seq<char>, base: Seq<char>) -> Option<Seq<char>>;

/// Whether a path starts with a base path, component by component, as
/// `Path::starts_with` tells.
pub uninterp spec fn std_path_starts_with(p: Seq<char>, base: Seq<char>) -> bool;

/// The path without its last component, as `Path::parent` gives it.
pub uninterp spec fn std_path_parent(p: Seq<char>) -> Option<Seq<char>>;

/// Whether a path is relative, as `Path::is_relative` tells.
pub uninterp spec fn std_path_is_relative(p: Seq<char>) -> bool;

/// A path joined onto a base path, as `Path::join` gives it.
pub uninterp spec fn std_path_join(base: Seq<char>, p: Seq<char>) -> Seq<char>;

/// The ancestors of a path, the path itself first, as `Path::ancestors`
/// yields them.
pub uninterp spec fn std_path_ancestors(p: Seq<char>) -> Seq<Seq<char>>;

/// The view of an optional string.
pub open spec fn opt_string_view(s: Option<String>) -> Option<Seq<char>> {
    match s {
        Some(x) => Some(x@),
        None => None,
    }
}

/// `Path::file_name`, as text.
#[verifier::external_body]
pub(crate) fn path_file_name(p: &str) -> (r: Option<String>)
    ensures
        opt_string_view(r) == std_path_file_name(p@),
{
    std::path::Path::new(p).file_name().map(|n| n.to_string_lossy().to_string())
}

/// `Path::strip_prefix`, as text. Its documentation says it fails exactly
/// when the path does not start with the base (`Path::starts_with`).
#[verifier::external_body]
pub(crate) fn path_strip_prefix(p: &str, base: &str) -> (r: Option<String>)
    ensures
        opt_string_view(r) == std_path_strip_prefix(p@, base@),
        r is Some <==> std_path_starts_with(p@, base@),
{
    std::path::Path::new(p).strip_prefix(base).ok().map(|r| r.to_string_lossy().to_string())
}

/// `Path::starts_with`.
#[verifier::external_body]
fn path_starts_with(p: &str, base: &str) -> (r: bool)
    ensures
        r == std_path_starts_with(p@, base@),
{
    std::path::Path::new(p).starts_with(base)
}

/// `Path::parent`, as text.
#[verifier::external_body]
pub(crate) fn path_parent(p: &str) -> (r: Option<String>)
    ensures
        opt_string_view(r) == std_path_parent(p@),
{
    std::path::Path::new(p).parent().map(|d| d.to_string_lossy().to_string())
}

/// `Path::is_relative`.
#[verifier::external_body]
fn path_is_relative(p: &str) -> (r: bool)
    ensures
        r == std_path_is_relative(p@),
{
    std::path::Path::new(p).is_relative()
}

/// `Path::join`, as text.
#[verifier::external_body]
fn path_join(base: &str, p: &str) -> (r: String)
    ensures
        r@ == std_path_join(base@, p@),
{
    std::path::Path::new(base).join(p).to_string_lossy().to_string()
}

/// `Path::ancestors`, as texts. Its documentation says the path itself
/// comes first.
#[verifier::external_body]
pub(crate) fn ancestors(p: &str) -> (r: Vec<String>)
    ensures
        views_of(r@) == std_path_ancestors(p@),
        r@.len() >= 1,
        r@[0]@ == p@,
{
    std::path::Path::new(p).ancestors().map(|a| a.to_string_lossy().to_string()).collect()
}

/// The views of strings.
pub open spec fn views_of(v: Seq<String>) -> Seq<Seq<char>> {
    Seq::new(v.len(), |i: int| v[i]@)
}

/// The workspace root found among a directory's ancestors: the first one
/// marked (as holding `.git`, `.svn`, `.jj`, `.strand` or `.helix`),
/// with `false`; else the directory itself, with `true` (a fallback).
pub open spec fn spec_find_workspace(dir: Seq<char>, anc: Seq<Seq<char>>, marked: Seq<bool>) -> (Seq<char>, bool)
    decreases anc.len(),
{
    if anc.len() == 0 || marked.len() == 0 {
        (dir, true)
    } else if marked[0] {
        (anc[0], false)
    } else {
        spec_find_workspace(dir, anc.drop_first(), marked.drop_first())
    }
}

/// The workspace root for `dir` (canonical): the first of its ancestors
/// (itself first) that `marked` flags as holding a version control or
/// editor marker, and `false`; else `dir` and `true`.
pub fn find_workspace_in(dir: &str, marked: &Vec<bool>) -> (r: (String, bool))
    ensures
        (r.0@, r.1) == spec_find_workspace(dir@, std_path_ancestors(dir@), marked@),
{
    let anc = ancestors(dir);
    let ghost a = std_path_ancestors(dir@);
    let mut i: usize = 0;
    assert(a.subrange(0, a.len() as int) =~= a);
    assert(marked@.subrange(0, marked@.len() as int) =~= marked@);
    while i < anc.len() && i < marked.len()
        invariant
            i <= anc@.len(),
            i <= marked@.len(),
            views_of(anc@) == a,
            a == std_path_ancestors(dir@),
            spec_find_workspace(dir@, a, marked@) == spec_find_workspace(
                dir@,
                a.subrange(i as int, a.len() as int),
                marked@.subrange(i as int, marked@.len() as int),
            ),
        decreases anc.len() - i,
    {
        let ghost sa = a.subrange(i as int, a.len() as int);
        let ghost sm = marked@.subrange(i as int, marked@.len() as int);
        assert(sa[0] == anc@[i as int]@);
        assert(sm[0] == marked@[i as int]);
        if marked[i] {
            assert(spec_find_workspace(dir@, sa, sm) == (sa[0], false));
            return (anc[i].clone(), false);
        }
        assert(sa.drop_first() =~= a.subrange(i + 1, a.len() as int));
        assert(sm.drop_first() =~= marked@.subrange(i + 1, marked@.len() as int));
        i = i + 1;
    }
    (dir.to_owned(), true)
}

/// The directory a workspace is looked for from: a directory path
/// itself; another path's parent (`Path::parent`, the second of its
/// ancestors), unless it has none or an empty one; otherwise, and with no
/// path, the current directory `cwd`.
pub open spec fn spec_search_start(path: Option<Seq<char>>, path_is_dir: bool, cwd: Seq<char>) -> Seq<char> {
    match path {
        None => cwd,
        Some(p) => if path_is_dir {
            p
        } else {
            let a = std_path_ancestors(p);
            if a.len() > 1 && a[1].len() > 0 {
                a[1]
            } else {
                cwd
            }
        },
    }
}

/// The directory a workspace is looked for from (see `spec_search_start`);
/// `path_is_dir` tells whether the path names a directory.
pub fn search_start(path: Option<&str>, path_is_dir: bool, cwd: &str) -> (r: String)
    ensures
        r@ == spec_search_start(
            match path {
                Some(p) => Some(p@),
                None => None,
            },
            path_is_dir,
            cwd@,
        ),
{
    match path {
        None => cwd.to_owned(),
        Some(p) => {
            if path_is_dir {
                p.to_owned()
            } else {
                let a = ancestors(p);
                if a.len() > 1 && !a[1].as_str().is_empty() {
                    a[1].clone()
                } else {
                    cwd.to_owned()
                }
            }
        },
    }
}

/// A project workspace: its root directory and its name.
#[derive(Debug, Clone, PartialEq, Eq)]
pub struct Workspace {
    root: String,
    name: String,
}

impl Workspace {
    /// The root directory.
    pub closed spec fn spec_root(&self) -> Seq<char> {
        self.root@
    }

    /// The name.
    pub closed spec fn spec_name(&self) -> Seq<char> {
        self.name@
    }

    /// The workspace rooted at `root` (canonical), named after the root's
    /// last component, or `Strand` when it has none.
    pub fn new(root: &str) -> (r: Workspace)
        ensures
            r.spec_root() == root@,
            r.spec_name() == match std_path_file_name(root@) {
                Some(n) => n,
                None => "Strand"@,
            },
    {
        let name = match path_file_name(root) {
            Some(n) => n,
            None => "Strand".to_owned(),
        };
        Workspace { root: root.to_owned(), name }
    }

    /// The workspace found from the directory `start` (canonical; see
    /// `search_start`): rooted at the first of its ancestors that `marked`
    /// flags (see `find_workspace_in`), else at `start`.
    pub fn from_path_or_cwd(start: &str, marked: &Vec<bool>) -> (r: Workspace)
        ensures
            r.spec_root() == spec_find_workspace(start@, std_path_ancestors(start@), marked@).0,
            r.spec_name() == match std_path_file_name(r.spec_root()) {
                Some(n) => n,
                None => "Strand"@,
            },
    {
        let (root, _) = find_workspace_in(start, marked);
        Workspace::new(root.as_str())
    }

    /// The root directory.
    pub fn root(&self) -> (r: &str)
        ensures
            r@ == self.spec_root(),
    {
        self.root.as_str()
    }

    /// The name.
    pub fn name(&self) -> (r: &str)
        ensures
            r@ == self.spec_name(),
    {
        self.name.as_str()
    }

    /// Whether a (canonical) path lies within the workspace.
    pub fn contains_file(&self, path: &str) -> (r: bool)
        ensures
            r == std_path_starts_with(path@, self.spec_root()),
    {
        path_starts_with(path, self.root.as_str())
    }

    /// Where a path names a file: a relative path below the root, an
    /// absolute one as it is.
    pub fn resolve(&self, path: &str) -> (r: String)
        ensures
            r@ == if std_path_is_relative(path@) {
                std_path_join(self.spec_root(), path@)
            } else {
                path@
            },
    {
        if path_is_relative(path) {
            path_join(self.root.as_str(), path)
        } else {
            path.to_owned()
        }
    }

    /// A (canonical) path relative to the root; the path itself when it
    /// lies outside the workspace.
    pub fn relative_path(&self, path: &str) -> (r: String)
        ensures
            r@ == match std_path_strip_prefix(path@, self.spec_root()) {
                Some(rel) => rel,
                None => path@,
            },
    {
        match path_strip_prefix(path, self.root.as_str()) {
            Some(rel) => rel,
            None => path.to_owned(),
        }
    }
}

/// The number of bytes UTF-8 takes for a character.
pub open spec fn utf8_width(c: char) -> nat {
    if (c as u32) < 0x80 {
        1
    } else if (c as u32) < 0x800 {
        2
    } else if (c as u32) < 0x10000 {
        3
    } else {
        4
    }
}

/// The number of bytes UTF-8 takes for a text.
pub open spec fn utf8_len(s: Seq<char>) -> nat
    decreases s.len(),
{
    if s.len() == 0 {
        0
    } else {
        utf8_len(s.drop_last()) + utf8_width(s.last())
    }
}

/// Whether cutting a text after `n` bytes falls between characters.
pub open spec fn cuts_at_char(s: Seq<char>, n: nat) -> bool {
    exists|k: int| 0 <= k <= s.len() && #[trigger] utf8_len(s.subrange(0, k)) == n
}

/// The branch a `HEAD` file names: after `ref: refs/heads/` when it is a
/// symbolic reference, else the first seven bytes (an abbreviated commit)
/// when there are that many, else the whole text; surrounding whitespace
/// is dropped first.
pub open spec fn spec_branch_from_head(content: Seq<char>) -> Seq<char> {
    let t = spec_trim(content);
    let prefix = "ref: refs/heads/"@;
    if t.len() >= prefix.len() && t.subrange(0, prefix.len() as int) == prefix {
        t.subrange(prefix.len() as int, t.len() as int)
    } else if utf8_len(t) >= 7 {
        t.subrange(0, choose|k: int| 0 <= k <= t.len() && utf8_len(t.subrange(0, k)) == 7)
    } else {
        t
    }
}

/// Whether `a` starts with the characters of `b`.
fn starts_with_chars(a: &Vec<char>, b: &str) -> (r: bool)
    ensures
        r == (a@.len() >= b@.len() && a@.subrange(0, b@.len() as int) == b@),
{
    let w = chars_of(b);
    if a.len() < w.len() {
        return false;
    }
    let mut i: usize = 0;
    while i < w.len()
        invariant
            i <= w@.len(),
            w@.len() <= a@.len(),
            w@ == b@,
            forall|j: int| 0 <= j < i ==> a@[j] == w@[j],
        decreases w.len() - i,
    {
        if a[i] != w[i] {
            assert(a@.subrange(0, w@.len() as int)[i as int] != w@[i as int]);
            return false;
        }
        i = i + 1;
    }
    assert(a@.subrange(0, w@.len() as int) =~= w@);
    true
}

/// The UTF-8 width of a character.
fn char_width(c: char) -> (r: u32)
    ensures
        r == utf8_width(c),
{
    let v = c as u32;
    if v < 0x80 {
        1
    } else if v < 0x800 {
        2
    } else if v < 0x10000 {
        3
    } else {
        4
    }
}

/// The branch a `HEAD` file names (see `spec_branch_from_head`). The text
/// must not be cut inside a character after seven bytes.
pub fn branch_from_head(content: &str) -> (r: String)
    requires
        utf8_len(spec_trim(content@)) >= 7 ==> cuts_at_char(spec_trim(content@), 7),
    ensures
        r@ == spec_branch_from_head(content@),
{
    let all = chars_of(content);
    let t = trim_chars(&all);
    if starts_with_chars(&t, "ref: refs/heads/") {
        let n = chars_of("ref: refs/heads/").len();
        return string_from_chars(&copy_range(&t, n, t.len()));
    }
    let mut k: usize = 0;
    let mut bytes: u32 = 0;
    while k < t.len() && bytes < 7
        invariant
            k <= t@.len(),
            bytes as nat == utf8_len(t@.subrange(0, k as int)),
            bytes <= 10,
            k == 0 || utf8_len(t@.subrange(0, k - 1)) < 7,
        decreases t.len() - k,
    {
        let ghost sub = t@.subrange(0, k + 1);
        assert(sub.drop_last() =~= t@.subrange(0, k as int));
        bytes = bytes + char_width(t[k]);
        k = k + 1;
    }
    proof {
        lemma_utf8_len_prefix_mono(t@);
    }
    if bytes >= 7 {
        proof {
            lemma_utf8_len_total_ge(t@, k as int);
            assert(cuts_at_char(t@, 7));
            let c = choose|c: int| 0 <= c <= t@.len() && utf8_len(t@.subrange(0, c)) == 7;
            lemma_utf8_prefix_unique(t@, c, k as int);
        }
        string_from_chars(&copy_range(&t, 0, k))
    } else {
        assert(t@.subrange(0, k as int) =~= t@);
        string_from_chars(&t)
    }
}

/// Longer prefixes take more bytes.
proof fn lemma_utf8_len_prefix_mono(s: Seq<char>)
    ensures
        forall|a: int, b: int| 0 <= a < b <= s.len() ==> utf8_len(#[trigger] s.subrange(0, a)) < utf8_len(
            #[trigger] s.subrange(0, b),
        ),
{
    assert forall|a: int, b: int| 0 <= a < b <= s.len() implies utf8_len(#[trigger] s.subrange(0, a)) < utf8_len(
        #[trigger] s.subrange(0, b),
    ) by {
        lemma_utf8_len_step(s, a, b);
    }
}

/// Byte counts of prefixes grow strictly.
proof fn lemma_utf8_len_step(s: Seq<char>, a: int, b: int)
    requires
        0 <= a < b <= s.len(),
    ensures
        utf8_len(s.subrange(0, a)) < utf8_len(s.subrange(0, b)),
    decreases b - a,
{
    assert(s.subrange(0, b).drop_last() =~= s.subrange(0, b - 1));
    if a < b - 1 {
        lemma_utf8_len_step(s, a, b - 1);
    }
}

/// Only one prefix takes a given number of bytes.
proof fn lemma_utf8_prefix_unique(s: Seq<char>, c: int, k: int)
    requires
        0 <= c <= s.len(),
        0 <= k <= s.len(),
        utf8_len(s.subrange(0, c)) == 7,
        utf8_len(s.subrange(0, k)) >= 7,
        k == 0 || utf8_len(s.subrange(0, k - 1)) < 7,
    ensures
        c == k,
{
    lemma_utf8_len_prefix_mono(s);
    if c < k {
        if c < k - 1 {
            assert(utf8_len(s.subrange(0, c)) < utf8_len(s.subrange(0, k - 1)));
        }
    }
    if k < c {
        assert(utf8_len(s.subrange(0, k)) < utf8_len(s.subrange(0, c)));
    }
}

/// The whole text takes at least the bytes of a prefix.
proof fn lemma_utf8_len_total_ge(s: Seq<char>, k: int)
    requires
        0 <= k <= s.len(),
    ensures
        utf8_len(s) >= utf8_len(s.subrange(0, k)),
{
    assert(s.subrange(0, s.len() as int) =~= s);
    if k < s.len() {
        lemma_utf8_len_step(s, k, s.len() as int);
    }
}

/// The directory a `.git` file points to: the trimmed rest of its first
/// line that starts with `gitdir:`.
pub open spec fn spec_gitdir(content: Seq<char>) -> Option<Seq<char>> {
    first_gitdir(split_on(content, '\n'))
}

/// The trimmed rest of the first line starting with `gitdir:`.
pub open spec fn first_gitdir(lines: Seq<Seq<char>>) -> Option<Seq<char>>
    decreases lines.len(),
{
    if lines.len() == 0 {
        None
    } else if lines[0].len() >= 7 && lines[0].subrange(0, 7) == "gitdir:"@ {
        Some(spec_trim(lines[0].subrange(7, lines[0].len() as int)))
    } else {
        first_gitdir(lines.drop_first())
    }
}

/// The directory a `.git` file (of a worktree or submodule) points to.
pub fn gitdir_from_file(content: &str) -> (r: Option<String>)
    ensures
        opt_string_view(r) == spec_gitdir(content@),
{
    let v = chars_of(content);
    let lines = split_chars(&v, '\n');
    let ghost ls = split_on(content@, '\n');
    let mut i: usize = 0;
    assert(ls.subrange(0, ls.len() as int) =~= ls);
    while i < lines.len()
        invariant
            i <= lines@.len(),
            views(lines@) == ls,
            ls == split_on(content@, '\n'),
            first_gitdir(ls) == first_gitdir(ls.subrange(i as int, ls.len() as int)),
        decreases lines.len() - i,
    {
        let ghost rest = ls.subrange(i as int, ls.len() as int);
        assert(rest[0] == lines@[i as int]@);
        proof {
            reveal_strlit("gitdir:");
        }
        if starts_with_chars(&lines[i], "gitdir:") {
            let rel = copy_range(&lines[i], 7, lines[i].len());
            let t = trim_chars(&rel);
            assert(first_gitdir(rest) == Some(spec_trim(rest[0].subrange(7, rest[0].len() as int))));
            return Some(string_from_chars(&t));
        }
        assert(rest.drop_first() =~= ls.subrange(i + 1, ls.len() as int));
        i = i + 1;
    }
    None
}

} // verus!
