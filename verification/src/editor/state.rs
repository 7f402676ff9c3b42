//! The editor's state: mode, registers, keymap, what the next key is for,
//! the which-key overlay, the status message, and the list of open
//! documents with their order of use.

use vstd::prelude::*;
use crate::components::statusline::DiagnosticSeverity;
use crate::components::which_key::WhichKeyData;
use crate::editor::document::DocumentId;
use crate::editor::register::Registers;
use crate::editor::workspace::Workspace;
use crate::keymap::actions::Mode;
use crate::keymap::trie::{KeyTrieRoot, ModeMap};

verus! {

/// Why a document could not be closed.
#[derive(Debug, Clone, PartialEq, Eq, Structural)]
pub enum CloseError {
    DoesNotExist,
    Modified,
}

impl CloseError {
    /// The message for the error.
    pub open spec fn spec_text(self) -> Seq<char> {
        match self {
            CloseError::DoesNotExist => "document does not exist"@,
            CloseError::Modified => "buffer has unsaved changes (use :q! or force to close)"@,
        }
    }

    /// The message for the error.
    pub fn to_string(&self) -> (r: String)
        ensures
            r@ == self.spec_text(),
    {
        match self {
            CloseError::DoesNotExist => "document does not exist".to_owned(),
            CloseError::Modified => "buffer has unsaved changes (use :q! or force to close)".to_owned(),
        }
    }
}

/// What the next key press is taken as, rather than as a command.
#[derive(Debug, Clone, Copy, PartialEq, Eq, Structural)]
pub enum NextKey {
    /// The name of the register the next command uses.
    SelectRegister,
    /// The character to surround the selection with.
    SurroundAdd,
    /// The pair to delete around the selection.
    SurroundDelete,
    /// The pair to replace around the selection.
    SurroundReplaceFrom,
    /// The pair to put in place of the given one.
    SurroundReplaceTo(char),
    /// The text object to select, with its delimiters.
    TextObjectAround,
    /// The text object to select, inside its delimiters.
    TextObjectInner,
    /// The character to put in place of those selected.
    ReplaceChar,
}

/// The largest count a command can be given.
pub const MAX_COUNT: usize = 100_000_000;

/// The sequence without any occurrence of `x`.
pub open spec fn without(s: Seq<DocumentId>, x: DocumentId) -> Seq<DocumentId>
    decreases s.len(),
{
    if s.len() == 0 {
        s
    } else if s.last() == x {
        without(s.drop_last(), x)
    } else {
        without(s.drop_last(), x).push(s.last())
    }
}

/// A non-empty sequence holds `y` when its front part does or its last
/// element is `y`.
proof fn lemma_contains_last(s: Seq<DocumentId>, y: DocumentId)
    requires
        s.len() > 0,
    ensures
        s.contains(y) <==> (s.drop_last().contains(y) || s.last() == y),
{
    if s.contains(y) {
        let i = choose|i: int| 0 <= i < s.len() && s[i] == y;
        if i < s.len() - 1 {
            assert(s.drop_last()[i] == y);
        }
    }
    if s.drop_last().contains(y) {
        let j = choose|j: int| 0 <= j < s.drop_last().len() && s.drop_last()[j] == y;
        assert(s[j] == y);
    }
    if s.last() == y {
        assert(s[s.len() - 1] == y);
    }
}

/// Removing leaves no occurrence and keeps the others.
pub proof fn lemma_without(s: Seq<DocumentId>, x: DocumentId)
    ensures
        !without(s, x).contains(x),
        forall|y: DocumentId| y != x ==> (without(s, x).contains(y) <==> s.contains(y)),
        without(s, x).len() <= s.len(),
    decreases s.len(),
{
    if s.len() > 0 {
        lemma_without(s.drop_last(), x);
        let w = without(s.drop_last(), x);
        if s.last() != x {
            assert(without(s, x) == w.push(s.last()));
            assert(w.push(s.last()).drop_last() =~= w);
            assert forall|y: DocumentId| #[trigger] without(s, x).contains(y) <==> (w.contains(y) || s.last() == y) by {
                lemma_contains_last(w.push(s.last()), y);
            }
        }
        assert forall|y: DocumentId| y != x implies (without(s, x).contains(y) <==> s.contains(y)) by {
            lemma_contains_last(s, y);
        }
        if s.last() != x {
            lemma_contains_last(w.push(s.last()), x);
        }
    }
}

/// Whether the identifiers increase along `s`.
pub open spec fn increasing_ids(s: Seq<DocumentId>) -> bool {
    forall|i: int, j: int| 0 <= i < j < s.len() ==> (#[trigger] s[i]).0 < (#[trigger] s[j]).0
}

/// Removing keeps the identifiers increasing.
proof fn lemma_without_increasing(s: Seq<DocumentId>, x: DocumentId)
    requires
        increasing_ids(s),
    ensures
        increasing_ids(without(s, x)),
    decreases s.len(),
{
    if s.len() > 0 {
        let d = s.drop_last();
        assert(increasing_ids(d)) by {
            assert forall|i: int, j: int| 0 <= i < j < d.len() implies (#[trigger] d[i]).0 < (#[trigger] d[j]).0 by {
                assert(d[i] == s[i] && d[j] == s[j]);
            }
        }
        lemma_without_increasing(d, x);
        if s.last() != x {
            let w = without(d, x);
            lemma_without(d, x);
            let v = w.push(s.last());
            assert forall|i: int, j: int| 0 <= i < j < v.len() implies (#[trigger] v[i]).0 < (#[trigger] v[j]).0 by {
                if j == v.len() - 1 {
                    assert(v[i] == w[i]);
                    assert(w.contains(w[i]));
                    assert(w[i] != x);
                    assert(d.contains(w[i]));
                    let k = choose|k: int| 0 <= k < d.len() && d[k] == w[i];
                    assert(s[k] == d[k]);
                    assert(s[k].0 < s[s.len() - 1].0);
                } else {
                    assert(v[i] == w[i] && v[j] == w[j]);
                }
            }
        }
    }
}

/// Adding an identifier above all the others keeps them increasing.
proof fn lemma_push_increasing(s: Seq<DocumentId>, x: DocumentId)
    requires
        increasing_ids(s),
        forall|d: DocumentId| #[trigger] s.contains(d) ==> d.0 < x.0,
    ensures
        increasing_ids(s.push(x)),
{
    let v = s.push(x);
    assert forall|i: int, j: int| 0 <= i < j < v.len() implies (#[trigger] v[i]).0 < (#[trigger] v[j]).0 by {
        assert(v[i] == s[i]);
        if j == v.len() - 1 {
            assert(s.contains(s[i]));
        } else {
            assert(v[j] == s[j]);
        }
    }
}

/// Removing keeps a sequence free of repeats.
proof fn lemma_without_no_duplicates(s: Seq<DocumentId>, x: DocumentId)
    requires
        s.no_duplicates(),
    ensures
        without(s, x).no_duplicates(),
    decreases s.len(),
{
    if s.len() > 0 {
        let d = s.drop_last();
        assert(d.no_duplicates()) by {
            assert forall|i: int, j: int| 0 <= i < d.len() && 0 <= j < d.len() && i != j implies d[i] != d[j] by {
                assert(d[i] == s[i] && d[j] == s[j]);
            }
        }
        lemma_without_no_duplicates(d, x);
        let w = without(d, x);
        if s.last() != x {
            lemma_without(d, x);
            assert(!d.contains(s.last())) by {
                if d.contains(s.last()) {
                    let i = choose|i: int| 0 <= i < d.len() && d[i] == s.last();
                    assert(s[i] == s[s.len() - 1]);
                }
            }
            assert(!w.contains(s.last()));
            let v = w.push(s.last());
            assert forall|i: int, j: int| 0 <= i < v.len() && 0 <= j < v.len() && i != j implies v[i] != v[j] by {
                if i == v.len() - 1 {
                    assert(v[j] == w[j]);
                    assert(w.contains(w[j]));
                } else if j == v.len() - 1 {
                    assert(v[i] == w[i]);
                    assert(w.contains(w[i]));
                } else {
                    assert(v[i] == w[i] && v[j] == w[j]);
                }
            }
        }
    }
}

/// Removing an element other than the last keeps the last.
proof fn lemma_without_last(s: Seq<DocumentId>, x: DocumentId)
    requires
        s.len() > 0,
        s.last() != x,
    ensures
        without(s, x).len() > 0,
        without(s, x).last() == s.last(),
{
}

/// A sequence without `x` stays as it is when `x` is removed.
proof fn lemma_without_absent(s: Seq<DocumentId>, x: DocumentId)
    requires
        !s.contains(x),
    ensures
        without(s, x) == s,
    decreases s.len(),
{
    if s.len() > 0 {
        assert(!s.drop_last().contains(x)) by {
            if s.drop_last().contains(x) {
                let i = choose|i: int| 0 <= i < s.drop_last().len() && s.drop_last()[i] == x;
                assert(s[i] == x);
            }
        }
        lemma_without_absent(s.drop_last(), x);
        assert(s[s.len() - 1] != x);
        assert(s.drop_last().push(s.last()) =~= s);
    }
}

/// Moving `x`, which `h` holds once, to the end keeps the same elements,
/// once each, with `x` last.
proof fn lemma_move_to_end(h: Seq<DocumentId>, x: DocumentId)
    requires
        h.no_duplicates(),
        h.contains(x),
    ensures
        forall|d: DocumentId| #[trigger] without(h, x).push(x).contains(d) <==> h.contains(d),
        without(h, x).push(x).no_duplicates(),
        without(h, x).push(x).len() > 0,
        without(h, x).push(x).last() == x,
{
    lemma_without(h, x);
    lemma_without_no_duplicates(h, x);
    let w = without(h, x);
    let v = w.push(x);
    assert forall|d: DocumentId| #[trigger] v.contains(d) <==> h.contains(d) by {
        assert(v.drop_last() =~= w);
        lemma_contains_last(v, d);
    }
    assert forall|i: int, j: int| 0 <= i < v.len() && 0 <= j < v.len() && i != j implies v[i] != v[j] by {
        if i == v.len() - 1 {
            assert(v[j] == w[j]);
            assert(w.contains(w[j]));
        } else if j == v.len() - 1 {
            assert(v[i] == w[i]);
            assert(w.contains(w[i]));
        } else {
            assert(v[i] == w[i] && v[j] == w[j]);
        }
    }
}

/// Adding `x`, which `h` does not hold, at the end keeps the elements
/// once each, with `x` added and last.
proof fn lemma_add_to_end(h: Seq<DocumentId>, x: DocumentId)
    requires
        h.no_duplicates(),
        !h.contains(x),
    ensures
        forall|d: DocumentId| #[trigger] h.push(x).contains(d) <==> (h.contains(d) || d == x),
        h.push(x).no_duplicates(),
{
    let v = h.push(x);
    assert forall|d: DocumentId| #[trigger] v.contains(d) <==> (h.contains(d) || d == x) by {
        assert(v.drop_last() =~= h);
        lemma_contains_last(v, d);
    }
    assert forall|i: int, j: int| 0 <= i < v.len() && 0 <= j < v.len() && i != j implies v[i] != v[j] by {
        if i == v.len() - 1 {
            assert(v[j] == h[j]);
            assert(h.contains(h[j]));
        } else if j == v.len() - 1 {
            assert(v[i] == h[i]);
            assert(h.contains(h[i]));
        } else {
            assert(v[i] == h[i] && v[j] == h[j]);
        }
    }
}

/// A sequence that holds nothing is empty.
proof fn lemma_holds_nothing(s: Seq<DocumentId>)
    requires
        forall|d: DocumentId| !s.contains(d),
    ensures
        s.len() == 0,
{
    if s.len() > 0 {
        assert(s.contains(s[0]));
    }
}

/// Making `id` (open) the most recent keeps the history in step with the
/// documents.
proof fn lemma_most_recent_keeps_history(s0: EditorState, s1: EditorState, id: DocumentId)
    requires
        EditorState::history_matches(s0),
        s0.documents@.contains(id),
        s1.documents@ == s0.documents@,
        s1.next_document_id == s0.next_document_id,
        s1.current_document_id == id,
        s1.access_history@ == without(s0.access_history@, id).push(id),
    ensures
        EditorState::history_matches(s1),
{
    lemma_move_to_end(s0.access_history@, id);
}

/// Closing a document keeps the history in step with the open documents.
pub proof fn lemma_close_keeps_history(
    s0: EditorState,
    s1: EditorState,
    id: DocumentId,
    force: bool,
    modified: bool,
    r: Result<Option<DocumentId>, CloseError>,
)
    requires
        EditorState::history_matches(s0),
        EditorState::closed(s0, s1, id, force, modified, r),
    ensures
        EditorState::history_matches(s1),
{
    if s0.documents@.contains(id) && (!modified || force) {
        let d0 = s0.documents@;
        let h0 = s0.access_history@;
        let docs = without(d0, id);
        let hist = without(h0, id);
        lemma_without(d0, id);
        lemma_without(h0, id);
        lemma_without_no_duplicates(d0, id);
        lemma_without_no_duplicates(h0, id);
        lemma_without_increasing(d0, id);
        assert forall|d: DocumentId| docs.contains(d) <==> hist.contains(d) by {
            if d != id {
                assert(d0.contains(d) <==> h0.contains(d));
            }
        }
        assert forall|d: DocumentId| #[trigger] docs.contains(d) implies d.0 < s1.next_document_id by {
            assert(d0.contains(d));
        }
        if docs.len() > 0 {
            if s0.current_document_id == id {
                assert(docs.contains(docs[0]));
                assert(hist.len() > 0) by {
                    assert(hist.contains(docs[0]));
                }
                let next = hist.last();
                assert(hist.contains(next)) by {
                    assert(hist[hist.len() - 1] == next);
                }
                lemma_move_to_end(hist, next);
            } else {
                assert(d0.len() > 0);
                assert(h0.last() == s0.current_document_id);
                lemma_without_last(h0, id);
                assert(d0.contains(s0.current_document_id));
            }
        }
    }
}

/// The sequence without `x`.
fn remove_id(v: &Vec<DocumentId>, x: DocumentId) -> (r: Vec<DocumentId>)
    ensures
        r@ == without(v@, x),
{
    let mut r: Vec<DocumentId> = Vec::new();
    let mut i: usize = 0;
    while i < v.len()
        invariant
            i <= v@.len(),
            r@ == without(v@.subrange(0, i as int), x),
        decreases v.len() - i,
    {
        let ghost sub = v@.subrange(0, i + 1);
        assert(sub.drop_last() =~= v@.subrange(0, i as int));
        if v[i] != x {
            r.push(v[i]);
        }
        i = i + 1;
    }
    assert(v@.subrange(0, i as int) =~= v@);
    r
}

/// Whether `x` occurs in `v`.
fn contains_id(v: &Vec<DocumentId>, x: DocumentId) -> (r: bool)
    ensures
        r == v@.contains(x),
{
    let mut i: usize = 0;
    while i < v.len()
        invariant
            i <= v@.len(),
            forall|j: int| 0 <= j < i ==> v@[j] != x,
        decreases v.len() - i,
    {
        if v[i] == x {
            return true;
        }
        i = i + 1;
    }
    false
}

/// The position of `x` in `v`, if it occurs.
fn position_of(v: &Vec<DocumentId>, x: DocumentId) -> (r: Option<usize>)
    ensures
        match r {
            Some(i) => i < v@.len() && v@[i as int] == x && forall|j: int| 0 <= j < i ==> v@[j] != x,
            None => !v@.contains(x),
        },
{
    let mut i: usize = 0;
    while i < v.len()
        invariant
            i <= v@.len(),
            forall|j: int| 0 <= j < i ==> v@[j] != x,
        decreases v.len() - i,
    {
        if v[i] == x {
            return Some(i);
        }
        i = i + 1;
    }
    None
}

/// The position of the first occurrence of `x` in `s`.
pub open spec fn index_of(s: Seq<DocumentId>, x: DocumentId) -> int {
    choose|i: int| 0 <= i < s.len() && s[i] == x && forall|j: int| 0 <= j < i ==> s[j] != x
}

/// The central editor state.
pub struct EditorState {
    pub mode: Mode,
    pub registers: Registers,
    pub selected_register: Option<char>,
    pub keymap: KeyTrieRoot,
    pub last_matched_bracket: Option<i32>,
    pub count: Option<usize>,
    pub next_key: Option<NextKey>,
    pub which_key: Option<WhichKeyData>,
    pub status_msg: Option<(String, DiagnosticSeverity)>,
    pub workspace: Workspace,
    /// The open documents, by increasing identifier.
    pub documents: Vec<DocumentId>,
    pub current_document_id: DocumentId,
    /// The open documents, least recently used first.
    pub access_history: Vec<DocumentId>,
    pub next_document_id: usize,
}

impl EditorState {
    /// Whether the history is in step with the open documents: it lists
    /// each of them once and nothing else, the current one last; the
    /// documents are listed by increasing identifier, each once; every
    /// identifier in use is below the next one to be given.
    pub open spec fn history_matches(s: EditorState) -> bool {
        &&& forall|d: DocumentId| s.documents@.contains(d) <==> s.access_history@.contains(d)
        &&& s.access_history@.no_duplicates()
        &&& s.documents@.no_duplicates()
        &&& increasing_ids(s.documents@)
        &&& forall|d: DocumentId| #[trigger] s.documents@.contains(d) ==> d.0 < s.next_document_id
        &&& s.documents@.len() > 0 ==> s.documents@.contains(s.current_document_id)
            && s.access_history@.len() > 0 && s.access_history@.last() == s.current_document_id
    }

    /// Whether the state is consistent: the keymap binds each key once per
    /// node, and a count is between 1 and `MAX_COUNT`.
    pub open spec fn wf(&self) -> bool {
        &&& self.keymap.wf()
        &&& (self.count matches Some(c) ==> 1 <= c <= MAX_COUNT)
    }

    /// Whether `new` is `old` after entering `mode`: everything pending is
    /// dropped (keys, sticky node, count, next-key purpose, register,
    /// overlay, matched bracket).
    pub open spec fn is_mode_set(old: EditorState, new: EditorState, mode: Mode) -> bool {
        &&& new.mode == mode
        &&& new.keymap.map == old.keymap.map
        &&& new.keymap.spec_pending().len() == 0
        &&& new.keymap.sticky is None
        &&& new.last_matched_bracket is None
        &&& new.count is None
        &&& new.next_key is None
        &&& new.selected_register is None
        &&& new.which_key is None
        &&& new.registers == old.registers
        &&& new.status_msg == old.status_msg
        &&& new.documents == old.documents
        &&& new.current_document_id == old.current_document_id
        &&& new.access_history == old.access_history
        &&& new.next_document_id == old.next_document_id
        &&& new.workspace == old.workspace
    }

    /// Whether `new` is `old` with only the current document and the
    /// history changed.
    pub open spec fn only_switched(old: EditorState, new: EditorState) -> bool {
        new == (EditorState {
            current_document_id: new.current_document_id,
            access_history: new.access_history,
            ..old
        })
    }

    /// The state of a new editor in `workspace` with the given keymap: normal
    /// mode, empty registers, document 1 open and current.
    pub fn new(keymap: ModeMap, workspace: Workspace) -> (r: EditorState)
        requires
            keymap.wf(),
        ensures
            r.wf(),
            r.mode == Mode::Normal,
            r.documents@ == seq![DocumentId(1)],
            r.current_document_id == DocumentId(1),
            r.access_history@ == seq![DocumentId(1)],
            r.next_document_id == 2,
            r.count is None && r.next_key is None && r.selected_register is None,
            r.which_key is None && r.status_msg is None && r.last_matched_bracket is None,
            r.keymap.map == keymap,
            r.keymap.spec_pending().len() == 0,
            r.keymap.sticky is None,
            Self::history_matches(r),
    {
        let mut documents: Vec<DocumentId> = Vec::new();
        documents.push(DocumentId(1));
        let mut access_history: Vec<DocumentId> = Vec::new();
        access_history.push(DocumentId(1));
        let r = EditorState {
            mode: Mode::Normal,
            registers: Registers::new(),
            selected_register: None,
            keymap: KeyTrieRoot::new(keymap),
            last_matched_bracket: None,
            count: None,
            next_key: None,
            which_key: None,
            status_msg: None,
            workspace,
            documents,
            current_document_id: DocumentId(1),
            access_history,
            next_document_id: 2,
        };
        proof {
            let one = seq![DocumentId(1)];
            assert(r.documents@ =~= one);
            assert(r.access_history@ =~= one);
            assert forall|d: DocumentId| #[trigger] one.contains(d) <==> d == DocumentId(1) by {
                if one.contains(d) {
                    let i = choose|i: int| 0 <= i < one.len() && one[i] == d;
                }
                if d == DocumentId(1) {
                    assert(one[0] == d);
                }
            }
        }
        r
    }

    /// The current mode.
    pub fn mode(&self) -> (r: Mode)
        ensures
            r == self.mode,
    {
        self.mode
    }

    /// Enters `mode`, dropping everything pending (see `is_mode_set`).
    pub fn set_mode(&mut self, mode: Mode)
        requires
            old(self).wf(),
        ensures
            final(self).wf(),
            Self::is_mode_set(*old(self), *final(self), mode),
    {
        self.mode = mode;
        self.keymap.clear_pending();
        self.keymap.sticky = None;
        self.last_matched_bracket = None;
        self.count = None;
        self.next_key = None;
        self.selected_register = None;
        self.which_key = None;
    }

    /// Shows an informational message.
    pub fn set_status(&mut self, msg: &str)
        ensures
            final(self).status_msg matches Some((m, s)) && m@ == msg@ && s == DiagnosticSeverity::Info,
            *final(self) == (EditorState { status_msg: final(self).status_msg, ..*old(self) }),
    {
        self.status_msg = Some((msg.to_owned(), DiagnosticSeverity::Info));
    }

    /// Shows an error message.
    pub fn set_error(&mut self, msg: &str)
        ensures
            final(self).status_msg matches Some((m, s)) && m@ == msg@ && s == DiagnosticSeverity::Error,
            *final(self) == (EditorState { status_msg: final(self).status_msg, ..*old(self) }),
    {
        self.status_msg = Some((msg.to_owned(), DiagnosticSeverity::Error));
    }

    /// Shows a warning.
    pub fn set_warning(&mut self, msg: &str)
        ensures
            final(self).status_msg matches Some((m, s)) && m@ == msg@ && s == DiagnosticSeverity::Warning,
            *final(self) == (EditorState { status_msg: final(self).status_msg, ..*old(self) }),
    {
        self.status_msg = Some((msg.to_owned(), DiagnosticSeverity::Warning));
    }

    /// The identifiers of the open documents, in increasing order.
    pub fn document_ids(&self) -> (r: Vec<DocumentId>)
        ensures
            r@ == self.documents@,
    {
        let mut r: Vec<DocumentId> = Vec::new();
        let mut i: usize = 0;
        while i < self.documents.len()
            invariant
                i <= self.documents@.len(),
                r@ == self.documents@.subrange(0, i as int),
            decreases self.documents.len() - i,
        {
            r.push(self.documents[i]);
            i = i + 1;
            assert(r@ =~= self.documents@.subrange(0, i as int));
        }
        r
    }

    /// The open documents, most recently used first: the history read
    /// backwards.
    pub fn documents_in_mru_order(&self) -> (r: Vec<DocumentId>)
        ensures
            r@ == Seq::new(self.access_history@.len(), |i: int| self.access_history@[self.access_history@.len() - 1 - i]),
    {
        let h = &self.access_history;
        let n = h.len();
        let mut r: Vec<DocumentId> = Vec::new();
        let mut i: usize = 0;
        while i < n
            invariant
                i <= n,
                n == h@.len(),
                h@ == self.access_history@,
                r@.len() == i,
                forall|j: int| 0 <= j < i ==> r@[j] == h@[n - 1 - j],
            decreases n - i,
        {
            r.push(h[n - 1 - i]);
            i = i + 1;
        }
        assert(r@ =~= Seq::new(self.access_history@.len(), |i: int| self.access_history@[self.access_history@.len() - 1 - i]));
        r
    }

    /// Makes `id` the current document and the most recently used one, if
    /// it is open; tells whether it was.
    pub fn switch_document(&mut self, id: DocumentId) -> (r: bool)
        ensures
            r == old(self).documents@.contains(id),
            r ==> final(self).current_document_id == id,
            r ==> final(self).access_history@ == without(old(self).access_history@, id).push(id),
            !r ==> *final(self) == *old(self),
            Self::only_switched(*old(self), *final(self)),
            Self::history_matches(*old(self)) ==> Self::history_matches(*final(self)),
    {
        if contains_id(&self.documents, id) {
            self.current_document_id = id;
            let mut h = remove_id(&self.access_history, id);
            h.push(id);
            self.access_history = h;
            proof {
                if Self::history_matches(*old(self)) {
                    lemma_most_recent_keeps_history(*old(self), *self, id);
                }
            }
            true
        } else {
            false
        }
    }

    /// Whether `new` and the answer `r` are what closing document `id`
    /// gives from `old` (see `close_document`); only the documents, the
    /// history and the current document change.
    pub open spec fn closed(
        old: EditorState,
        new: EditorState,
        id: DocumentId,
        force: bool,
        modified: bool,
        r: Result<Option<DocumentId>, CloseError>,
    ) -> bool {
        &&& !old.documents@.contains(id) ==> r == Err::<Option<DocumentId>, CloseError>(
            CloseError::DoesNotExist,
        ) && new == old
        &&& old.documents@.contains(id) && modified && !force ==> r == Err::<
            Option<DocumentId>,
            CloseError,
        >(CloseError::Modified) && new == old
        &&& old.documents@.contains(id) && (!modified || force) ==> {
            let docs = without(old.documents@, id);
            let hist = without(old.access_history@, id);
            &&& new.documents@ == docs
            &&& if docs.len() == 0 {
                &&& r == Ok::<Option<DocumentId>, CloseError>(None)
                &&& new.access_history@ == hist
                &&& new.current_document_id == old.current_document_id
            } else if old.current_document_id == id {
                let next = if hist.len() > 0 { hist.last() } else { docs[0] };
                &&& r == Ok::<Option<DocumentId>, CloseError>(Some(next))
                &&& (docs.contains(next) ==> new.current_document_id == next)
                &&& (!docs.contains(next) ==> new.current_document_id == id)
                &&& (docs.contains(next) ==> new.access_history@ == without(hist, next).push(next))
                &&& (!docs.contains(next) ==> new.access_history@ == hist)
            } else {
                &&& r == Ok::<Option<DocumentId>, CloseError>(Some(old.current_document_id))
                &&& new.access_history@ == hist
                &&& new.current_document_id == old.current_document_id
            }
        }
        &&& new == (EditorState {
            documents: new.documents,
            access_history: new.access_history,
            current_document_id: new.current_document_id,
            ..old
        })
    }

    /// Closes document `id`: an error when it is not open, or when it is
    /// `modified` and not `force`d. Otherwise it leaves the documents and
    /// the history; with none left the answer is `None`; if it was current,
    /// the most recently used remaining document (else the first) becomes
    /// current; the answer is the current document.
    pub fn close_document(&mut self, id: DocumentId, force: bool, modified: bool) -> (r: Result<
        Option<DocumentId>,
        CloseError,
    >)
        ensures
            Self::closed(*old(self), *final(self), id, force, modified, r),
    {
        if !contains_id(&self.documents, id) {
            return Err(CloseError::DoesNotExist);
        }
        if modified && !force {
            return Err(CloseError::Modified);
        }
        self.documents = remove_id(&self.documents, id);
        self.access_history = remove_id(&self.access_history, id);
        if self.documents.len() == 0 {
            return Ok(None);
        }
        if self.current_document_id == id {
            let next_id = if self.access_history.len() > 0 {
                self.access_history[self.access_history.len() - 1]
            } else {
                self.documents[0]
            };
            self.switch_document(next_id);
            Ok(Some(next_id))
        } else {
            Ok(Some(self.current_document_id))
        }
    }

    /// The document after the current one in increasing order, wrapping
    /// around, becomes current; the answer is the current document.
    pub fn next_document(&mut self) -> (r: DocumentId)
        ensures
            old(self).documents@.contains(old(self).current_document_id) ==> {
                let d = old(self).documents@;
                let p = index_of(d, old(self).current_document_id);
                let next = d[(p + 1) % (d.len() as int)];
                &&& r == next
                &&& final(self).current_document_id == next
                &&& final(self).access_history@ == without(old(self).access_history@, next).push(next)
            },
            !old(self).documents@.contains(old(self).current_document_id) ==> *final(self) == *old(self)
                && r == old(self).current_document_id,
            Self::only_switched(*old(self), *final(self)),
            Self::history_matches(*old(self)) ==> Self::history_matches(*final(self)),
    {
        match position_of(&self.documents, self.current_document_id) {
            Some(pos) => {
                let n = self.documents.len();
                let next_pos = if pos < n - 1 { pos + 1 } else { 0 };
                let next_id = self.documents[next_pos];
                proof {
                    let d = self.documents@;
                    let p = index_of(d, self.current_document_id);
                    assert(0 <= p < d.len() && d[p] == self.current_document_id && forall|j: int| 0 <= j < p ==> d[j] != self.current_document_id);
                    assert(p == pos as int) by {
                        if p < pos {
                            assert(d[p] != self.current_document_id);
                        }
                        if pos < p {
                            assert(d[pos as int] != self.current_document_id);
                        }
                    }
                    let len = d.len() as int;
                    if p + 1 < len {
                        assert((p + 1) % len == p + 1) by (nonlinear_arith)
                            requires
                                0 <= p + 1 < len,
                        ;
                    } else {
                        assert((p + 1) % len == 0) by (nonlinear_arith)
                            requires
                                p + 1 == len,
                                len > 0,
                        ;
                    }
                    assert(next_pos as int == (p + 1) % len);
                }
                self.switch_document(next_id);
                next_id
            },
            None => self.current_document_id,
        }
    }

    /// The document before the current one in increasing order, wrapping
    /// around, becomes current; the answer is the current document.
    pub fn prev_document(&mut self) -> (r: DocumentId)
        ensures
            old(self).documents@.contains(old(self).current_document_id) ==> {
                let d = old(self).documents@;
                let p = index_of(d, old(self).current_document_id);
                let prev = if p == 0 { d[d.len() - 1] } else { d[p - 1] };
                &&& r == prev
                &&& final(self).current_document_id == prev
                &&& final(self).access_history@ == without(old(self).access_history@, prev).push(prev)
            },
            !old(self).documents@.contains(old(self).current_document_id) ==> *final(self) == *old(self)
                && r == old(self).current_document_id,
            Self::only_switched(*old(self), *final(self)),
            Self::history_matches(*old(self)) ==> Self::history_matches(*final(self)),
    {
        match position_of(&self.documents, self.current_document_id) {
            Some(pos) => {
                let prev_pos = if pos == 0 { self.documents.len() - 1 } else { pos - 1 };
                let prev_id = self.documents[prev_pos];
                proof {
                    let d = self.documents@;
                    let p = index_of(d, self.current_document_id);
                    assert(0 <= p < d.len() && d[p] == self.current_document_id && forall|j: int| 0 <= j < p ==> d[j] != self.current_document_id);
                    assert(p == pos as int) by {
                        if p < pos {
                            assert(d[p] != self.current_document_id);
                        }
                        if pos < p {
                            assert(d[pos as int] != self.current_document_id);
                        }
                    }
                }
                self.switch_document(prev_id);
                prev_id
            },
            None => self.current_document_id,
        }
    }

    /// Opens a new scratch document and makes it current: it gets the next
    /// free identifier.
    pub fn new_scratch_document(&mut self) -> (r: DocumentId)
        requires
            old(self).next_document_id < usize::MAX,
        ensures
            r == DocumentId(old(self).next_document_id),
            final(self).next_document_id == old(self).next_document_id + 1,
            final(self).documents@ == old(self).documents@.push(r),
            final(self).current_document_id == r,
            final(self).access_history@ == without(old(self).access_history@, r).push(r),
            final(self).mode == old(self).mode,
            Self::history_matches(*old(self)) ==> Self::history_matches(*final(self)),
    {
        let new_id = DocumentId(self.next_document_id);
        self.next_document_id = self.next_document_id + 1;
        self.documents.push(new_id);
        self.current_document_id = new_id;
        let mut h = remove_id(&self.access_history, new_id);
        h.push(new_id);
        self.access_history = h;
        proof {
            if Self::history_matches(*old(self)) {
                let d0 = old(self).documents@;
                let h0 = old(self).access_history@;
                assert(!d0.contains(new_id));
                assert(!h0.contains(new_id));
                lemma_without_absent(h0, new_id);
                lemma_add_to_end(d0, new_id);
                lemma_add_to_end(h0, new_id);
                lemma_push_increasing(d0, new_id);
            }
        }
        new_id
    }

    /// The identifier a document being opened gets: when the only open
    /// document is the current one and is a pristine scratch buffer
    /// (`current_is_clean_scratch`), it is closed and its identifier
    /// reused; otherwise the next free one.
    pub fn begin_open(&mut self, current_is_clean_scratch: bool) -> (r: DocumentId)
        requires
            old(self).next_document_id < usize::MAX,
        ensures
            old(self).documents@.len() == 1 && current_is_clean_scratch ==> {
                &&& r == old(self).current_document_id
                &&& final(self).documents@ == without(old(self).documents@, r)
                &&& final(self).access_history@ == without(old(self).access_history@, r)
                &&& final(self).next_document_id == old(self).next_document_id
            },
            !(old(self).documents@.len() == 1 && current_is_clean_scratch) ==> {
                &&& r == DocumentId(old(self).next_document_id)
                &&& final(self).next_document_id == old(self).next_document_id + 1
                &&& final(self).documents@ == old(self).documents@
                &&& final(self).access_history@ == old(self).access_history@
            },
            final(self).current_document_id == old(self).current_document_id,
            final(self).mode == old(self).mode,
            Self::history_matches(*old(self)) ==> Self::history_matches(*final(self)),
    {
        if self.documents.len() == 1 && current_is_clean_scratch {
            let old_id = self.current_document_id;
            self.documents = remove_id(&self.documents, old_id);
            self.access_history = remove_id(&self.access_history, old_id);
            proof {
                if Self::history_matches(*old(self)) {
                    let d0 = old(self).documents@;
                    let h0 = old(self).access_history@;
                    lemma_without(d0, old_id);
                    lemma_without(h0, old_id);
                    assert forall|d: DocumentId| !without(d0, old_id).contains(d) by {
                        if d != old_id && d0.contains(d) {
                            let i = choose|i: int| 0 <= i < d0.len() && d0[i] == d;
                            let j = choose|j: int| 0 <= j < d0.len() && d0[j] == old_id;
                        }
                    }
                    assert forall|d: DocumentId| !without(h0, old_id).contains(d) by {
                        if d != old_id && h0.contains(d) {
                            assert(d0.contains(d));
                            let i = choose|i: int| 0 <= i < d0.len() && d0[i] == d;
                            let j = choose|j: int| 0 <= j < d0.len() && d0[j] == old_id;
                        }
                    }
                    lemma_holds_nothing(without(d0, old_id));
                    lemma_holds_nothing(without(h0, old_id));
                }
            }
            old_id
        } else {
            let id = DocumentId(self.next_document_id);
            self.next_document_id = self.next_document_id + 1;
            id
        }
    }

    /// Records that document `id` was opened: it joins the documents (if
    /// not there) and becomes the current and most recently used one.
    pub fn finish_open(&mut self, id: DocumentId)
        ensures
            final(self).documents@ == if old(self).documents@.contains(id) {
                old(self).documents@
            } else {
                old(self).documents@.push(id)
            },
            final(self).current_document_id == id,
            final(self).access_history@ == without(old(self).access_history@, id).push(id),
            final(self).next_document_id == old(self).next_document_id,
            final(self).mode == old(self).mode,
            Self::history_matches(*old(self)) && id.0 < old(self).next_document_id && (old(self).documents@.contains(id)
                || forall|d: DocumentId| #[trigger] old(self).documents@.contains(d) ==> d.0 < id.0)
                ==> Self::history_matches(*final(self)),
    {
        let ghost was_open = self.documents@.contains(id);
        if !contains_id(&self.documents, id) {
            self.documents.push(id);
        }
        self.current_document_id = id;
        let mut h = remove_id(&self.access_history, id);
        h.push(id);
        self.access_history = h;
        proof {
            if Self::history_matches(*old(self)) && id.0 < old(self).next_document_id && (old(self).documents@.contains(id)
                || forall|d: DocumentId| #[trigger] old(self).documents@.contains(d) ==> d.0 < id.0) {
                let d0 = old(self).documents@;
                let h0 = old(self).access_history@;
                if was_open {
                    lemma_move_to_end(h0, id);
                } else {
                    assert(!h0.contains(id));
                    lemma_without_absent(h0, id);
                    lemma_add_to_end(d0, id);
                    lemma_add_to_end(h0, id);
                    lemma_push_increasing(d0, id);
                }
            }
        }
    }
}

/// After switching to an open document it is current, it is the last in
/// the history, and it occurs there once.
pub proof fn lemma_switch_is_most_recent(history: Seq<DocumentId>, id: DocumentId)
    ensures
        without(history, id).push(id).last() == id,
        without(history, id).push(id).filter(|x: DocumentId| x == id).len() == 1,
{
    lemma_without(history, id);
    let w = without(history, id);
    let h = w.push(id);
    assert(h.drop_last() =~= w);
    reveal_with_fuel(Seq::filter, 2);
    lemma_filter_none(w, id);
    assert(h.filter(|x: DocumentId| x == id) =~= w.filter(|x: DocumentId| x == id).push(id));
}

/// A sequence without `x` has no `x` to keep.
proof fn lemma_filter_none(s: Seq<DocumentId>, x: DocumentId)
    requires
        !s.contains(x),
    ensures
        s.filter(|y: DocumentId| y == x).len() == 0,
    decreases s.len(),
{
    reveal_with_fuel(Seq::filter, 2);
    if s.len() > 0 {
        assert(!s.drop_last().contains(x)) by {
            if s.drop_last().contains(x) {
                let i = choose|i: int| 0 <= i < s.drop_last().len() && s.drop_last()[i] == x;
                assert(s[i] == x);
            }
        }
        lemma_filter_none(s.drop_last(), x);
        assert(s[s.len() - 1] != x);
    }
}

} // verus!
