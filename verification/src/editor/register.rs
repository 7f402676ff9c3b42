//! Registers: named texts that yanks fill and pastes read.
//!
//! `"` is the default register, `0` keeps the last yank, `_` discards what
//! is written to it and reads empty, `+` and `*` mirror the system
//! clipboard and the primary selection.

use vstd::prelude::*;
use crate::keymap::input::{spec_trim, trim_chars};
use crate::text::unicode::{chars_of, push_str, push_all, string_from_chars};

verus! {

/// The registers, kept ordered by name.
#[derive(Debug)]
pub struct Registers {
    entries: Vec<(char, String)>,
}

/// What a register holds among entries, by name.
pub open spec fn reg_lookup(entries: Seq<(char, Seq<char>)>, name: char) -> Option<Seq<char>>
    decreases entries.len(),
{
    if entries.len() == 0 {
        None
    } else if entries.last().0 == name {
        Some(entries.last().1)
    } else {
        reg_lookup(entries.drop_last(), name)
    }
}

/// Whether the names of the entries strictly increase.
pub open spec fn names_sorted(entries: Seq<(char, Seq<char>)>) -> bool {
    forall|i: int, j: int| 0 <= i < j < entries.len() ==> (entries[i].0 as u32) < (entries[j].0 as u32)
}

/// Characters with the same scalar value are the same character.
proof fn lemma_char_u32_injective(a: char, b: char)
    ensures
        (a as u32 == b as u32) ==> a == b,
{
    assert((a as u32) as char == a);
    assert((b as u32) as char == b);
}

/// The first index past a position, and past the entry found there.
pub open spec fn past(i: int, found: bool) -> int {
    if found {
        i + 1
    } else {
        i
    }
}

/// Which clipboard a register mirrors.
#[derive(Debug, Clone, Copy, PartialEq, Eq, Structural)]
pub enum Clipboard {
    /// The system clipboard (`+`).
    System,
    /// The primary selection (`*`).
    Primary,
}

/// The clipboard that writing to a register also sets: the system one for
/// `+`, the primary selection for `*`.
pub fn clipboard_for(name: char) -> (r: Option<Clipboard>)
    ensures
        r == if name == '+' {
            Some(Clipboard::System)
        } else if name == '*' {
            Some(Clipboard::Primary)
        } else {
            None::<Clipboard>
        },
{
    if name == '+' {
        Some(Clipboard::System)
    } else if name == '*' {
        Some(Clipboard::Primary)
    } else {
        None
    }
}

/// Whether a register is one of those the preview lists first.
pub open spec fn is_special_register(c: char) -> bool {
    c == '"' || c == '0' || c == '+' || c == '*' || c == '_'
}

/// The first line of a text, up to its first line feed.
pub open spec fn first_line(s: Seq<char>) -> Seq<char>
    decreases s.len(),
{
    if s.len() == 0 || s[0] == '\n' {
        Seq::empty()
    } else {
        seq![s[0]] + first_line(s.drop_first())
    }
}

/// How the preview shows a register's text: `<empty>` for none; else its
/// first line trimmed, cut to thirty characters and `...` when longer.
pub open spec fn spec_sanitize(s: Seq<char>) -> Seq<char> {
    if s.len() == 0 {
        "<empty>"@
    } else {
        let f = spec_trim(first_line(s));
        if f.len() > 30 {
            f.subrange(0, 30) + "..."@
        } else {
            f
        }
    }
}

/// The preview lines of the registers other than the special ones, in
/// the order of the entries.
pub open spec fn other_previews(entries: Seq<(char, Seq<char>)>) -> Seq<(char, Seq<char>)>
    decreases entries.len(),
{
    if entries.len() == 0 {
        Seq::empty()
    } else {
        let rest = other_previews(entries.drop_last());
        if is_special_register(entries.last().0) {
            rest
        } else {
            rest.push((entries.last().0, spec_sanitize(entries.last().1)))
        }
    }
}

/// The preview text of a register.
fn sanitize(s: &str) -> (r: String)
    ensures
        r@ == spec_sanitize(s@),
{
    let v = chars_of(s);
    if v.len() == 0 {
        return "<empty>".to_owned();
    }
    let mut line: Vec<char> = Vec::new();
    let mut i: usize = 0;
    let mut done = false;
    assert(v@.subrange(0, v@.len() as int) =~= v@);
    while i < v.len()
        invariant
            i <= v@.len(),
            v@ == s@,
            done ==> line@ == first_line(s@),
            !done ==> line@ + first_line(v@.subrange(i as int, v@.len() as int)) == first_line(s@),
        decreases v.len() - i,
    {
        if !done {
            let ghost rest = v@.subrange(i as int, v@.len() as int);
            assert(rest[0] == v@[i as int]);
            assert(rest.drop_first() =~= v@.subrange(i + 1, v@.len() as int));
            if v[i] == '\n' {
                done = true;
                assert(line@ =~= first_line(s@));
            } else {
                line.push(v[i]);
                assert(line@ + first_line(v@.subrange(i + 1, v@.len() as int)) =~= first_line(s@));
            }
        }
        i = i + 1;
    }
    if !done {
        assert(v@.subrange(i as int, v@.len() as int) =~= Seq::<char>::empty());
        assert(line@ =~= first_line(s@));
    }
    let f = trim_chars(&line);
    if f.len() > 30 {
        let mut out: Vec<char> = Vec::new();
        let mut k: usize = 0;
        while k < 30
            invariant
                k <= 30,
                30 < f@.len(),
                out@ == f@.subrange(0, k as int),
            decreases 30 - k,
        {
            out.push(f[k]);
            k = k + 1;
            assert(out@ =~= f@.subrange(0, k as int));
        }
        push_str(&mut out, "...");
        string_from_chars(&out)
    } else {
        string_from_chars(&f)
    }
}

impl Registers {
    /// The registers that hold text, by name, ordered by name.
    pub closed spec fn view(&self) -> Seq<(char, Seq<char>)> {
        Seq::new(self.entries@.len(), |i: int| (self.entries@[i].0, self.entries@[i].1@))
    }

    #[verifier::type_invariant]
    spec fn sorted(&self) -> bool {
        names_sorted(self.view())
    }

    /// What reading a register gives: nothing for `_` and for a register
    /// never written, else its text.
    pub open spec fn spec_read(&self, name: char) -> Seq<char> {
        if name == '_' {
            Seq::empty()
        } else {
            match reg_lookup(self.view(), name) {
                Some(t) => t,
                None => Seq::empty(),
            }
        }
    }

    /// No register holds text.
    pub fn new() -> (r: Registers)
        ensures
            r.view().len() == 0,
            forall|c: char| #[trigger] r.spec_read(c) == Seq::<char>::empty(),
    {
        let r = Registers { entries: Vec::new() };
        assert(r.view() =~= Seq::<(char, Seq<char>)>::empty());
        r
    }

    /// The index of the entry for `name`, or where it would go.
    fn position(&self, name: char) -> (r: (usize, bool))
        ensures
            r.0 <= self.view().len(),
            r.1 ==> r.0 < self.view().len() && self.view()[r.0 as int].0 == name,
            forall|i: int| 0 <= i < r.0 ==> (self.view()[i].0 as u32) < (name as u32),
            forall|i: int| past(r.0 as int, r.1) <= i < self.view().len() ==> (name as u32) < (
                self.view()[i].0 as u32),
    {
        proof {
            use_type_invariant(self);
        }
        let mut i: usize = 0;
        while i < self.entries.len()
            invariant
                i <= self.entries@.len(),
                self.view().len() == self.entries@.len(),
                names_sorted(self.view()),
                forall|j: int| 0 <= j < i ==> (self.view()[j].0 as u32) < (name as u32),
            decreases self.entries.len() - i,
        {
            assert(self.view()[i as int].0 == self.entries@[i as int].0);
            if self.entries[i].0 == name {
                return (i, true);
            }
            if (name as u32) < (self.entries[i].0 as u32) {
                return (i, false);
            }
            proof {
                lemma_char_u32_injective(self.entries@[i as int].0, name);
            }
            assert((self.view()[i as int].0 as u32) < (name as u32));
            i = i + 1;
        }
        (i, false)
    }

    /// Reads a register (see `spec_read`).
    pub fn read(&self, name: char) -> (r: &str)
        ensures
            r@ == self.spec_read(name),
    {
        proof {
            use_type_invariant(self);
            reveal_strlit("");
        }
        if name == '_' {
            return "";
        }
        let (i, found) = self.position(name);
        proof {
            lemma_reg_lookup_sorted(self.view(), name, i as int, found);
        }
        if found {
            self.entries[i].1.as_str()
        } else {
            ""
        }
    }

    /// Sets a register's text.
    fn set(&mut self, name: char, value: &str)
        ensures
            final(self).spec_read(name) == if name == '_' { Seq::empty() } else { value@ },
            forall|c: char| c != name ==> #[trigger] final(self).spec_read(c) == old(self).spec_read(c),
    {
        proof {
            use_type_invariant(&*self);
        }
        let ghost before = self.view();
        let (i, found) = self.position(name);
        let ghost after: Seq<(char, Seq<char>)> = if found {
            before.update(i as int, (name, value@))
        } else {
            before.insert(i as int, (name, value@))
        };
        proof {
            lemma_reg_set(before, after, name, value@, i as int, found);
        }
        let mut entries = Vec::new();
        std::mem::swap(&mut entries, &mut self.entries);
        if found {
            entries.set(i, (name, value.to_owned()));
        } else {
            entries.insert(i, (name, value.to_owned()));
        }
        assert(Seq::new(entries@.len(), |j: int| (entries@[j].0, entries@[j].1@)) =~= after);
        self.entries = entries;
    }

    /// Writes a register: `_` discards the text; any other register keeps
    /// it until the next write (for `+` and `*` the caller also sets the
    /// clipboard that `clipboard_for` names).
    pub fn write(&mut self, name: char, value: &str)
        ensures
            final(self).spec_read(name) == if name == '_' { Seq::empty() } else { value@ },
            forall|c: char| c != name ==> #[trigger] final(self).spec_read(c) == old(self).spec_read(c),
    {
        if name != '_' {
            self.set(name, value);
        }
    }

    /// The lines the register overlay shows: the default, yank, system
    /// and primary registers with their previews, the black hole, then the
    /// other registers that hold text, ordered by name.
    pub open spec fn spec_preview(&self) -> Seq<(char, Seq<char>)> {
        seq![
            ('"', "default: "@ + spec_sanitize(self.spec_read('"'))),
            ('0', "yank: "@ + spec_sanitize(self.spec_read('0'))),
            ('+', "system: "@ + spec_sanitize(self.spec_read('+'))),
            ('*', "primary: "@ + spec_sanitize(self.spec_read('*'))),
            ('_', "<black hole>"@),
        ] + other_previews(self.view())
    }

    /// The lines the register overlay shows (see `spec_preview`).
    pub fn iter_preview(&self) -> (r: Vec<(char, String)>)
        ensures
            Seq::new(r@.len(), |i: int| (r@[i].0, r@[i].1@)) == self.spec_preview(),
    {
        let mut r: Vec<(char, String)> = Vec::new();
        let mut v: Vec<char> = Vec::new();
        push_str(&mut v, "default: ");
        let d = sanitize(self.read('"'));
        push_str(&mut v, d.as_str());
        r.push(('"', string_from_chars(&v)));
        let mut v: Vec<char> = Vec::new();
        push_str(&mut v, "yank: ");
        let d = sanitize(self.read('0'));
        push_str(&mut v, d.as_str());
        r.push(('0', string_from_chars(&v)));
        let mut v: Vec<char> = Vec::new();
        push_str(&mut v, "system: ");
        let d = sanitize(self.read('+'));
        push_str(&mut v, d.as_str());
        r.push(('+', string_from_chars(&v)));
        let mut v: Vec<char> = Vec::new();
        push_str(&mut v, "primary: ");
        let d = sanitize(self.read('*'));
        push_str(&mut v, d.as_str());
        r.push(('*', string_from_chars(&v)));
        r.push(('_', "<black hole>".to_owned()));
        let ghost head = Seq::new(r@.len(), |i: int| (r@[i].0, r@[i].1@));
        assert(head =~= seq![
            ('"', "default: "@ + spec_sanitize(self.spec_read('"'))),
            ('0', "yank: "@ + spec_sanitize(self.spec_read('0'))),
            ('+', "system: "@ + spec_sanitize(self.spec_read('+'))),
            ('*', "primary: "@ + spec_sanitize(self.spec_read('*'))),
            ('_', "<black hole>"@),
        ]);
        let mut i: usize = 0;
        while i < self.entries.len()
            invariant
                i <= self.entries@.len(),
                self.view().len() == self.entries@.len(),
                head.len() == 5,
                Seq::new(r@.len(), |j: int| (r@[j].0, r@[j].1@)) == head + other_previews(
                    self.view().subrange(0, i as int),
                ),
            decreases self.entries.len() - i,
        {
            let ghost sub = self.view().subrange(0, i + 1);
            assert(sub.drop_last() =~= self.view().subrange(0, i as int));
            assert(sub.last() == (self.entries@[i as int].0, self.entries@[i as int].1@));
            let c = self.entries[i].0;
            if !(c == '"' || c == '0' || c == '+' || c == '*' || c == '_') {
                let p = sanitize(self.entries[i].1.as_str());
                let ghost before = Seq::new(r@.len(), |j: int| (r@[j].0, r@[j].1@));
                r.push((c, p));
                assert(Seq::new(r@.len(), |j: int| (r@[j].0, r@[j].1@)) =~= before.push((c, spec_sanitize(self.entries@[i as int].1@))));
            }
            assert(Seq::new(r@.len(), |j: int| (r@[j].0, r@[j].1@)) =~= head + other_previews(sub));
            i = i + 1;
        }
        assert(self.view().subrange(0, i as int) =~= self.view());
        r
    }

    /// Sets both clipboard registers, `+` and `*`, to text that came from
    /// the system clipboard.
    pub fn set_clipboard(&mut self, text: &str)
        ensures
            final(self).spec_read('+') == text@,
            final(self).spec_read('*') == text@,
            forall|c: char| c != '+' && c != '*' ==> #[trigger] final(self).spec_read(c) == old(self).spec_read(c),
    {
        self.set('+', text);
        self.set('*', text);
    }
}

/// Reading a sorted list of entries at a position that `position` found.
proof fn lemma_reg_lookup_sorted(v: Seq<(char, Seq<char>)>, name: char, i: int, found: bool)
    requires
        names_sorted(v),
        0 <= i <= v.len(),
        found ==> i < v.len() && v[i].0 == name,
        forall|j: int| 0 <= j < i ==> (v[j].0 as u32) < (name as u32),
        forall|j: int| past(i, found) <= j < v.len() ==> (name as u32) < (v[j].0 as u32),
    ensures
        reg_lookup(v, name) == if found { Some(v[i].1) } else { None::<Seq<char>> },
    decreases v.len(),
{
    if v.len() > 0 {
        let d = v.drop_last();
        if v.last().0 == name {
            if !found || i != v.len() - 1 {
                assert(false);
            }
        } else {
            if found && i == v.len() - 1 {
                assert(false);
            }
            let i2 = if i > d.len() { d.len() as int } else { i };
            assert forall|j: int| 0 <= j < i2 implies (d[j].0 as u32) < (name as u32) by {
                assert(d[j] == v[j]);
            }
            assert forall|j: int| past(i2, found) <= j < d.len() implies (name as u32) < (d[j].0 as u32) by {
                assert(d[j] == v[j]);
            }
            assert(names_sorted(d)) by {
                assert forall|a: int, b: int| 0 <= a < b < d.len() implies (d[a].0 as u32) < (d[b].0 as u32) by {
                    assert(d[a] == v[a] && d[b] == v[b]);
                }
            }
            lemma_reg_lookup_sorted(d, name, i2, found);
            if found {
                assert(d[i] == v[i]);
            }
        }
    }
}

/// Setting a name in a sorted list at the position `position` found keeps
/// it sorted and changes only that name.
proof fn lemma_reg_set(v: Seq<(char, Seq<char>)>, w: Seq<(char, Seq<char>)>, name: char, value: Seq<char>, i: int, found: bool)
    requires
        w == if found { v.update(i, (name, value)) } else { v.insert(i, (name, value)) },
        names_sorted(v),
        0 <= i <= v.len(),
        found ==> i < v.len() && v[i].0 == name,
        forall|j: int| 0 <= j < i ==> (v[j].0 as u32) < (name as u32),
        forall|j: int| past(i, found) <= j < v.len() ==> (name as u32) < (v[j].0 as u32),
    ensures
        names_sorted(w),
        reg_lookup(w, name) == Some(value),
        forall|c: char| c != name ==> #[trigger] reg_lookup(w, c) == reg_lookup(v, c),
{
    assert(names_sorted(w)) by {
        assert forall|a: int, b: int| 0 <= a < b < w.len() implies (w[a].0 as u32) < (w[b].0 as u32) by {
            if found {
                if a != i && b != i {
                    assert(w[a] == v[a] && w[b] == v[b]);
                } else if a == i {
                    assert(w[b] == v[b]);
                } else {
                    assert(w[a] == v[a]);
                }
            } else {
                if a < i {
                    assert(w[a] == v[a]);
                }
                if a > i {
                    assert(w[a] == v[a - 1]);
                }
                if b < i {
                    assert(w[b] == v[b]);
                }
                if b > i {
                    assert(w[b] == v[b - 1]);
                }
            }
        }
    }
    let fw = if found { i } else { i };
    assert forall|j: int| 0 <= j < fw implies (w[j].0 as u32) < (name as u32) by {
        assert(w[j] == v[j]);
    }
    assert forall|j: int| fw + 1 <= j < w.len() implies (name as u32) < (w[j].0 as u32) by {
        if found {
            assert(w[j] == v[j]);
        } else {
            assert(w[j] == v[j - 1]);
        }
    }
    lemma_reg_lookup_sorted(w, name, fw, true);
    assert forall|c: char| c != name implies #[trigger] reg_lookup(w, c) == reg_lookup(v, c) by {
        lemma_reg_lookup_other(v, w, name, value, i, found, c);
    }
}

/// Setting one name leaves what other names read.
proof fn lemma_reg_lookup_other(
    v: Seq<(char, Seq<char>)>,
    w: Seq<(char, Seq<char>)>,
    name: char,
    value: Seq<char>,
    i: int,
    found: bool,
    c: char,
)
    requires
        0 <= i <= v.len(),
        found ==> i < v.len() && v[i].0 == name,
        w == if found { v.update(i, (name, value)) } else { v.insert(i, (name, value)) },
        c != name,
    ensures
        reg_lookup(w, c) == reg_lookup(v, c),
    decreases v.len(),
{
    if v.len() == 0 {
        assert(w.drop_last() =~= Seq::<(char, Seq<char>)>::empty());
    } else if found && i == v.len() - 1 {
        assert(w.drop_last() =~= v.drop_last());
    } else if !found && i == v.len() {
        assert(w.drop_last() =~= v);
    } else {
        assert(w.last() == v.last());
        let w2 = if found { v.drop_last().update(i, (name, value)) } else { v.drop_last().insert(i, (name, value)) };
        assert(w.drop_last() =~= w2);
        lemma_reg_lookup_other(v.drop_last(), w2, name, value, i, found, c);
    }
}

} // verus!
