//! The which-key overlay model: the keys bound at a trie node, grouped by
//! what they do and ordered by key.

use vstd::prelude::*;
use crate::keymap::actions::EditorAction;
use crate::keymap::input::{KeyCode, KeyEvent, KeyModifiers};
use crate::text::unicode::{spec_decimal, decimal_chars};
use crate::keymap::trie::{KeyTrie, KeyTrieNode, keys_distinct};
use crate::text::unicode::{push_str, push_all, string_from_chars};
use crate::editor::register::Registers;

verus! {

/// One line of the overlay: keys, what they do, and whether they lead to
/// a further node.
#[derive(Debug, Clone, PartialEq, Eq)]
pub struct WhichKeyEntry {
    pub key_label: String,
    pub description: String,
    pub is_submenu: bool,
}

/// The overlay: a title and its lines.
#[derive(Debug, Clone, PartialEq, Eq)]
pub struct WhichKeyData {
    pub title: String,
    pub entries: Vec<WhichKeyEntry>,
}

/// The badge text of the held modifiers: `Super-`, `C-`, `A-`, `S-`, in
/// that order.
pub open spec fn spec_format_modifiers(m: KeyModifiers) -> Seq<char> {
    (if m.super_key { "Super-"@ } else { Seq::empty() }) + (if m.control { "C-"@ } else { Seq::empty() })
        + (if m.alt { "A-"@ } else { Seq::empty() }) + (if m.shift { "S-"@ } else { Seq::empty() })
}

/// The badge text of a key code.
pub open spec fn spec_format_code(code: KeyCode) -> Seq<char> {
    match code {
        KeyCode::Char(c) => if c == ' ' { "Space"@ } else { seq![c] },
        KeyCode::Esc => "Esc"@,
        KeyCode::Enter => "Enter"@,
        KeyCode::Backspace => "Backspace"@,
        KeyCode::Tab => "Tab"@,
        KeyCode::Delete => "Del"@,
        KeyCode::Left => "Left"@,
        KeyCode::Right => "Right"@,
        KeyCode::Up => "Up"@,
        KeyCode::Down => "Down"@,
        KeyCode::Home => "Home"@,
        KeyCode::End => "End"@,
        KeyCode::PageUp => "PageUp"@,
        KeyCode::PageDown => "PageDown"@,
        KeyCode::F(n) => "F"@ + spec_decimal(n as nat),
        KeyCode::Null => "Null"@,
    }
}

/// The badge text of a key: its modifiers, then its code.
pub open spec fn spec_format_key(key: KeyEvent) -> Seq<char> {
    spec_format_modifiers(key.modifiers) + spec_format_code(key.code)
}

/// The badge text of a key: `a`, `Space`, `Esc`, `C-g`, `Left`.
pub fn format_key(key: &KeyEvent) -> (r: String)
    ensures
        r@ == spec_format_key(*key),
{
    let v = format_key_chars(key);
    string_from_chars(&v)
}

/// The characters of the badge text of a key.
fn format_key_chars(key: &KeyEvent) -> (v: Vec<char>)
    ensures
        v@ == spec_format_key(*key),
{
    let mut v: Vec<char> = Vec::new();
    let m = key.modifiers;
    if m.super_key {
        push_str(&mut v, "Super-");
    }
    if m.control {
        push_str(&mut v, "C-");
    }
    if m.alt {
        push_str(&mut v, "A-");
    }
    if m.shift {
        push_str(&mut v, "S-");
    }
    assert(v@ =~= spec_format_modifiers(m));
    let ghost pre = v@;
    match key.code {
        KeyCode::Char(c) => {
            if c == ' ' {
                push_str(&mut v, "Space");
            } else {
                v.push(c);
                assert(v@ =~= pre + seq![c]);
            }
        },
        KeyCode::Esc => push_str(&mut v, "Esc"),
        KeyCode::Enter => push_str(&mut v, "Enter"),
        KeyCode::Backspace => push_str(&mut v, "Backspace"),
        KeyCode::Tab => push_str(&mut v, "Tab"),
        KeyCode::Delete => push_str(&mut v, "Del"),
        KeyCode::Left => push_str(&mut v, "Left"),
        KeyCode::Right => push_str(&mut v, "Right"),
        KeyCode::Up => push_str(&mut v, "Up"),
        KeyCode::Down => push_str(&mut v, "Down"),
        KeyCode::Home => push_str(&mut v, "Home"),
        KeyCode::End => push_str(&mut v, "End"),
        KeyCode::PageUp => push_str(&mut v, "PageUp"),
        KeyCode::PageDown => push_str(&mut v, "PageDown"),
        KeyCode::F(n) => {
            push_str(&mut v, "F");
            let d = decimal_chars(n as u64);
            push_all(&mut v, &d);
            assert(v@ =~= pre + ("F"@ + spec_decimal(n as nat)));
        },
        KeyCode::Null => push_str(&mut v, "Null"),
    }
    assert(v@ =~= spec_format_key(*key));
    v
}

/// The place of a key code among key codes: characters first, then Esc,
/// Enter, Backspace, Tab, Delete, the arrows, Home, End, PageUp,
/// PageDown, the `F` keys and Null.
pub open spec fn code_rank(c: KeyCode) -> int {
    match c {
        KeyCode::Char(_) => 0,
        KeyCode::Esc => 1,
        KeyCode::Enter => 2,
        KeyCode::Backspace => 3,
        KeyCode::Tab => 4,
        KeyCode::Delete => 5,
        KeyCode::Left => 6,
        KeyCode::Right => 7,
        KeyCode::Up => 8,
        KeyCode::Down => 9,
        KeyCode::Home => 10,
        KeyCode::End => 11,
        KeyCode::PageUp => 12,
        KeyCode::PageDown => 13,
        KeyCode::F(_) => 14,
        KeyCode::Null => 15,
    }
}

/// What orders key codes of the same kind: the character, or the number.
pub open spec fn code_payload(c: KeyCode) -> int {
    match c {
        KeyCode::Char(ch) => ch as int,
        KeyCode::F(n) => n as int,
        _ => 0,
    }
}

/// The order of keys: by code, then by modifier bits (the order that
/// `Ord` on `KeyEvent` gives).
pub open spec fn key_lt(a: KeyEvent, b: KeyEvent) -> bool {
    let ra = code_rank(a.code);
    let rb = code_rank(b.code);
    let pa = code_payload(a.code);
    let pb = code_payload(b.code);
    ra < rb || (ra == rb && (pa < pb || (pa == pb && a.modifiers.spec_bits() < b.modifiers.spec_bits())))
}

/// Distinct keys are ordered one way or the other.
pub proof fn lemma_key_lt_total(a: KeyEvent, b: KeyEvent)
    ensures
        a != b ==> key_lt(a, b) || key_lt(b, a),
        !key_lt(a, a),
{
    if !key_lt(a, b) && !key_lt(b, a) {
        assert(a.modifiers == b.modifiers);
        assert(a.code == b.code);
    }
}

/// The rank and payload of a key code.
fn code_order(c: &KeyCode) -> (r: (u32, u32))
    ensures
        r.0 == code_rank(*c),
        r.1 == code_payload(*c),
{
    match c {
        KeyCode::Char(ch) => (0, *ch as u32),
        KeyCode::Esc => (1, 0),
        KeyCode::Enter => (2, 0),
        KeyCode::Backspace => (3, 0),
        KeyCode::Tab => (4, 0),
        KeyCode::Delete => (5, 0),
        KeyCode::Left => (6, 0),
        KeyCode::Right => (7, 0),
        KeyCode::Up => (8, 0),
        KeyCode::Down => (9, 0),
        KeyCode::Home => (10, 0),
        KeyCode::End => (11, 0),
        KeyCode::PageUp => (12, 0),
        KeyCode::PageDown => (13, 0),
        KeyCode::F(n) => (14, *n as u32),
        KeyCode::Null => (15, 0),
    }
}

/// Whether `a` comes before `b` (see `key_lt`).
fn key_less(a: &KeyEvent, b: &KeyEvent) -> (r: bool)
    ensures
        r == key_lt(*a, *b),
{
    let (ra, pa) = code_order(&a.code);
    let (rb, pb) = code_order(&b.code);
    let ba = a.modifiers.bits();
    let bb = b.modifiers.bits();
    ra < rb || (ra == rb && (pa < pb || (pa == pb && ba < bb)))
}

/// Whether the overlay shows what a key leads to: everything but the
/// no-operation action.
pub open spec fn is_shown(t: KeyTrie) -> bool {
    match t {
        KeyTrie::Leaf(a) => a != EditorAction::Noop,
        KeyTrie::Node(_) => true,
    }
}

/// What the overlay says a key leads to: an action's description, or a
/// node's name marked as a submenu.
pub open spec fn trie_label(t: KeyTrie) -> (Seq<char>, bool) {
    match t {
        KeyTrie::Leaf(a) => (a.spec_doc(), false),
        KeyTrie::Node(n) => (n.name@, true),
    }
}

/// Whether `s` lists the entries the overlay shows, by index, in key order.
pub open spec fn is_key_order(e: Seq<(KeyEvent, KeyTrie)>, s: Seq<usize>) -> bool {
    &&& forall|j: int| 0 <= j < s.len() ==> (#[trigger] s[j]) < e.len() && is_shown(e[s[j] as int].1)
    &&& forall|j: int, j2: int|
        0 <= j < j2 < s.len() ==> key_lt(#[trigger] e[s[j] as int].0, #[trigger] e[s[j2] as int].0)
    &&& forall|p: usize| p < e.len() && is_shown(#[trigger] e[p as int].1) ==> s.contains(p)
}

/// The entries the overlay shows, by index, in key order.
pub open spec fn key_order(e: Seq<(KeyEvent, KeyTrie)>) -> Seq<usize> {
    choose|s: Seq<usize>| is_key_order(e, s)
}

/// The indices below `n` are `n` many.
proof fn lemma_index_range(n: usize)
    ensures
        Set::new(|x: usize| x < n).finite(),
        Set::new(|x: usize| x < n).len() == n,
    decreases n,
{
    if n == 0 {
        assert(Set::new(|x: usize| x < n) =~= Set::<usize>::empty());
    } else {
        lemma_index_range((n - 1) as usize);
        assert(Set::new(|x: usize| x < n) =~= Set::new(|x: usize| x < (n - 1) as usize).insert(
            (n - 1) as usize,
        ));
    }
}

/// A list of distinct indices below `n` has at most `n` of them.
proof fn lemma_distinct_indices(s: Seq<usize>, n: usize)
    requires
        s.no_duplicates(),
        forall|j: int| 0 <= j < s.len() ==> #[trigger] s[j] < n,
    ensures
        s.len() <= n,
{
    s.unique_seq_to_set();
    lemma_index_range(n);
    assert(s.to_set().subset_of(Set::new(|x: usize| x < n)));
    vstd::set_lib::lemma_len_subset(s.to_set(), Set::new(|x: usize| x < n));
}

/// Two lists in key order of the same indices are the same list.
proof fn lemma_key_order_unique(e: Seq<(KeyEvent, KeyTrie)>, s1: Seq<usize>, s2: Seq<usize>)
    requires
        forall|j: int| 0 <= j < s1.len() ==> (#[trigger] s1[j]) < e.len(),
        forall|j: int| 0 <= j < s2.len() ==> (#[trigger] s2[j]) < e.len(),
        forall|j: int, j2: int|
            0 <= j < j2 < s1.len() ==> key_lt(#[trigger] e[s1[j] as int].0, #[trigger] e[s1[j2] as int].0),
        forall|j: int, j2: int|
            0 <= j < j2 < s2.len() ==> key_lt(#[trigger] e[s2[j] as int].0, #[trigger] e[s2[j2] as int].0),
        forall|x: usize| s1.contains(x) <==> s2.contains(x),
    ensures
        s1 == s2,
    decreases s1.len(),
{
    if s1.len() == 0 {
        if s2.len() > 0 {
            assert(s2.contains(s2[0]));
        }
        assert(s1 =~= s2);
    } else {
        assert(s1.contains(s1[0]));
        let j = choose|j: int| 0 <= j < s2.len() && s2[j] == s1[0];
        assert(s2.contains(s2[0]));
        let i = choose|i: int| 0 <= i < s1.len() && s1[i] == s2[0];
        lemma_key_lt_total(e[s1[0] as int].0, e[s1[0] as int].0);
        if j > 0 {
            assert(key_lt(e[s2[0] as int].0, e[s2[j] as int].0));
            if i > 0 {
                assert(key_lt(e[s1[0] as int].0, e[s1[i] as int].0));
            }
            assert(false);
        }
        let t1 = s1.drop_first();
        let t2 = s2.drop_first();
        assert forall|x: usize| t1.contains(x) <==> t2.contains(x) by {
            if t1.contains(x) {
                let a = choose|a: int| 0 <= a < t1.len() && t1[a] == x;
                assert(s1[a + 1] == x);
                assert(s1.contains(x));
                let b = choose|b: int| 0 <= b < s2.len() && s2[b] == x;
                if b == 0 {
                    assert(key_lt(e[s1[0] as int].0, e[s1[a + 1] as int].0));
                    assert(false);
                }
                assert(t2[b - 1] == x);
            }
            if t2.contains(x) {
                let a = choose|a: int| 0 <= a < t2.len() && t2[a] == x;
                assert(s2[a + 1] == x);
                assert(s2.contains(x));
                let b = choose|b: int| 0 <= b < s1.len() && s1[b] == x;
                if b == 0 {
                    assert(key_lt(e[s2[0] as int].0, e[s2[a + 1] as int].0));
                    assert(false);
                }
                assert(t1[b - 1] == x);
            }
        }
        assert forall|a: int, b: int| 0 <= a < b < t1.len() implies key_lt(
            #[trigger] e[t1[a] as int].0,
            #[trigger] e[t1[b] as int].0,
        ) by {
            assert(t1[a] == s1[a + 1] && t1[b] == s1[b + 1]);
        }
        assert forall|a: int, b: int| 0 <= a < b < t2.len() implies key_lt(
            #[trigger] e[t2[a] as int].0,
            #[trigger] e[t2[b] as int].0,
        ) by {
            assert(t2[a] == s2[a + 1] && t2[b] == s2[b + 1]);
        }
        assert forall|a: int| 0 <= a < t1.len() implies (#[trigger] t1[a]) < e.len() by {
            assert(t1[a] == s1[a + 1]);
        }
        assert forall|a: int| 0 <= a < t2.len() implies (#[trigger] t2[a]) < e.len() by {
            assert(t2[a] == s2[a + 1]);
        }
        lemma_key_order_unique(e, t1, t2);
        assert(s1 =~= s2) by {
            assert forall|a: int| 0 <= a < s1.len() implies s1[a] == s2[a] by {
                if a > 0 {
                    assert(s1[a] == t1[a - 1]);
                    assert(s2[a] == t2[a - 1]);
                }
            }
        }
    }
}

/// The indices of the entries the overlay shows, in key order.
fn key_order_of(e: &Vec<(KeyEvent, KeyTrie)>) -> (s: Vec<usize>)
    requires
        keys_distinct(e@),
    ensures
        is_key_order(e@, s@),
{
    let n = e.len();
    let mut s: Vec<usize> = Vec::new();
    loop
        invariant
            n == e@.len(),
            keys_distinct(e@),
            s@.len() <= n,
            forall|j: int| 0 <= j < s@.len() ==> (#[trigger] s@[j]) < n && is_shown(e@[s@[j] as int].1),
            forall|j: int, j2: int|
                0 <= j < j2 < s@.len() ==> key_lt(#[trigger] e@[s@[j] as int].0, #[trigger] e@[s@[j2] as int].0),
            forall|p: usize|
                p < n && is_shown(#[trigger] e@[p as int].1) && s@.len() > 0 && !key_lt(
                    e@[s@.last() as int].0,
                    e@[p as int].0,
                ) ==> s@.contains(p),
        decreases n - s@.len(),
    {
        let mut best: Option<usize> = None;
        let mut p: usize = 0;
        while p < n
            invariant
                n == e@.len(),
                p <= n,
                forall|j: int| 0 <= j < s@.len() ==> (#[trigger] s@[j]) < n,
                match best {
                    Some(b) => b < n && is_shown(e@[b as int].1) && (s@.len() == 0 || key_lt(
                        e@[s@.last() as int].0,
                        e@[b as int].0,
                    )) && forall|q: usize|
                        q < p && is_shown(#[trigger] e@[q as int].1) && (s@.len() == 0 || key_lt(
                            e@[s@.last() as int].0,
                            e@[q as int].0,
                        )) ==> !key_lt(e@[q as int].0, e@[b as int].0),
                    None => forall|q: usize|
                        q < p && is_shown(#[trigger] e@[q as int].1) ==> !(s@.len() == 0 || key_lt(
                            e@[s@.last() as int].0,
                            e@[q as int].0,
                        )),
                },
            decreases n - p,
        {
            let shown = match &e[p].1 {
                KeyTrie::Leaf(a) => *a != EditorAction::Noop,
                KeyTrie::Node(_) => true,
            };
            let after = s.len() == 0 || key_less(&e[s[s.len() - 1]].0, &e[p].0);
            if shown && after {
                let better = match best {
                    None => true,
                    Some(b) => key_less(&e[p].0, &e[b].0),
                };
                if better {
                    proof {
                        if let Some(b) = best {
                            assert forall|q: usize|
                                q < p + 1 && is_shown(#[trigger] e@[q as int].1) && (s@.len() == 0 || key_lt(
                                    e@[s@.last() as int].0,
                                    e@[q as int].0,
                                )) implies !key_lt(e@[q as int].0, e@[p as int].0) by {
                                lemma_key_lt_total(e@[q as int].0, e@[p as int].0);
                                if q < p {
                                    assert(!key_lt(e@[q as int].0, e@[b as int].0));
                                }
                            }
                        } else {
                            assert forall|q: usize|
                                q < p + 1 && is_shown(#[trigger] e@[q as int].1) && (s@.len() == 0 || key_lt(
                                    e@[s@.last() as int].0,
                                    e@[q as int].0,
                                )) implies !key_lt(e@[q as int].0, e@[p as int].0) by {
                                lemma_key_lt_total(e@[q as int].0, e@[p as int].0);
                            }
                        }
                    }
                    best = Some(p);
                }
            }
            p = p + 1;
        }
        match best {
            None => {
                proof {
                    assert forall|q: usize| q < n && is_shown(#[trigger] e@[q as int].1) implies s@.contains(q) by {
                        lemma_key_lt_total(e@[s@.last() as int].0, e@[q as int].0);
                    }
                }
                return s;
            },
            Some(b) => {
                let ghost old_s = s@;
                proof {
                    assert forall|j: int| 0 <= j < old_s.len() implies old_s[j] != b by {
                        if j < old_s.len() - 1 {
                            assert(key_lt(e@[old_s[j] as int].0, e@[old_s.last() as int].0));
                        }
                        lemma_key_lt_total(e@[old_s[j] as int].0, e@[old_s[j] as int].0);
                    }
                }
                s.push(b);
                proof {
                    assert forall|j: int, j2: int|
                        0 <= j < j2 < s@.len() implies key_lt(#[trigger] e@[s@[j] as int].0, #[trigger] e@[s@[j2] as int].0) by {
                        if j2 == s@.len() - 1 && j < old_s.len() - 1 {
                            assert(key_lt(e@[old_s[j] as int].0, e@[old_s.last() as int].0));
                        }
                    }
                    assert(s@.no_duplicates()) by {
                        assert forall|j: int, j2: int| 0 <= j < s@.len() && 0 <= j2 < s@.len() && j != j2 implies s@[j] != s@[j2] by {
                            lemma_key_lt_total(e@[s@[j] as int].0, e@[s@[j] as int].0);
                            if j < j2 {
                                assert(key_lt(e@[s@[j] as int].0, e@[s@[j2] as int].0));
                            } else {
                                assert(key_lt(e@[s@[j2] as int].0, e@[s@[j] as int].0));
                            }
                        }
                    }
                    lemma_distinct_indices(s@, n);
                    assert forall|q: usize|
                        q < n && is_shown(#[trigger] e@[q as int].1) && !key_lt(e@[b as int].0, e@[q as int].0)
                        implies s@.contains(q) by {
                        lemma_key_lt_total(e@[q as int].0, e@[b as int].0);
                        if old_s.len() > 0 && !key_lt(e@[old_s.last() as int].0, e@[q as int].0) {
                            assert(old_s.contains(q));
                            let j = choose|j: int| 0 <= j < old_s.len() && old_s[j] == q;
                            assert(s@[j] == q);
                        } else if q == b {
                            assert(s@[s@.len() - 1] == q);
                        } else {
                            assert(e@[q as int].0 != e@[b as int].0) by {
                                if q < b {
                                    assert(e@[q as int].0 != e@[b as int].0);
                                } else {
                                    assert(e@[b as int].0 != e@[q as int].0);
                                }
                            }
                            assert(!key_lt(e@[q as int].0, e@[b as int].0));
                            assert(false);
                        }
                    }
                }
            },
        }
    }
}

/// A group of the overlay: its keys, the description, whether a submenu.
pub type KeyGroup = (Seq<KeyEvent>, Seq<char>, bool);

/// The index of the first group with the given description, or -1.
pub open spec fn find_group(g: Seq<KeyGroup>, label: (Seq<char>, bool)) -> int
    decreases g.len(),
{
    if g.len() == 0 {
        -1
    } else if g[0].1 == label.0 && g[0].2 == label.1 {
        0
    } else {
        let r = find_group(g.drop_first(), label);
        if r < 0 {
            -1
        } else {
            r + 1
        }
    }
}

/// The groups that the entries at the indices `s` form, in turn: an entry
/// joins the group with its description, or starts a new group.
pub open spec fn group_fold(e: Seq<(KeyEvent, KeyTrie)>, s: Seq<usize>) -> Seq<KeyGroup>
    decreases s.len(),
{
    if s.len() == 0 {
        Seq::empty()
    } else {
        let g = group_fold(e, s.drop_last());
        let k = e[s.last() as int].0;
        let l = trie_label(e[s.last() as int].1);
        let i = find_group(g, l);
        if i < 0 {
            g.push((seq![k], l.0, l.1))
        } else {
            g.update(i, (g[i].0.push(k), g[i].1, g[i].2))
        }
    }
}

/// The overlay's groups for a node's entries: the shown keys taken in key
/// order, gathered by description; so each group's keys are in key order
/// and the groups are in the order of their first keys.
pub open spec fn which_key_groups(e: Seq<(KeyEvent, KeyTrie)>) -> Seq<KeyGroup> {
    group_fold(e, key_order(e))
}

/// Whether some entry listed in `s` binds key `k` to something labelled `l`.
pub open spec fn has_source(e: Seq<(KeyEvent, KeyTrie)>, s: Seq<usize>, k: KeyEvent, l: (Seq<char>, bool)) -> bool {
    exists|j: int| 0 <= j < s.len() && e[s[j] as int].0 == k && #[trigger] trie_label(e[s[j] as int].1) == l
}

/// Whether keys are in strictly ascending key order.
pub open spec fn keys_ascending(ks: Seq<KeyEvent>) -> bool {
    forall|a: int, b: int| 0 <= a < b < ks.len() ==> key_lt(#[trigger] ks[a], #[trigger] ks[b])
}

/// Whether `g` gathers the entries listed in `s` by label: no two groups
/// share a label, each group holds exactly the listed keys with its label,
/// in ascending key order, every listed entry is in a group, and the
/// groups come in the order of their smallest keys.
pub open spec fn grouped_by_label(e: Seq<(KeyEvent, KeyTrie)>, s: Seq<usize>, g: Seq<KeyGroup>) -> bool {
    &&& forall|i: int, j: int|
        0 <= i < j < g.len() ==> (#[trigger] g[i].1, g[i].2) != (#[trigger] g[j].1, g[j].2)
    &&& forall|i: int| 0 <= i < g.len() ==> (#[trigger] g[i]).0.len() > 0 && keys_ascending(g[i].0)
    &&& forall|i: int, j: int| 0 <= i < j < g.len() ==> key_lt((#[trigger] g[i]).0[0], (#[trigger] g[j]).0[0])
    &&& forall|i: int, k: KeyEvent|
        0 <= i < g.len() ==> ((#[trigger] g[i].0.contains(k)) <==> has_source(e, s, k, (g[i].1, g[i].2)))
    &&& forall|j: int| 0 <= j < s.len() ==> find_group(g, trie_label(e[#[trigger] s[j] as int].1)) >= 0
}

/// `find_group` gives the first group with the label, or -1 when none has it.
proof fn lemma_find_group(g: Seq<KeyGroup>, l: (Seq<char>, bool))
    ensures
        -1 <= find_group(g, l) < g.len(),
        find_group(g, l) >= 0 ==> (g[find_group(g, l)].1, g[find_group(g, l)].2) == l,
        find_group(g, l) < 0 ==> forall|i: int| 0 <= i < g.len() ==> (#[trigger] g[i].1, g[i].2) != l,
    decreases g.len(),
{
    if g.len() > 0 {
        lemma_find_group(g.drop_first(), l);
        assert forall|i: int| 0 < i < g.len() implies #[trigger] g[i] == g.drop_first()[i - 1] by {}
    }
}

/// Folding the entries listed in key order gathers them by label (see
/// `grouped_by_label`).
proof fn lemma_group_fold(e: Seq<(KeyEvent, KeyTrie)>, s: Seq<usize>)
    requires
        forall|j: int| 0 <= j < s.len() ==> (#[trigger] s[j]) < e.len(),
        forall|j: int, j2: int|
            0 <= j < j2 < s.len() ==> key_lt(#[trigger] e[s[j] as int].0, #[trigger] e[s[j2] as int].0),
    ensures
        grouped_by_label(e, s, group_fold(e, s)),
    decreases s.len(),
{
    if s.len() > 0 {
        let t = s.drop_last();
        assert forall|j: int, j2: int| 0 <= j < j2 < t.len() implies key_lt(
            #[trigger] e[t[j] as int].0,
            #[trigger] e[t[j2] as int].0,
        ) by {
            assert(t[j] == s[j] && t[j2] == s[j2]);
        }
        lemma_group_fold(e, t);
        let h = group_fold(e, t);
        let last = s.len() - 1;
        let k = e[s[last] as int].0;
        let l = trie_label(e[s[last] as int].1);
        let r = find_group(h, l);
        let g = group_fold(e, s);
        lemma_find_group(h, l);
        // every key already grouped comes before the new one
        assert forall|i: int, a: int| 0 <= i < h.len() && 0 <= a < h[i].0.len() implies key_lt(
            #[trigger] h[i].0[a],
            k,
        ) by {
            assert(h[i].0.contains(h[i].0[a]));
            let j = choose|j: int|
                0 <= j < t.len() && e[t[j] as int].0 == h[i].0[a] && #[trigger] trie_label(e[t[j] as int].1) == (
                h[i].1,
                h[i].2,
            );
            assert(t[j] == s[j]);
        }
        // the sources of a label with the new entry
        assert forall|k2: KeyEvent, l2: (Seq<char>, bool)| #[trigger] has_source(e, s, k2, l2) <==> (
        has_source(e, t, k2, l2) || (k2 == k && l2 == l)) by {
            if has_source(e, s, k2, l2) {
                let j = choose|j: int|
                    0 <= j < s.len() && e[s[j] as int].0 == k2 && #[trigger] trie_label(e[s[j] as int].1) == l2;
                if j < last {
                    assert(t[j] == s[j]);
                    assert(has_source(e, t, k2, l2));
                }
            }
            if has_source(e, t, k2, l2) {
                let j = choose|j: int|
                    0 <= j < t.len() && e[t[j] as int].0 == k2 && #[trigger] trie_label(e[t[j] as int].1) == l2;
                assert(t[j] == s[j]);
            }
            if k2 == k && l2 == l {
                assert(trie_label(e[s[last] as int].1) == l2);
            }
        }
        if r < 0 {
            assert(g == h.push((seq![k], l.0, l.1)));
            assert forall|i: int, k2: KeyEvent| 0 <= i < g.len() implies ((#[trigger] g[i].0.contains(k2))
                <==> has_source(e, s, k2, (g[i].1, g[i].2))) by {
                if i < h.len() {
                    assert(g[i] == h[i]);
                    assert((h[i].1, h[i].2) != l);
                } else {
                    assert(g[i].0 == seq![k]);
                    if has_source(e, t, k2, l) {
                        let j = choose|j: int|
                            0 <= j < t.len() && e[t[j] as int].0 == k2 && #[trigger] trie_label(e[t[j] as int].1)
                                == l;
                        assert(find_group(h, trie_label(e[t[j] as int].1)) >= 0);
                    }
                    if k2 == k {
                        assert(g[i].0[0] == k);
                    }
                }
            }
            assert forall|j: int| 0 <= j < s.len() implies find_group(g, trie_label(e[#[trigger] s[j] as int].1))
                >= 0 by {
                let lj = trie_label(e[s[j] as int].1);
                lemma_find_group(g, lj);
                if j < last {
                    assert(t[j] == s[j]);
                    assert(find_group(h, trie_label(e[t[j] as int].1)) >= 0);
                    lemma_find_group(h, lj);
                    let i = find_group(h, lj);
                    assert(g[i] == h[i]);
                    assert((g[i].1, g[i].2) == lj);
                } else {
                    assert(g[h.len() as int].1 == l.0);
                }
            }
            assert forall|i: int| 0 <= i < g.len() implies (#[trigger] g[i]).0.len() > 0 && keys_ascending(g[i].0) by {
                if i < h.len() {
                    assert(g[i] == h[i]);
                }
            }
            assert forall|i: int, j: int| 0 <= i < j < g.len() implies key_lt((#[trigger] g[i]).0[0], (#[trigger] g[j]).0[0]) by {
                assert(g[i] == h[i]);
                if j == h.len() {
                    assert(g[j].0[0] == k);
                } else {
                    assert(g[j] == h[j]);
                }
            }
        } else {
            let ng = (h[r].0.push(k), h[r].1, h[r].2);
            assert(g == h.update(r, ng));
            assert forall|i: int, k2: KeyEvent| 0 <= i < g.len() implies ((#[trigger] g[i].0.contains(k2))
                <==> has_source(e, s, k2, (g[i].1, g[i].2))) by {
                let gl = (g[i].1, g[i].2);
                assert(has_source(e, s, k2, gl) <==> (has_source(e, t, k2, gl) || (k2 == k && gl == l)));
                assert(h[i].0.contains(k2) <==> has_source(e, t, k2, (h[i].1, h[i].2)));
                if i == r {
                    assert(gl == l);
                    assert(h[r].0.contains(k2) ==> g[i].0.contains(k2)) by {
                        if h[r].0.contains(k2) {
                            let a = choose|a: int| 0 <= a < h[r].0.len() && h[r].0[a] == k2;
                            assert(g[i].0[a] == k2);
                        }
                    }
                    assert(g[i].0[h[r].0.len() as int] == k);
                    assert(k2 == k ==> g[i].0.contains(k2));
                    if g[i].0.contains(k2) {
                        let a = choose|a: int| 0 <= a < g[i].0.len() && g[i].0[a] == k2;
                        if a < h[r].0.len() {
                            assert(h[r].0[a] == k2);
                        }
                    }
                } else {
                    assert(g[i] == h[i]);
                    assert((h[i].1, h[i].2) != (h[r].1, h[r].2)) by {
                        if i < r {
                            assert((h[i].1, h[i].2) != (h[r].1, h[r].2));
                        } else {
                            assert((h[r].1, h[r].2) != (h[i].1, h[i].2));
                        }
                    }
                }
            }
            assert forall|j: int| 0 <= j < s.len() implies find_group(g, trie_label(e[#[trigger] s[j] as int].1))
                >= 0 by {
                let lj = trie_label(e[s[j] as int].1);
                lemma_find_group(g, lj);
                if j < last {
                    assert(t[j] == s[j]);
                    assert(find_group(h, trie_label(e[t[j] as int].1)) >= 0);
                    lemma_find_group(h, lj);
                    let i = find_group(h, lj);
                    assert(g[i].1 == h[i].1 && g[i].2 == h[i].2);
                    assert((g[i].1, g[i].2) == lj);
                } else {
                    assert(g[r].1 == l.0 && g[r].2 == l.1);
                }
            }
            assert forall|i: int| 0 <= i < g.len() implies (#[trigger] g[i]).0.len() > 0 && keys_ascending(g[i].0) by {
                if i == r {
                    assert forall|a: int, b: int| 0 <= a < b < g[i].0.len() implies key_lt(#[trigger] g[i].0[a], #[trigger] g[i].0[b]) by {
                        assert(g[i].0[a] == h[r].0[a]);
                        if b < h[r].0.len() {
                            assert(g[i].0[b] == h[r].0[b]);
                        }
                    }
                } else {
                    assert(g[i] == h[i]);
                }
            }
            assert forall|i: int, j: int| 0 <= i < j < g.len() implies key_lt((#[trigger] g[i]).0[0], (#[trigger] g[j]).0[0]) by {
                assert(g[i].0[0] == h[i].0[0]);
                assert(g[j].0[0] == h[j].0[0]);
            }
            assert forall|i: int, j: int| 0 <= i < j < g.len() implies (#[trigger] g[i].1, g[i].2) != (#[trigger] g[j].1, g[j].2) by {
                assert(g[i].1 == h[i].1 && g[i].2 == h[i].2);
                assert(g[j].1 == h[j].1 && g[j].2 == h[j].2);
            }
        }
    }
}

/// The overlay's grouping law: for the shown entries listed in key order,
/// the groups carry distinct labels, each holds exactly the shown keys with
/// its label in ascending order, every shown entry is in a group, and the
/// groups come in the order of their smallest keys.
pub proof fn lemma_which_key_grouping(e: Seq<(KeyEvent, KeyTrie)>, s: Seq<usize>)
    requires
        is_key_order(e, s),
    ensures
        grouped_by_label(e, s, group_fold(e, s)),
{
    lemma_group_fold(e, s);
}

/// The badge texts of keys, separated by `, `.
pub open spec fn labels_text(ks: Seq<KeyEvent>) -> Seq<char>
    decreases ks.len(),
{
    if ks.len() == 0 {
        Seq::empty()
    } else if ks.len() == 1 {
        spec_format_key(ks[0])
    } else {
        labels_text(ks.drop_last()) + ", "@ + spec_format_key(ks.last())
    }
}

/// The views of groups under construction.
pub open spec fn group_views(g: Seq<(Vec<KeyEvent>, String, bool)>) -> Seq<KeyGroup> {
    Seq::new(g.len(), |i: int| (g[i].0@, g[i].1@, g[i].2))
}

/// The badge texts of `ks` separated by `, `.
fn labels_of(ks: &Vec<KeyEvent>) -> (r: String)
    ensures
        r@ == labels_text(ks@),
{
    let mut v: Vec<char> = Vec::new();
    let mut i: usize = 0;
    while i < ks.len()
        invariant
            i <= ks@.len(),
            v@ == labels_text(ks@.subrange(0, i as int)),
        decreases ks.len() - i,
    {
        let ghost sub = ks@.subrange(0, i + 1);
        assert(sub.drop_last() =~= ks@.subrange(0, i as int));
        if i > 0 {
            push_str(&mut v, ", ");
        }
        let f = format_key_chars(&ks[i]);
        push_all(&mut v, &f);
        proof {
            if i == 0 {
                assert(ks@.subrange(0, 0) =~= Seq::<KeyEvent>::empty());
                assert(v@ =~= spec_format_key(sub[0]));
            } else {
                assert(v@ =~= labels_text(sub.drop_last()) + ", "@ + spec_format_key(sub.last()));
            }
        }
        i = i + 1;
    }
    assert(ks@.subrange(0, i as int) =~= ks@);
    string_from_chars(&v)
}

/// Whether `w` is the overlay of node `n`: titled with the node's name,
/// one line per group of keys that do the same thing, each listing its
/// keys, in the order of `which_key_groups`.
pub open spec fn is_node_overlay(w: WhichKeyData, n: KeyTrieNode) -> bool {
    &&& w.title@ == n.name@
    &&& w.entries@.len() == which_key_groups(n.map.entries@).len()
    &&& forall|i: int|
        0 <= i < w.entries@.len() ==> {
            let g = which_key_groups(n.map.entries@)[i];
            &&& (#[trigger] w.entries@[i]).key_label@ == labels_text(g.0)
            &&& w.entries@[i].description@ == g.1
            &&& w.entries@[i].is_submenu == g.2
        }
}

/// Whether `w` is the register overlay of `regs`: titled `Registers`, one
/// line per register preview, keyed by the register's name.
pub open spec fn is_register_overlay(w: WhichKeyData, regs: Registers) -> bool {
    &&& w.title@ == "Registers"@
    &&& w.entries@.len() == regs.spec_preview().len()
    &&& forall|i: int|
        0 <= i < w.entries@.len() ==> {
            let p = regs.spec_preview()[i];
            &&& (#[trigger] w.entries@[i]).key_label@ == seq![p.0]
            &&& w.entries@[i].description@ == p.1
            &&& !w.entries@[i].is_submenu
        }
}

/// The description of what a key leads to, and whether it is a submenu.
fn label_of(t: &KeyTrie) -> (r: (String, bool))
    ensures
        (r.0@, r.1) == trie_label(*t),
{
    match t {
        KeyTrie::Leaf(a) => (a.doc().to_owned(), false),
        KeyTrie::Node(n) => (n.name.clone(), true),
    }
}

impl WhichKeyData {
    /// The overlay for a node: titled with the node's name, one line per
    /// description, each listing its keys in key order, the lines in the
    /// order of their first keys; the no-operation action is not shown.
    pub fn from_trie_node(node: &KeyTrieNode) -> (r: WhichKeyData)
        requires
            keys_distinct(node.map.entries@),
        ensures
            is_node_overlay(r, *node),
            is_key_order(node.map.entries@, key_order(node.map.entries@)),
            grouped_by_label(node.map.entries@, key_order(node.map.entries@), which_key_groups(node.map.entries@)),
    {
        let e = &node.map.entries;
        let order = key_order_of(e);
        proof {
            let c = key_order(e@);
            assert(is_key_order(e@, c));
            lemma_key_order_unique(e@, c, order@);
            lemma_which_key_grouping(e@, c);
        }
        let mut groups: Vec<(Vec<KeyEvent>, String, bool)> = Vec::new();
        let mut i: usize = 0;
        while i < order.len()
            invariant
                i <= order@.len(),
                forall|j: int| 0 <= j < order@.len() ==> (#[trigger] order@[j]) < e@.len(),
                group_views(groups@) == group_fold(e@, order@.subrange(0, i as int)),
            decreases order.len() - i,
        {
            let p = order[i];
            let k = e[p].0;
            let (desc, sub) = label_of(&e[p].1);
            let ghost gv = group_views(groups@);
            let ghost l = (desc@, sub);
            let ghost sub_s = order@.subrange(0, i + 1);
            assert(sub_s.drop_last() =~= order@.subrange(0, i as int));
            assert(sub_s.last() == p);
            // find the group with this description
            let mut j: usize = 0;
            let mut found: Option<usize> = None;
            assert(gv.subrange(0, gv.len() as int) =~= gv);
            while j < groups.len()
                invariant
                    j <= groups@.len(),
                    gv == group_views(groups@),
                    l == (desc@, sub),
                    found is Some ==> j == groups@.len(),
                    match found {
                        Some(at) => at < gv.len() && find_group(gv, l) == at as int,
                        None => find_group(gv, l) == if find_group(gv.subrange(j as int, gv.len() as int), l) < 0 {
                            -1
                        } else {
                            find_group(gv.subrange(j as int, gv.len() as int), l) + j
                        },
                    },
                decreases groups.len() - j,
            {
                let ghost rest = gv.subrange(j as int, gv.len() as int);
                assert(rest[0] == gv[j as int]);
                if groups[j].1 == desc && groups[j].2 == sub {
                    assert(gv[j as int].1 == desc@ && gv[j as int].2 == sub);
                    assert(find_group(rest, l) == 0);
                    found = Some(j);
                    j = groups.len();
                } else {
                    assert(rest.drop_first() =~= gv.subrange(j + 1, gv.len() as int));
                    j = j + 1;
                }
            }
            match found {
                Some(at) => {
                    let (mut ks, d, b) = groups.remove(at);
                    ks.push(k);
                    groups.insert(at, (ks, d, b));
                    assert(group_views(groups@) =~= gv.update(at as int, (gv[at as int].0.push(k), gv[at as int].1, gv[at as int].2)));
                },
                None => {
                    assert(gv.subrange(j as int, gv.len() as int) =~= Seq::<KeyGroup>::empty());
                    assert(find_group(gv, l) < 0);
                    let mut ks: Vec<KeyEvent> = Vec::new();
                    ks.push(k);
                    groups.push((ks, desc, sub));
                    assert(group_views(groups@) =~= gv.push((seq![k], l.0, l.1)));
                },
            }
            i = i + 1;
        }
        assert(order@.subrange(0, i as int) =~= order@);
        let mut entries: Vec<WhichKeyEntry> = Vec::new();
        let mut g: usize = 0;
        let ghost gv = group_views(groups@);
        while g < groups.len()
            invariant
                g <= groups@.len(),
                gv == group_views(groups@),
                entries@.len() == g,
                forall|x: int|
                    0 <= x < g ==> {
                        &&& (#[trigger] entries@[x]).key_label@ == labels_text(gv[x].0)
                        &&& entries@[x].description@ == gv[x].1
                        &&& entries@[x].is_submenu == gv[x].2
                    },
            decreases groups.len() - g,
        {
            let key_label = labels_of(&groups[g].0);
            let description = groups[g].1.clone();
            entries.push(WhichKeyEntry { key_label, description, is_submenu: groups[g].2 });
            g = g + 1;
        }
        WhichKeyData { title: node.name.clone(), entries }
    }
}

impl WhichKeyData {
    /// The register overlay: titled `Registers`, one line per register
    /// preview, keyed by the register's name.
    pub fn from_registers(registers: &Registers) -> (r: WhichKeyData)
        ensures
            is_register_overlay(r, *registers),
    {
        let previews = registers.iter_preview();
        let ghost pv = Seq::new(previews@.len(), |i: int| (previews@[i].0, previews@[i].1@));
        let mut entries: Vec<WhichKeyEntry> = Vec::new();
        let mut i: usize = 0;
        while i < previews.len()
            invariant
                i <= previews@.len(),
                pv == Seq::new(previews@.len(), |j: int| (previews@[j].0, previews@[j].1@)),
                entries@.len() == i,
                forall|j: int|
                    0 <= j < i ==> {
                        &&& (#[trigger] entries@[j]).key_label@ == seq![pv[j].0]
                        &&& entries@[j].description@ == pv[j].1
                        &&& !entries@[j].is_submenu
                    },
            decreases previews.len() - i,
        {
            let mut label: Vec<char> = Vec::new();
            label.push(previews[i].0);
            assert(label@ =~= seq![pv[i as int].0]);
            entries.push(WhichKeyEntry {
                key_label: string_from_chars(&label),
                description: previews[i].1.clone(),
                is_submenu: false,
            });
            i = i + 1;
        }
        WhichKeyData { title: "Registers".to_owned(), entries }
    }
}

impl KeyTrieNode {
    /// The which-key overlay for this node (see `WhichKeyData::from_trie_node`).
    pub fn which_key_data(&self) -> (r: WhichKeyData)
        requires
            keys_distinct(self.map.entries@),
        ensures
            is_node_overlay(r, *self),
    {
        WhichKeyData::from_trie_node(self)
    }

    /// The which-key overlay for this node; the same as `which_key_data`.
    pub fn infobox(&self) -> (r: WhichKeyData)
        requires
            keys_distinct(self.map.entries@),
        ensures
            is_node_overlay(r, *self),
    {
        self.which_key_data()
    }
}

} // verus!
