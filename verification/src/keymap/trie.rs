//! Key tries: nested key maps whose leaves are actions, and the per-mode
//! state machine that feeds key presses through them.

use vstd::prelude::*;
use super::actions::{EditorAction, Mode};
use super::input::{KeyCode, KeyEvent, KeyModifiers, char_key, plain_key, spec_key_text, key_text_chars};
use crate::text::unicode::{str_to_lowercase, unicode_str_to_lowercase, push_str, push_all, string_from_chars};
use super::default::{
    build_match_node, build_space_node, is_match_node, is_space_node, is_insert_node, alt_semicolon,

};


verus! {

/// A node of a key trie: an action, or a further map of keys.
#[derive(Debug, PartialEq, Eq)]
pub enum KeyTrie {
    Leaf(EditorAction),
    Node(KeyTrieNode),
}

/// The keys bound at one node, each with what it leads to. A key occurs
/// at most once: binding a key again replaces its entry.
#[derive(Debug, PartialEq, Eq)]
pub struct KeyMap {
    pub entries: Vec<(KeyEvent, KeyTrie)>,
}

/// A named map of keys; a sticky node stays active after a key in it.
#[derive(Debug, PartialEq, Eq)]
pub struct KeyTrieNode {
    pub name: String,
    pub map: KeyMap,
    pub is_sticky: bool,
}

/// Two tries are alike: the same shape, keys, actions, flags and names.
pub open spec fn trie_equiv(a: KeyTrie, b: KeyTrie) -> bool
    decreases a,
{
    match a {
        KeyTrie::Leaf(x) => b == KeyTrie::Leaf(x),
        KeyTrie::Node(n) => match b {
            KeyTrie::Node(m) => {
                &&& n.name@ == m.name@
                &&& n.is_sticky == m.is_sticky
                &&& n.map.entries@.len() == m.map.entries@.len()
                &&& forall|i: int|
                    0 <= i < n.map.entries@.len() ==> (#[trigger] n.map.entries@[i]).0
                        == m.map.entries@[i].0 && trie_equiv(n.map.entries@[i].1, m.map.entries@[i].1)
            },
            _ => false,
        },
    }
}

/// Two nodes are alike (see `trie_equiv`).
pub open spec fn node_equiv(a: KeyTrieNode, b: KeyTrieNode) -> bool {
    trie_equiv(KeyTrie::Node(a), KeyTrie::Node(b))
}

/// Whether no key occurs twice among the entries.
pub open spec fn keys_distinct(entries: Seq<(KeyEvent, KeyTrie)>) -> bool {
    forall|i: int, j: int| 0 <= i < j < entries.len() ==> entries[i].0 != entries[j].0
}

/// A key that leads nowhere has no entry.
pub proof fn lemma_lookup_none(entries: Seq<(KeyEvent, KeyTrie)>, k: KeyEvent)
    requires
        lookup(entries, k) is None,
    ensures
        forall|i: int| 0 <= i < entries.len() ==> (#[trigger] entries[i]).0 != k,
    decreases entries.len(),
{
    if entries.len() > 0 {
        lemma_lookup_none(entries.drop_first(), k);
        assert forall|i: int| 0 <= i < entries.len() implies (#[trigger] entries[i]).0 != k by {
            if i > 0 {
                assert(entries[i] == entries.drop_first()[i - 1]);
            }
        }
    }
}

/// What the first entry for `k` leads to, if any.
pub open spec fn lookup(entries: Seq<(KeyEvent, KeyTrie)>, k: KeyEvent) -> Option<KeyTrie>
    decreases entries.len(),
{
    if entries.len() == 0 {
        None
    } else if entries[0].0 == k {
        Some(entries[0].1)
    } else {
        lookup(entries.drop_first(), k)
    }
}

/// Where a sequence of keys leads from `t`: `t` itself for no key, nothing
/// when a leaf is reached before the keys run out or a key is unbound.
pub open spec fn spec_search(t: KeyTrie, keys: Seq<KeyEvent>) -> Option<KeyTrie>
    decreases keys.len(),
{
    if keys.len() == 0 {
        Some(t)
    } else {
        match t {
            KeyTrie::Leaf(_) => None,
            KeyTrie::Node(n) => match lookup(n.map.entries@, keys[0]) {
                None => None,
                Some(c) => spec_search(c, keys.drop_first()),
            },
        }
    }
}

/// Where one more key leads from where a search stopped: the entry for
/// the key in a node, nothing from a leaf or from nowhere.
pub open spec fn search_step(t: Option<KeyTrie>, k: KeyEvent) -> Option<KeyTrie> {
    match t {
        Some(KeyTrie::Node(n)) => lookup(n.map.entries@, k),
        _ => None,
    }
}

/// A search with no key stays at the trie; a search with one key more goes
/// on from where the shorter search stopped.
pub proof fn lemma_search_push(t: KeyTrie, keys: Seq<KeyEvent>, k: KeyEvent)
    ensures
        spec_search(t, Seq::empty()) == Some(t),
        spec_search(t, keys.push(k)) == search_step(spec_search(t, keys), k),
    decreases keys.len(),
{
    let ks = keys.push(k);
    if keys.len() == 0 {
        assert(ks.drop_first() =~= Seq::<KeyEvent>::empty());
        match t {
            KeyTrie::Leaf(_) => {},
            KeyTrie::Node(n) => {
                assert(ks[0] == k);
                match lookup(n.map.entries@, k) {
                    None => {},
                    Some(c) => {
                        assert(spec_search(c, ks.drop_first()) == Some(c));
                    },
                }
            },
        }
    } else {
        assert(ks[0] == keys[0]);
        assert(ks.drop_first() =~= keys.drop_first().push(k));
        match t {
            KeyTrie::Leaf(_) => {},
            KeyTrie::Node(n) => match lookup(n.map.entries@, keys[0]) {
                None => {},
                Some(c) => {
                    lemma_search_push(c, keys.drop_first(), k);
                    assert(spec_search(t, ks) == spec_search(c, keys.drop_first().push(k)));
                    assert(spec_search(t, keys) == spec_search(c, keys.drop_first()));
                },
            },
        }
    }
}

/// Alike tries are alike in chains.
pub proof fn lemma_trie_equiv_trans(a: KeyTrie, b: KeyTrie, c: KeyTrie)
    requires
        trie_equiv(a, b),
        trie_equiv(b, c),
    ensures
        trie_equiv(a, c),
    decreases a,
{
    match a {
        KeyTrie::Leaf(_) => {},
        KeyTrie::Node(n) => {
            let m = b->Node_0;
            let o = c->Node_0;
            assert forall|i: int| 0 <= i < n.map.entries@.len() implies (#[trigger] n.map.entries@[i]).0
                == o.map.entries@[i].0 && trie_equiv(n.map.entries@[i].1, o.map.entries@[i].1) by {
                assert(m.map.entries@[i].0 == o.map.entries@[i].0);
                assert(decreases_to!(a => n));
                assert(decreases_to!(n => n.map));
                assert(decreases_to!(n.map => n.map.entries));
                assert(decreases_to!(n.map.entries => n.map.entries@));
                assert(decreases_to!(n.map.entries@ => n.map.entries@[i]));
                assert(decreases_to!(n.map.entries@[i] => n.map.entries@[i].1));
                lemma_trie_equiv_trans(n.map.entries@[i].1, m.map.entries@[i].1, o.map.entries@[i].1);
            }
        },
    }
}

/// Whether every node of a trie binds each key at most once.
pub open spec fn trie_wf(t: KeyTrie) -> bool
    decreases t,
{
    match t {
        KeyTrie::Leaf(_) => true,
        KeyTrie::Node(n) => {
            &&& keys_distinct(n.map.entries@)
            &&& forall|i: int| 0 <= i < n.map.entries@.len() ==> trie_wf(#[trigger] n.map.entries@[i].1)
        },
    }
}

/// Whether a key is bound as key presses reach a trie: a character key
/// carries no Shift, the case being in the character itself.
pub open spec fn key_canonical(k: KeyEvent) -> bool {
    !(k.code is Char && k.modifiers.shift)
}

/// Whether no node of a trie is sticky, every key bound in it is canonical
/// and no leaf returns to normal mode.
pub open spec fn trie_plain(t: KeyTrie) -> bool
    decreases t,
{
    match t {
        KeyTrie::Leaf(a) => a != EditorAction::ExitToNormal,
        KeyTrie::Node(n) => {
            &&& !n.is_sticky
            &&& forall|i: int|
                0 <= i < n.map.entries@.len() ==> key_canonical(#[trigger] n.map.entries@[i].0)
                    && trie_plain(n.map.entries@[i].1)
        },
    }
}

/// Whether every entry binds a canonical key to a plain trie.
pub open spec fn entries_plain(e: Seq<(KeyEvent, KeyTrie)>) -> bool {
    forall|i: int| 0 <= i < e.len() ==> key_canonical(#[trigger] e[i].0) && trie_plain(e[i].1)
}

/// Whether entries bind each key at most once, at every depth.
pub open spec fn entries_wf(e: Seq<(KeyEvent, KeyTrie)>) -> bool {
    &&& keys_distinct(e)
    &&& forall|i: int| 0 <= i < e.len() ==> trie_wf(#[trigger] e[i].1)
}

/// What a key leads to in well-formed entries is well formed.
pub proof fn lemma_lookup_wf(e: Seq<(KeyEvent, KeyTrie)>, k: KeyEvent)
    requires
        forall|i: int| 0 <= i < e.len() ==> trie_wf(#[trigger] e[i].1),
    ensures
        lookup(e, k) matches Some(c) ==> trie_wf(c),
    decreases e.len(),
{
    if e.len() > 0 {
        assert(trie_wf(e[0].1));
        let d = e.drop_first();
        assert forall|i: int| 0 <= i < d.len() implies trie_wf(#[trigger] d[i].1) by {
            assert(d[i] == e[i + 1]);
        }
        lemma_lookup_wf(d, k);
    }
}

/// Where keys lead in a well-formed trie is well formed.
pub proof fn lemma_search_wf(t: KeyTrie, keys: Seq<KeyEvent>)
    requires
        trie_wf(t),
    ensures
        spec_search(t, keys) matches Some(c) ==> trie_wf(c),
    decreases keys.len(),
{
    if keys.len() > 0 {
        if let KeyTrie::Node(n) = t {
            lemma_lookup_wf(n.map.entries@, keys[0]);
            if let Some(c) = lookup(n.map.entries@, keys[0]) {
                lemma_search_wf(c, keys.drop_first());
            }
        }
    }
}

/// A trie alike to a well-formed one is well formed.
pub proof fn lemma_equiv_wf(a: KeyTrie, b: KeyTrie)
    requires
        trie_equiv(a, b),
        trie_wf(a),
    ensures
        trie_wf(b),
    decreases a,
{
    match a {
        KeyTrie::Leaf(_) => {},
        KeyTrie::Node(n) => {
            let m = b->Node_0;
            assert forall|i: int| 0 <= i < m.map.entries@.len() implies trie_wf(#[trigger] m.map.entries@[i].1) by {
                assert(trie_equiv(n.map.entries@[i].1, m.map.entries@[i].1));
                assert(trie_wf(n.map.entries@[i].1));
                assert(decreases_to!(a => n));
                assert(decreases_to!(n => n.map));
                assert(decreases_to!(n.map => n.map.entries));
                assert(decreases_to!(n.map.entries => n.map.entries@));
                assert(decreases_to!(n.map.entries@ => n.map.entries@[i]));
                assert(decreases_to!(n.map.entries@[i] => n.map.entries@[i].1));
                lemma_equiv_wf(n.map.entries@[i].1, m.map.entries@[i].1);
            }
            assert(keys_distinct(m.map.entries@)) by {
                assert forall|i: int, j: int| 0 <= i < j < m.map.entries@.len() implies m.map.entries@[i].0 != m.map.entries@[j].0 by {
                    assert(n.map.entries@[i].0 == m.map.entries@[i].0);
                    assert(n.map.entries@[j].0 == m.map.entries@[j].0);
                }
            }
        },
    }
}

/// A copy of a trie.
pub fn copy_trie(t: &KeyTrie) -> (r: KeyTrie)
    ensures
        trie_equiv(*t, r),
    decreases t,
{
    match t {
        KeyTrie::Leaf(a) => KeyTrie::Leaf(*a),
        KeyTrie::Node(n) => KeyTrie::Node(copy_node(n)),
    }
}

/// A copy of a node.
pub fn copy_node(n: &KeyTrieNode) -> (r: KeyTrieNode)
    ensures
        node_equiv(*n, r),
    decreases n,
{
    let mut entries: Vec<(KeyEvent, KeyTrie)> = Vec::new();
    let mut i: usize = 0;
    while i < n.map.entries.len()
        invariant
            i <= n.map.entries@.len(),
            entries@.len() == i,
            forall|j: int|
                0 <= j < i ==> (#[trigger] n.map.entries@[j]).0 == entries@[j].0 && trie_equiv(
                    n.map.entries@[j].1,
                    entries@[j].1,
                ),
        decreases n.map.entries.len() - i,
    {
        let k = n.map.entries[i].0;
        proof {
            assert(decreases_to!(n => n.map));
            assert(decreases_to!(n.map => n.map.entries));
            assert(decreases_to!(n.map.entries => n.map.entries@));
            assert(decreases_to!(n.map.entries@ => n.map.entries@[i as int]));
            assert(decreases_to!(n.map.entries@[i as int] => n.map.entries@[i as int].1));
        }
        let c = copy_trie(&n.map.entries[i].1);
        entries.push((k, c));
        i = i + 1;
    }
    let name = n.name.clone();
    let r = KeyTrieNode { name, map: KeyMap { entries }, is_sticky: n.is_sticky };
    assert(trie_equiv(KeyTrie::Node(*n), KeyTrie::Node(r)));
    r
}

impl KeyMap {
    /// The map with no key.
    pub fn new() -> (r: KeyMap)
        ensures
            r.entries@.len() == 0,
            entries_wf(r.entries@),
    {
        KeyMap { entries: Vec::new() }
    }

    /// What `k` leads to.
    pub open spec fn spec_get(&self, k: KeyEvent) -> Option<KeyTrie> {
        lookup(self.entries@, k)
    }

    /// The index of the entry for `k`, if any.
    fn find(&self, k: &KeyEvent) -> (r: Option<usize>)
        ensures
            match r {
                Some(i) => i < self.entries@.len() && self.entries@[i as int].0 == *k && lookup(
                    self.entries@,
                    *k,
                ) == Some(self.entries@[i as int].1) && forall|j: int|
                    0 <= j < i ==> (#[trigger] self.entries@[j]).0 != *k,
                None => lookup(self.entries@, *k) is None,
            },
    {
        let n = self.entries.len();
        let mut i: usize = 0;
        assert(self.entries@.subrange(0, n as int) =~= self.entries@);
        while i < n
            invariant
                i <= n,
                n == self.entries@.len(),
                lookup(self.entries@, *k) == lookup(self.entries@.subrange(i as int, n as int), *k),
                forall|j: int| 0 <= j < i ==> (#[trigger] self.entries@[j]).0 != *k,
            decreases n - i,
        {
            let ghost sub = self.entries@.subrange(i as int, n as int);
            assert(sub[0] == self.entries@[i as int]);
            if self.entries[i].0 == *k {
                return Some(i);
            }
            assert(sub.drop_first() =~= self.entries@.subrange(i + 1, n as int));
            i = i + 1;
        }
        None
    }

    /// What `k` leads to, if it is bound.
    pub fn get(&self, k: &KeyEvent) -> (r: Option<&KeyTrie>)
        ensures
            match r {
                Some(t) => self.spec_get(*k) == Some(*t),
                None => self.spec_get(*k) is None,
            },
    {
        match self.find(k) {
            Some(i) => Some(&self.entries[i].1),
            None => None,
        }
    }

    /// Whether `k` is bound.
    pub fn contains_key(&self, k: &KeyEvent) -> (r: bool)
        ensures
            r == self.spec_get(*k) is Some,
    {
        self.find(k).is_some()
    }

    /// Binds `k` to `t`, replacing what it was bound to.
    pub fn insert(&mut self, k: KeyEvent, t: KeyTrie)
        ensures
            final(self).spec_get(k) == Some(t),
            forall|j: KeyEvent| j != k ==> #[trigger] final(self).spec_get(j) == old(self).spec_get(j),
            final(self).entries@.len() == old(self).entries@.len() + if old(self).spec_get(k) is None {
                1int
            } else {
                0int
            },
            keys_distinct(old(self).entries@) ==> keys_distinct(final(self).entries@),
            entries_wf(old(self).entries@) && trie_wf(t) ==> entries_wf(final(self).entries@),
            entries_plain(old(self).entries@) && key_canonical(k) && trie_plain(t) ==> entries_plain(
                final(self).entries@,
            ),
    {
        match self.find(&k) {
            Some(i) => {
                let ghost before = self.entries@;
                self.entries.set(i, (k, t));
                proof {
                    lemma_lookup_update(before, i as int, k, t);
                }
            },
            None => {
                let ghost before = self.entries@;
                self.entries.push((k, t));
                proof {
                    lemma_lookup_push(before, k, t);
                    lemma_lookup_none(before, k);
                }
            },
        }
    }
}

/// Replacing the first entry of a key by another for the same key makes
/// the key lead to the new trie and changes nothing else.
proof fn lemma_lookup_update(e: Seq<(KeyEvent, KeyTrie)>, i: int, k: KeyEvent, t: KeyTrie)
    requires
        0 <= i < e.len(),
        e[i].0 == k,
        forall|j: int| 0 <= j < i ==> (#[trigger] e[j]).0 != k,
    ensures
        lookup(e.update(i, (k, t)), k) == Some(t),
        forall|j: KeyEvent| j != k ==> #[trigger] lookup(e.update(i, (k, t)), j) == lookup(e, j),
    decreases e.len(),
{
    let u = e.update(i, (k, t));
    assert(u[0] == if i == 0 { (k, t) } else { e[0] });
    if i == 0 {
        assert(u.drop_first() =~= e.drop_first());
        assert forall|j: KeyEvent| j != k implies #[trigger] lookup(u, j) == lookup(e, j) by {
            assert(u[0].0 != j && e[0].0 != j);
        }
    } else {
        let d = e.drop_first();
        assert forall|j: int| 0 <= j < i - 1 implies (#[trigger] d[j]).0 != k by {
            assert(d[j] == e[j + 1]);
        }
        assert(e[0].0 != k) by {
            assert(e[0] == e[0]);
        }
        lemma_lookup_update(d, i - 1, k, t);
        assert(u.drop_first() =~= d.update(i - 1, (k, t)));
        assert forall|j: KeyEvent| j != k implies #[trigger] lookup(u, j) == lookup(e, j) by {
            assert(lookup(d.update(i - 1, (k, t)), j) == lookup(d, j));
        }
    }
}

/// Adding an entry for a key that was unbound binds it and nothing else.
proof fn lemma_lookup_push(e: Seq<(KeyEvent, KeyTrie)>, k: KeyEvent, t: KeyTrie)
    requires
        lookup(e, k) is None,
    ensures
        lookup(e.push((k, t)), k) == Some(t),
        forall|j: KeyEvent| j != k ==> #[trigger] lookup(e.push((k, t)), j) == lookup(e, j),
    decreases e.len(),
{
    let p = e.push((k, t));
    if e.len() == 0 {
        assert(p.drop_first() =~= Seq::<(KeyEvent, KeyTrie)>::empty());
        assert forall|j: KeyEvent| j != k implies #[trigger] lookup(p, j) == lookup(e, j) by {
            assert(p[0].0 != j);
            assert(lookup(p.drop_first(), j) is None);
        }
    } else {
        assert(p.drop_first() =~= e.drop_first().push((k, t)));
        lemma_lookup_push(e.drop_first(), k, t);
        assert forall|j: KeyEvent| j != k implies #[trigger] lookup(p, j) == lookup(e, j) by {
            assert(p[0] == e[0]);
            assert(lookup(e.drop_first().push((k, t)), j) == lookup(e.drop_first(), j));
        }
    }
}

impl KeyTrieNode {
    /// An empty node with the given name, not sticky.
    pub fn new(name: &str) -> (r: KeyTrieNode)
        ensures
            r.name@ == name@,
            r.map.entries@.len() == 0,
            keys_distinct(r.map.entries@),
            entries_wf(r.map.entries@),
            !r.is_sticky,
    {
        KeyTrieNode { name: name.to_owned(), map: KeyMap::new(), is_sticky: false }
    }

    /// Binds `key` to `trie` in this node, replacing what it was bound to.
    pub fn insert(&mut self, key: KeyEvent, trie: KeyTrie)
        ensures
            final(self).map.spec_get(key) == Some(trie),
            forall|j: KeyEvent| j != key ==> #[trigger] final(self).map.spec_get(j) == old(self).map.spec_get(j),
            final(self).map.entries@.len() == old(self).map.entries@.len() + if old(self).map.spec_get(key) is None {
                1int
            } else {
                0int
            },
            keys_distinct(old(self).map.entries@) ==> keys_distinct(final(self).map.entries@),
            entries_wf(old(self).map.entries@) && trie_wf(trie) ==> entries_wf(final(self).map.entries@),
            entries_plain(old(self).map.entries@) && key_canonical(key) && trie_plain(trie)
                ==> entries_plain(final(self).map.entries@),
            final(self).name == old(self).name,
            final(self).is_sticky == old(self).is_sticky,
    {
        self.map.insert(key, trie);
    }
}

/// Where `keys` lead from the node `n`.
fn search_node<'a>(n: &'a KeyTrieNode, keys: &[KeyEvent]) -> (r: Option<&'a KeyTrie>)
    requires
        keys@.len() > 0,
    ensures
        match r {
            Some(t) => spec_search(KeyTrie::Node(*n), keys@) == Some(*t),
            None => spec_search(KeyTrie::Node(*n), keys@) is None,
        },
{
    let first = n.map.get(&keys[0]);
    let mut cur: &KeyTrie = match first {
        Some(c) => c,
        None => {
            return None;
        },
    };
    let mut i: usize = 1;
    assert(keys@.drop_first() =~= keys@.subrange(1, keys@.len() as int));
    while i < keys.len()
        invariant
            1 <= i <= keys@.len(),
            spec_search(KeyTrie::Node(*n), keys@) == spec_search(*cur, keys@.subrange(i as int, keys@.len() as int)),
        decreases keys.len() - i,
    {
        let ghost sub = keys@.subrange(i as int, keys@.len() as int);
        assert(sub[0] == keys@[i as int]);
        assert(sub.drop_first() =~= keys@.subrange(i + 1, keys@.len() as int));
        match cur {
            KeyTrie::Leaf(_) => {
                return None;
            },
            KeyTrie::Node(node) => {
                match node.map.get(&keys[i]) {
                    Some(c) => {
                        cur = c;
                    },
                    None => {
                        return None;
                    },
                }
            },
        }
        i = i + 1;
    }
    assert(keys@.subrange(i as int, keys@.len() as int) =~= Seq::<KeyEvent>::empty());
    Some(cur)
}

impl KeyTrie {
    /// The node, when this is not a leaf.
    pub fn node(&self) -> (r: Option<&KeyTrieNode>)
        ensures
            match r {
                Some(n) => *self == KeyTrie::Node(*n),
                None => self is Leaf,
            },
    {
        match self {
            KeyTrie::Node(n) => Some(n),
            KeyTrie::Leaf(_) => None,
        }
    }

    /// Where `keys` lead from this trie, without copying it.
    pub fn search_ref(&self, keys: &[KeyEvent]) -> (r: Option<&KeyTrie>)
        ensures
            match r {
                Some(t) => spec_search(*self, keys@) == Some(*t),
                None => spec_search(*self, keys@) is None,
            },
    {
        if keys.len() == 0 {
            return Some(self);
        }
        match self {
            KeyTrie::Leaf(_) => None,
            KeyTrie::Node(n) => search_node(n, keys),
        }
    }

    /// A copy of where `keys` lead from this trie: the trie itself for no
    /// key, `None` when a key is unbound or a leaf comes first.
    pub fn search(&self, keys: &[KeyEvent]) -> (r: Option<KeyTrie>)
        ensures
            match r {
                Some(t) => spec_search(*self, keys@) matches Some(u) && trie_equiv(u, t),
                None => spec_search(*self, keys@) is None,
            },
    {
        match self.search_ref(keys) {
            Some(t) => Some(copy_trie(t)),
            None => None,
        }
    }
}

/// What a key press came to.
#[derive(Debug, PartialEq, Eq)]
pub enum KeymapResult {
    /// The keys so far lead to this node; more keys are awaited.
    Pending(KeyTrieNode),
    /// The keys lead to this action.
    Matched(EditorAction),
    /// The key is bound to nothing.
    NotFound,
    /// The pending keys were dropped.
    Cancelled(Vec<KeyEvent>),
}

/// One trie per mode.
#[derive(Debug)]
pub struct ModeMap {
    pub normal: Option<KeyTrie>,
    pub select: Option<KeyTrie>,
    pub insert: Option<KeyTrie>,
}

impl ModeMap {
    /// The map with no trie.
    pub fn new() -> (r: ModeMap)
        ensures
            r.normal is None && r.select is None && r.insert is None,
    {
        ModeMap { normal: None, select: None, insert: None }
    }

    /// Whether every trie binds each key at most once at every node.
    pub open spec fn wf(&self) -> bool {
        &&& (self.normal matches Some(t) ==> trie_wf(t))
        &&& (self.select matches Some(t) ==> trie_wf(t))
        &&& (self.insert matches Some(t) ==> trie_wf(t))
    }

    /// The trie of a mode.
    pub open spec fn spec_get(&self, mode: Mode) -> Option<KeyTrie> {
        match mode {
            Mode::Normal => self.normal,
            Mode::Select => self.select,
            Mode::Insert => self.insert,
        }
    }

    /// The trie of a mode.
    pub fn get(&self, mode: &Mode) -> (r: Option<&KeyTrie>)
        ensures
            match r {
                Some(t) => self.spec_get(*mode) == Some(*t),
                None => self.spec_get(*mode) is None,
            },
    {
        match mode {
            Mode::Normal => self.normal.as_ref(),
            Mode::Select => self.select.as_ref(),
            Mode::Insert => self.insert.as_ref(),
        }
    }

    /// Whether a mode has a trie.
    pub fn contains_key(&self, mode: &Mode) -> (r: bool)
        ensures
            r == self.spec_get(*mode) is Some,
    {
        self.get(mode).is_some()
    }

    /// Sets the trie of a mode.
    pub fn insert(&mut self, mode: Mode, trie: KeyTrie)
        ensures
            final(self).spec_get(mode) == Some(trie),
            forall|m: Mode| m != mode ==> #[trigger] final(self).spec_get(m) == old(self).spec_get(m),
    {
        match mode {
            Mode::Normal => {
                self.normal = Some(trie);
            },
            Mode::Select => {
                self.select = Some(trie);
            },
            Mode::Insert => {
                self.insert = Some(trie);
            },
        }
    }
}

/// Whether a key cancels what is pending: Esc, or Control-g.
pub open spec fn is_cancel_key(key: KeyEvent) -> bool {
    key.code == KeyCode::Esc || (key.code == KeyCode::Char('g') && key.modifiers.control)
}

/// The texts of keys, one after another.
pub open spec fn keys_text(keys: Seq<KeyEvent>) -> Seq<char>
    decreases keys.len(),
{
    if keys.len() == 0 {
        Seq::empty()
    } else {
        keys_text(keys.drop_last()) + spec_key_text(keys.last())
    }
}

/// The tries of all modes, with the keys pressed so far and the sticky
/// node that is active, if any.
pub struct KeyTrieRoot {
    pub map: ModeMap,
    pub pending: Vec<KeyEvent>,
    pub sticky: Option<KeyTrieNode>,
}

/// A copy of a sequence of keys with one more key at its end.
fn keys_with(keys: &Vec<KeyEvent>, key: KeyEvent) -> (r: Vec<KeyEvent>)
    ensures
        r@ == keys@.push(key),
{
    let mut r: Vec<KeyEvent> = Vec::new();
    let mut i: usize = 0;
    while i < keys.len()
        invariant
            i <= keys@.len(),
            r@ == keys@.subrange(0, i as int),
        decreases keys.len() - i,
    {
        r.push(keys[i]);
        i = i + 1;
        assert(r@ =~= keys@.subrange(0, i as int));
    }
    r.push(key);
    assert(r@ =~= keys@.push(key));
    r
}

impl KeyTrieRoot {
    /// Whether the tries and the sticky node bind each key at most once at
    /// every node.
    pub open spec fn wf(&self) -> bool {
        &&& self.map.wf()
        &&& (self.sticky matches Some(n) ==> trie_wf(KeyTrie::Node(n)))
    }

    /// The keys pressed so far that lead to a node.
    pub open spec fn spec_pending(&self) -> Seq<KeyEvent> {
        self.pending@
    }

    /// A root over the given tries, with nothing pending and no sticky node.
    pub fn new(map: ModeMap) -> (r: KeyTrieRoot)
        ensures
            r.map == map,
            r.spec_pending().len() == 0,
            r.sticky is None,
            map.wf() ==> r.wf(),
    {
        KeyTrieRoot { map, pending: Vec::new(), sticky: None }
    }

    /// The keys pressed so far that lead to a node.
    pub fn pending(&self) -> (r: &[KeyEvent])
        ensures
            r@ == self.spec_pending(),
    {
        self.pending.as_slice()
    }


    /// What the status line shows of a pending key sequence: the pending
    /// keys' texts one after another and a dash; with none pending, the
    /// active sticky node's name in lowercase and a dash; else nothing.
    pub fn pending_prefix_string(&self) -> (r: String)
        ensures
            r@ == if self.spec_pending().len() > 0 {
                keys_text(self.spec_pending()) + "-"@
            } else if self.sticky is Some {
                unicode_str_to_lowercase(self.sticky->Some_0.name@) + "-"@
            } else {
                Seq::<char>::empty()
            },
    {
        let mut v: Vec<char> = Vec::new();
        if self.pending.len() > 0 {
            let mut i: usize = 0;
            while i < self.pending.len()
                invariant
                    i <= self.pending@.len(),
                    v@ == keys_text(self.pending@.subrange(0, i as int)),
                decreases self.pending.len() - i,
            {
                let t = key_text_chars(&self.pending[i]);
                push_all(&mut v, &t);
                let ghost sub = self.pending@.subrange(0, i + 1);
                assert(sub.drop_last() =~= self.pending@.subrange(0, i as int));
                i = i + 1;
            }
            assert(self.pending@.subrange(0, i as int) =~= self.pending@);
            push_str(&mut v, "-");
        } else if let Some(sticky) = &self.sticky {
            let lower = str_to_lowercase(sticky.name.as_str());
            push_str(&mut v, lower.as_str());
            push_str(&mut v, "-");
        } else {
            assert(v@ =~= Seq::<char>::empty());
        }
        string_from_chars(&v)
    }

    /// Drops the pending keys.
    pub fn clear_pending(&mut self)
        ensures
            final(self).spec_pending().len() == 0,
            final(self).map == old(self).map,
            final(self).sticky == old(self).sticky,
    {
        self.pending.clear();
    }

    /// Whether `key` is bound in the active sticky node or at the top of
    /// the trie of `mode`.
    pub fn contains_key(&self, mode: Mode, key: KeyEvent) -> (r: bool)
        ensures
            r == ((self.sticky matches Some(n) && n.map.spec_get(key) is Some) || (self.map.spec_get(
                mode,
            ) matches Some(KeyTrie::Node(n)) && n.map.spec_get(key) is Some)),
    {
        if let Some(sticky_node) = &self.sticky {
            if sticky_node.map.contains_key(&key) {
                return true;
            }
        }
        match self.map.get(&mode) {
            Some(KeyTrie::Node(node)) => node.map.contains_key(&key),
            _ => false,
        }
    }

    /// What looking up `key` in `mode` does: a cancel key drops the
    /// pending keys (or, with none, means going back to normal mode); any
    /// other key extends the pending keys from the sticky node or the
    /// mode's root, and the node reached stays pending (a sticky node
    /// becomes the sticky node), an action is matched, or nothing is
    /// bound: pending keys are then dropped and returned as `Cancelled`,
    /// and a lone key is `NotFound`.
    pub open spec fn trie_step(old: KeyTrieRoot, new: KeyTrieRoot, mode: Mode, key: KeyEvent, r: KeymapResult) -> bool {
        let p = old.spec_pending();
        let st = old.sticky;
        let fp = new.spec_pending();
        let fs = new.sticky;
        if is_cancel_key(key) {
            if p.len() > 0 {
                &&& r matches KeymapResult::Cancelled(v) && v@ == p
                &&& fp.len() == 0
                &&& fs == st
            } else {
                &&& r == KeymapResult::Matched(EditorAction::ExitToNormal)
                &&& fp.len() == 0
                &&& fs is None
            }
        } else {
            match old.map.spec_get(mode) {
                None => r == KeymapResult::NotFound && fp == p && fs == st,
                Some(root) => {
                    let start = match st {
                        Some(n) => KeyTrie::Node(n),
                        None => root,
                    };
                    let keys = p.push(key);
                    match spec_search(start, keys) {
                        Some(KeyTrie::Node(n)) => {
                            &&& r matches KeymapResult::Pending(m) && node_equiv(n, m)
                            &&& if n.is_sticky {
                                &&& fp.len() == 0
                                &&& fs matches Some(s) && node_equiv(n, s)
                            } else {
                                fp == keys && fs == st
                            }
                        },
                        Some(KeyTrie::Leaf(a)) => {
                            &&& r == KeymapResult::Matched(a)
                            &&& fp.len() == 0
                            &&& fs == st
                        },
                        None => if p.len() > 0 {
                            &&& r matches KeymapResult::Cancelled(v) && v@ == keys
                            &&& fp.len() == 0
                            &&& fs == st
                        } else {
                            &&& r == KeymapResult::NotFound
                            &&& fp == p
                            &&& fs == st
                        },
                    }
                },
            }
        }
    }

    /// Feeds a key press in `mode` through the tries.
    ///
    /// Esc and Control-g cancel: pending keys are dropped and returned as
    /// `Cancelled`; with none pending, the sticky node is dropped and the
    /// answer is `Matched(ExitToNormal)`. Otherwise, in a mode without a
    /// trie nothing is found. Otherwise the pending keys and this one are
    /// searched from the sticky node if one is active, else from the mode's
    /// trie: a node is `Pending` (and becomes the sticky node if it is
    /// sticky, else the keys stay pending), an action is `Matched` and
    /// clears the pending keys; when nothing is bound, pending keys are
    /// dropped and returned as `Cancelled`, and a lone key is `NotFound`.
    pub fn get(&mut self, mode: Mode, key: KeyEvent) -> (r: KeymapResult)
        ensures
            final(self).map == old(self).map,
            old(self).wf() ==> final(self).wf(),
            old(self).wf() ==> (r matches KeymapResult::Pending(m) ==> trie_wf(KeyTrie::Node(m))),
            Self::trie_step(*old(self), *final(self), mode, key, r),
    {
        let is_cancel = key.code == KeyCode::Esc || (key.code == KeyCode::Char('g')
            && key.modifiers.contains(KeyModifiers::control()));
        if is_cancel {
            if self.pending.len() > 0 {
                let mut cancelled: Vec<KeyEvent> = Vec::new();
                std::mem::swap(&mut cancelled, &mut self.pending);
                return KeymapResult::Cancelled(cancelled);
            }
            if self.sticky.is_some() {
                self.sticky = None;
            }
            return KeymapResult::Matched(EditorAction::ExitToNormal);
        }
        let keys = keys_with(&self.pending, key);
        let found: Option<KeyTrie> = {
            let root = match self.map.get(&mode) {
                Some(r) => r,
                None => {
                    return KeymapResult::NotFound;
                },
            };
            let hit = match &self.sticky {
                Some(n) => search_node(n, keys.as_slice()),
                None => root.search_ref(keys.as_slice()),
            };
            match hit {
                Some(t) => Some(copy_trie(t)),
                None => None,
            }
        };
        let had_pending = self.pending.len() > 0;
        proof {
            if old(self).wf() {
                let start = match old(self).sticky {
                    Some(sn) => KeyTrie::Node(sn),
                    None => old(self).map.spec_get(mode)->Some_0,
                };
                lemma_search_wf(start, keys@);
                if let Some(t) = spec_search(start, keys@) {
                    lemma_equiv_wf(t, found->Some_0);
                }
            }
        }
        match found {
            Some(KeyTrie::Node(n)) => {
                if n.is_sticky {
                    self.pending.clear();
                    let s = copy_node(&n);
                    proof {
                        let start = match old(self).sticky {
                            Some(sn) => KeyTrie::Node(sn),
                            None => old(self).map.spec_get(mode)->Some_0,
                        };
                        let t = spec_search(start, keys@)->Some_0;
                        lemma_trie_equiv_trans(t, KeyTrie::Node(n), KeyTrie::Node(s));
                        if old(self).wf() {
                            lemma_equiv_wf(KeyTrie::Node(n), KeyTrie::Node(s));
                        }
                    }
                    self.sticky = Some(s);
                } else {
                    self.pending = keys;
                }
                KeymapResult::Pending(n)
            },
            Some(KeyTrie::Leaf(act)) => {
                self.pending.clear();
                KeymapResult::Matched(act)
            },
            None => {
                if had_pending {
                    self.pending.clear();
                    KeymapResult::Cancelled(keys)
                } else {
                    KeymapResult::NotFound
                }
            },
        }
    }
}

impl Clone for KeyTrie {
    fn clone(&self) -> (r: KeyTrie)
        ensures
            trie_equiv(*self, r),
    {
        copy_trie(self)
    }
}

impl Clone for KeyTrieNode {
    fn clone(&self) -> (r: KeyTrieNode)
        ensures
            node_equiv(*self, r),
    {
        copy_node(self)
    }
}

/// The goto node of the compact keymap: `g` moves left, `e` to the word end.
pub open spec fn is_compact_goto_node(n: KeyTrieNode) -> bool {
    &&& n.name@ == "Goto"@
    &&& !n.is_sticky
    &&& n.map.entries@.len() == 2
    &&& entries_wf(n.map.entries@)
    &&& n.map.spec_get(char_key('g')) == Some(KeyTrie::Leaf(EditorAction::MoveLeft))
    &&& n.map.spec_get(char_key('e')) == Some(KeyTrie::Leaf(EditorAction::MoveWordEnd))
}

/// The normal mode trie of the compact keymap.
pub open spec fn is_compact_normal_node(n: KeyTrieNode) -> bool {
    &&& n.name@ == "Normal mode"@
    &&& !n.is_sticky
    &&& n.map.entries@.len() == 27
    &&& entries_wf(n.map.entries@)
    &&& n.map.spec_get(char_key('h')) == Some(KeyTrie::Leaf(EditorAction::MoveLeft))
    &&& n.map.spec_get(char_key('j')) == Some(KeyTrie::Leaf(EditorAction::MoveDown))
    &&& n.map.spec_get(char_key('k')) == Some(KeyTrie::Leaf(EditorAction::MoveUp))
    &&& n.map.spec_get(char_key('l')) == Some(KeyTrie::Leaf(EditorAction::MoveRight))
    &&& n.map.spec_get(char_key('w')) == Some(KeyTrie::Leaf(EditorAction::MoveWordForward))
    &&& n.map.spec_get(char_key('b')) == Some(KeyTrie::Leaf(EditorAction::MoveWordBackward))
    &&& n.map.spec_get(char_key('e')) == Some(KeyTrie::Leaf(EditorAction::MoveWordEnd))
    &&& n.map.spec_get(char_key('x')) == Some(KeyTrie::Leaf(EditorAction::SelectLine))
    &&& n.map.spec_get(char_key('i')) == Some(KeyTrie::Leaf(EditorAction::EnterInsert))
    &&& n.map.spec_get(char_key('I')) == Some(KeyTrie::Leaf(EditorAction::InsertAtLineStart))
    &&& n.map.spec_get(char_key('a')) == Some(KeyTrie::Leaf(EditorAction::EnterInsertAfter))
    &&& n.map.spec_get(char_key('A')) == Some(KeyTrie::Leaf(EditorAction::InsertAtLineEnd))
    &&& n.map.spec_get(char_key('v')) == Some(KeyTrie::Leaf(EditorAction::EnterSelect))
    &&& n.map.spec_get(char_key('d')) == Some(KeyTrie::Leaf(EditorAction::DeleteSelection))
    &&& n.map.spec_get(char_key('c')) == Some(KeyTrie::Leaf(EditorAction::ChangeSelection))
    &&& n.map.spec_get(char_key('y')) == Some(KeyTrie::Leaf(EditorAction::YankSelection))
    &&& n.map.spec_get(char_key('p')) == Some(KeyTrie::Leaf(EditorAction::PasteAfter))
    &&& n.map.spec_get(char_key('u')) == Some(KeyTrie::Leaf(EditorAction::Undo))
    &&& n.map.spec_get(char_key('U')) == Some(KeyTrie::Leaf(EditorAction::Redo))
    &&& n.map.spec_get(char_key('"')) == Some(KeyTrie::Leaf(EditorAction::SelectRegister))
    &&& n.map.spec_get(char_key('g')) matches Some(KeyTrie::Node(c)) && is_compact_goto_node(c)
    &&& n.map.spec_get(char_key('m')) matches Some(KeyTrie::Node(c)) && is_match_node(c)
    &&& n.map.spec_get(char_key(' ')) matches Some(KeyTrie::Node(c)) && is_space_node(c)
    &&& n.map.spec_get(plain_key(KeyCode::Left)) == Some(KeyTrie::Leaf(EditorAction::MoveLeft))
    &&& n.map.spec_get(plain_key(KeyCode::Right)) == Some(KeyTrie::Leaf(EditorAction::MoveRight))
    &&& n.map.spec_get(plain_key(KeyCode::Up)) == Some(KeyTrie::Leaf(EditorAction::MoveUp))
    &&& n.map.spec_get(plain_key(KeyCode::Down)) == Some(KeyTrie::Leaf(EditorAction::MoveDown))
}

/// The select mode trie of the compact keymap.
pub open spec fn is_compact_select_node(n: KeyTrieNode) -> bool {
    &&& n.name@ == "Select mode"@
    &&& !n.is_sticky
    &&& n.map.entries@.len() == 20
    &&& entries_wf(n.map.entries@)
    &&& n.map.spec_get(char_key('h')) == Some(KeyTrie::Leaf(EditorAction::MoveLeft))
    &&& n.map.spec_get(char_key('j')) == Some(KeyTrie::Leaf(EditorAction::MoveDown))
    &&& n.map.spec_get(char_key('k')) == Some(KeyTrie::Leaf(EditorAction::MoveUp))
    &&& n.map.spec_get(char_key('l')) == Some(KeyTrie::Leaf(EditorAction::MoveRight))
    &&& n.map.spec_get(char_key('w')) == Some(KeyTrie::Leaf(EditorAction::MoveWordForward))
    &&& n.map.spec_get(char_key('b')) == Some(KeyTrie::Leaf(EditorAction::MoveWordBackward))
    &&& n.map.spec_get(char_key('e')) == Some(KeyTrie::Leaf(EditorAction::MoveWordEnd))
    &&& n.map.spec_get(char_key('x')) == Some(KeyTrie::Leaf(EditorAction::SelectLine))
    &&& n.map.spec_get(char_key('I')) == Some(KeyTrie::Leaf(EditorAction::InsertAtLineStart))
    &&& n.map.spec_get(char_key('A')) == Some(KeyTrie::Leaf(EditorAction::InsertAtLineEnd))
    &&& n.map.spec_get(char_key('d')) == Some(KeyTrie::Leaf(EditorAction::DeleteSelection))
    &&& n.map.spec_get(char_key('c')) == Some(KeyTrie::Leaf(EditorAction::ChangeSelection))
    &&& n.map.spec_get(char_key('y')) == Some(KeyTrie::Leaf(EditorAction::YankSelection))
    &&& n.map.spec_get(char_key('"')) == Some(KeyTrie::Leaf(EditorAction::SelectRegister))
    &&& n.map.spec_get(plain_key(KeyCode::Left)) == Some(KeyTrie::Leaf(EditorAction::MoveLeft))
    &&& n.map.spec_get(plain_key(KeyCode::Right)) == Some(KeyTrie::Leaf(EditorAction::MoveRight))
    &&& n.map.spec_get(plain_key(KeyCode::Up)) == Some(KeyTrie::Leaf(EditorAction::MoveUp))
    &&& n.map.spec_get(plain_key(KeyCode::Down)) == Some(KeyTrie::Leaf(EditorAction::MoveDown))
    &&& n.map.spec_get(char_key('m')) matches Some(KeyTrie::Node(c)) && is_match_node(c)
    &&& n.map.spec_get(char_key(' ')) matches Some(KeyTrie::Node(c)) && is_space_node(c)
}

/// The goto node of the compact keymap.
fn compact_goto_node() -> (r: KeyTrieNode)
    ensures
        is_compact_goto_node(r),
        trie_plain(KeyTrie::Node(r)),
{
    let mut goto_node = KeyTrieNode::new("Goto");
    goto_node.insert(KeyEvent::char('g'), KeyTrie::Leaf(EditorAction::MoveLeft));
    goto_node.insert(KeyEvent::char('e'), KeyTrie::Leaf(EditorAction::MoveWordEnd));
    goto_node
}

/// The normal mode trie of the compact keymap.
fn compact_normal_node() -> (r: KeyTrieNode)
    ensures
        is_compact_normal_node(r),
        trie_plain(KeyTrie::Node(r)),
{
    let mut normal = KeyTrieNode::new("Normal mode");
    normal.insert(KeyEvent::char('h'), KeyTrie::Leaf(EditorAction::MoveLeft));
    normal.insert(KeyEvent::char('j'), KeyTrie::Leaf(EditorAction::MoveDown));
    normal.insert(KeyEvent::char('k'), KeyTrie::Leaf(EditorAction::MoveUp));
    normal.insert(KeyEvent::char('l'), KeyTrie::Leaf(EditorAction::MoveRight));
    normal.insert(KeyEvent::char('w'), KeyTrie::Leaf(EditorAction::MoveWordForward));
    normal.insert(KeyEvent::char('b'), KeyTrie::Leaf(EditorAction::MoveWordBackward));
    normal.insert(KeyEvent::char('e'), KeyTrie::Leaf(EditorAction::MoveWordEnd));
    normal.insert(KeyEvent::char('x'), KeyTrie::Leaf(EditorAction::SelectLine));
    normal.insert(KeyEvent::char('i'), KeyTrie::Leaf(EditorAction::EnterInsert));
    normal.insert(KeyEvent::char('I'), KeyTrie::Leaf(EditorAction::InsertAtLineStart));
    normal.insert(KeyEvent::char('a'), KeyTrie::Leaf(EditorAction::EnterInsertAfter));
    normal.insert(KeyEvent::char('A'), KeyTrie::Leaf(EditorAction::InsertAtLineEnd));
    normal.insert(KeyEvent::char('v'), KeyTrie::Leaf(EditorAction::EnterSelect));
    normal.insert(KeyEvent::char('d'), KeyTrie::Leaf(EditorAction::DeleteSelection));
    normal.insert(KeyEvent::char('c'), KeyTrie::Leaf(EditorAction::ChangeSelection));
    normal.insert(KeyEvent::char('y'), KeyTrie::Leaf(EditorAction::YankSelection));
    normal.insert(KeyEvent::char('p'), KeyTrie::Leaf(EditorAction::PasteAfter));
    normal.insert(KeyEvent::char('u'), KeyTrie::Leaf(EditorAction::Undo));
    normal.insert(KeyEvent::char('U'), KeyTrie::Leaf(EditorAction::Redo));
    normal.insert(KeyEvent::char('"'), KeyTrie::Leaf(EditorAction::SelectRegister));
    normal.insert(KeyEvent::char('g'), KeyTrie::Node(compact_goto_node()));
    normal.insert(KeyEvent::char('m'), KeyTrie::Node(build_match_node()));
    normal.insert(KeyEvent { code: KeyCode::Char(' '), modifiers: KeyModifiers::empty() }, KeyTrie::Node(build_space_node()));
    normal.insert(KeyEvent::new(KeyCode::Left, KeyModifiers::empty()), KeyTrie::Leaf(EditorAction::MoveLeft));
    normal.insert(KeyEvent::new(KeyCode::Right, KeyModifiers::empty()), KeyTrie::Leaf(EditorAction::MoveRight));
    normal.insert(KeyEvent::new(KeyCode::Up, KeyModifiers::empty()), KeyTrie::Leaf(EditorAction::MoveUp));
    normal.insert(KeyEvent::new(KeyCode::Down, KeyModifiers::empty()), KeyTrie::Leaf(EditorAction::MoveDown));
    normal
}

/// The select mode trie of the compact keymap.
fn compact_select_node() -> (r: KeyTrieNode)
    ensures
        is_compact_select_node(r),
        trie_plain(KeyTrie::Node(r)),
{
    let mut select = KeyTrieNode::new("Select mode");
    select.insert(KeyEvent::char('h'), KeyTrie::Leaf(EditorAction::MoveLeft));
    select.insert(KeyEvent::char('j'), KeyTrie::Leaf(EditorAction::MoveDown));
    select.insert(KeyEvent::char('k'), KeyTrie::Leaf(EditorAction::MoveUp));
    select.insert(KeyEvent::char('l'), KeyTrie::Leaf(EditorAction::MoveRight));
    select.insert(KeyEvent::char('w'), KeyTrie::Leaf(EditorAction::MoveWordForward));
    select.insert(KeyEvent::char('b'), KeyTrie::Leaf(EditorAction::MoveWordBackward));
    select.insert(KeyEvent::char('e'), KeyTrie::Leaf(EditorAction::MoveWordEnd));
    select.insert(KeyEvent::char('x'), KeyTrie::Leaf(EditorAction::SelectLine));
    select.insert(KeyEvent::char('I'), KeyTrie::Leaf(EditorAction::InsertAtLineStart));
    select.insert(KeyEvent::char('A'), KeyTrie::Leaf(EditorAction::InsertAtLineEnd));
    select.insert(KeyEvent::char('d'), KeyTrie::Leaf(EditorAction::DeleteSelection));
    select.insert(KeyEvent::char('c'), KeyTrie::Leaf(EditorAction::ChangeSelection));
    select.insert(KeyEvent::char('y'), KeyTrie::Leaf(EditorAction::YankSelection));
    select.insert(KeyEvent::char('"'), KeyTrie::Leaf(EditorAction::SelectRegister));
    select.insert(KeyEvent::new(KeyCode::Left, KeyModifiers::empty()), KeyTrie::Leaf(EditorAction::MoveLeft));
    select.insert(KeyEvent::new(KeyCode::Right, KeyModifiers::empty()), KeyTrie::Leaf(EditorAction::MoveRight));
    select.insert(KeyEvent::new(KeyCode::Up, KeyModifiers::empty()), KeyTrie::Leaf(EditorAction::MoveUp));
    select.insert(KeyEvent::new(KeyCode::Down, KeyModifiers::empty()), KeyTrie::Leaf(EditorAction::MoveDown));
    select.insert(KeyEvent::char('m'), KeyTrie::Node(build_match_node()));
    select.insert(KeyEvent { code: KeyCode::Char(' '), modifiers: KeyModifiers::empty() }, KeyTrie::Node(build_space_node()));
    select
}

/// The compact keymap: the motions, inserts, edits, undo and redo, the
/// `m` and space prefixes, and a goto prefix with `g g` moving left and
/// `g e` to the word end; insert mode binds no key; select mode has the
/// motions and edits.
pub fn default_keymap() -> (r: ModeMap)
    ensures
        r.normal matches Some(KeyTrie::Node(n)) && is_compact_normal_node(n),
        r.insert matches Some(KeyTrie::Node(n)) && is_insert_node(n),
        r.select matches Some(KeyTrie::Node(n)) && is_compact_select_node(n),
        r.wf(),
        r.normal matches Some(t) && trie_plain(t),
        r.insert matches Some(t) && trie_plain(t),
        r.select matches Some(t) && trie_plain(t),
{
    let mut m = ModeMap::new();
    m.normal = Some(KeyTrie::Node(compact_normal_node()));
    m.insert = Some(KeyTrie::Node(KeyTrieNode::new("Insert mode")));
    m.select = Some(KeyTrie::Node(compact_select_node()));
    m
}

} // verus!
