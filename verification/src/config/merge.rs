//! Layering of configuration values: a later TOML value merged into an
//! earlier one, tables key by key and arrays item by item (items matched by
//! their `name`), to a limited depth.

use vstd::prelude::*;
use crate::config::editor::str_eq;

verus! {

/// A TOML value as the merge reads it. Floats and date-times, which the
/// merge only carries, are held by a handle that the caller keeps.
#[derive(Debug, PartialEq)]
pub enum TomlValue {
    String(String),
    Integer(i64),
    Boolean(bool),
    Opaque(u64),
    Array(Vec<TomlValue>),
    Table(Vec<(String, TomlValue)>),
}

/// The mathematical form of a `TomlValue`: strings as character
/// sequences, arrays and tables as sequences.
pub enum TomlTree {
    String(Seq<char>),
    Integer(i64),
    Boolean(bool),
    Opaque(u64),
    Array(Seq<TomlTree>),
    Table(Seq<(Seq<char>, TomlTree)>),
}

impl TomlValue {
    /// This value as a `TomlTree`.
    pub open spec fn tree(self) -> TomlTree
        decreases self,
    {
        match self {
            TomlValue::String(s) => TomlTree::String(s@),
            TomlValue::Integer(i) => TomlTree::Integer(i),
            TomlValue::Boolean(b) => TomlTree::Boolean(b),
            TomlValue::Opaque(h) => TomlTree::Opaque(h),
            TomlValue::Array(v) => TomlTree::Array(Seq::new(v@.len(), |i: int| if 0 <= i < v@.len() { v@[i].tree() } else { TomlTree::Boolean(false) })),
            TomlValue::Table(t) => TomlTree::Table(Seq::new(t@.len(), |i: int| if 0 <= i < t@.len() { (t@[i].0@, t@[i].1.tree()) } else { (Seq::empty(), TomlTree::Boolean(false)) })),
        }
    }
}

/// The trees of a sequence of values.
pub open spec fn trees(v: Seq<TomlValue>) -> Seq<TomlTree> {
    Seq::new(v.len(), |i: int| v[i].tree())
}

/// The entries of a table, as keys and trees.
pub open spec fn entries(t: Seq<(String, TomlValue)>) -> Seq<(Seq<char>, TomlTree)> {
    Seq::new(t.len(), |i: int| (t[i].0@, t[i].1.tree()))
}

/// The key under which an array item names itself.
pub open spec fn name_key() -> Seq<char> {
    seq!['n', 'a', 'm', 'e']
}

/// Whether `p` is the first entry of `t` under `key`.
pub open spec fn is_first_key(t: Seq<(Seq<char>, TomlTree)>, key: Seq<char>, p: int) -> bool {
    &&& 0 <= p < t.len()
    &&& t[p].0 == key
    &&& forall|q: int| 0 <= q < p ==> (#[trigger] t[q]).0 != key
}

/// The name of a value: the string under `name` when it is a table whose
/// first `name` entry holds a string.
pub open spec fn name_of(v: TomlTree) -> Option<Seq<char>> {
    match v {
        TomlTree::Table(t) => if exists|p: int| is_first_key(t, name_key(), p) {
            match t[choose|p: int| is_first_key(t, name_key(), p)].1 {
                TomlTree::String(s) => Some(s),
                _ => None,
            }
        } else {
            None
        },
        _ => None,
    }
}

/// Whether `p` is the first item of `acc` named `n`.
pub open spec fn is_first_named(acc: Seq<TomlTree>, n: Seq<char>, p: int) -> bool {
    &&& 0 <= p < acc.len()
    &&& name_of(acc[p]) == Some(n)
    &&& forall|q: int| 0 <= q < p ==> name_of(#[trigger] acc[q]) != Some(n)
}

/// `right` merged into `left` to `depth` levels: two arrays item by item
/// (`merged_items`), two tables entry by entry (`merged_entries`); at depth
/// 0, or when the two are not both arrays or both tables, `right`.
pub open spec fn merged(left: TomlTree, right: TomlTree, depth: nat) -> TomlTree
    decreases depth, 1nat, 0nat,
{
    if depth == 0 {
        right
    } else {
        match (left, right) {
            (TomlTree::Array(l), TomlTree::Array(r)) => TomlTree::Array(merged_items(l, r, depth)),
            (TomlTree::Table(l), TomlTree::Table(r)) => TomlTree::Table(merged_entries(l, r, depth)),
            (_, v) => v,
        }
    }
}

/// The items of `r` merged, in order, into the items `l`: an item with a
/// name takes out the first item of the same name gathered so far and is
/// appended merged into it, one level deeper; any other item is appended.
pub open spec fn merged_items(l: Seq<TomlTree>, r: Seq<TomlTree>, depth: nat) -> Seq<TomlTree>
    decreases depth, 0nat, r.len(),
{
    if r.len() == 0 || depth == 0 {
        l
    } else {
        let acc = merged_items(l, r.drop_last(), depth);
        let rv = r.last();
        match name_of(rv) {
            Some(n) => if exists|p: int| is_first_named(acc, n, p) {
                let p = choose|p: int| is_first_named(acc, n, p);
                acc.remove(p).push(merged(acc[p], rv, (depth - 1) as nat))
            } else {
                acc.push(rv)
            },
            None => acc.push(rv),
        }
    }
}

/// The entries of `r` merged, in order, into the entries `l`: an entry
/// whose key is already there takes that entry out and is appended with
/// the two values merged one level deeper; any other entry is appended.
pub open spec fn merged_entries(l: Seq<(Seq<char>, TomlTree)>, r: Seq<(Seq<char>, TomlTree)>, depth: nat) -> Seq<(Seq<char>, TomlTree)>
    decreases depth, 0nat, r.len(),
{
    if r.len() == 0 || depth == 0 {
        l
    } else {
        let acc = merged_entries(l, r.drop_last(), depth);
        let re = r.last();
        if exists|p: int| is_first_key(acc, re.0, p) {
            let p = choose|p: int| is_first_key(acc, re.0, p);
            acc.remove(p).push((re.0, merged(acc[p].1, re.1, (depth - 1) as nat)))
        } else {
            acc.push(re)
        }
    }
}

proof fn lemma_array_tree(v: Vec<TomlValue>)
    ensures
        TomlValue::Array(v).tree() == TomlTree::Array(trees(v@)),
{
    let t = TomlValue::Array(v).tree();
    assert(t->Array_0 =~= trees(v@));
}

proof fn lemma_table_tree(t: Vec<(String, TomlValue)>)
    ensures
        TomlValue::Table(t).tree() == TomlTree::Table(entries(t@)),
{
    let e = TomlValue::Table(t).tree();
    assert(e->Table_0 =~= entries(t@));
}

proof fn lemma_first_named_unique(acc: Seq<TomlTree>, n: Seq<char>, p: int, q: int)
    requires
        is_first_named(acc, n, p),
        is_first_named(acc, n, q),
    ensures
        p == q,
{
    if p < q {
        assert(name_of(acc[p]) != Some(n));
    } else if q < p {
        assert(name_of(acc[q]) != Some(n));
    }
}

proof fn lemma_first_key_unique(t: Seq<(Seq<char>, TomlTree)>, key: Seq<char>, p: int, q: int)
    requires
        is_first_key(t, key, p),
        is_first_key(t, key, q),
    ensures
        p == q,
{
    if p < q {
        assert(t[p].0 != key);
    } else if q < p {
        assert(t[q].0 != key);
    }
}

/// Whether `k` is the key `name`.
fn is_name_key(k: &String) -> (r: bool)
    ensures
        r == (k@ == name_key()),
{
    let r = str_eq(k.as_str(), "name");
    proof {
        reveal_strlit("name");
        assert("name"@ =~= name_key());
    }
    r
}

/// The name of `v` (see `name_of`).
fn name_of_value(v: &TomlValue) -> (r: Option<&String>)
    ensures
        match r {
            Some(s) => name_of(v.tree()) == Some(s@),
            None => name_of(v.tree()) is None,
        },
{
    match v {
        TomlValue::Table(t) => {
            proof {
                lemma_table_tree(*t);
            }
            let ghost e = entries(t@);
            let mut i: usize = 0;
            while i < t.len()
                invariant
                    i <= t@.len(),
                    e == entries(t@),
                    v.tree() == TomlTree::Table(e),
                    forall|q: int| 0 <= q < i ==> (#[trigger] e[q]).0 != name_key(),
                decreases t.len() - i,
            {
                if is_name_key(&t[i].0) {
                    proof {
                        assert(is_first_key(e, name_key(), i as int));
                        let c = choose|p: int| is_first_key(e, name_key(), p);
                        lemma_first_key_unique(e, name_key(), i as int, c);
                    }
                    return match &t[i].1 {
                        TomlValue::String(s) => Some(s),
                        _ => None,
                    };
                }
                i = i + 1;
            }
            proof {
                assert forall|p: int| !is_first_key(e, name_key(), p) by {
                    if 0 <= p < e.len() {
                        assert(e[p].0 != name_key());
                    }
                }
            }
            None
        },
        _ => None,
    }
}

/// The first item of `acc` named `n`.
fn first_named(acc: &Vec<TomlValue>, n: &String) -> (r: Option<usize>)
    ensures
        match r {
            Some(p) => is_first_named(trees(acc@), n@, p as int),
            None => !exists|p: int| is_first_named(trees(acc@), n@, p),
        },
{
    let ghost a = trees(acc@);
    let mut i: usize = 0;
    while i < acc.len()
        invariant
            i <= acc@.len(),
            a == trees(acc@),
            forall|q: int| 0 <= q < i ==> name_of(#[trigger] a[q]) != Some(n@),
        decreases acc.len() - i,
    {
        match name_of_value(&acc[i]) {
            Some(m) => {
                if str_eq(m.as_str(), n.as_str()) {
                    return Some(i);
                }
            },
            None => {},
        }
        i = i + 1;
    }
    proof {
        assert forall|p: int| !is_first_named(a, n@, p) by {
            if 0 <= p < a.len() {
                assert(name_of(a[p]) != Some(n@));
            }
        }
    }
    None
}

/// The first entry of `acc` under `key`.
fn first_key(acc: &Vec<(String, TomlValue)>, key: &String) -> (r: Option<usize>)
    ensures
        match r {
            Some(p) => is_first_key(entries(acc@), key@, p as int),
            None => !exists|p: int| is_first_key(entries(acc@), key@, p),
        },
{
    let ghost e = entries(acc@);
    let mut i: usize = 0;
    while i < acc.len()
        invariant
            i <= acc@.len(),
            e == entries(acc@),
            forall|q: int| 0 <= q < i ==> (#[trigger] e[q]).0 != key@,
        decreases acc.len() - i,
    {
        if str_eq(acc[i].0.as_str(), key.as_str()) {
            return Some(i);
        }
        i = i + 1;
    }
    proof {
        assert forall|p: int| !is_first_key(e, key@, p) by {
            if 0 <= p < e.len() {
                assert(e[p].0 != key@);
            }
        }
    }
    None
}

/// The items of `r` merged into `l` (see `merged_items`).
fn merge_items(l: Vec<TomlValue>, r: Vec<TomlValue>, depth: usize) -> (out: Vec<TomlValue>)
    requires
        depth > 0,
    ensures
        trees(out@) == merged_items(trees(l@), trees(r@), depth as nat),
    decreases depth, 0nat,
{
    let ghost r0 = r@;
    let ghost lt = trees(l@);
    let ghost rt = trees(r@);
    let mut acc = l;
    let mut rest = r;
    let ghost mut k: int = 0;
    proof {
        assert(rt.take(0) =~= Seq::<TomlTree>::empty());
        assert(rest@ =~= r0.skip(0));
    }
    while rest.len() > 0
        invariant
            depth > 0,
            0 <= k <= r0.len(),
            rt == trees(r0),
            rest@ == r0.skip(k),
            trees(acc@) == merged_items(lt, rt.take(k), depth as nat),
        decreases rest.len(),
    {
        let ghost before = trees(acc@);
        let rv = rest.remove(0);
        assert(rv == r0[k]);
        let pos: Option<usize> = match name_of_value(&rv) {
            Some(n) => first_named(&acc, n),
            None => None,
        };
        let ghost nm = name_of(rv.tree());
        match pos {
            Some(p) => {
                let ghost lv0 = acc@[p as int];
                let lv = acc.remove(p);
                let m = merge_toml_values(lv, rv, depth - 1);
                acc.push(m);
                proof {
                    let n = nm->0;
                    let c = choose|q: int| is_first_named(before, n, q);
                    lemma_first_named_unique(before, n, p as int, c);
                    assert(trees(acc@) =~= before.remove(p as int).push(merged(before[p as int], rt[k], (depth - 1) as nat)));
                }
            },
            None => {
                acc.push(rv);
                proof {
                    assert(trees(acc@) =~= before.push(rt[k]));
                }
            },
        }
        proof {
            assert(rt.take(k + 1).drop_last() =~= rt.take(k));
            assert(rt.take(k + 1).last() == rt[k]);
            k = k + 1;
            assert(rest@ =~= r0.skip(k));
        }
    }
    proof {
        assert(rt.take(k) =~= rt);
    }
    acc
}

/// The entries of `r` merged into `l` (see `merged_entries`).
fn merge_entries(l: Vec<(String, TomlValue)>, r: Vec<(String, TomlValue)>, depth: usize) -> (out: Vec<(String, TomlValue)>)
    requires
        depth > 0,
    ensures
        entries(out@) == merged_entries(entries(l@), entries(r@), depth as nat),
    decreases depth, 0nat,
{
    let ghost r0 = r@;
    let ghost lt = entries(l@);
    let ghost rt = entries(r@);
    let mut acc = l;
    let mut rest = r;
    let ghost mut k: int = 0;
    proof {
        assert(rt.take(0) =~= Seq::<(Seq<char>, TomlTree)>::empty());
        assert(rest@ =~= r0.skip(0));
    }
    while rest.len() > 0
        invariant
            depth > 0,
            0 <= k <= r0.len(),
            rt == entries(r0),
            rest@ == r0.skip(k),
            entries(acc@) == merged_entries(lt, rt.take(k), depth as nat),
        decreases rest.len(),
    {
        let ghost before = entries(acc@);
        let (rk, rv) = rest.remove(0);
        assert(rk == r0[k].0 && rv == r0[k].1);
        match first_key(&acc, &rk) {
            Some(p) => {
                let (_, lv) = acc.remove(p);
                let m = merge_toml_values(lv, rv, depth - 1);
                acc.push((rk, m));
                proof {
                    let c = choose|q: int| is_first_key(before, rt[k].0, q);
                    lemma_first_key_unique(before, rt[k].0, p as int, c);
                    assert(entries(acc@) =~= before.remove(p as int).push((rt[k].0, merged(before[p as int].1, rt[k].1, (depth - 1) as nat))));
                }
            },
            None => {
                acc.push((rk, rv));
                proof {
                    assert(entries(acc@) =~= before.push(rt[k]));
                }
            },
        }
        proof {
            assert(rt.take(k + 1).drop_last() =~= rt.take(k));
            assert(rt.take(k + 1).last() == rt[k]);
            k = k + 1;
            assert(rest@ =~= r0.skip(k));
        }
    }
    proof {
        assert(rt.take(k) =~= rt);
    }
    acc
}

/// Merges `right` into `left` to `merge_depth` levels: two arrays item by
/// item, an item with a name merged into the first item of the same name;
/// two tables key by key; at depth 0, or between values that are not both
/// arrays or both tables, `right` wins (see `merged`).
pub fn merge_toml_values(left: TomlValue, right: TomlValue, merge_depth: usize) -> (r: TomlValue)
    ensures
        r.tree() == merged(left.tree(), right.tree(), merge_depth as nat),
    decreases merge_depth, 1nat,
{
    if merge_depth == 0 {
        return right;
    }
    match left {
        TomlValue::Array(l) => match right {
            TomlValue::Array(r) => {
                proof {
                    lemma_array_tree(l);
                    lemma_array_tree(r);
                }
                let out = merge_items(l, r, merge_depth);
                proof {
                    lemma_array_tree(out);
                }
                TomlValue::Array(out)
            },
            other => other,
        },
        TomlValue::Table(l) => match right {
            TomlValue::Table(r) => {
                proof {
                    lemma_table_tree(l);
                    lemma_table_tree(r);
                }
                let out = merge_entries(l, r, merge_depth);
                proof {
                    lemma_table_tree(out);
                }
                TomlValue::Table(out)
            },
            other => other,
        },
        _ => right,
    }
}

/// Whether some entry of `t` has the key `key`.
pub open spec fn has_key(t: Seq<(Seq<char>, TomlTree)>, key: Seq<char>) -> bool {
    exists|p: int| 0 <= p < t.len() && (#[trigger] t[p]).0 == key
}

/// Merging tables loses no key and adds none: a key is in the merged
/// entries exactly when it is in the left or in the right entries.
pub proof fn lemma_merged_keys(l: Seq<(Seq<char>, TomlTree)>, r: Seq<(Seq<char>, TomlTree)>, depth: nat, key: Seq<char>)
    requires
        depth > 0,
    ensures
        has_key(merged_entries(l, r, depth), key) <==> (has_key(l, key) || has_key(r, key)),
    decreases r.len(),
{
    if r.len() > 0 {
        let rd = r.drop_last();
        lemma_merged_keys(l, rd, depth, key);
        let acc = merged_entries(l, rd, depth);
        let re = r.last();
        let out = merged_entries(l, r, depth);
        assert(has_key(r, key) <==> (has_key(rd, key) || re.0 == key)) by {
            if has_key(r, key) {
                let p = choose|p: int| 0 <= p < r.len() && (#[trigger] r[p]).0 == key;
                if p < r.len() - 1 {
                    assert(rd[p] == r[p]);
                }
            }
            if has_key(rd, key) {
                let p = choose|p: int| 0 <= p < rd.len() && (#[trigger] rd[p]).0 == key;
                assert(r[p] == rd[p]);
            }
            assert(r[r.len() - 1] == re);
        }
        if exists|p: int| is_first_key(acc, re.0, p) {
            let p = choose|p: int| is_first_key(acc, re.0, p);
            let kept = acc.remove(p);
            assert(out == kept.push((re.0, merged(acc[p].1, re.1, (depth - 1) as nat))));
            assert(out[out.len() - 1].0 == re.0);
            if has_key(out, key) {
                let q = choose|q: int| 0 <= q < out.len() && (#[trigger] out[q]).0 == key;
                if q < out.len() - 1 {
                    if q < p {
                        assert(acc[q] == out[q]);
                    } else {
                        assert(acc[q + 1] == out[q]);
                    }
                }
            }
            if has_key(acc, key) && key != re.0 {
                let q = choose|q: int| 0 <= q < acc.len() && (#[trigger] acc[q]).0 == key;
                assert(q != p);
                if q < p {
                    assert(out[q] == acc[q]);
                } else {
                    assert(out[q - 1] == acc[q]);
                }
            }
        } else {
            assert(out == acc.push(re));
            assert(out[out.len() - 1] == re);
            if has_key(out, key) {
                let q = choose|q: int| 0 <= q < out.len() && (#[trigger] out[q]).0 == key;
                if q < out.len() - 1 {
                    assert(acc[q] == out[q]);
                }
            }
            if has_key(acc, key) {
                let q = choose|q: int| 0 <= q < acc.len() && (#[trigger] acc[q]).0 == key;
                assert(out[q] == acc[q]);
            }
        }
    }
}

/// Merging in an empty array or an empty table changes nothing.
pub proof fn lemma_merge_empty_right(left: TomlTree, depth: nat)
    requires
        depth > 0,
        left is Array || left is Table,
    ensures
        left is Array ==> merged(left, TomlTree::Array(Seq::empty()), depth) == left,
        left is Table ==> merged(left, TomlTree::Table(Seq::empty()), depth) == left,
{
}

/// At depth 0, or when the later value is not of the same kind (array or
/// table) as the earlier one, the later value wins.
pub proof fn lemma_merge_later_wins(left: TomlTree, right: TomlTree, depth: nat)
    requires
        depth == 0 || !((left is Array && right is Array) || (left is Table && right is Table)),
    ensures
        merged(left, right, depth) == right,
{
}

/// The configuration layer a later file gives, over an earlier one: the
/// later value where it sets one, else the earlier.
pub fn layer_override<T>(earlier: Option<T>, later: Option<T>) -> (r: Option<T>)
    ensures
        r == (if later is Some { later } else { earlier }),
{
    match later {
        Some(v) => Some(v),
        None => earlier,
    }
}

/// The editor section a later file gives over an earlier one: the two
/// merged three levels deep where both set it, else whichever does.
pub fn layer_editor(earlier: Option<TomlValue>, later: Option<TomlValue>) -> (r: Option<TomlValue>)
    ensures
        match (earlier, later) {
            (Some(e), Some(l)) => r matches Some(m) && m.tree() == merged(e.tree(), l.tree(), 3),
            (Some(e), None) => r == Some(e),
            (None, l) => r == l,
        },
{
    match later {
        Some(l) => match earlier {
            Some(e) => Some(merge_toml_values(e, l, 3)),
            None => Some(l),
        },
        None => earlier,
    }
}

} // verus!
