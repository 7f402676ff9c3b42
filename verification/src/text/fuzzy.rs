//! Fuzzy matching through `nucleo`, the ranking of matches, and their
//! presentation as Pango markup.

use vstd::prelude::*;
use crate::text::unicode::{chars_of, push_str, string_from_chars};
use crate::editor::workspace::utf8_len;
use nucleo::pattern::{CaseMatching, Normalization, Pattern};
use nucleo::{Config, Matcher, Utf32Str};

verus! {

/// An item that matched a query, its score and the positions of the
/// matched characters.
#[derive(Debug, Clone, PartialEq, Eq)]
pub struct FuzzyMatchResult<T> {
    pub item: T,
    pub score: u32,
    pub indices: Vec<u32>,
}

/// The markup for one character: `&`, `<`, `>`, `'` and `"` as entities,
/// any other character as itself.
pub open spec fn escape_char(c: char) -> Seq<char> {
    if c == '&' {
        "&amp;"@
    } else if c == '<' {
        "&lt;"@
    } else if c == '>' {
        "&gt;"@
    } else if c == '\'' {
        "&apos;"@
    } else if c == '"' {
        "&quot;"@
    } else {
        seq![c]
    }
}

/// The markup for a text: each character escaped.
pub open spec fn spec_escape(text: Seq<char>) -> Seq<char>
    decreases text.len(),
{
    if text.len() == 0 {
        Seq::empty()
    } else {
        escape_char(text[0]) + spec_escape(text.drop_first())
    }
}

/// The markup for a text whose first character has position `pos`, with
/// the characters at the positions listed in `idx` wrapped in `open` and
/// `close`. The positions are taken in their order: a character is
/// wrapped when its position is the next listed one, which then moves on.
pub open spec fn spec_highlight(
    text: Seq<char>,
    pos: int,
    idx: Seq<u32>,
    open: Seq<char>,
    close: Seq<char>,
) -> Seq<char>
    decreases text.len(),
{
    if text.len() == 0 {
        Seq::empty()
    } else {
        let hit = idx.len() > 0 && idx[0] == pos as u32;
        let rest = if hit { idx.drop_first() } else { idx };
        (if hit { open } else { Seq::empty() }) + escape_char(text[0]) + (if hit { close } else {
            Seq::empty()
        }) + spec_highlight(text.drop_first(), pos + 1, rest, open, close)
    }
}

/// The markup of `text` (its first character at position `pos`) with
/// exactly the characters whose position `idx` lists wrapped in `open`
/// and `close`.
pub open spec fn spec_wrap_listed(
    text: Seq<char>,
    pos: int,
    idx: Seq<u32>,
    open: Seq<char>,
    close: Seq<char>,
) -> Seq<char>
    decreases text.len(),
{
    if text.len() == 0 {
        Seq::empty()
    } else {
        let hit = idx.contains(pos as u32);
        (if hit { open } else { Seq::empty() }) + escape_char(text[0]) + (if hit { close } else {
            Seq::empty()
        }) + spec_wrap_listed(text.drop_first(), pos + 1, idx, open, close)
    }
}

/// Wrapping depends only on which of the text's positions are listed.
proof fn lemma_wrap_same_positions(text: Seq<char>, pos: int, a: Seq<u32>, b: Seq<u32>, open: Seq<char>, close: Seq<char>)
    requires
        0 <= pos,
        pos + text.len() <= 0x1_0000_0000,
        forall|q: u32| #![trigger a.contains(q)] #![trigger b.contains(q)]
            pos <= q < pos + text.len() ==> (a.contains(q) <==> b.contains(q)),
    ensures
        spec_wrap_listed(text, pos, a, open, close) == spec_wrap_listed(text, pos, b, open, close),
    decreases text.len(),
{
    if text.len() > 0 {
        assert(a.contains(pos as u32) <==> b.contains(pos as u32));
        lemma_wrap_same_positions(text.drop_first(), pos + 1, a, b, open, close);
    }
}

/// With the positions strictly increasing and none before the text, the
/// markup wraps exactly the characters whose position is listed (a listed
/// position past the end is ignored).
pub proof fn lemma_highlight_wraps_listed(text: Seq<char>, pos: int, idx: Seq<u32>, open: Seq<char>, close: Seq<char>)
    requires
        0 <= pos,
        pos + text.len() <= 0x1_0000_0000,
        strictly_increasing(idx),
        forall|i: int| 0 <= i < idx.len() ==> pos <= #[trigger] idx[i],
    ensures
        spec_highlight(text, pos, idx, open, close) == spec_wrap_listed(text, pos, idx, open, close),
    decreases text.len(),
{
    if text.len() > 0 {
        let hit = idx.len() > 0 && idx[0] == pos as u32;
        assert(idx.contains(pos as u32) <==> hit) by {
            if idx.contains(pos as u32) {
                let j = choose|j: int| 0 <= j < idx.len() && idx[j] == pos as u32;
                if j > 0 {
                    assert(idx[0] < idx[j]);
                }
            }
            if hit {
                assert(idx[0] == pos as u32);
            }
        }
        let rest = if hit { idx.drop_first() } else { idx };
        assert(strictly_increasing(rest));
        assert forall|i: int| 0 <= i < rest.len() implies pos + 1 <= #[trigger] rest[i] by {
            if hit {
                assert(rest[i] == idx[i + 1]);
                assert(idx[0] < idx[i + 1]);
            } else {
                assert(idx[i] != pos as u32) by {
                    if idx[i] == pos as u32 {
                        assert(idx.contains(pos as u32));
                    }
                }
            }
        }
        lemma_highlight_wraps_listed(text.drop_first(), pos + 1, rest, open, close);
        assert forall|q: u32| pos + 1 <= q < pos + 1 + text.drop_first().len() implies (rest.contains(q)
            <==> idx.contains(q)) by {
            if hit {
                if idx.contains(q) {
                    let j = choose|j: int| 0 <= j < idx.len() && idx[j] == q;
                    assert(j != 0);
                    assert(rest[j - 1] == idx[j]);
                }
                if rest.contains(q) {
                    let j = choose|j: int| 0 <= j < rest.len() && rest[j] == q;
                    assert(idx[j + 1] == rest[j]);
                }
            }
        }
        lemma_wrap_same_positions(text.drop_first(), pos + 1, rest, idx, open, close);
    }
}

/// Appends the markup for one character.
fn push_escaped(v: &mut Vec<char>, c: char)
    ensures
        final(v)@ == old(v)@ + escape_char(c),
{
    if c == '&' {
        push_str(v, "&amp;");
    } else if c == '<' {
        push_str(v, "&lt;");
    } else if c == '>' {
        push_str(v, "&gt;");
    } else if c == '\'' {
        push_str(v, "&apos;");
    } else if c == '"' {
        push_str(v, "&quot;");
    } else {
        v.push(c);
        assert(v@ =~= old(v)@ + seq![c]);
    }
}

/// Escapes `&`, `<`, `>`, `'` and `"` for Pango markup.
pub fn escape_pango(text: &str) -> (r: String)
    ensures
        r@ == spec_escape(text@),
{
    let t = chars_of(text);
    let mut v: Vec<char> = Vec::new();
    let mut i: usize = 0;
    assert(t@.subrange(0, t@.len() as int) =~= t@);
    while i < t.len()
        invariant
            i <= t@.len(),
            t@ == text@,
            v@ + spec_escape(t@.subrange(i as int, t@.len() as int)) == spec_escape(text@),
        decreases t.len() - i,
    {
        let ghost rest = t@.subrange(i as int, t@.len() as int);
        assert(rest.drop_first() =~= t@.subrange(i + 1, t@.len() as int));
        assert(rest[0] == t@[i as int]);
        push_escaped(&mut v, t[i]);
        assert(v@ + spec_escape(t@.subrange(i + 1, t@.len() as int)) =~= spec_escape(text@));
        i = i + 1;
    }
    assert(t@.subrange(i as int, t@.len() as int) =~= Seq::<char>::empty());
    assert(v@ =~= spec_escape(text@));
    string_from_chars(&v)
}

/// Pango markup of `text` with the characters at the given positions
/// wrapped in `tag_open` and `tag_close`, the rest escaped (see
/// `spec_highlight`); with no positions, the escaped text. With the
/// positions strictly increasing, exactly the characters whose position is
/// listed are wrapped; positions past the end are ignored.
pub fn highlight_pango_markup_with_tags(text: &str, indices: &[u32], tag_open: &str, tag_close: &str) -> (r: String)
    ensures
        r@ == spec_highlight(text@, 0, indices@, tag_open@, tag_close@),
        indices@.len() == 0 ==> r@ == spec_escape(text@),
        strictly_increasing(indices@) && text@.len() <= 0x1_0000_0000 ==> r@ == spec_wrap_listed(
            text@,
            0,
            indices@,
            tag_open@,
            tag_close@,
        ),
{
    proof {
        if strictly_increasing(indices@) && text@.len() <= 0x1_0000_0000 {
            lemma_highlight_wraps_listed(text@, 0, indices@, tag_open@, tag_close@);
        }
    }
    if indices.len() == 0 {
        proof {
            lemma_highlight_nothing(text@, 0, tag_open@, tag_close@);
            assert(indices@ =~= Seq::<u32>::empty());
        }
        return escape_pango(text);
    }
    let t = chars_of(text);
    let mut v: Vec<char> = Vec::new();
    let mut i: usize = 0;
    let mut j: usize = 0;
    assert(t@.subrange(0, t@.len() as int) =~= t@);
    assert(indices@.subrange(0, indices@.len() as int) =~= indices@);
    while i < t.len()
        invariant
            i <= t@.len(),
            j <= indices@.len(),
            t@ == text@,
            v@ + spec_highlight(
                t@.subrange(i as int, t@.len() as int),
                i as int,
                indices@.subrange(j as int, indices@.len() as int),
                tag_open@,
                tag_close@,
            ) == spec_highlight(text@, 0, indices@, tag_open@, tag_close@),
        decreases t.len() - i,
    {
        let ghost rest = t@.subrange(i as int, t@.len() as int);
        let ghost ri = indices@.subrange(j as int, indices@.len() as int);
        assert(rest.drop_first() =~= t@.subrange(i + 1, t@.len() as int));
        assert(rest[0] == t@[i as int]);
        let hit = j < indices.len() && indices[j] == #[verifier::truncate] (i as u32);
        if hit {
            assert(ri[0] == indices@[j as int]);
            assert(ri.drop_first() =~= indices@.subrange(j + 1, indices@.len() as int));
            push_str(&mut v, tag_open);
        }
        push_escaped(&mut v, t[i]);
        if hit {
            push_str(&mut v, tag_close);
            j = j + 1;
        }
        assert(v@ + spec_highlight(
            t@.subrange(i + 1, t@.len() as int),
            i + 1,
            indices@.subrange(j as int, indices@.len() as int),
            tag_open@,
            tag_close@,
        ) =~= spec_highlight(text@, 0, indices@, tag_open@, tag_close@));
        i = i + 1;
    }
    assert(t@.subrange(i as int, t@.len() as int) =~= Seq::<char>::empty());
    assert(v@ =~= spec_highlight(text@, 0, indices@, tag_open@, tag_close@));
    string_from_chars(&v)
}

/// Pango markup of `text` with the characters at the given positions in
/// bold (`<b>` and `</b>`), the rest escaped.
pub fn highlight_pango_markup(text: &str, indices: &[u32]) -> (r: String)
    ensures
        r@ == spec_highlight(text@, 0, indices@, "<b>"@, "</b>"@),
        indices@.len() == 0 ==> r@ == spec_escape(text@),
{
    highlight_pango_markup_with_tags(text, indices, "<b>", "</b>")
}

/// With no positions to highlight, the markup is the escaped text.
pub proof fn lemma_highlight_nothing(text: Seq<char>, pos: int, open: Seq<char>, close: Seq<char>)
    ensures
        spec_highlight(text, pos, Seq::empty(), open, close) == spec_escape(text),
    decreases text.len(),
{
    if text.len() > 0 {
        lemma_highlight_nothing(text.drop_first(), pos + 1, open, close);
        assert(spec_highlight(text, pos, Seq::empty(), open, close) =~= spec_escape(text));
    }
}

/// Escaped text holds no `<`, `>`, `'` or `"`: it cannot open or close a
/// tag or an attribute.
pub proof fn lemma_escape_is_inert(text: Seq<char>)
    ensures
        forall|i: int|
            0 <= i < spec_escape(text).len() ==> {
                let c = #[trigger] spec_escape(text)[i];
                c != '<' && c != '>' && c != '\'' && c != '"'
            },
    decreases text.len(),
{
    reveal_strlit("&amp;");
    reveal_strlit("&lt;");
    reveal_strlit("&gt;");
    reveal_strlit("&apos;");
    reveal_strlit("&quot;");
    if text.len() > 0 {
        lemma_escape_is_inert(text.drop_first());
        let e = escape_char(text[0]);
        let r = spec_escape(text.drop_first());
        assert forall|i: int| 0 <= i < spec_escape(text).len() implies {
            let c = #[trigger] spec_escape(text)[i];
            c != '<' && c != '>' && c != '\'' && c != '"'
        } by {
            if i < e.len() {
                assert(spec_escape(text)[i] == e[i]);
            } else {
                assert(spec_escape(text)[i] == r[i - e.len()]);
            }
        }
    }
}


/// The matcher of the `nucleo` crate.
#[verifier::external_type_specification]
#[verifier::external_body]
pub struct ExMatcher(nucleo::Matcher);

/// The score `nucleo` gives `candidate` for `query` (parsed with smart case
/// and smart normalization) under its default configuration, when it
/// matches.
pub uninterp spec fn nucleo_score(query: Seq<char>, candidate: Seq<char>) -> Option<u32>;

/// The positions `nucleo` reports as matched, atom after atom, for
/// `candidate` and `query` under its default configuration.
pub uninterp spec fn nucleo_indices(query: Seq<char>, candidate: Seq<char>) -> Seq<u32>;

/// The score `nucleo` gives `candidate` for `query` (parsed as for
/// `nucleo_score`) with its configuration for file paths, when it matches.
pub uninterp spec fn nucleo_path_score(query: Seq<char>, candidate: Seq<char>) -> Option<u32>;

/// The positions `nucleo` reports as matched, atom after atom, with its
/// configuration for file paths.
pub uninterp spec fn nucleo_path_indices(query: Seq<char>, candidate: Seq<char>) -> Seq<u32>;

/// Whether `nucleo` can match a candidate: the matcher asserts that it
/// has at most `u32::MAX` units, and a text of ASCII graphemes is matched
/// byte by byte, so its UTF-8 length is what is bounded.
pub open spec fn candidate_fits(candidate: Seq<char>) -> bool {
    utf8_len(candidate) <= u32::MAX
}

/// Whether `nucleo` can score a query: it adds the scores of the query's
/// words (at most 65535 each, the words separated by spaces) in a `u32`,
/// which cannot overflow with at most 65536 words.
pub open spec fn query_fits(query: Seq<char>) -> bool {
    query.len() <= 131071
}

/// A new `nucleo::Matcher` (`Matcher::default`).
#[verifier::external_body]
fn new_matcher() -> Matcher {
    Matcher::default()
}

/// The query pattern of `nucleo`.
#[verifier::external_type_specification]
#[verifier::external_body]
pub struct ExPattern(Pattern);

/// A query parsed once by `nucleo` (smart case, smart normalization),
/// viewed as the text it was parsed from.
pub struct Query {
    pattern: Pattern,
    text: Ghost<Seq<char>>,
}

impl View for Query {
    type V = Seq<char>;

    closed spec fn view(&self) -> Seq<char> {
        self.text@
    }
}

/// `nucleo::pattern::Pattern::parse` of `query` with smart case and smart
/// normalization; the result is viewed as `query`.
#[verifier::external_body]
fn parse_query(query: &str) -> (q: Query)
    ensures
        q@ == query@,
{
    Query { pattern: Pattern::parse(query, CaseMatching::Smart, Normalization::Smart), text: Ghost(query@) }
}

/// `nucleo::pattern::Pattern::score` of the parsed `query` on `candidate`,
/// with the matcher set to `Config::DEFAULT`: named `nucleo_score`. The
/// crate's documentation says the matcher panics on more than `u32::MAX`
/// characters.
#[verifier::external_body]
fn score_default(matcher: &mut Matcher, query: &Query, candidate: &str) -> (r: Option<u32>)
    requires
        candidate_fits(candidate@),
        query_fits(query@),
    ensures
        r == nucleo_score(query@, candidate@),
{
    matcher.config = Config::DEFAULT;
    let mut buf = Vec::new();
    query.pattern.score(Utf32Str::new(candidate, &mut buf), matcher)
}

/// `nucleo::pattern::Pattern::indices` as in `score_default`, into an empty
/// vector: named `nucleo_indices`.
#[verifier::external_body]
fn indices_default(matcher: &mut Matcher, query: &Query, candidate: &str) -> (r: Vec<u32>)
    requires
        candidate_fits(candidate@),
        query_fits(query@),
    ensures
        r@ == nucleo_indices(query@, candidate@),
{
    matcher.config = Config::DEFAULT;
    let mut buf = Vec::new();
    let mut indices = Vec::new();
    query.pattern.indices(Utf32Str::new(candidate, &mut buf), matcher, &mut indices);
    indices
}

/// `nucleo::pattern::Pattern::score` as in `score_default`, with the
/// configuration for file paths (`Config::set_match_paths`, whose path
/// separators are fixed when the crate is built for a platform): named
/// `nucleo_path_score`.
#[verifier::external_body]
fn score_paths(matcher: &mut Matcher, query: &Query, candidate: &str) -> (r: Option<u32>)
    requires
        candidate_fits(candidate@),
        query_fits(query@),
    ensures
        r == nucleo_path_score(query@, candidate@),
{
    matcher.config = Config::DEFAULT;
    matcher.config.set_match_paths();
    let mut buf = Vec::new();
    query.pattern.score(Utf32Str::new(candidate, &mut buf), matcher)
}

/// `nucleo::pattern::Pattern::indices` as in `score_paths`, into an empty
/// vector: named `nucleo_path_indices`.
#[verifier::external_body]
fn indices_paths(matcher: &mut Matcher, query: &Query, candidate: &str) -> (r: Vec<u32>)
    requires
        candidate_fits(candidate@),
        query_fits(query@),
    ensures
        r@ == nucleo_path_indices(query@, candidate@),
{
    matcher.config = Config::DEFAULT;
    matcher.config.set_match_paths();
    let mut buf = Vec::new();
    let mut indices = Vec::new();
    query.pattern.indices(Utf32Str::new(candidate, &mut buf), matcher, &mut indices);
    indices
}

/// Whether `s` is strictly increasing.
pub open spec fn strictly_increasing(s: Seq<u32>) -> bool {
    forall|i: int, j: int| 0 <= i < j < s.len() ==> s[i] < s[j]
}

/// Whether `v` holds the values of `raw` once each, in increasing order.
pub open spec fn sorted_unique_of(v: Seq<u32>, raw: Seq<u32>) -> bool {
    &&& strictly_increasing(v)
    &&& forall|x: u32| v.contains(x) <==> raw.contains(x)
}

/// The values of `raw` once each, in increasing order.
pub fn sorted_unique(raw: &Vec<u32>) -> (r: Vec<u32>)
    ensures
        sorted_unique_of(r@, raw@),
{
    let mut r: Vec<u32> = Vec::new();
    let mut j: usize = 0;
    while j < raw.len()
        invariant
            j <= raw@.len(),
            strictly_increasing(r@),
            forall|x: u32| r@.contains(x) <==> raw@.subrange(0, j as int).contains(x),
        decreases raw.len() - j,
    {
        let x = raw[j];
        let ghost before = r@;
        let mut q: usize = 0;
        while q < r.len() && r[q] < x
            invariant
                q <= r@.len(),
                r@ == before,
                forall|k: int| 0 <= k < q ==> r@[k] < x,
            decreases r.len() - q,
        {
            q = q + 1;
        }
        if q < r.len() && r[q] == x {
        } else {
            r.insert(q, x);
            assert forall|a: int, b: int| 0 <= a < b < r@.len() implies r@[a] < r@[b] by {
                if b < q {
                } else if a < q && b == q {
                } else if a < q {
                    assert(r@[b] == before[b - 1]);
                } else if a == q {
                    assert(r@[b] == before[b - 1]);
                    assert(before[q as int] >= x);
                } else {
                    assert(r@[a] == before[a - 1]);
                    assert(r@[b] == before[b - 1]);
                }
            }
        }
        proof {
            let sub = raw@.subrange(0, j + 1);
            assert(sub.drop_last() =~= raw@.subrange(0, j as int));
            assert forall|y: u32| r@.contains(y) <==> sub.contains(y) by {
                if sub.contains(y) {
                    let k = choose|k: int| 0 <= k < sub.len() && sub[k] == y;
                    if k < j {
                        assert(raw@.subrange(0, j as int)[k] == y);
                    }
                }
                if raw@.subrange(0, j as int).contains(y) {
                    let k = choose|k: int| 0 <= k < j && raw@.subrange(0, j as int)[k] == y;
                    assert(sub[k] == y);
                }
                assert(sub[j as int] == x);
                if r@.contains(y) {
                    let k = choose|k: int| 0 <= k < r@.len() && r@[k] == y;
                    if r@.len() > before.len() {
                        if k < q {
                            assert(before[k] == y);
                        } else if k > q {
                            assert(before[k - 1] == y);
                        }
                    } else {
                        assert(before[k] == y);
                    }
                }
                if before.contains(y) {
                    let k = choose|k: int| 0 <= k < before.len() && before[k] == y;
                    if r@.len() > before.len() {
                        if k < q {
                            assert(r@[k] == y);
                        } else {
                            assert(r@[k + 1] == y);
                        }
                    } else {
                        assert(r@[k] == y);
                    }
                }
                if y == x && r@.len() > before.len() {
                    assert(r@[q as int] == x);
                }
                if y == x && r@.len() == before.len() {
                    assert(r@[q as int] == x);
                }
            }
        }
        j = j + 1;
    }
    assert(raw@.subrange(0, raw@.len() as int) =~= raw@);
    r
}

/// A fuzzy matcher backed by `nucleo`.
pub struct FuzzyMatcher {
    matcher: Matcher,
}

/// What matching `candidate` against `query` gives under the default
/// configuration: nothing typed matches with score 0 and no position;
/// otherwise `nucleo`'s score, with its positions sorted and once each.
pub open spec fn default_match(query: Seq<char>, candidate: Seq<char>) -> Option<(u32, Seq<u32>)> {
    if query.len() == 0 {
        Some((0u32, Seq::empty()))
    } else {
        match nucleo_score(query, candidate) {
            None => None,
            Some(s) => Some((s, choose|v: Seq<u32>| sorted_unique_of(v, nucleo_indices(query, candidate)))),
        }
    }
}

/// What matching `candidate` against `query` gives with the configuration
/// for file paths: nothing typed matches with score 0 and no position;
/// otherwise `nucleo`'s score, with its positions sorted and once each.
pub open spec fn path_match(query: Seq<char>, candidate: Seq<char>) -> Option<(u32, Seq<u32>)> {
    if query.len() == 0 {
        Some((0u32, Seq::empty()))
    } else {
        match nucleo_path_score(query, candidate) {
            None => None,
            Some(s) => Some((s, choose|v: Seq<u32>| sorted_unique_of(v, nucleo_path_indices(query, candidate)))),
        }
    }
}

/// What matching gives, with the configuration for file paths or the
/// default one.
pub open spec fn spec_match(query: Seq<char>, candidate: Seq<char>, is_path: bool) -> Option<(u32, Seq<u32>)> {
    if is_path {
        path_match(query, candidate)
    } else {
        default_match(query, candidate)
    }
}

/// The matches of `query` against each of `items`, in item order.
pub open spec fn matches_of(query: Seq<char>, items: Seq<String>, is_path: bool) -> Seq<Option<(u32, Seq<u32>)>> {
    Seq::new(items.len(), |i: int| spec_match(query, items[i]@, is_path))
}

/// The view of a match.
pub open spec fn match_view(m: Option<(u32, Vec<u32>)>) -> Option<(u32, Seq<u32>)> {
    match m {
        Some((s, v)) => Some((s, v@)),
        None => None,
    }
}

/// There is one way to list a set of values once each in increasing order.
pub proof fn lemma_sorted_unique_determined(a: Seq<u32>, b: Seq<u32>)
    requires
        strictly_increasing(a),
        strictly_increasing(b),
        forall|x: u32| a.contains(x) <==> b.contains(x),
    ensures
        a == b,
    decreases a.len() + b.len(),
{
    if a.len() > 0 && b.len() > 0 {
        assert(a.contains(a[0]));
        assert(b.contains(b[0]));
        let i = choose|i: int| 0 <= i < b.len() && b[i] == a[0];
        let j = choose|j: int| 0 <= j < a.len() && a[j] == b[0];
        assert(a[0] == b[0]) by {
            if i > 0 {
                assert(b[0] < b[i]);
                if j > 0 {
                    assert(a[0] < a[j]);
                }
            }
        }
        let ra = a.drop_first();
        let rb = b.drop_first();
        assert forall|x: u32| ra.contains(x) implies rb.contains(x) by {
            let k = choose|k: int| 0 <= k < ra.len() && ra[k] == x;
            assert(a[k + 1] == x);
            assert(a[0] < a[k + 1]);
            assert(a.contains(x));
            let m = choose|m: int| 0 <= m < b.len() && b[m] == x;
            assert(m != 0);
            assert(rb[m - 1] == x);
        }
        assert forall|x: u32| rb.contains(x) implies ra.contains(x) by {
            let k = choose|k: int| 0 <= k < rb.len() && rb[k] == x;
            assert(b[k + 1] == x);
            assert(b[0] < b[k + 1]);
            assert(b.contains(x));
            let m = choose|m: int| 0 <= m < a.len() && a[m] == x;
            assert(m != 0);
            assert(ra[m - 1] == x);
        }
        lemma_sorted_unique_determined(ra, rb);
        assert(a =~= seq![a[0]] + ra);
        assert(b =~= seq![b[0]] + rb);
    } else if a.len() > 0 {
        assert(a.contains(a[0]));
    } else if b.len() > 0 {
        assert(b.contains(b[0]));
    }
}

impl FuzzyMatcher {
    /// A matcher with `nucleo`'s default configuration.
    pub fn new() -> (r: FuzzyMatcher) {
        FuzzyMatcher { matcher: new_matcher() }
    }

    /// Matches `candidate` against `query`: nothing typed matches with
    /// score 0 and no position; otherwise, with the configuration for file
    /// paths (`is_path`) or the default one, `nucleo`'s score and its
    /// positions sorted and once each (see `spec_match`).
    pub fn fuzzy_match(&mut self, query: &str, candidate: &str, is_path: bool) -> (r: Option<(u32, Vec<u32>)>)
        requires
            candidate_fits(candidate@),
            query_fits(query@),
        ensures
            match_view(r) == spec_match(query@, candidate@, is_path),
            r matches Some((_, v)) ==> strictly_increasing(v@),
    {
        if query.is_empty() {
            return Some((0, Vec::new()));
        }
        let q = parse_query(query);
        self.match_parsed(&q, candidate, is_path)
    }

    /// Matches `candidate` against the parsed, non-empty `query`, as
    /// `fuzzy_match` states.
    fn match_parsed(&mut self, query: &Query, candidate: &str, is_path: bool) -> (r: Option<(u32, Vec<u32>)>)
        requires
            candidate_fits(candidate@),
            query_fits(query@),
            query@.len() > 0,
        ensures
            match_view(r) == spec_match(query@, candidate@, is_path),
            r matches Some((_, v)) ==> strictly_increasing(v@),
    {
        let score = if is_path {
            score_paths(&mut self.matcher, query, candidate)
        } else {
            score_default(&mut self.matcher, query, candidate)
        };
        match score {
            None => None,
            Some(s) => {
                let raw = if is_path {
                    indices_paths(&mut self.matcher, query, candidate)
                } else {
                    indices_default(&mut self.matcher, query, candidate)
                };
                let v = sorted_unique(&raw);
                proof {
                    if !is_path {
                        let c = choose|w: Seq<u32>| sorted_unique_of(w, nucleo_indices(query@, candidate@));
                        assert(sorted_unique_of(v@, nucleo_indices(query@, candidate@)));
                        lemma_sorted_unique_determined(v@, c);
                    } else {
                        let c = choose|w: Seq<u32>| sorted_unique_of(w, nucleo_path_indices(query@, candidate@));
                        assert(sorted_unique_of(v@, nucleo_path_indices(query@, candidate@)));
                        lemma_sorted_unique_determined(v@, c);
                    }
                }
                Some((s, v))
            },
        }
    }
}

/// The score of a match, or 0.
pub open spec fn score_of(m: Option<(u32, Seq<u32>)>) -> u32 {
    match m {
        Some((s, _)) => s,
        None => 0,
    }
}

/// Whether item `i` comes before item `j` in a ranking by `outs`: a
/// higher score first, equal scores in item order.
pub open spec fn ranked_before(outs: Seq<Option<(u32, Seq<u32>)>>, i: int, j: int) -> bool {
    score_of(outs[i]) > score_of(outs[j]) || (score_of(outs[i]) == score_of(outs[j]) && i < j)
}

/// Whether `p` lists the items that matched (`outs[i]` is `Some`), each
/// once, in ranking order.
pub open spec fn is_rank_order(outs: Seq<Option<(u32, Seq<u32>)>>, p: Seq<int>) -> bool {
    &&& forall|k: int| 0 <= k < p.len() ==> 0 <= #[trigger] p[k] < outs.len() && outs[p[k]] is Some
    &&& forall|i: int| 0 <= i < outs.len() && #[trigger] outs[i] is Some ==> p.contains(i)
    &&& forall|k: int, l: int| 0 <= k < l < p.len() ==> ranked_before(outs, #[trigger] p[k], #[trigger] p[l])
}

/// Whether `r` lists the items of `items` that matched according to
/// `outs`, best first, with their scores and positions.
pub open spec fn is_ranking(r: Seq<FuzzyMatchResult<String>>, items: Seq<String>, outs: Seq<Option<(u32, Seq<u32>)>>) -> bool {
    exists|p: Seq<int>|
        #[trigger] is_rank_order(outs, p) && r.len() == p.len() && forall|k: int|
            0 <= k < p.len() ==> {
                &&& (#[trigger] r[k]).item@ == items[p[k]]@
                &&& Some((r[k].score, r[k].indices@)) == outs[p[k]]
            }
}

/// Whether `r` lists the positions of the items that matched according to
/// `outs`, best first, with their scores and match positions.
pub open spec fn is_index_ranking(r: Seq<FuzzyMatchResult<usize>>, outs: Seq<Option<(u32, Seq<u32>)>>) -> bool {
    exists|p: Seq<int>|
        #[trigger] is_rank_order(outs, p) && r.len() == p.len() && forall|k: int|
            0 <= k < p.len() ==> {
                &&& (#[trigger] r[k]).item == p[k]
                &&& Some((r[k].score, r[k].indices@)) == outs[p[k]]
            }
}

/// The views of the matches.
pub open spec fn match_views(outs: Seq<Option<(u32, Vec<u32>)>>) -> Seq<Option<(u32, Seq<u32>)>> {
    Seq::new(outs.len(), |i: int| match_view(outs[i]))
}

/// A copy of `v`.
fn copy_u32s(v: &Vec<u32>) -> (r: Vec<u32>)
    ensures
        r@ == v@,
{
    let mut r: Vec<u32> = Vec::new();
    let mut i: usize = 0;
    while i < v.len()
        invariant
            i <= v@.len(),
            r@ == v@.subrange(0, i as int),
        decreases v.len() - i,
    {
        r.push(v[i]);
        i = i + 1;
        assert(r@ =~= v@.subrange(0, i as int));
    }
    r
}

/// The positions of the matches in `outs` (`None` where nothing
/// matched), best score first, equal scores in order of position (see
/// `is_index_ranking`).
pub fn rank_indices(outs: &Vec<Option<(u32, Vec<u32>)>>) -> (r: Vec<FuzzyMatchResult<usize>>)
    ensures
        is_index_ranking(r@, match_views(outs@)),
{
    let ghost ov = match_views(outs@);
    let mut order: Vec<(u32, usize)> = Vec::new();
    let mut j: usize = 0;
    while j < outs.len()
        invariant
            j <= outs@.len(),
            ov == match_views(outs@),
            forall|k: int| 0 <= k < order@.len() ==> #[trigger] order@[k].1 < j && ov[order@[k].1 as int] is Some
                && order@[k].0 == score_of(ov[order@[k].1 as int]),
            forall|i: int| 0 <= i < j && #[trigger] ov[i] is Some ==> exists|k: int| 0 <= k < order@.len() && order@[k].1 == i,
            forall|k: int, l: int| 0 <= k < l < order@.len() ==> ranked_before(ov, #[trigger] order@[k].1 as int, #[trigger] order@[l].1 as int),
        decreases outs.len() - j,
    {
        match &outs[j] {
            Some((s, _)) => {
                let s = *s;
                let ghost before = order@;
                let mut q: usize = order.len();
                while q > 0 && order[q - 1].0 < s
                    invariant
                        q <= order@.len(),
                        order@ == before,
                        forall|k: int| q <= k < order@.len() ==> order@[k].0 < s,
                    decreases q,
                {
                    q = q - 1;
                }
                order.insert(q, (s, j));
                proof {
                    assert(ov[j as int] == match_view(outs@[j as int]));
                    assert forall|k: int, l: int| 0 <= k < l < order@.len() implies ranked_before(ov, #[trigger] order@[k].1 as int, #[trigger] order@[l].1 as int) by {
                        if l < q {
                            assert(order@[k] == before[k]);
                            assert(order@[l] == before[l]);
                        } else if k < q && l == q {
                            assert(order@[k] == before[k]);
                            if q > 0 {
                                assert(before[q - 1].0 >= s);
                                if k < q - 1 {
                                    assert(ranked_before(ov, before[k].1 as int, before[q - 1].1 as int));
                                }
                            }
                        } else if k < q {
                            assert(order@[k] == before[k]);
                            assert(order@[l] == before[l - 1]);
                        } else if k == q {
                            assert(order@[l] == before[l - 1]);
                            assert(before[l - 1].0 < s);
                        } else {
                            assert(order@[k] == before[k - 1]);
                            assert(order@[l] == before[l - 1]);
                        }
                    }
                    assert forall|k: int| 0 <= k < order@.len() implies #[trigger] order@[k].1 < j + 1 && ov[order@[k].1 as int] is Some
                        && order@[k].0 == score_of(ov[order@[k].1 as int]) by {
                        if k < q {
                            assert(order@[k] == before[k]);
                        } else if k > q {
                            assert(order@[k] == before[k - 1]);
                        }
                    }
                    assert forall|i: int| 0 <= i < j + 1 && #[trigger] ov[i] is Some implies exists|k: int| 0 <= k < order@.len() && order@[k].1 == i by {
                        if i < j {
                            let k = choose|k: int| 0 <= k < before.len() && before[k].1 == i;
                            if k < q {
                                assert(order@[k] == before[k]);
                            } else {
                                assert(order@[k + 1] == before[k]);
                            }
                        } else {
                            assert(order@[q as int].1 == i);
                        }
                    }
                }
            },
            None => {
                proof {
                    assert(ov[j as int] == match_view(outs@[j as int]));
                }
            },
        }
        j = j + 1;
    }
    let mut r: Vec<FuzzyMatchResult<usize>> = Vec::new();
    let mut k: usize = 0;
    let ghost p = Seq::new(order@.len(), |i: int| order@[i].1 as int);
    while k < order.len()
        invariant
            k <= order@.len(),
            ov == match_views(outs@),
            p == Seq::new(order@.len(), |i: int| order@[i].1 as int),
            forall|i: int| 0 <= i < order@.len() ==> #[trigger] order@[i].1 < outs@.len() && ov[order@[i].1 as int] is Some
                && order@[i].0 == score_of(ov[order@[i].1 as int]),
            r@.len() == k,
            forall|i: int| 0 <= i < k ==> {
                &&& (#[trigger] r@[i]).item == p[i]
                &&& Some((r@[i].score, r@[i].indices@)) == ov[p[i]]
            },
        decreases order.len() - k,
    {
        let (s, i) = order[k];
        assert(ov[i as int] == match_view(outs@[i as int]));
        let indices = match &outs[i] {
            Some((_, v)) => copy_u32s(v),
            None => Vec::new(),
        };
        r.push(FuzzyMatchResult { item: i, score: s, indices });
        k = k + 1;
    }
    proof {
        assert(is_rank_order(ov, p)) by {
            assert forall|i: int| 0 <= i < ov.len() && #[trigger] ov[i] is Some implies p.contains(i) by {
                let k = choose|k: int| 0 <= k < order@.len() && order@[k].1 == i;
                assert(p[k] == i);
            }
            assert forall|k: int, l: int| 0 <= k < l < p.len() implies ranked_before(ov, #[trigger] p[k], #[trigger] p[l]) by {
                assert(ranked_before(ov, order@[k].1 as int, order@[l].1 as int));
            }
        }
    }
    r
}

/// The items that matched (`outs[i]` holds the match of `items[i]`), best
/// score first, equal scores in item order (see `is_ranking`).
pub fn rank(items: &Vec<String>, outs: &Vec<Option<(u32, Vec<u32>)>>) -> (r: Vec<FuzzyMatchResult<String>>)
    requires
        outs@.len() == items@.len(),
    ensures
        is_ranking(r@, items@, match_views(outs@)),
{
    let ranked = rank_indices(outs);
    items_of(items, &ranked, Ghost(match_views(outs@)))
}

/// The ranking `ranked` of positions, with each position replaced by its
/// item.
fn items_of(
    items: &Vec<String>,
    ranked: &Vec<FuzzyMatchResult<usize>>,
    Ghost(ov): Ghost<Seq<Option<(u32, Seq<u32>)>>>,
) -> (r: Vec<FuzzyMatchResult<String>>)
    requires
        ov.len() == items@.len(),
        is_index_ranking(ranked@, ov),
    ensures
        is_ranking(r@, items@, ov),
{
    let ghost p = choose|p: Seq<int>|
        #[trigger] is_rank_order(ov, p) && ranked@.len() == p.len() && forall|k: int|
            0 <= k < p.len() ==> {
                &&& (#[trigger] ranked@[k]).item == p[k]
                &&& Some((ranked@[k].score, ranked@[k].indices@)) == ov[p[k]]
            };
    let mut r: Vec<FuzzyMatchResult<String>> = Vec::new();
    let mut k: usize = 0;
    while k < ranked.len()
        invariant
            k <= ranked@.len(),
            ranked@.len() == p.len(),
            is_rank_order(ov, p),
            ov.len() == items@.len(),
            forall|i: int| 0 <= i < p.len() ==> {
                &&& (#[trigger] ranked@[i]).item == p[i]
                &&& Some((ranked@[i].score, ranked@[i].indices@)) == ov[p[i]]
            },
            r@.len() == k,
            forall|i: int| 0 <= i < k ==> {
                &&& (#[trigger] r@[i]).item@ == items@[p[i]]@
                &&& Some((r@[i].score, r@[i].indices@)) == ov[p[i]]
            },
        decreases ranked.len() - k,
    {
        assert(ranked@[k as int].item == p[k as int]);
        assert(0 <= p[k as int] < ov.len());
        let i = ranked[k].item;
        let indices = copy_u32s(&ranked[k].indices);
        r.push(FuzzyMatchResult { item: items[i].clone(), score: ranked[k].score, indices });
        k = k + 1;
    }
    r
}

impl FuzzyMatcher {
    /// The match of every item against `query` (see `fuzzy_match`), in
    /// item order.
    fn match_all(&mut self, query: &str, items: &Vec<String>, is_path: bool) -> (outs: Vec<Option<(u32, Vec<u32>)>>)
        requires
            query_fits(query@),
            forall|i: int| 0 <= i < items@.len() ==> candidate_fits(#[trigger] items@[i]@),
        ensures
            outs@.len() == items@.len(),
            match_views(outs@) == matches_of(query@, items@, is_path),
    {
        let mut outs: Vec<Option<(u32, Vec<u32>)>> = Vec::new();
        if query.is_empty() {
            let mut i: usize = 0;
            while i < items.len()
                invariant
                    i <= items@.len(),
                    outs@.len() == i,
                    query@.len() == 0,
                    forall|k: int| 0 <= k < i ==> match_view(#[trigger] outs@[k]) == spec_match(query@, items@[k]@, is_path),
                decreases items.len() - i,
            {
                outs.push(Some((0, Vec::new())));
                i = i + 1;
            }
        } else {
            let q = parse_query(query);
            let mut i: usize = 0;
            while i < items.len()
                invariant
                    i <= items@.len(),
                    outs@.len() == i,
                    q@ == query@,
                    query@.len() > 0,
                    query_fits(query@),
                    forall|k: int| 0 <= k < items@.len() ==> candidate_fits(#[trigger] items@[k]@),
                    forall|k: int| 0 <= k < i ==> match_view(#[trigger] outs@[k]) == spec_match(query@, items@[k]@, is_path),
                decreases items.len() - i,
            {
                let m = self.match_parsed(&q, items[i].as_str(), is_path);
                outs.push(m);
                i = i + 1;
            }
        }
        assert(match_views(outs@) =~= matches_of(query@, items@, is_path));
        outs
    }

    /// Matches every item against `query` (see `fuzzy_match`, with the
    /// configuration for file paths when `is_path`) and ranks those that
    /// matched, best first, equal scores in item order: each match is
    /// `spec_match` of the query and the item. With nothing typed every item
    /// comes, in order, with score 0 and no position.
    pub fn filter_and_sort(&mut self, query: &str, items: &Vec<String>, is_path: bool) -> (r: Vec<FuzzyMatchResult<String>>)
        requires
            query_fits(query@),
            forall|i: int| 0 <= i < items@.len() ==> candidate_fits(#[trigger] items@[i]@),
        ensures
            is_ranking(r@, items@, matches_of(query@, items@, is_path)),
    {
        let outs = self.match_all(query, items, is_path);
        rank(items, &outs)
    }

    /// As `filter_and_sort`, with each match given by the position of its
    /// item in `items`.
    pub fn filter_and_sort_indexed(&mut self, query: &str, items: &Vec<String>, is_path: bool) -> (r: Vec<FuzzyMatchResult<usize>>)
        requires
            query_fits(query@),
            forall|i: int| 0 <= i < items@.len() ==> candidate_fits(#[trigger] items@[i]@),
        ensures
            is_index_ranking(r@, matches_of(query@, items@, is_path)),
    {
        let outs = self.match_all(query, items, is_path);
        rank_indices(&outs)
    }
}

} // verus!
