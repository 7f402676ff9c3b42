//! Key events: modifiers, key codes, their textual form, parsing and the
//! conversion from raw GDK key values.

use vstd::prelude::*;
use crate::text::unicode::{
    spec_is_ascii_lowercase, spec_is_ascii_uppercase, spec_is_ascii_digit, spec_is_whitespace,
    spec_is_control, is_scalar_value, is_ascii_lowercase, is_ascii_digit, is_whitespace,
    is_control, to_ascii_uppercase, char_from_u32, chars_of, push_str, push_all,
    string_from_chars, ascii_digit_value, spec_decimal, digit_char, decimal_chars, split_on,
    lemma_split_on_nonempty, views, split_chars,
};

verus! {

/// A set of modifier keys held with a key. Sets are ordered as their bit
/// patterns are (`bits`): Super first, then Alt, Control and Shift.
#[derive(Debug, Clone, Copy, PartialEq, Eq, Hash, PartialOrd, Ord, Structural)]
pub struct KeyModifiers {
    pub super_key: bool,
    pub alt: bool,
    pub control: bool,
    pub shift: bool,
}

impl KeyModifiers {
    /// The union of two modifier sets.
    pub open spec fn spec_union(self, other: KeyModifiers) -> KeyModifiers {
        KeyModifiers {
            shift: self.shift || other.shift,
            control: self.control || other.control,
            alt: self.alt || other.alt,
            super_key: self.super_key || other.super_key,
        }
    }

    /// The modifiers of `self` that are not in `other`.
    pub open spec fn spec_minus(self, other: KeyModifiers) -> KeyModifiers {
        KeyModifiers {
            shift: self.shift && !other.shift,
            control: self.control && !other.control,
            alt: self.alt && !other.alt,
            super_key: self.super_key && !other.super_key,
        }
    }

    /// Whether every modifier of `other` is in `self`.
    pub open spec fn spec_contains(self, other: KeyModifiers) -> bool {
        &&& other.shift ==> self.shift
        &&& other.control ==> self.control
        &&& other.alt ==> self.alt
        &&& other.super_key ==> self.super_key
    }

    /// The set with no modifier.
    pub open spec fn spec_empty() -> KeyModifiers {
        KeyModifiers { shift: false, control: false, alt: false, super_key: false }
    }

    /// The bit pattern of the set: shift 1, control 2, alt 4, super 8.
    pub open spec fn spec_bits(self) -> u8 {
        ((if self.shift { 1u8 } else { 0u8 }) + (if self.control { 2u8 } else { 0u8 }) + (
        if self.alt { 4u8 } else { 0u8 }) + (if self.super_key { 8u8 } else { 0u8 })) as u8
    }

    /// No modifier.
    pub fn empty() -> (r: KeyModifiers)
        ensures
            r == Self::spec_empty(),
    {
        KeyModifiers { shift: false, control: false, alt: false, super_key: false }
    }

    /// Shift alone.
    pub fn shift() -> (r: KeyModifiers)
        ensures
            r == (KeyModifiers { shift: true, ..Self::spec_empty() }),
    {
        KeyModifiers { shift: true, control: false, alt: false, super_key: false }
    }

    /// Control alone.
    pub fn control() -> (r: KeyModifiers)
        ensures
            r == (KeyModifiers { control: true, ..Self::spec_empty() }),
    {
        KeyModifiers { shift: false, control: true, alt: false, super_key: false }
    }

    /// Alt alone.
    pub fn alt() -> (r: KeyModifiers)
        ensures
            r == (KeyModifiers { alt: true, ..Self::spec_empty() }),
    {
        KeyModifiers { shift: false, control: false, alt: true, super_key: false }
    }

    /// Super (Meta, Cmd, Win) alone.
    pub fn super_key() -> (r: KeyModifiers)
        ensures
            r == (KeyModifiers { super_key: true, ..Self::spec_empty() }),
    {
        KeyModifiers { shift: false, control: false, alt: false, super_key: true }
    }

    /// Whether no modifier is held.
    pub fn is_empty(&self) -> (r: bool)
        ensures
            r == (*self == Self::spec_empty()),
    {
        !self.shift && !self.control && !self.alt && !self.super_key
    }

    /// Whether every modifier of `other` is held in `self`.
    pub fn contains(&self, other: KeyModifiers) -> (r: bool)
        ensures
            r == self.spec_contains(other),
    {
        (!other.shift || self.shift) && (!other.control || self.control) && (!other.alt
            || self.alt) && (!other.super_key || self.super_key)
    }

    /// Adds the modifiers of `other`.
    pub fn insert(&mut self, other: KeyModifiers)
        ensures
            *final(self) == old(self).spec_union(other),
    {
        self.shift = self.shift || other.shift;
        self.control = self.control || other.control;
        self.alt = self.alt || other.alt;
        self.super_key = self.super_key || other.super_key;
    }

    /// Removes the modifiers of `other`.
    pub fn remove(&mut self, other: KeyModifiers)
        ensures
            *final(self) == old(self).spec_minus(other),
    {
        self.shift = self.shift && !other.shift;
        self.control = self.control && !other.control;
        self.alt = self.alt && !other.alt;
        self.super_key = self.super_key && !other.super_key;
    }

    /// The bit pattern of the set: shift 1, control 2, alt 4, super 8.
    pub fn bits(&self) -> (r: u8)
        ensures
            r == self.spec_bits(),
    {
        let mut b: u8 = 0;
        if self.shift {
            b = b + 1;
        }
        if self.control {
            b = b + 2;
        }
        if self.alt {
            b = b + 4;
        }
        if self.super_key {
            b = b + 8;
        }
        b
    }
}

/// The key pressed, apart from modifiers.
#[derive(Debug, Clone, Copy, PartialEq, Eq, Hash, PartialOrd, Ord, Structural)]
pub enum KeyCode {
    Char(char),
    Esc,
    Enter,
    Backspace,
    Tab,
    Delete,
    Left,
    Right,
    Up,
    Down,
    Home,
    End,
    PageUp,
    PageDown,
    F(u8),
    Null,
}

/// A key with the modifiers held while it was pressed.
#[derive(Debug, Clone, Copy, PartialEq, Eq, Hash, PartialOrd, Ord, Structural)]
pub struct KeyEvent {
    pub code: KeyCode,
    pub modifiers: KeyModifiers,
}

/// The character key `c` with no modifier.
pub open spec fn char_key(c: char) -> KeyEvent {
    KeyEvent { code: KeyCode::Char(c), modifiers: KeyModifiers::spec_empty() }
}

/// The key `code` with no modifier.
pub open spec fn plain_key(code: KeyCode) -> KeyEvent {
    KeyEvent { code, modifiers: KeyModifiers::spec_empty() }
}

/// ASCII `a..=z` mapped to `A..=Z`; any other character unchanged.
pub open spec fn spec_ascii_upper(c: char) -> char {
    if spec_is_ascii_lowercase(c) {
        ((c as u32) - 32) as char
    } else {
        c
    }
}

/// The canonical form of a key: a character key never carries Shift, as
/// the character already says whether Shift was held; a lowercase ASCII
/// letter pressed with Shift becomes the uppercase letter.
pub open spec fn spec_canonical(key: KeyEvent) -> KeyEvent {
    match key.code {
        KeyCode::Char(ch) => KeyEvent {
            code: KeyCode::Char(
                if key.modifiers.shift {
                    spec_ascii_upper(ch)
                } else {
                    ch
                },
            ),
            modifiers: KeyModifiers { shift: false, ..key.modifiers },
        },
        _ => key,
    }
}

/// Brings `key` into its canonical form (see `spec_canonical`).
pub fn canonicalize_key(key: &mut KeyEvent)
    ensures
        *final(key) == spec_canonical(*old(key)),
{
    if let KeyCode::Char(ch) = key.code {
        if is_ascii_lowercase(ch) && key.modifiers.shift {
            let up = to_ascii_uppercase(ch);
            assert(up == ((ch as u32) - 32) as char);
            key.code = KeyCode::Char(up);
        }
        key.modifiers.remove(KeyModifiers::shift());
    }
}

/// Whether canonicalising leaves `key` unchanged.
pub open spec fn is_canonical(key: KeyEvent) -> bool {
    spec_canonical(key) == key
}

/// Canonicalising twice changes nothing more than canonicalising once.
pub proof fn lemma_canonical_idempotent(key: KeyEvent)
    ensures
        spec_canonical(spec_canonical(key)) == spec_canonical(key),
        is_canonical(spec_canonical(key)),
{
}


/// The text of a modifier set: `Meta-`, `S-`, `A-`, `C-`, in that order,
/// for those that are held.
pub open spec fn spec_modifiers_text(m: KeyModifiers) -> Seq<char> {
    (if m.super_key { "Meta-"@ } else { Seq::empty() }) + (if m.shift { "S-"@ } else { Seq::empty() })
        + (if m.alt { "A-"@ } else { Seq::empty() }) + (if m.control { "C-"@ } else { Seq::empty() })
}

/// The text of a key code: `space` and `minus` for those two characters,
/// any other character as itself, and a name for the other keys.
pub open spec fn spec_code_text(code: KeyCode) -> Seq<char> {
    match code {
        KeyCode::Char(c) => if c == ' ' { "space"@ } else if c == '-' { "minus"@ } else { seq![c] },
        KeyCode::Esc => "esc"@,
        KeyCode::Enter => "ret"@,
        KeyCode::Backspace => "backspace"@,
        KeyCode::Tab => "tab"@,
        KeyCode::Delete => "del"@,
        KeyCode::Left => "left"@,
        KeyCode::Right => "right"@,
        KeyCode::Up => "up"@,
        KeyCode::Down => "down"@,
        KeyCode::Home => "home"@,
        KeyCode::End => "end"@,
        KeyCode::PageUp => "pageup"@,
        KeyCode::PageDown => "pagedown"@,
        KeyCode::F(n) => "F"@ + spec_decimal(n as nat),
        KeyCode::Null => "null"@,
    }
}

/// The text of a key, as `to_string` writes it: the modifiers, then the code.
pub open spec fn spec_key_text(key: KeyEvent) -> Seq<char> {
    spec_modifiers_text(key.modifiers) + spec_code_text(key.code)
}

/// The text of a key in a key sequence: in angle brackets when it is
/// longer than one character.
pub open spec fn spec_key_sequence_text(key: KeyEvent) -> Seq<char> {
    let t = spec_key_text(key);
    if t.len() > 1 {
        seq!['<'] + t + seq!['>']
    } else {
        t
    }
}

/// Appends the text of a modifier set.
fn push_modifiers_text(v: &mut Vec<char>, m: KeyModifiers)
    ensures
        final(v)@ == old(v)@ + spec_modifiers_text(m),
{
    if m.super_key {
        push_str(v, "Meta-");
    }
    if m.shift {
        push_str(v, "S-");
    }
    if m.alt {
        push_str(v, "A-");
    }
    if m.control {
        push_str(v, "C-");
    }
    assert(v@ =~= old(v)@ + spec_modifiers_text(m));
}

/// Appends the text of a key code.
fn push_code_text(v: &mut Vec<char>, code: KeyCode)
    ensures
        final(v)@ == old(v)@ + spec_code_text(code),
{
    match code {
        KeyCode::Char(c) => {
            if c == ' ' {
                push_str(v, "space");
            } else if c == '-' {
                push_str(v, "minus");
            } else {
                v.push(c);
                assert(v@ =~= old(v)@ + seq![c]);
            }
        },
        KeyCode::Esc => push_str(v, "esc"),
        KeyCode::Enter => push_str(v, "ret"),
        KeyCode::Backspace => push_str(v, "backspace"),
        KeyCode::Tab => push_str(v, "tab"),
        KeyCode::Delete => push_str(v, "del"),
        KeyCode::Left => push_str(v, "left"),
        KeyCode::Right => push_str(v, "right"),
        KeyCode::Up => push_str(v, "up"),
        KeyCode::Down => push_str(v, "down"),
        KeyCode::Home => push_str(v, "home"),
        KeyCode::End => push_str(v, "end"),
        KeyCode::PageUp => push_str(v, "pageup"),
        KeyCode::PageDown => push_str(v, "pagedown"),
        KeyCode::F(n) => {
            push_str(v, "F");
            let d = decimal_chars(n as u64);
            push_all(v, &d);
            assert(v@ =~= old(v)@ + ("F"@ + spec_decimal(n as nat)));
        },
        KeyCode::Null => push_str(v, "null"),
    }
}

/// The characters of the text of `key`.
pub fn key_text_chars(key: &KeyEvent) -> (v: Vec<char>)
    ensures
        v@ == spec_key_text(*key),
{
    let mut v: Vec<char> = Vec::new();
    push_modifiers_text(&mut v, key.modifiers);
    push_code_text(&mut v, key.code);
    assert(v@ =~= spec_key_text(*key));
    v
}

/// `s` without its leading `White_Space` characters.
pub open spec fn trim_start(s: Seq<char>) -> Seq<char>
    decreases s.len(),
{
    if s.len() > 0 && spec_is_whitespace(s[0]) {
        trim_start(s.drop_first())
    } else {
        s
    }
}

/// `s` without its trailing `White_Space` characters.
pub open spec fn trim_end(s: Seq<char>) -> Seq<char>
    decreases s.len(),
{
    if s.len() > 0 && spec_is_whitespace(s.last()) {
        trim_end(s.drop_last())
    } else {
        s
    }
}

/// `s` without leading and trailing `White_Space` characters (`str::trim`).
pub open spec fn spec_trim(s: Seq<char>) -> Seq<char> {
    trim_end(trim_start(s))
}

/// `s` without the angle brackets around it, when it is `<x>` with `x`
/// not empty.
pub open spec fn strip_angle(s: Seq<char>) -> Seq<char> {
    if s.len() >= 3 && s[0] == '<' && s.last() == '>' {
        s.subrange(1, s.len() - 1)
    } else {
        s
    }
}

/// Whether every character of `s` is an ASCII digit.
pub open spec fn all_ascii_digits(s: Seq<char>) -> bool {
    forall|i: int| 0 <= i < s.len() ==> spec_is_ascii_digit(#[trigger] s[i])
}

/// The number that the ASCII digits `s` write in decimal.
pub open spec fn decimal_value(s: Seq<char>) -> nat
    decreases s.len(),
{
    if s.len() == 0 {
        0
    } else {
        10 * decimal_value(s.drop_last()) + ((s.last() as u32) - 48) as nat
    }
}

/// The key code that a token names, or the error message for it. `s` is
/// the whole (trimmed) text being parsed, which an `F` key error quotes.
pub open spec fn spec_token_code(tok: Seq<char>, s: Seq<char>) -> Result<KeyCode, Seq<char>> {
    if tok == "esc"@ {
        Ok(KeyCode::Esc)
    } else if tok == "ret"@ || tok == "enter"@ {
        Ok(KeyCode::Enter)
    } else if tok == "backspace"@ || tok == "bs"@ {
        Ok(KeyCode::Backspace)
    } else if tok == "tab"@ {
        Ok(KeyCode::Tab)
    } else if tok == "del"@ || tok == "delete"@ {
        Ok(KeyCode::Delete)
    } else if tok == "left"@ {
        Ok(KeyCode::Left)
    } else if tok == "right"@ {
        Ok(KeyCode::Right)
    } else if tok == "up"@ {
        Ok(KeyCode::Up)
    } else if tok == "down"@ {
        Ok(KeyCode::Down)
    } else if tok == "home"@ {
        Ok(KeyCode::Home)
    } else if tok == "end"@ {
        Ok(KeyCode::End)
    } else if tok == "pageup"@ {
        Ok(KeyCode::PageUp)
    } else if tok == "pagedown"@ {
        Ok(KeyCode::PageDown)
    } else if tok == "space"@ {
        Ok(KeyCode::Char(' '))
    } else if tok == "minus"@ {
        Ok(KeyCode::Char('-'))
    } else if tok == "null"@ {
        Ok(KeyCode::Null)
    } else if tok.len() == 1 && (tok[0] as u32) < 128 {
        Ok(KeyCode::Char(tok[0]))
    } else if tok.len() > 1 && tok[0] == 'F' && all_ascii_digits(tok.drop_first()) {
        let n = decimal_value(tok.drop_first());
        if 1 <= n <= 24 {
            Ok(KeyCode::F(n as u8))
        } else {
            Err("invalid F key "@ + s)
        }
    } else {
        Err("invalid key code '"@ + tok + "'"@)
    }
}

/// The modifier that a token names: `S`, `C`, `A`, and `Meta`, `Cmd`,
/// `Win` or `Super` for the Super key.
pub open spec fn spec_token_modifier(tok: Seq<char>) -> Option<KeyModifiers> {
    let e = KeyModifiers::spec_empty();
    if tok == "S"@ {
        Some(KeyModifiers { shift: true, ..e })
    } else if tok == "C"@ {
        Some(KeyModifiers { control: true, ..e })
    } else if tok == "A"@ {
        Some(KeyModifiers { alt: true, ..e })
    } else if tok == "Meta"@ || tok == "Cmd"@ || tok == "Win"@ || tok == "Super"@ {
        Some(KeyModifiers { super_key: true, ..e })
    } else {
        None
    }
}

/// The modifiers that the tokens name, or the error for the first token
/// that names none.
pub open spec fn spec_token_modifiers(toks: Seq<Seq<char>>) -> Result<KeyModifiers, Seq<char>>
    decreases toks.len(),
{
    if toks.len() == 0 {
        Ok(KeyModifiers::spec_empty())
    } else {
        match spec_token_modifier(toks[0]) {
            None => Err("invalid modifier '"@ + toks[0] + "'"@),
            Some(m) => match spec_token_modifiers(toks.drop_first()) {
                Ok(rest) => Ok(m.spec_union(rest)),
                Err(e) => Err(e),
            },
        }
    }
}

/// Parsing a key's text: surrounding whitespace is dropped, then angle
/// brackets around the key; `-` alone is the minus key; otherwise the
/// text splits at each `-` into modifier names and, last, the key's name;
/// the result is canonicalised. Empty text, an unknown key name (an `F`
/// key outside `F1..F24` among them) and an unknown modifier are errors,
/// checked in that order.
pub open spec fn spec_parse_key(input: Seq<char>) -> Result<KeyEvent, Seq<char>> {
    let s = spec_trim(input);
    if s.len() == 0 {
        Err("empty key"@)
    } else {
        let raw = strip_angle(s);
        if raw == "-"@ {
            Ok(KeyEvent { code: KeyCode::Char('-'), modifiers: KeyModifiers::spec_empty() })
        } else {
            let toks = split_on(raw, '-');
            match spec_token_code(toks.last(), s) {
                Err(e) => Err(e),
                Ok(code) => match spec_token_modifiers(toks.drop_last()) {
                    Err(e) => Err(e),
                    Ok(m) => Ok(spec_canonical(KeyEvent { code, modifiers: m })),
                },
            }
        }
    }
}

/// Whether `a` holds the characters of `b`.
fn chars_eq(a: &Vec<char>, b: &str) -> (r: bool)
    ensures
        r == (a@ == b@),
{
    let w = chars_of(b);
    if a.len() != w.len() {
        return false;
    }
    let mut i: usize = 0;
    while i < a.len()
        invariant
            i <= a@.len(),
            a@.len() == w@.len(),
            w@ == b@,
            forall|j: int| 0 <= j < i ==> a@[j] == w@[j],
        decreases a.len() - i,
    {
        if a[i] != w[i] {
            return false;
        }
        i = i + 1;
    }
    assert(a@ =~= w@);
    true
}

/// The characters `v[lo..hi]`.
pub fn copy_range(v: &Vec<char>, lo: usize, hi: usize) -> (r: Vec<char>)
    requires
        lo <= hi <= v@.len(),
    ensures
        r@ == v@.subrange(lo as int, hi as int),
{
    let mut r: Vec<char> = Vec::new();
    let mut i: usize = lo;
    while i < hi
        invariant
            lo <= i <= hi,
            hi <= v@.len(),
            r@ == v@.subrange(lo as int, i as int),
        decreases hi - i,
    {
        r.push(v[i]);
        i = i + 1;
        assert(r@ =~= v@.subrange(lo as int, i as int));
    }
    r
}

/// `v` without leading and trailing whitespace.
pub fn trim_chars(v: &Vec<char>) -> (r: Vec<char>)
    ensures
        r@ == spec_trim(v@),
{
    let n = v.len();
    let mut lo: usize = 0;
    assert(v@.subrange(0, n as int) =~= v@);
    while lo < n && is_whitespace(v[lo])
        invariant
            lo <= n,
            n == v@.len(),
            trim_start(v@) == trim_start(v@.subrange(lo as int, n as int)),
        decreases n - lo,
    {
        assert(v@.subrange(lo as int, n as int).drop_first() =~= v@.subrange(lo + 1, n as int));
        lo = lo + 1;
    }
    assert(trim_start(v@.subrange(lo as int, n as int)) == v@.subrange(lo as int, n as int));
    let mut hi: usize = n;
    while hi > lo && is_whitespace(v[hi - 1])
        invariant
            lo <= hi <= n,
            n == v@.len(),
            trim_end(v@.subrange(lo as int, n as int)) == trim_end(v@.subrange(lo as int, hi as int)),
        decreases hi,
    {
        assert(v@.subrange(lo as int, hi as int).drop_last() =~= v@.subrange(lo as int, hi - 1));
        hi = hi - 1;
    }
    assert(trim_end(v@.subrange(lo as int, hi as int)) == v@.subrange(lo as int, hi as int));
    copy_range(v, lo, hi)
}

/// A string of the characters `a`, `b` and `c` put together.
fn join3(a: &str, b: &Vec<char>, c: &str) -> (r: String)
    ensures
        r@ == a@ + b@ + c@,
{
    let mut v: Vec<char> = Vec::new();
    push_str(&mut v, a);
    push_all(&mut v, b);
    push_str(&mut v, c);
    assert(v@ =~= a@ + b@ + c@);
    string_from_chars(&v)
}

/// The key code that the token `tok` names (see `spec_token_code`).
fn token_code(tok: &Vec<char>, s: &Vec<char>) -> (r: Result<KeyCode, String>)
    ensures
        match r {
            Ok(c) => spec_token_code(tok@, s@) == Ok::<KeyCode, Seq<char>>(c),
            Err(e) => spec_token_code(tok@, s@) == Err::<KeyCode, Seq<char>>(e@),
        },
{
    if chars_eq(tok, "esc") {
        Ok(KeyCode::Esc)
    } else if chars_eq(tok, "ret") || chars_eq(tok, "enter") {
        Ok(KeyCode::Enter)
    } else if chars_eq(tok, "backspace") || chars_eq(tok, "bs") {
        Ok(KeyCode::Backspace)
    } else if chars_eq(tok, "tab") {
        Ok(KeyCode::Tab)
    } else if chars_eq(tok, "del") || chars_eq(tok, "delete") {
        Ok(KeyCode::Delete)
    } else if chars_eq(tok, "left") {
        Ok(KeyCode::Left)
    } else if chars_eq(tok, "right") {
        Ok(KeyCode::Right)
    } else if chars_eq(tok, "up") {
        Ok(KeyCode::Up)
    } else if chars_eq(tok, "down") {
        Ok(KeyCode::Down)
    } else if chars_eq(tok, "home") {
        Ok(KeyCode::Home)
    } else if chars_eq(tok, "end") {
        Ok(KeyCode::End)
    } else if chars_eq(tok, "pageup") {
        Ok(KeyCode::PageUp)
    } else if chars_eq(tok, "pagedown") {
        Ok(KeyCode::PageDown)
    } else if chars_eq(tok, "space") {
        Ok(KeyCode::Char(' '))
    } else if chars_eq(tok, "minus") {
        Ok(KeyCode::Char('-'))
    } else if chars_eq(tok, "null") {
        Ok(KeyCode::Null)
    } else if tok.len() == 1 && (tok[0] as u32) < 128 {
        Ok(KeyCode::Char(tok[0]))
    } else if tok.len() > 1 && tok[0] == 'F' {
        let n = tok.len();
        let mut i: usize = 1;
        let mut acc: u32 = 0;
        let ghost ds = tok@.drop_first();
        assert(!all_ascii_digits(ds) ==> spec_token_code(tok@, s@) == Err::<KeyCode, Seq<char>>(
            "invalid key code '"@ + tok@ + "'"@));
        while i < n
            invariant
                1 <= i <= n,
                !all_ascii_digits(ds) ==> spec_token_code(tok@, s@) == Err::<KeyCode, Seq<char>>(
                    "invalid key code '"@ + tok@ + "'"@),
                n == tok@.len(),
                ds == tok@.drop_first(),
                forall|j: int| 0 <= j < i - 1 ==> spec_is_ascii_digit(#[trigger] ds[j]),
                acc as nat == if decimal_value(ds.subrange(0, i - 1)) < 1000 {
                    decimal_value(ds.subrange(0, i - 1))
                } else {
                    1000
                },
            decreases n - i,
        {
            let c = tok[i];
            if !is_ascii_digit(c) {
                assert(ds[i - 1] == c);
                assert(!all_ascii_digits(ds));
                return Err(join3("invalid key code '", tok, "'"));
            }
            let d = ascii_digit_value(c);
            assert(ds.subrange(0, i as int).drop_last() =~= ds.subrange(0, i - 1));
            assert(ds.subrange(0, i as int).last() == c);
            let next = 10 * acc + d;
            acc = if next < 1000 { next } else { 1000 };
            i = i + 1;
        }
        assert(ds.subrange(0, n - 1) =~= ds);
        assert(all_ascii_digits(ds));
        if 1 <= acc && acc <= 24 {
            Ok(KeyCode::F(acc as u8))
        } else {
            let mut v: Vec<char> = Vec::new();
            push_str(&mut v, "invalid F key ");
            push_all(&mut v, s);
            Err(string_from_chars(&v))
        }
    } else {
        Err(join3("invalid key code '", tok, "'"))
    }
}

/// The modifier that the token `tok` names (see `spec_token_modifier`).
fn token_modifier(tok: &Vec<char>) -> (r: Option<KeyModifiers>)
    ensures
        r == spec_token_modifier(tok@),
{
    if chars_eq(tok, "S") {
        Some(KeyModifiers::shift())
    } else if chars_eq(tok, "C") {
        Some(KeyModifiers::control())
    } else if chars_eq(tok, "A") {
        Some(KeyModifiers::alt())
    } else if chars_eq(tok, "Meta") || chars_eq(tok, "Cmd") || chars_eq(tok, "Win") || chars_eq(
        tok,
        "Super",
    ) {
        Some(KeyModifiers::super_key())
    } else {
        None
    }
}

impl KeyEvent {
    /// A key with the given code and modifiers, taken as they are.
    pub fn new(code: KeyCode, modifiers: KeyModifiers) -> (r: KeyEvent)
        ensures
            r == (KeyEvent { code, modifiers }),
    {
        KeyEvent { code, modifiers }
    }

    /// The character key `c` with no modifier.
    pub fn char(c: char) -> (r: KeyEvent)
        ensures
            r == (KeyEvent { code: KeyCode::Char(c), modifiers: KeyModifiers::spec_empty() }),
    {
        KeyEvent { code: KeyCode::Char(c), modifiers: KeyModifiers::empty() }
    }

    /// The character key `c` with Control.
    pub fn ctrl(c: char) -> (r: KeyEvent)
        ensures
            r == (KeyEvent {
                code: KeyCode::Char(c),
                modifiers: KeyModifiers { control: true, ..KeyModifiers::spec_empty() },
            }),
    {
        KeyEvent { code: KeyCode::Char(c), modifiers: KeyModifiers::control() }
    }

    /// The character key `c` with Alt.
    pub fn alt(c: char) -> (r: KeyEvent)
        ensures
            r == (KeyEvent {
                code: KeyCode::Char(c),
                modifiers: KeyModifiers { alt: true, ..KeyModifiers::spec_empty() },
            }),
    {
        KeyEvent { code: KeyCode::Char(c), modifiers: KeyModifiers::alt() }
    }

    /// The character key `c` with Shift, canonicalised: a lowercase ASCII
    /// letter becomes uppercase and the Shift modifier is dropped.
    pub fn shift(c: char) -> (r: KeyEvent)
        ensures
            r == spec_canonical(
                KeyEvent {
                    code: KeyCode::Char(c),
                    modifiers: KeyModifiers { shift: true, ..KeyModifiers::spec_empty() },
                },
            ),
            r == (KeyEvent { code: KeyCode::Char(spec_ascii_upper(c)), modifiers: KeyModifiers::spec_empty() }),
    {
        let mut ev = KeyEvent { code: KeyCode::Char(c), modifiers: KeyModifiers::shift() };
        canonicalize_key(&mut ev);
        ev
    }


    /// The text of the key: the held modifiers as `Meta-`, `S-`, `A-`,
    /// `C-` (in that order), then the key: `space`, `minus`, the character
    /// itself, `esc`, `ret`, `backspace`, `tab`, `del`, `left`, `right`,
    /// `up`, `down`, `home`, `end`, `pageup`, `pagedown`, `F<n>` or `null`.
    pub fn to_string(&self) -> (s: String)
        ensures
            s@ == spec_key_text(*self),
    {
        let v = key_text_chars(self);
        string_from_chars(&v)
    }

    /// The text of the key within a key sequence: wrapped in `<` and `>`
    /// when longer than one character, so that chords stay readable.
    pub fn key_sequence_format(&self) -> (s: String)
        ensures
            s@ == spec_key_sequence_text(*self),
    {
        let t = key_text_chars(self);
        if t.len() > 1 {
            let mut v: Vec<char> = Vec::new();
            v.push('<');
            push_all(&mut v, &t);
            v.push('>');
            assert(v@ =~= seq!['<'] + t@ + seq!['>']);
            string_from_chars(&v)
        } else {
            string_from_chars(&t)
        }
    }


    /// Parses the text of a key (see `spec_parse_key`): `h`, `esc`,
    /// `C-w`, `<space>`, `S-w` (which is `W`), `F5`, `-`.
    pub fn from_str(s: &str) -> (r: Result<KeyEvent, String>)
        ensures
            match r {
                Ok(k) => spec_parse_key(s@) == Ok::<KeyEvent, Seq<char>>(k),
                Err(e) => spec_parse_key(s@) == Err::<KeyEvent, Seq<char>>(e@),
            },
    {
        let all = chars_of(s);
        let t = trim_chars(&all);
        let n = t.len();
        if n == 0 {
            let mut v: Vec<char> = Vec::new();
            push_str(&mut v, "empty key");
            return Err(string_from_chars(&v));
        }
        let raw = if n >= 3 && t[0] == '<' && t[n - 1] == '>' {
            copy_range(&t, 1, n - 1)
        } else {
            copy_range(&t, 0, n)
        };
        assert(t@.subrange(0, n as int) =~= t@);
        assert(raw@ == strip_angle(t@));
        if chars_eq(&raw, "-") {
            return Ok(KeyEvent { code: KeyCode::Char('-'), modifiers: KeyModifiers::empty() });
        }
        let mut toks = split_chars(&raw, '-');
        proof {
            lemma_split_on_nonempty(raw@, '-');
        }
        let ghost all_toks = views(toks@);
        let code_tok = toks.pop().unwrap();
        assert(code_tok@ == all_toks.last());
        assert(views(toks@) =~= all_toks.drop_last());
        let code = match token_code(&code_tok, &t) {
            Ok(c) => c,
            Err(e) => {
                return Err(e);
            },
        };
        let mut modifiers = KeyModifiers::empty();
        let mut i: usize = 0;
        let ghost ms = views(toks@);
        assert(ms.subrange(0, ms.len() as int) =~= ms);
        assert(spec_parse_key(s@) == match spec_token_modifiers(ms) {
            Err(e) => Err(e),
            Ok(m) => Ok::<KeyEvent, Seq<char>>(spec_canonical(KeyEvent { code, modifiers: m })),
        });
        while i < toks.len()
            invariant
                i <= toks@.len(),
                ms == views(toks@),
                spec_parse_key(s@) == match spec_token_modifiers(ms) {
                    Err(e) => Err(e),
                    Ok(m) => Ok::<KeyEvent, Seq<char>>(spec_canonical(KeyEvent { code, modifiers: m })),
                },
                spec_token_modifiers(ms) == match spec_token_modifiers(ms.subrange(i as int, ms.len() as int)) {
                    Ok(rest) => Ok::<KeyModifiers, Seq<char>>(modifiers.spec_union(rest)),
                    Err(e) => Err(e),
                },
            decreases toks.len() - i,
        {
            assert(ms.subrange(i as int, ms.len() as int).drop_first() =~= ms.subrange(i + 1, ms.len() as int));
            assert(ms.subrange(i as int, ms.len() as int)[0] == toks@[i as int]@);
            match token_modifier(&toks[i]) {
                Some(m) => {
                    modifiers.insert(m);
                },
                None => {
                    return Err(join3("invalid modifier '", &toks[i], "'"));
                },
            }
            i = i + 1;
        }
        assert(ms.subrange(i as int, ms.len() as int) =~= Seq::<Seq<char>>::empty());
        let mut event = KeyEvent { code, modifiers };
        canonicalize_key(&mut event);
        Ok(event)
    }

    /// The character of a character key.
    pub fn as_char(&self) -> (r: Option<char>)
        ensures
            r == (match self.code {
                KeyCode::Char(ch) => Some(ch),
                _ => None::<char>,
            }),
    {
        match self.code {
            KeyCode::Char(ch) => Some(ch),
            _ => None,
        }
    }
}

/// The modifiers that a GDK modifier state holds: Shift is bit 0, Control
/// bit 2, Alt bit 3 and Super bit 26.
pub open spec fn spec_gdk_modifiers(state: u32) -> KeyModifiers {
    KeyModifiers {
        shift: state & 1 != 0,
        control: state & 4 != 0,
        alt: state & 8 != 0,
        super_key: state & 0x400_0000 != 0,
    }
}

/// The key code of a GDK key value: the special keys by their key values,
/// otherwise the character whose scalar value the key value is, unless it
/// is a control character or no character at all.
pub open spec fn spec_gdk_code(keyval: u32) -> Option<KeyCode> {
    if keyval == 0xff1b {
        Some(KeyCode::Esc)
    } else if keyval == 0xff0d || keyval == 0xff8d {
        Some(KeyCode::Enter)
    } else if keyval == 0xff08 {
        Some(KeyCode::Backspace)
    } else if keyval == 0xff09 || keyval == 0xfe20 {
        Some(KeyCode::Tab)
    } else if keyval == 0xffff {
        Some(KeyCode::Delete)
    } else if keyval == 0xff51 {
        Some(KeyCode::Left)
    } else if keyval == 0xff53 {
        Some(KeyCode::Right)
    } else if keyval == 0xff52 {
        Some(KeyCode::Up)
    } else if keyval == 0xff54 {
        Some(KeyCode::Down)
    } else if keyval == 0xff50 {
        Some(KeyCode::Home)
    } else if keyval == 0xff57 {
        Some(KeyCode::End)
    } else if keyval == 0xff55 {
        Some(KeyCode::PageUp)
    } else if keyval == 0xff56 {
        Some(KeyCode::PageDown)
    } else if is_scalar_value(keyval) && !spec_is_control(keyval as char) {
        Some(KeyCode::Char(keyval as char))
    } else {
        None
    }
}

/// The key event for a GDK key value and modifier state, canonicalised.
pub open spec fn spec_gdk_to_key_event(keyval: u32, state: u32) -> Option<KeyEvent> {
    match spec_gdk_code(keyval) {
        Some(code) => Some(spec_canonical(KeyEvent { code, modifiers: spec_gdk_modifiers(state) })),
        None => None,
    }
}

/// Converts a raw GDK key value and modifier state into a key event;
/// `None` for key values that are neither a special key nor a printable
/// character.
pub fn gdk_to_key_event(keyval: u32, state: u32) -> (r: Option<KeyEvent>)
    ensures
        r == spec_gdk_to_key_event(keyval, state),
{
    let mut mods = KeyModifiers::empty();
    if state & 1 != 0 {
        mods.insert(KeyModifiers::shift());
    }
    if state & 4 != 0 {
        mods.insert(KeyModifiers::control());
    }
    if state & 8 != 0 {
        mods.insert(KeyModifiers::alt());
    }
    if state & 0x400_0000 != 0 {
        mods.insert(KeyModifiers::super_key());
    }
    assert(mods == spec_gdk_modifiers(state));
    let code = if keyval == 0xff1b {
        KeyCode::Esc
    } else if keyval == 0xff0d || keyval == 0xff8d {
        KeyCode::Enter
    } else if keyval == 0xff08 {
        KeyCode::Backspace
    } else if keyval == 0xff09 || keyval == 0xfe20 {
        KeyCode::Tab
    } else if keyval == 0xffff {
        KeyCode::Delete
    } else if keyval == 0xff51 {
        KeyCode::Left
    } else if keyval == 0xff53 {
        KeyCode::Right
    } else if keyval == 0xff52 {
        KeyCode::Up
    } else if keyval == 0xff54 {
        KeyCode::Down
    } else if keyval == 0xff50 {
        KeyCode::Home
    } else if keyval == 0xff57 {
        KeyCode::End
    } else if keyval == 0xff55 {
        KeyCode::PageUp
    } else if keyval == 0xff56 {
        KeyCode::PageDown
    } else {
        match char_from_u32(keyval) {
            Some(ch) => {
                if is_control(ch) {
                    return None;
                }
                KeyCode::Char(ch)
            },
            None => {
                return None;
            },
        }
    };
    let mut event = KeyEvent { code, modifiers: mods };
    canonicalize_key(&mut event);
    Some(event)
}

/// The pieces joined, each followed by `-`.
pub open spec fn dash_joined(ts: Seq<Seq<char>>) -> Seq<char>
    decreases ts.len(),
{
    if ts.len() == 0 {
        Seq::empty()
    } else {
        ts[0] + seq!['-'] + dash_joined(ts.drop_first())
    }
}

/// The names of the held modifiers, in the order the text writes them.
pub open spec fn modifier_names(m: KeyModifiers) -> Seq<Seq<char>> {
    (if m.super_key { seq!["Meta"@] } else { Seq::empty() }) + (if m.shift { seq!["S"@] } else { Seq::empty() })
        + (if m.alt { seq!["A"@] } else { Seq::empty() }) + (if m.control { seq!["C"@] } else { Seq::empty() })
}

/// Splitting a text that holds no separator gives the text itself.
proof fn lemma_split_without_sep(t: Seq<char>, sep: char)
    requires
        !t.contains(sep),
    ensures
        split_on(t, sep) == seq![t],
    decreases t.len(),
{
    if t.len() > 0 {
        assert(!t.drop_last().contains(sep)) by {
            if t.drop_last().contains(sep) {
                let i = choose|i: int| 0 <= i < t.drop_last().len() && t.drop_last()[i] == sep;
                assert(t[i] == sep);
            }
        }
        lemma_split_without_sep(t.drop_last(), sep);
        assert(t.last() != sep) by {
            assert(t[t.len() - 1] == t.last());
        }
        assert(t.drop_last().push(t.last()) =~= t);
        let r = split_on(t.drop_last(), sep);
        assert(split_on(t, sep) == r.update(r.len() - 1, r.last().push(t.last())));
        assert(seq![t.drop_last()].update(0, t.drop_last().push(t.last())) =~= seq![t]);
    } else {
        assert(t =~= Seq::<char>::empty());
    }
}

/// Splitting at a separator splits the two sides apart.
proof fn lemma_split_concat(s: Seq<char>, t: Seq<char>, sep: char)
    ensures
        split_on(s + seq![sep] + t, sep) == split_on(s, sep) + split_on(t, sep),
    decreases t.len(),
{
    let whole = s + seq![sep] + t;
    if t.len() == 0 {
        assert(whole.drop_last() =~= s);
        assert(split_on(s, sep) + split_on(t, sep) =~= split_on(s, sep).push(Seq::empty()));
    } else {
        let t2 = t.drop_last();
        assert(whole.drop_last() =~= s + seq![sep] + t2);
        lemma_split_concat(s, t2, sep);
        lemma_split_on_nonempty(t2, sep);
        lemma_split_on_nonempty(s, sep);
        assert(whole.last() == t.last());
        if t.last() == sep {
            assert(split_on(s, sep) + split_on(t, sep) =~= (split_on(s, sep) + split_on(t2, sep)).push(
                Seq::empty()));
        } else {
            let a = split_on(s, sep);
            let b = split_on(t2, sep);
            assert(a + b.update(b.len() - 1, b.last().push(t.last())) =~= (a + b).update(
                (a + b).len() - 1,
                (a + b).last().push(t.last()),
            ));
        }
    }
}

/// Splitting pieces joined by `-`, followed by a last piece, gives the
/// pieces back when none of them holds a `-`.
proof fn lemma_split_dash_joined(ts: Seq<Seq<char>>, last: Seq<char>)
    requires
        forall|i: int| 0 <= i < ts.len() ==> !(#[trigger] ts[i]).contains('-'),
        !last.contains('-'),
    ensures
        split_on(dash_joined(ts) + last, '-') == ts.push(last),
    decreases ts.len(),
{
    if ts.len() == 0 {
        assert(dash_joined(ts) + last =~= last);
        lemma_split_without_sep(last, '-');
        assert(ts.push(last) =~= seq![last]);
    } else {
        let rest = ts.drop_first();
        assert forall|i: int| 0 <= i < rest.len() implies !(#[trigger] rest[i]).contains('-') by {
            assert(rest[i] == ts[i + 1]);
        }
        lemma_split_dash_joined(rest, last);
        assert(dash_joined(ts) + last =~= ts[0] + seq!['-'] + (dash_joined(rest) + last));
        lemma_split_concat(ts[0], dash_joined(rest) + last, '-');
        lemma_split_without_sep(ts[0], '-');
        assert(seq![ts[0]] + rest.push(last) =~= ts.push(last));
    }
}

/// A digit character reads back as its digit.
proof fn lemma_digit_char(d: nat)
    requires
        d < 10,
    ensures
        spec_is_ascii_digit(digit_char(d)),
        (digit_char(d) as u32) - 48 == d,
{
}

/// The decimal digits of `n` are ASCII digits that read back as `n`.
proof fn lemma_decimal_value(n: nat)
    ensures
        all_ascii_digits(spec_decimal(n)),
        decimal_value(spec_decimal(n)) == n,
        spec_decimal(n).len() >= 1,
    decreases n,
{
    let d = spec_decimal(n);
    if n >= 10 {
        lemma_decimal_value(n / 10);
        lemma_digit_char(n % 10);
        assert(d.drop_last() =~= spec_decimal(n / 10));
        assert(d.last() == digit_char(n % 10));
        assert(decimal_value(d) == 10 * decimal_value(d.drop_last()) + ((d.last() as u32) - 48) as nat);
        assert(decimal_value(d) == 10 * (n / 10) + n % 10);
        assert forall|i: int| 0 <= i < d.len() implies spec_is_ascii_digit(#[trigger] d[i]) by {
            if i < d.len() - 1 {
                assert(d[i] == spec_decimal(n / 10)[i]);
            }
        }
    } else {
        lemma_digit_char(n);
        assert(d.drop_last() =~= Seq::<char>::empty());
        assert(d.last() == digit_char(n));
        assert(decimal_value(d) == 10 * decimal_value(d.drop_last()) + ((d.last() as u32) - 48) as nat);
    }
}

/// Whether the text of `key` reads back as `key`: the key is canonical,
/// and a character key is the space or a printable ASCII character that is
/// not whitespace, an `F` key is `F1` to `F24`.
pub open spec fn key_text_roundtrips(key: KeyEvent) -> bool {
    &&& is_canonical(key)
    &&& match key.code {
        KeyCode::Char(c) => c == ' ' || ((c as u32) < 128 && !spec_is_whitespace(c)),
        KeyCode::F(n) => 1 <= n <= 24,
        _ => true,
    }
}

/// The modifier text is the modifier names, each followed by a dash.
proof fn lemma_modifiers_text(m: KeyModifiers)
    ensures
        spec_modifiers_text(m) == dash_joined(modifier_names(m)),
        forall|i: int| 0 <= i < modifier_names(m).len() ==> !(#[trigger] modifier_names(m)[i]).contains('-'),
        spec_token_modifiers(modifier_names(m)) == Ok::<KeyModifiers, Seq<char>>(m),
        spec_modifiers_text(m).len() > 0 ==> (spec_modifiers_text(m)[0] == 'M' || spec_modifiers_text(m)[0] == 'S'
            || spec_modifiers_text(m)[0] == 'A' || spec_modifiers_text(m)[0] == 'C'),
{
    reveal_strlit("Meta-");
    reveal_strlit("S-");
    reveal_strlit("A-");
    reveal_strlit("C-");
    reveal_strlit("Meta");
    reveal_strlit("S");
    reveal_strlit("A");
    reveal_strlit("C");
    reveal_strlit("Cmd");
    reveal_strlit("Win");
    reveal_strlit("Super");
    reveal_with_fuel(dash_joined, 5);
    let names = modifier_names(m);
    let e = Seq::<Seq<char>>::empty();
    let lm = KeyModifiers { super_key: false, ..m };
    let ls = KeyModifiers { shift: false, ..lm };
    let la = KeyModifiers { alt: false, ..ls };
    let lc = KeyModifiers { control: false, ..la };
    assert(modifier_names(lc) =~= e);
    assert(modifier_names(la) =~= if m.control { seq!["C"@] } else { e });
    assert(modifier_names(ls) =~= if m.alt { seq!["A"@] + modifier_names(la) } else { modifier_names(la) });
    assert(modifier_names(lm) =~= if m.shift { seq!["S"@] + modifier_names(ls) } else { modifier_names(ls) });
    assert(names =~= if m.super_key { seq!["Meta"@] + modifier_names(lm) } else { modifier_names(lm) });
    assert(spec_modifiers_text(m) =~= dash_joined(names)) by {
        if m.super_key {
            if m.shift {
                if m.alt {
                    if m.control {
                        assert(names =~= seq!["Meta"@, "S"@, "A"@, "C"@]);
                    } else {
                        assert(names =~= seq!["Meta"@, "S"@, "A"@]);
                    }
                } else if m.control {
                    assert(names =~= seq!["Meta"@, "S"@, "C"@]);
                } else {
                    assert(names =~= seq!["Meta"@, "S"@]);
                }
            } else if m.alt {
                if m.control {
                    assert(names =~= seq!["Meta"@, "A"@, "C"@]);
                } else {
                    assert(names =~= seq!["Meta"@, "A"@]);
                }
            } else if m.control {
                assert(names =~= seq!["Meta"@, "C"@]);
            } else {
                assert(names =~= seq!["Meta"@]);
            }
        } else if m.shift {
            if m.alt {
                if m.control {
                    assert(names =~= seq!["S"@, "A"@, "C"@]);
                } else {
                    assert(names =~= seq!["S"@, "A"@]);
                }
            } else if m.control {
                assert(names =~= seq!["S"@, "C"@]);
            } else {
                assert(names =~= seq!["S"@]);
            }
        } else if m.alt {
            if m.control {
                assert(names =~= seq!["A"@, "C"@]);
            } else {
                assert(names =~= seq!["A"@]);
            }
        } else if m.control {
            assert(names =~= seq!["C"@]);
        } else {
            assert(names =~= e);
        }
    }
    assert forall|i: int| 0 <= i < names.len() implies !(#[trigger] names[i]).contains('-') by {
        assert(names[i] == "Meta"@ || names[i] == "S"@ || names[i] == "A"@ || names[i] == "C"@);
    }
    assert("C"@ != "S"@) by { assert("C"@[0] != "S"@[0]); }
    assert("A"@ != "S"@) by { assert("A"@[0] != "S"@[0]); }
    assert("A"@ != "C"@) by { assert("A"@[0] != "C"@[0]); }
    assert("Meta"@ != "S"@) by { assert("Meta"@.len() != "S"@.len()); }
    assert("Meta"@ != "C"@) by { assert("Meta"@.len() != "C"@.len()); }
    assert("Meta"@ != "A"@) by { assert("Meta"@.len() != "A"@.len()); }
    assert(seq!["C"@] + e =~= seq!["C"@]);
    lemma_token_modifiers_cons("C"@, e);
    lemma_token_modifiers_cons("A"@, modifier_names(la));
    lemma_token_modifiers_cons("S"@, modifier_names(ls));
    lemma_token_modifiers_cons("Meta"@, modifier_names(lm));
    assert(spec_token_modifiers(e) == Ok::<KeyModifiers, Seq<char>>(lc));
    assert(spec_token_modifiers(modifier_names(la)) == Ok::<KeyModifiers, Seq<char>>(la));
    assert(spec_token_modifiers(modifier_names(ls)) == Ok::<KeyModifiers, Seq<char>>(ls));
    assert(spec_token_modifiers(modifier_names(lm)) == Ok::<KeyModifiers, Seq<char>>(lm));
}

/// Reading the modifiers of a token followed by others.
proof fn lemma_token_modifiers_cons(t: Seq<char>, rest: Seq<Seq<char>>)
    ensures
        spec_token_modifiers(seq![t] + rest) == match spec_token_modifier(t) {
            None => Err("invalid modifier '"@ + t + "'"@),
            Some(m) => match spec_token_modifiers(rest) {
                Ok(r) => Ok::<KeyModifiers, Seq<char>>(m.spec_union(r)),
                Err(e) => Err(e),
            },
        },
{
    assert((seq![t] + rest).drop_first() =~= rest);
    assert((seq![t] + rest)[0] == t);
}

/// The key names differ from each other.
proof fn lemma_key_names_distinct()
    ensures
        "ret"@ != "esc"@,
        "enter"@ != "esc"@,
        "enter"@ != "ret"@,
        "backspace"@ != "esc"@,
        "backspace"@ != "ret"@,
        "backspace"@ != "enter"@,
        "bs"@ != "esc"@,
        "bs"@ != "ret"@,
        "bs"@ != "enter"@,
        "bs"@ != "backspace"@,
        "tab"@ != "esc"@,
        "tab"@ != "ret"@,
        "tab"@ != "enter"@,
        "tab"@ != "backspace"@,
        "tab"@ != "bs"@,
        "del"@ != "esc"@,
        "del"@ != "ret"@,
        "del"@ != "enter"@,
        "del"@ != "backspace"@,
        "del"@ != "bs"@,
        "del"@ != "tab"@,
        "delete"@ != "esc"@,
        "delete"@ != "ret"@,
        "delete"@ != "enter"@,
        "delete"@ != "backspace"@,
        "delete"@ != "bs"@,
        "delete"@ != "tab"@,
        "delete"@ != "del"@,
        "left"@ != "esc"@,
        "left"@ != "ret"@,
        "left"@ != "enter"@,
        "left"@ != "backspace"@,
        "left"@ != "bs"@,
        "left"@ != "tab"@,
        "left"@ != "del"@,
        "left"@ != "delete"@,
        "right"@ != "esc"@,
        "right"@ != "ret"@,
        "right"@ != "enter"@,
        "right"@ != "backspace"@,
        "right"@ != "bs"@,
        "right"@ != "tab"@,
        "right"@ != "del"@,
        "right"@ != "delete"@,
        "right"@ != "left"@,
        "up"@ != "esc"@,
        "up"@ != "ret"@,
        "up"@ != "enter"@,
        "up"@ != "backspace"@,
        "up"@ != "bs"@,
        "up"@ != "tab"@,
        "up"@ != "del"@,
        "up"@ != "delete"@,
        "up"@ != "left"@,
        "up"@ != "right"@,
        "down"@ != "esc"@,
        "down"@ != "ret"@,
        "down"@ != "enter"@,
        "down"@ != "backspace"@,
        "down"@ != "bs"@,
        "down"@ != "tab"@,
        "down"@ != "del"@,
        "down"@ != "delete"@,
        "down"@ != "left"@,
        "down"@ != "right"@,
        "down"@ != "up"@,
        "home"@ != "esc"@,
        "home"@ != "ret"@,
        "home"@ != "enter"@,
        "home"@ != "backspace"@,
        "home"@ != "bs"@,
        "home"@ != "tab"@,
        "home"@ != "del"@,
        "home"@ != "delete"@,
        "home"@ != "left"@,
        "home"@ != "right"@,
        "home"@ != "up"@,
        "home"@ != "down"@,
        "end"@ != "esc"@,
        "end"@ != "ret"@,
        "end"@ != "enter"@,
        "end"@ != "backspace"@,
        "end"@ != "bs"@,
        "end"@ != "tab"@,
        "end"@ != "del"@,
        "end"@ != "delete"@,
        "end"@ != "left"@,
        "end"@ != "right"@,
        "end"@ != "up"@,
        "end"@ != "down"@,
        "end"@ != "home"@,
        "pageup"@ != "esc"@,
        "pageup"@ != "ret"@,
        "pageup"@ != "enter"@,
        "pageup"@ != "backspace"@,
        "pageup"@ != "bs"@,
        "pageup"@ != "tab"@,
        "pageup"@ != "del"@,
        "pageup"@ != "delete"@,
        "pageup"@ != "left"@,
        "pageup"@ != "right"@,
        "pageup"@ != "up"@,
        "pageup"@ != "down"@,
        "pageup"@ != "home"@,
        "pageup"@ != "end"@,
        "pagedown"@ != "esc"@,
        "pagedown"@ != "ret"@,
        "pagedown"@ != "enter"@,
        "pagedown"@ != "backspace"@,
        "pagedown"@ != "bs"@,
        "pagedown"@ != "tab"@,
        "pagedown"@ != "del"@,
        "pagedown"@ != "delete"@,
        "pagedown"@ != "left"@,
        "pagedown"@ != "right"@,
        "pagedown"@ != "up"@,
        "pagedown"@ != "down"@,
        "pagedown"@ != "home"@,
        "pagedown"@ != "end"@,
        "pagedown"@ != "pageup"@,
        "space"@ != "esc"@,
        "space"@ != "ret"@,
        "space"@ != "enter"@,
        "space"@ != "backspace"@,
        "space"@ != "bs"@,
        "space"@ != "tab"@,
        "space"@ != "del"@,
        "space"@ != "delete"@,
        "space"@ != "left"@,
        "space"@ != "right"@,
        "space"@ != "up"@,
        "space"@ != "down"@,
        "space"@ != "home"@,
        "space"@ != "end"@,
        "space"@ != "pageup"@,
        "space"@ != "pagedown"@,
        "minus"@ != "esc"@,
        "minus"@ != "ret"@,
        "minus"@ != "enter"@,
        "minus"@ != "backspace"@,
        "minus"@ != "bs"@,
        "minus"@ != "tab"@,
        "minus"@ != "del"@,
        "minus"@ != "delete"@,
        "minus"@ != "left"@,
        "minus"@ != "right"@,
        "minus"@ != "up"@,
        "minus"@ != "down"@,
        "minus"@ != "home"@,
        "minus"@ != "end"@,
        "minus"@ != "pageup"@,
        "minus"@ != "pagedown"@,
        "minus"@ != "space"@,
        "null"@ != "esc"@,
        "null"@ != "ret"@,
        "null"@ != "enter"@,
        "null"@ != "backspace"@,
        "null"@ != "bs"@,
        "null"@ != "tab"@,
        "null"@ != "del"@,
        "null"@ != "delete"@,
        "null"@ != "left"@,
        "null"@ != "right"@,
        "null"@ != "up"@,
        "null"@ != "down"@,
        "null"@ != "home"@,
        "null"@ != "end"@,
        "null"@ != "pageup"@,
        "null"@ != "pagedown"@,
        "null"@ != "space"@,
        "null"@ != "minus"@,
{
    reveal_strlit("esc");
    reveal_strlit("ret");
    reveal_strlit("enter");
    reveal_strlit("backspace");
    reveal_strlit("bs");
    reveal_strlit("tab");
    reveal_strlit("del");
    reveal_strlit("delete");
    reveal_strlit("left");
    reveal_strlit("right");
    reveal_strlit("up");
    reveal_strlit("down");
    reveal_strlit("home");
    reveal_strlit("end");
    reveal_strlit("pageup");
    reveal_strlit("pagedown");
    reveal_strlit("space");
    reveal_strlit("minus");
    reveal_strlit("null");
    assert("ret"@ != "esc"@) by { assert("ret"@[0] != "esc"@[0]); }
    assert("enter"@ != "esc"@) by { assert("enter"@.len() != "esc"@.len()); }
    assert("enter"@ != "ret"@) by { assert("enter"@.len() != "ret"@.len()); }
    assert("backspace"@ != "esc"@) by { assert("backspace"@.len() != "esc"@.len()); }
    assert("backspace"@ != "ret"@) by { assert("backspace"@.len() != "ret"@.len()); }
    assert("backspace"@ != "enter"@) by { assert("backspace"@.len() != "enter"@.len()); }
    assert("bs"@ != "esc"@) by { assert("bs"@.len() != "esc"@.len()); }
    assert("bs"@ != "ret"@) by { assert("bs"@.len() != "ret"@.len()); }
    assert("bs"@ != "enter"@) by { assert("bs"@.len() != "enter"@.len()); }
    assert("bs"@ != "backspace"@) by { assert("bs"@.len() != "backspace"@.len()); }
    assert("tab"@ != "esc"@) by { assert("tab"@[0] != "esc"@[0]); }
    assert("tab"@ != "ret"@) by { assert("tab"@[0] != "ret"@[0]); }
    assert("tab"@ != "enter"@) by { assert("tab"@.len() != "enter"@.len()); }
    assert("tab"@ != "backspace"@) by { assert("tab"@.len() != "backspace"@.len()); }
    assert("tab"@ != "bs"@) by { assert("tab"@.len() != "bs"@.len()); }
    assert("del"@ != "esc"@) by { assert("del"@[0] != "esc"@[0]); }
    assert("del"@ != "ret"@) by { assert("del"@[0] != "ret"@[0]); }
    assert("del"@ != "enter"@) by { assert("del"@.len() != "enter"@.len()); }
    assert("del"@ != "backspace"@) by { assert("del"@.len() != "backspace"@.len()); }
    assert("del"@ != "bs"@) by { assert("del"@.len() != "bs"@.len()); }
    assert("del"@ != "tab"@) by { assert("del"@[0] != "tab"@[0]); }
    assert("delete"@ != "esc"@) by { assert("delete"@.len() != "esc"@.len()); }
    assert("delete"@ != "ret"@) by { assert("delete"@.len() != "ret"@.len()); }
    assert("delete"@ != "enter"@) by { assert("delete"@.len() != "enter"@.len()); }
    assert("delete"@ != "backspace"@) by { assert("delete"@.len() != "backspace"@.len()); }
    assert("delete"@ != "bs"@) by { assert("delete"@.len() != "bs"@.len()); }
    assert("delete"@ != "tab"@) by { assert("delete"@.len() != "tab"@.len()); }
    assert("delete"@ != "del"@) by { assert("delete"@.len() != "del"@.len()); }
    assert("left"@ != "esc"@) by { assert("left"@.len() != "esc"@.len()); }
    assert("left"@ != "ret"@) by { assert("left"@.len() != "ret"@.len()); }
    assert("left"@ != "enter"@) by { assert("left"@.len() != "enter"@.len()); }
    assert("left"@ != "backspace"@) by { assert("left"@.len() != "backspace"@.len()); }
    assert("left"@ != "bs"@) by { assert("left"@.len() != "bs"@.len()); }
    assert("left"@ != "tab"@) by { assert("left"@.len() != "tab"@.len()); }
    assert("left"@ != "del"@) by { assert("left"@.len() != "del"@.len()); }
    assert("left"@ != "delete"@) by { assert("left"@.len() != "delete"@.len()); }
    assert("right"@ != "esc"@) by { assert("right"@.len() != "esc"@.len()); }
    assert("right"@ != "ret"@) by { assert("right"@.len() != "ret"@.len()); }
    assert("right"@ != "enter"@) by { assert("right"@[0] != "enter"@[0]); }
    assert("right"@ != "backspace"@) by { assert("right"@.len() != "backspace"@.len()); }
    assert("right"@ != "bs"@) by { assert("right"@.len() != "bs"@.len()); }
    assert("right"@ != "tab"@) by { assert("right"@.len() != "tab"@.len()); }
    assert("right"@ != "del"@) by { assert("right"@.len() != "del"@.len()); }
    assert("right"@ != "delete"@) by { assert("right"@.len() != "delete"@.len()); }
    assert("right"@ != "left"@) by { assert("right"@.len() != "left"@.len()); }
    assert("up"@ != "esc"@) by { assert("up"@.len() != "esc"@.len()); }
    assert("up"@ != "ret"@) by { assert("up"@.len() != "ret"@.len()); }
    assert("up"@ != "enter"@) by { assert("up"@.len() != "enter"@.len()); }
    assert("up"@ != "backspace"@) by { assert("up"@.len() != "backspace"@.len()); }
    assert("up"@ != "bs"@) by { assert("up"@[0] != "bs"@[0]); }
    assert("up"@ != "tab"@) by { assert("up"@.len() != "tab"@.len()); }
    assert("up"@ != "del"@) by { assert("up"@.len() != "del"@.len()); }
    assert("up"@ != "delete"@) by { assert("up"@.len() != "delete"@.len()); }
    assert("up"@ != "left"@) by { assert("up"@.len() != "left"@.len()); }
    assert("up"@ != "right"@) by { assert("up"@.len() != "right"@.len()); }
    assert("down"@ != "esc"@) by { assert("down"@.len() != "esc"@.len()); }
    assert("down"@ != "ret"@) by { assert("down"@.len() != "ret"@.len()); }
    assert("down"@ != "enter"@) by { assert("down"@.len() != "enter"@.len()); }
    assert("down"@ != "backspace"@) by { assert("down"@.len() != "backspace"@.len()); }
    assert("down"@ != "bs"@) by { assert("down"@.len() != "bs"@.len()); }
    assert("down"@ != "tab"@) by { assert("down"@.len() != "tab"@.len()); }
    assert("down"@ != "del"@) by { assert("down"@.len() != "del"@.len()); }
    assert("down"@ != "delete"@) by { assert("down"@.len() != "delete"@.len()); }
    assert("down"@ != "left"@) by { assert("down"@[0] != "left"@[0]); }
    assert("down"@ != "right"@) by { assert("down"@.len() != "right"@.len()); }
    assert("down"@ != "up"@) by { assert("down"@.len() != "up"@.len()); }
    assert("home"@ != "esc"@) by { assert("home"@.len() != "esc"@.len()); }
    assert("home"@ != "ret"@) by { assert("home"@.len() != "ret"@.len()); }
    assert("home"@ != "enter"@) by { assert("home"@.len() != "enter"@.len()); }
    assert("home"@ != "backspace"@) by { assert("home"@.len() != "backspace"@.len()); }
    assert("home"@ != "bs"@) by { assert("home"@.len() != "bs"@.len()); }
    assert("home"@ != "tab"@) by { assert("home"@.len() != "tab"@.len()); }
    assert("home"@ != "del"@) by { assert("home"@.len() != "del"@.len()); }
    assert("home"@ != "delete"@) by { assert("home"@.len() != "delete"@.len()); }
    assert("home"@ != "left"@) by { assert("home"@[0] != "left"@[0]); }
    assert("home"@ != "right"@) by { assert("home"@.len() != "right"@.len()); }
    assert("home"@ != "up"@) by { assert("home"@.len() != "up"@.len()); }
    assert("home"@ != "down"@) by { assert("home"@[0] != "down"@[0]); }
    assert("end"@ != "esc"@) by { assert("end"@[1] != "esc"@[1]); }
    assert("end"@ != "ret"@) by { assert("end"@[0] != "ret"@[0]); }
    assert("end"@ != "enter"@) by { assert("end"@.len() != "enter"@.len()); }
    assert("end"@ != "backspace"@) by { assert("end"@.len() != "backspace"@.len()); }
    assert("end"@ != "bs"@) by { assert("end"@.len() != "bs"@.len()); }
    assert("end"@ != "tab"@) by { assert("end"@[0] != "tab"@[0]); }
    assert("end"@ != "del"@) by { assert("end"@[0] != "del"@[0]); }
    assert("end"@ != "delete"@) by { assert("end"@.len() != "delete"@.len()); }
    assert("end"@ != "left"@) by { assert("end"@.len() != "left"@.len()); }
    assert("end"@ != "right"@) by { assert("end"@.len() != "right"@.len()); }
    assert("end"@ != "up"@) by { assert("end"@.len() != "up"@.len()); }
    assert("end"@ != "down"@) by { assert("end"@.len() != "down"@.len()); }
    assert("end"@ != "home"@) by { assert("end"@.len() != "home"@.len()); }
    assert("pageup"@ != "esc"@) by { assert("pageup"@.len() != "esc"@.len()); }
    assert("pageup"@ != "ret"@) by { assert("pageup"@.len() != "ret"@.len()); }
    assert("pageup"@ != "enter"@) by { assert("pageup"@.len() != "enter"@.len()); }
    assert("pageup"@ != "backspace"@) by { assert("pageup"@.len() != "backspace"@.len()); }
    assert("pageup"@ != "bs"@) by { assert("pageup"@.len() != "bs"@.len()); }
    assert("pageup"@ != "tab"@) by { assert("pageup"@.len() != "tab"@.len()); }
    assert("pageup"@ != "del"@) by { assert("pageup"@.len() != "del"@.len()); }
    assert("pageup"@ != "delete"@) by { assert("pageup"@[0] != "delete"@[0]); }
    assert("pageup"@ != "left"@) by { assert("pageup"@.len() != "left"@.len()); }
    assert("pageup"@ != "right"@) by { assert("pageup"@.len() != "right"@.len()); }
    assert("pageup"@ != "up"@) by { assert("pageup"@.len() != "up"@.len()); }
    assert("pageup"@ != "down"@) by { assert("pageup"@.len() != "down"@.len()); }
    assert("pageup"@ != "home"@) by { assert("pageup"@.len() != "home"@.len()); }
    assert("pageup"@ != "end"@) by { assert("pageup"@.len() != "end"@.len()); }
    assert("pagedown"@ != "esc"@) by { assert("pagedown"@.len() != "esc"@.len()); }
    assert("pagedown"@ != "ret"@) by { assert("pagedown"@.len() != "ret"@.len()); }
    assert("pagedown"@ != "enter"@) by { assert("pagedown"@.len() != "enter"@.len()); }
    assert("pagedown"@ != "backspace"@) by { assert("pagedown"@.len() != "backspace"@.len()); }
    assert("pagedown"@ != "bs"@) by { assert("pagedown"@.len() != "bs"@.len()); }
    assert("pagedown"@ != "tab"@) by { assert("pagedown"@.len() != "tab"@.len()); }
    assert("pagedown"@ != "del"@) by { assert("pagedown"@.len() != "del"@.len()); }
    assert("pagedown"@ != "delete"@) by { assert("pagedown"@.len() != "delete"@.len()); }
    assert("pagedown"@ != "left"@) by { assert("pagedown"@.len() != "left"@.len()); }
    assert("pagedown"@ != "right"@) by { assert("pagedown"@.len() != "right"@.len()); }
    assert("pagedown"@ != "up"@) by { assert("pagedown"@.len() != "up"@.len()); }
    assert("pagedown"@ != "down"@) by { assert("pagedown"@.len() != "down"@.len()); }
    assert("pagedown"@ != "home"@) by { assert("pagedown"@.len() != "home"@.len()); }
    assert("pagedown"@ != "end"@) by { assert("pagedown"@.len() != "end"@.len()); }
    assert("pagedown"@ != "pageup"@) by { assert("pagedown"@.len() != "pageup"@.len()); }
    assert("space"@ != "esc"@) by { assert("space"@.len() != "esc"@.len()); }
    assert("space"@ != "ret"@) by { assert("space"@.len() != "ret"@.len()); }
    assert("space"@ != "enter"@) by { assert("space"@[0] != "enter"@[0]); }
    assert("space"@ != "backspace"@) by { assert("space"@.len() != "backspace"@.len()); }
    assert("space"@ != "bs"@) by { assert("space"@.len() != "bs"@.len()); }
    assert("space"@ != "tab"@) by { assert("space"@.len() != "tab"@.len()); }
    assert("space"@ != "del"@) by { assert("space"@.len() != "del"@.len()); }
    assert("space"@ != "delete"@) by { assert("space"@.len() != "delete"@.len()); }
    assert("space"@ != "left"@) by { assert("space"@.len() != "left"@.len()); }
    assert("space"@ != "right"@) by { assert("space"@[0] != "right"@[0]); }
    assert("space"@ != "up"@) by { assert("space"@.len() != "up"@.len()); }
    assert("space"@ != "down"@) by { assert("space"@.len() != "down"@.len()); }
    assert("space"@ != "home"@) by { assert("space"@.len() != "home"@.len()); }
    assert("space"@ != "end"@) by { assert("space"@.len() != "end"@.len()); }
    assert("space"@ != "pageup"@) by { assert("space"@.len() != "pageup"@.len()); }
    assert("space"@ != "pagedown"@) by { assert("space"@.len() != "pagedown"@.len()); }
    assert("minus"@ != "esc"@) by { assert("minus"@.len() != "esc"@.len()); }
    assert("minus"@ != "ret"@) by { assert("minus"@.len() != "ret"@.len()); }
    assert("minus"@ != "enter"@) by { assert("minus"@[0] != "enter"@[0]); }
    assert("minus"@ != "backspace"@) by { assert("minus"@.len() != "backspace"@.len()); }
    assert("minus"@ != "bs"@) by { assert("minus"@.len() != "bs"@.len()); }
    assert("minus"@ != "tab"@) by { assert("minus"@.len() != "tab"@.len()); }
    assert("minus"@ != "del"@) by { assert("minus"@.len() != "del"@.len()); }
    assert("minus"@ != "delete"@) by { assert("minus"@.len() != "delete"@.len()); }
    assert("minus"@ != "left"@) by { assert("minus"@.len() != "left"@.len()); }
    assert("minus"@ != "right"@) by { assert("minus"@[0] != "right"@[0]); }
    assert("minus"@ != "up"@) by { assert("minus"@.len() != "up"@.len()); }
    assert("minus"@ != "down"@) by { assert("minus"@.len() != "down"@.len()); }
    assert("minus"@ != "home"@) by { assert("minus"@.len() != "home"@.len()); }
    assert("minus"@ != "end"@) by { assert("minus"@.len() != "end"@.len()); }
    assert("minus"@ != "pageup"@) by { assert("minus"@.len() != "pageup"@.len()); }
    assert("minus"@ != "pagedown"@) by { assert("minus"@.len() != "pagedown"@.len()); }
    assert("minus"@ != "space"@) by { assert("minus"@[0] != "space"@[0]); }
    assert("null"@ != "esc"@) by { assert("null"@.len() != "esc"@.len()); }
    assert("null"@ != "ret"@) by { assert("null"@.len() != "ret"@.len()); }
    assert("null"@ != "enter"@) by { assert("null"@.len() != "enter"@.len()); }
    assert("null"@ != "backspace"@) by { assert("null"@.len() != "backspace"@.len()); }
    assert("null"@ != "bs"@) by { assert("null"@.len() != "bs"@.len()); }
    assert("null"@ != "tab"@) by { assert("null"@.len() != "tab"@.len()); }
    assert("null"@ != "del"@) by { assert("null"@.len() != "del"@.len()); }
    assert("null"@ != "delete"@) by { assert("null"@.len() != "delete"@.len()); }
    assert("null"@ != "left"@) by { assert("null"@[0] != "left"@[0]); }
    assert("null"@ != "right"@) by { assert("null"@.len() != "right"@.len()); }
    assert("null"@ != "up"@) by { assert("null"@.len() != "up"@.len()); }
    assert("null"@ != "down"@) by { assert("null"@[0] != "down"@[0]); }
    assert("null"@ != "home"@) by { assert("null"@[0] != "home"@[0]); }
    assert("null"@ != "end"@) by { assert("null"@.len() != "end"@.len()); }
    assert("null"@ != "pageup"@) by { assert("null"@.len() != "pageup"@.len()); }
    assert("null"@ != "pagedown"@) by { assert("null"@.len() != "pagedown"@.len()); }
    assert("null"@ != "space"@) by { assert("null"@.len() != "space"@.len()); }
    assert("null"@ != "minus"@) by { assert("null"@.len() != "minus"@.len()); }
}

/// The text of a key code that reads back: not empty, no dash, no
/// whitespace at its ends, not starting with `<` unless it is one
/// character, and it names the code.
proof fn lemma_code_text(code: KeyCode, s: Seq<char>)
    requires
        match code {
            KeyCode::Char(c) => c == ' ' || ((c as u32) < 128 && !spec_is_whitespace(c)),
            KeyCode::F(n) => 1 <= n <= 24,
            _ => true,
        },
    ensures
        spec_code_text(code).len() >= 1,
        !spec_code_text(code).contains('-'),
        !spec_is_whitespace(spec_code_text(code)[0]),
        !spec_is_whitespace(spec_code_text(code).last()),
        spec_code_text(code).len() > 1 ==> spec_code_text(code)[0] != '<',
        spec_code_text(code) != "-"@,
        spec_token_code(spec_code_text(code), s) == Ok::<KeyCode, Seq<char>>(code),
{
    reveal_strlit("-");
    reveal_strlit("esc");
    reveal_strlit("ret");
    reveal_strlit("enter");
    reveal_strlit("backspace");
    reveal_strlit("bs");
    reveal_strlit("tab");
    reveal_strlit("del");
    reveal_strlit("delete");
    reveal_strlit("left");
    reveal_strlit("right");
    reveal_strlit("up");
    reveal_strlit("down");
    reveal_strlit("home");
    reveal_strlit("end");
    reveal_strlit("pageup");
    reveal_strlit("pagedown");
    reveal_strlit("space");
    reveal_strlit("minus");
    reveal_strlit("null");
    reveal_strlit("F");
    let ct = spec_code_text(code);
    lemma_key_names_distinct();
    match code {
        KeyCode::F(n) => {
            lemma_decimal_value(n as nat);
            assert(ct != "esc"@) by { if ct == "esc"@ { assert(ct[0] == "esc"@[0]); } }
            assert(ct != "ret"@) by { if ct == "ret"@ { assert(ct[0] == "ret"@[0]); } }
            assert(ct != "enter"@) by { if ct == "enter"@ { assert(ct[0] == "enter"@[0]); } }
            assert(ct != "backspace"@) by { if ct == "backspace"@ { assert(ct[0] == "backspace"@[0]); } }
            assert(ct != "bs"@) by { if ct == "bs"@ { assert(ct[0] == "bs"@[0]); } }
            assert(ct != "tab"@) by { if ct == "tab"@ { assert(ct[0] == "tab"@[0]); } }
            assert(ct != "del"@) by { if ct == "del"@ { assert(ct[0] == "del"@[0]); } }
            assert(ct != "delete"@) by { if ct == "delete"@ { assert(ct[0] == "delete"@[0]); } }
            assert(ct != "left"@) by { if ct == "left"@ { assert(ct[0] == "left"@[0]); } }
            assert(ct != "right"@) by { if ct == "right"@ { assert(ct[0] == "right"@[0]); } }
            assert(ct != "up"@) by { if ct == "up"@ { assert(ct[0] == "up"@[0]); } }
            assert(ct != "down"@) by { if ct == "down"@ { assert(ct[0] == "down"@[0]); } }
            assert(ct != "home"@) by { if ct == "home"@ { assert(ct[0] == "home"@[0]); } }
            assert(ct != "end"@) by { if ct == "end"@ { assert(ct[0] == "end"@[0]); } }
            assert(ct != "pageup"@) by { if ct == "pageup"@ { assert(ct[0] == "pageup"@[0]); } }
            assert(ct != "pagedown"@) by { if ct == "pagedown"@ { assert(ct[0] == "pagedown"@[0]); } }
            assert(ct != "space"@) by { if ct == "space"@ { assert(ct[0] == "space"@[0]); } }
            assert(ct != "minus"@) by { if ct == "minus"@ { assert(ct[0] == "minus"@[0]); } }
            assert(ct != "null"@) by { if ct == "null"@ { assert(ct[0] == "null"@[0]); } }

            let d = spec_decimal(n as nat);
            assert(ct =~= seq!['F'] + d);
            assert(ct.drop_first() =~= d);
            assert(!ct.contains('-')) by {
                if ct.contains('-') {
                    let i = choose|i: int| 0 <= i < ct.len() && ct[i] == '-';
                    assert(ct[i] == d[i - 1]);
                    assert(spec_is_ascii_digit(d[i - 1]));
                }
            }
            assert(ct.last() == d[d.len() - 1]);
            assert(spec_is_ascii_digit(d[d.len() - 1]));
        },
        KeyCode::Char(c) => {
            if c != ' ' && c != '-' {
                assert(ct =~= seq![c]);
                assert(ct.drop_last() =~= Seq::<char>::empty());
            }
        },
        _ => {},
    }
}

/// Parsing the text that `to_string` writes for a key gives the key back,
/// for every canonical key whose text is ASCII without whitespace and
/// whose `F` number is one the parser accepts.
pub proof fn lemma_key_text_roundtrip(key: KeyEvent)
    requires
        key_text_roundtrips(key),
    ensures
        spec_parse_key(spec_key_text(key)) == Ok::<KeyEvent, Seq<char>>(key),
{
    let m = key.modifiers;
    let names = modifier_names(m);
    let mt = spec_modifiers_text(m);
    let ct = spec_code_text(key.code);
    let text = spec_key_text(key);
    lemma_modifiers_text(m);
    lemma_code_text(key.code, text);
    assert(text =~= dash_joined(names) + ct);
    assert(!spec_is_whitespace(text[0])) by {
        if mt.len() > 0 {
            assert(text[0] == mt[0]);
        } else {
            assert(text[0] == ct[0]);
        }
    }
    assert(text.last() == ct.last());
    assert(trim_start(text) == text);
    assert(trim_end(text) == text);
    assert(spec_trim(text) == text);
    assert(strip_angle(text) == text) by {
        if text.len() >= 3 && text[0] == '<' {
            assert(mt.len() == 0);
            assert(text =~= ct);
        }
    }
    assert(text != "-"@) by {
        reveal_strlit("-");
        if text == "-"@ {
            assert(mt.len() == 0);
            assert(text =~= ct);
        }
    }
    lemma_split_dash_joined(names, ct);
    let toks = split_on(text, '-');
    assert(toks.last() == ct);
    assert(toks.drop_last() =~= names);
}

} // verus!
