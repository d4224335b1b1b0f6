//! Valve KeyValues: text VDF (PICS app info) and binary KV (package info,
//! machine ids).

use vstd::prelude::*;
use vstd::utf8::{decode_utf8, valid_utf8};

use crate::text::{
    chars_eq, chars_eq_ignore_case, decimal, eq_ignore_case, is_ws, parse_u32, parse_u64,
    parse_unsigned, signed_decimal, str_chars, string_chars, string_from_chars, trim, trim_chars,
    char_is_ws, u64_to_string,
};

verus! {

/// A KeyValues node: a name, an optional value, and child nodes.
#[derive(Debug)]
pub struct KeyValue {
    pub name: String,
    pub value: Option<String>,
    pub children: Vec<KeyValue>,
}

/// Mathematical model of a [`KeyValue`] tree.
pub struct KvModel {
    pub name: Seq<char>,
    pub value: Option<Seq<char>>,
    pub children: Seq<KvModel>,
}

pub open spec fn opt_str_view(v: Option<String>) -> Option<Seq<char>> {
    match v {
        Some(s) => Some(s@),
        None => None,
    }
}

pub open spec fn empty_model() -> KvModel {
    KvModel { name: seq![], value: None, children: seq![] }
}

pub open spec fn kv_model(kv: KeyValue) -> KvModel
    decreases kv,
{
    KvModel {
        name: kv.name@,
        value: opt_str_view(kv.value),
        children: Seq::new(
            kv.children@.len(),
            |i: int|
                if 0 <= i < kv.children@.len() {
                    kv_model(kv.children@[i])
                } else {
                    empty_model()
                },
        ),
    }
}

impl View for KeyValue {
    type V = KvModel;

    open spec fn view(&self) -> KvModel {
        kv_model(*self)
    }
}

/// A node with a name and no value or children.
pub open spec fn node_model(name: Seq<char>) -> KvModel {
    KvModel { name, value: None, children: seq![] }
}

/// A leaf node with a value.
pub open spec fn leaf_model(name: Seq<char>, value: Seq<char>) -> KvModel {
    KvModel { name, value: Some(value), children: seq![] }
}

/// The node with one more child appended.
pub open spec fn with_child(m: KvModel, c: KvModel) -> KvModel {
    KvModel { children: m.children.push(c), ..m }
}

/// Index of the first child whose name equals `name` up to ASCII case,
/// searching from index `i`.
pub open spec fn find_child_from(cs: Seq<KvModel>, name: Seq<char>, i: int) -> Option<int>
    decreases cs.len() - i,
{
    if 0 <= i < cs.len() {
        if eq_ignore_case(cs[i].name, name) {
            Some(i)
        } else {
            find_child_from(cs, name, i + 1)
        }
    } else {
        None
    }
}

/// The first direct child named `name` (ASCII case-insensitive).
pub open spec fn child_named(m: KvModel, name: Seq<char>) -> Option<KvModel> {
    match find_child_from(m.children, name, 0) {
        Some(i) => Some(m.children[i]),
        None => None,
    }
}

/// `str::split` on one separator character.
pub open spec fn split_on(s: Seq<char>, sep: char) -> Seq<Seq<char>>
    decreases s.len(),
{
    if s.len() == 0 {
        seq![seq![]]
    } else {
        let r = split_on(s.drop_last(), sep);
        if s.last() == sep {
            r.push(seq![])
        } else {
            r.update(r.len() - 1, r.last().push(s.last()))
        }
    }
}

/// Follows a sequence of child names from `m`.
pub open spec fn follow(m: KvModel, parts: Seq<Seq<char>>) -> Option<KvModel>
    decreases parts.len(),
{
    if parts.len() == 0 {
        Some(m)
    } else {
        match follow(m, parts.drop_last()) {
            Some(n) => child_named(n, parts.last()),
            None => None,
        }
    }
}

/// The node at a `/`-separated path below `m`.
pub open spec fn path_spec(m: KvModel, path: Seq<char>) -> Option<KvModel> {
    follow(m, split_on(path, '/'))
}

/// Numeric value of a node, as `trim().parse()` gives it.
pub open spec fn value_number(m: KvModel, max: int) -> Option<int> {
    match m.value {
        Some(v) => parse_unsigned(trim(v), max),
        None => None,
    }
}

/// A node's value read as a boolean: `1`, `true` or `True`.
pub open spec fn value_bool(m: KvModel) -> bool {
    match m.value {
        Some(v) => v == seq!['1'] || v == seq!['t', 'r', 'u', 'e'] || v == seq![
            'T',
            'r',
            'u',
            'e',
        ],
        None => false,
    }
}

proof fn lemma_split_on_nonempty(s: Seq<char>, sep: char)
    ensures
        split_on(s, sep).len() >= 1,
    decreases s.len(),
{
    if s.len() > 0 {
        lemma_split_on_nonempty(s.drop_last(), sep);
    }
}

/// `String::from_utf8_lossy`: decodes UTF-8, replacing invalid sequences.
pub uninterp spec fn utf8_lossy(bytes: Seq<u8>) -> Seq<char>;

/// The text `String::from_utf8_lossy` gives: exactly the characters of
/// valid UTF-8, else the named result.
pub open spec fn lossy_text(bytes: Seq<u8>) -> Seq<char> {
    if valid_utf8(bytes) {
        decode_utf8(bytes)
    } else {
        utf8_lossy(bytes)
    }
}

/// Calls `String::from_utf8_lossy`. The result is named by [`utf8_lossy`];
/// valid UTF-8 decodes to exactly its characters, as std documents.
#[verifier::external_body]
pub(crate) fn utf8_lossy_string(bytes: &[u8]) -> (r: String)
    ensures
        r@ == utf8_lossy(bytes@),
        valid_utf8(bytes@) ==> r@ == decode_utf8(bytes@),
{
    String::from_utf8_lossy(bytes).into_owned()
}

/// `String::from_utf16_lossy`: decodes UTF-16, replacing invalid units.
pub uninterp spec fn utf16_lossy(units: Seq<u16>) -> Seq<char>;

/// No unit is a surrogate: each one is a whole character.
pub open spec fn no_surrogates(units: Seq<u16>) -> bool {
    forall|i: int| 0 <= i < units.len() ==> !(0xD800 <= #[trigger] units[i] <= 0xDFFF)
}

/// The text `String::from_utf16_lossy` gives: one character per unit when
/// no unit is a surrogate, else the named result.
pub open spec fn lossy_wide_text(units: Seq<u16>) -> Seq<char> {
    if no_surrogates(units) {
        units.map_values(|u: u16| u as char)
    } else {
        utf16_lossy(units)
    }
}

/// Calls `String::from_utf16_lossy`; the result is named by [`utf16_lossy`].
/// Units that are no surrogates decode one to one to the characters of the
/// same value, as std documents for valid UTF-16.
#[verifier::external_body]
pub(crate) fn utf16_lossy_string(units: &[u16]) -> (r: String)
    ensures
        r@ == utf16_lossy(units@),
        no_surrogates(units@) ==> r@ == units@.map_values(|u: u16| u as char),
{
    String::from_utf16_lossy(units)
}

impl KeyValue {
    /// A node with a name and neither value nor children.
    pub fn new(name: &str) -> (r: KeyValue)
        ensures
            r@ == node_model(name@),
    {
        let r = KeyValue { name: string_from_chars(str_chars(name).as_slice()), value: None, children: Vec::new() };
        assert(r@.children =~= seq![]);
        r
    }

    /// A leaf node with a value.
    pub fn with_value(name: &str, value: &str) -> (r: KeyValue)
        ensures
            r@ == leaf_model(name@, value@),
    {
        let r = KeyValue {
            name: string_from_chars(str_chars(name).as_slice()),
            value: Some(string_from_chars(str_chars(value).as_slice())),
            children: Vec::new(),
        };
        assert(r@.children =~= seq![]);
        r
    }

    /// Finds the first direct child with the given name (ASCII case-insensitive).
    pub fn get(&self, name: &str) -> (r: Option<&KeyValue>)
        ensures
            r matches Some(c) ==> child_named(self@, name@) == Some(c@),
            r is None ==> child_named(self@, name@) is None,
    {
        let needle = str_chars(name);
        let mut i: usize = 0;
        while i < self.children.len()
            invariant
                i <= self.children.len(),
                needle@ == name@,
                self@.children.len() == self.children@.len(),
                find_child_from(self@.children, name@, 0) == find_child_from(
                    self@.children,
                    name@,
                    i as int,
                ),
            decreases self.children.len() - i,
        {
            let cname = string_chars(&self.children[i].name);
            assert(self@.children[i as int] == self.children@[i as int]@);
            if chars_eq_ignore_case(cname.as_slice(), needle.as_slice()) {
                return Some(&self.children[i]);
            }
            i = i + 1;
        }
        None
    }

    /// Navigates a path like `depots/731/manifests/public/gid`.
    pub fn path(&self, path: &str) -> (r: Option<&KeyValue>)
        ensures
            r matches Some(c) ==> path_spec(self@, path@) == Some(c@),
            r is None ==> path_spec(self@, path@) is None,
    {
        let parts = split_chars(str_chars(path).as_slice(), '/');
        let ghost pv = split_on(path@, '/');
        let mut cur: &KeyValue = self;
        let mut k: usize = 0;
        assert(pv.subrange(0, 0) =~= seq![]);
        while k < parts.len()
            invariant
                k <= parts.len(),
                pv == split_on(path@, '/'),
                pv.len() == parts@.len(),
                forall|j: int| 0 <= j < pv.len() ==> #[trigger] pv[j] == parts@[j]@,
                follow(self@, pv.subrange(0, k as int)) == Some(cur@),
            decreases parts.len() - k,
        {
            let part = string_from_chars(parts[k].as_slice());
            assert(pv.subrange(0, k + 1).drop_last() =~= pv.subrange(0, k as int));
            assert(pv.subrange(0, k + 1).last() == pv[k as int]);
            assert(part@ == pv[k as int]);
            match cur.get(part.as_str()) {
                Some(next) => {
                    cur = next;
                },
                None => {
                    proof {
                        lemma_follow_none_extends(self@, pv, k as int + 1);
                        assert(pv.subrange(0, pv.len() as int) =~= pv);
                    }
                    assert(follow(self@, pv.subrange(0, k + 1)) is None);
                    return None;
                },
            }
            k = k + 1;
        }
        assert(pv.subrange(0, k as int) =~= pv);
        Some(cur)
    }

    /// The node's value as a string slice.
    pub fn value_str(&self) -> (r: Option<&str>)
        ensures
            r matches Some(s) ==> self@.value == Some(s@),
            r is None ==> self@.value is None,
    {
        match &self.value {
            Some(v) => Some(v.as_str()),
            None => None,
        }
    }

    /// The trimmed value parsed as a `u32`.
    pub fn as_u32(&self) -> (r: Option<u32>)
        ensures
            r matches Some(v) ==> value_number(self@, u32::MAX as int) == Some(v as int),
            r is None ==> value_number(self@, u32::MAX as int) is None,
    {
        match &self.value {
            Some(v) => {
                let t = trim_chars(string_chars(v).as_slice());
                parse_u32(t.as_slice())
            },
            None => None,
        }
    }

    /// The trimmed value parsed as a `u64`.
    pub fn as_u64(&self) -> (r: Option<u64>)
        ensures
            r matches Some(v) ==> value_number(self@, u64::MAX as int) == Some(v as int),
            r is None ==> value_number(self@, u64::MAX as int) is None,
    {
        match &self.value {
            Some(v) => {
                let t = trim_chars(string_chars(v).as_slice());
                parse_u64(t.as_slice())
            },
            None => None,
        }
    }

    /// True for the values `1`, `true` and `True`.
    pub fn as_bool(&self) -> (r: bool)
        ensures
            r == value_bool(self@),
    {
        match &self.value {
            Some(v) => {
                let cs = string_chars(v);
                let one = chars_eq(cs.as_slice(), &['1']);
                let t1 = chars_eq(cs.as_slice(), &['t', 'r', 'u', 'e']);
                let t2 = chars_eq(cs.as_slice(), &['T', 'r', 'u', 'e']);
                proof {
                    assert(seq!['1'] =~= [ '1' ]@);
                    assert(seq!['t', 'r', 'u', 'e'] =~= [ 't', 'r', 'u', 'e' ]@);
                    assert(seq!['T', 'r', 'u', 'e'] =~= [ 'T', 'r', 'u', 'e' ]@);
                }
                one || t1 || t2
            },
            None => false,
        }
    }

    /// A deep copy of this node.
    pub fn duplicate(&self) -> (r: KeyValue)
        ensures
            r@ == self@,
        decreases self,
    {
        let mut children: Vec<KeyValue> = Vec::new();
        let mut i: usize = 0;
        while i < self.children.len()
            invariant
                i <= self.children.len(),
                children@.len() == i,
                forall|j: int| 0 <= j < i ==> #[trigger] children@[j]@ == self.children@[j]@,
            decreases self.children.len() - i,
        {
            assert(decreases_to!(self => self.children));
            children.push(self.children[i].duplicate());
            i = i + 1;
        }
        let value = match &self.value {
            Some(v) => Some(v.clone()),
            None => None,
        };
        let r = KeyValue { name: self.name.clone(), value, children };
        assert forall|j: int| 0 <= j < r@.children.len() implies r@.children[j] == self@.children[j] by {
            assert(r@.children[j] == r.children@[j]@);
            assert(self@.children[j] == self.children@[j]@);
        }
        assert(r@.children =~= self@.children);
        r
    }

    /// Appends a child node.
    pub fn push_child(&mut self, child: KeyValue)
        ensures
            final(self)@ == with_child(old(self)@, child@),
    {
        self.children.push(child);
        assert(self@.children =~= old(self)@.children.push(child@));
    }
}

impl Default for KeyValue {
    fn default() -> (r: KeyValue)
        ensures
            r@ == node_model(seq![]),
    {
        let r = KeyValue { name: String::new(), value: None, children: Vec::new() };
        assert(r@.children =~= seq![]);
        r
    }
}

proof fn lemma_follow_none_extends(m: KvModel, parts: Seq<Seq<char>>, k: int)
    requires
        0 <= k <= parts.len(),
        follow(m, parts.subrange(0, k)) is None,
    ensures
        follow(m, parts) is None,
    decreases parts.len() - k,
{
    if k < parts.len() {
        assert(parts.subrange(0, k + 1).drop_last() =~= parts.subrange(0, k));
        lemma_follow_none_extends(m, parts, k + 1);
    } else {
        assert(parts.subrange(0, k) =~= parts);
    }
}

/// Splits a character sequence on a separator (`str::split`).
pub fn split_chars(s: &[char], sep: char) -> (r: Vec<Vec<char>>)
    ensures
        r@.len() == split_on(s@, sep).len(),
        forall|j: int| 0 <= j < r@.len() ==> #[trigger] r@[j]@ == split_on(s@, sep)[j],
{
    let mut out: Vec<Vec<char>> = Vec::new();
    out.push(Vec::new());
    let mut i: usize = 0;
    assert(s@.subrange(0, 0) =~= seq![]);
    while i < s.len()
        invariant
            i <= s.len(),
            out@.len() == split_on(s@.subrange(0, i as int), sep).len(),
            out@.len() >= 1,
            forall|j: int|
                0 <= j < out@.len() ==> #[trigger] out@[j]@ == split_on(
                    s@.subrange(0, i as int),
                    sep,
                )[j],
        decreases s.len() - i,
    {
        let ghost prev = s@.subrange(0, i as int);
        let ghost next = s@.subrange(0, i + 1);
        assert(next.drop_last() =~= prev);
        assert(next.last() == s@[i as int]);
        proof {
            lemma_split_on_nonempty(prev, sep);
        }
        if s[i] == sep {
            out.push(Vec::new());
        } else {
            let last = out.len() - 1;
            let mut piece = out[last].clone();
            piece.push(s[i]);
            out.set(last, piece);
        }
        i = i + 1;
        proof {
            assert forall|j: int| 0 <= j < out@.len() implies #[trigger] out@[j]@ == split_on(
                s@.subrange(0, i as int),
                sep,
            )[j] by {}
        }
    }
    assert(s@.subrange(0, s.len() as int) =~= s@);
    out
}

// ============================================================
// Text VDF
// ============================================================

/// Why a KeyValues document was rejected.
#[derive(Debug, Clone, Copy, PartialEq, Eq)]
pub enum KvError {
    /// A quoted string has no closing quote.
    UnterminatedQuote,
    /// The token stream ended inside a block or after a key.
    UnexpectedEof,
    /// Binary KV: the buffer ended early.
    BinaryEof,
    /// Binary KV: a string has no terminating NUL.
    UnterminatedString,
    /// Binary KV: a wide string has no terminating NUL pair.
    UnterminatedWideString,
    /// Binary KV: an unknown value type tag.
    UnknownType(u8),
}

/// Escaped character after a backslash inside quotes.
pub open spec fn unescape(c: char) -> char {
    if c == 'n' {
        '\n'
    } else if c == 't' {
        '\t'
    } else if c == 'r' {
        '\r'
    } else {
        c
    }
}

/// Reads a quoted string whose opening quote was just consumed; `None`
/// when the closing quote is missing.
pub open spec fn read_quoted(c: Seq<char>, i: int, acc: Seq<char>) -> Option<(Seq<char>, int)>
    decreases c.len() - i,
{
    if i < 0 || i >= c.len() {
        None
    } else if c[i] == '\\' && i + 1 < c.len() {
        read_quoted(c, i + 2, acc.push(unescape(c[i + 1])))
    } else if c[i] == '"' {
        Some((acc, i + 1))
    } else {
        read_quoted(c, i + 1, acc.push(c[i]))
    }
}

/// Reads a `[...]` conditional: everything up to `]`, which is consumed.
pub open spec fn read_bracket(c: Seq<char>, i: int, acc: Seq<char>) -> (Seq<char>, int)
    decreases c.len() - i,
{
    if i < 0 || i >= c.len() {
        (acc, i)
    } else if c[i] == ']' {
        (acc, i + 1)
    } else {
        read_bracket(c, i + 1, acc.push(c[i]))
    }
}

/// Characters that end a bare token at index `i`.
pub open spec fn ends_bare(c: Seq<char>, i: int) -> bool {
    is_ws(c[i]) || c[i] == '{' || c[i] == '}' || c[i] == '"' || (c[i] == '/' && i + 1 < c.len()
        && c[i + 1] == '/')
}

/// Reads an unquoted token.
pub open spec fn read_bare(c: Seq<char>, i: int, acc: Seq<char>) -> (Seq<char>, int)
    decreases c.len() - i,
{
    if i < 0 || i >= c.len() || ends_bare(c, i) {
        (acc, i)
    } else {
        read_bare(c, i + 1, acc.push(c[i]))
    }
}

/// Index of the next newline at or after `i` (or the end).
pub open spec fn skip_line(c: Seq<char>, i: int) -> int
    decreases c.len() - i,
{
    if i < 0 || i >= c.len() || c[i] == '\n' {
        i
    } else {
        skip_line(c, i + 1)
    }
}

/// Tokens of VDF text from index `i`, appended to `acc`; `None` when a
/// quoted string is unterminated.
pub open spec fn tokens_from(c: Seq<char>, i: int, acc: Seq<Seq<char>>) -> Option<Seq<Seq<char>>>
    decreases c.len() - i,
{
    if i < 0 || i >= c.len() {
        Some(acc)
    } else {
        let ch = c[i];
        if ch == ' ' || ch == '\t' || ch == '\r' || ch == '\n' {
            tokens_from(c, i + 1, acc)
        } else if ch == '/' && i + 1 < c.len() && c[i + 1] == '/' {
            proof {
                lemma_skip_line_ge(c, i + 1);
            }
            tokens_from(c, skip_line(c, i), acc)
        } else if ch == '{' || ch == '}' {
            tokens_from(c, i + 1, acc.push(seq![ch]))
        } else if ch == '"' {
            proof {
                lemma_read_quoted_progress(c, i + 1, seq![]);
            }
            match read_quoted(c, i + 1, seq![]) {
                Some((s, j)) => tokens_from(c, j, acc.push(s)),
                None => None,
            }
        } else if ch == '[' {
            proof {
                lemma_read_bracket_progress(c, i, seq![]);
            }
            let (s, j) = read_bracket(c, i, seq![]);
            tokens_from(c, j, acc.push(s))
        } else {
            proof {
                lemma_read_bare_progress(c, i, seq![]);
            }
            let (s, j) = read_bare(c, i, seq![]);
            if s.len() == 0 {
                tokens_from(c, i + 1, acc)
            } else {
                tokens_from(c, j, acc.push(s))
            }
        }
    }
}

/// Tokenization of VDF text.
pub open spec fn tokenize_spec(c: Seq<char>) -> Option<Seq<Seq<char>>> {
    tokens_from(c, 0, seq![])
}

proof fn lemma_skip_line(c: Seq<char>, i: int)
    requires
        0 <= i < c.len(),
        c[i] == '/',
    ensures
        i < skip_line(c, i) <= c.len(),
        forall|k: int| i <= k < skip_line(c, i) ==> c[k] != '\n',
    decreases c.len() - i,
{
    lemma_skip_line_ge(c, i + 1);
}

/// Skipping a comment line stops at the next newline or the end, never
/// before where it started.
pub proof fn lemma_skip_line_ge(c: Seq<char>, i: int)
    requires
        0 <= i <= c.len(),
    ensures
        i <= skip_line(c, i) <= c.len(),
        forall|k: int| i <= k < skip_line(c, i) ==> c[k] != '\n',
        skip_line(c, i) < c.len() ==> c[skip_line(c, i)] == '\n',
    decreases c.len() - i,
{
    if i < c.len() && c[i] != '\n' {
        lemma_skip_line_ge(c, i + 1);
    }
}

/// Reading a quoted string moves past where it started.
pub proof fn lemma_read_quoted_progress(c: Seq<char>, i: int, acc: Seq<char>)
    requires
        0 <= i,
    ensures
        read_quoted(c, i, acc) matches Some((_, j)) ==> i < j <= c.len(),
    decreases c.len() - i,
{
    if i < c.len() {
        if c[i] == '\\' && i + 1 < c.len() {
            lemma_read_quoted_progress(c, i + 2, acc.push(unescape(c[i + 1])));
        } else if c[i] != '"' {
            lemma_read_quoted_progress(c, i + 1, acc.push(c[i]));
        }
    }
}

/// Reading a bracketed condition moves forward and stays in the text.
pub proof fn lemma_read_bracket_progress(c: Seq<char>, i: int, acc: Seq<char>)
    requires
        0 <= i <= c.len(),
    ensures
        i <= read_bracket(c, i, acc).1 <= c.len(),
        i < c.len() ==> i < read_bracket(c, i, acc).1,
    decreases c.len() - i,
{
    if i < c.len() && c[i] != ']' {
        lemma_read_bracket_progress(c, i + 1, acc.push(c[i]));
    }
}

/// Reading a bare token moves forward and keeps every character it passes.
pub proof fn lemma_read_bare_progress(c: Seq<char>, i: int, acc: Seq<char>)
    requires
        0 <= i <= c.len(),
    ensures
        i <= read_bare(c, i, acc).1 <= c.len(),
        read_bare(c, i, acc).0.len() == acc.len() + (read_bare(c, i, acc).1 - i),
    decreases c.len() - i,
{
    if i < c.len() && !ends_bare(c, i) {
        lemma_read_bare_progress(c, i + 1, acc.push(c[i]));
    }
}

/// Reads a quoted string starting just after the opening quote.
fn lex_quoted(c: &Vec<char>, start: usize) -> (r: Option<(Vec<char>, usize)>)
    requires
        start <= c.len(),
    ensures
        match read_quoted(c@, start as int, seq![]) {
            Some((s, j)) => r matches Some((v, k)) && v@ == s && k == j,
            None => r is None,
        },
{
    let mut i = start;
    let mut acc: Vec<char> = Vec::new();
    loop
        invariant
            start <= i <= c.len(),
            read_quoted(c@, start as int, seq![]) == read_quoted(c@, i as int, acc@),
        decreases c.len() - i,
    {
        if i >= c.len() {
            return None;
        }
        let ch = c[i];
        if ch == '\\' && i + 1 < c.len() {
            let next = c[i + 1];
            let un = if next == 'n' {
                '\n'
            } else if next == 't' {
                '\t'
            } else if next == 'r' {
                '\r'
            } else {
                next
            };
            acc.push(un);
            i = i + 2;
        } else if ch == '"' {
            return Some((acc, i + 1));
        } else {
            acc.push(ch);
            i = i + 1;
        }
    }
}

/// Reads a `[...]` conditional starting at `start`.
fn lex_bracket(c: &Vec<char>, start: usize) -> (r: (Vec<char>, usize))
    requires
        start <= c.len(),
    ensures
        r.0@ == read_bracket(c@, start as int, seq![]).0,
        r.1 == read_bracket(c@, start as int, seq![]).1,
{
    let mut i = start;
    let mut acc: Vec<char> = Vec::new();
    while i < c.len() && c[i] != ']'
        invariant
            start <= i <= c.len(),
            read_bracket(c@, start as int, seq![]) == read_bracket(c@, i as int, acc@),
        decreases c.len() - i,
    {
        acc.push(c[i]);
        i = i + 1;
    }
    if i < c.len() {
        i = i + 1;
    }
    (acc, i)
}

fn ends_bare_exec(c: &Vec<char>, i: usize) -> (r: bool)
    requires
        i < c.len(),
    ensures
        r == ends_bare(c@, i as int),
{
    let ch = c[i];
    char_is_ws(ch) || ch == '{' || ch == '}' || ch == '"' || (ch == '/' && i + 1 < c.len() && c[i
        + 1] == '/')
}

/// Reads an unquoted token starting at `start`.
fn lex_bare(c: &Vec<char>, start: usize) -> (r: (Vec<char>, usize))
    requires
        start <= c.len(),
    ensures
        r.0@ == read_bare(c@, start as int, seq![]).0,
        r.1 == read_bare(c@, start as int, seq![]).1,
{
    let mut i = start;
    let mut acc: Vec<char> = Vec::new();
    while i < c.len() && !ends_bare_exec(c, i)
        invariant
            start <= i <= c.len(),
            read_bare(c@, start as int, seq![]) == read_bare(c@, i as int, acc@),
        decreases c.len() - i,
    {
        acc.push(c[i]);
        i = i + 1;
    }
    (acc, i)
}

/// Index of the next newline at or after `start` (or the end).
fn skip_line_exec(c: &Vec<char>, start: usize) -> (r: usize)
    requires
        start <= c.len(),
    ensures
        r == skip_line(c@, start as int),
{
    let mut i = start;
    while i < c.len() && c[i] != '\n'
        invariant
            start <= i <= c.len(),
            skip_line(c@, start as int) == skip_line(c@, i as int),
        decreases c.len() - i,
    {
        i = i + 1;
    }
    i
}

/// Tokenizes VDF text into strings and braces, honoring quotes, escapes and
/// `//` comments; conditionals `[...]` become single tokens.
fn tokenize(c: &Vec<char>) -> (r: Result<Vec<Vec<char>>, KvError>)
    ensures
        match tokenize_spec(c@) {
            Some(t) => r matches Ok(v) && v@.len() == t.len() && forall|j: int|
                0 <= j < t.len() ==> #[trigger] v@[j]@ == t[j],
            None => r == Err::<Vec<Vec<char>>, KvError>(KvError::UnterminatedQuote),
        },
{
    let mut i: usize = 0;
    let mut tokens: Vec<Vec<char>> = Vec::new();
    let ghost mut acc: Seq<Seq<char>> = seq![];
    while i < c.len()
        invariant
            i <= c.len(),
            tokens@.len() == acc.len(),
            forall|j: int| 0 <= j < acc.len() ==> #[trigger] tokens@[j]@ == acc[j],
            tokenize_spec(c@) == tokens_from(c@, i as int, acc),
        decreases c.len() - i,
    {
        let ch = c[i];
        if ch == ' ' || ch == '\t' || ch == '\r' || ch == '\n' {
            i = i + 1;
        } else if ch == '/' && i + 1 < c.len() && c[i + 1] == '/' {
            proof {
                lemma_skip_line(c@, i as int);
            }
            i = skip_line_exec(c, i);
        } else if ch == '{' || ch == '}' {
            let mut t: Vec<char> = Vec::new();
            t.push(ch);
            proof {
                assert(t@ =~= seq![ch]);
                acc = acc.push(seq![ch]);
            }
            tokens.push(t);
            i = i + 1;
        } else if ch == '"' {
            proof {
                lemma_read_quoted_progress(c@, i + 1, seq![]);
            }
            match lex_quoted(c, i + 1) {
                Some((s, j)) => {
                    proof {
                        acc = acc.push(s@);
                    }
                    tokens.push(s);
                    i = j;
                },
                None => {
                    return Err(KvError::UnterminatedQuote);
                },
            }
        } else if ch == '[' {
            proof {
                lemma_read_bracket_progress(c@, i as int, seq![]);
            }
            let (s, j) = lex_bracket(c, i);
            proof {
                acc = acc.push(s@);
            }
            tokens.push(s);
            i = j;
        } else {
            proof {
                lemma_read_bare_progress(c@, i as int, seq![]);
            }
            let (s, j) = lex_bare(c, i);
            if s.len() == 0 {
                i = i + 1;
            } else {
                proof {
                    acc = acc.push(s@);
                }
                tokens.push(s);
                i = j;
            }
        }
    }
    Ok(tokens)
}

pub open spec fn is_open_brace(t: Seq<char>) -> bool {
    t == seq!['{']
}

pub open spec fn is_close_brace(t: Seq<char>) -> bool {
    t == seq!['}']
}

/// Skips an optional `[...]` conditional token at `i`.
pub open spec fn skip_conditional(toks: Seq<Seq<char>>, i: int) -> int {
    if 0 <= i < toks.len() && toks[i].len() > 0 && toks[i][0] == '[' {
        i + 1
    } else {
        i
    }
}

/// Parses the children of a block whose `{` was consumed, up to its `}`.
/// Returns the finished node and the index after the `}`.
pub open spec fn parse_block_spec(toks: Seq<Seq<char>>, pos: int, node: KvModel) -> Option<
    (KvModel, int),
>
    decreases toks.len() - pos,
{
    if pos < 0 || pos >= toks.len() {
        None
    } else if is_close_brace(toks[pos]) {
        Some((node, pos + 1))
    } else {
        let key = toks[pos];
        let p = pos + 1;
        if p >= toks.len() {
            None
        } else if is_open_brace(toks[p]) {
            match parse_block_spec(toks, p + 1, node_model(key)) {
                Some((child, q)) => if pos < q <= toks.len() {
                    parse_block_spec(toks, skip_conditional(toks, q), with_child(node, child))
                } else {
                    None
                },
                None => None,
            }
        } else {
            parse_block_spec(
                toks,
                skip_conditional(toks, p + 1),
                with_child(node, leaf_model(key, toks[p])),
            )
        }
    }
}

/// Parses the top level of a VDF document: a sequence of root nodes.
pub open spec fn parse_top_spec(toks: Seq<Seq<char>>, pos: int, root: KvModel) -> Option<KvModel>
    decreases toks.len() - pos,
{
    if pos < 0 || pos >= toks.len() {
        Some(root)
    } else {
        let name = toks[pos];
        let p = pos + 1;
        if p >= toks.len() {
            None
        } else if is_open_brace(toks[p]) {
            match parse_block_spec(toks, p + 1, node_model(name)) {
                Some((child, q)) => if pos < q <= toks.len() {
                    parse_top_spec(toks, q, with_child(root, child))
                } else {
                    None
                },
                None => None,
            }
        } else {
            parse_top_spec(
                toks,
                skip_conditional(toks, p + 1),
                with_child(root, leaf_model(name, toks[p])),
            )
        }
    }
}

/// The document model of VDF text, when it tokenizes and parses.
pub open spec fn vdf_spec(text: Seq<char>) -> Result<KvModel, KvError> {
    match tokenize_spec(text) {
        None => Err(KvError::UnterminatedQuote),
        Some(toks) => match parse_top_spec(toks, 0, node_model(seq![])) {
            Some(m) => Ok(m),
            None => Err(KvError::UnexpectedEof),
        },
    }
}

proof fn lemma_parse_block_progress(toks: Seq<Seq<char>>, pos: int, node: KvModel)
    ensures
        parse_block_spec(toks, pos, node) matches Some((_, q)) ==> pos < q <= toks.len(),
    decreases toks.len() - pos,
{
    if 0 <= pos < toks.len() && !is_close_brace(toks[pos]) {
        let key = toks[pos];
        let p = pos + 1;
        if p < toks.len() {
            if is_open_brace(toks[p]) {
                lemma_parse_block_progress(toks, p + 1, node_model(key));
                match parse_block_spec(toks, p + 1, node_model(key)) {
                    Some((child, q)) => {
                        if pos < q <= toks.len() {
                            lemma_parse_block_progress(
                                toks,
                                skip_conditional(toks, q),
                                with_child(node, child),
                            );
                        }
                    },
                    None => {},
                }
            } else {
                lemma_parse_block_progress(
                    toks,
                    skip_conditional(toks, p + 1),
                    with_child(node, leaf_model(key, toks[p])),
                );
            }
        }
    }
}

pub open spec fn toks_view(v: Seq<Vec<char>>) -> Seq<Seq<char>> {
    Seq::new(v.len(), |j: int| v[j]@)
}

fn tok_is(t: &Vec<char>, c: char) -> (r: bool)
    ensures
        r == (t@ == seq![c]),
{
    let r = t.len() == 1 && t[0] == c;
    proof {
        if t@.len() == 1 && t@[0] == c {
            assert(t@ =~= seq![c]);
        }
    }
    r
}

fn skip_cond_exec(tokens: &Vec<Vec<char>>, i: usize) -> (r: usize)
    requires
        i <= tokens.len(),
    ensures
        r == skip_conditional(toks_view(tokens@), i as int),
        r <= tokens.len(),
{
    if i < tokens.len() && tokens[i].len() > 0 && tokens[i][0] == '[' {
        i + 1
    } else {
        i
    }
}

fn parse_block(tokens: &Vec<Vec<char>>, pos: &mut usize, name: &Vec<char>) -> (r: Result<
    KeyValue,
    KvError,
>)
    requires
        *old(pos) <= tokens.len(),
    ensures
        match parse_block_spec(toks_view(tokens@), *old(pos) as int, node_model(name@)) {
            Some((m, q)) => r matches Ok(kv) && kv@ == m && *final(pos) == q,
            None => r == Err::<KeyValue, KvError>(KvError::UnexpectedEof),
        },
        *final(pos) <= tokens.len(),
    decreases tokens.len() - *old(pos),
{
    let ghost tv = toks_view(tokens@);
    let ghost start = *pos;
    let mut node = KeyValue { name: string_from_chars(name.as_slice()), value: None, children: Vec::new() };
    assert(node@.children =~= seq![]);
    assert(node@ =~= node_model(name@));
    loop
        invariant
            start <= *pos <= tokens.len(),
            start == *old(pos),
            tv == toks_view(tokens@),
            parse_block_spec(tv, start as int, node_model(name@)) == parse_block_spec(
                tv,
                *pos as int,
                node@,
            ),
        decreases tokens.len() - *pos,
    {
        if *pos >= tokens.len() {
            return Err(KvError::UnexpectedEof);
        }
        let ghost here = *pos;
        if tok_is(&tokens[*pos], '}') {
            *pos = *pos + 1;
            return Ok(node);
        }
        let key = tokens[*pos].clone();
        *pos = *pos + 1;
        if *pos >= tokens.len() {
            return Err(KvError::UnexpectedEof);
        }
        if tok_is(&tokens[*pos], '{') {
            *pos = *pos + 1;
            proof {
                lemma_parse_block_progress(tv, *pos as int, node_model(key@));
            }
            let child = parse_block(tokens, pos, &key)?;
            node.push_child(child);
        } else {
            let v = &tokens[*pos];
            let leaf = leaf_node(string_from_chars(key.as_slice()), string_from_chars(v.as_slice()));
            node.push_child(leaf);
            *pos = *pos + 1;
        }
        *pos = skip_cond_exec(tokens, *pos);
        assert(here < *pos);
    }
}

/// Parses text VDF (as found in PICS app info buffers).
pub fn parse_text_vdf(data: &[u8]) -> (r: Result<KeyValue, KvError>)
    ensures
        match vdf_spec(lossy_text(data@)) {
            Ok(m) => r matches Ok(kv) && kv@ == m,
            Err(e) => r == Err::<KeyValue, KvError>(e),
        },
{
    let text = utf8_lossy_string(data);
    let chars = string_chars(&text);
    let tokens = tokenize(&chars)?;
    let ghost tv = toks_view(tokens@);
    assert(tokenize_spec(chars@) == Some(tv)) by {
        let t = tokenize_spec(chars@).unwrap();
        assert(tv =~= t);
    }
    let mut pos: usize = 0;
    let mut root = KeyValue::new("");
    proof {
        reveal_strlit("");
        assert(""@ =~= seq![]);
    }
    assert(vdf_spec(lossy_text(data@)) == match parse_top_spec(tv, 0, node_model(seq![])) {
        Some(m) => Ok(m),
        None => Err(KvError::UnexpectedEof),
    });
    while pos < tokens.len()
        invariant
            pos <= tokens.len(),
            tv == toks_view(tokens@),
            vdf_spec(lossy_text(data@)) == match parse_top_spec(tv, 0, node_model(seq![])) {
                Some(m) => Ok(m),
                None => Err(KvError::UnexpectedEof),
            },
            parse_top_spec(tv, 0, node_model(seq![])) == parse_top_spec(tv, pos as int, root@),
        decreases tokens.len() - pos,
    {
        let ghost here = pos;
        let name = tokens[pos].clone();
        pos = pos + 1;
        if pos >= tokens.len() {
            return Err(KvError::UnexpectedEof);
        }
        if tok_is(&tokens[pos], '{') {
            pos = pos + 1;
            proof {
                lemma_parse_block_progress(tv, pos as int, node_model(name@));
            }
            let node = parse_block(&tokens, &mut pos, &name)?;
            root.push_child(node);
        } else {
            let v = &tokens[pos];
            let leaf = leaf_node(string_from_chars(name.as_slice()), string_from_chars(v.as_slice()));
            root.push_child(leaf);
            pos = pos + 1;
            pos = skip_cond_exec(&tokens, pos);
        }
        assert(here < pos);
    }
    Ok(root)
}

} // verus!

verus! {

// ============================================================
// Binary KeyValues
// ============================================================

pub const TYPE_NONE: u8 = 0;
pub const TYPE_STRING: u8 = 1;
pub const TYPE_INT32: u8 = 2;
pub const TYPE_FLOAT32: u8 = 3;
pub const TYPE_POINTER: u8 = 4;
pub const TYPE_WIDESTRING: u8 = 5;
pub const TYPE_COLOR: u8 = 6;
pub const TYPE_UINT64: u8 = 7;
pub const TYPE_END: u8 = 8;
pub const TYPE_INT64: u8 = 10;
pub const TYPE_ALTERNATE_END: u8 = 11;

/// A 32-bit float leaf of a binary KV document. Its text is rendered
/// outside this crate (floating point); the leaf at `path` (child indices
/// from the root) holds an empty value until then.
#[derive(Debug, Clone)]
pub struct FloatLeaf {
    pub path: Vec<usize>,
    pub bytes: [u8; 4],
}

/// A parsed binary KV document: the tree plus its float leaves in
/// document order.
#[derive(Debug)]
pub struct BinaryKv {
    pub root: KeyValue,
    pub floats: Vec<FloatLeaf>,
}

pub open spec fn float_view(f: FloatLeaf) -> (Seq<usize>, Seq<u8>) {
    (f.path@, f.bytes@)
}

pub open spec fn floats_view(v: Seq<FloatLeaf>) -> Seq<(Seq<usize>, Seq<u8>)> {
    Seq::new(v.len(), |i: int| float_view(v[i]))
}

/// Index of the first NUL byte at or after `i`.
pub open spec fn nul_index(d: Seq<u8>, i: int) -> Option<int>
    decreases d.len() - i,
{
    if i < 0 || i >= d.len() {
        None
    } else if d[i] == 0 {
        Some(i)
    } else {
        nul_index(d, i + 1)
    }
}

/// A NUL-terminated string at `p`: its text and the index after the NUL.
pub open spec fn cstr_spec(d: Seq<u8>, p: int) -> Option<(Seq<char>, int)> {
    match nul_index(d, p) {
        Some(j) => Some((lossy_text(d.subrange(p, j)), j + 1)),
        None => None,
    }
}

/// Start of the NUL pair that ends a UTF-16 string begun at `p`.
pub open spec fn wide_end(d: Seq<u8>, p: int) -> Option<int>
    decreases d.len() - p,
{
    if p < 0 || p + 1 >= d.len() {
        None
    } else if d[p] == 0 && d[p + 1] == 0 {
        Some(p)
    } else {
        wide_end(d, p + 2)
    }
}

/// The little-endian UTF-16 units in `d[start..end]`.
pub open spec fn wide_units(d: Seq<u8>, start: int, end: int) -> Seq<u16> {
    Seq::new(
        ((end - start) / 2) as nat,
        |k: int| (d[start + 2 * k] + d[start + 2 * k + 1] * 256) as u16,
    )
}

pub open spec fn le_u32(d: Seq<u8>, p: int) -> int {
    d[p] + d[p + 1] * 256 + d[p + 2] * 65536 + d[p + 3] * 16777216
}

pub open spec fn le_u64(d: Seq<u8>, p: int) -> int {
    le_u32(d, p) + le_u32(d, p + 4) * 4294967296
}

/// Decimal text of the two's-complement 64-bit integer at `p`.
pub open spec fn le_i64_text(d: Seq<u8>, p: int) -> Seq<char> {
    let u = le_u64(d, p);
    if u < 0x8000_0000_0000_0000 {
        signed_decimal(u)
    } else {
        signed_decimal(u - 0x1_0000_0000_0000_0000)
    }
}

pub type FloatSeq = Seq<(Seq<usize>, Seq<u8>)>;

/// One value entry of type `ty` named `name`, whose payload starts at `q`,
/// appended to `node` (whose location is `path`). Returns the node, the
/// floats and the index after the entry.
pub open spec fn bin_value_spec(
    d: Seq<u8>,
    q: int,
    ty: u8,
    name: Seq<char>,
    node: KvModel,
    path: Seq<usize>,
    floats: FloatSeq,
) -> Result<(KvModel, FloatSeq, int), KvError>
    decreases d.len() - q, 1int,
{
    let here = path.push(node.children.len() as usize);
    if q < 0 || q > d.len() {
        Err(KvError::BinaryEof)
    } else if ty == TYPE_NONE {
        match bin_node_spec(d, q, node_model(name), here, floats) {
            Err(e) => Err(e),
            Ok((child, fl, r)) => Ok((with_child(node, child), fl, r)),
        }
    } else if ty == TYPE_STRING {
        match cstr_spec(d, q) {
            None => Err(KvError::UnterminatedString),
            Some((v, q2)) => Ok((with_child(node, leaf_model(name, v)), floats, q2)),
        }
    } else if ty == TYPE_WIDESTRING {
        match wide_end(d, q) {
            None => Err(KvError::UnterminatedWideString),
            Some(e) => Ok(
                (with_child(node, leaf_model(name, lossy_wide_text(wide_units(d, q, e)))), floats, e + 2),
            ),
        }
    } else if ty == TYPE_INT32 || ty == TYPE_COLOR || ty == TYPE_POINTER {
        if q + 4 > d.len() {
            Err(KvError::BinaryEof)
        } else {
            Ok((with_child(node, leaf_model(name, decimal(le_u32(d, q) as nat))), floats, q + 4))
        }
    } else if ty == TYPE_UINT64 {
        if q + 8 > d.len() {
            Err(KvError::BinaryEof)
        } else {
            Ok((with_child(node, leaf_model(name, decimal(le_u64(d, q) as nat))), floats, q + 8))
        }
    } else if ty == TYPE_INT64 {
        if q + 8 > d.len() {
            Err(KvError::BinaryEof)
        } else {
            Ok((with_child(node, leaf_model(name, le_i64_text(d, q))), floats, q + 8))
        }
    } else if ty == TYPE_FLOAT32 {
        if q + 4 > d.len() {
            Err(KvError::BinaryEof)
        } else {
            Ok(
                (
                    with_child(node, leaf_model(name, seq![])),
                    floats.push((here, d.subrange(q, q + 4))),
                    q + 4,
                ),
            )
        }
    } else {
        Err(KvError::UnknownType(ty))
    }
}

/// Parses the entries of one binary KV node from `pos` up to its end marker,
/// appending them to `node`. `path` locates `node` from the root; float
/// leaves are added to `floats`. Returns the node, the floats and the index
/// after the end marker.
pub open spec fn bin_node_spec(
    d: Seq<u8>,
    pos: int,
    node: KvModel,
    path: Seq<usize>,
    floats: FloatSeq,
) -> Result<(KvModel, FloatSeq, int), KvError>
    decreases d.len() - pos, 0int,
{
    if pos < 0 || pos >= d.len() {
        Err(KvError::BinaryEof)
    } else {
        let ty = d[pos];
        if ty == TYPE_END || ty == TYPE_ALTERNATE_END {
            Ok((node, floats, pos + 1))
        } else {
            proof {
                lemma_nul_index(d, pos + 1);
            }
            match cstr_spec(d, pos + 1) {
                None => Err(KvError::UnterminatedString),
                Some((name, q)) => match bin_value_spec(d, q, ty, name, node, path, floats) {
                    Err(e) => Err(e),
                    Ok((n2, fl2, q2)) => if pos < q2 <= d.len() {
                        bin_node_spec(d, q2, n2, path, fl2)
                    } else {
                        Err(KvError::BinaryEof)
                    },
                },
            }
        }
    }
}

/// The binary KV document in `d`: root model and float leaves.
pub open spec fn binary_kv_spec(d: Seq<u8>) -> Result<(KvModel, FloatSeq), KvError> {
    match bin_node_spec(d, 0, node_model(seq![]), seq![], seq![]) {
        Ok((m, fl, _)) => Ok((m, fl)),
        Err(e) => Err(e),
    }
}

/// An int32, color or pointer entry is a leaf named `name` whose value is
/// the decimal text of the whole little-endian u32 in the four payload
/// bytes, and reads back as that u32; the entry ends after those bytes.
pub proof fn lemma_int32_entry_reads_back(
    d: Seq<u8>,
    q: int,
    ty: u8,
    name: Seq<char>,
    node: KvModel,
    path: Seq<usize>,
    floats: FloatSeq,
)
    requires
        ty == TYPE_INT32 || ty == TYPE_COLOR || ty == TYPE_POINTER,
        0 <= q,
        q + 4 <= d.len(),
    ensures
        match bin_value_spec(d, q, ty, name, node, path, floats) {
            Ok((n2, fl2, q2)) => q2 == q + 4 && fl2 == floats && n2.name == node.name
                && n2.children.len() == node.children.len() + 1 && n2.children.last().name == name
                && match n2.children.last().value {
                Some(v) => parse_unsigned(v, u32::MAX as int) == Some(
                    d[q] + d[q + 1] * 256 + d[q + 2] * 65536 + d[q + 3] * 16777216,
                ),
                None => false,
            },
            Err(_) => false,
        },
{
    let x = d[q] + d[q + 1] * 256 + d[q + 2] * 65536 + d[q + 3] * 16777216;
    assert(0 <= x <= u32::MAX);
    crate::text::lemma_decimal_reads_back(x as nat, u32::MAX as int);
}

proof fn lemma_bin_value_progress(
    d: Seq<u8>,
    pos: int,
    ty: u8,
    name: Seq<char>,
    node: KvModel,
    path: Seq<usize>,
    floats: FloatSeq,
)
    ensures
        bin_value_spec(d, pos, ty, name, node, path, floats) matches Ok((_, _, q)) ==> pos < q
            <= d.len(),
{
    if 0 <= pos <= d.len() {
        lemma_nul_index(d, pos);
        lemma_wide_end(d, pos);
        if ty == TYPE_NONE {
            let here = path.push(node.children.len() as usize);
            lemma_bin_node_only(d, pos, node_model(name), here, floats);
        }
    }
}

proof fn lemma_bin_node_only(
    d: Seq<u8>,
    pos: int,
    node: KvModel,
    path: Seq<usize>,
    floats: FloatSeq,
)
    ensures
        bin_node_spec(d, pos, node, path, floats) matches Ok((_, _, q)) ==> pos < q <= d.len(),
    decreases d.len() - pos,
{
    if 0 <= pos < d.len() {
        let ty = d[pos];
        if !(ty == TYPE_END || ty == TYPE_ALTERNATE_END) {
            lemma_nul_index(d, pos + 1);
            match cstr_spec(d, pos + 1) {
                None => {},
                Some((name, q)) => match bin_value_spec(d, q, ty, name, node, path, floats) {
                    Err(e) => {},
                    Ok((n2, fl2, q2)) => {
                        if pos < q2 <= d.len() {
                            lemma_bin_node_only(d, q2, n2, path, fl2);
                        }
                    },
                },
            }
        }
    }
}

/// The NUL found from `i` on lies at or after `i`, inside the buffer.
pub proof fn lemma_nul_index(d: Seq<u8>, i: int)
    requires
        0 <= i,
    ensures
        nul_index(d, i) matches Some(j) ==> i <= j < d.len() && d[j] == 0,
    decreases d.len() - i,
{
    if 0 <= i < d.len() && d[i] != 0 {
        lemma_nul_index(d, i + 1);
    }
}

/// The wide NUL found from `p` on lies an even number of bytes after `p`,
/// inside the buffer.
pub proof fn lemma_wide_end(d: Seq<u8>, p: int)
    requires
        0 <= p,
    ensures
        wide_end(d, p) matches Some(e) ==> p <= e && e + 1 < d.len() && (e - p) % 2 == 0,
    decreases d.len() - p,
{
    if 0 <= p && p + 1 < d.len() && !(d[p] == 0 && d[p + 1] == 0) {
        lemma_wide_end(d, p + 2);
    }
}

/// A cursor over a binary KV buffer.
pub struct BinReader<'a> {
    pub data: &'a [u8],
    pub pos: usize,
}

impl<'a> BinReader<'a> {
    /// Reads one byte.
    pub fn u8(&mut self) -> (r: Result<u8, KvError>)
        ensures
            final(self).data@ == old(self).data@,
            old(self).pos < old(self).data@.len() ==> r == Ok::<u8, KvError>(
                old(self).data@[old(self).pos as int],
            ) && final(self).pos == old(self).pos + 1,
            old(self).pos >= old(self).data@.len() ==> r == Err::<u8, KvError>(
                KvError::BinaryEof,
            ) && final(self).pos == old(self).pos,
    {
        if self.pos >= self.data.len() {
            return Err(KvError::BinaryEof);
        }
        let v = self.data[self.pos];
        self.pos = self.pos + 1;
        Ok(v)
    }

    /// Reads `n` bytes.
    pub fn take(&mut self, n: usize) -> (r: Result<Vec<u8>, KvError>)
        ensures
            final(self).data@ == old(self).data@,
            old(self).pos + n <= old(self).data@.len() ==> (r matches Ok(v) && v@
                == old(self).data@.subrange(old(self).pos as int, old(self).pos + n)
                && final(self).pos == old(self).pos + n),
            old(self).pos + n > old(self).data@.len() ==> r == Err::<Vec<u8>, KvError>(
                KvError::BinaryEof,
            ) && final(self).pos == old(self).pos,
    {
        if n > self.data.len() || self.pos > self.data.len() - n {
            return Err(KvError::BinaryEof);
        }
        let base = self.pos;
        let end = self.pos + n;
        let data = self.data;
        let mut out: Vec<u8> = Vec::new();
        let mut j: usize = base;
        while j < end
            invariant
                base <= j <= end,
                end <= data@.len(),
                out@ == data@.subrange(base as int, j as int),
            decreases end - j,
        {
            out.push(data[j]);
            j = j + 1;
            assert(out@ =~= data@.subrange(base as int, j as int));
        }
        self.pos = self.pos + n;
        Ok(out)
    }

    /// Reads a little-endian `u32`.
    pub fn u32(&mut self) -> (r: Result<u32, KvError>)
        ensures
            final(self).data@ == old(self).data@,
            old(self).pos + 4 <= old(self).data@.len() ==> r == Ok::<u32, KvError>(
                le_u32(old(self).data@, old(self).pos as int) as u32,
            ) && final(self).pos == old(self).pos + 4,
            old(self).pos + 4 > old(self).data@.len() ==> r == Err::<u32, KvError>(
                KvError::BinaryEof,
            ) && final(self).pos == old(self).pos,
    {
        let s = self.take(4)?;
        Ok(s[0] as u32 + s[1] as u32 * 256 + s[2] as u32 * 65536 + s[3] as u32 * 16777216)
    }

    /// Reads a little-endian `u64`.
    pub fn u64(&mut self) -> (r: Result<u64, KvError>)
        ensures
            final(self).data@ == old(self).data@,
            old(self).pos + 8 <= old(self).data@.len() ==> r == Ok::<u64, KvError>(
                le_u64(old(self).data@, old(self).pos as int) as u64,
            ) && final(self).pos == old(self).pos + 8,
            old(self).pos + 8 > old(self).data@.len() ==> r == Err::<u64, KvError>(
                KvError::BinaryEof,
            ) && final(self).pos == old(self).pos,
    {
        let s = self.take(8)?;
        let lo: u64 = s[0] as u64 + s[1] as u64 * 256 + s[2] as u64 * 65536 + s[3] as u64
            * 16777216;
        let hi: u64 = s[4] as u64 + s[5] as u64 * 256 + s[6] as u64 * 65536 + s[7] as u64
            * 16777216;
        assert(hi * 4294967296 + lo <= u64::MAX) by (nonlinear_arith)
            requires
                hi <= 4294967295,
                lo <= 4294967295,
        ;
        Ok(lo + hi * 4294967296)
    }

    /// Reads a little-endian two's-complement `i64`, as its decimal text.
    pub fn i64(&mut self) -> (r: Result<String, KvError>)
        ensures
            final(self).data@ == old(self).data@,
            old(self).pos + 8 <= old(self).data@.len() ==> (r matches Ok(s) && s@ == le_i64_text(
                old(self).data@,
                old(self).pos as int,
            ) && final(self).pos == old(self).pos + 8),
            old(self).pos + 8 > old(self).data@.len() ==> r == Err::<String, KvError>(
                KvError::BinaryEof,
            ) && final(self).pos == old(self).pos,
    {
        let u = self.u64()?;
        if u < 0x8000_0000_0000_0000 {
            Ok(u64_to_string(u))
        } else {
            let mag: u64 = (u64::MAX - u) + 1;
            let digits = crate::text::u64_decimal(mag);
            let mut cs: Vec<char> = Vec::new();
            cs.push('-');
            let mut i: usize = 0;
            while i < digits.len()
                invariant
                    i <= digits.len(),
                    cs@ == seq!['-'] + digits@.subrange(0, i as int),
                decreases digits.len() - i,
            {
                cs.push(digits[i]);
                i = i + 1;
                assert(cs@ =~= seq!['-'] + digits@.subrange(0, i as int));
            }
            assert(digits@.subrange(0, digits.len() as int) =~= digits@);
            Ok(string_from_chars(cs.as_slice()))
        }
    }

    /// Reads the four raw bytes of a 32-bit float.
    pub fn float32(&mut self) -> (r: Result<[u8; 4], KvError>)
        ensures
            final(self).data@ == old(self).data@,
            old(self).pos + 4 <= old(self).data@.len() ==> (r matches Ok(b) && b@
                == old(self).data@.subrange(old(self).pos as int, old(self).pos + 4)
                && final(self).pos == old(self).pos + 4),
            old(self).pos + 4 > old(self).data@.len() ==> r == Err::<[u8; 4], KvError>(
                KvError::BinaryEof,
            ) && final(self).pos == old(self).pos,
    {
        let s = self.take(4)?;
        let b = [s[0], s[1], s[2], s[3]];
        assert(b@ =~= s@);
        Ok(b)
    }

    /// Reads a UTF-16LE string ending in a NUL pair (lossy decoding).
    pub fn wide(&mut self) -> (r: Result<String, KvError>)
        ensures
            final(self).data@ == old(self).data@,
            r is Err ==> final(self).pos == old(self).pos,
            match wide_end(old(self).data@, old(self).pos as int) {
                Some(e) => r matches Ok(v) && v@ == lossy_wide_text(
                    wide_units(old(self).data@, old(self).pos as int, e),
                ) && final(self).pos == e + 2,
                None => r == Err::<String, KvError>(KvError::UnterminatedWideString),
            },
    {
        if self.pos > self.data.len() {
            return Err(KvError::UnterminatedWideString);
        }
        let data = self.data;
        let ghost d = data@;
        let wstart = self.pos;
        let mut p = self.pos;
        proof {
            lemma_wide_end(d, wstart as int);
        }
        loop
            invariant
                data@ == d,
                d == old(self).data@,
                wstart == old(self).pos,
                wstart <= p <= d.len(),
                (p - wstart) % 2 == 0,
                wide_end(d, wstart as int) == wide_end(d, p as int),
            ensures
                p + 1 < d.len(),
                (p - wstart) % 2 == 0,
                wide_end(d, wstart as int) == Some(p as int),
            decreases d.len() - p,
        {
            if p >= data.len() || data.len() - p < 2 {
                return Err(KvError::UnterminatedWideString);
            }
            if data[p] == 0 && data[p + 1] == 0 {
                break;
            }
            p = p + 2;
        }
        let mut units: Vec<u16> = Vec::new();
        let mut i = wstart;
        while i < p
            invariant
                data@ == d,
                wstart <= i <= p,
                p + 1 < d.len(),
                (i - wstart) % 2 == 0,
                (p - wstart) % 2 == 0,
                units@ == wide_units(d, wstart as int, i as int),
            decreases p - i,
        {
            let u = (data[i] as u16) + (data[i + 1] as u16) * 256;
            units.push(u);
            i = i + 2;
            assert(units@ =~= wide_units(d, wstart as int, i as int));
        }
        assert(i == p);
        assert(p + 1 < data.len());
        let value = utf16_lossy_string(units.as_slice());
        self.pos = p + 2;
        Ok(value)
    }

    /// Reads a NUL-terminated string (lossy UTF-8).
    pub fn cstr(&mut self) -> (r: Result<String, KvError>)
        ensures
            final(self).data@ == old(self).data@,
            old(self).pos <= old(self).data@.len() ==> final(self).pos <= final(self).data@.len(),
            old(self).pos > old(self).data@.len() ==> final(self).pos == old(self).pos,
            match cstr_spec(old(self).data@, old(self).pos as int) {
                Some((s, q)) => r matches Ok(v) && v@ == s && final(self).pos == q,
                None => r == Err::<String, KvError>(KvError::UnterminatedString),
            },
    {
        if self.pos > self.data.len() {
            return Err(KvError::UnterminatedString);
        }
        let start = self.pos;
        let ghost d = self.data@;
        while self.pos < self.data.len() && self.data[self.pos] != 0
            invariant
                start <= self.pos <= d.len(),
                self.data@ == d,
                nul_index(d, start as int) == nul_index(d, self.pos as int),
            decreases self.data.len() - self.pos,
        {
            self.pos = self.pos + 1;
        }
        if self.pos >= self.data.len() {
            return Err(KvError::UnterminatedString);
        }
        let mut bytes: Vec<u8> = Vec::new();
        let mut i = start;
        while i < self.pos
            invariant
                start <= i <= self.pos < self.data@.len(),
                bytes@ == self.data@.subrange(start as int, i as int),
            decreases self.pos - i,
        {
            bytes.push(self.data[i]);
            i = i + 1;
            assert(bytes@ =~= self.data@.subrange(start as int, i as int));
        }
        let s = utf8_lossy_string(bytes.as_slice());
        self.pos = self.pos + 1;
        Ok(s)
    }
}

fn leaf_node(name: String, value: String) -> (r: KeyValue)
    ensures
        r@ == leaf_model(name@, value@),
{
    let r = KeyValue { name, value: Some(value), children: Vec::new() };
    assert(r@.children =~= seq![]);
    assert(r@ =~= leaf_model(name@, value@));
    r
}

/// Parses binary KeyValues (as found in package info buffers).
pub fn parse_binary_kv(data: &[u8]) -> (r: Result<BinaryKv, KvError>)
    ensures
        match binary_kv_spec(data@) {
            Ok((m, fl)) => r matches Ok(b) && b.root@ == m && floats_view(b.floats@) == fl,
            Err(e) => r matches Err(e2) && e2 == e,
        },
{
    let mut r = BinReader { data, pos: 0 };
    let mut root = KeyValue::default();
    let mut path: Vec<usize> = Vec::new();
    let mut floats: Vec<FloatLeaf> = Vec::new();
    assert(floats_view(floats@) =~= seq![]);
    assert(path@ =~= seq![]);
    parse_binary_node(&mut r, &mut root, &mut path, &mut floats)?;
    Ok(BinaryKv { root, floats })
}

fn parse_binary_node(
    r: &mut BinReader,
    parent: &mut KeyValue,
    path: &mut Vec<usize>,
    floats: &mut Vec<FloatLeaf>,
) -> (res: Result<(), KvError>)
    requires
        old(r).pos <= old(r).data@.len(),
    ensures
        final(r).data@ == old(r).data@,
        final(r).pos <= final(r).data@.len(),
        final(path)@ == old(path)@,
        match bin_node_spec(
            old(r).data@,
            old(r).pos as int,
            old(parent)@,
            old(path)@,
            floats_view(old(floats)@),
        ) {
            Ok((m, fl, q)) => res is Ok && final(parent)@ == m && floats_view(final(floats)@) == fl
                && final(r).pos == q,
            Err(e) => res == Err::<(), KvError>(e),
        },
    decreases old(r).data@.len() - old(r).pos, 0int,
{
    let ghost d = r.data@;
    let ghost start = r.pos;
    let ghost node0 = parent@;
    let ghost fl0 = floats_view(floats@);
    loop
        invariant
            r.data@ == d,
            start <= r.pos <= d.len(),
            path@ == old(path)@,
            d == old(r).data@,
            start == old(r).pos,
            bin_node_spec(d, start as int, node0, path@, fl0) == bin_node_spec(
                d,
                r.pos as int,
                parent@,
                path@,
                floats_view(floats@),
            ),
            node0 == old(parent)@,
            fl0 == floats_view(old(floats)@),
        decreases d.len() - r.pos,
    {
        let ghost here_pos = r.pos;
        let ty = r.u8()?;
        if ty == TYPE_END || ty == TYPE_ALTERNATE_END {
            return Ok(());
        }
        proof {
            lemma_nul_index(d, r.pos as int);
        }
        let name = r.cstr()?;
        proof {
            lemma_bin_value_progress(d, r.pos as int, ty, name@, parent@, path@, floats_view(floats@));
        }
        parse_binary_value(r, ty, name, parent, path, floats)?;
    }
}

fn parse_binary_value(
    r: &mut BinReader,
    ty: u8,
    name: String,
    parent: &mut KeyValue,
    path: &mut Vec<usize>,
    floats: &mut Vec<FloatLeaf>,
) -> (res: Result<(), KvError>)
    requires
        old(r).pos <= old(r).data@.len(),
    ensures
        final(r).data@ == old(r).data@,
        final(r).pos <= final(r).data@.len(),
        final(path)@ == old(path)@,
        match bin_value_spec(
            old(r).data@,
            old(r).pos as int,
            ty,
            name@,
            old(parent)@,
            old(path)@,
            floats_view(old(floats)@),
        ) {
            Ok((m, fl, q)) => res is Ok && final(parent)@ == m && floats_view(final(floats)@) == fl
                && final(r).pos == q,
            Err(e) => res == Err::<(), KvError>(e),
        },
    decreases old(r).data@.len() - old(r).pos, 1int,
{
    let ghost here = path@.push(parent@.children.len() as usize);
    assert(parent@.children.len() == parent.children@.len());
    proof {
        lemma_bin_value_progress(r.data@, r.pos as int, ty, name@, parent@, path@, floats_view(floats@));
    }
    if ty == TYPE_NONE {
        let mut child = KeyValue { name, value: None, children: Vec::new() };
        assert(child@.children =~= seq![]);
        assert(child@ =~= node_model(name@));
        path.push(parent.children.len());
        let sub = parse_binary_node(r, &mut child, path, floats);
        let _ = path.pop();
        assert(path@ =~= old(path)@);
        sub?;
        parent.push_child(child);
    } else if ty == TYPE_STRING {
        let value = r.cstr()?;
        parent.push_child(leaf_node(name, value));
    } else if ty == TYPE_WIDESTRING {
        let value = r.wide()?;
        parent.push_child(leaf_node(name, value));
    } else if ty == TYPE_INT32 || ty == TYPE_COLOR || ty == TYPE_POINTER {
        let v = r.u32()?;
        parent.push_child(leaf_node(name, u64_to_string(v as u64)));
    } else if ty == TYPE_UINT64 {
        let v = r.u64()?;
        parent.push_child(leaf_node(name, u64_to_string(v)));
    } else if ty == TYPE_INT64 {
        let v = r.i64()?;
        parent.push_child(leaf_node(name, v));
    } else if ty == TYPE_FLOAT32 {
        let b = r.float32()?;
        let mut fpath = path.clone();
        fpath.push(parent.children.len());
        assert(fpath@ == here);
        let ghost fl_before = floats_view(floats@);
        floats.push(FloatLeaf { path: fpath, bytes: b });
        assert(floats_view(floats@) =~= fl_before.push((here, b@)));
        parent.push_child(leaf_node(name, String::new()));
    } else {
        return Err(KvError::UnknownType(ty));
    }
    Ok(())
}

} // verus!
