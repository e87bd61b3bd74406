use vstd::prelude::*;

use vstd::string::StringExecFns;

use crate::text::{chars_of, string_of};

verus! {

/// A key-value tree as the text format describes it.
pub enum VdfTree {
    Text(Seq<char>),
    Node(Seq<(Seq<char>, VdfTree)>),
}

/// A parsed value: a string, or a block of entries with unique keys,
/// kept in the order in which the keys first appeared.
pub enum VdfValue {
    String(String),
    Object(Vec<(String, VdfValue)>),
}

impl VdfValue {
    pub open spec fn tree(self) -> VdfTree
        decreases self,
    {
        match self {
            VdfValue::String(s) => VdfTree::Text(s@),
            VdfValue::Object(es) => VdfTree::Node(
                Seq::new(
                    es.len() as nat,
                    |i: int|
                        if 0 <= i < es.len() {
                            (es[i].0@, es[i].1.tree())
                        } else {
                            (Seq::empty(), VdfTree::Text(Seq::empty()))
                        },
                ),
            ),
        }
    }

    pub fn as_string(&self) -> (r: Option<&String>)
        ensures
            match self {
                VdfValue::String(s) => r == Some(s),
                VdfValue::Object(_) => r is None,
            },
    {
        match self {
            VdfValue::String(s) => Some(s),
            _ => None,
        }
    }

    pub fn as_object(&self) -> (r: Option<&Vec<(String, VdfValue)>>)
        ensures
            match self {
                VdfValue::Object(o) => r == Some(o),
                VdfValue::String(_) => r is None,
            },
    {
        match self {
            VdfValue::Object(o) => Some(o),
            _ => None,
        }
    }

    pub fn as_object_mut(&mut self) -> (r: Option<&mut Vec<(String, VdfValue)>>)
        ensures
            match *old(self) {
                VdfValue::Object(o) => r matches Some(m) && *m == o && *final(self) == VdfValue::Object(*final(m)),
                VdfValue::String(_) => r is None && *final(self) == *old(self),
            },
    {
        match self {
            VdfValue::Object(o) => Some(o),
            _ => None,
        }
    }
}

/// The trees of a sequence of entries.
pub open spec fn entries_view(es: Seq<(String, VdfValue)>) -> Seq<(Seq<char>, VdfTree)> {
    es.map_values(|e: (String, VdfValue)| (e.0@, e.1.tree()))
}

pub proof fn lemma_object_tree(es: Vec<(String, VdfValue)>)
    ensures
        VdfValue::Object(es).tree() == VdfTree::Node(entries_view(es@)),
{
    let t = VdfValue::Object(es).tree();
    assert(t->Node_0 =~= entries_view(es@));
}

/// Index of the first entry whose key is `k`, searching from `i`; -1 when there is none.
pub open spec fn find_key(es: Seq<(Seq<char>, VdfTree)>, k: Seq<char>, i: int) -> int
    decreases es.len() - i,
{
    if i < 0 || i >= es.len() {
        -1
    } else if es[i].0 == k {
        i
    } else {
        find_key(es, k, i + 1)
    }
}

proof fn lemma_find_key(es: Seq<(Seq<char>, VdfTree)>, k: Seq<char>, i: int)
    requires
        0 <= i,
    ensures
        find_key(es, k, i) == -1 || (i <= find_key(es, k, i) < es.len() && es[find_key(es, k, i)].0 == k),
    decreases es.len() - i,
{
    if 0 <= i < es.len() && es[i].0 != k {
        lemma_find_key(es, k, i + 1);
    }
}

/// The value stored under `k`.
pub open spec fn lookup(es: Seq<(Seq<char>, VdfTree)>, k: Seq<char>) -> Option<VdfTree> {
    let i = find_key(es, k, 0);
    if i >= 0 {
        Some(es[i].1)
    } else {
        None
    }
}

/// Stores `v` under `k`: replaces the entry in place, or appends one.
pub open spec fn put(es: Seq<(Seq<char>, VdfTree)>, k: Seq<char>, v: VdfTree) -> Seq<(Seq<char>, VdfTree)> {
    let i = find_key(es, k, 0);
    if i >= 0 {
        es.update(i, (k, v))
    } else {
        es.push((k, v))
    }
}

/// Stores every entry of `news`, front to back.
pub open spec fn put_all(es: Seq<(Seq<char>, VdfTree)>, news: Seq<(Seq<char>, VdfTree)>) -> Seq<(Seq<char>, VdfTree)>
    decreases news.len(),
{
    if news.len() == 0 {
        es
    } else {
        put_all(put(es, news[0].0, news[0].1), news.drop_first())
    }
}

/// Adds an entry to a block under the duplicate-key rule: a block that meets an
/// existing block under the same key is merged into it one level deep; anything
/// else replaces the existing value.
pub open spec fn merge_entry(es: Seq<(Seq<char>, VdfTree)>, k: Seq<char>, v: VdfTree) -> Seq<(Seq<char>, VdfTree)> {
    let i = find_key(es, k, 0);
    if i >= 0 && es[i].1 is Node && v is Node {
        es.update(i, (k, VdfTree::Node(put_all(es[i].1->Node_0, v->Node_0))))
    } else {
        put(es, k, v)
    }
}

proof fn lemma_find_key_first(es: Seq<(Seq<char>, VdfTree)>, k: Seq<char>, i: int)
    requires
        0 <= i,
    ensures
        find_key(es, k, i) == -1 <==> forall|j: int| i <= j < es.len() ==> es[j].0 != k,
        find_key(es, k, i) != -1 ==> i <= find_key(es, k, i) < es.len() && es[find_key(es, k, i)].0 == k
            && forall|j: int| i <= j < find_key(es, k, i) ==> es[j].0 != k,
    decreases es.len() - i,
{
    if i < es.len() {
        lemma_find_key_first(es, k, i + 1);
    }
}

/// The value of the last entry for `k`.
pub open spec fn last_value(es: Seq<(Seq<char>, VdfTree)>, k: Seq<char>) -> Option<VdfTree>
    decreases es.len(),
{
    if es.len() == 0 {
        None
    } else {
        match last_value(es.drop_first(), k) {
            Some(v) => Some(v),
            None => if es[0].0 == k {
                Some(es[0].1)
            } else {
                None
            },
        }
    }
}

proof fn lemma_lookup_put(es: Seq<(Seq<char>, VdfTree)>, k: Seq<char>, v: VdfTree, x: Seq<char>)
    ensures
        lookup(put(es, k, v), x) == if x == k {
            Some(v)
        } else {
            lookup(es, x)
        },
{
    let r = put(es, k, v);
    lemma_find_key_first(es, k, 0);
    lemma_find_key_first(es, x, 0);
    lemma_find_key_first(r, x, 0);
    assert forall|j: int| 0 <= j < es.len() implies r[j].0 == es[j].0 || (x == k && r[j].0 == x) by {}
    let fx = find_key(r, x, 0);
    let ex = find_key(es, x, 0);
    if x == k {
        let i = find_key(es, k, 0);
        if i >= 0 {
            assert(r[i].0 == k);
            assert(fx == i) by {
                if fx == -1 {
                } else if fx < i {
                    assert(r[fx].0 == es[fx].0);
                } else if fx > i {
                }
            }
        } else {
            assert(r[es.len() as int].0 == k);
            assert(fx == es.len()) by {
                if fx == -1 {
                } else if fx < es.len() {
                    assert(r[fx].0 == es[fx].0);
                }
            }
        }
    } else {
        assert forall|j: int| 0 <= j < r.len() && r[j].0 == x implies j < es.len() && es[j].0 == x by {}
        assert forall|j: int| 0 <= j < es.len() && es[j].0 == x implies r[j].0 == x by {}
        assert(fx == ex) by {
            if fx == -1 {
                if ex != -1 {
                    assert(r[ex].0 == x);
                }
            } else if ex == -1 {
                assert(es[fx].0 == x);
            } else if fx < ex {
                assert(es[fx].0 == x);
            } else if ex < fx {
                assert(r[ex].0 == x);
            }
        }
        if fx >= 0 {
            assert(r[fx].1 == es[fx].1);
        }
    }
}

proof fn lemma_lookup_put_all(es: Seq<(Seq<char>, VdfTree)>, news: Seq<(Seq<char>, VdfTree)>, x: Seq<char>)
    ensures
        lookup(put_all(es, news), x) == match last_value(news, x) {
            Some(v) => Some(v),
            None => lookup(es, x),
        },
    decreases news.len(),
{
    if news.len() > 0 {
        lemma_lookup_put(es, news[0].0, news[0].1, x);
        lemma_lookup_put_all(put(es, news[0].0, news[0].1), news.drop_first(), x);
    }
}

/// The duplicate-key rule for blocks: when a block arrives under a key that
/// already holds a block, the key still holds one block, in which each key of
/// the new block has its new value and every other key keeps its old one;
/// the other keys of the enclosing block are untouched.
pub proof fn lemma_merge_blocks(
    es: Seq<(Seq<char>, VdfTree)>,
    k: Seq<char>,
    old_entries: Seq<(Seq<char>, VdfTree)>,
    new_entries: Seq<(Seq<char>, VdfTree)>,
    x: Seq<char>,
)
    requires
        lookup(es, k) == Some(VdfTree::Node(old_entries)),
    ensures
        lookup(merge_entry(es, k, VdfTree::Node(new_entries)), k) matches Some(VdfTree::Node(m)) && lookup(m, x) == match last_value(new_entries, x) {
            Some(v) => Some(v),
            None => lookup(old_entries, x),
        },
        x != k ==> lookup(merge_entry(es, k, VdfTree::Node(new_entries)), x) == lookup(es, x),
{
    let i = find_key(es, k, 0);
    lemma_find_key_first(es, k, 0);
    let m = put_all(old_entries, new_entries);
    assert(merge_entry(es, k, VdfTree::Node(new_entries)) == put(es, k, VdfTree::Node(m)));
    lemma_lookup_put(es, k, VdfTree::Node(m), k);
    lemma_lookup_put(es, k, VdfTree::Node(m), x);
    lemma_lookup_put_all(old_entries, new_entries, x);
}

/// What went wrong in a parse.
#[derive(PartialEq, Eq, Structural, Clone, Copy, Debug)]
pub enum VdfParseErrorKind {
    ExpectedQuote,
    ExpectedKey,
    UnterminatedString,
}

pub open spec fn is_space(c: char) -> bool {
    c == ' ' || c == '\n' || c == '\r' || c == '\t'
}

pub open spec fn ends_unquoted(c: char) -> bool {
    c == '{' || c == '}' || is_space(c)
}

pub open spec fn unescape(c: char) -> char {
    if c == 'n' {
        '\n'
    } else if c == 'r' {
        '\r'
    } else if c == 't' {
        '\t'
    } else {
        c
    }
}

/// First position at or after `p` that is not white space.
pub open spec fn skip_space(s: Seq<char>, p: int) -> int
    decreases s.len() - p,
{
    if 0 <= p < s.len() && is_space(s[p]) {
        skip_space(s, p + 1)
    } else {
        p
    }
}

/// First position at or after `p` that ends an unquoted key.
pub open spec fn unquoted_end(s: Seq<char>, p: int) -> int
    decreases s.len() - p,
{
    if 0 <= p < s.len() && !ends_unquoted(s[p]) {
        unquoted_end(s, p + 1)
    } else {
        p
    }
}

/// The body of a quoted string from `p` (just past the opening quote), appended
/// to `acc`, and the position past the closing quote.
pub open spec fn scan_quoted(s: Seq<char>, p: int, acc: Seq<char>) -> Result<(Seq<char>, int), (VdfParseErrorKind, int)>
    decreases s.len() - p,
{
    if p < 0 || p >= s.len() {
        Err((VdfParseErrorKind::UnterminatedString, s.len() as int))
    } else if s[p] == '"' {
        Ok((acc, p + 1))
    } else if s[p] == '\\' {
        if p + 1 < s.len() {
            scan_quoted(s, p + 2, acc.push(unescape(s[p + 1])))
        } else {
            Err((VdfParseErrorKind::UnterminatedString, s.len() as int))
        }
    } else {
        scan_quoted(s, p + 1, acc.push(s[p]))
    }
}

/// A quoted string that starts at `p`.
pub open spec fn quoted_at(s: Seq<char>, p: int) -> Result<(Seq<char>, int), (VdfParseErrorKind, int)> {
    if 0 <= p < s.len() && s[p] == '"' {
        scan_quoted(s, p + 1, Seq::empty())
    } else {
        Err((VdfParseErrorKind::ExpectedQuote, p))
    }
}

/// A key, quoted or not, after the white space at `p`.
pub open spec fn key_at(s: Seq<char>, p: int) -> Result<(Seq<char>, int), (VdfParseErrorKind, int)> {
    let q = skip_space(s, p);
    if 0 <= q < s.len() && s[q] == '"' {
        quoted_at(s, q)
    } else {
        let e = unquoted_end(s, q);
        if e == q {
            Err((VdfParseErrorKind::ExpectedKey, q))
        } else {
            Ok((s.subrange(q, e), e))
        }
    }
}

/// The entries of a block from `p`, merged into `acc`, and the position after it.
/// A nested block ends at its closing brace; the top level ends with the text.
pub open spec fn entries_at(s: Seq<char>, p: int, nested: bool, acc: Seq<(Seq<char>, VdfTree)>) -> Result<(Seq<(Seq<char>, VdfTree)>, int), (VdfParseErrorKind, int)>
    decreases s.len() - p,
    via entries_at_decreases
{
    let q = skip_space(s, p);
    if p < 0 || p > s.len() {
        Err((VdfParseErrorKind::ExpectedKey, p))
    } else if nested && q < s.len() && s[q] == '}' {
        Ok((acc, q + 1))
    } else if !nested && q >= s.len() {
        Ok((acc, q))
    } else {
        match key_at(s, q) {
            Err(e) => Err(e),
            Ok((k, q1)) => {
                let q2 = skip_space(s, q1);
                if q2 < s.len() && s[q2] == '{' {
                    match entries_at(s, q2 + 1, true, Seq::empty()) {
                        Err(e) => Err(e),
                        Ok((sub, q3)) => if q3 > q2 && q3 <= s.len() {
                            entries_at(s, q3, nested, merge_entry(acc, k, VdfTree::Node(sub)))
                        } else {
                            Err((VdfParseErrorKind::ExpectedKey, q3))
                        },
                    }
                } else {
                    match quoted_at(s, q2) {
                        Err(e) => Err(e),
                        Ok((v, q3)) => if q3 > q2 && q3 <= s.len() {
                            entries_at(s, q3, nested, merge_entry(acc, k, VdfTree::Text(v)))
                        } else {
                            Err((VdfParseErrorKind::UnterminatedString, q3))
                        },
                    }
                }
            },
        }
    }
}

proof fn lemma_skip_space(s: Seq<char>, p: int)
    requires
        0 <= p,
    ensures
        p <= skip_space(s, p),
        p <= s.len() ==> skip_space(s, p) <= s.len(),
    decreases s.len() - p,
{
    if 0 <= p < s.len() && is_space(s[p]) {
        lemma_skip_space(s, p + 1);
    }
}

proof fn lemma_unquoted_end(s: Seq<char>, p: int)
    requires
        0 <= p,
    ensures
        p <= unquoted_end(s, p),
        p <= s.len() ==> unquoted_end(s, p) <= s.len(),
    decreases s.len() - p,
{
    if 0 <= p < s.len() && !ends_unquoted(s[p]) {
        lemma_unquoted_end(s, p + 1);
    }
}

proof fn lemma_scan_quoted(s: Seq<char>, p: int, acc: Seq<char>)
    requires
        0 <= p,
    ensures
        scan_quoted(s, p, acc) matches Ok((_, e)) ==> p < e <= s.len(),
    decreases s.len() - p,
{
    if 0 <= p < s.len() && s[p] != '"' {
        if s[p] == '\\' {
            if p + 1 < s.len() {
                lemma_scan_quoted(s, p + 2, acc.push(unescape(s[p + 1])));
            }
        } else {
            lemma_scan_quoted(s, p + 1, acc.push(s[p]));
        }
    }
}

proof fn lemma_key_at(s: Seq<char>, p: int)
    requires
        0 <= p <= s.len(),
    ensures
        key_at(s, p) matches Ok((_, e)) ==> p < e <= s.len(),
{
    lemma_skip_space(s, p);
    let q = skip_space(s, p);
    if 0 <= q < s.len() && s[q] == '"' {
        lemma_scan_quoted(s, q + 1, Seq::empty());
    } else {
        lemma_unquoted_end(s, q);
    }
}

#[via_fn]
proof fn entries_at_decreases(s: Seq<char>, p: int, nested: bool, acc: Seq<(Seq<char>, VdfTree)>) {
    if 0 <= p <= s.len() {
        lemma_skip_space(s, p);
        let q = skip_space(s, p);
        lemma_key_at(s, q);
        if let Ok((k, q1)) = key_at(s, q) {
            lemma_skip_space(s, q1);
        }
    }
}

/// The result of parsing a whole text: a top-level sequence of entries, or a
/// single block whose braces are dropped.
pub open spec fn parse_text(s: Seq<char>) -> Result<Seq<(Seq<char>, VdfTree)>, (VdfParseErrorKind, int)> {
    let p = skip_space(s, 0);
    let r = if p < s.len() && s[p] == '{' {
        entries_at(s, p + 1, true, Seq::empty())
    } else {
        entries_at(s, p, false, Seq::empty())
    };
    match r {
        Ok((es, _)) => Ok(es),
        Err(e) => Err(e),
    }
}

/// A parse failure: what was expected, and the character position where it was not found.
pub struct VdfParseError {
    pub message: String,
    pub position: usize,
    pub kind: VdfParseErrorKind,
}

/// The message that goes with each kind of parse failure.
pub open spec fn error_message(kind: VdfParseErrorKind) -> Seq<char> {
    match kind {
        VdfParseErrorKind::ExpectedQuote => "Expected '\"'"@,
        VdfParseErrorKind::ExpectedKey => "Expected key"@,
        VdfParseErrorKind::UnterminatedString => "Unterminated string"@,
    }
}

impl VdfParseError {
    fn new(kind: VdfParseErrorKind, position: usize) -> (e: VdfParseError)
        ensures
            e.kind == kind,
            e.position == position,
            e.message@ == error_message(kind),
    {
        let message = match kind {
            VdfParseErrorKind::ExpectedQuote => String::from_str("Expected '\"'"),
            VdfParseErrorKind::ExpectedKey => String::from_str("Expected key"),
            VdfParseErrorKind::UnterminatedString => String::from_str("Unterminated string"),
        };
        VdfParseError { message, position, kind }
    }
}

/// `r` is the executable form of the spec outcome `m`.
pub open spec fn same_outcome<T, U>(r: Result<(T, usize), VdfParseError>, m: Result<(U, int), (VdfParseErrorKind, int)>, view: spec_fn(T) -> U) -> bool {
    match (r, m) {
        (Ok((v, e)), Ok((mv, me))) => view(v) == mv && e == me,
        (Err(x), Err((k, p))) => x.kind == k && x.position == p && x.message@ == error_message(k),
        _ => false,
    }
}

pub open spec fn result_end<T>(r: Result<(T, usize), VdfParseError>) -> int {
    match r {
        Ok((_, e)) => e as int,
        Err(_) => 0,
    }
}

/// Index of the entry with key `key`.
pub fn find_entry(es: &Vec<(String, VdfValue)>, key: &String) -> (r: Option<usize>)
    ensures
        match r {
            Some(i) => find_key(entries_view(es@), key@, 0) == i,
            None => find_key(entries_view(es@), key@, 0) == -1,
        },
        r matches Some(i) ==> i < es.len(),
{
    let ghost ev = entries_view(es@);
    let mut i: usize = 0;
    while i < es.len()
        invariant
            i <= es.len(),
            ev == entries_view(es@),
            find_key(ev, key@, 0) == find_key(ev, key@, i as int),
        decreases es.len() - i,
    {
        if es[i].0 == *key {
            return Some(i);
        }
        i = i + 1;
    }
    None
}

/// The value stored under `key`.
pub fn get_entry<'a>(es: &'a Vec<(String, VdfValue)>, key: &String) -> (r: Option<&'a VdfValue>)
    ensures
        match lookup(entries_view(es@), key@) {
            Some(t) => r matches Some(v) && v.tree() == t,
            None => r is None,
        },
{
    proof {
        lemma_find_key(entries_view(es@), key@, 0);
    }
    match find_entry(es, key) {
        Some(i) => Some(&es[i].1),
        None => None,
    }
}

/// The string stored under `key`, if the value there is a string.
pub fn get_text(es: &Vec<(String, VdfValue)>, key: &String) -> (r: Option<String>)
    ensures
        match lookup(entries_view(es@), key@) {
            Some(VdfTree::Text(t)) => r matches Some(s) && s@ == t,
            _ => r is None,
        },
{
    match get_entry(es, key) {
        Some(VdfValue::String(s)) => Some(s.clone()),
        _ => None,
    }
}

/// The block stored under `key`, if the value there is a block.
pub fn get_block<'a>(es: &'a Vec<(String, VdfValue)>, key: &String) -> (r: Option<&'a Vec<(String, VdfValue)>>)
    ensures
        match lookup(entries_view(es@), key@) {
            Some(VdfTree::Node(t)) => r matches Some(b) && entries_view(b@) == t,
            _ => r is None,
        },
{
    match get_entry(es, key) {
        Some(VdfValue::Object(b)) => {
            proof {
                lemma_object_tree(*b);
            }
            Some(b)
        },
        _ => None,
    }
}

proof fn lemma_view_update(es: Seq<(String, VdfValue)>, i: int, x: (String, VdfValue))
    requires
        0 <= i < es.len(),
    ensures
        entries_view(es.update(i, x)) == entries_view(es).update(i, (x.0@, x.1.tree())),
{
    assert(entries_view(es.update(i, x)) =~= entries_view(es).update(i, (x.0@, x.1.tree())));
}

proof fn lemma_view_push(es: Seq<(String, VdfValue)>, x: (String, VdfValue))
    ensures
        entries_view(es.push(x)) == entries_view(es).push((x.0@, x.1.tree())),
{
    assert(entries_view(es.push(x)) =~= entries_view(es).push((x.0@, x.1.tree())));
}

/// Stores `value` under `key`, in place of an entry with that key or at the end.
pub fn put_entry(es: &mut Vec<(String, VdfValue)>, key: String, value: VdfValue)
    ensures
        entries_view(final(es)@) == put(entries_view(old(es)@), key@, value.tree()),
{
    match find_entry(es, &key) {
        Some(i) => {
            proof {
                lemma_view_update(es@, i as int, (key, value));
            }
            es.set(i, (key, value));
        },
        None => {
            proof {
                lemma_view_push(es@, (key, value));
            }
            es.push((key, value));
        },
    }
}

fn put_all_entries(es: &mut Vec<(String, VdfValue)>, news: Vec<(String, VdfValue)>)
    ensures
        entries_view(final(es)@) == put_all(entries_view(old(es)@), entries_view(news@)),
{
    let ghost target = put_all(entries_view(es@), entries_view(news@));
    let mut news = news;
    while news.len() > 0
        invariant
            put_all(entries_view(es@), entries_view(news@)) == target,
        decreases news.len(),
    {
        let ghost before = news@;
        let e = news.remove(0);
        proof {
            assert(entries_view(before).drop_first() =~= entries_view(news@));
        }
        put_entry(es, e.0, e.1);
    }
}

/// Adds an entry under the duplicate-key rule.
pub fn insert_merged(es: &mut Vec<(String, VdfValue)>, key: String, value: VdfValue)
    ensures
        entries_view(final(es)@) == merge_entry(entries_view(old(es)@), key@, value.tree()),
{
    proof {
        lemma_find_key(entries_view(es@), key@, 0);
    }
    match find_entry(es, &key) {
        Some(i) => {
            let existing_block = match &es[i].1 {
                VdfValue::Object(_) => true,
                VdfValue::String(_) => false,
            };
            if existing_block {
                match value {
                    VdfValue::Object(news) => {
                        let ghost before = es@;
                        proof {
                            lemma_object_tree(news);
                        }
                        let (k0, v0) = es.remove(i);
                        match v0 {
                            VdfValue::Object(inner) => {
                                proof {
                                    lemma_object_tree(inner);
                                }
                                let mut inner = inner;
                                put_all_entries(&mut inner, news);
                                proof {
                                    lemma_object_tree(inner);
                                }
                                es.insert(i, (k0, VdfValue::Object(inner)));
                                proof {
                                    assert(es@ =~= before.update(i as int, (k0, VdfValue::Object(inner))));
                                    lemma_view_update(before, i as int, (k0, VdfValue::Object(inner)));
                                }
                            },
                            VdfValue::String(_) => {},
                        }
                    },
                    VdfValue::String(text) => put_entry(es, key, VdfValue::String(text)),
                }
            } else {
                put_entry(es, key, value);
            }
        },
        None => {
            proof {
                lemma_view_push(es@, (key, value));
            }
            es.push((key, value));
        },
    }
}

fn is_space_char(c: char) -> (r: bool)
    ensures
        r == is_space(c),
{
    c == ' ' || c == '\n' || c == '\r' || c == '\t'
}

fn ends_unquoted_char(c: char) -> (r: bool)
    ensures
        r == ends_unquoted(c),
{
    c == '{' || c == '}' || is_space_char(c)
}

struct VdfTokenizer {
    content: Vec<char>,
}

impl VdfTokenizer {
    fn new(content: &str) -> (t: Self)
        ensures
            t.content@ == content@,
    {
        VdfTokenizer { content: chars_of(content) }
    }

    fn skip_whitespace(&self, pos: usize) -> (r: usize)
        requires
            pos <= self.content.len(),
        ensures
            r == skip_space(self.content@, pos as int),
            pos <= r <= self.content.len(),
    {
        let mut i = pos;
        while i < self.content.len() && is_space_char(self.content[i])
            invariant
                pos <= i <= self.content.len(),
                skip_space(self.content@, pos as int) == skip_space(self.content@, i as int),
            decreases self.content.len() - i,
        {
            i = i + 1;
        }
        i
    }

    fn peek(&self, pos: usize, c: char) -> (r: bool)
        ensures
            r == (pos < self.content.len() && self.content@[pos as int] == c),
    {
        pos < self.content.len() && self.content[pos] == c
    }

    fn parse_key(&self, pos: usize) -> (r: Result<(String, usize), VdfParseError>)
        requires
            pos <= self.content.len(),
        ensures
            same_outcome(r, key_at(self.content@, pos as int), |s: String| s@),
            r is Ok ==> pos < result_end(r) <= self.content.len(),
    {
        proof {
            lemma_key_at(self.content@, pos as int);
        }
        let q = self.skip_whitespace(pos);
        if self.peek(q, '"') {
            self.parse_string(q)
        } else {
            self.parse_unquoted_key(q)
        }
    }

    fn parse_unquoted_key(&self, pos: usize) -> (r: Result<(String, usize), VdfParseError>)
        requires
            pos <= self.content.len(),
        ensures
            ({
                let e = unquoted_end(self.content@, pos as int);
                if e == pos {
                    r matches Err(x) && x.kind == VdfParseErrorKind::ExpectedKey && x.position == pos
                        && x.message@ == error_message(VdfParseErrorKind::ExpectedKey)
                } else {
                    r matches Ok((k, end)) && k@ == self.content@.subrange(pos as int, e) && end == e
                }
            }),
    {
        let mut i = pos;
        let mut key: Vec<char> = Vec::new();
        while i < self.content.len() && !ends_unquoted_char(self.content[i])
            invariant
                pos <= i <= self.content.len(),
                unquoted_end(self.content@, pos as int) == unquoted_end(self.content@, i as int),
                key@ == self.content@.subrange(pos as int, i as int),
            decreases self.content.len() - i,
        {
            key.push(self.content[i]);
            i = i + 1;
            proof {
                assert(key@ =~= self.content@.subrange(pos as int, i as int));
            }
        }
        if i == pos {
            return Err(VdfParseError::new(VdfParseErrorKind::ExpectedKey, i));
        }
        Ok((string_of(&key), i))
    }

    fn parse_string(&self, pos: usize) -> (r: Result<(String, usize), VdfParseError>)
        requires
            pos <= self.content.len(),
        ensures
            same_outcome(r, quoted_at(self.content@, pos as int), |s: String| s@),
    {
        if !self.peek(pos, '"') {
            return Err(VdfParseError::new(VdfParseErrorKind::ExpectedQuote, pos));
        }
        let ghost s = self.content@;
        let mut result: Vec<char> = Vec::new();
        let mut i = pos + 1;
        while i < self.content.len()
            invariant
                pos < i <= self.content.len(),
                s == self.content@,
                quoted_at(s, pos as int) == scan_quoted(s, i as int, result@),
            decreases self.content.len() - i,
        {
            let ch = self.content[i];
            if ch == '"' {
                return Ok((string_of(&result), i + 1));
            } else if ch == '\\' {
                if i + 1 >= self.content.len() {
                    return Err(VdfParseError::new(VdfParseErrorKind::UnterminatedString, self.content.len()));
                }
                let next = self.content[i + 1];
                let c = if next == 'n' {
                    '\n'
                } else if next == 'r' {
                    '\r'
                } else if next == 't' {
                    '\t'
                } else {
                    next
                };
                result.push(c);
                i = i + 2;
            } else {
                result.push(ch);
                i = i + 1;
            }
        }
        Err(VdfParseError::new(VdfParseErrorKind::UnterminatedString, self.content.len()))
    }
}

pub struct VdfParser;

impl VdfParser {
    /// Parses a whole text into its top-level entries.
    pub fn parse(content: &str) -> (r: Result<Vec<(String, VdfValue)>, VdfParseError>)
        ensures
            match (r, parse_text(content@)) {
                (Ok(es), Ok(t)) => entries_view(es@) == t,
                (Err(x), Err((k, p))) => x.kind == k && x.position == p && x.message@ == error_message(k),
                _ => false,
            },
            r matches Err(x) ==> x.position <= content@.len(),
    {
        proof {
            lemma_parse_error_in_text(content@);
        }
        let parser = VdfTokenizer::new(content);
        let p = parser.skip_whitespace(0);
        let r = if parser.peek(p, '{') {
            Self::parse_object(&parser, p + 1, true)
        } else {
            Self::parse_object(&parser, p, false)
        };
        match r {
            Ok((es, _)) => Ok(es),
            Err(e) => Err(e),
        }
    }

    /// The entries of a block from `pos`, and the position after the block.
    fn parse_object(parser: &VdfTokenizer, pos: usize, nested: bool) -> (r: Result<(Vec<(String, VdfValue)>, usize), VdfParseError>)
        requires
            pos <= parser.content.len(),
        ensures
            same_outcome(r, entries_at(parser.content@, pos as int, nested, Seq::empty()), |es: Vec<(String, VdfValue)>| entries_view(es@)),
            r is Ok ==> pos <= result_end(r) <= parser.content.len(),
            r is Ok && nested ==> pos < result_end(r),
        decreases parser.content.len() - pos,
    {
        let ghost s = parser.content@;
        let mut obj: Vec<(String, VdfValue)> = Vec::new();
        let mut p = pos;
        proof {
            assert(entries_view(obj@) =~= Seq::empty());
        }
        loop
            invariant
                pos <= p <= parser.content.len(),
                s == parser.content@,
                entries_at(s, pos as int, nested, Seq::empty()) == entries_at(s, p as int, nested, entries_view(obj@)),
            decreases parser.content.len() - p,
        {
            let q = parser.skip_whitespace(p);
            if nested && parser.peek(q, '}') {
                return Ok((obj, q + 1));
            }
            if !nested && q >= parser.content.len() {
                return Ok((obj, q));
            }
            let (key, q1) = match parser.parse_key(q) {
                Ok(kq) => kq,
                Err(e) => return Err(e),
            };
            let q2 = parser.skip_whitespace(q1);
            if parser.peek(q2, '{') {
                let (sub, q3) = match Self::parse_object(parser, q2 + 1, true) {
                    Ok(sq) => sq,
                    Err(e) => return Err(e),
                };
                proof {
                    lemma_object_tree(sub);
                }
                insert_merged(&mut obj, key, VdfValue::Object(sub));
                p = q3;
            } else {
                let (value, q3) = match parser.parse_string(q2) {
                    Ok(vq) => vq,
                    Err(e) => return Err(e),
                };
                proof {
                    lemma_scan_quoted(s, q2 + 1, Seq::empty());
                }
                insert_merged(&mut obj, key, VdfValue::String(value));
                p = q3;
            }
        }
    }
}

pub open spec fn escape_char(c: char) -> Seq<char> {
    if c == '\\' {
        seq!['\\', '\\']
    } else if c == '"' {
        seq!['\\', '"']
    } else if c == '\n' {
        seq!['\\', 'n']
    } else if c == '\r' {
        seq!['\\', 'r']
    } else if c == '\t' {
        seq!['\\', 't']
    } else {
        seq![c]
    }
}

/// `s` with every character that the parser unescapes written as its escape.
pub open spec fn escaped(s: Seq<char>) -> Seq<char>
    decreases s.len(),
{
    if s.len() == 0 {
        Seq::empty()
    } else {
        escaped(s.drop_last()) + escape_char(s.last())
    }
}

pub open spec fn quoted(s: Seq<char>) -> Seq<char> {
    seq!['"'] + escaped(s) + seq!['"']
}

/// One entry, each line led by `ind`: a string as `"key" "value"` on one line,
/// a block as its key, then its entries between braces, one tab deeper.
pub open spec fn render_entry(k: Seq<char>, v: VdfTree, ind: Seq<char>) -> Seq<char>
    decreases v,
{
    match v {
        VdfTree::Text(t) => ind + quoted(k) + seq![' '] + quoted(t) + seq!['\n'],
        VdfTree::Node(sub) => ind + quoted(k) + seq!['\n'] + ind + seq!['{', '\n'] + render_entries(sub, ind.push('\t'))
            + ind + seq!['}', '\n'],
    }
}

/// The entries of a block, in order.
pub open spec fn render_entries(es: Seq<(Seq<char>, VdfTree)>, ind: Seq<char>) -> Seq<char>
    decreases es,
{
    if es.len() == 0 {
        Seq::empty()
    } else {
        render_entries(es.subrange(0, es.len() - 1), ind) + render_entry(es[es.len() - 1].0, es[es.len() - 1].1, ind)
    }
}

/// The text of a tree: a string is quoted; a block is its entries.
pub open spec fn render(t: VdfTree) -> Seq<char> {
    match t {
        VdfTree::Text(s) => quoted(s),
        VdfTree::Node(es) => render_entries(es, Seq::empty()),
    }
}

fn push_escaped(out: &mut Vec<char>, s: &String)
    ensures
        final(out)@ == old(out)@ + escaped(s@),
{
    let cs = chars_of(s.as_str());
    let mut i: usize = 0;
    while i < cs.len()
        invariant
            i <= cs.len(),
            cs@ == s@,
            out@ == old(out)@ + escaped(cs@.subrange(0, i as int)),
        decreases cs.len() - i,
    {
        let c = cs[i];
        proof {
            assert(cs@.subrange(0, i + 1).drop_last() =~= cs@.subrange(0, i as int));
        }
        if c == '\\' {
            out.push('\\');
            out.push('\\');
        } else if c == '"' {
            out.push('\\');
            out.push('"');
        } else if c == '\n' {
            out.push('\\');
            out.push('n');
        } else if c == '\r' {
            out.push('\\');
            out.push('r');
        } else if c == '\t' {
            out.push('\\');
            out.push('t');
        } else {
            out.push(c);
        }
        i = i + 1;
        proof {
            assert(out@ =~= old(out)@ + escaped(cs@.subrange(0, i as int)));
        }
    }
    proof {
        assert(cs@.subrange(0, cs.len() as int) =~= cs@);
    }
}

fn push_quoted(out: &mut Vec<char>, s: &String)
    ensures
        final(out)@ == old(out)@ + quoted(s@),
{
    out.push('"');
    push_escaped(out, s);
    out.push('"');
    proof {
        assert(out@ =~= old(out)@ + quoted(s@));
    }
}

impl VdfParser {
    /// The text of a value.
    pub fn to_string(value: &VdfValue) -> (r: String)
        ensures
            r@ == render(value.tree()),
    {
        let mut out: Vec<char> = Vec::new();
        match value {
            VdfValue::String(s) => push_quoted(&mut out, s),
            VdfValue::Object(es) => {
                proof {
                    lemma_object_tree(*es);
                }
                let ind: Vec<char> = Vec::new();
                Self::write_entries(es, &ind, &mut out);
            },
        }
        proof {
            assert(out@ =~= render(value.tree()));
        }
        string_of(&out)
    }

    /// The escaped form of `s`, without quotes.
    pub fn escape_string(s: &String) -> (r: String)
        ensures
            r@ == escaped(s@),
    {
        let mut out: Vec<char> = Vec::new();
        push_escaped(&mut out, s);
        proof {
            assert(out@ =~= escaped(s@));
        }
        string_of(&out)
    }

    fn write_entry(k: &String, v: &VdfValue, ind: &Vec<char>, out: &mut Vec<char>)
        ensures
            final(out)@ == old(out)@ + render_entry(k@, v.tree(), ind@),
        decreases v,
    {
        out.extend_from_slice(ind.as_slice());
        push_quoted(out, k);
        match v {
            VdfValue::String(t) => {
                out.push(' ');
                push_quoted(out, t);
                out.push('\n');
            },
            VdfValue::Object(sub) => {
                proof {
                    lemma_object_tree(*sub);
                }
                out.push('\n');
                out.extend_from_slice(ind.as_slice());
                out.push('{');
                out.push('\n');
                let mut deeper = ind.clone();
                deeper.push('\t');
                Self::write_entries(sub, &deeper, out);
                out.extend_from_slice(ind.as_slice());
                out.push('}');
                out.push('\n');
            },
        }
        proof {
            assert(out@ =~= old(out)@ + render_entry(k@, v.tree(), ind@));
        }
    }

    fn write_entries(es: &Vec<(String, VdfValue)>, ind: &Vec<char>, out: &mut Vec<char>)
        ensures
            final(out)@ == old(out)@ + render_entries(entries_view(es@), ind@),
        decreases es,
    {
        let ghost ev = entries_view(es@);
        let mut i: usize = 0;
        proof {
            assert(ev.subrange(0, 0) =~= Seq::empty());
        }
        while i < es.len()
            invariant
                i <= es.len(),
                ev == entries_view(es@),
                out@ == old(out)@ + render_entries(ev.subrange(0, i as int), ind@),
            decreases es.len() - i,
        {
            proof {
                assert(ev.subrange(0, i + 1).subrange(0, i as int) =~= ev.subrange(0, i as int));
            }
            Self::write_entry(&es[i].0, &es[i].1, ind, out);
            i = i + 1;
        }
        proof {
            assert(ev.subrange(0, es.len() as int) =~= ev);
        }
    }
}

/// Each key of a block occurs once.
pub open spec fn unique_keys(es: Seq<(Seq<char>, VdfTree)>) -> bool {
    forall|i: int, j: int| 0 <= i < j < es.len() ==> es[i].0 != es[j].0
}

/// Every block of the tree has unique keys.
pub open spec fn wf_tree(t: VdfTree) -> bool
    decreases t,
{
    match t {
        VdfTree::Text(_) => true,
        VdfTree::Node(es) => unique_keys(es) && wf_entries(es),
    }
}

/// Every value of the entries is a well-formed tree.
pub open spec fn wf_entries(es: Seq<(Seq<char>, VdfTree)>) -> bool
    decreases es,
{
    if es.len() == 0 {
        true
    } else {
        wf_tree(es[0].1) && wf_entries(es.drop_first())
    }
}

/// `r` stands in `s` at position `p`.
pub open spec fn stands_at(s: Seq<char>, p: int, r: Seq<char>) -> bool {
    0 <= p && p + r.len() <= s.len() && s.subrange(p, p + r.len()) == r
}

pub open spec fn all_space(s: Seq<char>) -> bool {
    forall|i: int| 0 <= i < s.len() ==> is_space(#[trigger] s[i])
}

proof fn lemma_stands_at_index(s: Seq<char>, p: int, r: Seq<char>, i: int)
    requires
        stands_at(s, p, r),
        0 <= i < r.len(),
    ensures
        s[p + i] == r[i],
{
    assert(s.subrange(p, p + r.len())[i] == s[p + i]);
}

proof fn lemma_stands_at_split(s: Seq<char>, p: int, a: Seq<char>, b: Seq<char>)
    requires
        stands_at(s, p, a + b),
    ensures
        stands_at(s, p, a),
        stands_at(s, p + a.len(), b),
{
    let whole = s.subrange(p, p + (a + b).len());
    assert forall|i: int| 0 <= i < a.len() implies s.subrange(p, p + a.len())[i] == a[i] by {
        assert(whole[i] == (a + b)[i]);
    }
    assert(s.subrange(p, p + a.len()) =~= a);
    assert forall|i: int| 0 <= i < b.len() implies s.subrange(p + a.len(), p + a.len() + b.len())[i] == b[i] by {
        assert(whole[a.len() + i] == (a + b)[a.len() + i]);
    }
    assert(s.subrange(p + a.len(), p + a.len() + b.len()) =~= b);
}

proof fn lemma_escaped_first(t: Seq<char>)
    requires
        t.len() > 0,
    ensures
        escaped(t) == escape_char(t[0]) + escaped(t.drop_first()),
    decreases t.len(),
{
    if t.len() == 1 {
        assert(t.drop_last() =~= Seq::<char>::empty());
        assert(t.drop_first() =~= Seq::<char>::empty());
        assert(escape_char(t[0]) + Seq::<char>::empty() =~= escape_char(t[0]));
    } else {
        lemma_escaped_first(t.drop_last());
        assert(t.drop_last().drop_first() =~= t.drop_first().drop_last());
        assert(t.drop_first().last() == t.last());
        assert(escaped(t) =~= escape_char(t[0]) + escaped(t.drop_first()));
    }
}

proof fn lemma_scan_escaped(s: Seq<char>, p: int, t: Seq<char>, acc: Seq<char>)
    requires
        stands_at(s, p, escaped(t) + seq!['"']),
    ensures
        scan_quoted(s, p, acc) == Ok::<(Seq<char>, int), (VdfParseErrorKind, int)>((acc + t, p + escaped(t).len() + 1)),
    decreases t.len(),
{
    if t.len() == 0 {
        lemma_stands_at_index(s, p, escaped(t) + seq!['"'], 0);
        assert(acc + t =~= acc);
    } else {
        lemma_escaped_first(t);
        let e = escape_char(t[0]);
        let rest = t.drop_first();
        assert(escaped(t) + seq!['"'] =~= e + (escaped(rest) + seq!['"']));
        lemma_stands_at_split(s, p, e, escaped(rest) + seq!['"']);
        lemma_stands_at_index(s, p, e, 0);
        if e.len() == 2 {
            lemma_stands_at_index(s, p, e, 1);
            assert(unescape(s[p + 1]) == t[0]);
        }
        lemma_scan_escaped(s, p + e.len(), rest, acc.push(t[0]));
        assert(acc.push(t[0]) + rest =~= acc + t);
    }
}

proof fn lemma_skip_run(s: Seq<char>, p: int, ind: Seq<char>)
    requires
        stands_at(s, p, ind),
        all_space(ind),
        p + ind.len() < s.len() ==> !is_space(s[p + ind.len()]),
    ensures
        skip_space(s, p) == p + ind.len(),
    decreases ind.len(),
{
    if ind.len() > 0 {
        lemma_stands_at_index(s, p, ind, 0);
        assert(ind =~= seq![ind[0]] + ind.drop_first());
        lemma_stands_at_split(s, p, seq![ind[0]], ind.drop_first());
        lemma_skip_run(s, p + 1, ind.drop_first());
    }
}

proof fn lemma_entries_space_step(s: Seq<char>, p: int, nested: bool, acc: Seq<(Seq<char>, VdfTree)>)
    requires
        0 <= p < s.len(),
        is_space(s[p]),
    ensures
        entries_at(s, p, nested, acc) == entries_at(s, p + 1, nested, acc),
{
    assert(skip_space(s, p) == skip_space(s, p + 1));
}

proof fn lemma_render_entries_first(es: Seq<(Seq<char>, VdfTree)>, ind: Seq<char>)
    requires
        es.len() > 0,
    ensures
        render_entries(es, ind) == render_entry(es[0].0, es[0].1, ind) + render_entries(es.drop_first(), ind),
    decreases es.len(),
{
    let last = es.len() - 1;
    if es.len() == 1 {
        assert(es.subrange(0, last) =~= Seq::<(Seq<char>, VdfTree)>::empty());
        assert(es.drop_first() =~= Seq::<(Seq<char>, VdfTree)>::empty());
        assert(render_entries(es, ind) =~= render_entry(es[0].0, es[0].1, ind) + render_entries(es.drop_first(), ind));
    } else {
        let init = es.subrange(0, last);
        lemma_render_entries_first(init, ind);
        assert(init.drop_first() =~= es.drop_first().subrange(0, es.drop_first().len() - 1));
        assert(es.drop_first()[es.drop_first().len() - 1] == es[last]);
        assert(render_entries(es, ind) =~= render_entry(es[0].0, es[0].1, ind) + render_entries(es.drop_first(), ind));
    }
}

proof fn lemma_parse_entry(s: Seq<char>, p: int, k: Seq<char>, v: VdfTree, ind: Seq<char>, nested: bool, acc: Seq<(Seq<char>, VdfTree)>)
    requires
        stands_at(s, p, render_entry(k, v, ind)),
        all_space(ind),
        wf_tree(v),
        find_key(acc, k, 0) == -1,
    ensures
        entries_at(s, p, nested, acc) == entries_at(s, p + render_entry(k, v, ind).len(), nested, acc.push((k, v))),
    decreases v, 1nat,
{
    let qk = quoted(k);
    let q = p + ind.len();
    let q1 = q + qk.len();
    assert(qk =~= seq!['"'] + (escaped(k) + seq!['"']));
    match v {
        VdfTree::Text(t) => {
            let qt = quoted(t);
            let r = render_entry(k, v, ind);
            assert(r =~= ind + (qk + (seq![' '] + (qt + seq!['\n']))));
            lemma_stands_at_split(s, p, ind, qk + (seq![' '] + (qt + seq!['\n'])));
            lemma_stands_at_split(s, q, qk, seq![' '] + (qt + seq!['\n']));
            lemma_stands_at_split(s, q1, seq![' '], qt + seq!['\n']);
            lemma_stands_at_split(s, q1 + 1, qt, seq!['\n']);
            lemma_stands_at_split(s, q, seq!['"'], escaped(k) + seq!['"']);
            assert(qt =~= seq!['"'] + (escaped(t) + seq!['"']));
            lemma_stands_at_split(s, q1 + 1, seq!['"'], escaped(t) + seq!['"']);
            lemma_stands_at_index(s, q, qk, 0);
            lemma_stands_at_index(s, q1, seq![' '], 0);
            lemma_stands_at_index(s, q1 + 1, qt, 0);
            lemma_stands_at_index(s, q1 + 1 + qt.len(), seq!['\n'], 0);
            lemma_skip_run(s, p, ind);
            lemma_scan_escaped(s, q + 1, k, Seq::empty());
            assert(Seq::<char>::empty() + k =~= k);
            lemma_skip_run(s, q1, seq![' ']);
            lemma_scan_escaped(s, q1 + 2, t, Seq::empty());
            assert(Seq::<char>::empty() + t =~= t);
            let q3 = q1 + 1 + qt.len();
            assert(key_at(s, q) == Ok::<(Seq<char>, int), (VdfParseErrorKind, int)>((k, q1)));
            assert(quoted_at(s, q1 + 1) == Ok::<(Seq<char>, int), (VdfParseErrorKind, int)>((t, q3)));
            assert(merge_entry(acc, k, v) == acc.push((k, v)));
            assert(entries_at(s, p, nested, acc) == entries_at(s, q3, nested, acc.push((k, v))));
            lemma_entries_space_step(s, q3, nested, acc.push((k, v)));
        },
        VdfTree::Node(sub) => {
            let deeper = ind.push('\t');
            let rs = render_entries(sub, deeper);
            let r = render_entry(k, v, ind);
            let tail = seq!['\n'] + (ind + (seq!['{', '\n'] + (rs + (ind + seq!['}', '\n']))));
            assert(r =~= ind + (qk + tail));
            lemma_stands_at_split(s, p, ind, qk + tail);
            lemma_stands_at_split(s, q, qk, tail);
            lemma_stands_at_split(s, q, seq!['"'], escaped(k) + seq!['"']);
            lemma_stands_at_index(s, q, qk, 0);
            lemma_skip_run(s, p, ind);
            lemma_scan_escaped(s, q + 1, k, Seq::empty());
            assert(Seq::<char>::empty() + k =~= k);
            assert(key_at(s, q) == Ok::<(Seq<char>, int), (VdfParseErrorKind, int)>((k, q1)));
            // the line break and indentation before the opening brace
            let lead = seq!['\n'] + ind;
            assert(tail =~= lead + (seq!['{', '\n'] + (rs + (ind + seq!['}', '\n']))));
            lemma_stands_at_split(s, q1, lead, seq!['{', '\n'] + (rs + (ind + seq!['}', '\n'])));
            let q2 = q1 + lead.len();
            lemma_stands_at_split(s, q2, seq!['{', '\n'], rs + (ind + seq!['}', '\n']));
            lemma_stands_at_index(s, q2, seq!['{', '\n'], 0);
            lemma_stands_at_index(s, q2, seq!['{', '\n'], 1);
            assert forall|i: int| 0 <= i < lead.len() implies is_space(#[trigger] lead[i]) by {
                if i > 0 {
                    assert(lead[i] == ind[i - 1]);
                }
            }
            lemma_skip_run(s, q1, lead);
            // the nested block
            let x = q2 + 2 + rs.len();
            lemma_stands_at_split(s, q2 + 2, rs, ind + seq!['}', '\n']);
            lemma_stands_at_split(s, x, ind, seq!['}', '\n']);
            lemma_stands_at_index(s, x + ind.len(), seq!['}', '\n'], 0);
            lemma_stands_at_index(s, x + ind.len(), seq!['}', '\n'], 1);
            assert(all_space(deeper));
            assert(unique_keys(sub));
            lemma_parse_entries(s, q2 + 2, sub, deeper, true, Seq::empty());
            assert(Seq::<(Seq<char>, VdfTree)>::empty() + sub =~= sub);
            lemma_entries_space_step(s, q2 + 1, true, Seq::empty());
            lemma_skip_run(s, x, ind);
            let q3 = x + ind.len() + 1;
            assert(entries_at(s, x, true, sub) == Ok::<(Seq<(Seq<char>, VdfTree)>, int), (VdfParseErrorKind, int)>((sub, q3)));
            assert(entries_at(s, q2 + 1, true, Seq::empty()) == Ok::<(Seq<(Seq<char>, VdfTree)>, int), (VdfParseErrorKind, int)>((sub, q3)));
            assert(merge_entry(acc, k, v) == acc.push((k, v)));
            assert(r.len() == q3 + 1 - p);
            assert(entries_at(s, p, nested, acc) == entries_at(s, q3, nested, acc.push((k, v))));
            lemma_entries_space_step(s, q3, nested, acc.push((k, v)));
        },
    }
}

proof fn lemma_parse_entries(s: Seq<char>, p: int, es: Seq<(Seq<char>, VdfTree)>, ind: Seq<char>, nested: bool, acc: Seq<(Seq<char>, VdfTree)>)
    requires
        stands_at(s, p, render_entries(es, ind)),
        all_space(ind),
        unique_keys(es),
        wf_entries(es),
        forall|i: int, j: int| 0 <= i < acc.len() && 0 <= j < es.len() ==> acc[i].0 != es[j].0,
    ensures
        entries_at(s, p, nested, acc) == entries_at(s, p + render_entries(es, ind).len(), nested, acc + es),
    decreases es, 0nat,
{
    if es.len() == 0 {
        assert(acc + es =~= acc);
    } else {
        lemma_render_entries_first(es, ind);
        let e0 = render_entry(es[0].0, es[0].1, ind);
        let rest = es.drop_first();
        lemma_stands_at_split(s, p, e0, render_entries(rest, ind));
        lemma_find_key_first(acc, es[0].0, 0);
        lemma_parse_entry(s, p, es[0].0, es[0].1, ind, nested, acc);
        assert forall|i: int, j: int| 0 <= i < acc.push(es[0]).len() && 0 <= j < rest.len() implies acc.push(es[0])[i].0 != rest[j].0 by {
            assert(rest[j] == es[j + 1]);
        }
        lemma_parse_entries(s, p + e0.len(), rest, ind, nested, acc.push(es[0]));
        assert(acc.push(es[0]) + rest =~= acc + es);
    }
}

proof fn lemma_render_entry_starts(k: Seq<char>, v: VdfTree, ind: Seq<char>)
    ensures
        render_entry(k, v, ind).len() > ind.len(),
        render_entry(k, v, ind)[ind.len() as int] == '"',
{
    let r = render_entry(k, v, ind);
    match v {
        VdfTree::Text(t) => {
            assert(r == ind + (quoted(k) + (seq![' '] + quoted(t) + seq!['\n'])));
        },
        VdfTree::Node(sub) => {
            assert(r == ind + (quoted(k) + (seq!['\n'] + ind + seq!['{', '\n'] + render_entries(sub, ind.push('\t')) + ind + seq!['}', '\n'])));
        },
    }
}

/// Reading back the text of a tree gives the tree: a string value keeps
/// every character, and a block keeps its entries in order, provided each
/// block has unique keys.
pub proof fn lemma_parse_render(es: Seq<(Seq<char>, VdfTree)>)
    requires
        wf_tree(VdfTree::Node(es)),
    ensures
        parse_text(render(VdfTree::Node(es))) == Ok::<Seq<(Seq<char>, VdfTree)>, (VdfParseErrorKind, int)>(es),
{
    let s = render_entries(es, Seq::empty());
    assert(s.subrange(0, s.len() as int) =~= s);

    assert(all_space(Seq::<char>::empty()));
    lemma_parse_entries(s, 0, es, Seq::empty(), false, Seq::empty());
    assert(Seq::<(Seq<char>, VdfTree)>::empty() + es =~= es);
    if es.len() > 0 {
        lemma_render_entries_first(es, Seq::empty());
        let e0 = render_entry(es[0].0, es[0].1, Seq::empty());
        lemma_stands_at_split(s, 0, e0, render_entries(es.drop_first(), Seq::empty()));
        lemma_render_entry_starts(es[0].0, es[0].1, Seq::empty());
        lemma_stands_at_index(s, 0, e0, 0);
    }
}

proof fn lemma_wf_entries_all(es: Seq<(Seq<char>, VdfTree)>)
    ensures
        wf_entries(es) <==> forall|i: int| 0 <= i < es.len() ==> #[trigger] wf_tree(es[i].1),
    decreases es.len(),
{
    if es.len() > 0 {
        lemma_wf_entries_all(es.drop_first());
        if wf_entries(es) {
            assert forall|i: int| 0 <= i < es.len() implies #[trigger] wf_tree(es[i].1) by {
                if i > 0 {
                    assert(es[i] == es.drop_first()[i - 1]);
                }
            }
        }
        if forall|i: int| 0 <= i < es.len() ==> #[trigger] wf_tree(es[i].1) {
            assert(wf_tree(es[0].1));
            assert forall|i: int| 0 <= i < es.drop_first().len() implies #[trigger] wf_tree(es.drop_first()[i].1) by {
                assert(es.drop_first()[i] == es[i + 1]);
            }
        }
    }
}

/// Well formed, in the form that quantifies over the entries.
pub open spec fn wf_block(es: Seq<(Seq<char>, VdfTree)>) -> bool {
    unique_keys(es) && forall|i: int| 0 <= i < es.len() ==> #[trigger] wf_tree(es[i].1)
}

proof fn lemma_wf_node(es: Seq<(Seq<char>, VdfTree)>)
    ensures
        wf_tree(VdfTree::Node(es)) == wf_block(es),
{
    lemma_wf_entries_all(es);
}

proof fn lemma_put_wf(es: Seq<(Seq<char>, VdfTree)>, k: Seq<char>, v: VdfTree)
    requires
        wf_block(es),
        wf_tree(v),
    ensures
        wf_block(put(es, k, v)),
{
    lemma_find_key_first(es, k, 0);
    let r = put(es, k, v);
    assert forall|i: int| 0 <= i < r.len() implies #[trigger] wf_tree(r[i].1) by {}
    assert forall|i: int, j: int| 0 <= i < j < r.len() implies r[i].0 != r[j].0 by {}
}

proof fn lemma_put_all_wf(es: Seq<(Seq<char>, VdfTree)>, news: Seq<(Seq<char>, VdfTree)>)
    requires
        wf_block(es),
        forall|i: int| 0 <= i < news.len() ==> #[trigger] wf_tree(news[i].1),
    ensures
        wf_block(put_all(es, news)),
    decreases news.len(),
{
    if news.len() > 0 {
        assert(wf_tree(news[0].1));
        lemma_put_wf(es, news[0].0, news[0].1);
        assert forall|i: int| 0 <= i < news.drop_first().len() implies #[trigger] wf_tree(news.drop_first()[i].1) by {
            assert(news.drop_first()[i] == news[i + 1]);
        }
        lemma_put_all_wf(put(es, news[0].0, news[0].1), news.drop_first());
    }
}

proof fn lemma_merge_wf(es: Seq<(Seq<char>, VdfTree)>, k: Seq<char>, v: VdfTree)
    requires
        wf_block(es),
        wf_tree(v),
    ensures
        wf_block(merge_entry(es, k, v)),
{
    lemma_find_key_first(es, k, 0);
    let i = find_key(es, k, 0);
    if i >= 0 && es[i].1 is Node && v is Node {
        let old_entries = es[i].1->Node_0;
        let new_entries = v->Node_0;
        assert(wf_tree(es[i].1));
        lemma_wf_node(old_entries);
        lemma_wf_node(new_entries);
        lemma_put_all_wf(old_entries, new_entries);
        lemma_wf_node(put_all(old_entries, new_entries));
        let r = merge_entry(es, k, v);
        assert forall|j: int| 0 <= j < r.len() implies #[trigger] wf_tree(r[j].1) by {}
        assert forall|a: int, b: int| 0 <= a < b < r.len() implies r[a].0 != r[b].0 by {}
    } else {
        lemma_put_wf(es, k, v);
    }
}

proof fn lemma_entries_wf(s: Seq<char>, p: int, nested: bool, acc: Seq<(Seq<char>, VdfTree)>)
    requires
        0 <= p <= s.len(),
        wf_block(acc),
    ensures
        entries_at(s, p, nested, acc) matches Ok((es, _)) ==> wf_block(es),
    decreases s.len() - p,
{
    lemma_skip_space(s, p);
    let q = skip_space(s, p);
    if !(nested && q < s.len() && s[q] == '}') && !(!nested && q >= s.len()) {
        lemma_key_at(s, q);
        if let Ok((k, q1)) = key_at(s, q) {
            lemma_skip_space(s, q1);
            let q2 = skip_space(s, q1);
            if q2 < s.len() && s[q2] == '{' {
                assert(wf_block(Seq::<(Seq<char>, VdfTree)>::empty()));
                lemma_entries_wf(s, q2 + 1, true, Seq::empty());
                if let Ok((sub, q3)) = entries_at(s, q2 + 1, true, Seq::empty()) {
                    if q3 > q2 && q3 <= s.len() {
                        lemma_wf_node(sub);
                        lemma_merge_wf(acc, k, VdfTree::Node(sub));
                        lemma_entries_wf(s, q3, nested, merge_entry(acc, k, VdfTree::Node(sub)));
                    }
                }
            } else if let Ok((v, q3)) = quoted_at(s, q2) {
                if q3 > q2 && q3 <= s.len() {
                    lemma_merge_wf(acc, k, VdfTree::Text(v));
                    lemma_entries_wf(s, q3, nested, merge_entry(acc, k, VdfTree::Text(v)));
                }
            }
        }
    }
}

/// Every tree that parsing produces has unique keys in each block.
pub proof fn lemma_parsed_wf(s: Seq<char>)
    ensures
        parse_text(s) matches Ok(es) ==> wf_tree(VdfTree::Node(es)),
{
    lemma_skip_space(s, 0);
    let p = skip_space(s, 0);
    assert(wf_block(Seq::<(Seq<char>, VdfTree)>::empty()));
    if p < s.len() && s[p] == '{' {
        lemma_entries_wf(s, p + 1, true, Seq::empty());
    } else {
        lemma_entries_wf(s, p, false, Seq::empty());
    }
    if let Ok(es) = parse_text(s) {
        lemma_wf_node(es);
    }
}

/// Whatever text the parser accepts, writing its tree out and reading that
/// text again gives the same tree.
pub proof fn lemma_reparse(s: Seq<char>)
    requires
        parse_text(s) is Ok,
    ensures
        parse_text(render(VdfTree::Node(parse_text(s)->Ok_0))) == parse_text(s),
{
    lemma_parsed_wf(s);
    lemma_parse_render(parse_text(s)->Ok_0);
}

proof fn lemma_scan_quoted_error(s: Seq<char>, p: int, acc: Seq<char>)
    ensures
        scan_quoted(s, p, acc) matches Err((_, x)) ==> x == s.len(),
    decreases s.len() - p,
{
    if 0 <= p < s.len() && s[p] != '"' {
        if s[p] == '\\' {
            if p + 1 < s.len() {
                lemma_scan_quoted_error(s, p + 2, acc.push(unescape(s[p + 1])));
            }
        } else {
            lemma_scan_quoted_error(s, p + 1, acc.push(s[p]));
        }
    }
}

proof fn lemma_key_at_error(s: Seq<char>, p: int)
    requires
        0 <= p <= s.len(),
    ensures
        key_at(s, p) matches Err((_, x)) ==> 0 <= x <= s.len(),
{
    lemma_skip_space(s, p);
    let q = skip_space(s, p);
    lemma_scan_quoted_error(s, q + 1, Seq::empty());
}

proof fn lemma_entries_bounds(s: Seq<char>, p: int, nested: bool, acc: Seq<(Seq<char>, VdfTree)>)
    requires
        0 <= p <= s.len(),
    ensures
        entries_at(s, p, nested, acc) matches Ok((_, e)) ==> p <= e <= s.len(),
        entries_at(s, p, nested, acc) matches Err((_, x)) ==> 0 <= x <= s.len(),
    decreases s.len() - p,
{
    lemma_skip_space(s, p);
    let q = skip_space(s, p);
    if !(nested && q < s.len() && s[q] == '}') && !(!nested && q >= s.len()) {
        lemma_key_at(s, q);
        lemma_key_at_error(s, q);
        if let Ok((k, q1)) = key_at(s, q) {
            lemma_skip_space(s, q1);
            let q2 = skip_space(s, q1);
            if q2 < s.len() && s[q2] == '{' {
                lemma_entries_bounds(s, q2 + 1, true, Seq::empty());
                if let Ok((sub, q3)) = entries_at(s, q2 + 1, true, Seq::empty()) {
                    lemma_entries_bounds(s, q3, nested, merge_entry(acc, k, VdfTree::Node(sub)));
                }
            } else {
                lemma_scan_quoted_error(s, q2 + 1, Seq::empty());
                lemma_scan_quoted(s, q2 + 1, Seq::empty());
                if let Ok((v, q3)) = quoted_at(s, q2) {
                    if q3 > q2 && q3 <= s.len() {
                        lemma_entries_bounds(s, q3, nested, merge_entry(acc, k, VdfTree::Text(v)));
                    }
                }
            }
        }
    }
}

/// Every parse error reports a position within the text.
pub proof fn lemma_parse_error_in_text(s: Seq<char>)
    ensures
        parse_text(s) matches Err((_, x)) ==> 0 <= x <= s.len(),
{
    lemma_skip_space(s, 0);
    let p = skip_space(s, 0);
    if p < s.len() && s[p] == '{' {
        lemma_entries_bounds(s, p + 1, true, Seq::empty());
    } else {
        lemma_entries_bounds(s, p, false, Seq::empty());
    }
}

} // verus!
