use vstd::prelude::*;

use crate::items_game::GameTranslation;
use crate::text::{chars_of, string_of};
use crate::vdf::unescape;

verus! {

/// The text that UTF-16 code units encode: a unit outside the surrogate range
/// is that character, a high surrogate followed by a low one is the character
/// they combine to, and any other surrogate makes the units invalid.
pub open spec fn utf16_text(units: Seq<u16>) -> Option<Seq<char>>
    decreases units.len(),
{
    if units.len() == 0 {
        Some(Seq::empty())
    } else {
        let u = units[0] as nat;
        if u < 0xD800 || u > 0xDFFF {
            match utf16_text(units.drop_first()) {
                Some(rest) => Some(seq![u as char] + rest),
                None => None,
            }
        } else if u <= 0xDBFF && units.len() >= 2 && 0xDC00 <= units[1] as nat <= 0xDFFF {
            let c = 0x10000 + (u - 0xD800) * 0x400 + (units[1] as nat - 0xDC00);
            match utf16_text(units.subrange(2, units.len() as int)) {
                Some(rest) => Some(seq![c as char] + rest),
                None => None,
            }
        } else {
            None
        }
    }
}

/// Relies on `String::from_utf16`: it decodes valid UTF-16 (the standard
/// decoding stated by `utf16_text`) and fails on any unpaired surrogate.
#[verifier::external_body]
fn string_from_utf16(units: &Vec<u16>) -> (r: Option<String>)
    ensures
        match r {
            Some(s) => utf16_text(units@) == Some(s@),
            None => utf16_text(units@) is None,
        },
{
    String::from_utf16(units).ok()
}

/// The little-endian code units of `bytes`, two bytes each; an odd last byte is dropped.
pub open spec fn le_units(bytes: Seq<u8>) -> Seq<u16> {
    Seq::new(bytes.len() / 2, |i: int| (bytes[2 * i] as nat + 256 * bytes[2 * i + 1] as nat) as u16)
}

/// Decodes UTF-16LE bytes.
pub fn decode_utf16_le(bytes: &[u8]) -> (r: Option<String>)
    ensures
        match utf16_text(le_units(bytes@)) {
            Some(t) => r matches Some(s) && s@ == t,
            None => r is None,
        },
{
    let mut units: Vec<u16> = Vec::new();
    let mut i: usize = 0;
    let len = bytes.len();
    let n = len / 2;
    while i < n
        invariant
            i <= n,
            len == bytes@.len(),
            n == len / 2,
            units@ == le_units(bytes@).subrange(0, i as int),
        decreases n - i,
    {
        assert(2 * i + 1 < len) by (nonlinear_arith)
            requires i < n, n == len / 2;
        let lo = bytes[2 * i];
        let hi = bytes[2 * i + 1];
        let u = lo as u16 + (hi as u16) * 256;
        units.push(u);
        i = i + 1;
        proof {
            assert(units@ =~= le_units(bytes@).subrange(0, i as int));
        }
    }
    proof {
        assert(units@ =~= le_units(bytes@));
    }
    string_from_utf16(&units)
}

/// White space as `char::is_whitespace` has it (the Unicode White_Space property).
pub open spec fn is_white(c: char) -> bool {
    let u = c as u32;
    (0x9 <= u <= 0xd) || u == 0x20 || u == 0x85 || u == 0xa0 || u == 0x1680 || (0x2000 <= u <= 0x200a) || u == 0x2028
        || u == 0x2029 || u == 0x202f || u == 0x205f || u == 0x3000
}

fn is_white_char(c: char) -> (r: bool)
    ensures
        r == is_white(c),
{
    let u = c as u32;
    (0x9 <= u && u <= 0xd) || u == 0x20 || u == 0x85 || u == 0xa0 || u == 0x1680 || (0x2000 <= u && u <= 0x200a)
        || u == 0x2028 || u == 0x2029 || u == 0x202f || u == 0x205f || u == 0x3000
}

pub open spec fn trim_start(s: Seq<char>) -> Seq<char>
    decreases s.len(),
{
    if s.len() > 0 && is_white(s[0]) {
        trim_start(s.drop_first())
    } else {
        s
    }
}

pub open spec fn trim_end(s: Seq<char>) -> Seq<char>
    decreases s.len(),
{
    if s.len() > 0 && is_white(s.last()) {
        trim_end(s.drop_last())
    } else {
        s
    }
}

/// `s` without white space at either end.
pub open spec fn trim(s: Seq<char>) -> Seq<char> {
    trim_end(trim_start(s))
}

/// First position at or after `p` that is not white space.
pub open spec fn skip_white(s: Seq<char>, p: int) -> int
    decreases s.len() - p,
{
    if 0 <= p < s.len() && is_white(s[p]) {
        skip_white(s, p + 1)
    } else {
        p
    }
}

/// The body of a quoted string from `p` (past the opening quote), appended to
/// `acc`, and the position past the closing quote; nothing when the line ends
/// before the closing quote.
pub open spec fn line_quoted(s: Seq<char>, p: int, acc: Seq<char>) -> Option<(Seq<char>, int)>
    decreases s.len() - p,
{
    if p < 0 || p >= s.len() {
        None
    } else if s[p] == '\\' {
        if p + 1 < s.len() {
            line_quoted(s, p + 2, acc.push(unescape(s[p + 1])))
        } else {
            None
        }
    } else if s[p] == '"' {
        Some((acc, p + 1))
    } else {
        line_quoted(s, p + 1, acc.push(s[p]))
    }
}

/// A `"key" "value"` line: a quoted key, white space, a quoted value, each
/// with its closing quote; the rest of the line is ignored. Nothing for any
/// other shape or for an empty key.
pub open spec fn key_value(s: Seq<char>) -> Option<(Seq<char>, Seq<char>)> {
    let p0 = skip_white(s, 0);
    if !(p0 < s.len() && s[p0] == '"') {
        None
    } else {
        match line_quoted(s, p0 + 1, Seq::empty()) {
            None => None,
            Some((k, p1)) => {
                let p2 = skip_white(s, p1);
                if !(0 <= p2 < s.len() && s[p2] == '"') {
                    None
                } else {
                    match line_quoted(s, p2 + 1, Seq::empty()) {
                        None => None,
                        Some((v, _)) => if k.len() == 0 {
                            None
                        } else {
                            Some((k, v))
                        },
                    }
                }
            },
        }
    }
}

/// Where the scan of a token file stands.
pub struct TokenScan {
    pub in_tokens: bool,
    pub depth: nat,
    pub entries: Seq<(Seq<char>, Seq<char>)>,
}

pub open spec fn starts_with(s: Seq<char>, prefix: Seq<char>) -> bool {
    prefix.len() <= s.len() && s.subrange(0, prefix.len() as int) == prefix
}

/// One line: blank lines and `//` comments are skipped; a line that starts
/// with `"Tokens"` opens the section; braces count depth inside it; a key-value
/// line inside its braces is recorded.
pub open spec fn scan_line(st: TokenScan, raw: Seq<char>) -> TokenScan {
    let t = trim(raw);
    if t.len() == 0 || starts_with(t, seq!['/', '/']) {
        st
    } else if starts_with(t, "\"Tokens\""@) {
        TokenScan { in_tokens: true, ..st }
    } else if t == seq!['{'] {
        if st.in_tokens {
            TokenScan { depth: st.depth + 1, ..st }
        } else {
            st
        }
    } else if t == seq!['}'] {
        if st.in_tokens && st.depth > 0 {
            TokenScan { depth: (st.depth - 1) as nat, in_tokens: st.depth - 1 != 0, ..st }
        } else {
            st
        }
    } else if st.in_tokens && st.depth > 0 {
        match key_value(t) {
            Some(kv) => TokenScan { entries: st.entries.push(kv), ..st },
            None => st,
        }
    } else {
        st
    }
}

/// The scan of the text from `i`, the current line so far being `line`.
pub open spec fn scan_text(s: Seq<char>, i: int, line: Seq<char>, st: TokenScan) -> TokenScan
    decreases s.len() - i,
{
    if i < 0 || i >= s.len() {
        scan_line(st, line)
    } else if s[i] == '\n' {
        scan_text(s, i + 1, Seq::empty(), scan_line(st, line))
    } else {
        scan_text(s, i + 1, line.push(s[i]), st)
    }
}

/// The entries of a token file's text, in order.
pub open spec fn tokens_of(s: Seq<char>) -> Seq<(Seq<char>, Seq<char>)> {
    scan_text(s, 0, Seq::empty(), TokenScan { in_tokens: false, depth: 0, entries: Seq::empty() }).entries
}

fn trim_exec(s: &Vec<char>) -> (r: Vec<char>)
    ensures
        r@ == trim(s@),
{
    let mut a: usize = 0;
    proof {
        assert(s@.subrange(0, s.len() as int) =~= s@);
    }
    while a < s.len() && is_white_char(s[a])
        invariant
            a <= s.len(),
            trim_start(s@) == trim_start(s@.subrange(a as int, s.len() as int)),
        decreases s.len() - a,
    {
        proof {
            assert(s@.subrange(a as int, s.len() as int).drop_first() =~= s@.subrange(a + 1, s.len() as int));
        }
        a = a + 1;
    }
    let mut b: usize = s.len();
    let ghost t = s@.subrange(a as int, s.len() as int);
    proof {
        assert(t.subrange(0, t.len() as int) =~= t);
    }
    while b > a && is_white_char(s[b - 1])
        invariant
            a <= b <= s.len(),
            t == s@.subrange(a as int, s.len() as int),
            trim_end(t) == trim_end(t.subrange(0, b - a)),
        decreases b,
    {
        proof {
            assert(t.subrange(0, b - a).drop_last() =~= t.subrange(0, b - 1 - a));
        }
        b = b - 1;
    }
    let mut out: Vec<char> = Vec::new();
    let mut i: usize = a;
    while i < b
        invariant
            a <= i <= b,
            b <= s.len(),
            out@ == s@.subrange(a as int, i as int),
        decreases b - i,
    {
        out.push(s[i]);
        i = i + 1;
        proof {
            assert(out@ =~= s@.subrange(a as int, i as int));
        }
    }
    proof {
        assert(out@ =~= t.subrange(0, b - a));
    }
    out
}

fn skip_white_exec(s: &Vec<char>, p: usize) -> (r: usize)
    requires
        p <= s.len(),
    ensures
        r == skip_white(s@, p as int),
        p <= r <= s.len(),
{
    let mut i = p;
    while i < s.len() && is_white_char(s[i])
        invariant
            p <= i <= s.len(),
            skip_white(s@, p as int) == skip_white(s@, i as int),
        decreases s.len() - i,
    {
        i = i + 1;
    }
    i
}

fn line_quoted_exec(s: &Vec<char>, p: usize) -> (r: Option<(Vec<char>, usize)>)
    requires
        p <= s.len(),
    ensures
        match line_quoted(s@, p as int, Seq::empty()) {
            Some((t, e)) => r matches Some((v, re)) && v@ == t && re == e && re <= s.len(),
            None => r is None,
        },
{
    let mut acc: Vec<char> = Vec::new();
    let mut i = p;
    while i < s.len()
        invariant
            p <= i <= s.len(),
            line_quoted(s@, p as int, Seq::empty()) == line_quoted(s@, i as int, acc@),
        decreases s.len() - i,
    {
        let c = s[i];
        if c == '\\' {
            if i + 1 < s.len() {
                let n = s[i + 1];
                let e = if n == 'n' {
                    '\n'
                } else if n == 'r' {
                    '\r'
                } else if n == 't' {
                    '\t'
                } else {
                    n
                };
                acc.push(e);
                i = i + 2;
            } else {
                return None;
            }
        } else if c == '"' {
            return Some((acc, i + 1));
        } else {
            acc.push(c);
            i = i + 1;
        }
    }
    None
}

/// Reads a `"key" "value"` line.
pub fn parse_key_value_line(line: &Vec<char>) -> (r: Option<(String, String)>)
    ensures
        match key_value(line@) {
            Some((k, v)) => r matches Some((rk, rv)) && rk@ == k && rv@ == v,
            None => r is None,
        },
{
    let p0 = skip_white_exec(line, 0);
    if !(p0 < line.len() && line[p0] == '"') {
        return None;
    }
    let (key, p1) = match line_quoted_exec(line, p0 + 1) {
        Some(kp) => kp,
        None => return None,
    };
    let p2 = skip_white_exec(line, p1);
    if !(p2 < line.len() && line[p2] == '"') {
        return None;
    }
    let (value, _) = match line_quoted_exec(line, p2 + 1) {
        Some(vp) => vp,
        None => return None,
    };
    if key.len() == 0 {
        return None;
    }
    Some((string_of(&key), string_of(&value)))
}

fn has_prefix(s: &Vec<char>, prefix: &Vec<char>) -> (r: bool)
    ensures
        r == starts_with(s@, prefix@),
{
    if prefix.len() > s.len() {
        return false;
    }
    let mut i: usize = 0;
    while i < prefix.len()
        invariant
            i <= prefix.len() <= s.len(),
            forall|j: int| 0 <= j < i ==> s@[j] == prefix@[j],
        decreases prefix.len() - i,
    {
        if s[i] != prefix[i] {
            proof {
                assert(s@.subrange(0, prefix.len() as int)[i as int] != prefix@[i as int]);
            }
            return false;
        }
        i = i + 1;
    }
    proof {
        assert(s@.subrange(0, prefix.len() as int) =~= prefix@);
    }
    true
}

pub open spec fn scan_state(in_tokens: bool, depth: usize, t: GameTranslation) -> TokenScan {
    TokenScan { in_tokens, depth: depth as nat, entries: t@ }
}

fn scan_line_exec(in_tokens: &mut bool, depth: &mut usize, translation: &mut GameTranslation, raw: &Vec<char>, tokens_tag: &Vec<char>)
    requires
        *old(depth) + raw.len() <= usize::MAX,
        tokens_tag@ == "\"Tokens\""@,
    ensures
        scan_state(*final(in_tokens), *final(depth), *final(translation)) == scan_line(scan_state(*old(in_tokens), *old(depth), *old(translation)), raw@),
        *final(depth) <= *old(depth) + raw.len(),
{
    let t = trim_exec(raw);
    proof {
        lemma_trim_len(raw@);
    }
    let comment: Vec<char> = vec!['/', '/'];
    proof {
        assert(comment@ =~= seq!['/', '/']);
    }
    if t.len() == 0 || has_prefix(&t, &comment) {
        return;
    }
    if has_prefix(&t, tokens_tag) {
        *in_tokens = true;
        return;
    }
    if t.len() == 1 && t[0] == '{' {
        proof {
            assert(t@ =~= seq!['{']);
        }
        if *in_tokens {
            *depth = *depth + 1;
        }
        return;
    }
    proof {
        assert(t@ != seq!['{']);
    }
    if t.len() == 1 && t[0] == '}' {
        proof {
            assert(t@ =~= seq!['}']);
        }
        if *in_tokens && *depth > 0 {
            *depth = *depth - 1;
            if *depth == 0 {
                *in_tokens = false;
            }
        }
        return;
    }
    proof {
        assert(t@ != seq!['}']);
    }
    if *in_tokens && *depth > 0 {
        match parse_key_value_line(&t) {
            Some((k, v)) => translation.insert(k, v),
            None => {},
        }
    }
}

proof fn lemma_trim_len(s: Seq<char>)
    ensures
        trim(s).len() <= s.len(),
{
    lemma_trim_start_len(s);
    lemma_trim_end_len(trim_start(s));
}

proof fn lemma_trim_start_len(s: Seq<char>)
    ensures
        trim_start(s).len() <= s.len(),
    decreases s.len(),
{
    if s.len() > 0 && is_white(s[0]) {
        lemma_trim_start_len(s.drop_first());
    }
}

proof fn lemma_trim_end_len(s: Seq<char>)
    ensures
        trim_end(s).len() <= s.len(),
    decreases s.len(),
{
    if s.len() > 0 && is_white(s.last()) {
        lemma_trim_end_len(s.drop_last());
    }
}

/// Why a token file could not be read.
pub enum LanguageFileLoadError {
    Io(String),
    Parse(String),
}

pub struct LanguageFileParser;

impl LanguageFileParser {
    /// Reads the entries of the `Tokens` section of a token file's text.
    pub fn parse_from_str(content: &str) -> (r: Result<GameTranslation, LanguageFileLoadError>)
        ensures
            r matches Ok(t) && t@ == tokens_of(content@),
    {
        let s = chars_of(content);
        let tokens_tag = chars_of("\"Tokens\"");
        let mut translation = GameTranslation::new();
        let mut in_tokens = false;
        let mut depth: usize = 0;
        let mut line: Vec<char> = Vec::new();
        let mut i: usize = 0;
        proof {
            assert(translation@ =~= Seq::empty());
            assert(scan_state(in_tokens, depth, translation) == TokenScan { in_tokens: false, depth: 0, entries: Seq::empty() });
        }
        while i < s.len()
            invariant
                i <= s.len(),
                s@ == content@,
                tokens_tag@ == "\"Tokens\""@,
                depth + line.len() <= i,
                tokens_of(s@) == scan_text(s@, i as int, line@, scan_state(in_tokens, depth, translation)).entries,
            decreases s.len() - i,
        {
            if s[i] == '\n' {
                scan_line_exec(&mut in_tokens, &mut depth, &mut translation, &line, &tokens_tag);
                line = Vec::new();
            } else {
                line.push(s[i]);
            }
            i = i + 1;
        }
        scan_line_exec(&mut in_tokens, &mut depth, &mut translation, &line, &tokens_tag);
        Ok(translation)
    }

    /// Reads a token file's UTF-16LE bytes.
    pub fn parse_from_bytes(bytes: &[u8]) -> (r: Result<GameTranslation, LanguageFileLoadError>)
        ensures
            match utf16_text(le_units(bytes@)) {
                Some(text) => r matches Ok(t) && t@ == tokens_of(text),
                None => r is Err,
            },
    {
        match decode_utf16_le(bytes) {
            Some(content) => Self::parse_from_str(content.as_str()),
            None => Err(LanguageFileLoadError::Parse(crate::text::string_of(&chars_of("UTF-16 decode error")))),
        }
    }
}

} // verus!
