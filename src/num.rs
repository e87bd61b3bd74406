use vstd::prelude::*;

verus! {

pub open spec fn is_digit(c: char) -> bool {
    '0' <= c <= '9'
}

pub open spec fn digit_value(c: char) -> nat {
    (c as nat - '0' as nat) as nat
}

pub open spec fn digit_char(d: nat) -> char {
    (d + '0' as nat) as char
}

/// The value of a string of decimal digits.
pub open spec fn digits_value(s: Seq<char>) -> nat
    decreases s.len(),
{
    if s.len() == 0 {
        0
    } else {
        digits_value(s.drop_last()) * 10 + digit_value(s.last())
    }
}

pub open spec fn all_digits(s: Seq<char>) -> bool {
    forall|i: int| 0 <= i < s.len() ==> is_digit(#[trigger] s[i])
}

/// The digits of a number written in decimal: an optional `+`, then the rest.
pub open spec fn unsigned_body(s: Seq<char>) -> Seq<char> {
    if s.len() > 0 && s[0] == '+' {
        s.drop_first()
    } else {
        s
    }
}

/// The unsigned number that `s` writes in decimal, when it is at most `max`:
/// an optional `+` and at least one digit, nothing else.
pub open spec fn parse_unsigned(s: Seq<char>, max: nat) -> Option<nat> {
    let d = unsigned_body(s);
    if d.len() > 0 && all_digits(d) && digits_value(d) <= max {
        Some(digits_value(d))
    } else {
        None
    }
}

/// The decimal text of `n`, without sign or leading zeros.
pub open spec fn decimal(n: nat) -> Seq<char>
    decreases n,
{
    if n < 10 {
        seq![digit_char(n)]
    } else {
        decimal(n / 10).push(digit_char(n % 10))
    }
}

proof fn lemma_digits_prefix(s: Seq<char>, i: int)
    requires
        0 <= i <= s.len(),
        all_digits(s),
    ensures
        digits_value(s.subrange(0, i)) <= digits_value(s),
    decreases s.len() - i,
{
    if i < s.len() {
        lemma_digits_prefix(s, i + 1);
        let t = s.subrange(0, i + 1);
        assert(t.drop_last() =~= s.subrange(0, i));
        assert(is_digit(s[i]));
    }
    else {
        assert(s.subrange(0, i) =~= s);
    }
}

pub proof fn lemma_decimal(n: nat)
    ensures
        decimal(n).len() > 0,
        all_digits(decimal(n)),
        digits_value(decimal(n)) == n,
        decimal(n)[0] != '+',
    decreases n,
{
    if n < 10 {
        assert(decimal(n).drop_last() =~= Seq::<char>::empty());
        assert(digit_value(digit_char(n)) == n);
        assert(decimal(n).last() == digit_char(n));
        assert(digits_value(decimal(n)) == digits_value(decimal(n).drop_last()) * 10 + digit_value(digit_char(n)));
    } else {
        lemma_decimal(n / 10);
        let d = decimal(n);
        assert(d.drop_last() =~= decimal(n / 10));
        assert(digit_value(digit_char(n % 10)) == n % 10);
        assert(d.last() == digit_char(n % 10));
        assert(digits_value(d) == digits_value(decimal(n / 10)) * 10 + n % 10);
        assert(n == (n / 10) * 10 + n % 10);
        assert forall|i: int| 0 <= i < d.len() implies is_digit(#[trigger] d[i]) by {
            if i < d.len() - 1 {
                assert(d[i] == decimal(n / 10)[i]);
            }
        }
    }
}

/// Reading back the decimal text of a number gives the number.
pub proof fn lemma_parse_decimal(n: nat, max: nat)
    requires
        n <= max,
    ensures
        parse_unsigned(decimal(n), max) == Some(n),
{
    lemma_decimal(n);
}

/// Reads an unsigned decimal number of at most `max`.
pub fn parse_unsigned_exec(s: &str, max: u64) -> (r: Option<u64>)
    ensures
        match parse_unsigned(s@, max as nat) {
            Some(n) => r == Some(n as u64),
            None => r is None,
        },
{
    let cs = crate::text::chars_of(s);
    let mut i: usize = 0;
    if cs.len() > 0 && cs[0] == '+' {
        i = 1;
    }
    let ghost d = unsigned_body(cs@);
    let ghost start = i as int;
    proof {
        assert(d =~= cs@.subrange(start, cs.len() as int));
    }
    if i >= cs.len() {
        return None;
    }
    let mut value: u64 = 0;
    while i < cs.len()
        invariant
            start <= i <= cs.len(),
            d == cs@.subrange(start, cs.len() as int),
            cs@ == s@,
            start == 0 || start == 1,
            d == unsigned_body(s@),
            all_digits(cs@.subrange(start, i as int)),
            value as nat == digits_value(cs@.subrange(start, i as int)),
            value <= max,
        decreases cs.len() - i,
    {
        let c = cs[i];
        if !('0' <= c && c <= '9') {
            proof {
                assert(d[i - start] == c);
                assert(!is_digit(d[i - start]));
                assert(!all_digits(d));
                assert(unsigned_body(s@) == d);
                assert(parse_unsigned(s@, max as nat) is None);
            }
            return None;
        }
        let dv = (c as u32 - '0' as u32) as u64;
        assert(dv as nat == digit_value(c));
        let ghost prefix = cs@.subrange(start, i + 1);
        proof {
            assert(prefix.drop_last() =~= cs@.subrange(start, i as int));
        }
        if dv > max || value > (max - dv) / 10 {
            proof {
                assert(value * 10 + dv > max) by (nonlinear_arith)
                    requires dv > max || value > (max - dv) / 10, value >= 0;
                assert(digits_value(prefix) == value * 10 + dv);
                assert(all_digits(prefix));
                if all_digits(d) {
                    lemma_digits_prefix(d, i + 1 - start);
                    assert(d.subrange(0, i + 1 - start) =~= prefix);
                }
            }
            return None;
        }
        value = value * 10 + dv;
        i = i + 1;
        proof {
            assert(all_digits(cs@.subrange(start, i as int)));
        }
    }
    proof {
        assert(cs@.subrange(start, cs.len() as int) =~= d);
    }
    Some(value)
}

/// The decimal text of `n`.
pub fn decimal_exec(n: u128) -> (r: String)
    ensures
        r@ == decimal(n as nat),
{
    let mut acc: Vec<char> = Vec::new();
    let mut m = n;
    while m >= 10
        invariant
            decimal(n as nat) == decimal(m as nat) + acc@,
        decreases m,
    {
        let c = ((m % 10) as u8 + 48u8) as char;
        proof {
            assert(c == digit_char((m % 10) as nat));
        }
        acc.insert(0, c);
        proof {
            assert(decimal(m as nat) + acc@.drop_first() =~= decimal((m / 10) as nat) + acc@);
        }
        m = m / 10;
    }
    let c = (m as u8 + 48u8) as char;
    acc.insert(0, c);
    proof {
        assert(acc@ =~= decimal(n as nat));
    }
    crate::text::string_of(&acc)
}

/// Index of the first `c` at or after `i`, or the length when there is none.
pub open spec fn find_char(s: Seq<char>, c: char, i: int) -> int
    decreases s.len() - i,
{
    if i < 0 || i >= s.len() {
        s.len() as int
    } else if s[i] == c {
        i
    } else {
        find_char(s, c, i + 1)
    }
}

/// The whole part of a decimal fraction such as `1149.000000`: an optional
/// `+`, digits, then optionally a point and more digits; at least one digit.
/// This reads plain decimal notation only, where a floating-point parse would
/// also take exponents (`1e3`), `inf`, `nan` and negative numbers, round
/// values above 2^24, and saturate values past the largest id; here those
/// give no id, and the whole part is kept exactly.
pub open spec fn parse_truncated(s: Seq<char>, max: nat) -> Option<nat> {
    let d = find_char(s, '.', 0);
    let head = s.subrange(0, d);
    let frac = if d < s.len() {
        s.subrange(d + 1, s.len() as int)
    } else {
        Seq::empty()
    };
    if !all_digits(frac) {
        None
    } else if unsigned_body(head).len() == 0 {
        if frac.len() > 0 {
            Some(0)
        } else {
            None
        }
    } else {
        parse_unsigned(head, max)
    }
}

proof fn lemma_find_char(s: Seq<char>, c: char, i: int)
    requires
        0 <= i <= s.len(),
    ensures
        i <= find_char(s, c, i) <= s.len(),
        forall|j: int| i <= j < find_char(s, c, i) ==> s[j] != c,
        find_char(s, c, i) < s.len() ==> s[find_char(s, c, i)] == c,
    decreases s.len() - i,
{
    if i < s.len() && s[i] != c {
        lemma_find_char(s, c, i + 1);
    }
}

/// Reads the whole part of a decimal fraction of at most `max`.
pub fn parse_truncated_exec(s: &str, max: u64) -> (r: Option<u64>)
    ensures
        match parse_truncated(s@, max as nat) {
            Some(n) => r == Some(n as u64),
            None => r is None,
        },
{
    let cs = crate::text::chars_of(s);
    let mut d: usize = 0;
    while d < cs.len() && cs[d] != '.'
        invariant
            d <= cs.len(),
            find_char(cs@, '.', 0) == find_char(cs@, '.', d as int),
        decreases cs.len() - d,
    {
        d = d + 1;
    }
    assert(find_char(cs@, '.', 0) == d);
    let mut head: Vec<char> = Vec::new();
    let mut i: usize = 0;
    while i < d
        invariant
            i <= d <= cs.len(),
            head@ == cs@.subrange(0, i as int),
        decreases d - i,
    {
        head.push(cs[i]);
        i = i + 1;
        proof {
            assert(head@ =~= cs@.subrange(0, i as int));
        }
    }
    let ghost frac = if d < cs.len() {
        cs@.subrange(d + 1, cs.len() as int)
    } else {
        Seq::empty()
    };
    let mut frac_len: usize = 0;
    if d < cs.len() {
        let mut j: usize = d + 1;
        while j < cs.len()
            invariant
                d < j <= cs.len(),
                d as int == find_char(cs@, '.', 0),
                cs@ == s@,
                frac == cs@.subrange(d + 1, cs.len() as int),
                forall|k: int| d + 1 <= k < j ==> is_digit(#[trigger] cs@[k]),
            decreases cs.len() - j,
        {
            if !('0' <= cs[j] && cs[j] <= '9') {
                proof {
                    assert(frac[j - d - 1] == cs@[j as int]);
                }
                return None;
            }
            j = j + 1;
        }
        proof {
            assert forall|k: int| 0 <= k < frac.len() implies is_digit(#[trigger] frac[k]) by {
                assert(frac[k] == cs@[d + 1 + k]);
            }
        }
        frac_len = cs.len() - d - 1;
    }
    proof {
        assert(cs@ == s@);
        assert(head@ =~= cs@.subrange(0, find_char(cs@, '.', 0)));
        assert(frac.len() == frac_len);
    }
    let head_text = crate::text::string_of(&head);
    let body_empty = head.len() == 0 || (head.len() == 1 && head[0] == '+');
    proof {
        assert(body_empty == (unsigned_body(head@).len() == 0));
    }
    if body_empty {
        if frac_len > 0 {
            Some(0)
        } else {
            None
        }
    } else {
        parse_unsigned_exec(head_text.as_str(), max)
    }
}

} // verus!
