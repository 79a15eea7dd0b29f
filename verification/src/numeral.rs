//! Characters of a text, and unsigned decimal numerals read and written.
use vstd::prelude::*;
use vstd::std_specs::iter::IteratorSpec;

verus! {

broadcast use vstd::string::group_string_axioms;

/// `String::push` of the standard library: the character is appended to the
/// end of the string, and nothing else of it changes.
pub assume_specification[ String::push ](s: &mut String, c: char)
    ensures
        final(s)@ == old(s)@.push(c),
;

/// The characters of `s`, in order.
pub fn chars_of(s: &str) -> (v: Vec<char>)
    ensures
        v@ == s@,
{
    let mut v: Vec<char> = Vec::new();
    for c in it: s.chars()
        invariant
            it.seq() == s@,
            v@ == it.seq().take(it.index() as int),
    {
        v.push(c);
    }
    v
}

/// The character that writes the digit `d`, for `d` below ten.
pub open spec fn digit(d: nat) -> char {
    ((48 + d) as u8) as char
}

/// The value of `c` as a decimal digit, if it is one.
pub open spec fn digit_value(c: char) -> Option<nat> {
    if 48 <= c as u32 <= 57 {
        Some((c as u32 - 48) as nat)
    } else {
        None
    }
}

/// The shortest decimal numeral of `n`.
pub open spec fn decimal(n: nat) -> Seq<char>
    decreases n,
{
    if n < 10 {
        seq![digit(n)]
    } else {
        decimal(n / 10).push(digit(n % 10))
    }
}

/// The number that `s` denotes when it is a non-empty run of decimal digits.
pub open spec fn numeral(s: Seq<char>) -> Option<nat>
    decreases s.len(),
{
    if s.len() == 0 {
        None
    } else if s.len() == 1 {
        digit_value(s[0])
    } else {
        match (numeral(s.drop_last()), digit_value(s.last())) {
            (Some(n), Some(d)) => Some(10 * n + d),
            _ => None,
        }
    }
}

/// The number that `s` denotes as an unsigned 64-bit integer: decimal digits,
/// at least one, after at most one `+`; leading zeros count for nothing, and
/// a number beyond the 64-bit range is not read.
pub open spec fn parse_u64(s: Seq<char>) -> Option<u64> {
    let digits = if s.len() > 0 && s[0] == '+' {
        s.drop_first()
    } else {
        s
    };
    match numeral(digits) {
        Some(n) => if n <= u64::MAX {
            Some(n as u64)
        } else {
            None
        },
        None => None,
    }
}

/// A run of digits denotes at least what any of its non-empty prefixes does,
/// and is no numeral at all if a prefix is none.
pub proof fn lemma_numeral_prefix(s: Seq<char>, k: int)
    requires
        0 < k <= s.len(),
    ensures
        numeral(s) matches Some(n) ==> numeral(s.take(k)) matches Some(m) && m <= n,
    decreases s.len(),
{
    if k == s.len() {
        assert(s.take(k) =~= s);
    } else {
        assert(s.drop_last().take(k) =~= s.take(k));
        lemma_numeral_prefix(s.drop_last(), k);
    }
}

/// Reads the digits of `s` from index `from` on, as `numeral` does.
fn parse_digits(s: &[char], from: usize) -> (r: Option<u64>)
    requires
        from <= s.len(),
    ensures
        r == match numeral(s@.skip(from as int)) {
            Some(n) => if n <= u64::MAX {
                Some(n as u64)
            } else {
                None
            },
            None => None,
        },
{
    let ghost body = s@.skip(from as int);
    if from == s.len() {
        return None;
    }
    let mut acc: u64 = 0;
    let mut i: usize = from;
    while i < s.len()
        invariant
            from <= i <= s.len(),
            body == s@.skip(from as int),
            i > from ==> numeral(body.take(i - from)) == Some(acc as nat),
            i == from ==> acc == 0,
        decreases s.len() - i,
    {
        let c = s[i];
        let code = c as u32;
        proof {
            assert(body.take(i - from + 1).drop_last() =~= body.take(i - from));
            lemma_numeral_prefix(body, i - from + 1);
        }
        if code < 48 || code > 57 {
            return None;
        }
        let d: u64 = (code - 48) as u64;
        if acc > (u64::MAX - d) / 10 {
            return None;
        }
        acc = acc * 10 + d;
        i = i + 1;
    }
    assert(body.take(i - from) =~= body);
    Some(acc)
}

/// Reads `s` as an unsigned 64-bit integer.
pub fn parse_value(s: &[char]) -> (r: Option<u64>)
    ensures
        r == parse_u64(s@),
{
    if s.len() > 0 && s[0] == '+' {
        parse_digits(s, 1)
    } else {
        assert(s@.skip(0) =~= s@);
        parse_digits(s, 0)
    }
}

/// Writes `n` in decimal, without leading zeros.
pub fn render_decimal(n: u64) -> (r: String)
    ensures
        r@ == decimal(n as nat),
{
    let mut low: Vec<char> = Vec::new();
    let ghost mut tail: Seq<char> = Seq::empty();
    let mut m: u64 = n;
    while m >= 10
        invariant
            decimal(n as nat) == decimal(m as nat) + tail,
            tail.len() == low.len(),
            forall|i: int| 0 <= i < tail.len() ==> tail[i] == low@[low.len() - 1 - i],
        decreases m,
    {
        let c = ((48 + m % 10) as u8) as char;
        proof {
            tail = seq![c] + tail;
        }
        low.push(c);
        m = m / 10;
    }
    let mut r = String::new();
    r.push(((48 + m) as u8) as char);
    let mut k: usize = low.len();
    while k > 0
        invariant
            k <= low.len(),
            tail.len() == low.len(),
            forall|i: int| 0 <= i < tail.len() ==> tail[i] == low@[low.len() - 1 - i],
            r@ == seq![digit(m as nat)] + tail.take(low.len() - k),
        decreases k,
    {
        k = k - 1;
        r.push(low[k]);
    }
    r
}

} // verus!
