//! Text helpers: strings seen as sequences of characters.

use vstd::prelude::*;
use vstd::std_specs::iter::IteratorSpec;

verus! {

/// Whether `c` has the Unicode property White_Space.
pub uninterp spec fn char_is_whitespace(c: char) -> bool;

/// `char::is_whitespace` of std: tells whether the character has the Unicode
/// property White_Space. The contract only names that answer.
#[verifier::external_body]
fn is_whitespace(c: char) -> (b: bool)
    ensures
        b == char_is_whitespace(c),
{
    c.is_whitespace()
}

/// `String::from_iter` of std over the characters of a vector: the string
/// made of exactly these characters, in order.
#[verifier::external_body]
pub(crate) fn string_from_chars(chars: &Vec<char>) -> (out: String)
    ensures
        out@ == chars@,
{
    String::from_iter(chars.iter())
}

/// The characters of `s`, in order.
pub fn chars_of(s: &str) -> (out: Vec<char>)
    ensures
        out@ == s@,
{
    let mut out: Vec<char> = Vec::new();
    let mut it = s.chars();
    loop
        invariant
            it.obeys_prophetic_iter_laws(),
            it.decrease() is Some,
            out@ + it.remaining() == s@,
        decreases it.decrease()->0,
    {
        match it.next() {
            Some(c) => {
                out.push(c);
            },
            None => {
                return out;
            },
        }
    }
}

/// Whether two strings hold the same characters.
pub fn same_text(a: &str, b: &str) -> (same: bool)
    ensures
        same == (a@ == b@),
{
    let x = chars_of(a);
    let y = chars_of(b);
    if x.len() != y.len() {
        return false;
    }
    let mut i: usize = 0;
    while i < x.len()
        invariant
            i <= x.len(),
            x.len() == y.len(),
            x@ == a@,
            y@ == b@,
            forall|j: int| 0 <= j < i ==> x@[j] == y@[j],
        decreases x.len() - i,
    {
        if x[i] != y[i] {
            return false;
        }
        i = i + 1;
    }
    assert(x@ =~= y@);
    true
}

/// `s` without the white space at its start.
pub open spec fn trim_start(s: Seq<char>) -> Seq<char>
    decreases s.len(),
{
    if s.len() > 0 && char_is_whitespace(s[0]) {
        trim_start(s.drop_first())
    } else {
        s
    }
}

/// `s` without the white space at its end.
pub open spec fn trim_end(s: Seq<char>) -> Seq<char>
    decreases s.len(),
{
    if s.len() > 0 && char_is_whitespace(s.last()) {
        trim_end(s.drop_last())
    } else {
        s
    }
}

/// `s` without the white space at either end.
pub open spec fn trimmed(s: Seq<char>) -> Seq<char> {
    trim_end(trim_start(s))
}

/// Bounds of what is left of `chars[lo..hi]` once the white space at both
/// ends is gone.
pub fn trim_range(chars: &Vec<char>, lo: usize, hi: usize) -> (out: (usize, usize))
    requires
        lo <= hi <= chars.len(),
    ensures
        lo <= out.0 <= out.1 <= hi,
        chars@.subrange(out.0 as int, out.1 as int) == trimmed(chars@.subrange(lo as int, hi as int)),
{
    let mut a = lo;
    while a < hi && is_whitespace(chars[a])
        invariant
            lo <= a <= hi <= chars.len(),
            trim_start(chars@.subrange(lo as int, hi as int)) == trim_start(
                chars@.subrange(a as int, hi as int),
            ),
        decreases hi - a,
    {
        assert(chars@.subrange(a as int, hi as int).drop_first() =~= chars@.subrange(
            a as int + 1,
            hi as int,
        ));
        a = a + 1;
    }
    let mut b = hi;
    while b > a && is_whitespace(chars[b - 1])
        invariant
            a <= b <= hi <= chars.len(),
            trim_end(chars@.subrange(a as int, hi as int)) == trim_end(
                chars@.subrange(a as int, b as int),
            ),
        decreases b - a,
    {
        assert(chars@.subrange(a as int, b as int).drop_last() =~= chars@.subrange(
            a as int,
            b as int - 1,
        ));
        b = b - 1;
    }
    (a, b)
}

/// Whether `chars[lo..hi]` begins with `prefix`.
pub fn range_starts_with(chars: &Vec<char>, lo: usize, hi: usize, prefix: &Vec<char>) -> (b: bool)
    requires
        lo <= hi <= chars.len(),
    ensures
        b == prefix@.is_prefix_of(chars@.subrange(lo as int, hi as int)),
{
    if prefix.len() > hi - lo {
        return false;
    }
    let ghost s = chars@.subrange(lo as int, hi as int);
    let mut i: usize = 0;
    while i < prefix.len()
        invariant
            i <= prefix.len() <= hi - lo,
            lo <= hi <= chars.len(),
            s == chars@.subrange(lo as int, hi as int),
            forall|j: int| 0 <= j < i ==> prefix@[j] == s[j],
        decreases prefix.len() - i,
    {
        if prefix[i] != chars[lo + i] {
            assert(s[i as int] != prefix@[i as int]);
            assert(s.subrange(0, prefix@.len() as int)[i as int] == s[i as int]);
            return false;
        }
        i = i + 1;
    }
    assert(prefix@ =~= s.subrange(0, prefix@.len() as int));
    true
}

/// Whether `chars[lo..hi]` ends with `suffix`.
pub fn range_ends_with(chars: &Vec<char>, lo: usize, hi: usize, suffix: &Vec<char>) -> (b: bool)
    requires
        lo <= hi <= chars.len(),
    ensures
        b == suffix@.is_suffix_of(chars@.subrange(lo as int, hi as int)),
{
    if suffix.len() > hi - lo {
        return false;
    }
    let ghost s = chars@.subrange(lo as int, hi as int);
    let start = hi - suffix.len();
    let mut i: usize = 0;
    while i < suffix.len()
        invariant
            i <= suffix.len() <= hi - lo,
            lo <= hi <= chars.len(),
            start == hi - suffix.len(),
            s == chars@.subrange(lo as int, hi as int),
            forall|j: int| 0 <= j < i ==> suffix@[j] == s[s.len() - suffix@.len() + j],
        decreases suffix.len() - i,
    {
        if suffix[i] != chars[start + i] {
            assert(s[s.len() - suffix@.len() + i] != suffix@[i as int]);
            assert(s.subrange(s.len() - suffix@.len(), s.len() as int)[i as int] == s[s.len()
                - suffix@.len() + i]);
            return false;
        }
        i = i + 1;
    }
    assert(suffix@ =~= s.subrange(s.len() - suffix@.len(), s.len() as int));
    true
}


/// Whether `c` is one of the ten decimal digits.
pub open spec fn is_digit(c: char) -> bool {
    '0' <= c <= '9'
}

/// The number that the digit `c` stands for.
pub open spec fn digit_of(c: char) -> nat {
    (c as u32 - '0' as u32) as nat
}

/// The character for the digit `d`.
pub open spec fn digit_char(d: nat) -> char {
    (d + '0' as u32) as char
}

/// Every character is a decimal digit.
pub open spec fn all_decimal(s: Seq<char>) -> bool {
    forall|i: int| 0 <= i < s.len() ==> is_digit(#[trigger] s[i])
}

/// The number written by the digits `s`, most significant first.
pub open spec fn decimal_value(s: Seq<char>) -> nat
    decreases s.len(),
{
    if s.len() == 0 {
        0
    } else {
        decimal_value(s.drop_last()) * 10 + digit_of(s.last())
    }
}

/// What is left of `s` after an optional plus sign.
pub open spec fn unsigned_part(s: Seq<char>) -> Seq<char> {
    if s.len() > 0 && s[0] == '+' {
        s.drop_first()
    } else {
        s
    }
}

/// The 128-bit amount that `s` writes: an optional plus sign, then one or
/// more decimal digits whose number fits 128 bits. Anything else is no amount.
pub open spec fn parsed_u128(s: Seq<char>) -> Option<u128> {
    let body = unsigned_part(s);
    if body.len() > 0 && all_decimal(body) && decimal_value(body) <= u128::MAX {
        Some(decimal_value(body) as u128)
    } else {
        None
    }
}

/// The decimal digits of `n`, most significant first, without leading zero.
pub open spec fn nat_text(n: nat) -> Seq<char>
    decreases n,
{
    if n < 10 {
        seq![digit_char(n)]
    } else {
        nat_text(n / 10).push(digit_char(n % 10))
    }
}

/// A longer text of digits writes no smaller number than its beginning.
pub proof fn lemma_decimal_value_grows(s: Seq<char>, k: int)
    requires
        0 <= k <= s.len(),
    ensures
        decimal_value(s.take(k)) <= decimal_value(s),
    decreases s.len() - k,
{
    if k == s.len() {
        assert(s.take(k) =~= s);
    } else {
        lemma_decimal_value_grows(s.drop_last(), k);
        assert(s.drop_last().take(k) =~= s.take(k));
    }
}

/// Reading what `nat_text` wrote gives the number back.
pub proof fn lemma_nat_text_reads_back(n: nat)
    ensures
        nat_text(n).len() > 0,
        all_decimal(nat_text(n)),
        decimal_value(nat_text(n)) == n,
        nat_text(n)[0] != '+',
    decreases n,
{
    if n < 10 {
        let s = nat_text(n);
        assert(s.drop_last() =~= Seq::<char>::empty());
        assert(decimal_value(s.drop_last()) == 0);
    } else {
        lemma_nat_text_reads_back(n / 10);
        let t = nat_text(n / 10);
        let s = nat_text(n);
        assert(s.drop_last() =~= t);
        assert(s[0] == t[0]);
    }
}

/// Reading the digits of a 128-bit amount gives the amount back.
pub proof fn lemma_u128_text_reads_back(n: u128)
    ensures
        parsed_u128(nat_text(n as nat)) == Some(n),
{
    lemma_nat_text_reads_back(n as nat);
}

/// Reads a 128-bit amount written in decimal digits.
pub fn parse_u128(text: &str) -> (out: Option<u128>)
    ensures
        out == parsed_u128(text@),
{
    let chars = chars_of(text);
    let start: usize = if chars.len() > 0 && chars[0] == '+' { 1 } else { 0 };
    let ghost body = unsigned_part(text@);
    assert(body =~= chars@.subrange(start as int, chars.len() as int));
    if start == chars.len() {
        return None;
    }
    let mut acc: u128 = 0;
    let mut i: usize = start;
    while i < chars.len()
        invariant
            start <= i <= chars.len(),
            body == chars@.subrange(start as int, chars.len() as int),
            body == unsigned_part(text@),
            all_decimal(body.take(i - start)),
            acc == decimal_value(body.take(i - start)),
        decreases chars.len() - i,
    {
        let c = chars[i];
        if !('0' <= c && c <= '9') {
            assert(!is_digit(body[i - start]));
            return None;
        }
        let d: u128 = (c as u32 - '0' as u32) as u128;
        proof {
            let next = body.take(i - start + 1);
            assert(next.drop_last() =~= body.take(i - start));
            assert(next.last() == c);
            assert forall|j: int| 0 <= j < next.len() implies is_digit(#[trigger] next[j]) by {
                if j < next.len() - 1 {
                    assert(body.take(i - start)[j] == next[j]);
                }
            }
            lemma_decimal_value_grows(body, i - start + 1);
        }
        if acc > (u128::MAX - d) / 10 {
            return None;
        }
        acc = acc * 10 + d;
        i = i + 1;
    }
    assert(body.take(i - start) =~= body);
    Some(acc)
}

/// Appends the decimal digits of `n` to `out`.
pub(crate) fn push_nat_text(n: u128, out: &mut Vec<char>)
    ensures
        final(out)@ == old(out)@ + nat_text(n as nat),
    decreases n,
{
    if n >= 10 {
        push_nat_text(n / 10, out);
    }
    let d: u8 = (n % 10) as u8;
    let c: char = (d + 48u8) as char;
    assert(c == digit_char((n % 10) as nat));
    out.push(c);
    assert(final(out)@ =~= old(out)@ + nat_text(n as nat));
}

/// Writes `n` in decimal digits.
pub fn u128_text(n: u128) -> (out: String)
    ensures
        out@ == nat_text(n as nat),
{
    let mut chars: Vec<char> = Vec::new();
    push_nat_text(n, &mut chars);
    string_from_chars(&chars)
}


/// Appends the characters of `text` to `out`.
pub(crate) fn push_text(out: &mut Vec<char>, text: &str)
    ensures
        final(out)@ == old(out)@ + text@,
{
    let mut chars = chars_of(text);
    out.append(&mut chars);
}

} // verus!
