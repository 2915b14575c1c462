//! Decimal numerals, their parsing, and small string operations used by
//! path parsing and error messages.

use vstd::prelude::*;
use vstd::string::*;

verus! {

/// The ASCII character of a decimal digit `d < 10`.
pub open spec fn digit_char(d: nat) -> char {
    (48 + d) as char
}

/// Whether `c` is one of the ASCII digits `0`..`9`.
pub open spec fn is_digit(c: char) -> bool {
    48 <= c as int && c as int <= 57
}

/// The digit value of an ASCII digit.
pub open spec fn digit_value(c: char) -> nat {
    (c as int - 48) as nat
}

/// The decimal numeral of `n`, most significant digit first, without
/// leading zeros (zero is written `0`).
pub open spec fn decimal(n: nat) -> Seq<char>
    decreases n,
{
    if n < 10 {
        seq![digit_char(n)]
    } else {
        decimal(n / 10).push(digit_char(n % 10))
    }
}

/// Every character of `s` is an ASCII digit.
pub open spec fn all_digits(s: Seq<char>) -> bool {
    forall|i: int| 0 <= i < s.len() ==> is_digit(#[trigger] s[i])
}

/// The number written by a string of decimal digits.
pub open spec fn digits_value(s: Seq<char>) -> nat
    decreases s.len(),
{
    if s.len() == 0 {
        0
    } else {
        digits_value(s.drop_last()) * 10 + digit_value(s.last())
    }
}

/// What `str::parse::<u32>` gives: an optional `+` followed by one or
/// more ASCII digits whose value fits in a `u32`; anything else fails.
pub open spec fn parse_u32_spec(s: Seq<char>) -> Option<u32> {
    let body = if s.len() > 0 && s[0] == '+' {
        s.drop_first()
    } else {
        s
    };
    if body.len() > 0 && all_digits(body) && digits_value(body) <= u32::MAX {
        Some(digits_value(body) as u32)
    } else {
        None
    }
}

/// `s` without all of its trailing occurrences of `c`
/// (what `str::trim_end_matches` gives for a single character).
pub open spec fn trim_end(s: Seq<char>, c: char) -> Seq<char>
    decreases s.len(),
{
    if s.len() > 0 && s.last() == c {
        trim_end(s.drop_last(), c)
    } else {
        s
    }
}

/// Parse a `u32` written in decimal (`str::parse::<u32>`).
#[verifier::external_body]
pub(crate) fn parse_u32(s: &str) -> (r: Option<u32>)
    ensures
        r == parse_u32_spec(s@),
{
    s.parse::<u32>().ok()
}

/// The decimal numeral of `n` (`u64::to_string`).
#[verifier::external_body]
pub(crate) fn decimal_string(n: u64) -> (s: String)
    ensures
        s@ == decimal(n as nat),
{
    n.to_string()
}

/// Append one character to a string (`String::push`).
#[verifier::external_body]
pub(crate) fn push_char(s: &mut String, c: char)
    ensures
        final(s)@ == old(s)@.push(c),
{
    s.push(c)
}

/// Whether a character has the Unicode `White_Space` property: tab, line
/// feed, line tabulation, form feed, carriage return, space, next line,
/// no-break space, ogham space mark, the spaces from en quad to hair
/// space, line separator, paragraph separator, narrow no-break space,
/// medium mathematical space and ideographic space.
pub open spec fn is_white_char(c: char) -> bool {
    let u = c as u32;
    ||| 0x09 <= u <= 0x0D
    ||| u == 0x20
    ||| u == 0x85
    ||| u == 0xA0
    ||| u == 0x1680
    ||| 0x2000 <= u <= 0x200A
    ||| u == 0x2028
    ||| u == 0x2029
    ||| u == 0x202F
    ||| u == 0x205F
    ||| u == 0x3000
}

/// `char::is_whitespace`: whether the character has the `White_Space`
/// property.
#[verifier::external_body]
fn char_is_whitespace(c: char) -> (r: bool)
    ensures
        r == is_white_char(c),
{
    c.is_whitespace()
}

/// `s` without its leading whitespace.
pub open spec fn trim_start_white(s: Seq<char>) -> Seq<char>
    decreases s.len(),
{
    if s.len() > 0 && is_white_char(s[0]) {
        trim_start_white(s.drop_first())
    } else {
        s
    }
}

/// `s` without its trailing whitespace.
pub open spec fn trim_end_white(s: Seq<char>) -> Seq<char>
    decreases s.len(),
{
    if s.len() > 0 && is_white_char(s.last()) {
        trim_end_white(s.drop_last())
    } else {
        s
    }
}

/// `s` without leading and trailing whitespace (what `str::trim` gives).
pub open spec fn trim_white(s: Seq<char>) -> Seq<char> {
    trim_end_white(trim_start_white(s))
}

/// `s` without leading and trailing whitespace.
pub fn trim_text(s: &str) -> (r: String)
    ensures
        r@ == trim_white(s@),
{
    let n = s.unicode_len();
    let mut i: usize = 0;
    proof {
        assert(s@.skip(0) =~= s@);
    }
    while i < n && char_is_whitespace(s.get_char(i))
        invariant
            i <= n,
            n == s@.len(),
            trim_start_white(s@) == trim_start_white(s@.skip(i as int)),
        decreases n - i,
    {
        proof {
            assert(s@.skip(i as int).drop_first() =~= s@.skip(i + 1));
        }
        i = i + 1;
    }
    proof {
        assert(s@.skip(i as int) =~= s@.subrange(i as int, n as int));
        if i < n {
            assert(s@.skip(i as int)[0] == s@[i as int]);
        }
    }
    let mut k: usize = n;
    while k > i && char_is_whitespace(s.get_char(k - 1))
        invariant
            i <= k <= n,
            n == s@.len(),
            trim_white(s@) == trim_end_white(s@.subrange(i as int, k as int)),
        decreases k,
    {
        proof {
            assert(s@.subrange(i as int, k as int).drop_last() =~= s@.subrange(i as int, k - 1));
        }
        k = k - 1;
    }
    proof {
        if k > i {
            assert(s@.subrange(i as int, k as int).last() == s@[k - 1]);
        }
    }
    let t = s.substring_char(i, k);
    string_of(t)
}

/// Whether two strings hold the same characters.
pub fn text_eq(a: &str, b: &str) -> (r: bool)
    ensures
        r == (a@ == b@),
{
    let n = a.unicode_len();
    if n != b.unicode_len() {
        return false;
    }
    let mut i: usize = 0;
    while i < n
        invariant
            i <= n,
            n == a@.len(),
            n == b@.len(),
            forall|j: int| 0 <= j < i ==> a@[j] == b@[j],
        decreases n - i,
    {
        if a.get_char(i) != b.get_char(i) {
            return false;
        }
        i = i + 1;
    }
    assert(a@ =~= b@);
    true
}

/// A string holding the characters of `s`.
pub fn string_of(s: &str) -> (r: String)
    ensures
        r@ == s@,
{
    s.to_string()
}

/// `a` followed by `b`.
pub fn concat_str(a: &str, b: &str) -> (r: String)
    ensures
        r@ == a@ + b@,
{
    let mut r = a.to_string();
    r.append(b);
    r
}

proof fn lemma_decimal_digits(n: nat)
    ensures
        decimal(n).len() > 0,
        all_digits(decimal(n)),
        digits_value(decimal(n)) == n,
    decreases n,
{
    if n < 10 {
        assert(digit_char(n) as int == 48 + n);
        assert(decimal(n) =~= seq![digit_char(n)]);
        assert(seq![digit_char(n)].drop_last() =~= Seq::<char>::empty());
        assert(digits_value(decimal(n)) == digits_value(Seq::<char>::empty()) * 10 + digit_value(digit_char(n)));
    } else {
        lemma_decimal_digits(n / 10);
        assert(digit_char(n % 10) as int == 48 + n % 10);
        let d = decimal(n / 10).push(digit_char(n % 10));
        assert(d.drop_last() =~= decimal(n / 10));
        assert(digits_value(d) == digits_value(decimal(n / 10)) * 10 + digit_value(digit_char(n % 10)));
        assert((n / 10) * 10 + n % 10 == n) by (nonlinear_arith);
        assert forall|i: int| 0 <= i < d.len() implies is_digit(#[trigger] d[i]) by {
            if i < d.len() - 1 {
                assert(d[i] == decimal(n / 10)[i]);
            }
        }
    }
}

/// A decimal numeral is a nonempty string of digits that starts with a
/// digit, reads back as the number it was written from, and has no
/// trailing occurrence of a non-digit character.
pub proof fn lemma_decimal_props(n: nat)
    ensures
        decimal(n).len() > 0,
        all_digits(decimal(n)),
        digits_value(decimal(n)) == n,
        is_digit(decimal(n)[0]),
        is_digit(decimal(n).last()),
{
    lemma_decimal_digits(n);
    assert(is_digit(decimal(n)[0]));
    assert(is_digit(decimal(n)[decimal(n).len() - 1]));
}

/// `str::parse::<u32>` reads back every decimal numeral of a `u32`.
pub proof fn lemma_parse_decimal(n: u32)
    ensures
        parse_u32_spec(decimal(n as nat)) == Some(n),
{
    lemma_decimal_props(n as nat);
    let s = decimal(n as nat);
    assert(s[0] != '+');
}

/// Trimming a character that is not a digit leaves a numeral unchanged.
pub proof fn lemma_trim_end_decimal(n: nat, c: char)
    requires
        !is_digit(c),
    ensures
        trim_end(decimal(n), c) == decimal(n),
{
    lemma_decimal_props(n);
}

/// Trimming a trailing character that is not a digit off a numeral
/// followed by that character gives back the numeral.
pub proof fn lemma_trim_end_decimal_suffix(n: nat, c: char)
    requires
        !is_digit(c),
    ensures
        trim_end(decimal(n).push(c), c) == decimal(n),
{
    lemma_decimal_props(n);
    assert(decimal(n).push(c).drop_last() =~= decimal(n));
    lemma_trim_end_decimal(n, c);
}

/// The pieces of `s` between occurrences of `sep` (what `str::split` gives
/// for a single character): always at least one piece.
pub open spec fn split_seq(s: Seq<char>, sep: char) -> Seq<Seq<char>>
    decreases s.len(),
{
    if s.len() == 0 {
        seq![Seq::<char>::empty()]
    } else {
        let p = split_seq(s.drop_last(), sep);
        if s.last() == sep {
            p.push(Seq::<char>::empty())
        } else {
            p.update(p.len() - 1, p.last().push(s.last()))
        }
    }
}

/// Split `s` at every `sep`.
pub fn split_on(s: &str, sep: char) -> (r: Vec<String>)
    ensures
        r@.len() == split_seq(s@, sep).len(),
        forall|i: int| 0 <= i < r@.len() ==> #[trigger] r@[i]@ == split_seq(s@, sep)[i],
{
    let n = s.unicode_len();
    let mut parts: Vec<String> = Vec::new();
    let mut cur = String::new();
    let mut i: usize = 0;
    while i < n
        invariant
            n == s@.len(),
            i <= n,
            parts@.len() + 1 == split_seq(s@.take(i as int), sep).len(),
            forall|j: int|
                0 <= j < parts@.len() ==> #[trigger] parts@[j]@ == split_seq(
                    s@.take(i as int),
                    sep,
                )[j],
            cur@ == split_seq(s@.take(i as int), sep).last(),
        decreases n - i,
    {
        let c = s.get_char(i);
        proof {
            assert(s@.take(i + 1).drop_last() =~= s@.take(i as int));
            assert(s@.take(i + 1).last() == c);
        }
        if c == sep {
            parts.push(cur);
            cur = String::new();
        } else {
            push_char(&mut cur, c);
        }
        i = i + 1;
    }
    parts.push(cur);
    proof {
        assert(s@.take(n as int) =~= s@);
    }
    parts
}

/// `s` without its trailing occurrences of `c`.
pub fn trim_end_char(s: &str, c: char) -> (r: String)
    ensures
        r@ == trim_end(s@, c),
{
    let mut k = s.unicode_len();
    proof {
        assert(s@.take(k as int) =~= s@);
    }
    while k > 0 && s.get_char(k - 1) == c
        invariant
            k <= s@.len(),
            trim_end(s@, c) == trim_end(s@.take(k as int), c),
        decreases k,
    {
        proof {
            assert(s@.take(k as int).drop_last() =~= s@.take(k - 1));
        }
        k = k - 1;
    }
    let r = s.substring_char(0, k);
    string_of(r)
}

} // verus!
