//! Names derived from Rust identifiers: kebab-case command names, title
//! case labels and module names.

use vstd::prelude::*;
use vstd::string::*;

use crate::text::{push_char, split_on, split_seq};

verus! {

/// Whether a character has the Unicode `Uppercase` property.
pub uninterp spec fn is_upper_char(c: char) -> bool;

/// The first character of the lowercase mapping of a character.
pub uninterp spec fn lower_first(c: char) -> char;

/// The characters of the uppercase mapping of a character.
pub uninterp spec fn upper_chars(c: char) -> Seq<char>;

/// `char::is_uppercase`; among ASCII characters exactly `A` to `Z` are
/// uppercase.
#[verifier::external_body]
fn char_is_uppercase(c: char) -> (r: bool)
    ensures
        r == is_upper_char(c),
        (c as u32) < 128 ==> (r <==> 65 <= (c as u32) <= 90),
{
    c.is_uppercase()
}

/// The first character of `char::to_lowercase`, which always yields at
/// least one: for `A` to `Z` the letter 32 places on, for any other ASCII
/// character the character itself.
#[verifier::external_body]
fn char_to_lower(c: char) -> (r: char)
    ensures
        r == lower_first(c),
        65 <= (c as u32) <= 90 ==> r == ((c as u32) + 32) as char,
        (c as u32) < 128 && !(65 <= (c as u32) <= 90) ==> r == c,
{
    match c.to_lowercase().next() {
        Some(l) => l,
        None => c,
    }
}

/// The characters of `char::to_uppercase`: for `a` to `z` the one letter
/// 32 places back, for any other ASCII character the character itself.
#[verifier::external_body]
pub(crate) fn char_to_upper(c: char) -> (r: Vec<char>)
    ensures
        r@ == upper_chars(c),
        97 <= (c as u32) <= 122 ==> r@ == seq![((c as u32) - 32) as char],
        (c as u32) < 128 && !(97 <= (c as u32) <= 122) ==> r@ == seq![c],
{
    c.to_uppercase().collect()
}

/// Whether a character is uppercase: among ASCII characters exactly `A`
/// to `Z`; beyond ASCII, the Unicode `Uppercase` property.
pub open spec fn upper_case(c: char) -> bool {
    if (c as u32) < 128 {
        65 <= (c as u32) <= 90
    } else {
        is_upper_char(c)
    }
}

/// The lowercase of a character (the first character of its mapping): `A`
/// to `Z` become `a` to `z`, any other ASCII character stays.
pub open spec fn lower_case(c: char) -> char {
    if 65 <= (c as u32) <= 90 {
        ((c as u32) + 32) as char
    } else if (c as u32) < 128 {
        c
    } else {
        lower_first(c)
    }
}

/// The uppercase mapping of a character: `a` to `z` become `A` to `Z`, any
/// other ASCII character stays.
pub open spec fn upper_case_chars(c: char) -> Seq<char> {
    if 97 <= (c as u32) <= 122 {
        seq![((c as u32) - 32) as char]
    } else if (c as u32) < 128 {
        seq![c]
    } else {
        upper_chars(c)
    }
}

/// What one character of an identifier becomes in kebab case: `_` a
/// hyphen, an uppercase letter its lowercase (after a hyphen unless it is
/// the first character), anything else itself.
pub open spec fn kebab_char(c: char, first: bool) -> Seq<char> {
    if c == '_' {
        seq!['-']
    } else if upper_case(c) && !first {
        seq!['-', lower_case(c)]
    } else if upper_case(c) {
        seq![lower_case(c)]
    } else {
        seq![c]
    }
}

/// The kebab case of an identifier.
pub open spec fn kebab(s: Seq<char>) -> Seq<char>
    decreases s.len(),
{
    if s.len() == 0 {
        Seq::empty()
    } else {
        kebab(s.drop_last()) + kebab_char(s.last(), s.len() == 1)
    }
}

/// A word with its first character in uppercase.
pub open spec fn title_word(w: Seq<char>) -> Seq<char> {
    if w.len() == 0 {
        Seq::empty()
    } else {
        upper_case_chars(w[0]) + w.drop_first()
    }
}

/// The words joined by single spaces.
pub open spec fn join_spaced(ws: Seq<Seq<char>>) -> Seq<char>
    decreases ws.len(),
{
    if ws.len() == 0 {
        Seq::empty()
    } else if ws.len() == 1 {
        ws[0]
    } else {
        join_spaced(ws.drop_last()) + seq![' '] + ws.last()
    }
}

/// The title case of an identifier: its kebab-case words, each with an
/// uppercase first character, joined by spaces.
pub open spec fn title(s: Seq<char>) -> Seq<char> {
    join_spaced(split_seq(kebab(s), '-').map_values(|w: Seq<char>| title_word(w)))
}

/// An identifier without a trailing `Module`.
pub open spec fn without_module_suffix(s: Seq<char>) -> Seq<char> {
    if s.len() >= 6 && s.subrange(s.len() - 6, s.len() as int) == "Module"@ {
        s.subrange(0, s.len() - 6)
    } else {
        s
    }
}

/// Append the characters of `t`.
pub(crate) fn push_all(out: &mut String, t: &Vec<char>)
    ensures
        final(out)@ == old(out)@ + t@,
{
    let ghost start = out@;
    let mut i: usize = 0;
    while i < t.len()
        invariant
            i <= t@.len(),
            out@ == start + t@.take(i as int),
        decreases t@.len() - i,
    {
        push_char(out, t[i]);
        i = i + 1;
        assert(out@ =~= start + t@.take(i as int));
    }
    assert(t@.take(i as int) =~= t@);
}

/// Convert an identifier to kebab case: `MyCommand` → `my-command`,
/// `set_value` → `set-value`.
pub fn to_kebab_case(s: &str) -> (r: String)
    ensures
        r@ == kebab(s@),
{
    let n = s.unicode_len();
    let mut out = String::new();
    let mut i: usize = 0;
    while i < n
        invariant
            n == s@.len(),
            i <= n,
            out@ == kebab(s@.take(i as int)),
        decreases n - i,
    {
        let c = s.get_char(i);
        proof {
            assert(s@.take(i + 1).drop_last() =~= s@.take(i as int));
            assert(s@.take(i + 1).last() == c);
        }
        if c == '_' {
            push_char(&mut out, '-');
        } else if char_is_uppercase(c) && i > 0 {
            push_char(&mut out, '-');
            push_char(&mut out, char_to_lower(c));
        } else if char_is_uppercase(c) {
            push_char(&mut out, char_to_lower(c));
        } else {
            push_char(&mut out, c);
        }
        i = i + 1;
        assert(out@ =~= kebab(s@.take(i as int)));
    }
    assert(s@.take(n as int) =~= s@);
    out
}

/// A word with its first character in uppercase.
fn title_case_word(w: &str) -> (r: String)
    ensures
        r@ == title_word(w@),
{
    let n = w.unicode_len();
    let mut out = String::new();
    if n == 0 {
        return out;
    }
    let first = char_to_upper(w.get_char(0));
    push_all(&mut out, &first);
    let mut i: usize = 1;
    while i < n
        invariant
            n == w@.len(),
            1 <= i <= n,
            out@ == upper_case_chars(w@[0]) + w@.subrange(1, i as int),
        decreases n - i,
    {
        push_char(&mut out, w.get_char(i));
        i = i + 1;
        assert(out@ =~= upper_case_chars(w@[0]) + w@.subrange(1, i as int));
    }
    assert(w@.subrange(1, n as int) =~= w@.drop_first());
    out
}

/// Convert an identifier to a title: `my_command` → `My Command`.
pub fn to_title_case(s: &str) -> (r: String)
    ensures
        r@ == title(s@),
{
    let kebab_text = to_kebab_case(s);
    let words = split_on(kebab_text.as_str(), '-');
    let ghost ws = split_seq(kebab(s@), '-').map_values(|w: Seq<char>| title_word(w));
    let mut out = String::new();
    let mut i: usize = 0;
    while i < words.len()
        invariant
            i <= words@.len(),
            ws == split_seq(kebab(s@), '-').map_values(|w: Seq<char>| title_word(w)),
            words@.len() == ws.len(),
            forall|j: int| 0 <= j < words@.len() ==> #[trigger] words@[j]@ == split_seq(kebab(s@), '-')[j],
            out@ == join_spaced(ws.take(i as int)),
        decreases words@.len() - i,
    {
        let t = title_case_word(words[i].as_str());
        if i > 0 {
            push_char(&mut out, ' ');
        }
        let tv: Vec<char> = chars_of(t.as_str());
        push_all(&mut out, &tv);
        proof {
            assert(ws.take(i + 1).drop_last() =~= ws.take(i as int));
            assert(ws.take(i + 1).last() == ws[i as int]);
            assert(words@[i as int]@ == split_seq(kebab(s@), '-')[i as int]);
            assert(ws[i as int] == title_word(words@[i as int]@));
        }
        i = i + 1;
        assert(out@ =~= join_spaced(ws.take(i as int)));
    }
    assert(ws.take(i as int) =~= ws);
    out
}

/// The characters of a string.
fn chars_of(s: &str) -> (r: Vec<char>)
    ensures
        r@ == s@,
{
    let n = s.unicode_len();
    let mut r: Vec<char> = Vec::new();
    let mut i: usize = 0;
    while i < n
        invariant
            n == s@.len(),
            i <= n,
            r@ == s@.take(i as int),
        decreases n - i,
    {
        r.push(s.get_char(i));
        i = i + 1;
        assert(r@ =~= s@.take(i as int));
    }
    assert(s@.take(n as int) =~= s@);
    r
}

/// Derive a module name from a type name: a trailing `Module` dropped,
/// then kebab case (`DemoModule` → `demo`, `SyncPolicy` → `sync-policy`).
pub fn derive_module_name(ident: &str) -> (r: String)
    ensures
        r@ == kebab(without_module_suffix(ident@)),
{
    let n = ident.unicode_len();
    let mut stem_len = n;
    if n >= 6 {
        let mut same = true;
        let mut k: usize = 0;
        let suffix = "Module";
        proof {
            reveal_strlit("Module");
        }
        while k < 6
            invariant
                n == ident@.len(),
                n >= 6,
                k <= 6,
                suffix@ == "Module"@,
                suffix@.len() == 6,
                same == (forall|j: int| 0 <= j < k ==> ident@[n - 6 + j] == suffix@[j]),
            decreases 6 - k,
        {
            if ident.get_char(n - 6 + k) != suffix.get_char(k) {
                same = false;
            }
            k = k + 1;
        }
        if same {
            assert(ident@.subrange(n - 6, n as int) =~= "Module"@);
            stem_len = n - 6;
        } else {
            assert(ident@.subrange(n - 6, n as int) != "Module"@ ) by {
                let j = choose|j: int| 0 <= j < 6 && ident@[n - 6 + j] != suffix@[j];
                assert(ident@.subrange(n - 6, n as int)[j] != "Module"@[j]);
            }
        }
    }
    let mut stem = String::new();
    let mut i: usize = 0;
    while i < stem_len
        invariant
            n == ident@.len(),
            stem_len <= n,
            i <= stem_len,
            stem@ == ident@.take(i as int),
        decreases stem_len - i,
    {
        push_char(&mut stem, ident.get_char(i));
        i = i + 1;
        assert(stem@ =~= ident@.take(i as int));
    }
    assert(stem@ =~= without_module_suffix(ident@));
    to_kebab_case(stem.as_str())
}

} // verus!
