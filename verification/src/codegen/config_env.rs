//! What module configuration overrides from the environment do: the
//! variable that overrides a field, and how a variable's value becomes the
//! field's value for each kind of field.

use vstd::prelude::*;

use crate::codegen::naming::{char_to_upper, push_all, upper_case_chars};
use crate::text::{split_on, split_seq, string_of, text_eq, trim_text, trim_white};

verus! {

/// The uppercase of a string: each character's uppercase mapping in turn
/// (what `str::to_uppercase` gives).
pub open spec fn upper_seq(s: Seq<char>) -> Seq<char>
    decreases s.len(),
{
    if s.len() == 0 {
        Seq::empty()
    } else {
        upper_seq(s.drop_last()) + upper_case_chars(s.last())
    }
}

/// `s` with every `from` replaced by `to`.
pub open spec fn replace_char(s: Seq<char>, from: char, to: char) -> Seq<char> {
    s.map_values(|c: char| if c == from { to } else { c })
}

/// The variable that overrides a field: the one its attribute names, else
/// `MODULE_CONFIG_` and the field's name in uppercase with `-` as `_`.
pub open spec fn env_var_for(field: Seq<char>, explicit: Option<Seq<char>>) -> Seq<char> {
    match explicit {
        Some(v) => v,
        None => "MODULE_CONFIG_"@ + replace_char(upper_seq(field), '-', '_'),
    }
}

/// The variable that overrides a configuration field.
pub fn config_env_var(field: &str, explicit: Option<String>) -> (r: String)
    ensures
        r@ == env_var_for(
            field@,
            match explicit {
                Some(v) => Some(v@),
                None => None,
            },
        ),
{
    match explicit {
        Some(v) => v,
        None => {
            let n = field.unicode_len();
            let mut upper = String::new();
            let mut i: usize = 0;
            while i < n
                invariant
                    n == field@.len(),
                    i <= n,
                    upper@ == upper_seq(field@.take(i as int)),
                decreases n - i,
            {
                let c = field.get_char(i);
                proof {
                    assert(field@.take(i + 1).drop_last() =~= field@.take(i as int));
                    assert(field@.take(i + 1).last() == c);
                }
                let u = char_to_upper(c);
                push_all(&mut upper, &u);
                i = i + 1;
            }
            proof {
                assert(field@.take(n as int) =~= field@);
            }
            let m = upper.unicode_len();
            let mut out = string_of("MODULE_CONFIG_");
            let ghost prefix = out@;
            let mut j: usize = 0;
            while j < m
                invariant
                    m == upper@.len(),
                    j <= m,
                    prefix == "MODULE_CONFIG_"@,
                    out@ == prefix + replace_char(upper@.take(j as int), '-', '_'),
                decreases m - j,
            {
                let c = upper.get_char(j);
                let d = if c == '-' {
                    '_'
                } else {
                    c
                };
                crate::text::push_char(&mut out, d);
                j = j + 1;
                assert(out@ =~= prefix + replace_char(upper@.take(j as int), '-', '_'));
            }
            proof {
                assert(upper@.take(m as int) =~= upper@);
            }
            out
        },
    }
}

/// How an override sets a field, by the field's type.
#[derive(Debug, Clone, Copy, PartialEq, Eq, Structural)]
pub enum OverrideKind {
    /// `String`: the value as it is.
    Text,
    /// `Option<..>`: the value, as `Some`.
    Optional,
    /// `Vec<..>`: the value's comma-separated items, trimmed, empty ones left out.
    List,
    /// `bool`: `true` in any case, or `1`.
    Flag,
    /// Anything else: the value parsed, where it parses.
    Parsed,
}

/// The characters of a type's text without its spaces.
pub open spec fn compact(s: Seq<char>) -> Seq<char>
    decreases s.len(),
{
    if s.len() == 0 {
        Seq::empty()
    } else if s.last() == ' ' {
        compact(s.drop_last())
    } else {
        compact(s.drop_last()).push(s.last())
    }
}

/// The kind of override for a field of the type written `ty` (its tokens
/// as text, spaces ignored).
pub open spec fn kind_of_type(ty: Seq<char>) -> OverrideKind {
    let t = compact(ty);
    if t == "String"@ {
        OverrideKind::Text
    } else if t.len() >= 7 && t.take(7) == "Option<"@ {
        OverrideKind::Optional
    } else if t.len() >= 4 && t.take(4) == "Vec<"@ {
        OverrideKind::List
    } else if t == "bool"@ {
        OverrideKind::Flag
    } else {
        OverrideKind::Parsed
    }
}

/// Whether `s` starts with `p`.
fn has_prefix_text(s: &str, p: &str) -> (r: bool)
    ensures
        r == (s@.len() >= p@.len() && s@.take(p@.len() as int) == p@),
{
    let n = p.unicode_len();
    if s.unicode_len() < n {
        return false;
    }
    let mut i: usize = 0;
    while i < n
        invariant
            n == p@.len(),
            n <= s@.len(),
            i <= n,
            forall|k: int| 0 <= k < i ==> s@[k] == p@[k],
        decreases n - i,
    {
        if s.get_char(i) != p.get_char(i) {
            assert(s@.take(n as int)[i as int] != p@[i as int]);
            return false;
        }
        i = i + 1;
    }
    assert(s@.take(n as int) =~= p@);
    true
}

/// The kind of override for a field of the type written `ty`.
pub fn override_kind(ty: &str) -> (r: OverrideKind)
    ensures
        r == kind_of_type(ty@),
{
    let n = ty.unicode_len();
    let mut t = String::new();
    let mut i: usize = 0;
    while i < n
        invariant
            n == ty@.len(),
            i <= n,
            t@ == compact(ty@.take(i as int)),
        decreases n - i,
    {
        let c = ty.get_char(i);
        proof {
            assert(ty@.take(i + 1).drop_last() =~= ty@.take(i as int));
            assert(ty@.take(i + 1).last() == c);
        }
        if c != ' ' {
            crate::text::push_char(&mut t, c);
        }
        i = i + 1;
    }
    proof {
        assert(ty@.take(n as int) =~= ty@);
        reveal_strlit("Option<");
        reveal_strlit("Vec<");
    }
    let s = t.as_str();
    if text_eq(s, "String") {
        OverrideKind::Text
    } else if has_prefix_text(s, "Option<") {
        OverrideKind::Optional
    } else if has_prefix_text(s, "Vec<") {
        OverrideKind::List
    } else if text_eq(s, "bool") {
        OverrideKind::Flag
    } else {
        OverrideKind::Parsed
    }
}

/// The items of a list override, in order: the comma-separated pieces,
/// trimmed, without the empty ones, among the first `n` pieces.
pub open spec fn list_items(pieces: Seq<Seq<char>>, n: int) -> Seq<Seq<char>>
    decreases n,
{
    if n <= 0 {
        Seq::empty()
    } else if trim_white(pieces[n - 1]).len() > 0 {
        list_items(pieces, n - 1).push(trim_white(pieces[n - 1]))
    } else {
        list_items(pieces, n - 1)
    }
}

/// The value of a list field that an override sets.
pub fn env_list(value: &str) -> (r: Vec<String>)
    ensures
        r@.map_values(|t: String| t@) == list_items(split_seq(value@, ','), split_seq(value@, ',').len() as int),
{
    let pieces = split_on(value, ',');
    let ghost pv = split_seq(value@, ',');
    let mut out: Vec<String> = Vec::new();
    let mut i: usize = 0;
    while i < pieces.len()
        invariant
            i <= pieces@.len(),
            pv == split_seq(value@, ','),
            pieces@.len() == pv.len(),
            forall|k: int| 0 <= k < pieces@.len() ==> #[trigger] pieces@[k]@ == pv[k],
            out@.map_values(|t: String| t@) == list_items(pv, i as int),
        decreases pieces@.len() - i,
    {
        let t = trim_text(pieces[i].as_str());
        assert(pieces@[i as int]@ == pv[i as int]);
        if t.unicode_len() > 0 {
            let ghost before = out@;
            out.push(t);
            assert(out@.map_values(|t: String| t@) =~= before.map_values(|t: String| t@).push(
                trim_white(pv[i as int]),
            ));
        }
        i = i + 1;
    }
    out
}

/// The value of a flag field that an override sets: `true` in any ASCII
/// case, or `1`.
pub open spec fn flag_value(v: Seq<char>) -> bool {
    (v.len() == 4 && forall|i: int| 0 <= i < 4 ==> #[trigger] v[i] == "true"@[i] || v[i] == "TRUE"@[i])
        || v == "1"@
}

/// The value of a flag field that an override sets.
pub fn env_flag(value: &str) -> (r: bool)
    ensures
        r == flag_value(value@),
{
    proof {
        reveal_strlit("true");
        reveal_strlit("TRUE");
        reveal_strlit("1");
    }
    if text_eq(value, "1") {
        return true;
    }
    if value.unicode_len() != 4 {
        return false;
    }
    let lower = "true";
    let upper = "TRUE";
    let mut i: usize = 0;
    while i < 4
        invariant
            value@.len() == 4,
            lower@ == "true"@,
            upper@ == "TRUE"@,
            lower@.len() == 4,
            upper@.len() == 4,
            "1"@.len() == 1,
            i <= 4,
            forall|k: int| 0 <= k < i ==> #[trigger] value@[k] == "true"@[k] || value@[k] == "TRUE"@[k],
        decreases 4 - i,
    {
        let c = value.get_char(i);
        if c != lower.get_char(i) && c != upper.get_char(i) {
            assert(!(value@[i as int] == "true"@[i as int] || value@[i as int] == "TRUE"@[i as int]));
            assert(value@ != "1"@);
            return false;
        }
        i = i + 1;
    }
    true
}

} // verus!
