//! CLI argument parsing and type coercion for module commands.
//!
//! Parses `["--key", "value", "-n", "2"]` into a map keyed by parameter
//! name, and coerces values to handler types.

use vstd::prelude::*;
use vstd::string::*;

use crate::composition::conversion::NodeModuleError;
use crate::text::{concat_str, push_char, string_of, text_eq};

verus! {

/// The description of one argument of a module command.
#[derive(Debug, Clone)]
pub struct CliArgSpec {
    pub name: String,
    /// Long form: "option" for --option. None = use `name`.
    pub long_name: Option<String>,
    /// Short form: "o" for -o
    pub short_name: Option<String>,
    pub required: Option<bool>,
    pub takes_value: Option<bool>,
    pub default: Option<String>,
}

/// The description of one subcommand of a module's command line.
#[derive(Debug, Clone)]
pub struct CliSubcommandSpec {
    pub name: String,
    pub about: Option<String>,
    pub args: Vec<CliArgSpec>,
}

/// The description of a module's command line.
#[derive(Debug, Clone)]
pub struct CliSpec {
    pub version: u32,
    pub name: String,
    pub about: Option<String>,
    pub subcommands: Vec<CliSubcommandSpec>,
}

/// An argument description as values: name, long form, short form.
pub type ArgSpecView = (Seq<char>, Option<Seq<char>>, Option<Seq<char>>);

/// The argument descriptions as values.
pub open spec fn specs_view(specs: Seq<CliArgSpec>) -> Seq<ArgSpecView> {
    specs.map_values(
        |s: CliArgSpec|
            (
                s.name@,
                match s.long_name {
                    Some(l) => Some(l@),
                    None => None,
                },
                match s.short_name {
                    Some(x) => Some(x@),
                    None => None,
                },
            ),
    )
}

/// The texts of the arguments.
pub open spec fn args_view(args: Seq<String>) -> Seq<Seq<char>> {
    args.map_values(|a: String| a@)
}

/// The map after each insertion in turn, a later value replacing an
/// earlier one under the same key.
pub open spec fn inserts(ops: Seq<(Seq<char>, Seq<char>)>) -> Map<Seq<char>, Seq<char>>
    decreases ops.len(),
{
    if ops.len() == 0 {
        Map::empty()
    } else {
        inserts(ops.drop_last()).insert(ops.last().0, ops.last().1)
    }
}

/// The value of the last insertion under a key.
pub open spec fn last_value(ops: Seq<(Seq<char>, Seq<char>)>, k: Seq<char>) -> Option<Seq<char>>
    decreases ops.len(),
{
    if ops.len() == 0 {
        None
    } else if ops.last().0 == k {
        Some(ops.last().1)
    } else {
        last_value(ops.drop_last(), k)
    }
}

/// The map of insertions holds a key exactly where some insertion was
/// under it, with the value of the last one.
pub proof fn lemma_inserts_lookup(ops: Seq<(Seq<char>, Seq<char>)>, k: Seq<char>)
    ensures
        inserts(ops).dom().contains(k) <==> last_value(ops, k) is Some,
        last_value(ops, k) matches Some(v) ==> inserts(ops)[k] == v,
    decreases ops.len(),
{
    if ops.len() > 0 {
        lemma_inserts_lookup(ops.drop_last(), k);
    }
}

/// A map from parameter names to their values, filled by insertions in
/// order.
#[derive(Debug, Clone)]
pub struct ArgMap {
    ops: Vec<(String, String)>,
}

/// The insertions as values.
pub open spec fn ops_view(ops: Seq<(String, String)>) -> Seq<(Seq<char>, Seq<char>)> {
    ops.map_values(|p: (String, String)| (p.0@, p.1@))
}

impl View for ArgMap {
    type V = Map<Seq<char>, Seq<char>>;

    closed spec fn view(&self) -> Map<Seq<char>, Seq<char>> {
        inserts(ops_view(self.ops@))
    }
}

impl ArgMap {
    /// An empty map.
    pub fn new() -> (r: Self)
        ensures
            r@ == Map::<Seq<char>, Seq<char>>::empty(),
    {
        let r = ArgMap { ops: Vec::new() };
        assert(ops_view(r.ops@) =~= Seq::<(Seq<char>, Seq<char>)>::empty());
        r
    }

    /// Store `value` under `key`, replacing any earlier value.
    pub fn insert(&mut self, key: String, value: String)
        ensures
            final(self)@ == old(self)@.insert(key@, value@),
    {
        let ghost before = ops_view(self.ops@);
        self.ops.push((key, value));
        proof {
            assert(ops_view(self.ops@).drop_last() =~= before);
        }
    }

    /// The value under `key`, if any.
    pub fn get(&self, key: &str) -> (r: Option<String>)
        ensures
            self@.dom().contains(key@) ==> (r matches Some(v) && v@ == self@[key@]),
            !self@.dom().contains(key@) ==> r is None,
    {
        let ghost ov = ops_view(self.ops@);
        proof {
            lemma_inserts_lookup(ov, key@);
        }
        let mut i: usize = self.ops.len();
        assert(ov.take(i as int) =~= ov);
        while i > 0
            invariant
                i <= ov.len(),
                ov == ops_view(self.ops@),
                self@ == inserts(ov),
                inserts(ov).dom().contains(key@) <==> last_value(ov, key@) is Some,
                last_value(ov, key@) matches Some(v) ==> inserts(ov)[key@] == v,
                last_value(ov, key@) == last_value(ov.take(i as int), key@),
            decreases i,
        {
            proof {
                assert(ov.take(i as int).drop_last() =~= ov.take(i - 1));
                assert(ov.take(i as int).last() == ov[i - 1]);
            }
            assert(ov[i - 1] == (self.ops@[i - 1].0@, self.ops@[i - 1].1@));
            if text_eq(self.ops[i - 1].0.as_str(), key) {
                return Some(self.ops[i - 1].1.clone());
            }
            i = i - 1;
        }
        None
    }

    /// Whether a value is stored under `key`.
    pub fn contains_key(&self, key: &str) -> (r: bool)
        ensures
            r == self@.dom().contains(key@),
    {
        self.get(key).is_some()
    }

    /// The insertions in order (applying them in order to an empty map
    /// gives this map).
    pub fn insertions(&self) -> (r: Vec<(String, String)>)
        ensures
            inserts(ops_view(r@)) == self@,
    {
        let mut r: Vec<(String, String)> = Vec::new();
        let mut i: usize = 0;
        while i < self.ops.len()
            invariant
                i <= self.ops@.len(),
                ops_view(r@) == ops_view(self.ops@).take(i as int),
            decreases self.ops@.len() - i,
        {
            let k = self.ops[i].0.clone();
            let v = self.ops[i].1.clone();
            let ghost before = r@;
            r.push((k, v));
            proof {
                assert(r@ == before.push((k, v)));
                assert(ops_view(r@) =~= ops_view(before).push((k@, v@)));
                assert(ops_view(self.ops@).take(i + 1) =~= ops_view(self.ops@).take(i as int).push(
                    (k@, v@),
                ));
            }
            i = i + 1;
        }
        assert(ops_view(self.ops@).take(i as int) =~= ops_view(self.ops@));
        r
    }
}

/// Whether a character is an ASCII digit.
pub open spec fn is_ascii_digit(c: char) -> bool {
    '0' <= c <= '9'
}

/// Whether an argument starts with `--`.
pub open spec fn is_long_arg(a: Seq<char>) -> bool {
    a.len() >= 2 && a[0] == '-' && a[1] == '-'
}

/// Whether an argument starts with `-`.
pub open spec fn is_dash_arg(a: Seq<char>) -> bool {
    a.len() >= 1 && a[0] == '-'
}

/// Whether an argument is written in named style: `--...`, or `-`
/// followed by something other than a digit.
pub open spec fn is_named_arg(a: Seq<char>) -> bool {
    is_long_arg(a) || (a.len() > 1 && a[0] == '-' && !is_ascii_digit(a[1]))
}

/// An argument without its leading hyphens.
pub open spec fn strip_dashes(a: Seq<char>) -> Seq<char>
    decreases a.len(),
{
    if a.len() > 0 && a[0] == '-' {
        strip_dashes(a.drop_first())
    } else {
        a
    }
}

/// The parameter of a long name: the first argument whose long form (or,
/// lacking one, its name) is the key; the key itself otherwise.
pub open spec fn long_param(specs: Seq<ArgSpecView>, key: Seq<char>) -> Seq<char>
    decreases specs.len(),
{
    if specs.len() == 0 {
        key
    } else {
        let s = specs[0];
        let long_form = match s.1 {
            Some(l) => l,
            None => s.0,
        };
        if long_form == key {
            s.0
        } else {
            long_param(specs.drop_first(), key)
        }
    }
}

/// The parameter of a short name: the first argument whose short form is
/// it, or whose name starts with its first character; the short name
/// itself otherwise.
pub open spec fn short_param(specs: Seq<ArgSpecView>, short: Seq<char>) -> Seq<char>
    decreases specs.len(),
{
    if specs.len() == 0 {
        short
    } else {
        let s = specs[0];
        if s.2 == Some(short) {
            s.0
        } else if short.len() > 0 && s.0.len() > 0 && s.0[0] == short[0] {
            s.0
        } else {
            short_param(specs.drop_first(), short)
        }
    }
}

/// Whether the argument at `i` is there to be taken as a value.
pub open spec fn value_at(args: Seq<Seq<char>>, i: int) -> bool {
    0 <= i < args.len() && !is_dash_arg(args[i])
}

/// The insertions of named-style parsing from argument `i` on: `--key`
/// and `-k` take the next argument as value unless it starts with `-`,
/// and are `"true"` otherwise; anything else is skipped.
pub open spec fn named_ops(args: Seq<Seq<char>>, specs: Seq<ArgSpecView>, i: int) -> Seq<
    (Seq<char>, Seq<char>),
>
    decreases args.len() - i,
{
    if i < 0 || i >= args.len() {
        Seq::empty()
    } else {
        let a = args[i];
        if is_long_arg(a) {
            let key = strip_dashes(a);
            if key.len() == 0 {
                named_ops(args, specs, i + 1)
            } else if value_at(args, i + 1) {
                seq![(long_param(specs, key), args[i + 1])] + named_ops(args, specs, i + 2)
            } else {
                seq![(long_param(specs, key), "true"@)] + named_ops(args, specs, i + 1)
            }
        } else if a.len() > 1 && a[0] == '-' {
            let p = short_param(specs, a.drop_first());
            if value_at(args, i + 1) {
                seq![(p, args[i + 1])] + named_ops(args, specs, i + 2)
            } else {
                seq![(p, "true"@)] + named_ops(args, specs, i + 1)
            }
        } else {
            named_ops(args, specs, i + 1)
        }
    }
}

/// The insertions of positional parsing: each argument description takes
/// the argument at its position, where there is one.
pub open spec fn positional_ops(args: Seq<Seq<char>>, specs: Seq<ArgSpecView>) -> Seq<
    (Seq<char>, Seq<char>),
> {
    let n = if specs.len() < args.len() {
        specs.len()
    } else {
        args.len()
    };
    Seq::new(n, |j: int| (specs[j].0, args[j]))
}

/// The parameters that parsing gives: named style when some argument is
/// written that way, positional otherwise.
pub open spec fn parsed_args(args: Seq<Seq<char>>, specs: Seq<ArgSpecView>) -> Map<
    Seq<char>,
    Seq<char>,
> {
    if exists|i: int| 0 <= i < args.len() && is_named_arg(#[trigger] args[i]) {
        inserts(named_ops(args, specs, 0))
    } else {
        inserts(positional_ops(args, specs))
    }
}

/// Whether an argument is a flag: `-` followed by anything but a decimal
/// digit (so `--name` too, and not a negative number such as `-5`).
pub open spec fn flag_like(a: Seq<char>) -> bool {
    a.len() >= 2 && a[0] == '-' && !('0' <= a[1] && a[1] <= '9')
}

/// Parsing is in named style exactly when some argument is a flag: then
/// every parameter comes from a flag, and none from position; otherwise
/// each description takes the argument at its position.
pub proof fn lemma_parse_style(args: Seq<Seq<char>>, specs: Seq<ArgSpecView>)
    ensures
        (exists|i: int| 0 <= i < args.len() && flag_like(#[trigger] args[i])) ==> parsed_args(
            args,
            specs,
        ) == inserts(named_ops(args, specs, 0)),
        !(exists|i: int| 0 <= i < args.len() && flag_like(#[trigger] args[i])) ==> parsed_args(
            args,
            specs,
        ) == inserts(positional_ops(args, specs)),
{
    assert forall|i: int| 0 <= i < args.len() implies (flag_like(#[trigger] args[i]) <==> is_named_arg(
        args[i],
    )) by {}
}

/// In named style, a short flag `-x` followed by an argument that is no
/// flag takes that argument as the value of the parameter that `x` names,
/// and parsing goes on after the value.
pub proof fn lemma_short_flag_value(args: Seq<Seq<char>>, specs: Seq<ArgSpecView>, i: int)
    requires
        0 <= i,
        i + 1 < args.len(),
        args[i].len() >= 2,
        args[i][0] == '-',
        args[i][1] != '-',
        !(args[i + 1].len() >= 1 && args[i + 1][0] == '-'),
    ensures
        named_ops(args, specs, i) == seq![(short_param(specs, args[i].drop_first()), args[i + 1])]
            + named_ops(args, specs, i + 2),
{
}

/// The parameter of a short flag is the name of the description with that
/// short form, where no earlier description has it or a name starting with
/// its first character.
pub proof fn lemma_short_param(specs: Seq<ArgSpecView>, short: Seq<char>, k: int)
    requires
        0 <= k < specs.len(),
        specs[k].2 == Some(short),
        short.len() > 0,
        forall|j: int|
            0 <= j < k ==> (#[trigger] specs[j]).2 != Some(short) && !(specs[j].0.len() > 0
                && specs[j].0[0] == short[0]),
    ensures
        short_param(specs, short) == specs[k].0,
    decreases k,
{
    if k > 0 {
        let rest = specs.drop_first();
        assert(specs[0].2 != Some(short));
        assert forall|j: int| 0 <= j < k - 1 implies (#[trigger] rest[j]).2 != Some(short) && !(
        rest[j].0.len() > 0 && rest[j].0[0] == short[0]) by {
            assert(rest[j] == specs[j + 1]);
        }
        assert(rest[k - 1] == specs[k]);
        lemma_short_param(rest, short, k - 1);
    }
}

/// Whether `s` starts with `c`.
fn starts_with_char(s: &str, c: char) -> (r: bool)
    ensures
        r == (s@.len() >= 1 && s@[0] == c),
{
    s.unicode_len() >= 1 && s.get_char(0) == c
}

/// Whether an argument is written in named style.
fn named_style(a: &str) -> (r: bool)
    ensures
        r == is_named_arg(a@),
{
    let n = a.unicode_len();
    if n >= 2 && a.get_char(0) == '-' && a.get_char(1) == '-' {
        return true;
    }
    if n > 1 && a.get_char(0) == '-' {
        let c = a.get_char(1);
        return !('0' <= c && c <= '9');
    }
    false
}

/// The characters of `s` from position `k` on.
fn drop_chars(s: &str, k: usize) -> (r: String)
    requires
        k <= s@.len(),
    ensures
        r@ == s@.subrange(k as int, s@.len() as int),
{
    let n = s.unicode_len();
    let mut out = String::new();
    let mut i: usize = k;
    while i < n
        invariant
            n == s@.len(),
            k <= i <= n,
            out@ == s@.subrange(k as int, i as int),
        decreases n - i,
    {
        push_char(&mut out, s.get_char(i));
        i = i + 1;
        assert(out@ =~= s@.subrange(k as int, i as int));
    }
    out
}

/// An argument without its leading hyphens.
fn trim_dashes(a: &str) -> (r: String)
    ensures
        r@ == strip_dashes(a@),
{
    let n = a.unicode_len();
    let mut k: usize = 0;
    assert(a@.subrange(0, n as int) =~= a@);
    while k < n && a.get_char(k) == '-'
        invariant
            n == a@.len(),
            k <= n,
            strip_dashes(a@) == strip_dashes(a@.subrange(k as int, n as int)),
        decreases n - k,
    {
        proof {
            assert(a@.subrange(k as int, n as int).drop_first() =~= a@.subrange(k + 1, n as int));
        }
        k = k + 1;
    }
    proof {
        if k < n {
            assert(a@.subrange(k as int, n as int)[0] == a@[k as int]);
        } else {
            assert(a@.subrange(k as int, n as int).len() == 0);
        }
    }
    drop_chars(a, k)
}

/// Find the parameter of a long name.
fn find_param_by_long(specs: &[CliArgSpec], long: &str) -> (r: String)
    ensures
        r@ == long_param(specs_view(specs@), long@),
{
    let ghost sv = specs_view(specs@);
    let mut i: usize = 0;
    assert(sv.subrange(0, sv.len() as int) =~= sv);
    while i < specs.len()
        invariant
            i <= specs@.len(),
            sv == specs_view(specs@),
            long_param(sv, long@) == long_param(sv.subrange(i as int, sv.len() as int), long@),
        decreases specs@.len() - i,
    {
        let spec = &specs[i];
        proof {
            let rest = sv.subrange(i as int, sv.len() as int);
            assert(rest[0] == sv[i as int]);
            assert(rest.drop_first() =~= sv.subrange(i + 1, sv.len() as int));
        }
        let matched = match &spec.long_name {
            Some(l) => text_eq(l.as_str(), long),
            None => text_eq(spec.name.as_str(), long),
        };
        if matched {
            return spec.name.clone();
        }
        i = i + 1;
    }
    string_of(long)
}

/// Find the parameter of a short name.
fn find_param_by_short(specs: &[CliArgSpec], short: &str) -> (r: String)
    ensures
        r@ == short_param(specs_view(specs@), short@),
{
    let ghost sv = specs_view(specs@);
    let n = short.unicode_len();
    let mut i: usize = 0;
    assert(sv.subrange(0, sv.len() as int) =~= sv);
    while i < specs.len()
        invariant
            i <= specs@.len(),
            n == short@.len(),
            sv == specs_view(specs@),
            short_param(sv, short@) == short_param(sv.subrange(i as int, sv.len() as int), short@),
        decreases specs@.len() - i,
    {
        let spec = &specs[i];
        proof {
            let rest = sv.subrange(i as int, sv.len() as int);
            assert(rest[0] == sv[i as int]);
            assert(rest.drop_first() =~= sv.subrange(i + 1, sv.len() as int));
        }
        let by_short = match &spec.short_name {
            Some(s) => text_eq(s.as_str(), short),
            None => false,
        };
        if by_short {
            return spec.name.clone();
        }
        if n > 0 && spec.name.as_str().unicode_len() > 0 && spec.name.as_str().get_char(0)
            == short.get_char(0) {
            return spec.name.clone();
        }
        i = i + 1;
    }
    string_of(short)
}

/// Parse CLI args into a map keyed by param name.
///
/// Supports `--long_name value` and `-short value`, `--flag` (bool, no
/// value) as `"true"`, and, when no argument is written in named style,
/// positional arguments by order.
pub fn parse_args(args: &[String], arg_specs: &[CliArgSpec]) -> (r: Result<ArgMap, NodeModuleError>)
    ensures
        r matches Ok(m) && m@ == parsed_args(args_view(args@), specs_view(arg_specs@)),
{
    let ghost av = args_view(args@);
    let ghost sv = specs_view(arg_specs@);
    let mut map = ArgMap::new();
    let mut has_named = false;
    let mut j: usize = 0;
    while j < args.len()
        invariant
            j <= args@.len(),
            av == args_view(args@),
            has_named == exists|k: int| 0 <= k < j && is_named_arg(#[trigger] av[k]),
        decreases args@.len() - j,
    {
        let named = named_style(args[j].as_str());
        proof {
            assert(av[j as int] == args@[j as int]@);
            if !named {
                assert forall|k: int| 0 <= k < j + 1 && is_named_arg(#[trigger] av[k]) implies 0
                    <= k < j by {}
            }
        }
        if named {
            has_named = true;
        }
        j = j + 1;
    }
    if has_named {
        let ghost mut done: Seq<(Seq<char>, Seq<char>)> = Seq::empty();
        let mut i: usize = 0;
        while i < args.len()
            invariant
                i <= args@.len(),
                av == args_view(args@),
                sv == specs_view(arg_specs@),
                named_ops(av, sv, 0) == done + named_ops(av, sv, i as int),
                map@ == inserts(done),
            decreases args@.len() - i,
        {
            let arg = args[i].as_str();
            let ghost ops_here = named_ops(av, sv, i as int);
            if arg.unicode_len() >= 2 && arg.get_char(0) == '-' && arg.get_char(1) == '-' {
                let key = trim_dashes(arg);
                if key.as_str().unicode_len() == 0 {
                    i = i + 1;
                    continue;
                }
                let param_name = find_param_by_long(arg_specs, key.as_str());
                let takes = i + 1 < args.len() && !starts_with_char(args[i + 1].as_str(), '-');
                if takes {
                    let value = args[i + 1].clone();
                    proof {
                        assert(named_ops(av, sv, 0) == done.push((param_name@, value@)) + named_ops(av, sv, i + 2));
                    }
                    map.insert(param_name, value);
                    proof {
                        let d2 = done.push((param_name@, value@));
                        assert(d2.drop_last() =~= done);
                        done = d2;
                    }
                    i = i + 2;
                } else {
                    let t = string_of("true");
                    proof {
                        assert(named_ops(av, sv, 0) == done.push((param_name@, t@)) + named_ops(av, sv, i + 1));
                    }
                    map.insert(param_name, t);
                    proof {
                        let d2 = done.push((param_name@, t@));
                        assert(d2.drop_last() =~= done);
                        done = d2;
                    }
                    i = i + 1;
                }
            } else if arg.unicode_len() > 1 && arg.get_char(0) == '-' {
                let short = drop_chars(arg, 1);
                proof {
                    assert(short@ =~= av[i as int].drop_first());
                }
                let param_name = find_param_by_short(arg_specs, short.as_str());
                let takes = i + 1 < args.len() && !starts_with_char(args[i + 1].as_str(), '-');
                if takes {
                    let value = args[i + 1].clone();
                    proof {
                        assert(named_ops(av, sv, 0) == done.push((param_name@, value@)) + named_ops(av, sv, i + 2));
                    }
                    map.insert(param_name, value);
                    proof {
                        let d2 = done.push((param_name@, value@));
                        assert(d2.drop_last() =~= done);
                        done = d2;
                    }
                    i = i + 2;
                } else {
                    let t = string_of("true");
                    proof {
                        assert(named_ops(av, sv, 0) == done.push((param_name@, t@)) + named_ops(av, sv, i + 1));
                    }
                    map.insert(param_name, t);
                    proof {
                        let d2 = done.push((param_name@, t@));
                        assert(d2.drop_last() =~= done);
                        done = d2;
                    }
                    i = i + 1;
                }
            } else {
                i = i + 1;
            }
        }
        proof {
            assert(done + named_ops(av, sv, i as int) =~= done);
        }
    } else {
        let ghost pos = positional_ops(av, sv);
        let mut k: usize = 0;
        while k < arg_specs.len()
            invariant
                k <= arg_specs@.len(),
                av == args_view(args@),
                sv == specs_view(arg_specs@),
                pos == positional_ops(av, sv),
                map@ == inserts(pos.take(if k < av.len() { k as int } else { av.len() as int })),
            decreases arg_specs@.len() - k,
        {
            if k < args.len() {
                proof {
                    assert(pos.take(k + 1).drop_last() =~= pos.take(k as int));
                    assert(pos.take(k + 1).last() == (sv[k as int].0, av[k as int]));
                }
                map.insert(arg_specs[k].name.clone(), args[k].clone());
            }
            k = k + 1;
        }
        proof {
            let n = if sv.len() < av.len() { sv.len() } else { av.len() };
            assert(pos.take(n as int) =~= pos);
        }
    }
    Ok(map)
}

/// The lowercase mapping of a string.
pub uninterp spec fn lowercase_of(s: Seq<char>) -> Seq<char>;

/// Whether every character is ASCII.
pub open spec fn is_ascii_text(s: Seq<char>) -> bool {
    forall|i: int| 0 <= i < s.len() ==> (#[trigger] s[i] as u32) < 128
}

/// The lowercase of an ASCII character: `A` to `Z` become `a` to `z`.
pub open spec fn ascii_lower(c: char) -> char {
    if 65 <= (c as u32) <= 90 {
        ((c as u32) + 32) as char
    } else {
        c
    }
}

/// The lowercase of a text: for ASCII text each letter `A` to `Z` becomes
/// `a` to `z`; beyond ASCII, the Unicode lowercase mapping.
pub open spec fn lower_text(s: Seq<char>) -> Seq<char> {
    if is_ascii_text(s) {
        s.map_values(|c: char| ascii_lower(c))
    } else {
        lowercase_of(s)
    }
}

/// `str::to_lowercase`; on ASCII text it lowers `A` to `Z` and keeps every
/// other character.
#[verifier::external_body]
pub(crate) fn lowercase(s: &str) -> (r: String)
    ensures
        r@ == lowercase_of(s@),
        is_ascii_text(s@) ==> r@ == s@.map_values(|c: char| ascii_lower(c)),
{
    s.to_lowercase()
}

/// The boolean that a lowercased word denotes, if any.
pub open spec fn bool_word(s: Seq<char>) -> Option<bool> {
    if s == "true"@ || s == "1"@ || s == "yes"@ || s == "on"@ {
        Some(true)
    } else if s == "false"@ || s == "0"@ || s == "no"@ || s == "off"@ {
        Some(false)
    } else {
        None
    }
}

/// Coerce a string value to a bool: true/1/yes/on and false/0/no/off, in
/// any case.
pub fn coerce_bool(s: &str) -> (r: Result<bool, NodeModuleError>)
    ensures
        bool_word(lower_text(s@)) matches Some(b) ==> r == Ok::<bool, NodeModuleError>(b),
        bool_word(lower_text(s@)) is None ==> (r matches Err(NodeModuleError::Other(m)) && m@
            == "invalid bool: "@ + lower_text(s@)),
{
    let l = lowercase(s);
    let t = l.as_str();
    if text_eq(t, "true") || text_eq(t, "1") || text_eq(t, "yes") || text_eq(t, "on") {
        Ok(true)
    } else if text_eq(t, "false") || text_eq(t, "0") || text_eq(t, "no") || text_eq(t, "off") {
        Ok(false)
    } else {
        Err(NodeModuleError::Other(concat_str("invalid bool: ", t)))
    }
}

} // verus!
