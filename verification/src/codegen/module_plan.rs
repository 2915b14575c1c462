//! What the module macros (`#[module]`, `#[cli_subcommand]`,
//! `#[event_handlers]`) decide from a handler impl block: which methods
//! are command-line subcommands and how their command line is described,
//! which are RPC methods and under which names, and which methods handle
//! which events and how each is called. The macros read the impl block
//! into the plain description here and write out code for what is decided.

use vstd::prelude::*;

use crate::codegen::event_payload_map::{fields_view, payload_fields, payload_fields_for_event};
use crate::codegen::naming::{join_spaced, kebab, title, to_kebab_case, to_title_case};
use crate::composition::conversion::NodeModuleError;
use crate::module::cli_args::{lower_text, lowercase, CliArgSpec, CliSpec, CliSubcommandSpec};
use crate::text::{concat_str, push_char, string_of, text_eq, trim_text, trim_white};

verus! {

/// A typed parameter of a handler method.
#[derive(Debug, Clone)]
pub struct ParamInfo {
    /// Its name, where its pattern is a plain identifier.
    pub name: Option<String>,
    /// Whether its type names `InvocationContext`, through references.
    pub is_context: bool,
    /// Whether its type is an `Option`.
    pub is_option: bool,
    /// Whether its type is `&EventMessage`.
    pub is_event_ref: bool,
    /// `#[arg(long)]` gives `Some("")`, `#[arg(long = "x")]` gives `Some("x")`.
    pub long: Option<String>,
    /// `#[arg(short = 'x')]` gives `Some("x")`.
    pub short: Option<String>,
    /// `#[arg(default = "v")]` gives `Some("v")`.
    pub default: Option<String>,
}

/// One input of a handler method.
#[derive(Debug, Clone)]
pub enum HandlerInput {
    /// `self`, in any of its forms.
    Receiver,
    /// A typed parameter.
    Typed(ParamInfo),
}

/// A method of a handler impl block, as the module macros read it.
#[derive(Debug, Clone)]
pub struct HandlerMethod {
    /// The method's name.
    pub name: String,
    /// Its inputs, in order.
    pub inputs: Vec<HandlerInput>,
    /// Its doc comment lines, as written.
    pub doc: Vec<String>,
    /// Whether it carries `#[command]` or `#[cli_subcommand]`.
    pub command_attr: bool,
    /// Whether it carries `#[rpc_method]`.
    pub rpc_attr: bool,
    /// The first name that an `#[rpc_method(name = "..")]` gives, if any.
    pub rpc_name: Option<String>,
    /// The events that its first `#[on_event(..)]` lists, where it has one.
    pub on_event: Option<Vec<String>>,
}

/// The error for a method marked as a command without a context parameter.
pub open spec fn command_needs_context() -> Seq<char> {
    "#[command] requires ctx: &InvocationContext in method signature"@
}

/// Whether an input is a parameter of the invocation context type.
pub open spec fn is_context_input(i: HandlerInput) -> bool {
    match i {
        HandlerInput::Typed(p) => p.is_context,
        HandlerInput::Receiver => false,
    }
}

/// Whether a method takes the invocation context after its first input.
pub open spec fn has_context(m: HandlerMethod) -> bool {
    exists|k: int| 1 <= k < m.inputs@.len() && #[trigger] is_context_input(m.inputs@[k])
}

/// A command-line method: it takes the context and is neither an RPC
/// method nor an event handler.
pub open spec fn is_cli_method(m: HandlerMethod) -> bool {
    has_context(m) && !m.rpc_attr && m.on_event is None
}

/// A method marked as a command that does not take the context.
pub open spec fn command_without_context(m: HandlerMethod) -> bool {
    m.command_attr && !has_context(m)
}

/// The positions of the command-line methods among the first `n`.
pub open spec fn cli_indices(ms: Seq<HandlerMethod>, n: int) -> Seq<usize>
    decreases n,
{
    if n <= 0 {
        Seq::empty()
    } else if is_cli_method(ms[n - 1]) {
        cli_indices(ms, n - 1).push((n - 1) as usize)
    } else {
        cli_indices(ms, n - 1)
    }
}

/// Whether a method takes the invocation context after its first input.
pub fn takes_context(m: &HandlerMethod) -> (r: bool)
    ensures
        r == has_context(*m),
{
    let mut k: usize = 1;
    while k < m.inputs.len()
        invariant
            1 <= k,
            forall|j: int| 1 <= j < k && j < m.inputs@.len() ==> !is_context_input(#[trigger] m.inputs@[j]),
        decreases m.inputs@.len() - k,
    {
        match &m.inputs[k] {
            HandlerInput::Typed(p) => {
                if p.is_context {
                    assert(is_context_input(m.inputs@[k as int]));
                    return true;
                }
            },
            HandlerInput::Receiver => {},
        }
        k = k + 1;
    }
    false
}

/// The positions of the command-line methods, in order; an error where a
/// method is marked as a command but does not take the context.
pub fn cli_methods(methods: &Vec<HandlerMethod>) -> (r: Result<Vec<usize>, String>)
    ensures
        r is Err <==> exists|k: int|
            0 <= k < methods@.len() && command_without_context(#[trigger] methods@[k]),
        r matches Err(e) ==> e@ == command_needs_context(),
        r matches Ok(ix) ==> ix@ == cli_indices(methods@, methods@.len() as int),
{
    let mut out: Vec<usize> = Vec::new();
    let mut i: usize = 0;
    while i < methods.len()
        invariant
            i <= methods@.len(),
            out@ == cli_indices(methods@, i as int),
            forall|k: int| 0 <= k < i ==> !command_without_context(#[trigger] methods@[k]),
        decreases methods@.len() - i,
    {
        let m = &methods[i];
        let ctx = takes_context(m);
        if m.command_attr && !ctx {
            assert(command_without_context(methods@[i as int]));
            return Err(string_of("#[command] requires ctx: &InvocationContext in method signature"));
        }
        if ctx && !m.rpc_attr && m.on_event.is_none() {
            out.push(i);
        }
        i = i + 1;
    }
    Ok(out)
}

/// The long form of an argument: the one `#[arg(long = "x")]` names, else
/// the parameter's name.
pub open spec fn long_name_for(p: ParamInfo, name: Seq<char>) -> Seq<char> {
    match p.long {
        Some(l) => if l@.len() == 0 {
            name
        } else {
            l@
        },
        None => name,
    }
}

/// The argument description of a named parameter: its long form, its
/// short form and default as written, required unless it is an `Option`,
/// always taking a value.
pub open spec fn arg_spec_of(p: ParamInfo, name: Seq<char>, a: CliArgSpec) -> bool {
    &&& a.name@ == name
    &&& (a.long_name matches Some(l) && l@ == long_name_for(p, name))
    &&& a.short_name == p.short
    &&& a.required == Some(!p.is_option)
    &&& a.takes_value == Some(true)
    &&& a.default == p.default
}

/// A copy of an optional string.
fn copy_text(o: &Option<String>) -> (r: Option<String>)
    ensures
        r == *o,
{
    match o {
        Some(s) => Some(s.clone()),
        None => None,
    }
}

/// The argument description of a named parameter.
pub fn arg_spec_for(p: &ParamInfo, name: &String) -> (a: CliArgSpec)
    ensures
        arg_spec_of(*p, name@, a),
{
    let long = match &p.long {
        Some(l) => if l.unicode_len() == 0 {
            name.clone()
        } else {
            l.clone()
        },
        None => name.clone(),
    };
    CliArgSpec {
        name: name.clone(),
        long_name: Some(long),
        short_name: copy_text(&p.short),
        required: Some(!p.is_option),
        takes_value: Some(true),
        default: copy_text(&p.default),
    }
}

/// The names that never become command arguments.
pub open spec fn reserved_name(n: Seq<char>) -> bool {
    n == "self"@ || n == "ctx"@ || n == "context"@
}

/// The named parameters among the first `n` inputs that become command
/// arguments, each with its name: not `self`, `ctx` or `context`, and not
/// of the context type.
pub open spec fn arg_params(inputs: Seq<HandlerInput>, n: int) -> Seq<(ParamInfo, Seq<char>)>
    decreases n,
{
    if n <= 0 {
        Seq::empty()
    } else {
        let rest = arg_params(inputs, n - 1);
        match inputs[n - 1] {
            HandlerInput::Typed(p) => match p.name {
                Some(x) => if !reserved_name(x@) && !p.is_context {
                    rest.push((p, x@))
                } else {
                    rest
                },
                None => rest,
            },
            HandlerInput::Receiver => rest,
        }
    }
}

/// The argument descriptions of the parameters, in order.
pub open spec fn args_match(ps: Seq<(ParamInfo, Seq<char>)>, args: Seq<CliArgSpec>) -> bool {
    args.len() == ps.len() && forall|i: int| 0 <= i < ps.len() ==> arg_spec_of(ps[i].0, ps[i].1, #[trigger] args[i])
}

/// Whether a name is one of the reserved ones.
fn is_reserved(n: &str) -> (r: bool)
    ensures
        r == reserved_name(n@),
{
    text_eq(n, "self") || text_eq(n, "ctx") || text_eq(n, "context")
}

/// The argument descriptions of the inputs from position `from` on.
fn args_from(inputs: &Vec<HandlerInput>, from: usize) -> (r: Vec<CliArgSpec>)
    requires
        from <= inputs@.len(),
    ensures
        args_match(arg_params(inputs@.skip(from as int), inputs@.len() - from), r@),
{
    let ghost tail = inputs@.skip(from as int);
    let mut out: Vec<CliArgSpec> = Vec::new();
    let mut i: usize = from;
    while i < inputs.len()
        invariant
            from <= i <= inputs@.len(),
            tail == inputs@.skip(from as int),
            args_match(arg_params(tail, i - from), out@),
        decreases inputs@.len() - i,
    {
        assert(tail[i - from] == inputs@[i as int]);
        match &inputs[i] {
            HandlerInput::Typed(p) => match &p.name {
                Some(x) => {
                    if !is_reserved(x.as_str()) && !p.is_context {
                        let a = arg_spec_for(p, x);
                        out.push(a);
                    }
                },
                None => {},
            },
            HandlerInput::Receiver => {},
        }
        i = i + 1;
    }
    out
}

/// The trimmed doc comment lines among the first `n` that are not empty.
pub open spec fn doc_texts(doc: Seq<String>, n: int) -> Seq<Seq<char>>
    decreases n,
{
    if n <= 0 {
        Seq::empty()
    } else if trim_white(doc[n - 1]@).len() > 0 {
        doc_texts(doc, n - 1).push(trim_white(doc[n - 1]@))
    } else {
        doc_texts(doc, n - 1)
    }
}

/// What a subcommand is about: its doc comment lines, trimmed, the empty
/// ones left out, joined by spaces; without any, the title case of the
/// method's name.
pub open spec fn about_text(m: HandlerMethod) -> Seq<char> {
    let d = doc_texts(m.doc@, m.doc@.len() as int);
    if d.len() == 0 {
        title(m.name@)
    } else {
        join_spaced(d)
    }
}

/// What a subcommand is about.
pub fn about_of(m: &HandlerMethod) -> (r: String)
    ensures
        r@ == about_text(*m),
{
    let mut out = String::new();
    let mut count: usize = 0;
    let mut i: usize = 0;
    while i < m.doc.len()
        invariant
            i <= m.doc@.len(),
            count == doc_texts(m.doc@, i as int).len(),
            out@ == join_spaced(doc_texts(m.doc@, i as int)),
            count <= i,
        decreases m.doc@.len() - i,
    {
        let t = trim_text(m.doc[i].as_str());
        if t.unicode_len() > 0 {
            let ghost prev = doc_texts(m.doc@, i as int);
            let ghost before = out@;
            if count > 0 {
                out = concat_str(out.as_str(), " ");
                proof {
                    reveal_strlit(" ");
                }
            }
            out = concat_str(out.as_str(), t.as_str());
            proof {
                let d = doc_texts(m.doc@, i + 1);
                assert(d =~= prev.push(t@));
                assert(d.drop_last() =~= prev);
                if count > 0 {
                    assert(out@ =~= before + seq![' '] + t@);
                } else {
                    assert(out@ =~= t@);
                }
            }
            count = count + 1;
        }
        i = i + 1;
    }
    if count == 0 {
        to_title_case(m.name.as_str())
    } else {
        out
    }
}

/// The helpers that the macros generate, and methods without inputs, are
/// no subcommands.
pub open spec fn skipped_method(m: HandlerMethod) -> bool {
    m.inputs@.len() == 0 || m.name@ == "cli_spec"@ || m.name@ == "dispatch_cli"@
}

/// The subcommand description of a method: its name in kebab case, what
/// it is about, and an argument for each of its argument parameters.
pub open spec fn subcommand_of(m: HandlerMethod, s: CliSubcommandSpec) -> bool {
    &&& s.name@ == kebab(m.name@)
    &&& (s.about matches Some(a) && a@ == about_text(m))
    &&& args_match(arg_params(m.inputs@, m.inputs@.len() as int), s.args@)
}

/// Whether a method is one of the generated helpers or has no inputs.
fn is_skipped(m: &HandlerMethod) -> (r: bool)
    ensures
        r == skipped_method(*m),
{
    m.inputs.len() == 0 || text_eq(m.name.as_str(), "cli_spec") || text_eq(m.name.as_str(), "dispatch_cli")
}

/// The subcommand description of a method.
pub fn subcommand_for(m: &HandlerMethod) -> (r: CliSubcommandSpec)
    ensures
        subcommand_of(*m, r),
{
    let args = args_from(&m.inputs, 0);
    assert(m.inputs@.skip(0) =~= m.inputs@);
    CliSubcommandSpec { name: to_kebab_case(m.name.as_str()), about: Some(about_of(m)), args }
}

/// The methods among the first `n` that become subcommands: those that
/// are not helpers, and, where only command-line methods count, are such.
pub open spec fn subcommand_methods(ms: Seq<HandlerMethod>, only_cli: bool, n: int) -> Seq<HandlerMethod>
    decreases n,
{
    if n <= 0 {
        Seq::empty()
    } else if (!only_cli || is_cli_method(ms[n - 1])) && !skipped_method(ms[n - 1]) {
        subcommand_methods(ms, only_cli, n - 1).push(ms[n - 1])
    } else {
        subcommand_methods(ms, only_cli, n - 1)
    }
}

/// The subcommand descriptions of the methods that become subcommands.
fn subcommands_of(methods: &Vec<HandlerMethod>, only_cli: bool) -> (r: Vec<CliSubcommandSpec>)
    ensures
        r@.len() == subcommand_methods(methods@, only_cli, methods@.len() as int).len(),
        forall|i: int|
            0 <= i < r@.len() ==> subcommand_of(
                subcommand_methods(methods@, only_cli, methods@.len() as int)[i],
                #[trigger] r@[i],
            ),
{
    let mut subs: Vec<CliSubcommandSpec> = Vec::new();
    let mut i: usize = 0;
    while i < methods.len()
        invariant
            i <= methods@.len(),
            subs@.len() == subcommand_methods(methods@, only_cli, i as int).len(),
            forall|k: int|
                0 <= k < subs@.len() ==> subcommand_of(
                    subcommand_methods(methods@, only_cli, i as int)[k],
                    #[trigger] subs@[k],
                ),
        decreases methods@.len() - i,
    {
        let m = &methods[i];
        if (!only_cli || (takes_context(m) && !m.rpc_attr && m.on_event.is_none())) && !is_skipped(m) {
            subs.push(subcommand_for(m));
        }
        i = i + 1;
    }
    subs
}

/// The command-line description of a module: version 1, the module's
/// name, and a subcommand for each command-line method that is not a
/// helper, in order; the same error as `cli_methods`.
pub fn module_cli_spec(module_name: &str, methods: &Vec<HandlerMethod>) -> (r: Result<CliSpec, String>)
    ensures
        r is Err <==> exists|k: int|
            0 <= k < methods@.len() && command_without_context(#[trigger] methods@[k]),
        r matches Err(e) ==> e@ == command_needs_context(),
        r matches Ok(spec) ==> {
            let sel = subcommand_methods(methods@, true, methods@.len() as int);
            &&& spec.version == 1
            &&& spec.name@ == module_name@
            &&& spec.about is None
            &&& spec.subcommands@.len() == sel.len()
            &&& forall|i: int| 0 <= i < sel.len() ==> subcommand_of(sel[i], #[trigger] spec.subcommands@[i])
        },
{
    match cli_methods(methods) {
        Err(e) => {
            return Err(e);
        },
        Ok(_) => {},
    }
    let subs = subcommands_of(methods, true);
    Ok(CliSpec { version: 1, name: string_of(module_name), about: None, subcommands: subs })
}

/// The first position from `i` on that holds `x`, or -1.
pub open spec fn first_index(s: Seq<Seq<char>>, x: Seq<char>, i: int) -> int
    decreases s.len() - i,
{
    if i < 0 || i >= s.len() {
        -1
    } else if s[i] == x {
        i
    } else {
        first_index(s, x, i + 1)
    }
}

/// The first position that holds `x`, or none.
fn find_text(s: &Vec<String>, x: &str) -> (r: Option<usize>)
    ensures
        first_index(s@.map_values(|t: String| t@), x@, 0) < 0 ==> r is None,
        first_index(s@.map_values(|t: String| t@), x@, 0) >= 0 ==> r == Some(
            first_index(s@.map_values(|t: String| t@), x@, 0) as usize,
        ),
{
    let ghost v = s@.map_values(|t: String| t@);
    let mut i: usize = 0;
    while i < s.len()
        invariant
            i <= s@.len(),
            v == s@.map_values(|t: String| t@),
            first_index(v, x@, 0) == first_index(v, x@, i as int),
        decreases s@.len() - i,
    {
        if text_eq(s[i].as_str(), x) {
            return Some(i);
        }
        i = i + 1;
    }
    None
}

/// A parameter for which the generated dispatch passes the context: one
/// named `ctx` or `context`, or of the context type.
pub open spec fn is_context_param(i: HandlerInput) -> bool {
    match i {
        HandlerInput::Typed(p) => match p.name {
            Some(x) => x@ == "ctx"@ || x@ == "context"@ || p.is_context,
            None => false,
        },
        HandlerInput::Receiver => false,
    }
}

/// Whether the generated dispatch passes the context to a method.
pub open spec fn passes_context(m: HandlerMethod) -> bool {
    exists|k: int| 1 <= k < m.inputs@.len() && #[trigger] is_context_param(m.inputs@[k])
}

/// One arm of the generated command dispatch: the subcommand it answers,
/// the method it calls, whether it passes the context, and the argument
/// descriptions by which it parses the command line.
#[derive(Debug, Clone)]
pub struct DispatchArm {
    pub subcommand: String,
    pub method: String,
    pub with_context: bool,
    pub args: Vec<CliArgSpec>,
}

/// The dispatch arm of a method: its kebab-case name, the method, and an
/// argument for each argument parameter after its first input.
pub open spec fn arm_of(m: HandlerMethod, a: DispatchArm) -> bool {
    &&& a.subcommand@ == kebab(m.name@)
    &&& a.method == m.name
    &&& a.with_context == passes_context(m)
    &&& args_match(arg_params(m.inputs@.skip(1), m.inputs@.len() - 1), a.args@)
}

/// The dispatch arm of a method that has inputs.
fn arm_for(m: &HandlerMethod) -> (r: DispatchArm)
    requires
        m.inputs@.len() > 0,
    ensures
        arm_of(*m, r),
{
    let mut with_context = false;
    let mut k: usize = 1;
    while k < m.inputs.len()
        invariant
            1 <= k,
            with_context == exists|j: int| 1 <= j < k && j < m.inputs@.len() && #[trigger] is_context_param(m.inputs@[j]),
        decreases m.inputs@.len() - k,
    {
        match &m.inputs[k] {
            HandlerInput::Typed(p) => match &p.name {
                Some(x) => {
                    if text_eq(x.as_str(), "ctx") || text_eq(x.as_str(), "context") || p.is_context {
                        assert(is_context_param(m.inputs@[k as int]));
                        with_context = true;
                    }
                },
                None => {},
            },
            HandlerInput::Receiver => {},
        }
        k = k + 1;
    }
    DispatchArm {
        subcommand: to_kebab_case(m.name.as_str()),
        method: m.name.clone(),
        with_context,
        args: args_from(&m.inputs, 1),
    }
}

/// The dispatch arms of the methods that become subcommands.
fn arms_of(methods: &Vec<HandlerMethod>, only_cli: bool) -> (r: Vec<DispatchArm>)
    ensures
        r@.len() == subcommand_methods(methods@, only_cli, methods@.len() as int).len(),
        forall|i: int|
            0 <= i < r@.len() ==> arm_of(subcommand_methods(methods@, only_cli, methods@.len() as int)[i], #[trigger] r@[i]),
{
    let mut arms: Vec<DispatchArm> = Vec::new();
    let mut i: usize = 0;
    while i < methods.len()
        invariant
            i <= methods@.len(),
            arms@.len() == subcommand_methods(methods@, only_cli, i as int).len(),
            forall|k: int|
                0 <= k < arms@.len() ==> arm_of(subcommand_methods(methods@, only_cli, i as int)[k], #[trigger] arms@[k]),
        decreases methods@.len() - i,
    {
        let m = &methods[i];
        if (!only_cli || (takes_context(m) && !m.rpc_attr && m.on_event.is_none())) && !is_skipped(m) {
            arms.push(arm_for(m));
        }
        i = i + 1;
    }
    arms
}

/// The arms of a module's command dispatch, one for each method that
/// becomes a subcommand, in order; the same error as `cli_methods`.
pub fn dispatch_arms(methods: &Vec<HandlerMethod>) -> (r: Result<Vec<DispatchArm>, String>)
    ensures
        r is Err <==> exists|k: int|
            0 <= k < methods@.len() && command_without_context(#[trigger] methods@[k]),
        r matches Err(e) ==> e@ == command_needs_context(),
        r matches Ok(arms) ==> {
            let sel = subcommand_methods(methods@, true, methods@.len() as int);
            &&& arms@.len() == sel.len()
            &&& forall|i: int| 0 <= i < sel.len() ==> arm_of(sel[i], #[trigger] arms@[i])
        },
{
    match cli_methods(methods) {
        Err(e) => {
            return Err(e);
        },
        Ok(_) => {},
    }
    let arms = arms_of(methods, true);
    Ok(arms)
}

/// The name of a command-line impl block's command, from the type it is
/// on: a type named `..Cli` gives the rest in kebab case, any other its
/// name in lowercase with `-` for `_`.
pub open spec fn cli_name_of_type(ty: Seq<char>) -> Seq<char> {
    if ty.len() >= 3 && ty.subrange(ty.len() - 3, ty.len() as int) == "Cli"@ {
        kebab(ty.subrange(0, ty.len() - 3))
    } else {
        lower_text(ty).map_values(|c: char| if c == '_' { '-' } else { c })
    }
}

/// The name of a command-line impl block's command.
pub fn cli_name_for_type(ty: &str) -> (r: String)
    ensures
        r@ == cli_name_of_type(ty@),
{
    let n = ty.unicode_len();
    proof {
        reveal_strlit("Cli");
    }
    if n >= 3 && ty.get_char(n - 3) == 'C' && ty.get_char(n - 2) == 'l' && ty.get_char(n - 1) == 'i' {
        assert(ty@.subrange(n - 3, n as int) =~= "Cli"@);
        let base = ty.substring_char(0, n - 3);
        return to_kebab_case(base);
    }
    proof {
        if n >= 3 {
            assert(ty@.subrange(n - 3, n as int)[0] == ty@[n - 3]);
            assert(ty@.subrange(n - 3, n as int)[1] == ty@[n - 2]);
            assert(ty@.subrange(n - 3, n as int)[2] == ty@[n - 1]);
        }
    }
    let l = lowercase(ty);
    let m = l.unicode_len();
    let mut out = String::new();
    let mut i: usize = 0;
    while i < m
        invariant
            m == l@.len(),
            i <= m,
            out@ == l@.take(i as int).map_values(|c: char| if c == '_' { '-' } else { c }),
        decreases m - i,
    {
        let c = l.get_char(i);
        push_char(&mut out, if c == '_' { '-' } else { c });
        i = i + 1;
        assert(out@ =~= l@.take(i as int).map_values(|c: char| if c == '_' { '-' } else { c }));
    }
    assert(l@.take(m as int) =~= l@);
    out
}

/// The command-line description that `#[cli_subcommand]` gives an impl
/// block: version 1, the command's name, and a subcommand for each method
/// that is not a helper, in order.
pub fn impl_cli_spec(cli_name: &str, methods: &Vec<HandlerMethod>) -> (spec: CliSpec)
    ensures
        spec.version == 1,
        spec.name@ == cli_name@,
        spec.about is None,
        spec.subcommands@.len() == subcommand_methods(methods@, false, methods@.len() as int).len(),
        forall|i: int|
            0 <= i < spec.subcommands@.len() ==> subcommand_of(
                subcommand_methods(methods@, false, methods@.len() as int)[i],
                #[trigger] spec.subcommands@[i],
            ),
{
    CliSpec { version: 1, name: string_of(cli_name), about: None, subcommands: subcommands_of(methods, false) }
}

/// The arms of the command dispatch that `#[cli_subcommand]` gives an
/// impl block: one for each method that is not a helper, in order.
pub fn impl_dispatch_arms(methods: &Vec<HandlerMethod>) -> (arms: Vec<DispatchArm>)
    ensures
        arms@.len() == subcommand_methods(methods@, false, methods@.len() as int).len(),
        forall|i: int|
            0 <= i < arms@.len() ==> arm_of(subcommand_methods(methods@, false, methods@.len() as int)[i], #[trigger] arms@[i]),
{
    arms_of(methods, false)
}

/// An optional string as a value.
pub open spec fn opt_text(o: Option<String>) -> Option<Seq<char>> {
    match o {
        Some(s) => Some(s@),
        None => None,
    }
}

/// An argument description as values.
pub open spec fn arg_view(a: CliArgSpec) -> (Seq<char>, Option<Seq<char>>, Option<Seq<char>>, Option<bool>, Option<bool>, Option<Seq<char>>) {
    (a.name@, opt_text(a.long_name), opt_text(a.short_name), a.required, a.takes_value, opt_text(a.default))
}

/// Skipping a leading receiver does not change which parameters become
/// arguments.
proof fn lemma_arg_params_skip_receiver(inputs: Seq<HandlerInput>, n: int)
    requires
        1 <= n <= inputs.len(),
        inputs[0] is Receiver,
    ensures
        arg_params(inputs, n) == arg_params(inputs.skip(1), n - 1),
    decreases n,
{
    reveal_with_fuel(arg_params, 2);
    if n > 1 {
        lemma_arg_params_skip_receiver(inputs, n - 1);
        assert(inputs.skip(1)[n - 2] == inputs[n - 1]);
    } else {
        assert(arg_params(inputs.skip(1), 0) == Seq::<(ParamInfo, Seq<char>)>::empty());
    }
}

/// Argument lists made from the same parameters hold the same values.
proof fn lemma_args_match_same(ps: Seq<(ParamInfo, Seq<char>)>, a: Seq<CliArgSpec>, b: Seq<CliArgSpec>)
    requires
        args_match(ps, a),
        args_match(ps, b),
    ensures
        a.map_values(|x: CliArgSpec| arg_view(x)) == b.map_values(|x: CliArgSpec| arg_view(x)),
{
    assert forall|i: int| 0 <= i < a.len() implies arg_view(a[i]) == arg_view(b[i]) by {
        assert(arg_spec_of(ps[i].0, ps[i].1, a[i]));
        assert(arg_spec_of(ps[i].0, ps[i].1, b[i]));
    }
    assert(a.map_values(|x: CliArgSpec| arg_view(x)) =~= b.map_values(|x: CliArgSpec| arg_view(x)));
}

/// The command-line description and the command dispatch made from the
/// same methods agree: the dispatch answers the subcommands that the
/// description lists, in the same order, and, for methods that take
/// `self` first, parses exactly the arguments that the description
/// shows.
pub proof fn lemma_description_matches_dispatch(
    methods: Seq<HandlerMethod>,
    only_cli: bool,
    subs: Seq<CliSubcommandSpec>,
    arms: Seq<DispatchArm>,
)
    requires
        subs.len() == subcommand_methods(methods, only_cli, methods.len() as int).len(),
        forall|i: int|
            0 <= i < subs.len() ==> subcommand_of(
                subcommand_methods(methods, only_cli, methods.len() as int)[i],
                #[trigger] subs[i],
            ),
        arms.len() == subcommand_methods(methods, only_cli, methods.len() as int).len(),
        forall|i: int|
            0 <= i < arms.len() ==> arm_of(subcommand_methods(methods, only_cli, methods.len() as int)[i], #[trigger] arms[i]),
    ensures
        arm_names(arms) == subs.map_values(|s: CliSubcommandSpec| s.name@),
        forall|i: int|
            0 <= i < subs.len() && (#[trigger] subcommand_methods(methods, only_cli, methods.len() as int)[i]).inputs@[0] is Receiver
                ==> subs[i].args@.map_values(|x: CliArgSpec| arg_view(x)) == arms[i].args@.map_values(
                |x: CliArgSpec| arg_view(x),
            ),
{
    let sel = subcommand_methods(methods, only_cli, methods.len() as int);
    assert forall|i: int| 0 <= i < arms.len() implies arm_names(arms)[i] == subs[i].name@ by {
        assert(arm_of(sel[i], arms[i]));
        assert(subcommand_of(sel[i], subs[i]));
    }
    assert(arm_names(arms) =~= subs.map_values(|s: CliSubcommandSpec| s.name@));
    assert forall|i: int|
        0 <= i < subs.len() && (#[trigger] subcommand_methods(methods, only_cli, methods.len() as int)[i]).inputs@[0] is Receiver
        implies subs[i].args@.map_values(|x: CliArgSpec| arg_view(x)) == arms[i].args@.map_values(
        |x: CliArgSpec| arg_view(x),
    ) by {
        let m = sel[i];
        lemma_selected_has_inputs(methods, only_cli, methods.len() as int, i);
        assert(subcommand_of(m, subs[i]));
        assert(arm_of(m, arms[i]));
        lemma_arg_params_skip_receiver(m.inputs@, m.inputs@.len() as int);
        lemma_args_match_same(arg_params(m.inputs@, m.inputs@.len() as int), subs[i].args@, arms[i].args@);
    }
}

/// The methods that become subcommands have inputs.
proof fn lemma_selected_has_inputs(methods: Seq<HandlerMethod>, only_cli: bool, n: int, i: int)
    requires
        0 <= i < subcommand_methods(methods, only_cli, n).len(),
        n <= methods.len(),
    ensures
        subcommand_methods(methods, only_cli, n)[i].inputs@.len() > 0,
    decreases n,
{
    if n > 0 {
        let prev = subcommand_methods(methods, only_cli, n - 1);
        if i < prev.len() {
            lemma_selected_has_inputs(methods, only_cli, n - 1, i);
        }
    }
}

/// The subcommands that the arms answer.
pub open spec fn arm_names(arms: Seq<DispatchArm>) -> Seq<Seq<char>> {
    arms.map_values(|a: DispatchArm| a.subcommand@)
}

/// The arm that answers a subcommand: the first with its name; for an
/// unknown subcommand the error that names it.
pub fn dispatch_target(arms: &Vec<DispatchArm>, subcommand: &str) -> (r: Result<usize, NodeModuleError>)
    ensures
        first_index(arm_names(arms@), subcommand@, 0) >= 0 ==> r == Ok::<usize, NodeModuleError>(
            first_index(arm_names(arms@), subcommand@, 0) as usize,
        ),
        first_index(arm_names(arms@), subcommand@, 0) < 0 ==> (r matches Err(NodeModuleError::Other(m))
            && m@ == "Unknown subcommand: "@ + subcommand@),
{
    let mut i: usize = 0;
    while i < arms.len()
        invariant
            i <= arms@.len(),
            first_index(arm_names(arms@), subcommand@, 0) == first_index(arm_names(arms@), subcommand@, i as int),
        decreases arms@.len() - i,
    {
        if text_eq(arms[i].subcommand.as_str(), subcommand) {
            return Ok(i);
        }
        i = i + 1;
    }
    Err(NodeModuleError::Other(concat_str("Unknown subcommand: ", subcommand)))
}

/// The value of a required argument, or the error that names it.
pub fn required_argument(map: &crate::module::cli_args::ArgMap, name: &str) -> (r: Result<String, NodeModuleError>)
    ensures
        map@.dom().contains(name@) ==> (r matches Ok(v) && v@ == map@[name@]),
        !map@.dom().contains(name@) ==> (r matches Err(NodeModuleError::Other(m))
            && m@ == "missing required argument: "@ + name@),
{
    match map.get(name) {
        Some(v) => Ok(v),
        None => Err(NodeModuleError::Other(concat_str("missing required argument: ", name))),
    }
}

/// The RPC name of a method: the one its attribute gives, else its own.
pub open spec fn rpc_name_of(m: HandlerMethod) -> Seq<char> {
    match m.rpc_name {
        Some(n) => n@,
        None => m.name@,
    }
}

/// The RPC names of the RPC methods among the first `n`, in order.
pub open spec fn rpc_names(ms: Seq<HandlerMethod>, n: int) -> Seq<Seq<char>>
    decreases n,
{
    if n <= 0 {
        Seq::empty()
    } else if ms[n - 1].rpc_attr {
        rpc_names(ms, n - 1).push(rpc_name_of(ms[n - 1]))
    } else {
        rpc_names(ms, n - 1)
    }
}

/// The names under which a module's RPC methods are registered, in
/// method order.
pub fn rpc_method_names(methods: &Vec<HandlerMethod>) -> (r: Vec<String>)
    ensures
        r@.map_values(|t: String| t@) == rpc_names(methods@, methods@.len() as int),
{
    let mut out: Vec<String> = Vec::new();
    let mut i: usize = 0;
    while i < methods.len()
        invariant
            i <= methods@.len(),
            out@.map_values(|t: String| t@) == rpc_names(methods@, i as int),
        decreases methods@.len() - i,
    {
        let m = &methods[i];
        if m.rpc_attr {
            let n = match &m.rpc_name {
                Some(x) => x.clone(),
                None => m.name.clone(),
            };
            let ghost before = out@;
            out.push(n);
            assert(out@.map_values(|t: String| t@) =~= before.map_values(|t: String| t@).push(rpc_name_of(*m)));
        }
        i = i + 1;
    }
    out
}

/// The RPC method that answers a call: the first registered under its
/// name; for an unknown name the error that names it.
pub fn rpc_target(names: &Vec<String>, method: &str) -> (r: Result<usize, NodeModuleError>)
    ensures
        first_index(names@.map_values(|t: String| t@), method@, 0) >= 0 ==> r == Ok::<usize, NodeModuleError>(
            first_index(names@.map_values(|t: String| t@), method@, 0) as usize,
        ),
        first_index(names@.map_values(|t: String| t@), method@, 0) < 0 ==> (r matches Err(
            NodeModuleError::Other(m),
        ) && m@ == "Unknown RPC method: "@ + method@),
{
    match find_text(names, method) {
        Some(i) => Ok(i),
        None => Err(NodeModuleError::Other(concat_str("Unknown RPC method: ", method))),
    }
}

/// `first_index` finds `x` exactly where `x` occurs from `i` on, and then
/// at a position that holds it.
pub proof fn lemma_first_index(s: Seq<Seq<char>>, x: Seq<char>, i: int)
    requires
        0 <= i,
    ensures
        first_index(s, x, i) >= 0 <==> exists|k: int| i <= k < s.len() && s[k] == x,
        first_index(s, x, i) >= 0 ==> i <= first_index(s, x, i) < s.len() && s[first_index(s, x, i)] == x,
    decreases s.len() - i,
{
    if i < s.len() && s[i] != x {
        lemma_first_index(s, x, i + 1);
        if exists|k: int| i <= k < s.len() && s[k] == x {
            let k = choose|k: int| i <= k < s.len() && s[k] == x;
            assert(k != i);
            assert(i + 1 <= k < s.len() && s[k] == x);
        }
    }
}

/// The events that a method handles: those its first `#[on_event]` lists.
pub open spec fn events_of(m: HandlerMethod) -> Seq<Seq<char>> {
    match m.on_event {
        Some(v) => v@.map_values(|t: String| t@),
        None => Seq::empty(),
    }
}

/// `acc` with each event of `evs` that it does not hold yet appended, in
/// order.
pub open spec fn add_new_events(acc: Seq<Seq<char>>, evs: Seq<Seq<char>>) -> Seq<Seq<char>>
    decreases evs.len(),
{
    if evs.len() == 0 {
        acc
    } else {
        let a = add_new_events(acc, evs.drop_last());
        if a.contains(evs.last()) {
            a
        } else {
            a.push(evs.last())
        }
    }
}

/// The events that the first `n` methods handle, each once, in the order
/// in which they first appear.
pub open spec fn handled_events(ms: Seq<HandlerMethod>, n: int) -> Seq<Seq<char>>
    decreases n,
{
    if n <= 0 {
        Seq::empty()
    } else {
        add_new_events(handled_events(ms, n - 1), events_of(ms[n - 1]))
    }
}

/// The event types that a module subscribes to.
pub fn event_types(methods: &Vec<HandlerMethod>) -> (r: Vec<String>)
    ensures
        r@.map_values(|t: String| t@) == handled_events(methods@, methods@.len() as int),
{
    let mut out: Vec<String> = Vec::new();
    let mut i: usize = 0;
    while i < methods.len()
        invariant
            i <= methods@.len(),
            out@.map_values(|t: String| t@) == handled_events(methods@, i as int),
        decreases methods@.len() - i,
    {
        match &methods[i].on_event {
            Some(evs) => {
                let ghost base = handled_events(methods@, i as int);
                let ghost ev_view = evs@.map_values(|t: String| t@);
                let mut j: usize = 0;
                while j < evs.len()
                    invariant
                        j <= evs@.len(),
                        ev_view == evs@.map_values(|t: String| t@),
                        out@.map_values(|t: String| t@) == add_new_events(base, ev_view.take(j as int)),
                    decreases evs@.len() - j,
                {
                    let ghost seen = out@.map_values(|t: String| t@);
                    proof {
                        assert(ev_view.take(j + 1).drop_last() =~= ev_view.take(j as int));
                        assert(ev_view.take(j + 1).last() == evs@[j as int]@);
                        lemma_first_index(seen, evs@[j as int]@, 0);
                    }
                    match find_text(&out, evs[j].as_str()) {
                        Some(_) => {
                            proof {
                                let k = first_index(seen, evs@[j as int]@, 0);
                                assert(seen[k] == evs@[j as int]@);
                            }
                        },
                        None => {
                            out.push(evs[j].clone());
                            proof {
                                assert(out@.map_values(|t: String| t@) =~= seen.push(evs@[j as int]@));
                            }
                        },
                    }
                    j = j + 1;
                }
                proof {
                    assert(ev_view.take(evs@.len() as int) =~= ev_view);
                }
            },
            None => {
                proof {
                    assert(add_new_events(handled_events(methods@, i as int), Seq::empty()) == handled_events(methods@, i as int));
                }
            },
        }
        i = i + 1;
    }
    out
}

/// An argument of a generated event handler call.
#[derive(Debug, Clone, PartialEq, Eq)]
pub enum CallArg {
    /// The event message itself.
    Event,
    /// A field of the event's payload, by name, passed by value where its
    /// type is a copy type.
    Field(String, bool),
}

/// How a generated event dispatch calls a handler.
#[derive(Debug, Clone, PartialEq, Eq)]
pub enum HandlerCall {
    /// With payload fields matched to its parameters by name.
    Payload(Vec<CallArg>),
    /// With the event message and the context.
    EventWithContext,
    /// With the event message alone.
    EventOnly,
}

/// The named parameters among the first `n` inputs, each with whether it
/// is `&EventMessage`.
pub open spec fn named_params(inputs: Seq<HandlerInput>, n: int) -> Seq<(Seq<char>, bool)>
    decreases n,
{
    if n <= 0 {
        Seq::empty()
    } else {
        let rest = named_params(inputs, n - 1);
        match inputs[n - 1] {
            HandlerInput::Typed(p) => match p.name {
                Some(x) => rest.push((x@, p.is_event_ref)),
                None => rest,
            },
            HandlerInput::Receiver => rest,
        }
    }
}

/// The named parameters of a handler after its first input.
pub open spec fn handler_params(m: HandlerMethod) -> Seq<(Seq<char>, bool)> {
    if m.inputs@.len() == 0 {
        Seq::empty()
    } else {
        named_params(m.inputs@.skip(1), m.inputs@.len() - 1)
    }
}

/// Whether a payload has a field of that name.
pub open spec fn has_field(fs: Seq<(Seq<char>, bool)>, name: Seq<char>) -> bool {
    exists|j: int| 0 <= j < fs.len() && #[trigger] fs[j].0 == name
}

/// Whether the first field of that name from `i` on is passed by value.
pub open spec fn field_by_value(fs: Seq<(Seq<char>, bool)>, name: Seq<char>, i: int) -> bool
    decreases fs.len() - i,
{
    if i < 0 || i >= fs.len() {
        false
    } else if fs[i].0 == name {
        fs[i].1
    } else {
        field_by_value(fs, name, i + 1)
    }
}

/// Whether a handler of an event gets the payload's fields: it handles
/// that one event only, the event has a known payload, and each parameter
/// is the event message or names a payload field.
pub open spec fn gets_payload(m: HandlerMethod, ev: Seq<char>) -> bool {
    &&& events_of(m).len() == 1
    &&& payload_fields(ev) is Some
    &&& forall|i: int|
        0 <= i < handler_params(m).len() ==> (#[trigger] handler_params(m)[i]).1 || has_field(
            payload_fields(ev)->0,
            handler_params(m)[i].0,
        )
}

/// The payload call arguments for the parameters.
pub open spec fn payload_args(ps: Seq<(Seq<char>, bool)>, fs: Seq<(Seq<char>, bool)>, args: Seq<CallArg>) -> bool {
    &&& args.len() == ps.len()
    &&& forall|i: int|
        0 <= i < ps.len() ==> if ps[i].1 {
            #[trigger] args[i] is Event
        } else {
            args[i] matches CallArg::Field(n, b) && n@ == ps[i].0 && b == field_by_value(fs, ps[i].0, 0)
        }
}

/// How a handler of an event is called: with payload fields where it gets
/// them; else, where the dispatch has a context to pass, with the event
/// and the context where a parameter is named `ctx` or `context`; else
/// with the event alone.
pub open spec fn call_of(m: HandlerMethod, ev: Seq<char>, with_context: bool, c: HandlerCall) -> bool {
    if gets_payload(m, ev) {
        c matches HandlerCall::Payload(args) && payload_args(handler_params(m), payload_fields(ev)->0, args@)
    } else if with_context && exists|i: int|
        0 <= i < handler_params(m).len() && (#[trigger] handler_params(m)[i].0 == "ctx"@
            || handler_params(m)[i].0 == "context"@) {
        c is EventWithContext
    } else {
        c is EventOnly
    }
}

/// The named parameters of a handler after its first input.
fn params_of(m: &HandlerMethod) -> (r: Vec<(String, bool)>)
    ensures
        r@.map_values(|p: (String, bool)| (p.0@, p.1)) == handler_params(*m),
{
    let mut out: Vec<(String, bool)> = Vec::new();
    if m.inputs.len() == 0 {
        assert(out@.map_values(|p: (String, bool)| (p.0@, p.1)) =~= Seq::<(Seq<char>, bool)>::empty());
        return out;
    }
    let ghost tail = m.inputs@.skip(1);
    let mut i: usize = 1;
    while i < m.inputs.len()
        invariant
            1 <= i <= m.inputs@.len(),
            tail == m.inputs@.skip(1),
            out@.map_values(|p: (String, bool)| (p.0@, p.1)) == named_params(tail, i - 1),
        decreases m.inputs@.len() - i,
    {
        assert(tail[i - 1] == m.inputs@[i as int]);
        let ghost before = out@;
        match &m.inputs[i] {
            HandlerInput::Typed(p) => match &p.name {
                Some(x) => {
                    out.push((x.clone(), p.is_event_ref));
                    assert(out@.map_values(|p: (String, bool)| (p.0@, p.1)) =~= before.map_values(
                        |p: (String, bool)| (p.0@, p.1),
                    ).push((x@, p.is_event_ref)));
                },
                None => {},
            },
            HandlerInput::Receiver => {},
        }
        i = i + 1;
    }
    out
}

/// Whether a payload has a field of that name, and whether the first
/// such is passed by value.
fn lookup_field(fs: &Vec<(&'static str, bool)>, name: &str) -> (r: Option<bool>)
    ensures
        has_field(fields_view(fs@), name@) ==> r == Some(field_by_value(fields_view(fs@), name@, 0)),
        !has_field(fields_view(fs@), name@) ==> r is None,
{
    let ghost v = fields_view(fs@);
    let mut i: usize = 0;
    while i < fs.len()
        invariant
            i <= fs@.len(),
            v == fields_view(fs@),
            v.len() == fs@.len(),
            forall|j: int| 0 <= j < i ==> v[j].0 != name@,
            field_by_value(v, name@, 0) == field_by_value(v, name@, i as int),
        decreases fs@.len() - i,
    {
        assert(v[i as int] == (fs@[i as int].0@, fs@[i as int].1));
        if text_eq(fs[i].0, name) {
            assert(v[i as int].0 == name@);
            return Some(fs[i].1);
        }
        i = i + 1;
    }
    None
}

/// How a handler of an event is called, by a dispatch that has a context
/// to pass or not.
pub fn handler_call(m: &HandlerMethod, ev: &str, with_context: bool) -> (r: HandlerCall)
    ensures
        call_of(*m, ev@, with_context, r),
{
    let params = params_of(m);
    let ghost pv = handler_params(*m);
    let single = match &m.on_event {
        Some(v) => v.len() == 1,
        None => false,
    };
    if single {
        match payload_fields_for_event(ev) {
            Some(fs) => {
                let ghost fv = fields_view(fs@);
                let mut args: Vec<CallArg> = Vec::new();
                let mut ok = true;
                let mut i: usize = 0;
                while i < params.len()
                    invariant
                        i <= params@.len(),
                        pv == handler_params(*m),
                        params@.map_values(|p: (String, bool)| (p.0@, p.1)) == pv,
                        fv == fields_view(fs@),
                        ok ==> payload_args(pv.take(i as int), fv, args@),
                        ok ==> forall|k: int| 0 <= k < i ==> (#[trigger] pv[k]).1 || has_field(fv, pv[k].0),
                        !ok ==> exists|k: int| 0 <= k < i && !(#[trigger] pv[k]).1 && !has_field(fv, pv[k].0),
                    decreases params@.len() - i,
                {
                    assert(pv[i as int] == (params@[i as int].0@, params@[i as int].1));
                    if ok {
                        if params[i].1 {
                            args.push(CallArg::Event);
                        } else {
                            match lookup_field(&fs, params[i].0.as_str()) {
                                Some(b) => {
                                    args.push(CallArg::Field(params[i].0.clone(), b));
                                },
                                None => {
                                    ok = false;
                                },
                            }
                        }
                    }
                    i = i + 1;
                }
                proof {
                    assert(pv.take(params@.len() as int) =~= pv);
                }
                if ok {
                    assert(gets_payload(*m, ev@));
                    return HandlerCall::Payload(args);
                }
                proof {
                    let k = choose|k: int| 0 <= k < pv.len() && !(#[trigger] pv[k]).1 && !has_field(fv, pv[k].0);
                    assert(!(pv[k].1 || has_field(payload_fields(ev@)->0, pv[k].0)));
                }
            },
            None => {},
        }
    }
    assert(!gets_payload(*m, ev@));
    if !with_context {
        return HandlerCall::EventOnly;
    }
    let mut k: usize = 0;
    while k < params.len()
        invariant
            k <= params@.len(),
            pv == handler_params(*m),
            params@.map_values(|p: (String, bool)| (p.0@, p.1)) == pv,
            forall|j: int| 0 <= j < k ==> !((#[trigger] pv[j]).0 == "ctx"@ || pv[j].0 == "context"@),
            !gets_payload(*m, ev@),
            with_context,
        decreases params@.len() - k,
    {
        assert(pv[k as int] == (params@[k as int].0@, params@[k as int].1));
        if text_eq(params[k].0.as_str(), "ctx") || text_eq(params[k].0.as_str(), "context") {
            assert(handler_params(*m)[k as int].0 == "ctx"@ || handler_params(*m)[k as int].0 == "context"@);
            return HandlerCall::EventWithContext;
        }
        k = k + 1;
    }
    HandlerCall::EventOnly
}

/// How many times `ev` occurs in `evs`.
pub open spec fn count_in(evs: Seq<Seq<char>>, ev: Seq<char>) -> nat
    decreases evs.len(),
{
    if evs.len() == 0 {
        0
    } else {
        count_in(evs.drop_last(), ev) + if evs.last() == ev {
            1nat
        } else {
            0nat
        }
    }
}

/// The positions of the handlers of `ev` among the first `n` methods, in
/// order, each as often as the method lists the event.
pub open spec fn handler_positions(ms: Seq<HandlerMethod>, ev: Seq<char>, n: int) -> Seq<usize>
    decreases n,
{
    if n <= 0 {
        Seq::empty()
    } else {
        handler_positions(ms, ev, n - 1) + Seq::new(count_in(events_of(ms[n - 1]), ev), |_k: int| (n - 1) as usize)
    }
}

/// The calls that the generated dispatch of an event makes: for each
/// method in order, one for each time it lists the event, each made as
/// `call_of` says.
pub fn event_handlers(methods: &Vec<HandlerMethod>, ev: &str, with_context: bool) -> (r: Vec<(usize, HandlerCall)>)
    ensures
        r@.map_values(|p: (usize, HandlerCall)| p.0) == handler_positions(methods@, ev@, methods@.len() as int),
        forall|i: int|
            0 <= i < r@.len() ==> r@[i].0 < methods@.len() && call_of(
                methods@[(#[trigger] r@[i]).0 as int],
                ev@,
                with_context,
                r@[i].1,
            ),
{
    let mut out: Vec<(usize, HandlerCall)> = Vec::new();
    let mut i: usize = 0;
    while i < methods.len()
        invariant
            i <= methods@.len(),
            out@.map_values(|p: (usize, HandlerCall)| p.0) == handler_positions(methods@, ev@, i as int),
            forall|q: int|
                0 <= q < out@.len() ==> out@[q].0 < methods@.len() && call_of(
                    methods@[(#[trigger] out@[q]).0 as int],
                    ev@,
                    with_context,
                    out@[q].1,
                ),
        decreases methods@.len() - i,
    {
        let ghost base = out@.map_values(|p: (usize, HandlerCall)| p.0);
        match &methods[i].on_event {
            Some(evs) => {
                let ghost ev_view = evs@.map_values(|t: String| t@);
                assert(events_of(methods@[i as int]) == ev_view);
                let mut j: usize = 0;
                while j < evs.len()
                    invariant
                        i < methods@.len(),
                        j <= evs@.len(),
                        ev_view == evs@.map_values(|t: String| t@),
                        out@.map_values(|p: (usize, HandlerCall)| p.0) == base + Seq::new(
                            count_in(ev_view.take(j as int), ev@),
                            |_k: int| i,
                        ),
                        forall|q: int|
                            0 <= q < out@.len() ==> out@[q].0 < methods@.len() && call_of(
                                methods@[(#[trigger] out@[q]).0 as int],
                                ev@,
                                with_context,
                                out@[q].1,
                            ),
                    decreases evs@.len() - j,
                {
                    let ghost before = out@.map_values(|p: (usize, HandlerCall)| p.0);
                    proof {
                        assert(ev_view.take(j + 1).drop_last() =~= ev_view.take(j as int));
                        assert(ev_view.take(j + 1).last() == evs@[j as int]@);
                    }
                    if text_eq(evs[j].as_str(), ev) {
                        let c = handler_call(&methods[i], ev, with_context);
                        out.push((i, c));
                        proof {
                            assert(out@.map_values(|p: (usize, HandlerCall)| p.0) =~= before.push(i));
                            assert(out@.map_values(|p: (usize, HandlerCall)| p.0) =~= base + Seq::new(
                                count_in(ev_view.take(j + 1), ev@),
                                |_k: int| i,
                            ));
                        }
                    } else {
                        proof {
                            assert(Seq::new(count_in(ev_view.take(j + 1), ev@), |_k: int| i) =~= Seq::new(
                                count_in(ev_view.take(j as int), ev@),
                                |_k: int| i,
                            ));
                        }
                    }
                    j = j + 1;
                }
                proof {
                    assert(ev_view.take(evs@.len() as int) =~= ev_view);
                }
            },
            None => {
                proof {
                    assert(events_of(methods@[i as int]) =~= Seq::<Seq<char>>::empty());
                    assert(Seq::new(count_in(events_of(methods@[i as int]), ev@), |_k: int| i) =~= Seq::<usize>::empty());
                    assert(base + Seq::<usize>::empty() =~= base);
                }
            },
        }
        proof {
            let n = i + 1;
            assert(handler_positions(methods@, ev@, n) == handler_positions(methods@, ev@, i as int) + Seq::new(
                count_in(events_of(methods@[i as int]), ev@),
                |_k: int| (n - 1) as usize,
            ));
            assert(Seq::new(count_in(events_of(methods@[i as int]), ev@), |_k: int| (n - 1) as usize) =~= Seq::new(
                count_in(events_of(methods@[i as int]), ev@),
                |_k: int| i,
            ));
        }
        i = i + 1;
    }
    out
}

} // verus!
