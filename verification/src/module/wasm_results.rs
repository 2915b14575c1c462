//! What the host makes of what a WASM module hands back: the memory
//! region of a returned string, the output of a command, the result of an
//! RPC call, and the module's command-line description. Calling into the
//! module and reading its JSON is the embedder's part; the fields read are
//! handed in here.

use vstd::prelude::*;

use crate::composition::conversion::NodeModuleError;
use crate::module::cli_args::{CliArgSpec, CliSpec, CliSubcommandSpec};
use crate::text::concat_str;

verus! {

/// The error for a returned string outside the module's memory.
pub open spec fn invalid_region_message(export: Seq<char>) -> Seq<char> {
    "Export '"@ + export + "' returned invalid ptr/len"@
}

/// Where in memory of `data_len` bytes a string that an export returned
/// at `ptr` with `len` bytes lies: nothing for an empty one, the range
/// from `ptr` to `ptr + len` where it ends within memory, an error naming
/// the export otherwise.
pub fn export_region(export: &str, data_len: usize, ptr: u32, len: u32) -> (r: Result<Option<(usize, usize)>, String>)
    requires
        ptr + len <= u32::MAX,
    ensures
        len == 0 ==> r == Ok::<Option<(usize, usize)>, String>(None),
        len > 0 && ptr + len > data_len ==> (r matches Err(m) && m@ == invalid_region_message(export@)),
        len > 0 && ptr + len <= data_len ==> r == Ok::<Option<(usize, usize)>, String>(
            Some((ptr as usize, (ptr + len) as usize)),
        ),
{
    if len == 0 {
        return Ok(None);
    }
    let end: u32 = ptr + len;
    if (end as usize) > data_len {
        let a = concat_str("Export '", export);
        return Err(concat_str(a.as_str(), "' returned invalid ptr/len"));
    }
    Ok(Some((ptr as usize, end as usize)))
}

/// The output of a module's command.
#[derive(Debug, Clone, PartialEq, Eq)]
pub struct CliOutput {
    pub stdout: String,
    pub stderr: String,
    pub exit_code: i32,
}

/// The fields of the JSON object that a module's command dispatch
/// returned, each where present with the expected JSON type.
#[derive(Debug, Clone)]
pub struct CliResultFields {
    pub stdout: Option<String>,
    pub stderr: Option<String>,
    pub exit_code: Option<i64>,
}

/// A present string, or the empty one.
fn text_or_empty(s: Option<String>) -> (r: String)
    ensures
        s matches Some(t) ==> r == t,
        s is None ==> r@ == Seq::<char>::empty(),
{
    match s {
        Some(t) => t,
        None => String::new(),
    }
}

/// The output that the fields of a command result give: the standard
/// output and error, empty where missing, and the exit code, 1 where
/// missing, cut to 32 bits.
pub open spec fn out_of_fields(f: CliResultFields, out: CliOutput) -> bool {
    &&& out.stdout@ == match f.stdout {
        Some(s) => s@,
        None => Seq::empty(),
    }
    &&& out.stderr@ == match f.stderr {
        Some(s) => s@,
        None => Seq::empty(),
    }
    &&& out.exit_code == (match f.exit_code {
        Some(c) => c,
        None => 1i64,
    }) as i32
}

/// The output of a command: the dispatch's failure, with its text, as an
/// operation error; JSON that could not be read, with the reader's text,
/// likewise; else the standard output and error, empty where missing, and
/// the exit code, 1 where missing, cut to 32 bits.
pub fn invoke_cli_result(
    dispatched: Result<String, String>,
    read: Result<CliResultFields, String>,
) -> (r: Result<CliOutput, NodeModuleError>)
    ensures
        dispatched matches Err(e) ==> (r matches Err(NodeModuleError::OperationError(m)) && m@
            == "WASM dispatch_cli failed: "@ + e@),
        dispatched is Ok ==> match read {
            Err(e) => r matches Err(NodeModuleError::OperationError(m)) && m@
                == "WASM returned invalid CLI result JSON: "@ + e@,
            Ok(f) => r matches Ok(out) && out_of_fields(f, out),
        },
{
    match dispatched {
        Err(e) => Err(NodeModuleError::OperationError(concat_str("WASM dispatch_cli failed: ", e.as_str()))),
        Ok(_) => match read {
            Err(e) => Err(
                NodeModuleError::OperationError(concat_str("WASM returned invalid CLI result JSON: ", e.as_str())),
            ),
            Ok(f) => {
                let code: i64 = match f.exit_code {
                    Some(c) => c,
                    None => 1,
                };
                Ok(CliOutput { stdout: text_or_empty(f.stdout), stderr: text_or_empty(f.stderr), exit_code: code as i32 })
            },
        },
    }
}

/// The result of an RPC call: the dispatch's failure, with its text, as an
/// operation error; JSON that could not be read, with the reader's text,
/// likewise; else the value read.
pub fn invoke_rpc_result<V>(dispatched: Result<String, String>, read: Result<V, String>) -> (r: Result<V, NodeModuleError>)
    ensures
        dispatched matches Err(e) ==> (r matches Err(NodeModuleError::OperationError(m)) && m@
            == "WASM dispatch_rpc failed: "@ + e@),
        dispatched is Ok ==> match read {
            Err(e) => r matches Err(NodeModuleError::OperationError(m)) && m@
                == "WASM returned invalid RPC result JSON: "@ + e@,
            Ok(v) => r == Ok::<V, NodeModuleError>(v),
        },
{
    match dispatched {
        Err(e) => Err(NodeModuleError::OperationError(concat_str("WASM dispatch_rpc failed: ", e.as_str()))),
        Ok(_) => match read {
            Err(e) => Err(
                NodeModuleError::OperationError(concat_str("WASM returned invalid RPC result JSON: ", e.as_str())),
            ),
            Ok(v) => Ok(v),
        },
    }
}

/// The fields of an argument object of a command-line description.
#[derive(Debug, Clone)]
pub struct ArgFields {
    pub name: Option<String>,
    pub long_name: Option<String>,
    pub short_name: Option<String>,
    pub required: Option<bool>,
    pub takes_value: Option<bool>,
    pub default: Option<String>,
}

/// The fields of a subcommand object: its arguments, each `None` where it
/// is no object, and none at all where there is no array of them.
#[derive(Debug, Clone)]
pub struct SubcommandFields {
    pub name: Option<String>,
    pub about: Option<String>,
    pub args: Option<Vec<Option<ArgFields>>>,
}

/// The fields of a command-line description object.
#[derive(Debug, Clone)]
pub struct CliSpecFields {
    pub name: Option<String>,
    pub version: Option<u64>,
    pub about: Option<String>,
    pub subcommands: Option<Vec<Option<SubcommandFields>>>,
}

/// The argument description of an argument object that has a name.
pub open spec fn arg_from_fields(f: ArgFields, a: CliArgSpec) -> bool {
    &&& f.name == Some(a.name)
    &&& a.long_name == f.long_name
    &&& a.short_name == f.short_name
    &&& a.required == f.required
    &&& a.takes_value == f.takes_value
    &&& a.default == f.default
}

/// The argument objects among the first `n` entries that have a name.
pub open spec fn named_args(entries: Seq<Option<ArgFields>>, n: int) -> Seq<ArgFields>
    decreases n,
{
    if n <= 0 {
        Seq::empty()
    } else {
        match entries[n - 1] {
            Some(f) => if f.name is Some {
                named_args(entries, n - 1).push(f)
            } else {
                named_args(entries, n - 1)
            },
            None => named_args(entries, n - 1),
        }
    }
}

/// The argument descriptions of a subcommand object: one for each of its
/// argument objects with a name, in order.
pub open spec fn args_from_fields(args: Option<Vec<Option<ArgFields>>>, out: Seq<CliArgSpec>) -> bool {
    match args {
        Some(v) => {
            let sel = named_args(v@, v@.len() as int);
            out.len() == sel.len() && forall|i: int| 0 <= i < sel.len() ==> arg_from_fields(sel[i], #[trigger] out[i])
        },
        None => out.len() == 0,
    }
}

/// The subcommand objects among the first `n` entries that have a name.
pub open spec fn named_subcommands(entries: Seq<Option<SubcommandFields>>, n: int) -> Seq<SubcommandFields>
    decreases n,
{
    if n <= 0 {
        Seq::empty()
    } else {
        match entries[n - 1] {
            Some(f) => if f.name is Some {
                named_subcommands(entries, n - 1).push(f)
            } else {
                named_subcommands(entries, n - 1)
            },
            None => named_subcommands(entries, n - 1),
        }
    }
}

/// The subcommand description of a subcommand object with a name.
pub open spec fn subcommand_from_fields(f: SubcommandFields, s: CliSubcommandSpec) -> bool {
    &&& f.name == Some(s.name)
    &&& s.about == f.about
    &&& args_from_fields(f.args, s.args@)
}

/// A copy of an optional string.
fn copy_opt_text(o: &Option<String>) -> (r: Option<String>)
    ensures
        r == *o,
{
    match o {
        Some(s) => Some(s.clone()),
        None => None,
    }
}

/// The argument descriptions of a subcommand object.
fn args_of_fields(args: &Option<Vec<Option<ArgFields>>>) -> (r: Vec<CliArgSpec>)
    ensures
        args_from_fields(*args, r@),
{
    let mut out: Vec<CliArgSpec> = Vec::new();
    match args {
        None => out,
        Some(v) => {
            let mut i: usize = 0;
            while i < v.len()
                invariant
                    i <= v@.len(),
                    out@.len() == named_args(v@, i as int).len(),
                    forall|k: int|
                        0 <= k < out@.len() ==> arg_from_fields(named_args(v@, i as int)[k], #[trigger] out@[k]),
                decreases v@.len() - i,
            {
                match &v[i] {
                    Some(f) => match &f.name {
                        Some(n) => {
                            out.push(
                                CliArgSpec {
                                    name: n.clone(),
                                    long_name: copy_opt_text(&f.long_name),
                                    short_name: copy_opt_text(&f.short_name),
                                    required: f.required,
                                    takes_value: f.takes_value,
                                    default: copy_opt_text(&f.default),
                                },
                            );
                        },
                        None => {},
                    },
                    None => {},
                }
                i = i + 1;
            }
            out
        },
    }
}

/// The command-line description that a module returned: none where it
/// gave no object, or neither it nor the module's own name (the fallback,
/// asked for only where the object has no name) gives a name; else its
/// name, its version (1 where missing, cut to 32 bits), what it is about,
/// and a subcommand for each subcommand object with a name, in order.
pub fn cli_spec_of(fields: Option<CliSpecFields>, fallback_name: Option<String>) -> (r: Option<CliSpec>)
    ensures
        fields is None ==> r is None,
        fields matches Some(f) ==> (f.name is None && fallback_name is None ==> r is None),
        fields matches Some(f) ==> (f.name is Some || fallback_name is Some ==> (r matches Some(spec) && spec.name == (
        match f.name {
            Some(n) => n,
            None => fallback_name->0,
        }) && spec.version == (
        match f.version {
            Some(v) => v,
            None => 1u64,
        }) as u32 && spec.about == f.about && (match f.subcommands {
            Some(v) => {
                let sel = named_subcommands(v@, v@.len() as int);
                spec.subcommands@.len() == sel.len() && forall|i: int|
                    0 <= i < sel.len() ==> subcommand_from_fields(sel[i], #[trigger] spec.subcommands@[i])
            },
            None => spec.subcommands@.len() == 0,
        }))),
{
    let f = match fields {
        Some(f) => f,
        None => {
            return None;
        },
    };
    let name = match f.name {
        Some(n) => n,
        None => match fallback_name {
            Some(n) => n,
            None => {
                return None;
            },
        },
    };
    let version: u64 = match f.version {
        Some(v) => v,
        None => 1,
    };
    let mut subs: Vec<CliSubcommandSpec> = Vec::new();
    match &f.subcommands {
        None => {},
        Some(v) => {
            let mut i: usize = 0;
            while i < v.len()
                invariant
                    i <= v@.len(),
                    subs@.len() == named_subcommands(v@, i as int).len(),
                    forall|k: int|
                        0 <= k < subs@.len() ==> subcommand_from_fields(
                            named_subcommands(v@, i as int)[k],
                            #[trigger] subs@[k],
                        ),
                decreases v@.len() - i,
            {
                match &v[i] {
                    Some(s) => match &s.name {
                        Some(n) => {
                            subs.push(
                                CliSubcommandSpec {
                                    name: n.clone(),
                                    about: copy_opt_text(&s.about),
                                    args: args_of_fields(&s.args),
                                },
                            );
                        },
                        None => {},
                    },
                    None => {},
                }
                i = i + 1;
            }
        },
    }
    Some(CliSpec { version: version as u32, name, about: f.about, subcommands: subs })
}

} // verus!
