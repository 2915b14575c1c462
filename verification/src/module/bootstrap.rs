//! Module bootstrap parameters: the module id, the node's socket and the
//! data directory, given by the node through the environment, or
//! defaults for standalone runs.

use vstd::prelude::*;

use crate::text::{concat_str, string_of};

verus! {

/// Bootstrap parameters for a module.
#[derive(Clone, Debug)]
pub struct ModuleBootstrap {
    pub module_id: String,
    pub socket_path: String,
    pub data_dir: String,
}

impl ModuleBootstrap {
    /// The parameters that the environment gave, or the defaults given
    /// here when it gave none.
    pub fn from_env_or_defaults(
        from_env: Option<ModuleBootstrap>,
        module_id: String,
        socket_path: String,
        data_dir: String,
    ) -> (r: Self)
        ensures
            from_env matches Some(b) ==> r == b,
            from_env is None ==> r == (ModuleBootstrap { module_id, socket_path, data_dir }),
    {
        match from_env {
            Some(b) => b,
            None => ModuleBootstrap { module_id, socket_path, data_dir },
        }
    }

    /// The parameters that the environment gave, or defaults derived from
    /// the module name: `data/modules/{name}.sock` and
    /// `data/modules/{name}`.
    pub fn for_module(from_env: Option<ModuleBootstrap>, module_name: &str) -> (r: Self)
        ensures
            from_env matches Some(b) ==> r == b,
            from_env is None ==> r.module_id@ == module_name@,
            from_env is None ==> r.socket_path@ == "data/modules/"@ + module_name@ + ".sock"@,
            from_env is None ==> r.data_dir@ == "data/modules/"@ + module_name@,
    {
        match from_env {
            Some(b) => b,
            None => {
                let dir = concat_str("data/modules/", module_name);
                let sock = concat_str(dir.as_str(), ".sock");
                ModuleBootstrap {
                    module_id: string_of(module_name),
                    socket_path: sock,
                    data_dir: dir,
                }
            },
        }
    }
}

} // verus!
