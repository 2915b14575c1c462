use blvm_sdk::composition::conversion::NodeModuleError;
use blvm_sdk::module::bootstrap::ModuleBootstrap;
use blvm_sdk::module::cli_args::{coerce_bool, parse_args, ArgMap, CliArgSpec};
use blvm_sdk::module::handles::HandleTable;
use blvm_sdk::module::migrations::{
    parse_backend, pending_migrations, rollback_migrations, schema_version, BackendChoice,
};
use blvm_sdk::module::storage::{ModuleStorage, ModuleStorageDatabaseBridge, ModuleTree};
use blvm_sdk::module::wasm_results::{
    cli_spec_of, export_region, invoke_cli_result, invoke_rpc_result, ArgFields, CliOutput,
    CliResultFields, CliSpecFields, SubcommandFields,
};
use blvm_sdk::module::wasm_host::{
    fits_buffer, log_level, LogLevel, WasmHostContext, WasmStorage, WasmTree,
};
use std::cell::RefCell;
use std::collections::HashMap;
use std::rc::Rc;

fn spec(name: &str, long: Option<&str>, short: Option<&str>) -> CliArgSpec {
    CliArgSpec {
        name: name.to_string(),
        long_name: long.map(|s| s.to_string()),
        short_name: short.map(|s| s.to_string()),
        required: None,
        takes_value: None,
        default: None,
    }
}

fn args(a: &[&str]) -> Vec<String> {
    a.iter().map(|s| s.to_string()).collect()
}

#[test]
fn parse_named_arguments() {
    let specs = vec![spec("key", None, Some("k")), spec("value", Some("val"), None), spec("count", None, None)];
    let map = parse_args(&args(&["--key", "foo", "--val", "bar", "-c", "2", "--verbose"]), &specs).unwrap();
    assert_eq!(map.get("key"), Some("foo".to_string()));
    assert_eq!(map.get("value"), Some("bar".to_string()));
    assert_eq!(map.get("count"), Some("2".to_string()));
    assert_eq!(map.get("verbose"), Some("true".to_string()));
    assert_eq!(map.get("missing"), None);
    let map = parse_args(&args(&["-k", "--value", "x", "-k", "y"]), &specs).unwrap();
    assert_eq!(map.get("key"), Some("y".to_string()));
    assert_eq!(map.get("value"), Some("x".to_string()));
}

#[test]
fn parse_positional_arguments() {
    let specs = vec![spec("key", None, None), spec("value", None, None)];
    let map = parse_args(&args(&["x", "y", "z"]), &specs).unwrap();
    assert_eq!(map.get("key"), Some("x".to_string()));
    assert_eq!(map.get("value"), Some("y".to_string()));
    let map = parse_args(&args(&["x", "-5"]), &specs).unwrap();
    assert_eq!(map.get("value"), Some("-5".to_string()));
    let map = parse_args(&args(&["x"]), &specs).unwrap();
    assert!(!map.contains_key("value"));
}

#[test]
fn arg_map_insertions() {
    let mut m = ArgMap::new();
    m.insert("a".to_string(), "1".to_string());
    m.insert("a".to_string(), "2".to_string());
    assert_eq!(m.get("a"), Some("2".to_string()));
    assert_eq!(m.insertions().len(), 2);
}

#[test]
fn coerce_bool_words() {
    for w in ["true", "TRUE", "1", "Yes", "on"] {
        assert_eq!(coerce_bool(w).unwrap(), true);
    }
    for w in ["false", "0", "NO", "Off"] {
        assert_eq!(coerce_bool(w).unwrap(), false);
    }
    assert_eq!(coerce_bool("Maybe"), Err(NodeModuleError::Other("invalid bool: maybe".to_string())));
}

#[test]
fn bootstrap_defaults() {
    let b = ModuleBootstrap::for_module(None, "demo");
    assert_eq!(b.module_id, "demo");
    assert_eq!(b.socket_path, "data/modules/demo.sock");
    assert_eq!(b.data_dir, "data/modules/demo");
    let env = ModuleBootstrap { module_id: "m".to_string(), socket_path: "s".to_string(), data_dir: "d".to_string() };
    assert_eq!(ModuleBootstrap::for_module(Some(env.clone()), "demo").module_id, "m");
    let d = ModuleBootstrap::from_env_or_defaults(None, "x".to_string(), "y".to_string(), "z".to_string());
    assert_eq!((d.module_id.as_str(), d.socket_path.as_str(), d.data_dir.as_str()), ("x", "y", "z"));
    assert_eq!(
        ModuleBootstrap::from_env_or_defaults(Some(env), "x".to_string(), "y".to_string(), "z".to_string())
            .data_dir,
        "d"
    );
}

#[test]
fn migration_plans() {
    let versions = [3u32, 1, 2, 2, 5];
    assert_eq!(pending_migrations(&versions, 1), vec![2, 3, 0, 4]);
    assert_eq!(pending_migrations(&versions, 5), Vec::<usize>::new());
    let downs = [true, true, true, false, true];
    // version 2 at position 3 has no down step: the rollback is refused
    assert_eq!(rollback_migrations(&versions, &downs, 5, 1), Err(2));
    assert_eq!(rollback_migrations(&versions, &downs, 5, 2), Ok(Some(vec![4, 0])));
    let all_down = [true; 5];
    assert_eq!(rollback_migrations(&versions, &all_down, 5, 1), Ok(Some(vec![4, 0, 2, 3])));
    assert_eq!(rollback_migrations(&versions, &downs, 1, 1), Ok(None));
    let two_missing = [false, true, true, false, true];
    assert_eq!(rollback_migrations(&versions, &two_missing, 5, 0), Err(3));
    assert_eq!(schema_version(Some(b"12")), 12);
    assert_eq!(schema_version(Some(b"x")), 0);
    assert_eq!(schema_version(Some(&[0xff, 0xfe])), 0);
    assert_eq!(schema_version(None), 0);
    assert_eq!(parse_backend("RocksDB"), BackendChoice::RocksDB);
    assert_eq!(parse_backend("auto"), BackendChoice::Auto);
    assert_eq!(parse_backend("unknown"), BackendChoice::Redb);
}

#[test]
fn handle_table_operations() {
    let mut t: HandleTable<&str> = HandleTable::new();
    t.insert_fresh(1, "a");
    t.insert_fresh(2, "b");
    assert_eq!(t.get(1), Some(&"a"));
    t.set(1, "c");
    assert_eq!(t.get(1), Some(&"c"));
    t.remove(1);
    assert!(!t.contains(1));
    assert!(t.contains(2));
}

#[derive(Clone)]
struct MemTree(Rc<RefCell<Vec<(Vec<u8>, Vec<u8>)>>>);

impl WasmTree for MemTree {
    fn insert(&self, key: &[u8], value: &[u8]) -> Result<(), String> {
        self.0.borrow_mut().push((key.to_vec(), value.to_vec()));
        Ok(())
    }
    fn get(&self, key: &[u8]) -> Result<Option<Vec<u8>>, String> {
        Ok(self.0.borrow().iter().rev().find(|(k, _)| k == key).map(|(_, v)| v.clone()))
    }
    fn remove(&self, key: &[u8]) -> Result<(), String> {
        self.0.borrow_mut().retain(|(k, _)| k != key);
        Ok(())
    }
    fn scan(&self) -> Result<Vec<(Vec<u8>, Vec<u8>)>, String> {
        Ok(self.0.borrow().clone())
    }
}

struct MemStorage(MemTree);

impl WasmStorage for MemStorage {
    type Tree = MemTree;
    fn open_tree(&self, name: &str) -> Result<MemTree, String> {
        if name == "missing" {
            Err("no such tree".to_string())
        } else {
            Ok(self.0.clone())
        }
    }
}

#[test]
fn wasm_host_handles() {
    let tree = MemTree(Rc::new(RefCell::new(vec![(vec![1], vec![10]), (vec![2], vec![20])])));
    let mut ctx = WasmHostContext::new(MemStorage(tree), HashMap::new());
    assert_eq!(ctx.open_tree("missing"), Err("no such tree".to_string()));
    let t = ctx.open_tree("items").unwrap();
    assert_eq!(t, 1);
    assert_eq!(ctx.open_tree("other").unwrap(), 2);
    assert!(ctx.get_tree(t).is_ok());
    assert_eq!(ctx.get_tree(-3).err(), Some("Unknown tree_id -3".to_string()));
    let it = ctx.iter_open(t).unwrap();
    assert_eq!(it, 1);
    assert_eq!(ctx.iter_next(it).unwrap(), Some((vec![1], vec![10])));
    assert_eq!(ctx.iter_next(it).unwrap(), Some((vec![2], vec![20])));
    assert_eq!(ctx.iter_next(it).unwrap(), None);
    ctx.iter_close(it);
    assert_eq!(ctx.iter_next(it), Err("Unknown iter_handle 1".to_string()));
    assert_eq!(ctx.iter_open(99), Err("Unknown tree_id 99".to_string()));
}

#[test]
fn wasm_iteration_is_a_snapshot() {
    let tree = MemTree(Rc::new(RefCell::new(vec![(vec![1], vec![10])])));
    let mut ctx = WasmHostContext::new(MemStorage(tree), HashMap::new());
    assert_eq!(ctx.open_tree("missing"), Err("no such tree".to_string()));
    let t = ctx.open_tree("a").unwrap();
    assert_eq!(ctx.open_tree("missing"), Err("no such tree".to_string()));
    assert_eq!(ctx.open_tree("b").unwrap(), 2);
    let it = ctx.iter_open(t).unwrap();
    assert_eq!(ctx.host_put(t, &[5], &[50]), 0);
    assert_eq!(ctx.iter_next(it).unwrap(), Some((vec![1], vec![10])));
    assert_eq!(ctx.iter_next(it).unwrap(), None);
    assert_eq!(ctx.iter_next(it).unwrap(), None);
    ctx.iter_close(it);
    assert_eq!(ctx.iter_next(it), Err("Unknown iter_handle 1".to_string()));
}

#[test]
fn wasm_host_calls() {
    let tree = MemTree(Rc::new(RefCell::new(vec![(vec![1], vec![10, 11])])));
    let mut ctx = WasmHostContext::new(MemStorage(tree), HashMap::new());
    assert_eq!(ctx.host_open_tree(None), -1);
    assert_eq!(ctx.host_open_tree(Some("missing")), -1);
    let t = ctx.host_open_tree(Some("items"));
    assert_eq!(t, 1);
    assert_eq!(ctx.host_put(t, &[2], &[20]), 0);
    assert_eq!(ctx.host_put(7, &[2], &[20]), -1);
    assert_eq!(ctx.host_get(t, &[1], 8), (2, Some(vec![10, 11])));
    assert_eq!(ctx.host_get(t, &[1], 1), (-1, None));
    assert_eq!(ctx.host_get(t, &[1], -1), (2, Some(vec![10, 11])));
    assert_eq!(ctx.host_get(t, &[9], 8), (-1, None));
    assert_eq!(ctx.host_get(5, &[1], 8), (-1, None));
    let it = ctx.host_iter_open(t);
    assert_eq!(it, 1);
    assert_eq!(ctx.host_iter_open(42), -1);
    assert_eq!(ctx.host_iter_next(it, 4, 1), (-1, None));
    assert_eq!(ctx.host_iter_next(it, 4, 4), (1, Some((vec![2], vec![20]))));
    assert_eq!(ctx.host_iter_next(it, 4, 4), (0, None));
    assert_eq!(ctx.host_iter_next(8, 4, 4), (-1, None));
    assert_eq!(ctx.host_remove(t, &[1]), 0);
    assert_eq!(ctx.host_get(t, &[1], 8), (-1, None));
    assert_eq!(ctx.host_remove(3, &[1]), -1);
}

#[test]
fn wasm_log_levels_and_buffers() {
    assert_eq!(log_level(0, 5), Some(LogLevel::Trace));
    assert_eq!(log_level(1, 5), Some(LogLevel::Debug));
    assert_eq!(log_level(2, 5), Some(LogLevel::Info));
    assert_eq!(log_level(3, 5), Some(LogLevel::Warn));
    assert_eq!(log_level(9, 5), Some(LogLevel::Error));
    assert_eq!(log_level(-4, 5), Some(LogLevel::Error));
    assert_eq!(log_level(2, 0), None);
    assert!(fits_buffer(3, 3));
    assert!(!fits_buffer(2, 3));
    assert!(fits_buffer(-1, 3));
}

#[derive(Clone)]
struct LogTree(Rc<RefCell<Vec<String>>>);

impl ModuleTree for LogTree {
    fn insert(&self, key: &[u8], value: &[u8]) -> anyhow::Result<()> {
        self.0.borrow_mut().push(format!("put {:?}={:?}", key, value));
        Ok(())
    }
    fn get(&self, _key: &[u8]) -> anyhow::Result<Option<Vec<u8>>> {
        Ok(None)
    }
    fn remove(&self, key: &[u8]) -> anyhow::Result<()> {
        self.0.borrow_mut().push(format!("del {:?}", key));
        Ok(())
    }
    fn entries(&self) -> anyhow::Result<Vec<(Vec<u8>, Vec<u8>)>> {
        Ok(vec![(vec![7], vec![8])])
    }
}

struct LogStorage(LogTree);

impl ModuleStorage for LogStorage {
    type Tree = LogTree;
    fn open_tree(&self, _name: &str) -> anyhow::Result<LogTree> {
        Ok(self.0.clone())
    }
}

#[test]
fn storage_batches_apply_deletes_then_puts() {
    let log = Rc::new(RefCell::new(Vec::new()));
    let bridge = ModuleStorageDatabaseBridge::new(LogStorage(LogTree(log.clone())));
    let tree = bridge.open_tree("t").unwrap();
    assert_eq!(tree.len().unwrap(), 1);
    assert!(!tree.contains_key(&[1]).unwrap());
    let mut batch = tree.batch();
    batch.put(&[1], &[2]);
    batch.delete(&[3]);
    batch.put(&[3], &[4]);
    batch.delete(&[1]);
    assert_eq!(batch.len(), 2);
    batch.commit().unwrap();
    assert_eq!(*log.borrow(), vec!["del [1]".to_string(), "put [3]=[4]".to_string()]);
    assert!(bridge.flush().is_ok());
}

#[test]
fn wasm_export_regions() {
    assert_eq!(export_region("cli_spec", 100, 10, 0), Ok(None));
    assert_eq!(export_region("cli_spec", 100, 10, 90), Ok(Some((10, 100))));
    assert_eq!(
        export_region("cli_spec", 100, 10, 91),
        Err("Export 'cli_spec' returned invalid ptr/len".to_string())
    );
}

#[test]
fn wasm_command_results() {
    let fields = CliResultFields { stdout: Some("ok\n".to_string()), stderr: None, exit_code: None };
    assert_eq!(
        invoke_cli_result(Ok("{}".to_string()), Ok(fields)).unwrap(),
        CliOutput { stdout: "ok\n".to_string(), stderr: String::new(), exit_code: 1 }
    );
    let fields = CliResultFields { stdout: None, stderr: Some("bad".to_string()), exit_code: Some(4294967298) };
    assert_eq!(invoke_cli_result(Ok(String::new()), Ok(fields)).unwrap().exit_code, 2);
    match invoke_cli_result(Err("trap".to_string()), Err("unused".to_string())) {
        Err(NodeModuleError::OperationError(m)) => assert_eq!(m, "WASM dispatch_cli failed: trap"),
        other => panic!("unexpected {:?}", other),
    }
    match invoke_cli_result(Ok("x".to_string()), Err("expected value".to_string())) {
        Err(NodeModuleError::OperationError(m)) => {
            assert_eq!(m, "WASM returned invalid CLI result JSON: expected value")
        }
        other => panic!("unexpected {:?}", other),
    }
    assert_eq!(invoke_rpc_result(Ok("7".to_string()), Ok(7u8)).unwrap(), 7);
    match invoke_rpc_result::<u8>(Err("gone".to_string()), Ok(1)) {
        Err(NodeModuleError::OperationError(m)) => assert_eq!(m, "WASM dispatch_rpc failed: gone"),
        other => panic!("unexpected {:?}", other),
    }
    match invoke_rpc_result::<u8>(Ok("?".to_string()), Err("eof".to_string())) {
        Err(NodeModuleError::OperationError(m)) => {
            assert_eq!(m, "WASM returned invalid RPC result JSON: eof")
        }
        other => panic!("unexpected {:?}", other),
    }
}

#[test]
fn wasm_cli_descriptions() {
    let arg = |name: Option<&str>| ArgFields {
        name: name.map(String::from),
        long_name: Some("long".to_string()),
        short_name: None,
        required: Some(true),
        takes_value: None,
        default: None,
    };
    let fields = CliSpecFields {
        name: None,
        version: Some(4294967297),
        about: Some("demo".to_string()),
        subcommands: Some(vec![
            Some(SubcommandFields {
                name: Some("run".to_string()),
                about: None,
                args: Some(vec![Some(arg(Some("job"))), None, Some(arg(None))]),
            }),
            None,
            Some(SubcommandFields { name: None, about: None, args: None }),
            Some(SubcommandFields { name: Some("stop".to_string()), about: Some("Stop".to_string()), args: None }),
        ]),
    };
    assert!(cli_spec_of(None, Some("m".to_string())).is_none());
    assert!(cli_spec_of(Some(fields.clone()), None).is_none());
    let spec = cli_spec_of(Some(fields), Some("wasm-mod".to_string())).unwrap();
    assert_eq!(spec.name, "wasm-mod");
    assert_eq!(spec.version, 1);
    assert_eq!(spec.about, Some("demo".to_string()));
    assert_eq!(spec.subcommands.len(), 2);
    assert_eq!(spec.subcommands[0].name, "run");
    assert_eq!(spec.subcommands[0].args.len(), 1);
    assert_eq!(spec.subcommands[0].args[0].name, "job");
    assert_eq!(spec.subcommands[0].args[0].long_name, Some("long".to_string()));
    assert_eq!(spec.subcommands[0].args[0].required, Some(true));
    assert_eq!(spec.subcommands[1].name, "stop");
    assert!(spec.subcommands[1].args.is_empty());
    let named = CliSpecFields { name: Some("own".to_string()), version: None, about: None, subcommands: None };
    let spec = cli_spec_of(Some(named), None).unwrap();
    assert_eq!(spec.name, "own");
    assert_eq!(spec.version, 1);
    assert!(spec.subcommands.is_empty());
}
