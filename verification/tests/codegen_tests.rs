use blvm_sdk::codegen::config_env::{config_env_var, env_flag, env_list, override_kind, OverrideKind};
use blvm_sdk::codegen::module_plan::{
    about_of, cli_methods, cli_name_for_type, dispatch_arms, impl_cli_spec, impl_dispatch_arms, dispatch_target, event_handlers, event_types, handler_call,
    module_cli_spec, required_argument, rpc_method_names, rpc_target, CallArg, DispatchArm,
    HandlerCall, HandlerInput, HandlerMethod, ParamInfo,
};
use blvm_sdk::composition::conversion::NodeModuleError;
use blvm_sdk::module::cli_args::parse_args;
use std::collections::BTreeMap;
use blvm_sdk::codegen::event_payload_map::payload_fields_for_event;
use blvm_sdk::codegen::naming::{derive_module_name, to_kebab_case, to_title_case};

#[test]
fn kebab_case_names() {
    assert_eq!(to_kebab_case("MyCommand"), "my-command");
    assert_eq!(to_kebab_case("set_value"), "set-value");
    assert_eq!(to_kebab_case("list"), "list");
    assert_eq!(to_kebab_case(""), "");
}

#[test]
fn title_case_names() {
    assert_eq!(to_title_case("my_command"), "My Command");
    assert_eq!(to_title_case("SetValue"), "Set Value");
    assert_eq!(to_title_case("a__b"), "A  B");
}

#[test]
fn module_names_from_types() {
    assert_eq!(derive_module_name("DemoModule"), "demo");
    assert_eq!(derive_module_name("SyncPolicy"), "sync-policy");
    assert_eq!(derive_module_name("Module"), "");
    assert_eq!(derive_module_name("Hello_World"), "hello--world");
}

#[test]
fn payload_fields_by_event() {
    assert_eq!(
        payload_fields_for_event("NewBlock"),
        Some(vec![("block_hash", false), ("height", true)])
    );
    assert_eq!(payload_fields_for_event("MempoolCleared"), Some(vec![("cleared_count", true)]));
    assert_eq!(
        payload_fields_for_event("PeerConnected"),
        Some(vec![
            ("peer_addr", false),
            ("transport_type", false),
            ("services", true),
            ("version", true)
        ])
    );
    assert_eq!(payload_fields_for_event("Unknown"), None);
    assert_eq!(payload_fields_for_event("newblock"), None);
}

fn param(name: &str) -> HandlerInput {
    HandlerInput::Typed(ParamInfo {
        name: Some(name.to_string()),
        is_context: false,
        is_option: false,
        is_event_ref: false,
        long: None,
        short: None,
        default: None,
    })
}

fn context_param() -> HandlerInput {
    HandlerInput::Typed(ParamInfo {
        name: Some("ctx".to_string()),
        is_context: true,
        is_option: false,
        is_event_ref: false,
        long: None,
        short: None,
        default: None,
    })
}

fn event_param() -> HandlerInput {
    HandlerInput::Typed(ParamInfo {
        name: Some("event".to_string()),
        is_context: false,
        is_option: false,
        is_event_ref: true,
        long: None,
        short: None,
        default: None,
    })
}

fn method(name: &str, inputs: Vec<HandlerInput>) -> HandlerMethod {
    HandlerMethod {
        name: name.to_string(),
        inputs,
        doc: vec![],
        command_attr: false,
        rpc_attr: false,
        rpc_name: None,
        on_event: None,
    }
}

fn command(name: &str, params: &[&str]) -> HandlerMethod {
    let mut inputs = vec![HandlerInput::Receiver, context_param()];
    inputs.extend(params.iter().map(|p| param(p)));
    HandlerMethod { command_attr: true, ..method(name, inputs) }
}

fn handler(name: &str, events: &[&str], inputs: Vec<HandlerInput>) -> HandlerMethod {
    HandlerMethod {
        on_event: Some(events.iter().map(|e| e.to_string()).collect()),
        ..method(name, inputs)
    }
}

/// The command methods of the key-value test module: set, get, list, delete.
fn test_cli_methods() -> Vec<HandlerMethod> {
    vec![
        command("set", &["key", "value"]),
        command("get", &["key"]),
        command("list", &[]),
        command("delete", &["key"]),
    ]
}

/// Run a command of the key-value test module through the dispatch plan.
fn dispatch(
    arms: &Vec<DispatchArm>,
    store: &mut BTreeMap<String, String>,
    subcommand: &str,
    args: &[String],
) -> Result<String, NodeModuleError> {
    let arm = &arms[dispatch_target(arms, subcommand)?];
    let map = parse_args(args, &arm.args)?;
    match arm.method.as_str() {
        "set" => {
            let key = required_argument(&map, "key")?;
            let value = required_argument(&map, "value")?;
            store.insert(key.clone(), value.clone());
            Ok(format!("Set {}={}\n", key, value))
        }
        "get" => {
            let key = required_argument(&map, "key")?;
            let value = store.get(&key).cloned().unwrap_or_else(|| "<not found>".into());
            Ok(format!("{}={}\n", key, value))
        }
        "list" => {
            let items: Vec<String> = store.iter().map(|(k, v)| format!("{}={}", k, v)).collect();
            Ok(if items.is_empty() { "(empty)\n".into() } else { items.join("\n") + "\n" })
        }
        "delete" => {
            let key = required_argument(&map, "key")?;
            store.remove(&key);
            Ok(format!("Deleted {}\n", key))
        }
        other => panic!("no handler {}", other),
    }
}

#[test]
fn test_cli_spec_has_subcommands() {
    let spec = module_cli_spec("test-cli", &test_cli_methods()).unwrap();
    assert_eq!(spec.name, "test-cli");
    assert_eq!(spec.version, 1);
    let sub_names: Vec<&str> = spec.subcommands.iter().map(|s| s.name.as_str()).collect();
    assert!(sub_names.contains(&"set"), "got: {:?}", sub_names);
    assert!(sub_names.contains(&"get"), "got: {:?}", sub_names);
    assert!(sub_names.contains(&"list"), "got: {:?}", sub_names);
    assert!(sub_names.contains(&"delete"), "got: {:?}", sub_names);
    assert_eq!(sub_names.len(), 4, "got: {:?}", sub_names);
}

#[test]
fn test_dispatch_cli_set_get_list_delete() {
    let arms = dispatch_arms(&test_cli_methods()).unwrap();
    let mut store = BTreeMap::new();
    let args = |a: &[&str]| a.iter().map(|s| s.to_string()).collect::<Vec<String>>();

    let out = dispatch(&arms, &mut store, "set", &args(&["--key", "foo", "--value", "bar"])).unwrap();
    assert!(out.contains("Set foo=bar"), "set output: {}", out);
    let out = dispatch(&arms, &mut store, "get", &args(&["--key", "foo"])).unwrap();
    assert!(out.contains("foo=bar"), "get output: {}", out);
    let out = dispatch(&arms, &mut store, "list", &[]).unwrap();
    assert!(out.contains("foo=bar"), "list output: {}", out);
    let out = dispatch(&arms, &mut store, "delete", &args(&["--key", "foo"])).unwrap();
    assert!(out.contains("Deleted foo"), "delete output: {}", out);
    let out = dispatch(&arms, &mut store, "get", &args(&["--key", "foo"])).unwrap();
    assert!(out.contains("<not found>"), "get after delete: {}", out);
    match dispatch(&arms, &mut store, "unknown", &[]) {
        Err(NodeModuleError::Other(m)) => assert!(m.contains("Unknown subcommand")),
        other => panic!("unexpected {:?}", other),
    }
}

#[test]
fn test_dispatch_cli_positional_args() {
    let arms = dispatch_arms(&test_cli_methods()).unwrap();
    let mut store = BTreeMap::new();
    let out = dispatch(&arms, &mut store, "set", &["x".to_string(), "y".to_string()]).unwrap();
    assert!(out.contains("Set x=y"), "positional set: {}", out);
    let out = dispatch(&arms, &mut store, "get", &["x".to_string()]).unwrap();
    assert!(out.contains("x=y"), "positional get: {}", out);
}

#[test]
fn test_event_types() {
    let methods = vec![
        handler("on_new_block", &["NewBlock"], vec![HandlerInput::Receiver, event_param()]),
        handler("on_new_tx", &["NewTransaction"], vec![HandlerInput::Receiver, event_param()]),
        handler("on_loaded", &["ModuleLoaded"], vec![HandlerInput::Receiver, event_param()]),
    ];
    let types = event_types(&methods);
    assert!(types.contains(&"NewBlock".to_string()));
    assert!(types.contains(&"NewTransaction".to_string()));
    assert!(types.contains(&"ModuleLoaded".to_string()));
    assert_eq!(types.len(), 3);
}

#[test]
fn argument_descriptions_follow_attributes() {
    let mut m = command("fetch_item", &[]);
    m.inputs.push(HandlerInput::Typed(ParamInfo {
        name: Some("output".to_string()),
        is_context: false,
        is_option: true,
        is_event_ref: false,
        long: Some("out".to_string()),
        short: Some("o".to_string()),
        default: Some("stdout".to_string()),
    }));
    m.inputs.push(HandlerInput::Typed(ParamInfo {
        name: Some("count".to_string()),
        is_context: false,
        is_option: false,
        is_event_ref: false,
        long: Some(String::new()),
        short: None,
        default: None,
    }));
    let spec = module_cli_spec("demo", &vec![m]).unwrap();
    let sub = &spec.subcommands[0];
    assert_eq!(sub.name, "fetch-item");
    assert_eq!(sub.about, Some("Fetch Item".to_string()));
    assert_eq!(sub.args.len(), 2);
    assert_eq!(sub.args[0].name, "output");
    assert_eq!(sub.args[0].long_name, Some("out".to_string()));
    assert_eq!(sub.args[0].short_name, Some("o".to_string()));
    assert_eq!(sub.args[0].required, Some(false));
    assert_eq!(sub.args[0].takes_value, Some(true));
    assert_eq!(sub.args[0].default, Some("stdout".to_string()));
    assert_eq!(sub.args[1].long_name, Some("count".to_string()));
    assert_eq!(sub.args[1].required, Some(true));
}

#[test]
fn about_text_from_doc_comment() {
    let mut m = command("show", &[]);
    m.doc = vec![" Show the ".to_string(), "   ".to_string(), " current state. ".to_string()];
    assert_eq!(about_of(&m), "Show the current state.");
    m.doc = vec![];
    assert_eq!(about_of(&m), "Show");
}

#[test]
fn cli_selection_and_command_errors() {
    let mut rpc = command("status", &[]);
    rpc.rpc_attr = true;
    rpc.command_attr = false;
    let helper = command("cli_spec", &[]);
    let plain = method("helper", vec![HandlerInput::Receiver, param("x")]);
    let methods = vec![command("run", &["job"]), rpc, helper, plain];
    assert_eq!(cli_methods(&methods).unwrap(), vec![0, 2]);
    let spec = module_cli_spec("m", &methods).unwrap();
    assert_eq!(spec.subcommands.len(), 1);
    assert_eq!(spec.subcommands[0].name, "run");
    let arms = dispatch_arms(&methods).unwrap();
    assert_eq!(arms.len(), 1);
    assert!(arms[0].with_context);
    assert_eq!(arms[0].args.len(), 1);

    let mut bad = method("oops", vec![HandlerInput::Receiver, param("x")]);
    bad.command_attr = true;
    assert_eq!(
        cli_methods(&vec![bad.clone()]).unwrap_err(),
        "#[command] requires ctx: &InvocationContext in method signature"
    );
    assert!(module_cli_spec("m", &vec![bad]).is_err());
}

#[test]
fn required_arguments_and_unknown_names() {
    let arms = dispatch_arms(&test_cli_methods()).unwrap();
    let map = parse_args(&["--value".to_string(), "v".to_string()], &arms[0].args).unwrap();
    match required_argument(&map, "key") {
        Err(NodeModuleError::Other(m)) => assert_eq!(m, "missing required argument: key"),
        other => panic!("unexpected {:?}", other),
    }
    assert_eq!(required_argument(&map, "value").unwrap(), "v");
    match dispatch_target(&arms, "frobnicate") {
        Err(NodeModuleError::Other(m)) => assert_eq!(m, "Unknown subcommand: frobnicate"),
        other => panic!("unexpected {:?}", other),
    }
    assert_eq!(dispatch_target(&arms, "delete").unwrap(), 3);
}

#[test]
fn rpc_names_and_targets() {
    let mut a = method("get_info", vec![HandlerInput::Receiver, param("params")]);
    a.rpc_attr = true;
    let mut b = method("do_thing", vec![HandlerInput::Receiver]);
    b.rpc_attr = true;
    b.rpc_name = Some("thing".to_string());
    let c = method("not_rpc", vec![HandlerInput::Receiver]);
    let names = rpc_method_names(&vec![a, c, b]);
    assert_eq!(names, vec!["get_info".to_string(), "thing".to_string()]);
    assert_eq!(rpc_target(&names, "thing").unwrap(), 1);
    match rpc_target(&names, "do_thing") {
        Err(NodeModuleError::Other(m)) => assert_eq!(m, "Unknown RPC method: do_thing"),
        other => panic!("unexpected {:?}", other),
    }
}

#[test]
fn event_handler_calls() {
    let block = handler(
        "on_block",
        &["NewBlock"],
        vec![HandlerInput::Receiver, param("height"), param("block_hash"), event_param()],
    );
    assert_eq!(
        handler_call(&block, "NewBlock", true),
        HandlerCall::Payload(vec![
            CallArg::Field("height".to_string(), true),
            CallArg::Field("block_hash".to_string(), false),
            CallArg::Event,
        ])
    );
    let with_ctx = handler("on_any", &["NewBlock", "NewTransaction"], vec![HandlerInput::Receiver, event_param(), context_param()]);
    assert_eq!(handler_call(&with_ctx, "NewBlock", true), HandlerCall::EventWithContext);
    assert_eq!(handler_call(&with_ctx, "NewBlock", false), HandlerCall::EventOnly);
    let unknown_field = handler("on_tx", &["NewTransaction"], vec![HandlerInput::Receiver, param("height")]);
    assert_eq!(handler_call(&unknown_field, "NewTransaction", true), HandlerCall::EventOnly);

    let twice = handler("on_twice", &["NewBlock", "NewBlock"], vec![HandlerInput::Receiver, event_param()]);
    let methods = vec![block, with_ctx, twice, unknown_field];
    let calls = event_handlers(&methods, "NewBlock", true);
    let positions: Vec<usize> = calls.iter().map(|(i, _)| *i).collect();
    assert_eq!(positions, vec![0, 1, 2, 2]);
    assert_eq!(
        event_types(&methods),
        vec!["NewBlock".to_string(), "NewTransaction".to_string()]
    );
}

#[test]
fn config_environment_overrides() {
    assert_eq!(config_env_var("max_peers", None), "MODULE_CONFIG_MAX_PEERS");
    assert_eq!(config_env_var("rpc-port", None), "MODULE_CONFIG_RPC_PORT");
    assert_eq!(config_env_var("x", Some("CUSTOM_VAR".to_string())), "CUSTOM_VAR");
    assert_eq!(env_list(" a, b ,,c "), vec!["a".to_string(), "b".to_string(), "c".to_string()]);
    assert_eq!(env_list(""), Vec::<String>::new());
    assert!(env_flag("true"));
    assert!(env_flag("TrUe"));
    assert!(env_flag("1"));
    assert!(!env_flag("yes"));
    assert!(!env_flag("true "));
    assert_eq!(override_kind("String"), OverrideKind::Text);
    assert_eq!(override_kind("Option < u64 >"), OverrideKind::Optional);
    assert_eq!(override_kind("Vec < String >"), OverrideKind::List);
    assert_eq!(override_kind("bool"), OverrideKind::Flag);
    assert_eq!(override_kind("u64"), OverrideKind::Parsed);
}

#[test]
fn cli_subcommand_blocks() {
    assert_eq!(cli_name_for_type("SyncPolicyCli"), "sync-policy");
    assert_eq!(cli_name_for_type("Cli"), "");
    assert_eq!(cli_name_for_type("My_Tool"), "my-tool");
    let methods = vec![
        method("status", vec![HandlerInput::Receiver]),
        method("new", vec![]),
        method("dispatch_cli", vec![HandlerInput::Receiver]),
        method("show_item", vec![HandlerInput::Receiver, param("id")]),
    ];
    let spec = impl_cli_spec("tool", &methods);
    assert_eq!(spec.name, "tool");
    let names: Vec<&str> = spec.subcommands.iter().map(|s| s.name.as_str()).collect();
    assert_eq!(names, vec!["status", "show-item"]);
    assert_eq!(spec.subcommands[1].args[0].name, "id");
    let arms = impl_dispatch_arms(&methods);
    assert_eq!(arms.len(), 2);
    assert!(!arms[1].with_context);
    assert_eq!(arms[1].method, "show_item");
}

#[test]
fn description_and_dispatch_agree() {
    let mut methods = test_cli_methods();
    methods[0].inputs.push(HandlerInput::Typed(ParamInfo {
        name: Some("ttl".to_string()),
        is_context: false,
        is_option: true,
        is_event_ref: false,
        long: Some("expiry".to_string()),
        short: Some("t".to_string()),
        default: Some("60".to_string()),
    }));
    let spec = module_cli_spec("test-cli", &methods).unwrap();
    let arms = dispatch_arms(&methods).unwrap();
    let spec_names: Vec<&str> = spec.subcommands.iter().map(|s| s.name.as_str()).collect();
    let arm_names: Vec<&str> = arms.iter().map(|a| a.subcommand.as_str()).collect();
    assert_eq!(spec_names, arm_names);
    for (s, a) in spec.subcommands.iter().zip(arms.iter()) {
        let view = |x: &blvm_sdk::module::cli_args::CliArgSpec| {
            (x.name.clone(), x.long_name.clone(), x.short_name.clone(), x.required, x.takes_value, x.default.clone())
        };
        let sv: Vec<_> = s.args.iter().map(view).collect();
        let av: Vec<_> = a.args.iter().map(view).collect();
        assert_eq!(sv, av);
    }
    assert_eq!(spec.subcommands[0].args.len(), 3);
}
