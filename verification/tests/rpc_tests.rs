use comet::rpc::{generate_rpc_proto, register_rpc, register_rpcs, FnInput, RpcEntry, RpcMethod};

fn s(x: &str) -> String {
    x.to_string()
}

fn typed(pat: &str, ty: &str) -> FnInput {
    FnInput::Typed { pat: s(pat), ty: s(ty) }
}

fn save_method() -> RpcMethod {
    RpcMethod {
        name: s("save"),
        is_watch: false,
        inputs: vec![FnInput::Receiver { mutable: true }],
        output: Some(s("Result < () , String >")),
    }
}

fn list_method() -> RpcMethod {
    RpcMethod { name: s("list"), is_watch: true, inputs: vec![typed("page", "i32")], output: Some(s("Vec < Todo >")) }
}

#[test]
fn register_rpc_numbers_entries_in_order() {
    let mut rpcs: Vec<RpcEntry> = Vec::new();
    let first = register_rpc(&mut rpcs, "Todo", &save_method());
    let second = register_rpc(&mut rpcs, "Todo", &list_method());
    assert_eq!(rpcs.len(), 2);
    assert_eq!(first.entry.query_variant, "RPCQuery0");
    assert_eq!(first.entry.response_variant, "RPCResponse0");
    assert_eq!(second.entry.query_variant, "RPCQuery1");
    assert_eq!(rpcs[1].response_variant, "RPCResponse1");
    assert_eq!(rpcs[0].query_types, vec![(true, s("Todo"))]);
    assert_eq!(rpcs[0].response_type, (true, s("Result < () , String >")));
    assert!(first.returns_self);
    assert_eq!(first.query_args, vec![s("self")]);
    assert_eq!(first.watch_wrapper, None);
}

#[test]
fn watch_method_is_registered_under_its_wrapper() {
    let mut rpcs: Vec<RpcEntry> = Vec::new();
    let plan = register_rpc(&mut rpcs, "Todo", &list_method());
    assert_eq!(plan.watch_wrapper, Some(s("__list_watch__")));
    assert_eq!(rpcs[0].method_name, "__list_watch__");
    assert_eq!(rpcs[0].query_types, vec![(false, s("i32"))]);
    assert_eq!(rpcs[0].response_type, (false, s("Vec < Todo >")));
    assert_eq!(plan.query_args, vec![s("page")]);
    assert!(!plan.returns_self);
}

#[test]
fn method_without_return_type_answers_unit() {
    let mut rpcs: Vec<RpcEntry> = Vec::new();
    let m = RpcMethod { name: s("ping"), is_watch: false, inputs: vec![], output: None };
    let plan = register_rpc(&mut rpcs, "Todo", &m);
    assert_eq!(plan.entry.response_type, (false, s("()")));
    assert!(plan.query_args.is_empty());
}

#[test]
fn dispatch_arms_follow_the_registry() {
    let mut rpcs: Vec<RpcEntry> = Vec::new();
    register_rpc(&mut rpcs, "Todo", &save_method());
    register_rpc(&mut rpcs, "Todo", &list_method());
    let shared = RpcMethod {
        name: s("show"),
        is_watch: false,
        inputs: vec![FnInput::Receiver { mutable: false }, typed("n", "u8")],
        output: Some(s("String")),
    };
    register_rpc(&mut rpcs, "Todo", &shared);
    let arms = generate_rpc_proto(&rpcs);
    assert_eq!(arms.len(), 3);

    assert_eq!(arms[0].model, "Todo");
    assert_eq!(arms[0].method, "save");
    assert_eq!(arms[0].query_variant, "RPCQuery0");
    assert_eq!(arms[0].query_types, vec![s("Todo")]);
    assert_eq!(arms[0].query_params, vec![s("mut arg_0")]);
    assert_eq!(arms[0].call_args, vec![s("&mut arg_0")]);
    assert_eq!(arms[0].response_types, vec![s("Todo"), s("Result < () , String >")]);
    assert_eq!(arms[0].response_self, vec![s("arg_0")]);

    assert_eq!(arms[1].method, "__list_watch__");
    assert_eq!(arms[1].query_params, vec![s("arg_0")]);
    assert_eq!(arms[1].call_args, vec![s("arg_0"), s("request_id"), s("client")]);
    assert_eq!(arms[1].response_types, vec![s("Vec < Todo >")]);
    assert!(arms[1].response_self.is_empty());

    assert_eq!(arms[2].query_params, vec![s("arg_0"), s("arg_1")]);
    assert_eq!(arms[2].call_args, vec![s("&arg_0"), s("arg_1")]);
    assert_eq!(arms[2].response_variant, "RPCResponse2");
}

#[test]
fn impl_block_module_is_named_after_the_registry_size() {
    let mut rpcs: Vec<RpcEntry> = Vec::new();
    register_rpc(&mut rpcs, "Other", &save_method());
    let plan = register_rpcs(&mut rpcs, "TodoItem", &vec![save_method(), list_method()]);
    assert_eq!(plan.mod_name, "__todoitem_rpcs_3");
    assert_eq!(plan.methods.len(), 2);
    assert_eq!(plan.methods[0].entry.query_variant, "RPCQuery1");
    assert_eq!(plan.methods[1].entry.query_variant, "RPCQuery2");
    assert_eq!(rpcs.len(), 3);
}

#[test]
fn registry_variants_are_distinct() {
    let mut rpcs: Vec<RpcEntry> = Vec::new();
    for _ in 0..12 {
        register_rpc(&mut rpcs, "Todo", &save_method());
    }
    for i in 0..rpcs.len() {
        for j in 0..rpcs.len() {
            if i != j {
                assert_ne!(rpcs[i].query_variant, rpcs[j].query_variant);
            }
        }
    }
}
