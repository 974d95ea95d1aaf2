use comet::app_model::{Main, Msg, User, UserMsg};
use comet::cli::{
    build, check_and_install_diesel_cli, check_and_install_wasm_pack, create_project_folder, log_execute_outcome, run,
    LogStatus, Step,
};
use comet::cli_legacy;
use comet::dom::{create_element, create_element_core, style_string};
use comet::proto::Shared;
use comet::socket::{Client, Message, Socket};

fn s(x: &str) -> String {
    x.to_string()
}

#[test]
fn build_steps() {
    let steps = build(true);
    assert_eq!(steps.len(), 4);
    assert!(matches!(steps[0], Step::CheckWasmPack));
    assert!(matches!(steps[1], Step::CheckDieselCli));
    match &steps[2] {
        Step::Execute(e) => {
            assert_eq!(e.log, "Building client");
            assert_eq!(e.program, "wasm-pack");
            assert_eq!(e.args[0], "--log-level");
            assert_eq!(e.args.len(), 11);
            assert!(e.verbose);
        }
        _ => panic!("client build missing"),
    }
    let r = run(false);
    assert_eq!(r.len(), 5);
    match &r[4] {
        Step::ExecuteAndWait(e) => assert_eq!(e.args, vec![s("--color"), s("always"), s("run")]),
        _ => panic!("run missing"),
    }
}

#[test]
fn installers_run_only_when_needed() {
    assert!(check_and_install_wasm_pack(true, false).is_empty());
    let w = check_and_install_wasm_pack(false, false);
    assert_eq!(w[0].args, vec![s("install"), s("wasm-pack"), s("--color"), s("always")]);
    assert!(check_and_install_diesel_cli(true, true, true, true, false).is_empty());
    let d = check_and_install_diesel_cli(false, true, false, true, true);
    assert_eq!(d.len(), 5);
    assert_eq!(d[0].log, "Installing diesel-cli");
    assert_eq!(d[1].program, "diesel");
    assert_eq!(d[4].program, "sed");
    assert_eq!(d[4].args[1], "s/^diesel::/crate::diesel::/g");
}

#[test]
fn command_outcomes() {
    let ok = log_execute_outcome("  \n", true);
    assert!(matches!(ok.status, LogStatus::Done));
    assert!(!ok.show_stderr && !ok.exit_failure);
    let warn = log_execute_outcome("warning: unused", true);
    assert!(matches!(warn.status, LogStatus::Warn));
    assert!(warn.show_stderr && !warn.exit_failure);
    let err = log_execute_outcome("error[E0308]", false);
    assert!(matches!(err.status, LogStatus::Failed));
    assert!(err.exit_failure);
    let silent_failure = log_execute_outcome("", false);
    assert!(matches!(silent_failure.status, LogStatus::Done));
    assert!(silent_failure.exit_failure);
}

#[test]
fn new_project_files() {
    let plan = create_project_folder("demo", false).ok().unwrap();
    assert_eq!(plan.dirs, vec![s(""), s("src"), s("dist")]);
    assert_eq!(plan.files.len(), 4);
    assert_eq!(plan.files[0].path, "src/main.rs");
    assert!(plan.files[0].content.contains("comet!(0);"));
    assert!(plan.files[1].content.contains("name = \"demo\""));
    assert!(!plan.files[1].content.contains("{{name}}"));
    assert!(plan.files[2].content.contains("./assets/pkg/demo.js"));
    assert_eq!(plan.files[3].path, "README.md");
    assert_eq!(plan.files[3].content, "");
    assert_eq!(create_project_folder("demo", true).err().unwrap(), "Error: demo already exists");
}

#[test]
fn legacy_commands() {
    let steps = cli_legacy::build();
    assert_eq!(steps.len(), 4);
    match &steps[3] {
        Step::Execute(e) => assert_eq!(e.args, vec![s("--color"), s("always"), s("build"), s("-q")]),
        _ => panic!("server build missing"),
    }
    assert_eq!(cli_legacy::build_commands().len(), 2);
    assert_eq!(cli_legacy::run().len(), 5);
    let w = cli_legacy::check_and_install_wasm_pack(false);
    assert_eq!(w[0].args, vec![s("install"), s("wasm-pack"), s("-q"), s("--color"), s("always")]);
    assert_eq!(cli_legacy::check_and_install_diesel_cli(true, false, true, true).len(), 4);
    let plan = cli_legacy::create_project_folder("demo", false).ok().unwrap();
    assert_eq!(plan.files[0].path, "src/lib.rs");
    assert_eq!(plan.files.len(), 3);
}

#[test]
fn socket_request_ids() {
    let mut socket = Socket::new();
    let a = socket.rpc(vec![1, 2]);
    let b = socket.rpc(vec![3]);
    assert_eq!(a.request_id, 0);
    assert_eq!(b.request_id, 1);
    assert_eq!(b.msg, vec![3]);
    assert!(socket.is_pending(0) && socket.is_pending(1));
    assert!(!socket.is_pending(2));
}

#[test]
fn answers_keep_the_request_id() {
    let mut client = Client::new();
    client.set_session_id(7);
    assert_eq!(client.session_id, 7);
    let request = Message { request_id: 42, msg: vec![9] };
    let reply = client.handle_msg(&request, Some(vec![5, 6])).unwrap();
    assert_eq!(reply.request_id, 42);
    assert_eq!(reply.msg, vec![5, 6]);
    assert!(client.handle_msg(&request, None).is_none());
}

#[test]
fn example_components() {
    let mut user = User { id: 3, name: s("Ada"), age: 36 };
    user.update(UserMsg::Click);
    assert_eq!(user.age, 37);
    let mut main = Main::new();
    assert_eq!(main.show_user(), None);
    main.update(Msg::UserDetail(3));
    assert_eq!(main.show_user(), Some(3));
}

#[test]
fn shared_handles_point_to_one_cell() {
    let a = Shared::from(5);
    let b = a.clone();
    **b.deref().borrow_mut() += 1;
    assert_eq!(**a.deref().borrow(), 6);
    assert!(std::rc::Rc::ptr_eq(&a.0, &b.0));
}

#[test]
fn element_plans() {
    let attrs = vec![(s("color"), s("red")), (s("width"), s("3px"))];
    assert_eq!(style_string(&attrs), "color: red;width: 3px;");
    let plan = create_element("input", Some(s("n")), vec![s("c")], &attrs, vec![(s("click"), 1), (s("change"), 2)], Some(s("v")));
    assert_eq!(plan.style.as_deref(), Some("color: red;width: 3px;"));
    assert_eq!(plan.events[0].0, "mousedown");
    assert_eq!(plan.events[1].0, "change");
    assert_eq!(plan.bound_value.as_deref(), Some("v"));
    let div = create_element("div", None, vec![], &vec![], vec![(s("click"), 1)], Some(s("v")));
    assert!(div.style.is_none());
    assert!(div.bound_value.is_none());
    let core = create_element_core("div", None, vec![], &attrs, vec![(s("click"), 1)]);
    assert_eq!(core.events[0].0, "click");
}

#[test]
fn answered_requests_leave_the_pending_list() {
    let mut socket = Socket::new();
    let a = socket.rpc(vec![1]);
    let b = socket.rpc(vec![2]);
    let c = socket.rpc(vec![3]);
    assert!(socket.resolve(b.request_id));
    assert!(!socket.is_pending(b.request_id));
    assert!(socket.is_pending(a.request_id));
    assert!(socket.is_pending(c.request_id));
    assert!(!socket.resolve(b.request_id));
    assert!(!socket.resolve(99));
    let d = socket.rpc(vec![4]);
    assert_eq!(d.request_id, 3);
}
