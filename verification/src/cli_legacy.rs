//! The earlier command-line tool: the same commands with quieter output and
//! without a verbose switch, and a `new` that writes a library crate.
use vstd::prelude::*;

use crate::cli::{
    exec_is, execution, exists_error, exists_message, file_is, project_dirs, project_file, strs_view,
    Execution, ProjectFile, ProjectPlan, Step,
};
use crate::text::{replace_seq, views};

verus! {

/// The arguments of `wasm-pack` that build the client.
pub open spec fn client_build_args() -> Seq<Seq<char>> {
    seq!["--log-level"@, "warn"@, "build"@, "--target"@, "web"@, "--out-dir"@, "dist/pkg"@, "--"@, "--color"@, "always"@, "-q"@]
}

/// The arguments of `cargo` that build the server.
pub open spec fn server_build_args() -> Seq<Seq<char>> {
    seq!["--color"@, "always"@, "build"@, "-q"@]
}

/// The arguments of `cargo` that run the server.
pub open spec fn run_args() -> Seq<Seq<char>> {
    seq!["--color"@, "always"@, "run"@, "-q"@]
}

/// `e` is the pair of builds: the client with `wasm-pack`, then the server
/// with `cargo`.
pub open spec fn is_builds(e: Seq<Execution>) -> bool {
    &&& e.len() == 2
    &&& exec_is(e[0], "Building client"@, "wasm-pack"@, client_build_args(), false)
    &&& exec_is(e[1], "Building server"@, "cargo"@, server_build_args(), false)
}

/// The earlier tool builds the client with a quiet `wasm-pack build` for the
/// web into `dist/pkg`, then the server with a quiet `cargo build`.
pub proof fn lemma_legacy_builds(e: Seq<Execution>)
    requires
        is_builds(e),
    ensures
        e[0].program@ == "wasm-pack"@,
        views(e[0].args@) == seq![
            "--log-level"@,
            "warn"@,
            "build"@,
            "--target"@,
            "web"@,
            "--out-dir"@,
            "dist/pkg"@,
            "--"@,
            "--color"@,
            "always"@,
            "-q"@,
        ],
        e[1].log@ == "Building server"@,
        e[1].program@ == "cargo"@,
        views(e[1].args@) == seq!["--color"@, "always"@, "build"@, "-q"@],
{
}

/// The builds that `build` runs, without the tool checks.
pub fn build_commands() -> (res: Vec<Execution>)
    ensures
        is_builds(res@),
        res@[1].program@ == "cargo"@,
        views(res@[1].args@) == seq!["--color"@, "always"@, "build"@, "-q"@],
{
    let mut res: Vec<Execution> = Vec::new();
    let client = execution("Building client", "wasm-pack", vec!["--log-level", "warn", "build", "--target", "web", "--out-dir", "dist/pkg", "--", "--color", "always", "-q"], false);
    assert(strs_view(seq!["--log-level", "warn", "build", "--target", "web", "--out-dir", "dist/pkg", "--", "--color", "always", "-q"]) =~= client_build_args());
    res.push(client);
    let server = execution("Building server", "cargo", vec!["--color", "always", "build", "-q"], false);
    assert(strs_view(seq!["--color", "always", "build", "-q"]) =~= server_build_args());
    res.push(server);
    proof {
        lemma_legacy_builds(res@);
    }
    res
}

/// `steps` are those of `build`.
pub open spec fn is_build(steps: Seq<Step>) -> bool {
    &&& steps.len() == 4
    &&& steps[0] is CheckWasmPack
    &&& steps[1] is CheckDieselCli
    &&& steps[2] matches Step::Execute(e) && exec_is(e, "Building client"@, "wasm-pack"@, client_build_args(), false)
    &&& steps[3] matches Step::Execute(e) && exec_is(e, "Building server"@, "cargo"@, server_build_args(), false)
}

/// The steps of `build`: make sure the tools are there, then build the client
/// and the server.
pub fn build() -> (steps: Vec<Step>)
    ensures
        is_build(steps@),
{
    let mut steps: Vec<Step> = Vec::new();
    steps.push(Step::CheckWasmPack);
    steps.push(Step::CheckDieselCli);
    let mut builds = build_commands();
    let server = builds.pop().unwrap();
    let client = builds.pop().unwrap();
    steps.push(Step::Execute(client));
    steps.push(Step::Execute(server));
    steps
}

/// The steps of `run`: those of `build`, then run the server with `cargo`.
pub fn run() -> (steps: Vec<Step>)
    ensures
        steps@.len() == 5,
        is_build(steps@.take(4)),
        steps@[4] matches Step::ExecuteAndWait(e) && exec_is(e, "Running"@, "cargo"@, run_args(), false),
{
    let mut steps = build();
    let ghost b = steps@;
    let e = execution("Running", "cargo", vec!["--color", "always", "run", "-q"], false);
    assert(strs_view(seq!["--color", "always", "run", "-q"]) =~= run_args());
    steps.push(Step::ExecuteAndWait(e));
    assert(steps@.take(4) =~= b);
    steps
}

/// `e` installs `wasm-pack` with `cargo`.
pub open spec fn is_wasm_pack_install(e: Execution, verbose: bool) -> bool {
    exec_is(e, "Installing wasm-pack"@, "cargo"@, seq!["install"@, "wasm-pack"@, "-q"@, "--color"@, "always"@], verbose)
}

/// What `check_and_install_wasm_pack` runs: the installer, when `wasm-pack`
/// is not on the path.
pub fn check_and_install_wasm_pack(has_wasm_pack: bool) -> (res: Vec<Execution>)
    ensures
        has_wasm_pack ==> res@.len() == 0,
        !has_wasm_pack ==> res@.len() == 1 && is_wasm_pack_install(res@[0], false),
{
    let mut res: Vec<Execution> = Vec::new();
    if !has_wasm_pack {
        let e = execution("Installing wasm-pack", "cargo", vec!["install", "wasm-pack", "-q", "--color", "always"], false);
        assert(strs_view(seq!["install", "wasm-pack", "-q", "--color", "always"]) =~= seq!["install"@, "wasm-pack"@, "-q"@, "--color"@, "always"@]);
        res.push(e);
    }
    res
}

/// `e` installs `diesel_cli` with `cargo`.
pub open spec fn is_diesel_install(e: Execution, verbose: bool) -> bool {
    exec_is(e, "Installing diesel-cli"@, "cargo"@, seq!["install"@, "diesel_cli"@, "--no-default-features"@, "--features"@, "postgres"@, "-q"@, "--color"@, "always"@], verbose)
}

/// `s` are the four setup commands: `diesel setup`, `diesel database reset`,
/// `diesel migration run`, then the `sed` patch of `src/schema.rs`.
pub open spec fn is_database_setup(s: Seq<Execution>) -> bool {
    &&& s.len() == 4
    &&& exec_is(s[0], "Diesel setup"@, "diesel"@, seq!["setup"@], false)
    &&& exec_is(s[1], "Reset database"@, "diesel"@, seq!["database"@, "reset"@], false)
    &&& exec_is(s[2], "Migrating database"@, "diesel"@, seq!["migration"@, "run"@], false)
    &&& exec_is(s[3], "Patching schema"@, "sed"@, seq!["-i"@, "s/^diesel::/crate::diesel::/g"@, "src/schema.rs"@], false)
}

/// What `check_and_install_diesel_cli` runs: the installer when `diesel` is
/// not on the path, then the database setup when `diesel.toml`,
/// `migrations` or `src/schema.rs` is missing.
pub fn check_and_install_diesel_cli(
    has_diesel: bool,
    has_diesel_toml: bool,
    has_migrations: bool,
    has_schema: bool
) -> (res: Vec<Execution>)
    ensures
        ({
            let setup_from = if has_diesel { 0int } else { 1int };
            &&& !has_diesel ==> is_diesel_install(res@[0], false)
            &&& if has_diesel_toml && has_migrations && has_schema {
                res@.len() == setup_from
            } else {
                res@.len() == setup_from + 4 && is_database_setup(res@.skip(setup_from))
            }
        }),
{
    let mut res: Vec<Execution> = Vec::new();
    if !has_diesel {
        let e = execution("Installing diesel-cli", "cargo", vec!["install", "diesel_cli", "--no-default-features", "--features", "postgres", "-q", "--color", "always"], false);
        assert(strs_view(seq!["install", "diesel_cli", "--no-default-features", "--features", "postgres", "-q", "--color", "always"]) =~= seq!["install"@, "diesel_cli"@, "--no-default-features"@, "--features"@, "postgres"@, "-q"@, "--color"@, "always"@]);
        res.push(e);
    }
    let ghost first = res@;
    if !has_diesel_toml || !has_migrations || !has_schema {
        let e = execution("Diesel setup", "diesel", vec!["setup"], false);
        assert(strs_view(seq!["setup"]) =~= seq!["setup"@]);
        let ghost ge0 = e;
        res.push(e);
        assert(res@.last() == ge0);
        let e = execution("Reset database", "diesel", vec!["database", "reset"], false);
        assert(strs_view(seq!["database", "reset"]) =~= seq!["database"@, "reset"@]);
        let ghost ge1 = e;
        res.push(e);
        assert(res@.last() == ge1);
        let e = execution("Migrating database", "diesel", vec!["migration", "run"], false);
        assert(strs_view(seq!["migration", "run"]) =~= seq!["migration"@, "run"@]);
        let ghost ge2 = e;
        res.push(e);
        assert(res@.last() == ge2);
        let e = execution("Patching schema", "sed", vec!["-i", "s/^diesel::/crate::diesel::/g", "src/schema.rs"], false);
        assert(strs_view(seq!["-i", "s/^diesel::/crate::diesel::/g", "src/schema.rs"]) =~= seq!["-i"@, "s/^diesel::/crate::diesel::/g"@, "src/schema.rs"@]);
        let ghost ge3 = e;
        res.push(e);
        assert(res@.last() == ge3);
        assert(res@.skip(first.len() as int) =~= seq![
            res@[first.len() as int],
            res@[first.len() as int + 1],
            res@[first.len() as int + 2],
            res@[first.len() as int + 3],
        ]);
        assert(ge0.log@ == "Diesel setup"@);
        assert(views(ge0.args@) == seq!["setup"@]);
        assert(exec_is(ge1, "Reset database"@, "diesel"@, seq!["database"@, "reset"@], false));
        assert(exec_is(ge3, "Patching schema"@, "sed"@, seq!["-i"@, "s/^diesel::/crate::diesel::/g"@, "src/schema.rs"@], false));
        assert(is_database_setup(res@.skip(first.len() as int)));
    }
    if !has_diesel {
        assert(res@[0] == first[0]);
    }
    res
}
/// The template of `src/lib.rs`.
pub const SRC_LIB_RS_TEMPLATE: &'static str = r#"use comet::prelude::*;

component! {
    i32,
    button @click: { *self += 1 } {
        { self }
    }
}

comet!(0);
"#;

/// The template of `Cargo.toml`, with `{{name}}` standing for the project name.
pub const CARGO_TOML_TEMPLATE: &'static str = r#"[package]
name = "{{name}}"
version = "0.1.0"
edition = "2021"


[lib]
crate-type = ["cdylib", "rlib"]

[dependencies]
comet = { git = "https://github.com/Champii/Comet" }
        "#;

/// The template of `dist/index.html`, with `{{name}}` standing for the project name.
pub const DIST_INDEX_HTML_TEMPLATE: &'static str = r#"<html>
  <head>
    <meta content="text/html;charset=utf-8" http-equiv="Content-Type"/>
  </head>
  <body>
    <script type="module">
      import init from './assets/pkg/{{name}}.js';

      async function run() {
        await init();
      }
      run();
    </script>
  </body>
</html>
        "#;

/// What `new` creates for a project called `name`, unless its folder `exists`
/// already: the folder with `src` and `dist`, a `src/lib.rs` with a counter
/// component, and a `Cargo.toml` and a `dist/index.html` naming the project.
pub fn create_project_folder(name: &str, exists: bool) -> (res: Result<ProjectPlan, String>)
    ensures
        exists ==> (res matches Err(m) && m@ == exists_message(name@)),
        !exists ==> (res matches Ok(p) && {
            &&& views(p.dirs@) == seq![""@, "src"@, "dist"@]
            &&& p.files@.len() == 3
            &&& file_is(p.files@[0], "src/lib.rs"@, SRC_LIB_RS_TEMPLATE@)
            &&& file_is(p.files@[1], "Cargo.toml"@, replace_seq(CARGO_TOML_TEMPLATE@, "{{name}}"@, name@))
            &&& file_is(p.files@[2], "dist/index.html"@, replace_seq(DIST_INDEX_HTML_TEMPLATE@, "{{name}}"@, name@))
        }),
{
    if exists {
        return Err(exists_error(name));
    }
    let mut files: Vec<ProjectFile> = Vec::new();
    files.push(project_file("src/lib.rs", SRC_LIB_RS_TEMPLATE, name, false));
    files.push(project_file("Cargo.toml", CARGO_TOML_TEMPLATE, name, true));
    files.push(project_file("dist/index.html", DIST_INDEX_HTML_TEMPLATE, name, true));
    Ok(ProjectPlan { dirs: project_dirs(), files })
}

} // verus!
