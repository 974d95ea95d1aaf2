//! The commands of the `comet` command-line tool: what `build` and `run`
//! execute, when the installers and the database setup run, how the output
//! of a command is reported, and what `new` creates.
use vstd::prelude::*;

use crate::text::{all_whitespace, replace_all, replace_seq, trimmed_is_empty, views};

verus! {

/// One external command: the line shown while it runs, the program and its
/// arguments.
pub struct Execution {
    pub log: String,
    pub program: String,
    pub args: Vec<String>,
    pub verbose: bool,
}

/// One step of a command of the command-line tool.
pub enum Step {
    /// Install `wasm-pack` when it is missing.
    CheckWasmPack,
    /// Install `diesel_cli` when it is missing, and set the database up when
    /// the project has not been set up.
    CheckDieselCli,
    /// Run a command and wait for its output.
    Execute(Execution),
    /// Start a command, report it started, then wait for it.
    ExecuteAndWait(Execution),
}

/// A file of a new project.
pub struct ProjectFile {
    /// The path inside the project folder.
    pub path: String,
    pub content: String,
}

/// What `new` creates: the folders, then the files.
pub struct ProjectPlan {
    /// The folders inside the project folder, the folder itself first
    /// (written as the empty path).
    pub dirs: Vec<String>,
    pub files: Vec<ProjectFile>,
}

/// The text views of a list of string slices.
pub open spec fn strs_view(s: Seq<&str>) -> Seq<Seq<char>> {
    s.map_values(|x: &str| x@)
}

/// `e` runs `program` with `args`, showing `log`.
pub open spec fn exec_is(
    e: Execution,
    log: Seq<char>,
    program: Seq<char>,
    args: Seq<Seq<char>>,
    verbose: bool,
) -> bool {
    &&& e.log@ == log
    &&& e.program@ == program
    &&& views(e.args@) == args
    &&& e.verbose == verbose
}

/// `f` is the file `path` with `content`.
pub open spec fn file_is(f: ProjectFile, path: Seq<char>, content: Seq<char>) -> bool {
    f.path@ == path && f.content@ == content
}

pub(crate) fn strings(v: Vec<&str>) -> (res: Vec<String>)
    ensures
        views(res@) == strs_view(v@),
{
    let mut res: Vec<String> = Vec::new();
    let mut i: usize = 0;
    while i < v.len()
        invariant
            i <= v@.len(),
            views(res@) == strs_view(v@.take(i as int)),
        decreases v@.len() - i,
    {
        let ghost prev = res@;
        res.push(String::from_str(v[i]));
        proof {
            assert(views(res@) =~= views(prev).push(v@[i as int]@));
            assert(strs_view(v@.take(i + 1)) =~= strs_view(v@.take(i as int)).push(v@[i as int]@));
        }
        i = i + 1;
    }
    assert(v@.take(v@.len() as int) =~= v@);
    res
}

pub(crate) fn execution(log: &str, program: &str, args: Vec<&str>, verbose: bool) -> (e: Execution)
    ensures
        exec_is(e, log@, program@, strs_view(args@), verbose),
{
    Execution {
        log: String::from_str(log),
        program: String::from_str(program),
        args: strings(args),
        verbose,
    }
}

pub(crate) fn project_file(path: &str, template: &str, name: &str, substitute: bool) -> (f: ProjectFile)
    ensures
        file_is(
            f,
            path@,
            if substitute {
                replace_seq(template@, "{{name}}"@, name@)
            } else {
                template@
            },
        ),
{
    let content = if substitute {
        replace_all(template, "{{name}}", name)
    } else {
        String::from_str(template)
    };
    ProjectFile { path: String::from_str(path), content }
}

/// The message when the project folder exists already.
pub open spec fn exists_message(name: Seq<char>) -> Seq<char> {
    "Error: "@ + name + " already exists"@
}

pub(crate) fn exists_error(name: &str) -> (res: String)
    ensures
        res@ == exists_message(name@),
{
    let mut m = String::from_str("Error: ");
    m.append(name);
    m.append(" already exists");
    m
}

pub(crate) fn project_dirs() -> (res: Vec<String>)
    ensures
        views(res@) == seq![""@, "src"@, "dist"@],
{
    let res = strings(vec!["", "src", "dist"]);
    assert(strs_view(seq!["", "src", "dist"]) =~= seq![""@, "src"@, "dist"@]);
    res
}

/// The arguments of `wasm-pack` that build the client.
pub open spec fn client_build_args() -> Seq<Seq<char>> {
    seq!["--log-level"@, "error"@, "build"@, "--target"@, "web"@, "--out-dir"@, "dist/pkg"@, "--dev"@, "--"@, "--color"@, "always"@]
}

/// The arguments of `cargo` that build the server.
pub open spec fn server_build_args() -> Seq<Seq<char>> {
    seq!["--color"@, "always"@, "build"@]
}

/// The arguments of `cargo` that run the server.
pub open spec fn run_args() -> Seq<Seq<char>> {
    seq!["--color"@, "always"@, "run"@]
}

/// `steps` are those of `build`.
pub open spec fn is_build(steps: Seq<Step>, verbose: bool) -> bool {
    &&& steps.len() == 4
    &&& steps[0] is CheckWasmPack
    &&& steps[1] is CheckDieselCli
    &&& steps[2] matches Step::Execute(e) && exec_is(e, "Building client"@, "wasm-pack"@, client_build_args(), verbose)
    &&& steps[3] matches Step::Execute(e) && exec_is(e, "Building server"@, "cargo"@, server_build_args(), verbose)
}

/// The steps of `build` check for `wasm-pack` and `diesel`, then build the
/// client with `wasm-pack build` for the web into `dist/pkg`, then build the
/// server with `cargo build`.
pub proof fn lemma_build_builds(steps: Seq<Step>, verbose: bool)
    requires
        is_build(steps, verbose),
    ensures
        steps.len() == 4,
        steps[0] is CheckWasmPack,
        steps[1] is CheckDieselCli,
        steps[2] matches Step::Execute(e) && e.program@ == "wasm-pack"@ && views(e.args@) == seq![
            "--log-level"@,
            "error"@,
            "build"@,
            "--target"@,
            "web"@,
            "--out-dir"@,
            "dist/pkg"@,
            "--dev"@,
            "--"@,
            "--color"@,
            "always"@,
        ],
        steps[3] matches Step::Execute(e) && e.log@ == "Building server"@ && e.program@ == "cargo"@
            && views(e.args@) == seq!["--color"@, "always"@, "build"@],
{
}

/// The steps of `build`: make sure the tools are there, then build the client
/// with `wasm-pack` and the server with `cargo`.
pub fn build(verbose: bool) -> (steps: Vec<Step>)
    ensures
        is_build(steps@, verbose),
        steps@[3] matches Step::Execute(e) && e.program@ == "cargo"@ && views(e.args@) == seq![
            "--color"@,
            "always"@,
            "build"@,
        ],
{
    let mut steps: Vec<Step> = Vec::new();
    steps.push(Step::CheckWasmPack);
    steps.push(Step::CheckDieselCli);
    let client = execution("Building client", "wasm-pack", vec!["--log-level", "error", "build", "--target", "web", "--out-dir", "dist/pkg", "--dev", "--", "--color", "always"], verbose);
    assert(strs_view(seq!["--log-level", "error", "build", "--target", "web", "--out-dir", "dist/pkg", "--dev", "--", "--color", "always"]) =~= client_build_args());
    steps.push(Step::Execute(client));
    let server = execution("Building server", "cargo", vec!["--color", "always", "build"], verbose);
    assert(strs_view(seq!["--color", "always", "build"]) =~= server_build_args());
    steps.push(Step::Execute(server));
    proof {
        lemma_build_builds(steps@, verbose);
    }
    steps
}

/// The steps of `run`: those of `build`, then run the server with `cargo`.
pub fn run(verbose: bool) -> (steps: Vec<Step>)
    ensures
        steps@.len() == 5,
        is_build(steps@.take(4), verbose),
        steps@[4] matches Step::ExecuteAndWait(e) && exec_is(e, "Running"@, "cargo"@, run_args(), verbose),
        steps@[4] matches Step::ExecuteAndWait(e) && e.program@ == "cargo"@ && views(e.args@) == seq![
            "--color"@,
            "always"@,
            "run"@,
        ],
{
    let mut steps = build(verbose);
    let ghost b = steps@;
    let e = execution("Running", "cargo", vec!["--color", "always", "run"], verbose);
    assert(strs_view(seq!["--color", "always", "run"]) =~= run_args());
    steps.push(Step::ExecuteAndWait(e));
    assert(steps@.take(4) =~= b);
    steps
}

/// `e` installs `wasm-pack` with `cargo`.
pub open spec fn is_wasm_pack_install(e: Execution, verbose: bool) -> bool {
    exec_is(e, "Installing wasm-pack"@, "cargo"@, seq!["install"@, "wasm-pack"@, "--color"@, "always"@], verbose)
}

/// What `check_and_install_wasm_pack` runs: the installer, when `wasm-pack`
/// is not on the path.
pub fn check_and_install_wasm_pack(has_wasm_pack: bool, verbose: bool) -> (res: Vec<Execution>)
    ensures
        has_wasm_pack ==> res@.len() == 0,
        !has_wasm_pack ==> res@.len() == 1 && is_wasm_pack_install(res@[0], verbose),
{
    let mut res: Vec<Execution> = Vec::new();
    if !has_wasm_pack {
        let e = execution("Installing wasm-pack", "cargo", vec!["install", "wasm-pack", "--color", "always"], verbose);
        assert(strs_view(seq!["install", "wasm-pack", "--color", "always"]) =~= seq!["install"@, "wasm-pack"@, "--color"@, "always"@]);
        res.push(e);
    }
    res
}

/// `e` installs `diesel_cli` with `cargo`.
pub open spec fn is_diesel_install(e: Execution, verbose: bool) -> bool {
    exec_is(e, "Installing diesel-cli"@, "cargo"@, seq!["install"@, "diesel_cli"@, "--no-default-features"@, "--features"@, "postgres"@, "--color"@, "always"@], verbose)
}

/// `s` are the four setup commands: `diesel setup`, `diesel database reset`,
/// `diesel migration run`, then the `sed` patch of `src/schema.rs`.
pub open spec fn is_database_setup(s: Seq<Execution>) -> bool {
    &&& s.len() == 4
    &&& exec_is(s[0], "Diesel setup"@, "diesel"@, seq!["setup"@], true)
    &&& exec_is(s[1], "Reset database"@, "diesel"@, seq!["database"@, "reset"@], true)
    &&& exec_is(s[2], "Migrating database"@, "diesel"@, seq!["migration"@, "run"@], true)
    &&& exec_is(s[3], "Patching schema"@, "sed"@, seq!["-i"@, "s/^diesel::/crate::diesel::/g"@, "src/schema.rs"@], true)
}

/// What `check_and_install_diesel_cli` runs: the installer when `diesel` is
/// not on the path, then the database setup when `diesel.toml`,
/// `migrations` or `src/schema.rs` is missing.
pub fn check_and_install_diesel_cli(
    has_diesel: bool,
    has_diesel_toml: bool,
    has_migrations: bool,
    has_schema: bool,
    verbose: bool,
) -> (res: Vec<Execution>)
    ensures
        ({
            let setup_from = if has_diesel { 0int } else { 1int };
            &&& !has_diesel ==> is_diesel_install(res@[0], verbose)
            &&& if has_diesel_toml && has_migrations && has_schema {
                res@.len() == setup_from
            } else {
                res@.len() == setup_from + 4 && is_database_setup(res@.skip(setup_from))
            }
        }),
{
    let mut res: Vec<Execution> = Vec::new();
    if !has_diesel {
        let e = execution("Installing diesel-cli", "cargo", vec!["install", "diesel_cli", "--no-default-features", "--features", "postgres", "--color", "always"], verbose);
        assert(strs_view(seq!["install", "diesel_cli", "--no-default-features", "--features", "postgres", "--color", "always"]) =~= seq!["install"@, "diesel_cli"@, "--no-default-features"@, "--features"@, "postgres"@, "--color"@, "always"@]);
        res.push(e);
    }
    let ghost first = res@;
    if !has_diesel_toml || !has_migrations || !has_schema {
        let e = execution("Diesel setup", "diesel", vec!["setup"], true);
        assert(strs_view(seq!["setup"]) =~= seq!["setup"@]);
        let ghost ge0 = e;
        res.push(e);
        assert(res@.last() == ge0);
        let e = execution("Reset database", "diesel", vec!["database", "reset"], true);
        assert(strs_view(seq!["database", "reset"]) =~= seq!["database"@, "reset"@]);
        let ghost ge1 = e;
        res.push(e);
        assert(res@.last() == ge1);
        let e = execution("Migrating database", "diesel", vec!["migration", "run"], true);
        assert(strs_view(seq!["migration", "run"]) =~= seq!["migration"@, "run"@]);
        let ghost ge2 = e;
        res.push(e);
        assert(res@.last() == ge2);
        let e = execution("Patching schema", "sed", vec!["-i", "s/^diesel::/crate::diesel::/g", "src/schema.rs"], true);
        assert(strs_view(seq!["-i", "s/^diesel::/crate::diesel::/g", "src/schema.rs"]) =~= seq!["-i"@, "s/^diesel::/crate::diesel::/g"@, "src/schema.rs"@]);
        let ghost ge3 = e;
        res.push(e);
        assert(res@.last() == ge3);
        assert(res@.skip(first.len() as int) =~= seq![
            res@[first.len() as int],
            res@[first.len() as int + 1],
            res@[first.len() as int + 2],
            res@[first.len() as int + 3],
        ]);
        assert(res@[first.len() as int] == ge0);
        assert(exec_is(ge1, "Reset database"@, "diesel"@, seq!["database"@, "reset"@], true));
        assert(ge0.log@ == "Diesel setup"@);
        assert(views(ge0.args@) == seq!["setup"@]);
        assert(exec_is(ge3, "Patching schema"@, "sed"@, seq!["-i"@, "s/^diesel::/crate::diesel::/g"@, "src/schema.rs"@], true));
        assert(is_database_setup(res@.skip(first.len() as int)));
    }
    if !has_diesel {
        assert(res@[0] == first[0]);
    }
    res
}

/// How the outcome of a command is shown.
pub enum LogStatus {
    /// `[✓]`: nothing was written to standard error.
    Done,
    /// `[!]`: the command succeeded but wrote to standard error.
    Warn,
    /// `[✗]`: the command failed.
    Failed,
}

/// What `log_execute` does once a command has run.
pub struct LogOutcome {
    pub status: LogStatus,
    /// The standard error output is printed below the status line.
    pub show_stderr: bool,
    /// The tool exits with status 1.
    pub exit_failure: bool,
}

/// Decides how a finished command is reported, from its standard error
/// output and whether it succeeded: a blank output is reported as done,
/// otherwise as a warning or an error, with the output shown; a failed
/// command stops the tool.
pub fn log_execute_outcome(stderr: &str, success: bool) -> (res: LogOutcome)
    ensures
        all_whitespace(stderr@) ==> res.status is Done && !res.show_stderr,
        !all_whitespace(stderr@) ==> res.show_stderr && (if success {
            res.status is Warn
        } else {
            res.status is Failed
        }),
        res.exit_failure == !success,
{
    if trimmed_is_empty(stderr) {
        LogOutcome { status: LogStatus::Done, show_stderr: false, exit_failure: !success }
    } else if success {
        LogOutcome { status: LogStatus::Warn, show_stderr: true, exit_failure: false }
    } else {
        LogOutcome { status: LogStatus::Failed, show_stderr: true, exit_failure: true }
    }
}
/// The template of `src/main.rs`.
pub const SRC_MAIN_RS_TEMPLATE: &'static str = r#"// The mandatory imports
use comet::prelude::*;

// This macro takes two arguments:
// - A type for which we will implement `Component`
// - And a root HTML element
// We implement `Component` for a simple integer.
component! {
    // We use an i32 here, but you can use any stucts/enums/custom type
    i32,

    // The root of this HTML element is a simple button
    // It has a 'click' event registered that will increment our i32 by 1
    button @click: { *self += 1 } {
        // We display our value inside the button
        { self }
    }
}

// This is where all the magic happens
// We run the application with an instance of our i32 component that starts with the value 0
comet!(0);
"#;

/// The template of `Cargo.toml`, with `{{name}}` standing for the project name.
pub const CARGO_TOML_TEMPLATE: &'static str = r#"[package]
name = "{{name}}"
version = "0.1.0"
edition = "2021"

[lib]
path = "src/main.rs"
crate-type = ["cdylib", "rlib"]

[[bin]]
path = "src/main.rs"
name = "comet_test"

[dependencies]
comet = { git = "https://github.com/Champii/Comet" }
        "#;

/// The template of `dist/index.html`, with `{{name}}` standing for the project name.
pub const DIST_INDEX_HTML_TEMPLATE: &'static str = r#"<html>
  <head>
    <meta content="text/html;charset=utf-8" http-equiv="Content-Type"/>
  </head>
  <body>
    <script type="module">
      import init from './assets/pkg/{{name}}.js';

      async function run() {
        await init();
      }
      run();
    </script>
  </body>
</html>
        "#;

/// The template of `README.md`.
pub const README_MD_TEMPLATE: &'static str = r#""#;

/// What `new` creates for a project called `name`, unless its folder `exists`
/// already: the folder with `src` and `dist`, a `src/main.rs` with a counter
/// component, a `Cargo.toml` and a `dist/index.html` naming the project, and an
/// empty `README.md`.
pub fn create_project_folder(name: &str, exists: bool) -> (res: Result<ProjectPlan, String>)
    ensures
        exists ==> (res matches Err(m) && m@ == exists_message(name@)),
        !exists ==> (res matches Ok(p) && {
            &&& views(p.dirs@) == seq![""@, "src"@, "dist"@]
            &&& p.files@.len() == 4
            &&& file_is(p.files@[0], "src/main.rs"@, SRC_MAIN_RS_TEMPLATE@)
            &&& file_is(p.files@[1], "Cargo.toml"@, replace_seq(CARGO_TOML_TEMPLATE@, "{{name}}"@, name@))
            &&& file_is(p.files@[2], "dist/index.html"@, replace_seq(DIST_INDEX_HTML_TEMPLATE@, "{{name}}"@, name@))
            &&& file_is(p.files@[3], "README.md"@, README_MD_TEMPLATE@)
        }),
{
    if exists {
        return Err(exists_error(name));
    }
    let mut files: Vec<ProjectFile> = Vec::new();
    files.push(project_file("src/main.rs", SRC_MAIN_RS_TEMPLATE, name, false));
    files.push(project_file("Cargo.toml", CARGO_TOML_TEMPLATE, name, true));
    files.push(project_file("dist/index.html", DIST_INDEX_HTML_TEMPLATE, name, true));
    files.push(project_file("README.md", README_MD_TEMPLATE, name, false));
    Ok(ProjectPlan { dirs: project_dirs(), files })
}

} // verus!
