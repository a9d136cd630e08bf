use elm_bench::elmi::TestModule;
use elm_bench::paths::{generated_source_directories, source_directories};
use elm_bench::run::{
    after_poll, after_wait, benchmark_source_directories, compile_args, module_globs,
    node_runner_replacements, runner_imports, runner_replacements, runner_tests, startup,
    supervisor_exit_code, ChildPoll, Options, Startup, WaitStep,
};
use elm_bench::template::{instantiate_template, render_template, TemplateError};
use elm_bench::text::{join, starts_with};
use elm_bench::unpack::{unpack_included_dir, IncludedDir, IncludedFile, UnpackStep};

fn s(x: &str) -> String {
    x.to_string()
}

fn strings(xs: &[&str]) -> Vec<String> {
    xs.iter().map(|x| s(x)).collect()
}

fn options(help: bool, version: bool, report: &str) -> Options {
    Options {
        help,
        version,
        compiler: s("elm"),
        prefix: None,
        no_optimize: false,
        report: s(report),
        files: vec![],
    }
}

fn test_module(name: &str, tests: &[&str]) -> TestModule {
    TestModule {
        module_name: s(name),
        path: format!("benchmarks/{}.elm", name),
        tests: strings(tests),
    }
}

#[test]
fn help_comes_before_everything() {
    assert_eq!(startup(&options(true, true, "xml")), Startup::Help);
    assert_eq!(startup(&options(true, false, "console")), Startup::Help);
}

#[test]
fn version_comes_before_the_report_check() {
    assert_eq!(startup(&options(false, true, "xml")), Startup::Version);
}

#[test]
fn only_console_and_json_reports_run() {
    assert_eq!(startup(&options(false, false, "console")), Startup::Run);
    assert_eq!(startup(&options(false, false, "json")), Startup::Run);
    assert_eq!(startup(&options(false, false, "xml")), Startup::UnknownReport);
    assert_eq!(startup(&options(false, false, "")), Startup::UnknownReport);
}

#[test]
fn benchmark_directory_of_a_package() {
    let dirs = benchmark_source_directories("/home/me/proj", &vec![], &None);
    assert_eq!(dirs, strings(&["/home/me/proj/benchmarks"]));
}

#[test]
fn benchmark_directories_of_an_application() {
    let dirs = benchmark_source_directories(
        "/home/me/proj",
        &vec![],
        &Some(strings(&["src", "../src"])),
    );
    assert_eq!(
        dirs,
        strings(&["/home/me/proj/benchmarks/src", "/home/me/proj/benchmarks/../src"])
    );
}

#[test]
fn no_benchmark_directories_with_files() {
    let dirs = benchmark_source_directories(
        "/home/me/proj",
        &strings(&["a.elm"]),
        &Some(strings(&["src"])),
    );
    assert!(dirs.is_empty());
}

#[test]
fn two_globs_per_directory() {
    let globs = module_globs(&strings(&["/p/benchmarks", "/p/more"]), &vec![]);
    assert_eq!(
        globs,
        strings(&["/p/benchmarks/*.elm", "/p/benchmarks/**/*.elm", "/p/more/*.elm", "/p/more/**/*.elm"])
    );
}

#[test]
fn given_files_are_the_globs() {
    let files = strings(&["benchmarks/A.elm", "benchmarks/*.elm"]);
    assert_eq!(module_globs(&strings(&["/p/benchmarks"]), &files), files);
}

#[test]
fn relative_directories_are_deduplicated_then_src() {
    let dirs = generated_source_directories(vec![
        Some(s("../../src")),
        Some(s("../../benchmarks")),
        Some(s("../../src")),
    ]);
    assert_eq!(dirs, Some(strings(&["../../src", "../../benchmarks", "src"])));
}

#[test]
fn missing_relative_directory_gives_nothing() {
    assert_eq!(generated_source_directories(vec![Some(s("a")), None]), None);
    assert_eq!(generated_source_directories(vec![]), Some(strings(&["src"])));
}

#[test]
fn source_directories_relative_to_the_generated_root() {
    let dirs = source_directories(
        &strings(&["/p/src", "/p/benchmarks", "/p/src"]),
        "/p/elm-stuff/benchmarks-0.19.1",
    );
    assert_eq!(dirs, Some(strings(&["../../src", "../../benchmarks", "src"])));
}

#[test]
fn relative_directory_from_an_absolute_root_needs_an_absolute_path() {
    assert_eq!(source_directories(&strings(&["src"]), "/p/elm-stuff"), None);
}

#[test]
fn runner_imports_each_module() {
    let modules = vec![test_module("Main", &["a"]), test_module("Data.Sort", &["b"])];
    assert_eq!(runner_imports(&modules), strings(&["import Main", "import Data.Sort"]));
}

#[test]
fn runner_groups_qualified_benchmarks() {
    let modules = vec![test_module("Main", &["a", "b"]), test_module("Data.Sort", &["c"])];
    assert_eq!(
        runner_tests(&modules),
        strings(&[
            "Benchmark.describe \"Main\" [ Main.a, Main.b ]",
            "Benchmark.describe \"Data.Sort\" [ Data.Sort.c ]",
        ])
    );
}

#[test]
fn runner_replacements_join_lines() {
    let modules = vec![test_module("Main", &["a"]), test_module("Other", &["b", "c"])];
    let replacements = runner_replacements(&modules);
    assert_eq!(
        replacements,
        vec![
            (s("user_imports"), s("import Main\nimport Other")),
            (
                s("tests"),
                s("Benchmark.describe \"Main\" [ Main.a ]\n    , Benchmark.describe \"Other\" [ Other.b, Other.c ]")
            ),
        ]
    );
}

#[test]
fn runner_replacements_without_modules() {
    assert_eq!(
        runner_replacements(&vec![]),
        vec![(s("user_imports"), s("")), (s("tests"), s(""))]
    );
}

#[test]
fn node_runner_replacements_carry_polyfills_and_report() {
    assert_eq!(
        node_runner_replacements("var x;", "json"),
        vec![(s("polyfills"), s("var x;")), (s("report"), s("json"))]
    );
}

#[test]
fn template_is_filled() {
    let replacements = vec![(s("user_imports"), s("import Main")), (s("tests"), s("Main.a"))];
    let template = "module Runner exposing (..)\n{{ user_imports }}\nsuite = [ {{tests}} ]\n";
    assert_eq!(
        instantiate_template(template, &replacements),
        "module Runner exposing (..)\nimport Main\nsuite = [ Main.a ]\n"
    );
    assert_eq!(
        render_template(template, &replacements).unwrap(),
        "module Runner exposing (..)\nimport Main\nsuite = [ Main.a ]\n"
    );
}

#[test]
fn template_without_placeholders_is_unchanged() {
    assert_eq!(render_template("plain { text }", &vec![]).unwrap(), "plain { text }");
}

#[test]
fn later_replacement_of_a_key_wins() {
    let replacements = vec![(s("k"), s("one")), (s("k"), s("two"))];
    assert_eq!(render_template("{{k}}", &replacements).unwrap(), "two");
}

#[test]
fn unknown_template_key_is_an_error() {
    let replacements = vec![(s("report"), s("json"))];
    match render_template("{{ polyfills }} {{ report }}", &replacements) {
        Err(TemplateError::UnknownKey(e)) => {
            assert_eq!(e.to_string(), "1:1 unknown variable 'polyfills'")
        }
        other => panic!("unexpected {:?}", other),
    }
}

#[test]
fn compiler_arguments_optimize_by_default() {
    assert_eq!(
        compile_args("/dev/null", &strings(&["/p/benchmarks/A.elm", "/p/benchmarks/B.elm"]), true),
        strings(&["make", "--optimize", "--output=/dev/null", "/p/benchmarks/A.elm", "/p/benchmarks/B.elm"])
    );
    assert_eq!(
        compile_args("js/Runner.elm.js", &vec![], true),
        strings(&["make", "--optimize", "--output=js/Runner.elm.js"])
    );
}

#[test]
fn no_optimize_drops_the_optimize_flag() {
    assert_eq!(
        compile_args("/dev/null", &strings(&["/p/benchmarks/A.elm"]), false),
        strings(&["make", "--output=/dev/null", "/p/benchmarks/A.elm"])
    );
    assert_eq!(compile_args("out.js", &vec![], false), strings(&["make", "--output=out.js"]));
}

#[test]
fn waiting_for_the_supervisor() {
    assert_eq!(after_poll(ChildPoll::Exited(Some(3))), WaitStep::Finished(Some(3)));
    assert_eq!(after_poll(ChildPoll::Exited(None)), WaitStep::Finished(None));
    assert_eq!(after_poll(ChildPoll::Running), WaitStep::Block);
    assert_eq!(after_poll(ChildPoll::Failed), WaitStep::Finished(None));
    assert_eq!(after_wait(Some(Some(0))), Some(0));
    assert_eq!(after_wait(Some(None)), None);
    assert_eq!(after_wait(None), None);
}

#[test]
fn exit_code_defaults_to_one() {
    assert_eq!(supervisor_exit_code(Some(0)), 0);
    assert_eq!(supervisor_exit_code(Some(2)), 2);
    assert_eq!(supervisor_exit_code(None), 1);
}

#[test]
fn join_puts_separator_between() {
    assert_eq!(join(&strings(&["a", "b", "c"]), ", "), "a, b, c");
    assert_eq!(join(&strings(&["a"]), ", "), "a");
    assert_eq!(join(&vec![], ", "), "");
}

#[test]
fn prefix_test_by_characters() {
    assert!(starts_with("fooBar", "foo"));
    assert!(starts_with("foo", ""));
    assert!(starts_with("héllo", "hé"));
    assert!(!starts_with("fo", "foo"));
    assert!(!starts_with("barfoo", "foo"));
}

#[test]
fn unpacking_writes_files_then_creates_each_subdirectory() {
    let tree = IncludedDir {
        path: s(""),
        files: vec![IncludedFile { path: s("Console.elm"), contents: b"c".to_vec() }],
        dirs: vec![IncludedDir {
            path: s("Benchmark"),
            files: vec![],
            dirs: vec![IncludedDir {
                path: s("Benchmark/Runner"),
                files: vec![IncludedFile { path: s("Benchmark/Runner/Node.elm"), contents: b"n".to_vec() }],
                dirs: vec![],
            }],
        }],
    };
    let steps = unpack_included_dir(&tree);
    assert_eq!(steps.len(), 4);
    match &steps[0] {
        UnpackStep::WriteFile(p, c) => {
            assert_eq!(p, "Console.elm");
            assert_eq!(c, b"c");
        }
        other => panic!("unexpected {:?}", other),
    }
    assert!(matches!(&steps[1], UnpackStep::CreateDir(p) if p == "Benchmark"));
    assert!(matches!(&steps[2], UnpackStep::CreateDir(p) if p == "Benchmark/Runner"));
    assert!(matches!(&steps[3], UnpackStep::WriteFile(p, c) if p == "Benchmark/Runner/Node.elm" && c == b"n"));
}

#[test]
fn root_itself_is_the_empty_relative_directory() {
    assert_eq!(source_directories(&strings(&["/p/x"]), "/p/x"), Some(strings(&["", "src"])));
    assert_eq!(source_directories(&vec![], "/p/x"), Some(strings(&["src"])));
}
