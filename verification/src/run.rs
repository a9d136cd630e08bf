//! The decisions of a benchmark run: what the options ask for, where the
//! benchmark sources are, which arguments the compiler gets, what the
//! generated runner imports and runs, and how the supervisor's end is read.
use vstd::prelude::*;
use crate::elmi::{TestModule, TestModuleView, modules_view};
use crate::text::{join, joined, strings_view, lemma_strings_view_push, lemma_strings_view_index};

verus! {

/// Options passed as arguments.
#[derive(Debug)]
pub struct Options {
    pub help: bool,
    pub version: bool,
    pub compiler: String,
    pub prefix: Option<String>,
    pub no_optimize: bool,
    pub report: String,
    pub files: Vec<String>,
}

/// What a run starts with.
#[derive(Debug, PartialEq, Eq, Structural)]
pub enum Startup {
    /// Print the help message and stop.
    Help,
    /// Print the version and stop.
    Version,
    /// The report format is neither `console` nor `json`: say so, print the
    /// help message and stop.
    UnknownReport,
    /// Run the benchmarks.
    Run,
}

/// The report formats that a run accepts.
pub open spec fn known_report(report: Seq<char>) -> bool {
    report == "console"@ || report == "json"@
}

/// The help option comes first, then the version option, then the check
/// of the report format.
pub open spec fn startup_of(options: Options) -> Startup {
    if options.help {
        Startup::Help
    } else if options.version {
        Startup::Version
    } else if !known_report(options.report@) {
        Startup::UnknownReport
    } else {
        Startup::Run
    }
}

/// The help option wins over everything; else the version option wins,
/// whatever the report format; only with neither is the report format
/// looked at, and a run happens exactly when it is `console` or `json`.
pub proof fn lemma_startup_priorities(options: Options)
    ensures
        options.help ==> startup_of(options) == Startup::Help,
        !options.help && options.version ==> startup_of(options) == Startup::Version,
        !options.help && !options.version ==> (startup_of(options) == Startup::Run <==> (
        options.report@ == "console"@ || options.report@ == "json"@)),
        !options.help && !options.version ==> (startup_of(options) == Startup::UnknownReport <==> !(
        options.report@ == "console"@ || options.report@ == "json"@)),
{
}

/// Decides what a run with these options starts with.
pub fn startup(options: &Options) -> (res: Startup)
    ensures
        res == startup_of(*options),
        options.help ==> res == Startup::Help,
        !options.help && options.version ==> res == Startup::Version,
        !options.help && !options.version ==> (res == Startup::Run <==> (options.report@
            == "console"@ || options.report@ == "json"@)),
        !options.help && !options.version ==> (res == Startup::UnknownReport <==> !(
        options.report@ == "console"@ || options.report@ == "json"@)),
{
    proof {
        lemma_startup_priorities(*options);
    }
    if options.help {
        Startup::Help
    } else if options.version {
        Startup::Version
    } else if options.report == String::from_str("console") || options.report == String::from_str(
        "json",
    ) {
        Startup::Run
    } else {
        Startup::UnknownReport
    }
}

/// The directories searched for benchmark modules when no files are given:
/// `<root>/benchmarks` itself, or, where `benchmarks/elm.json` describes an
/// application, `<root>/benchmarks/<dir>` for each of its source
/// directories. With files given, none.
pub open spec fn benchmark_dirs_of(
    root: Seq<char>,
    files: Seq<Seq<char>>,
    application_dirs: Option<Seq<Seq<char>>>,
) -> Seq<Seq<char>> {
    if files.len() > 0 {
        Seq::empty()
    } else {
        match application_dirs {
            None => seq![root + "/benchmarks"@],
            Some(dirs) => dirs.map_values(|d: Seq<char>| root + "/benchmarks/"@ + d),
        }
    }
}

/// With files given there are no benchmark directories, whatever
/// `benchmarks/elm.json` says; without, there is `<root>/benchmarks`, or
/// `<root>/benchmarks/<dir>` for each application source directory.
pub proof fn lemma_benchmark_dirs(
    root: Seq<char>,
    files: Seq<Seq<char>>,
    application_dirs: Option<Seq<Seq<char>>>,
)
    ensures
        files.len() > 0 ==> benchmark_dirs_of(root, files, application_dirs).len() == 0,
        files.len() == 0 && application_dirs is None ==> benchmark_dirs_of(
            root,
            files,
            application_dirs,
        ) == seq![root + "/benchmarks"@],
        files.len() == 0 && application_dirs is Some ==> benchmark_dirs_of(
            root,
            files,
            application_dirs,
        ).len() == application_dirs->0.len() && forall|i: int|
            0 <= i < application_dirs->0.len() ==> #[trigger] benchmark_dirs_of(
                root,
                files,
                application_dirs,
            )[i] == root + "/benchmarks/"@ + application_dirs->0[i],
{
}

/// Computes the benchmark source directories of the project at `root`.
/// `application_dirs` holds the source directories of `benchmarks/elm.json`
/// where that file describes an application, and nothing where it describes
/// a package or cannot be read.
pub fn benchmark_source_directories(
    root: &str,
    files: &Vec<String>,
    application_dirs: &Option<Vec<String>>,
) -> (res: Vec<String>)
    ensures
        strings_view(res@) == benchmark_dirs_of(
            root@,
            strings_view(files@),
            application_dirs.deep_view(),
        ),
        files.len() > 0 ==> res@.len() == 0,
        files.len() == 0 && application_dirs is None ==> res@.len() == 1 && res@[0]@ == root@
            + "/benchmarks"@,
        files.len() == 0 && application_dirs is Some ==> res@.len() == application_dirs->0@.len()
            && forall|i: int|
            0 <= i < res@.len() ==> #[trigger] res@[i]@ == root@ + "/benchmarks/"@
                + application_dirs->0@[i]@,
{
    proof {
        lemma_benchmark_dirs(root@, strings_view(files@), application_dirs.deep_view());
    }
    let mut res: Vec<String> = Vec::new();
    if files.len() > 0 {
        assert(strings_view(res@) =~= Seq::<Seq<char>>::empty());
        return res;
    }
    match application_dirs {
        None => {
            let mut dir = String::from_str(root);
            dir.append("/benchmarks");
            res.push(dir);
            assert(strings_view(res@) =~= seq![root@ + "/benchmarks"@]);
        },
        Some(dirs) => {
            let ghost expected = strings_view(dirs@).map_values(
                |d: Seq<char>| root@ + "/benchmarks/"@ + d,
            );
            let mut i: usize = 0;
            while i < dirs.len()
                invariant
                    i <= dirs.len(),
                    expected == strings_view(dirs@).map_values(
                        |d: Seq<char>| root@ + "/benchmarks/"@ + d,
                    ),
                    strings_view(res@) =~= expected.take(i as int),
                decreases dirs.len() - i,
            {
                let mut dir = String::from_str(root);
                dir.append("/benchmarks/");
                dir.append(dirs[i].as_str());
                let ghost before = res@;
                res.push(dir);
                proof {
                    lemma_strings_view_push(before, res@.last());
                    assert(expected.take(i + 1) =~= expected.take(i + 1 - 1).push(expected[i + 1 - 1]));
                }
                i = i + 1;
            }
            assert(expected.take(dirs.len() as int) =~= expected);
            assert(application_dirs.deep_view() == Some(strings_view(dirs@)));
            proof {
                lemma_strings_view_index(dirs@);
                lemma_strings_view_index(res@);
                assert forall|k: int| 0 <= k < res@.len() implies #[trigger] res@[k]@ == root@
                    + "/benchmarks/"@ + dirs@[k]@ by {
                    assert(strings_view(res@)[k] == expected[k]);
                    assert(strings_view(dirs@)[k] == dirs@[k]@);
                }
            }
        },
    }
    proof {
        lemma_strings_view_index(res@);
    }
    res
}

/// The two glob patterns of each directory: its `.elm` files, then those
/// of all its subdirectories.
pub open spec fn glob_patterns(dirs: Seq<Seq<char>>) -> Seq<Seq<char>>
    decreases dirs.len(),
{
    if dirs.len() == 0 {
        Seq::empty()
    } else {
        glob_patterns(dirs.drop_last()).push(dirs.last() + "/*.elm"@).push(
            dirs.last() + "/**/*.elm"@,
        )
    }
}

/// The patterns of the benchmark modules: those of the source directories
/// when no files are given, else the files themselves.
pub fn module_globs(source_dirs: &Vec<String>, files: &Vec<String>) -> (res: Vec<String>)
    ensures
        files.len() == 0 ==> strings_view(res@) == glob_patterns(strings_view(source_dirs@)),
        files.len() > 0 ==> strings_view(res@) == strings_view(files@),
{
    let mut res: Vec<String> = Vec::new();
    if files.len() == 0 {
        let ghost dirs = strings_view(source_dirs@);
        let mut i: usize = 0;
        while i < source_dirs.len()
            invariant
                i <= source_dirs.len(),
                dirs == strings_view(source_dirs@),
                strings_view(res@) =~= glob_patterns(dirs.take(i as int)),
            decreases source_dirs.len() - i,
        {
            let mut flat = source_dirs[i].clone();
            flat.append("/*.elm");
            let mut deep = source_dirs[i].clone();
            deep.append("/**/*.elm");
            res.push(flat);
            res.push(deep);
            assert(dirs.take(i + 1).drop_last() =~= dirs.take(i as int));
            i = i + 1;
        }
        assert(dirs.take(source_dirs.len() as int) =~= dirs);
    } else {
        let mut i: usize = 0;
        while i < files.len()
            invariant
                i <= files.len(),
                strings_view(res@) =~= strings_view(files@).take(i as int),
            decreases files.len() - i,
        {
            let ghost before = res@;
            res.push(files[i].clone());
            proof {
                lemma_strings_view_push(before, res@.last());
                assert(strings_view(files@).take(i + 1) =~= strings_view(files@).take(
                    i as int,
                ).push(files@[i as int]@));
            }
            i = i + 1;
        }
    }
    res
}

/// The import of a benchmark module in the generated runner.
pub open spec fn import_line(m: TestModuleView) -> Seq<char> {
    "import "@ + m.module_name
}

/// The benchmarks of a module, each qualified by the module's name.
pub open spec fn qualified_tests(m: TestModuleView) -> Seq<Seq<char>> {
    m.tests.map_values(|t: Seq<char>| m.module_name + "."@ + t)
}

/// The group of a module's benchmarks in the generated runner:
/// `Benchmark.describe "<module>" [ <module>.<a>, <module>.<b> ]`.
pub open spec fn describe_line(m: TestModuleView) -> Seq<char> {
    "Benchmark.describe \""@ + m.module_name + "\" [ "@ + joined(qualified_tests(m), ", "@)
        + " ]"@
}

/// The import of each benchmark module, in order.
pub fn runner_imports(modules: &Vec<TestModule>) -> (res: Vec<String>)
    ensures
        strings_view(res@) == modules_view(modules@).map_values(
            |m: TestModuleView| import_line(m),
        ),
{
    let ghost expected = modules_view(modules@).map_values(|m: TestModuleView| import_line(m));
    let mut res: Vec<String> = Vec::new();
    let mut i: usize = 0;
    while i < modules.len()
        invariant
            i <= modules.len(),
            expected == modules_view(modules@).map_values(|m: TestModuleView| import_line(m)),
            strings_view(res@) =~= expected.take(i as int),
        decreases modules.len() - i,
    {
        let mut line = String::from_str("import ");
        line.append(modules[i].module_name.as_str());
        let ghost before = res@;
        res.push(line);
        proof {
            lemma_strings_view_push(before, res@.last());
            assert(expected.take(i + 1) =~= expected.take(i + 1 - 1).push(expected[i + 1 - 1]));
        }
        i = i + 1;
    }
    assert(expected.take(modules.len() as int) =~= expected);
    res
}

/// The benchmarks of a module, each qualified by the module's name.
fn qualify_tests(module: &TestModule) -> (res: Vec<String>)
    ensures
        strings_view(res@) == qualified_tests(module@),
{
    let ghost expected = qualified_tests(module@);
    let mut res: Vec<String> = Vec::new();
    let mut i: usize = 0;
    while i < module.tests.len()
        invariant
            i <= module.tests.len(),
            expected == qualified_tests(module@),
            strings_view(res@) =~= expected.take(i as int),
        decreases module.tests.len() - i,
    {
        let mut name = module.module_name.clone();
        name.append(".");
        name.append(module.tests[i].as_str());
        let ghost before = res@;
        res.push(name);
        proof {
            lemma_strings_view_push(before, res@.last());
            assert(expected.take(i + 1) =~= expected.take(i + 1 - 1).push(expected[i + 1 - 1]));
        }
        i = i + 1;
    }
    assert(expected.take(module.tests.len() as int) =~= expected);
    res
}

/// The group of each benchmark module, in order.
pub fn runner_tests(modules: &Vec<TestModule>) -> (res: Vec<String>)
    ensures
        strings_view(res@) == modules_view(modules@).map_values(
            |m: TestModuleView| describe_line(m),
        ),
{
    let ghost expected = modules_view(modules@).map_values(|m: TestModuleView| describe_line(m));
    let mut res: Vec<String> = Vec::new();
    let mut i: usize = 0;
    while i < modules.len()
        invariant
            i <= modules.len(),
            expected == modules_view(modules@).map_values(|m: TestModuleView| describe_line(m)),
            strings_view(res@) =~= expected.take(i as int),
        decreases modules.len() - i,
    {
        let module = &modules[i];
        let qualified = qualify_tests(module);
        let mut line = String::from_str("Benchmark.describe \"");
        line.append(module.module_name.as_str());
        line.append("\" [ ");
        line.append(join(&qualified, ", ").as_str());
        line.append(" ]");
        let ghost before = res@;
        res.push(line);
        proof {
            lemma_strings_view_push(before, res@.last());
            assert(expected.take(i + 1) =~= expected.take(i + 1 - 1).push(expected[i + 1 - 1]));
        }
        i = i + 1;
    }
    assert(expected.take(modules.len() as int) =~= expected);
    res
}

/// The replacements of the runner template: the imports, one per line,
/// under `user_imports`, and the groups, as continued list items, under
/// `tests`.
pub open spec fn runner_replacements_of(modules: Seq<TestModuleView>) -> Seq<(Seq<char>, Seq<char>)> {
    seq![
        ("user_imports"@, joined(modules.map_values(|m: TestModuleView| import_line(m)), "\n"@)),
        ("tests"@, joined(modules.map_values(|m: TestModuleView| describe_line(m)), "\n    , "@)),
    ]
}

/// The replacements of the runner template for these benchmark modules.
pub fn runner_replacements(modules: &Vec<TestModule>) -> (res: Vec<(String, String)>)
    ensures
        res@.map_values(|p: (String, String)| (p.0@, p.1@)) == runner_replacements_of(
            modules_view(modules@),
        ),
{
    let imports = runner_imports(modules);
    let tests = runner_tests(modules);
    let mut res: Vec<(String, String)> = Vec::new();
    res.push((String::from_str("user_imports"), join(&imports, "\n")));
    res.push((String::from_str("tests"), join(&tests, "\n    , ")));
    assert(res@.map_values(|p: (String, String)| (p.0@, p.1@)) =~= runner_replacements_of(
        modules_view(modules@),
    ));
    res
}

/// The replacements of the node runner template: the polyfills and the
/// report format.
pub fn node_runner_replacements(polyfills: &str, report: &str) -> (res: Vec<(String, String)>)
    ensures
        res@.map_values(|p: (String, String)| (p.0@, p.1@)) == seq![
            ("polyfills"@, polyfills@),
            ("report"@, report@),
        ],
{
    let mut res: Vec<(String, String)> = Vec::new();
    res.push((String::from_str("polyfills"), String::from_str(polyfills)));
    res.push((String::from_str("report"), String::from_str(report)));
    assert(res@.map_values(|p: (String, String)| (p.0@, p.1@)) =~= seq![
        ("polyfills"@, polyfills@),
        ("report"@, report@),
    ]);
    res
}

/// The arguments of the compiler: `make`, `--optimize` unless optimizing
/// is turned off (`--no-optimize`), `--output=<output>`, then the sources.
pub open spec fn compile_args_of(output: Seq<char>, sources: Seq<Seq<char>>, optimize: bool) -> Seq<
    Seq<char>,
> {
    if optimize {
        seq!["make"@, "--optimize"@, "--output="@ + output] + sources
    } else {
        seq!["make"@, "--output="@ + output] + sources
    }
}

/// Optimizing puts `--optimize` second, for every list of sources; not
/// optimizing leaves it out: `make`, then `--output=<output>`, then the
/// sources in order.
pub proof fn lemma_compile_args(output: Seq<char>, sources: Seq<Seq<char>>, optimize: bool)
    ensures
        optimize ==> compile_args_of(output, sources, optimize).len() == sources.len() + 3
            && compile_args_of(output, sources, optimize)[0] == "make"@ && compile_args_of(
            output,
            sources,
            optimize,
        )[1] == "--optimize"@ && compile_args_of(output, sources, optimize)[2] == "--output="@
            + output && forall|i: int|
            0 <= i < sources.len() ==> #[trigger] compile_args_of(output, sources, optimize)[i
                + 3] == sources[i],
        !optimize ==> compile_args_of(output, sources, optimize).len() == sources.len() + 2
            && compile_args_of(output, sources, optimize)[0] == "make"@ && compile_args_of(
            output,
            sources,
            optimize,
        )[1] == "--output="@ + output && forall|i: int|
            0 <= i < sources.len() ==> #[trigger] compile_args_of(output, sources, optimize)[i
                + 2] == sources[i],
{
}

/// The arguments with which the compiler compiles `sources` into `output`,
/// in optimized mode where `optimize` holds.
pub fn compile_args(output: &str, sources: &Vec<String>, optimize: bool) -> (res: Vec<String>)
    ensures
        strings_view(res@) == compile_args_of(output@, strings_view(sources@), optimize),
        optimize ==> res@.len() == sources@.len() + 3 && res@[0]@ == "make"@ && res@[1]@
            == "--optimize"@ && res@[2]@ == "--output="@ + output@ && forall|i: int|
            0 <= i < sources@.len() ==> #[trigger] res@[i + 3]@ == sources@[i]@,
        !optimize ==> res@.len() == sources@.len() + 2 && res@[0]@ == "make"@ && res@[1]@
            == "--output="@ + output@ && forall|i: int|
            0 <= i < sources@.len() ==> #[trigger] res@[i + 2]@ == sources@[i]@,
{
    proof {
        lemma_compile_args(output@, strings_view(sources@), optimize);
    }
    let mut res: Vec<String> = Vec::new();
    res.push(String::from_str("make"));
    if optimize {
        res.push(String::from_str("--optimize"));
    }
    let mut out = String::from_str("--output=");
    out.append(output);
    res.push(out);
    let ghost head: int = if optimize { 3 } else { 2 };
    let ghost expected = compile_args_of(output@, strings_view(sources@), optimize);
    assert(strings_view(res@) =~= expected.take(head));
    let mut i: usize = 0;
    while i < sources.len()
        invariant
            i <= sources.len(),
            head == (if optimize { 3int } else { 2int }),
            expected == compile_args_of(output@, strings_view(sources@), optimize),
            expected.len() == head + sources.len(),
            strings_view(res@) =~= expected.take(i + head),
        decreases sources.len() - i,
    {
        let ghost before = res@;
        res.push(sources[i].clone());
        proof {
            lemma_strings_view_push(before, res@.last());
            assert(expected.take(i + head + 1) =~= expected.take(i + head).push(
                expected[i + head],
            ));
        }
        i = i + 1;
    }
    assert(expected.take(sources.len() + head) =~= expected);
    proof {
        lemma_strings_view_index(res@);
        lemma_strings_view_index(sources@);
        assert forall|i: int| 0 <= i < sources@.len() implies #[trigger] res@[i + head]@
            == sources@[i]@ by {
            assert(strings_view(res@)[i + head] == res@[i + head]@);
        }
    }
    res
}

/// What polling the supervisor process found.
#[derive(Debug, PartialEq, Eq, Structural)]
pub enum ChildPoll {
    /// It has ended, with this exit code (none when a signal ended it).
    Exited(Option<i32>),
    /// It is still running.
    Running,
    /// Polling it failed.
    Failed,
}

/// What to do after polling the supervisor.
#[derive(Debug, PartialEq, Eq, Structural)]
pub enum WaitStep {
    /// Stop waiting, with this exit code.
    Finished(Option<i32>),
    /// Block until it ends.
    Block,
}

/// After a poll: an ended process gives its code, a running one is waited
/// for, and a failed poll gives no code.
pub fn after_poll(poll: ChildPoll) -> (step: WaitStep)
    ensures
        poll matches ChildPoll::Exited(code) ==> step == WaitStep::Finished(code),
        poll is Running ==> step == WaitStep::Block,
        poll is Failed ==> step == WaitStep::Finished(None),
{
    match poll {
        ChildPoll::Exited(code) => WaitStep::Finished(code),
        ChildPoll::Running => WaitStep::Block,
        ChildPoll::Failed => WaitStep::Finished(None),
    }
}

/// After blocking until the supervisor ends: its exit code, or none where
/// the wait failed (`None`) or no code was given.
pub fn after_wait(waited: Option<Option<i32>>) -> (code: Option<i32>)
    ensures
        waited matches Some(c) ==> code == c,
        waited is None ==> code is None,
{
    match waited {
        Some(c) => c,
        None => None,
    }
}

/// The exit code of a run: the supervisor's, or 1 where it gave none.
pub fn supervisor_exit_code(code: Option<i32>) -> (res: i32)
    ensures
        code matches Some(c) ==> res == c,
        code is None ==> res == 1,
{
    match code {
        Some(c) => c,
        None => 1,
    }
}

} // verus!
