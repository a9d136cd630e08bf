//! The report of `elmi-to-json` on the compiled `.elmi` files, and the
//! benchmarks that it exposes.
use vstd::prelude::*;
use vstd::utf8::{encode_utf8, valid_utf8};
use crate::json::{Json, is_benchmark, is_benchmark_annotation};
use crate::text::{has_prefix, starts_with};

verus! {

/// An exposed value of a module, with its type annotation.
#[derive(Debug)]
pub struct Value {
    pub annotation: Json,
}

/// A type annotation in its printed form.
#[derive(Debug)]
pub struct Annotation {
    pub annotation: String,
}

/// A module as `elmi-to-json` lists it. `values` pairs each exposed name
/// with its value; a name occurs once.
#[derive(Debug)]
pub struct Module {
    pub home: String,
    pub module_name: String,
    pub path: String,
    pub values: Vec<(String, Value)>,
}

/// The whole report: the modules of the project.
#[derive(Debug)]
pub struct ElmiToJsonOutput {
    pub internals: Vec<Module>,
}

/// A module with the names of the benchmarks that it exposes.
#[derive(Debug)]
pub struct TestModule {
    pub module_name: String,
    pub path: String,
    pub tests: Vec<String>,
}

/// A [`TestModule`] as character sequences.
pub struct TestModuleView {
    pub module_name: Seq<char>,
    pub path: Seq<char>,
    pub tests: Seq<Seq<char>>,
}

impl View for TestModule {
    type V = TestModuleView;

    open spec fn view(&self) -> TestModuleView {
        TestModuleView {
            module_name: self.module_name@,
            path: self.path@,
            tests: self.tests@.map_values(|t: String| t@),
        }
    }
}

impl Module {
    /// No exposed name occurs twice.
    pub open spec fn names_unique(&self) -> bool {
        forall|i: int, j: int|
            0 <= i < j < self.values@.len() ==> self.values@[i].0@ != self.values@[j].0@
    }
}

/// A name passes the prefix filter: there is none, or it starts with it.
pub open spec fn selected(name: Seq<char>, prefix: Option<Seq<char>>) -> bool {
    match prefix {
        None => true,
        Some(p) => has_prefix(name, p),
    }
}

/// The names, in order, of the values that are benchmarks and pass the filter.
pub open spec fn benchmark_names(values: Seq<(String, Value)>, prefix: Option<Seq<char>>) -> Seq<
    Seq<char>,
>
    decreases values.len(),
{
    if values.len() == 0 {
        Seq::empty()
    } else {
        let rest = benchmark_names(values.drop_last(), prefix);
        let last = values.last();
        if is_benchmark_annotation(last.1.annotation) && selected(last.0@, prefix) {
            rest.push(last.0@)
        } else {
            rest
        }
    }
}

/// The modules, in order, that expose at least one selected benchmark, each
/// with the names of those benchmarks.
pub open spec fn benchmark_modules(internals: Seq<Module>, prefix: Option<Seq<char>>) -> Seq<
    TestModuleView,
>
    decreases internals.len(),
{
    if internals.len() == 0 {
        Seq::empty()
    } else {
        let rest = benchmark_modules(internals.drop_last(), prefix);
        let m = internals.last();
        let names = benchmark_names(m.values@, prefix);
        if names.len() > 0 {
            rest.push(TestModuleView { module_name: m.module_name@, path: m.path@, tests: names })
        } else {
            rest
        }
    }
}

/// A benchmark name is listed exactly when an exposed value of that name
/// has the type `Benchmark` and its name passes the prefix filter.
pub proof fn lemma_benchmark_names_exact(values: Seq<(String, Value)>, prefix: Option<Seq<char>>)
    ensures
        forall|n: Seq<char>|
            benchmark_names(values, prefix).contains(n) <==> exists|j: int|
                0 <= j < values.len() && (#[trigger] values[j]).0@ == n
                    && is_benchmark_annotation(values[j].1.annotation) && selected(n, prefix),
    decreases values.len(),
{
    if values.len() > 0 {
        let init = values.drop_last();
        lemma_benchmark_names_exact(init, prefix);
        let rest = benchmark_names(init, prefix);
        let last = values.last();
        let keep = is_benchmark_annotation(last.1.annotation) && selected(last.0@, prefix);
        assert forall|n: Seq<char>|
            benchmark_names(values, prefix).contains(n) <==> exists|j: int|
                0 <= j < values.len() && (#[trigger] values[j]).0@ == n
                    && is_benchmark_annotation(values[j].1.annotation) && selected(n, prefix) by {
            let names = benchmark_names(values, prefix);
            if names.contains(n) {
                let k = choose|k: int| 0 <= k < names.len() && names[k] == n;
                if k < rest.len() {
                    assert(rest[k] == n);
                    assert(rest.contains(n));
                    let j = choose|j: int|
                        0 <= j < init.len() && (#[trigger] init[j]).0@ == n
                            && is_benchmark_annotation(init[j].1.annotation) && selected(n, prefix);
                    assert(values[j] == init[j]);
                } else {
                    assert(values[values.len() - 1] == last);
                }
            }
            if exists|j: int|
                0 <= j < values.len() && (#[trigger] values[j]).0@ == n
                    && is_benchmark_annotation(values[j].1.annotation) && selected(n, prefix) {
                let j = choose|j: int|
                    0 <= j < values.len() && (#[trigger] values[j]).0@ == n
                        && is_benchmark_annotation(values[j].1.annotation) && selected(n, prefix);
                if j < values.len() - 1 {
                    assert(init[j] == values[j]);
                    assert(rest.contains(n));
                    let k = choose|k: int| 0 <= k < rest.len() && rest[k] == n;
                    assert(names[k] == n);
                } else {
                    assert(names[names.len() - 1] == n);
                }
            }
        }
    }
}

/// With a prefix, every listed benchmark name starts with it, character for
/// character; a name shorter than the prefix is never listed.
pub proof fn lemma_benchmark_names_start_with_prefix(
    values: Seq<(String, Value)>,
    prefix: Option<Seq<char>>,
)
    ensures
        prefix matches Some(p) ==> forall|k: int|
            0 <= k < benchmark_names(values, prefix).len() ==> {
                let n = #[trigger] benchmark_names(values, prefix)[k];
                p.len() <= n.len() && n.subrange(0, p.len() as int) == p
            },
    decreases values.len(),
{
    if values.len() > 0 {
        lemma_benchmark_names_start_with_prefix(values.drop_last(), prefix);
        let rest = benchmark_names(values.drop_last(), prefix);
        let names = benchmark_names(values, prefix);
        if prefix is Some {
            assert forall|k: int| 0 <= k < names.len() implies {
                let n = #[trigger] names[k];
                prefix->0.len() <= n.len() && n.subrange(0, prefix->0.len() as int) == prefix->0
            } by {
                if k < rest.len() {
                    assert(names[k] == rest[k]);
                }
            }
        }
    }
}

/// Where a module exposes each name once, each benchmark is listed once.
pub proof fn lemma_benchmark_names_unique(values: Seq<(String, Value)>, prefix: Option<Seq<char>>)
    requires
        forall|i: int, j: int| 0 <= i < j < values.len() ==> values[i].0@ != values[j].0@,
    ensures
        forall|i: int, j: int|
            0 <= i < j < benchmark_names(values, prefix).len() ==> benchmark_names(values, prefix)[i]
                != benchmark_names(values, prefix)[j],
    decreases values.len(),
{
    if values.len() > 0 {
        let init = values.drop_last();
        lemma_benchmark_names_unique(init, prefix);
        lemma_benchmark_names_exact(init, prefix);
        let rest = benchmark_names(init, prefix);
        let last = values.last();
        let names = benchmark_names(values, prefix);
        if is_benchmark_annotation(last.1.annotation) && selected(last.0@, prefix) {
            assert forall|i: int, j: int| 0 <= i < j < names.len() implies names[i] != names[j] by {
                if j == names.len() - 1 {
                    assert(names[i] == rest[i]);
                    assert(rest.contains(rest[i]));
                    if rest[i] == last.0@ {
                        let k = choose|k: int|
                            0 <= k < init.len() && (#[trigger] init[k]).0@ == rest[i]
                                && is_benchmark_annotation(init[k].1.annotation) && selected(
                                rest[i],
                                prefix,
                            );
                        assert(values[k] == init[k]);
                        assert(values[values.len() - 1] == last);
                    }
                } else {
                    assert(names[i] == rest[i] && names[j] == rest[j]);
                }
            }
        }
    }
}

/// Every module that comes back exposes at least one selected benchmark,
/// and comes from a module of the report with the same name and path,
/// whose selected benchmarks it lists; every module of the report with a
/// selected benchmark comes back.
pub proof fn lemma_benchmark_modules_exact(internals: Seq<Module>, prefix: Option<Seq<char>>)
    ensures
        forall|i: int|
            0 <= i < benchmark_modules(internals, prefix).len() ==> {
                let t = #[trigger] benchmark_modules(internals, prefix)[i];
                &&& t.tests.len() > 0
                &&& exists|j: int|
                    0 <= j < internals.len() && t.module_name == (#[trigger] internals[j]).module_name@
                        && t.path == internals[j].path@ && t.tests == benchmark_names(
                        internals[j].values@,
                        prefix,
                    )
            },
        forall|j: int|
            0 <= j < internals.len() && benchmark_names((#[trigger] internals[j]).values@, prefix).len()
                > 0 ==> benchmark_modules(internals, prefix).contains(
                TestModuleView {
                    module_name: internals[j].module_name@,
                    path: internals[j].path@,
                    tests: benchmark_names(internals[j].values@, prefix),
                },
            ),
    decreases internals.len(),
{
    if internals.len() > 0 {
        let init = internals.drop_last();
        lemma_benchmark_modules_exact(init, prefix);
        let rest = benchmark_modules(init, prefix);
        let all = benchmark_modules(internals, prefix);
        let m = internals.last();
        assert forall|i: int| 0 <= i < all.len() implies {
            let t = #[trigger] all[i];
            &&& t.tests.len() > 0
            &&& exists|j: int|
                0 <= j < internals.len() && t.module_name == (#[trigger] internals[j]).module_name@
                    && t.path == internals[j].path@ && t.tests == benchmark_names(
                    internals[j].values@,
                    prefix,
                )
        } by {
            if i < rest.len() {
                assert(all[i] == rest[i]);
                let t = rest[i];
                let j = choose|j: int|
                    0 <= j < init.len() && t.module_name == (#[trigger] init[j]).module_name@
                        && t.path == init[j].path@ && t.tests == benchmark_names(
                        init[j].values@,
                        prefix,
                    );
                assert(internals[j] == init[j]);
            } else {
                assert(internals[internals.len() - 1] == m);
            }
        }
        assert forall|j: int|
            0 <= j < internals.len() && benchmark_names((#[trigger] internals[j]).values@, prefix).len()
                > 0 implies all.contains(
            TestModuleView {
                module_name: internals[j].module_name@,
                path: internals[j].path@,
                tests: benchmark_names(internals[j].values@, prefix),
            },
        ) by {
            let v = TestModuleView {
                module_name: internals[j].module_name@,
                path: internals[j].path@,
                tests: benchmark_names(internals[j].values@, prefix),
            };
            if j < internals.len() - 1 {
                assert(init[j] == internals[j]);
                assert(rest.contains(v));
                let k = choose|k: int| 0 <= k < rest.len() && rest[k] == v;
                assert(all[k] == v);
            } else {
                assert(all[all.len() - 1] == v);
            }
        }
    }
}

/// The views of a sequence of test modules.
pub open spec fn modules_view(ms: Seq<TestModule>) -> Seq<TestModuleView> {
    ms.map_values(|m: TestModule| m@)
}

/// The names of the selected benchmarks of one module, in its order.
fn module_benchmarks(module: &Module, prefix: &Option<String>) -> (res: Vec<String>)
    ensures
        res@.map_values(|t: String| t@) == benchmark_names(module.values@, prefix.deep_view()),
{
    let mut names: Vec<String> = Vec::new();
    let mut i: usize = 0;
    while i < module.values.len()
        invariant
            i <= module.values.len(),
            names@.map_values(|t: String| t@) == benchmark_names(
                module.values@.take(i as int),
                prefix.deep_view(),
            ),
        decreases module.values.len() - i,
    {
        let (name, value) = &module.values[i];
        let keep = if is_benchmark(&value.annotation) {
            match prefix {
                None => true,
                Some(p) => starts_with(name.as_str(), p.as_str()),
            }
        } else {
            false
        };
        let ghost before = names@;
        if keep {
            names.push(name.clone());
        }
        proof {
            assert(module.values@.take(i + 1).drop_last() =~= module.values@.take(i as int));
            if keep {
                assert(names@.map_values(|t: String| t@) =~= before.map_values(|t: String| t@).push(
                    name@,
                ));
            }
        }
        i = i + 1;
    }
    assert(module.values@.take(module.values.len() as int) =~= module.values@);
    names
}

/// Extracts the exposed benchmarks from the report: each module with at
/// least one exposed value whose type is `Benchmark` of
/// `elm-explorations/benchmark` and whose name starts with `prefix`
/// (when there is one), with those names, in the report's order.
pub fn all_tests(output: &ElmiToJsonOutput, prefix: &Option<String>) -> (res: Vec<TestModule>)
    ensures
        modules_view(res@) == benchmark_modules(output.internals@, prefix.deep_view()),
        prefix is Some ==> forall|i: int, j: int|
            0 <= i < res@.len() && 0 <= j < res@[i].tests@.len() ==> {
                let n = (#[trigger] res@[i].tests@[j])@;
                let p = prefix->0@;
                p.len() <= n.len() && n.subrange(0, p.len() as int) == p
            },
{
    let mut benchmark_modules_found: Vec<TestModule> = Vec::new();
    let mut i: usize = 0;
    while i < output.internals.len()
        invariant
            i <= output.internals.len(),
            modules_view(benchmark_modules_found@) == benchmark_modules(
                output.internals@.take(i as int),
                prefix.deep_view(),
            ),
        decreases output.internals.len() - i,
    {
        let module = &output.internals[i];
        let benchmark_values = module_benchmarks(module, prefix);
        let ghost before = benchmark_modules_found@;
        if benchmark_values.len() > 0 {
            benchmark_modules_found.push(
                TestModule {
                    module_name: module.module_name.clone(),
                    path: module.path.clone(),
                    tests: benchmark_values,
                },
            );
        }
        proof {
            assert(output.internals@.take(i + 1).drop_last() =~= output.internals@.take(i as int));
            if benchmark_values.len() > 0 {
                assert(modules_view(benchmark_modules_found@) =~= modules_view(before).push(
                    benchmark_modules_found@.last()@,
                ));
            }
        }
        i = i + 1;
    }
    assert(output.internals@.take(output.internals.len() as int) =~= output.internals@);
    proof {
        let ms = benchmark_modules(output.internals@, prefix.deep_view());
        lemma_benchmark_modules_exact(output.internals@, prefix.deep_view());
        if prefix is Some {
            assert forall|i: int, j: int|
                0 <= i < benchmark_modules_found@.len() && 0 <= j
                    < benchmark_modules_found@[i].tests@.len() implies {
                let n = (#[trigger] benchmark_modules_found@[i].tests@[j])@;
                let p = prefix->0@;
                p.len() <= n.len() && n.subrange(0, p.len() as int) == p
            } by {
                let t = ms[i];
                assert(modules_view(benchmark_modules_found@)[i] == benchmark_modules_found@[i]@);
                assert(t.tests[j] == benchmark_modules_found@[i].tests@[j]@);
                let jj = choose|jj: int|
                    0 <= jj < output.internals@.len() && t.module_name == (
                    #[trigger] output.internals@[jj]).module_name@ && t.path
                        == output.internals@[jj].path@ && t.tests == benchmark_names(
                        output.internals@[jj].values@,
                        prefix.deep_view(),
                    );
                lemma_benchmark_names_start_with_prefix(
                    output.internals@[jj].values@,
                    prefix.deep_view(),
                );
                assert(benchmark_names(output.internals@[jj].values@, prefix.deep_view())[j]
                    == t.tests[j]);
            }
        }
    }
    benchmark_modules_found
}

/// `std::str::from_utf8`: the bytes read as a string slice, if they are
/// well-formed UTF-8. Stated: the result is present exactly when the bytes
/// are valid UTF-8, and then it encodes back to those bytes.
#[verifier::external_body]
fn str_from_utf8(bytes: &[u8]) -> (res: Option<&str>)
    ensures
        res is Some <==> valid_utf8(bytes@),
        res matches Some(s) ==> encode_utf8(s@) == bytes@,
{
    match std::str::from_utf8(bytes) {
        Ok(s) => Some(s),
        Err(_) => None,
    }
}

/// The text that `elmi-to-json` printed, or the error that it is not UTF-8.
pub fn decode_output(stdout: &[u8]) -> (res: Result<String, String>)
    ensures
        res is Ok <==> valid_utf8(stdout@),
        res matches Ok(s) ==> encode_utf8(s@) == stdout@,
        res matches Err(e) ==> e@ == "Output of elmi-to-json is not valid UTF-8"@,
{
    match str_from_utf8(stdout) {
        Some(s) => Ok(s.to_owned()),
        None => Err(String::from_str("Output of elmi-to-json is not valid UTF-8")),
    }
}

} // verus!
