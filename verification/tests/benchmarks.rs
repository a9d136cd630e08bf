use elm_bench::elmi::{all_tests, decode_output, ElmiToJsonOutput, Module, TestModule, Value};
use elm_bench::json::{get_member, is_benchmark, Json};

fn s(x: &str) -> String {
    x.to_string()
}

fn object(fields: Vec<(&str, Json)>) -> Json {
    Json::Object(fields.into_iter().map(|(k, v)| (s(k), v)).collect())
}

fn annotation(module: &str, package: &str) -> Json {
    object(vec![
        (
            "moduleName",
            object(vec![
                ("package", Json::String(s(package))),
                ("module", Json::String(s(module))),
            ]),
        ),
        ("name", Json::String(s("Benchmark"))),
    ])
}

fn benchmark_annotation() -> Json {
    annotation("Benchmark", "elm-explorations/benchmark")
}

fn module(name: &str, values: Vec<(&str, Json)>) -> Module {
    Module {
        home: s("author/project"),
        module_name: s(name),
        path: format!("benchmarks/{}.elm", name),
        values: values
            .into_iter()
            .map(|(k, v)| (s(k), Value { annotation: v }))
            .collect(),
    }
}

fn names(m: &TestModule) -> Vec<&str> {
    m.tests.iter().map(|t| t.as_str()).collect()
}

#[test]
fn benchmark_annotation_is_detected() {
    assert!(is_benchmark(&benchmark_annotation()));
}

#[test]
fn benchmark_of_another_package_is_not_detected() {
    assert!(!is_benchmark(&annotation("Benchmark", "someone/benchmark")));
    assert!(!is_benchmark(&annotation("Suite", "elm-explorations/benchmark")));
}

#[test]
fn non_object_annotations_are_not_benchmarks() {
    assert!(!is_benchmark(&Json::Null));
    assert!(!is_benchmark(&Json::String(s("Benchmark"))));
    assert!(!is_benchmark(&Json::Array(vec![benchmark_annotation()])));
    assert!(!is_benchmark(&Json::Number(s("1"))));
    assert!(!is_benchmark(&Json::Bool(true)));
}

#[test]
fn module_name_must_be_an_object_with_string_members() {
    assert!(!is_benchmark(&object(vec![])));
    assert!(!is_benchmark(&object(vec![("moduleName", Json::String(s("Benchmark")))])));
    assert!(!is_benchmark(&object(vec![(
        "moduleName",
        object(vec![
            ("module", Json::String(s("Benchmark"))),
            ("package", Json::Null),
        ]),
    )])));
}

#[test]
fn first_member_of_a_name_is_the_one_read() {
    let fields = vec![
        (s("a"), Json::String(s("first"))),
        (s("a"), Json::String(s("second"))),
    ];
    match get_member(&fields, "a") {
        Some(Json::String(v)) => assert_eq!(v, "first"),
        other => panic!("unexpected {:?}", other),
    }
    assert!(get_member(&fields, "b").is_none());
}

#[test]
fn all_tests_keeps_modules_with_benchmarks_in_order() {
    let output = ElmiToJsonOutput {
        internals: vec![
            module(
                "Main",
                vec![
                    ("suite", benchmark_annotation()),
                    ("helper", object(vec![])),
                    ("other", benchmark_annotation()),
                ],
            ),
            module("Helpers", vec![("helper", Json::Null)]),
            module("Sorting", vec![("sorts", benchmark_annotation())]),
        ],
    };
    let found = all_tests(&output, &None);
    assert_eq!(found.len(), 2);
    assert_eq!(found[0].module_name, "Main");
    assert_eq!(found[0].path, "benchmarks/Main.elm");
    assert_eq!(names(&found[0]), vec!["suite", "other"]);
    assert_eq!(found[1].module_name, "Sorting");
    assert_eq!(names(&found[1]), vec!["sorts"]);
}

#[test]
fn prefix_filters_definition_names() {
    let output = ElmiToJsonOutput {
        internals: vec![
            module(
                "Main",
                vec![("foo", benchmark_annotation()), ("bar", benchmark_annotation())],
            ),
            module("Other", vec![("barfoo", benchmark_annotation())]),
        ],
    };
    let found = all_tests(&output, &Some(s("foo")));
    assert_eq!(found.len(), 1);
    assert_eq!(found[0].module_name, "Main");
    assert_eq!(names(&found[0]), vec!["foo"]);
    let found = all_tests(&output, &Some(s("ba")));
    assert_eq!(found.len(), 2);
    assert_eq!(names(&found[0]), vec!["bar"]);
    assert_eq!(names(&found[1]), vec!["barfoo"]);
}

#[test]
fn empty_report_has_no_benchmarks() {
    let output = ElmiToJsonOutput { internals: vec![] };
    assert!(all_tests(&output, &None).is_empty());
}

#[test]
fn utf8_output_is_decoded() {
    assert_eq!(decode_output("{\"internals\":[]} é".as_bytes()), Ok(s("{\"internals\":[]} é")));
    assert_eq!(decode_output(b""), Ok(s("")));
}

#[test]
fn invalid_utf8_output_is_refused() {
    assert_eq!(
        decode_output(&[0x7b, 0xff, 0x7d]),
        Err(s("Output of elmi-to-json is not valid UTF-8"))
    );
}
