use elm_bench::elm_json::{config_kind, source_directories, ConfigKind};
use elm_bench::json::{is_benchmark, Json};

fn s(x: &str) -> String {
    x.to_string()
}

fn object(fields: Vec<(&str, Json)>) -> Json {
    Json::Object(fields.into_iter().map(|(k, v)| (s(k), v)).collect())
}

#[test]
fn application_and_package_are_told_apart() {
    assert_eq!(
        config_kind(&object(vec![("type", Json::String(s("application")))])),
        Some(ConfigKind::Application)
    );
    assert_eq!(
        config_kind(&object(vec![("name", Json::String(s("a/b"))), ("type", Json::String(s("package")))])),
        Some(ConfigKind::Package)
    );
    assert_eq!(config_kind(&object(vec![("type", Json::String(s("library")))])), None);
    assert_eq!(config_kind(&object(vec![])), None);
    assert_eq!(config_kind(&Json::Null), None);
}

#[test]
fn source_directories_are_the_strings_of_the_array() {
    let config = object(vec![
        ("type", Json::String(s("application"))),
        (
            "source-directories",
            Json::Array(vec![Json::String(s("src")), Json::Null, Json::String(s("../lib"))]),
        ),
    ]);
    assert_eq!(source_directories(&config), vec![s("src"), s("../lib")]);
    assert!(source_directories(&object(vec![("type", Json::String(s("application")))])).is_empty());
    assert!(source_directories(&object(vec![("source-directories", Json::String(s("src")))])).is_empty());
}

fn annotation(outer_extra: Vec<(&str, Json)>, inner_extra: Vec<(&str, Json)>) -> Json {
    let mut inner = vec![
        ("module", Json::String(s("Benchmark"))),
        ("package", Json::String(s("elm-explorations/benchmark"))),
    ];
    inner.extend(inner_extra);
    let mut outer = vec![("moduleName", object(inner))];
    outer.extend(outer_extra);
    object(outer)
}

#[test]
fn extra_members_do_not_change_detection() {
    assert!(is_benchmark(&annotation(vec![], vec![])));
    assert!(is_benchmark(&annotation(
        vec![("name", Json::String(s("Benchmark"))), ("args", Json::Array(vec![]))],
        vec![],
    )));
    assert!(is_benchmark(&annotation(vec![], vec![("version", Json::Number(s("1")))])));
}
