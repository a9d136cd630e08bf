//! A plain model of a JSON value, as much of it as the benchmark detection
//! reads, and the detection itself.
use vstd::prelude::*;

verus! {

/// A JSON value. Numbers keep their textual form; objects keep their
/// members in order.
#[derive(Debug)]
pub enum Json {
    Null,
    Bool(bool),
    Number(String),
    String(String),
    Array(Vec<Json>),
    Object(Vec<(String, Json)>),
}

/// The value of the first member of `fields` named `key`, if any.
pub open spec fn member(fields: Seq<(String, Json)>, key: Seq<char>) -> Option<Json>
    decreases fields.len(),
{
    if fields.len() == 0 {
        None
    } else if fields[0].0@ == key {
        Some(fields[0].1)
    } else {
        member(fields.drop_first(), key)
    }
}

/// `v` is a JSON string whose characters are `s`.
pub open spec fn is_string_with(v: Option<Json>, s: Seq<char>) -> bool {
    v matches Some(Json::String(t)) && t@ == s
}

/// The annotation of an exposed value names the type `Benchmark` of the
/// package `elm-explorations/benchmark`: it is an object whose member
/// `moduleName` is an object with `module` equal to `"Benchmark"` and
/// `package` equal to `"elm-explorations/benchmark"`.
pub open spec fn is_benchmark_annotation(value: Json) -> bool {
    match value {
        Json::Object(fields) => match member(fields@, "moduleName"@) {
            Some(Json::Object(module_name)) => {
                &&& is_string_with(member(module_name@, "module"@), "Benchmark"@)
                &&& is_string_with(member(module_name@, "package"@), "elm-explorations/benchmark"@)
            },
            _ => false,
        },
        _ => false,
    }
}

/// `big` is `small` with members added anywhere (any number of them), none
/// of which has a name in `avoid`.
pub open spec fn adds_other_members(
    small: Seq<(String, Json)>,
    big: Seq<(String, Json)>,
    avoid: Set<Seq<char>>,
) -> bool
    decreases big.len(),
{
    if big.len() == 0 {
        small.len() == 0
    } else if small.len() > 0 && big[0] == small[0] {
        adds_other_members(small.drop_first(), big.drop_first(), avoid)
    } else {
        !avoid.contains(big[0].0@) && adds_other_members(small, big.drop_first(), avoid)
    }
}

/// Adding members whose names are not in `avoid` does not change which
/// value a name in `avoid` has.
pub proof fn lemma_member_with_other_members(
    small: Seq<(String, Json)>,
    big: Seq<(String, Json)>,
    avoid: Set<Seq<char>>,
    key: Seq<char>,
)
    requires
        adds_other_members(small, big, avoid),
        avoid.contains(key),
    ensures
        member(big, key) == member(small, key),
    decreases big.len(),
{
    if big.len() > 0 {
        if small.len() > 0 && big[0] == small[0] {
            lemma_member_with_other_members(small.drop_first(), big.drop_first(), avoid, key);
        } else {
            lemma_member_with_other_members(small, big.drop_first(), avoid, key);
        }
    }
}

/// Whether an annotation is a benchmark's depends on its `moduleName`
/// member alone, and where that is an object, on its `module` and
/// `package` members alone.
pub proof fn lemma_benchmark_reads_three_members(v1: Json, v2: Json)
    requires
        v1 matches Json::Object(f1) && v2 matches Json::Object(f2) && (member(f1@, "moduleName"@)
            == member(f2@, "moduleName"@) || (member(f1@, "moduleName"@) matches Some(
            Json::Object(m1),
        ) && member(f2@, "moduleName"@) matches Some(Json::Object(m2)) && member(m1@, "module"@)
            == member(m2@, "module"@) && member(m1@, "package"@) == member(m2@, "package"@))),
    ensures
        is_benchmark_annotation(v2) == is_benchmark_annotation(v1),
{
}

/// Adding any number of members other than `moduleName` to an annotation
/// object does not change whether it is a benchmark's.
pub proof fn lemma_benchmark_ignores_other_members(v1: Json, v2: Json)
    requires
        v1 matches Json::Object(f1) && v2 matches Json::Object(f2) && adds_other_members(
            f1@,
            f2@,
            set!["moduleName"@],
        ),
    ensures
        is_benchmark_annotation(v2) == is_benchmark_annotation(v1),
{
    if let Json::Object(f1) = v1 {
        if let Json::Object(f2) = v2 {
            lemma_member_with_other_members(f1@, f2@, set!["moduleName"@], "moduleName"@);
        }
    }
}

/// Adding any number of members other than `module` and `package` to the
/// `moduleName` object of an annotation, while the annotation's
/// `moduleName` member is that object (whatever other members are added
/// to the annotation itself), does not change whether it is a benchmark's.
pub proof fn lemma_benchmark_ignores_other_module_name_members(v1: Json, v2: Json)
    requires
        v1 matches Json::Object(f1) && v2 matches Json::Object(f2) && member(f1@, "moduleName"@)
            matches Some(Json::Object(m1)) && member(f2@, "moduleName"@) matches Some(
            Json::Object(m2),
        ) && adds_other_members(m1@, m2@, set!["module"@, "package"@]),
    ensures
        is_benchmark_annotation(v2) == is_benchmark_annotation(v1),
{
    if let Json::Object(f1) = v1 {
        if let Json::Object(f2) = v2 {
            if let Some(Json::Object(m1)) = member(f1@, "moduleName"@) {
                if let Some(Json::Object(m2)) = member(f2@, "moduleName"@) {
                    let avoid = set!["module"@, "package"@];
                    assert(avoid.contains("module"@));
                    assert(avoid.contains("package"@));
                    lemma_member_with_other_members(m1@, m2@, avoid, "module"@);
                    lemma_member_with_other_members(m1@, m2@, avoid, "package"@);
                    lemma_benchmark_reads_three_members(v1, v2);
                }
            }
        }
    }
}

/// An annotation is a benchmark's exactly when it is an object whose
/// `moduleName` member is an object whose `module` member is the string
/// `Benchmark`, character for character, and whose `package` member is the
/// string `elm-explorations/benchmark`; any other module string (such as
/// `Benchmark.Runner`) or package string gives no benchmark.
pub proof fn lemma_benchmark_exact_names(value: Json)
    ensures
        is_benchmark_annotation(value) <==> ({
            &&& value is Object
            &&& member(value->Object_0@, "moduleName"@) is Some
            &&& member(value->Object_0@, "moduleName"@)->0 is Object
            &&& {
                let m = member(value->Object_0@, "moduleName"@)->0->Object_0@;
                &&& member(m, "module"@) is Some
                &&& member(m, "module"@)->0 is String
                &&& member(m, "module"@)->0->String_0@ == "Benchmark"@
                &&& member(m, "package"@) is Some
                &&& member(m, "package"@)->0 is String
                &&& member(m, "package"@)->0->String_0@ == "elm-explorations/benchmark"@
            }
        }),
{
}

/// Looks up the first member named `key`.
pub fn get_member<'a>(fields: &'a Vec<(String, Json)>, key: &str) -> (res: Option<&'a Json>)
    ensures
        res matches Some(v) ==> member(fields@, key@) == Some(*v),
        res is None ==> member(fields@, key@) is None,
{
    let wanted = String::from_str(key);
    let mut i: usize = 0;
    assert(fields@.skip(0) =~= fields@);
    while i < fields.len()
        invariant
            i <= fields.len(),
            wanted@ == key@,
            member(fields@, key@) == member(fields@.skip(i as int), key@),
        decreases fields.len() - i,
    {
        let ghost rest = fields@.skip(i as int);
        assert(rest.drop_first() =~= fields@.skip(i + 1));
        if fields[i].0 == wanted {
            return Some(&fields[i].1);
        }
        i = i + 1;
    }
    None
}

/// Whether `value` is a JSON string equal to `expected`.
fn string_is(value: Option<&Json>, expected: &str) -> (res: bool)
    ensures
        res == is_string_with(
            match value {
                Some(v) => Some(*v),
                None => None,
            },
            expected@,
        ),
{
    match value {
        Some(Json::String(s)) => *s == String::from_str(expected),
        _ => false,
    }
}

/// Whether an annotation is the type of a benchmark of
/// `elm-explorations/benchmark`.
pub fn is_benchmark(value: &Json) -> (res: bool)
    ensures
        res == is_benchmark_annotation(*value),
        res <==> ({
            &&& *value is Object
            &&& member(value->Object_0@, "moduleName"@) is Some
            &&& member(value->Object_0@, "moduleName"@)->0 is Object
            &&& {
                let m = member(value->Object_0@, "moduleName"@)->0->Object_0@;
                &&& member(m, "module"@) is Some
                &&& member(m, "module"@)->0 is String
                &&& member(m, "module"@)->0->String_0@ == "Benchmark"@
                &&& member(m, "package"@) is Some
                &&& member(m, "package"@)->0 is String
                &&& member(m, "package"@)->0->String_0@ == "elm-explorations/benchmark"@
            }
        }),
{
    proof {
        lemma_benchmark_exact_names(*value);
    }
    if let Json::Object(annotation_fields) = value {
        if let Some(Json::Object(module_name)) = get_member(annotation_fields, "moduleName") {
            let is_benchmark_alias = string_is(get_member(module_name, "module"), "Benchmark");
            let from_correct_module = string_is(
                get_member(module_name, "package"),
                "elm-explorations/benchmark",
            );
            return is_benchmark_alias && from_correct_module;
        }
    }
    false
}

} // verus!
