//! What a run reads of an `elm.json`: whether it describes an application
//! or a package, and an application's source directories.
use vstd::prelude::*;
use crate::json::{Json, get_member, member};
use crate::text::{strings_view, lemma_strings_view_push};

verus! {

/// The two kinds of `elm.json`.
#[derive(Debug, PartialEq, Eq, Structural)]
pub enum ConfigKind {
    Application,
    Package,
}

/// The kind that the `type` member names: `"application"` or `"package"`;
/// none for anything else.
pub open spec fn config_kind_of(config: Json) -> Option<ConfigKind> {
    match config {
        Json::Object(fields) => match member(fields@, "type"@) {
            Some(Json::String(t)) => if t@ == "application"@ {
                Some(ConfigKind::Application)
            } else if t@ == "package"@ {
                Some(ConfigKind::Package)
            } else {
                None
            },
            _ => None,
        },
        _ => None,
    }
}

/// The kind of an `elm.json`.
pub fn config_kind(config: &Json) -> (res: Option<ConfigKind>)
    ensures
        res == config_kind_of(*config),
{
    if let Json::Object(fields) = config {
        if let Some(Json::String(t)) = get_member(fields, "type") {
            if *t == String::from_str("application") {
                return Some(ConfigKind::Application);
            } else if *t == String::from_str("package") {
                return Some(ConfigKind::Package);
            }
        }
    }
    None
}

/// The strings among these values, in order.
pub open spec fn strings_among(items: Seq<Json>) -> Seq<Seq<char>>
    decreases items.len(),
{
    if items.len() == 0 {
        Seq::empty()
    } else {
        let rest = strings_among(items.drop_last());
        match items.last() {
            Json::String(s) => rest.push(s@),
            _ => rest,
        }
    }
}

/// The source directories of an application: the strings of its
/// `source-directories` array, in order; none where there is no such array.
pub open spec fn source_directories_of(config: Json) -> Seq<Seq<char>> {
    match config {
        Json::Object(fields) => match member(fields@, "source-directories"@) {
            Some(Json::Array(items)) => strings_among(items@),
            _ => Seq::empty(),
        },
        _ => Seq::empty(),
    }
}

/// The strings among these values, in order.
fn strings_in(items: &Vec<Json>) -> (res: Vec<String>)
    ensures
        strings_view(res@) == strings_among(items@),
{
    let mut res: Vec<String> = Vec::new();
    let mut i: usize = 0;
    while i < items.len()
        invariant
            i <= items.len(),
            strings_view(res@) == strings_among(items@.take(i as int)),
        decreases items.len() - i,
    {
        assert(items@.take(i + 1).drop_last() =~= items@.take(i as int));
        if let Json::String(s) = &items[i] {
            let ghost before = res@;
            res.push(s.clone());
            proof {
                lemma_strings_view_push(before, res@.last());
            }
        }
        i = i + 1;
    }
    assert(items@.take(items.len() as int) =~= items@);
    res
}

/// The source directories of an application's `elm.json`.
pub fn source_directories(config: &Json) -> (res: Vec<String>)
    ensures
        strings_view(res@) == source_directories_of(*config),
{
    if let Json::Object(fields) = config {
        if let Some(Json::Array(items)) = get_member(fields, "source-directories") {
            return strings_in(items);
        }
    }
    let res: Vec<String> = Vec::new();
    assert(strings_view(res@) =~= Seq::<Seq<char>>::empty());
    res
}

} // verus!
