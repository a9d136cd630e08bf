//! The source directories of the generated `elm.json`: the project's and
//! the benchmarks' directories relative to the generated project, each once,
//! then its own `src`.
use vstd::prelude::*;
use crate::text::{strings_view, lemma_strings_view_push};

verus! {

/// That `pathdiff::diff_paths`, handed `path` and `base`, may give `res`
/// (as text). A relation, not a function: what it gives follows the path
/// rules of the platform that the crate is built for.
pub uninterp spec fn diff_paths_gives(
    path: Seq<char>,
    base: Seq<char>,
    res: Option<Seq<char>>,
) -> bool;

/// `pathdiff::diff_paths`: the path that leads from `base` to `path`,
/// rendered as text. Stated: the result is one that `diff_paths` gives for
/// these arguments, and a path relative to itself is the empty path (its
/// source skips equal leading components and then has none left). Nothing
/// else is stated of the result: it follows the path rules of the platform
/// the crate is built for, so the same text can give different results on
/// different machines.
#[verifier::external_body]
fn relative_path(path: &str, base: &str) -> (res: Option<String>)
    ensures
        diff_paths_gives(path@, base@, res.deep_view()),
        path@ == base@ ==> res is Some && res->0@.len() == 0,
{
    match pathdiff::diff_paths(path, base) {
        Some(p) => Some(p.to_string_lossy().into_owned()),
        None => None,
    }
}

/// The first occurrence of each element, in order.
pub open spec fn distinct_in_order(s: Seq<Seq<char>>) -> Seq<Seq<char>>
    decreases s.len(),
{
    if s.len() == 0 {
        Seq::empty()
    } else {
        let rest = distinct_in_order(s.drop_last());
        if rest.contains(s.last()) {
            rest
        } else {
            rest.push(s.last())
        }
    }
}

/// No element occurs twice.
pub open spec fn no_repeats(s: Seq<Seq<char>>) -> bool {
    forall|i: int, j: int| 0 <= i < j < s.len() ==> s[i] != s[j]
}

/// Keeping first occurrences leaves no repeats and loses no element.
pub proof fn lemma_distinct_in_order(s: Seq<Seq<char>>)
    ensures
        no_repeats(distinct_in_order(s)),
        forall|x: Seq<char>| distinct_in_order(s).contains(x) <==> s.contains(x),
    decreases s.len(),
{
    if s.len() > 0 {
        lemma_distinct_in_order(s.drop_last());
        let rest = distinct_in_order(s.drop_last());
        assert forall|x: Seq<char>| s.contains(x) <==> (s.drop_last().contains(x) || x == s.last()) by {
            if s.contains(x) {
                let k = choose|k: int| 0 <= k < s.len() && s[k] == x;
                if k < s.len() - 1 {
                    assert(s.drop_last()[k] == x);
                }
            }
            if s.drop_last().contains(x) {
                let k = choose|k: int| 0 <= k < s.drop_last().len() && s.drop_last()[k] == x;
                assert(s[k] == x);
            }
            if x == s.last() {
                assert(s[s.len() - 1] == x);
            }
        }
        if !rest.contains(s.last()) {
            let r = rest.push(s.last());
            assert forall|x: Seq<char>| r.contains(x) <==> (rest.contains(x) || x == s.last()) by {
                if r.contains(x) {
                    let k = choose|k: int| 0 <= k < r.len() && r[k] == x;
                    if k < rest.len() {
                        assert(rest[k] == x);
                    }
                }
                if rest.contains(x) {
                    let k = choose|k: int| 0 <= k < rest.len() && rest[k] == x;
                    assert(r[k] == x);
                }
                if x == s.last() {
                    assert(r[r.len() - 1] == x);
                }
            }
            assert forall|i: int, j: int| 0 <= i < j < r.len() implies r[i] != r[j] by {
                if j == r.len() - 1 {
                    assert(rest[i] == r[i]);
                }
            }
        }
    }
}

/// The directories of the generated project: each relative directory once,
/// in the order of first occurrence, then `src`.
pub open spec fn generated_dirs_of(relative: Seq<Seq<char>>) -> Seq<Seq<char>> {
    distinct_in_order(relative).push("src"@)
}

/// The relative directories that came back, all of them, or nothing where
/// one of them is missing.
pub open spec fn all_present(relative: Seq<Option<String>>) -> Option<Seq<Seq<char>>> {
    if forall|i: int| 0 <= i < relative.len() ==> relative[i] is Some {
        Some(relative.map_values(|r: Option<String>| r->0@))
    } else {
        None
    }
}

/// Whether `v` holds a string with the characters of `s`.
fn contains_string(v: &Vec<String>, s: &String) -> (res: bool)
    ensures
        res == strings_view(v@).contains(s@),
{
    let mut i: usize = 0;
    while i < v.len()
        invariant
            i <= v.len(),
            forall|j: int| 0 <= j < i ==> v@[j]@ != s@,
        decreases v.len() - i,
    {
        if v[i] == *s {
            assert(strings_view(v@)[i as int] == s@);
            return true;
        }
        i = i + 1;
    }
    assert forall|j: int| 0 <= j < strings_view(v@).len() implies strings_view(v@)[j] != s@ by {
        assert(v@[j]@ != s@);
    }
    false
}

/// The source directories of the generated project from the relative form
/// of each directory: each once, in the order of first occurrence, then
/// `src`; nothing where a directory has no relative form.
pub fn generated_source_directories(relative: Vec<Option<String>>) -> (res: Option<Vec<String>>)
    ensures
        res is None <==> all_present(relative@) is None,
        res matches Some(dirs) ==> strings_view(dirs@) == generated_dirs_of(
            all_present(relative@)->0,
        ),
        res matches Some(dirs) ==> no_repeats(strings_view(dirs@).drop_last()),
        res matches Some(dirs) ==> forall|x: Seq<char>|
            strings_view(dirs@).contains(x) <==> (all_present(relative@)->0.contains(x) || x
                == "src"@),
{
    let mut res: Vec<String> = Vec::new();
    let mut i: usize = 0;
    let ghost present: Seq<Seq<char>> = Seq::empty();
    while i < relative.len()
        invariant
            i <= relative.len(),
            present.len() == i,
            forall|j: int| 0 <= j < i ==> (#[trigger] relative@[j]) is Some,
            forall|j: int| 0 <= j < i ==> present[j] == (#[trigger] relative@[j])->0@,
            strings_view(res@) == distinct_in_order(present),
        decreases relative.len() - i,
    {
        match &relative[i] {
            None => {
                assert(!(forall|j: int| 0 <= j < relative@.len() ==> relative@[j] is Some));
                return None;
            },
            Some(dir) => {
                let ghost before = res@;
                let ghost old_present = present;
                proof {
                    present = present.push(dir@);
                    assert(present.drop_last() =~= old_present);
                    assert(relative@[i as int] == Some(*dir));
                    assert forall|j: int| 0 <= j < i + 1 implies present[j] == (
                    #[trigger] relative@[j])->0@ by {
                        if j < i {
                            assert(present[j] == old_present[j]);
                        }
                    }
                }
                if !contains_string(&res, dir) {
                    res.push(dir.clone());
                    proof {
                        lemma_strings_view_push(before, res@.last());
                    }
                }
            },
        }
        i = i + 1;
    }
    assert(forall|j: int| 0 <= j < relative@.len() ==> relative@[j] is Some);
    assert(all_present(relative@) == Some(relative@.map_values(|r: Option<String>| r->0@)));
    assert(relative@.map_values(|r: Option<String>| r->0@) =~= present);
    let ghost before = res@;
    res.push(String::from_str("src"));
    proof {
        lemma_strings_view_push(before, res@.last());
        lemma_distinct_in_order(present);
        assert(strings_view(res@).drop_last() =~= distinct_in_order(present));
        let v = strings_view(res@);
        assert forall|x: Seq<char>| v.contains(x) <==> (present.contains(x) || x == "src"@) by {
            if v.contains(x) {
                let k = choose|k: int| 0 <= k < v.len() && v[k] == x;
                if k < v.len() - 1 {
                    assert(v.drop_last()[k] == x);
                    assert(distinct_in_order(present).contains(x));
                }
            }
            if present.contains(x) {
                assert(distinct_in_order(present).contains(x));
                let k = choose|k: int|
                    0 <= k < distinct_in_order(present).len() && distinct_in_order(present)[k]
                        == x;
                assert(v[k] == x);
            }
            if x == "src"@ {
                assert(v[v.len() - 1] == x);
            }
        }
    }
    Some(res)
}

/// Relative forms of the directories that `pathdiff` may give: one per
/// directory, each one that `diff_paths` gives for that directory and the
/// root, and the empty path for a directory that is the root itself.
pub open spec fn possible_relative_forms(
    dirs: Seq<String>,
    root: Seq<char>,
    relative: Seq<Option<String>>,
) -> bool {
    &&& relative.len() == dirs.len()
    &&& forall|i: int|
        0 <= i < dirs.len() ==> diff_paths_gives(dirs[i]@, root, (#[trigger] relative[i]).deep_view())
    &&& forall|i: int|
        0 <= i < dirs.len() && dirs[i]@ == root ==> (#[trigger] relative[i]) is Some
            && relative[i]->0@.len() == 0
}

/// The result is what the rule of the generated directories gives on these
/// relative forms: nothing where one is missing, else each once, then `src`.
pub open spec fn generated_from(relative: Seq<Option<String>>, res: Option<Vec<String>>) -> bool {
    &&& res is None <==> all_present(relative) is None
    &&& res matches Some(dirs) ==> strings_view(dirs@) == generated_dirs_of(
        all_present(relative)->0,
    )
}

/// The source directories of the generated project, from the canonical
/// directories and the generated project's root: each directory's path
/// relative to the root, each once, then `src`; nothing where a directory
/// has no path relative to the root.
pub fn source_directories(canonical_dirs: &Vec<String>, benchmarks_root: &str) -> (res: Option<
    Vec<String>,
>)
    ensures
        res matches Some(dirs) ==> {
            &&& dirs@.len() >= 1
            &&& dirs@.last()@ == "src"@
            &&& no_repeats(strings_view(dirs@).drop_last())
        },
        exists|relative: Seq<Option<String>>|
            #[trigger] possible_relative_forms(canonical_dirs@, benchmarks_root@, relative)
                && generated_from(relative, res),
{
    let mut relative: Vec<Option<String>> = Vec::new();
    let mut i: usize = 0;
    while i < canonical_dirs.len()
        invariant
            i <= canonical_dirs.len(),
            relative@.len() == i,
            forall|j: int|
                0 <= j < i ==> diff_paths_gives(
                    canonical_dirs@[j]@,
                    benchmarks_root@,
                    (#[trigger] relative@[j]).deep_view(),
                ),
            forall|j: int|
                0 <= j < i && canonical_dirs@[j]@ == benchmarks_root@ ==> (
                #[trigger] relative@[j]) is Some && relative@[j]->0@.len() == 0,
        decreases canonical_dirs.len() - i,
    {
        let r = relative_path(canonical_dirs[i].as_str(), benchmarks_root);
        relative.push(r);
        i = i + 1;
    }
    let ghost outcomes = relative@;
    assert(possible_relative_forms(canonical_dirs@, benchmarks_root@, outcomes));
    let res = generated_source_directories(relative);
    assert(generated_from(outcomes, res));
    proof {
        if res is Some {
            assert(strings_view(res->0@).last() == res->0@.last()@);
        }
    }
    res
}

} // verus!
