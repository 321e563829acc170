//! What a generated build file starts with: its banner and the `load`
//! statements that the rules in it need.
use vstd::prelude::*;
use crate::collections::LabelSet;
use crate::rules::{Load, Rule};

verus! {

/// The first line of every generated build file.
pub const GENERATED_HEADER: &'static str = "# @generated by `cargo buckal`\n\n";

pub open spec fn any_manifest(rules: Seq<Rule>) -> bool {
    exists|i: int| 0 <= i < rules.len() && (#[trigger] rules[i]) is CargoManifest
}

pub open spec fn any_library(rules: Seq<Rule>) -> bool {
    exists|i: int| 0 <= i < rules.len() && (#[trigger] rules[i]) is RustLibrary
}

pub open spec fn any_binary(rules: Seq<Rule>) -> bool {
    exists|i: int| 0 <= i < rules.len() && (#[trigger] rules[i]) is RustBinary
}

pub open spec fn any_test(rules: Seq<Rule>) -> bool {
    exists|i: int| 0 <= i < rules.len() && (#[trigger] rules[i]) is RustTest
}

pub open spec fn any_run(rules: Seq<Rule>) -> bool {
    exists|i: int| 0 <= i < rules.len() && (#[trigger] rules[i]) is BuildscriptRun
}

/// The symbols that the rules need from the wrapper file, in a set.
pub open spec fn wrapper_symbols(rules: Seq<Rule>) -> Set<Seq<char>> {
    Set::new(
        |s: Seq<char>|
            (s == "rust_library"@ && any_library(rules)) || (s == "rust_binary"@ && any_binary(rules))
                || (s == "rust_test"@ && any_test(rules)) || (s == "buildscript_run"@ && any_run(
                rules,
            )),
    )
}

/// The `load` statements that `rules` need: the manifest rule's file where
/// there is a manifest rule, then the wrapper file with the Rust rule kinds
/// that occur, where any does. Only the kinds present are loaded.
pub fn load_statements(rules: &Vec<Rule>) -> (r: Vec<Load>)
    ensures
        r@.len() == (if any_manifest(rules@) { 1int } else { 0int }) + (if wrapper_symbols(
            rules@,
        ).is_empty() {
            0int
        } else {
            1int
        }),
        any_manifest(rules@) ==> r@[0].bzl@ == "@buckal//:cargo_manifest.bzl"@ && r@[0].items@
            == seq!["cargo_manifest"@],
        !wrapper_symbols(rules@).is_empty() ==> r@[r@.len() - 1].bzl@ == "@buckal//:wrapper.bzl"@
            && r@[r@.len() - 1].items.members() == wrapper_symbols(rules@),
        forall|i: int| 0 <= i < r@.len() ==> (#[trigger] r@[i]).items.wf(),
{
    let mut manifest = false;
    let mut library = false;
    let mut binary = false;
    let mut test = false;
    let mut run = false;
    let mut i: usize = 0;
    while i < rules.len()
        invariant
            i <= rules@.len(),
            manifest == exists|k: int| 0 <= k < i && (#[trigger] rules@[k]) is CargoManifest,
            library == exists|k: int| 0 <= k < i && (#[trigger] rules@[k]) is RustLibrary,
            binary == exists|k: int| 0 <= k < i && (#[trigger] rules@[k]) is RustBinary,
            test == exists|k: int| 0 <= k < i && (#[trigger] rules@[k]) is RustTest,
            run == exists|k: int| 0 <= k < i && (#[trigger] rules@[k]) is BuildscriptRun,
        decreases rules.len() - i,
    {
        match &rules[i] {
            Rule::CargoManifest(_) => {
                manifest = true;
            },
            Rule::RustLibrary(_) => {
                library = true;
            },
            Rule::RustBinary(_) => {
                binary = true;
            },
            Rule::RustTest(_) => {
                test = true;
            },
            Rule::BuildscriptRun(_) => {
                run = true;
            },
            _ => {},
        }
        proof {
            let r = rules@[i as int];
            assert(manifest == exists|k: int| 0 <= k < i + 1 && (#[trigger] rules@[k]) is CargoManifest) by {
                if !manifest && exists|k: int| 0 <= k < i + 1 && (#[trigger] rules@[k]) is CargoManifest {
                    let k = choose|k: int| 0 <= k < i + 1 && (#[trigger] rules@[k]) is CargoManifest;
                    assert(k != i);
                }
            }
            assert(library == exists|k: int| 0 <= k < i + 1 && (#[trigger] rules@[k]) is RustLibrary) by {
                if !library && exists|k: int| 0 <= k < i + 1 && (#[trigger] rules@[k]) is RustLibrary {
                    let k = choose|k: int| 0 <= k < i + 1 && (#[trigger] rules@[k]) is RustLibrary;
                    assert(k != i);
                }
            }
            assert(binary == exists|k: int| 0 <= k < i + 1 && (#[trigger] rules@[k]) is RustBinary) by {
                if !binary && exists|k: int| 0 <= k < i + 1 && (#[trigger] rules@[k]) is RustBinary {
                    let k = choose|k: int| 0 <= k < i + 1 && (#[trigger] rules@[k]) is RustBinary;
                    assert(k != i);
                }
            }
            assert(test == exists|k: int| 0 <= k < i + 1 && (#[trigger] rules@[k]) is RustTest) by {
                if !test && exists|k: int| 0 <= k < i + 1 && (#[trigger] rules@[k]) is RustTest {
                    let k = choose|k: int| 0 <= k < i + 1 && (#[trigger] rules@[k]) is RustTest;
                    assert(k != i);
                }
            }
            assert(run == exists|k: int| 0 <= k < i + 1 && (#[trigger] rules@[k]) is BuildscriptRun) by {
                if !run && exists|k: int| 0 <= k < i + 1 && (#[trigger] rules@[k]) is BuildscriptRun {
                    let k = choose|k: int| 0 <= k < i + 1 && (#[trigger] rules@[k]) is BuildscriptRun;
                    assert(k != i);
                }
            }
        }
        i = i + 1;
    }
    let mut loads: Vec<Load> = Vec::new();
    if manifest {
        loads.push(
            Load {
                bzl: String::from_str("@buckal//:cargo_manifest.bzl"),
                items: LabelSet::singleton(String::from_str("cargo_manifest")),
            },
        );
    }
    let mut items = LabelSet::new();
    if library {
        items.insert(String::from_str("rust_library"));
    }
    if binary {
        items.insert(String::from_str("rust_binary"));
    }
    if test {
        items.insert(String::from_str("rust_test"));
    }
    if run {
        items.insert(String::from_str("buildscript_run"));
    }
    proof {
        assert(items.members() =~= wrapper_symbols(rules@));
    }
    if !items.is_empty() {
        proof {
            assert(items.members().contains(items@[0]));
        }
        loads.push(Load { bzl: String::from_str("@buckal//:wrapper.bzl"), items });
    } else {
        proof {
            assert(wrapper_symbols(rules@) =~= Set::<Seq<char>>::empty());
        }
    }
    loads
}

} // verus!
