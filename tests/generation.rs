use buckal::collections::{LabelSet, StrMap};
use buckal::commands::{
    build_version, drop_third_party, ensure_prerequisites, format_buck2_pattern, glob_match,
    is_glob_pattern, matches_test_selector, parse_package_spec, parse_patch_spec, user_agent,
    MissingTool,
};
use buckal::config::{default_buck2_binary, Config, RepoConfig};
use buckal::patch::{
    apply_rustc_flags_patch_at, build_insert, insert_cross_clauses, needs_leading_comma,
    render_windows_rustc_flags_select, windows_import_lib_flags, WindowsImportLibFlags,
};
use buckal::readback::{existing_rules_from_calls, ParsedCall, ParsedValue};
use buckal::render::load_statements;
use buckal::rules::{
    patch_buck_rules, CargoManifest, ExistingRules, Rule, RustAttrs, RustLibrary,
};

#[test]
fn render_windows_rustc_flags_select_empty() {
    let flags = WindowsImportLibFlags::default();
    assert_eq!(render_windows_rustc_flags_select(&flags), "");
}

#[test]
fn render_windows_rustc_flags_select_structured_output() {
    let flags = WindowsImportLibFlags {
        gnu: vec!["@gnu1".to_owned(), "@gnu2".to_owned()],
        msvc_x86_64: vec!["@msvc64".to_owned()],
        msvc_i686: vec!["@msvc32".to_owned()],
        msvc_aarch64: vec!["@msvcarm".to_owned()],
    };

    let rendered = render_windows_rustc_flags_select(&flags);

    let expected = "select({
        \"prelude//os/constraints:windows\": select({
            \"prelude//abi/constraints:gnu\": [
                \"@gnu1\",
                \"@gnu2\",
            ],
            \"prelude//abi/constraints:msvc\": select({
                \"prelude//cpu/constraints:arm64\": [
                    \"@msvcarm\",
                ],
                \"prelude//cpu/constraints:x86_32\": [
                    \"@msvc32\",
                ],
                \"DEFAULT\": [
                    \"@msvc64\",
                ],
            }),
            \"DEFAULT\": select({
                \"prelude//cpu/constraints:arm64\": [
                    \"@msvcarm\",
                ],
                \"prelude//cpu/constraints:x86_32\": [
                    \"@msvc32\",
                ],
                \"DEFAULT\": [
                    \"@msvc64\",
                ],
            }),
        }),
        \"DEFAULT\": [],
    })";

    assert_eq!(rendered, expected);
}

#[test]
fn import_lib_flags_by_package() {
    let packages = vec![
        ("windows_x86_64_gnu".to_string(), "0.52.0".to_string()),
        ("serde".to_string(), "1.0.0".to_string()),
        ("windows_x86_64_msvc".to_string(), "0.48.0".to_string()),
        ("windows_x86_64_msvc".to_string(), "0.52.0".to_string()),
    ];
    let flags = windows_import_lib_flags(&packages);
    assert_eq!(
        flags.gnu,
        vec!["@$(location //third-party/rust/crates/windows_x86_64_gnu/0.52.0:windows_x86_64_gnu-build-script-run[rustc_flags])"]
    );
    assert_eq!(flags.msvc_x86_64.len(), 2);
    assert!(flags.msvc_x86_64[0].contains("/0.48.0:"));
    assert!(flags.msvc_i686.is_empty());
    assert!(flags.msvc_aarch64.is_empty());
}

#[test]
fn flags_patch_splices_after_the_list() {
    let content = "rust_binary(\n    rustc_flags = [\n        \"x\",\n    ],\n)\n";
    let pos = content.find("],").unwrap() + 1;
    let patched = apply_rustc_flags_patch_at(content, pos, "select({\"DEFAULT\": []})");
    assert_eq!(
        patched,
        "rust_binary(\n    rustc_flags = [\n        \"x\",\n    ] + select({\"DEFAULT\": []}),\n)\n"
    );
}

#[test]
fn cross_clause_comma_handling() {
    assert!(needs_leading_comma("f(a = 1\n", 8));
    assert!(!needs_leading_comma("f(a = 1,\n  ", 11));
    assert!(needs_leading_comma("   ", 3));
    assert_eq!(
        build_insert("f(a = 1,\n", 9),
        "\n    target_compatible_with = select({\"//platforms:cross\": [\"config//:none\"], \"DEFAULT\": []}),\n"
    );
}

#[test]
fn cross_clauses_leave_other_rules_alone() {
    let first = "rust_test(\n    name = \"a\",\n)\n";
    let second = "rust_test(\n    name = \"b\",\n    target_compatible_with = [],\n)\n";
    let content = format!("{}{}", first, second);
    let pos = first.len() - 2;
    let patched = insert_cross_clauses(content.clone(), &vec![pos]);
    assert!(patched.ends_with(second));
    assert!(patched.starts_with("rust_test(\n    name = \"a\",\n"));
    assert!(patched.contains("target_compatible_with = select({\"//platforms:cross\""));
    assert_eq!(insert_cross_clauses(content.clone(), &vec![]), content);
    assert_eq!(insert_cross_clauses(content.clone(), &vec![content.len() + 4]), content);
}

#[test]
fn loads_name_only_the_kinds_present() {
    let rules = vec![
        Rule::CargoManifest(CargoManifest { name: "m".to_string(), vendor: "v".to_string() }),
        Rule::RustLibrary(RustLibrary { attrs: RustAttrs::named("l".to_string()), proc_macro: None }),
    ];
    let loads = load_statements(&rules);
    assert_eq!(loads.len(), 2);
    assert_eq!(loads[0].bzl, "@buckal//:cargo_manifest.bzl");
    assert_eq!(loads[0].items.items, vec!["cargo_manifest".to_string()]);
    assert_eq!(loads[1].bzl, "@buckal//:wrapper.bzl");
    assert_eq!(loads[1].items.items, vec!["rust_library".to_string()]);
    assert!(load_statements(&vec![]).is_empty());
}

fn library_with(features: &[&str], env: &[(&str, &str)]) -> RustLibrary {
    let mut attrs = RustAttrs::named("lib".to_string());
    for f in features {
        attrs.features.insert(f.to_string());
    }
    for (k, v) in env {
        attrs.env.put(k.to_string(), v.to_string(), true);
    }
    RustLibrary { attrs, proc_macro: None }
}

#[test]
fn merge_keeps_manual_entries_of_named_fields() {
    let existing = ExistingRules {
        libraries: vec![library_with(&["manual"], &[("A", "old"), ("B", "manual")])],
        binaries: vec![],
        tests: vec![],
        runs: vec![],
    };
    let mut fields = LabelSet::new();
    fields.insert("features".to_string());
    fields.insert("env".to_string());
    let fresh = vec![Rule::RustLibrary(library_with(&["std"], &[("A", "new")]))];
    let merged = patch_buck_rules(&existing, fresh, &fields);
    match &merged[0] {
        Rule::RustLibrary(l) => {
            assert_eq!(l.attrs.features.items, vec!["manual".to_string(), "std".to_string()]);
            assert_eq!(
                l.attrs.env.entries,
                vec![
                    ("A".to_string(), "new".to_string()),
                    ("B".to_string(), "manual".to_string())
                ]
            );
        }
        _ => panic!("expected a library"),
    }
}

#[test]
fn merge_without_named_fields_changes_nothing() {
    let existing = ExistingRules {
        libraries: vec![library_with(&["manual"], &[])],
        binaries: vec![],
        tests: vec![],
        runs: vec![],
    };
    let fresh = vec![Rule::RustLibrary(library_with(&["std"], &[]))];
    let merged = patch_buck_rules(&existing, fresh, &LabelSet::new());
    match &merged[0] {
        Rule::RustLibrary(l) => assert_eq!(l.attrs.features.items, vec!["std".to_string()]),
        _ => panic!("expected a library"),
    }
}

#[test]
fn str_map_keeps_keys_sorted() {
    let mut m = StrMap::new();
    assert!(m.put("b".to_string(), "2".to_string(), false));
    assert!(m.put("a".to_string(), "1".to_string(), false));
    assert!(!m.put("a".to_string(), "9".to_string(), false));
    assert_eq!(m.get("a").unwrap(), "1");
    assert!(m.get("c").is_none());
    assert_eq!(m.entries[0].0, "a");
}

#[test]
fn glob_matching() {
    assert!(glob_match("test*", "test_app"));
    assert!(glob_match("*", ""));
    assert!(glob_match("a?c", "abc"));
    assert!(!glob_match("a?c", "ac"));
    assert!(glob_match("*_it", "api_it"));
    assert!(!glob_match("*_it", "api_it2"));
    assert!(glob_match("a*b*c", "aXXbYYc"));
    assert!(is_glob_pattern("a*"));
    assert!(is_glob_pattern("a?"));
    assert!(!is_glob_pattern("abc"));
}

#[test]
fn test_selectors() {
    assert!(matches_test_selector("my-test", "my_test", "other"));
    assert!(matches_test_selector("api", "integration", "api"));
    assert!(matches_test_selector("int*", "integration", "x"));
    assert!(!matches_test_selector("unit", "integration", "x"));
}

#[test]
fn buck2_patterns() {
    assert_eq!(format_buck2_pattern(""), "//...");
    assert_eq!(format_buck2_pattern("/"), "//...");
    assert_eq!(format_buck2_pattern("crates\\foo"), "//crates/foo/...");
    assert_eq!(format_buck2_pattern("//a/b"), "//a/b/...");
}

#[test]
fn third_party_patterns_are_dropped() {
    let kept = drop_third_party(vec!["//third-party/x:y".to_string(), "//src:t".to_string()]);
    assert_eq!(kept, vec!["//src:t".to_string()]);
}

#[test]
fn package_specs() {
    let (name, version) = parse_package_spec("serde@1.0");
    assert_eq!(name, "serde");
    assert_eq!(version.unwrap(), "1.0");
    let (name, version) = parse_patch_spec("tokio");
    assert_eq!(name, "tokio");
    assert!(version.is_none());
    let (name, version) = parse_package_spec("a@b@c");
    assert_eq!(name, "a");
    assert_eq!(version.unwrap(), "b@c");
}

#[test]
fn version_strings() {
    assert_eq!(build_version("0.3.0", Some("abc"), None), "0.3.0 (abc unknown)");
    assert_eq!(user_agent("0.3.0"), "buckal/0.3.0");
}

#[test]
fn prerequisites_fail_on_the_first_missing_tool() {
    assert!(ensure_prerequisites(true, true, false, true).is_ok());
    assert!(ensure_prerequisites(true, false, true, true).is_ok());
    assert_eq!(ensure_prerequisites(false, false, false, false), Err(MissingTool::Rustc));
    assert_eq!(ensure_prerequisites(true, false, false, false), Err(MissingTool::Buck2));
    assert_eq!(ensure_prerequisites(true, true, false, false), Err(MissingTool::Python3));
    assert!(MissingTool::Buck2.message().contains("Buck2"));
}

#[test]
fn configuration_defaults() {
    assert_eq!(default_buck2_binary(), "buck2");
    assert_eq!(Config::default().buck2_binary, "buck2");
    let repo = RepoConfig::default();
    assert!(repo.ignore_tests);
    assert!(!repo.inherit_workspace_deps);
    assert_eq!(RepoConfig::repo_config_path("/repo"), "/repo/buckal.toml");
    assert_eq!(RepoConfig::repo_config_path("/repo/"), "/repo/buckal.toml");
}

fn call(function: &str, name: &str, deps: &[&str]) -> ParsedCall {
    ParsedCall {
        function: function.to_string(),
        kwargs: vec![
            ("name".to_string(), ParsedValue::Str(name.to_string())),
            ("deps".to_string(), ParsedValue::List(deps.iter().map(|d| d.to_string()).collect())),
            (
                "os_deps".to_string(),
                ParsedValue::ListDict(vec![("linux".to_string(), vec!["//x:y".to_string()])]),
            ),
            (
                "os_named_deps".to_string(),
                ParsedValue::DictDict(vec![(
                    "al".to_string(),
                    vec![("windows".to_string(), "//w:w".to_string())],
                )]),
            ),
        ],
    }
}

#[test]
fn calls_read_back_into_rules_by_kind() {
    let calls = vec![
        call("rust_binary", "a", &["//d:1"]),
        call("load", "x", &[]),
        call("rust_binary", "b", &["//d:2"]),
        call("rust_library", "l", &[]),
    ];
    let existing = existing_rules_from_calls(&calls);
    assert_eq!(existing.binaries.len(), 2);
    assert_eq!(existing.libraries.len(), 1);
    assert!(existing.tests.is_empty());
    assert_eq!(existing.binaries[1].attrs.name, "b");
    assert_eq!(existing.binaries[1].attrs.dep_attrs.deps.items, vec!["//d:2".to_string()]);
    assert_eq!(existing.binaries[0].attrs.dep_attrs.os_deps.linux.items, vec!["//x:y".to_string()]);
    assert_eq!(
        existing.binaries[0].attrs.dep_attrs.os_named_deps.windows.entries,
        vec![("al".to_string(), "//w:w".to_string())]
    );
}

#[test]
fn merge_matches_rules_by_name_so_a_round_trip_changes_nothing() {
    let calls = vec![call("rust_binary", "a", &["//d:1"]), call("rust_binary", "b", &["//d:2"])];
    let existing = existing_rules_from_calls(&calls);
    let mut fields = LabelSet::new();
    fields.insert("deps".to_string());
    let fresh = existing_rules_from_calls(&calls).binaries.into_iter().map(Rule::RustBinary).collect();
    let merged = patch_buck_rules(&existing, fresh, &fields);
    match (&merged[0], &merged[1]) {
        (Rule::RustBinary(a), Rule::RustBinary(b)) => {
            assert_eq!(a.attrs.dep_attrs.deps.items, vec!["//d:1".to_string()]);
            assert_eq!(b.attrs.dep_attrs.deps.items, vec!["//d:2".to_string()]);
        }
        _ => panic!("expected binaries"),
    }
}

#[test]
fn alias_conflicts_are_listed() {
    let mut fresh = StrMap::new();
    fresh.put("a".to_string(), "//x:1".to_string(), true);
    fresh.put("b".to_string(), "//x:2".to_string(), true);
    let mut edited = StrMap::new();
    edited.put("a".to_string(), "//x:9".to_string(), true);
    edited.put("b".to_string(), "//x:2".to_string(), true);
    edited.put("c".to_string(), "//x:3".to_string(), true);
    assert_eq!(buckal::rules::named_dep_conflicts(&fresh, &edited), vec!["a".to_string()]);
}
