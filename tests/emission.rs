use buckal::deps::{
    attach_edge, insert_dep, resolve_dep_label, resolve_first_party_label, set_deps, Attachment,
    DepEdge, DepError, DepPackage, DependencyKind, EdgeCondition, FirstPartyLayout, Inserted,
    LabelError, PredicateOutcome,
};
use buckal::emit::{
    buckify_dep_node, buckify_root_node, emit_http_archive, get_build_name, EmitError, EmitOptions,
    NodeInfo, PackageInfo, TargetInfo,
};
use buckal::platform::{Os, PlatformMask};
use buckal::rules::{CargoTargetKind, DepAttrs, Rule};

fn strs(v: &[&str]) -> Vec<String> {
    v.iter().map(|s| s.to_string()).collect()
}

fn entries(m: &buckal::collections::StrMap) -> Vec<(String, String)> {
    m.entries.clone()
}

fn third_party(name: &str, version: &str) -> DepPackage {
    DepPackage {
        name: name.to_string(),
        version: version.to_string(),
        first_party: None,
        links: false,
        build_script: None,
    }
}

fn normal() -> EdgeCondition {
    EdgeCondition { kind: DependencyKind::Normal, platform: None, on_host: true }
}

fn on(mask: PlatformMask) -> EdgeCondition {
    EdgeCondition {
        kind: DependencyKind::Normal,
        platform: Some(PredicateOutcome { oses: mask, target_only: true }),
        on_host: false,
    }
}

fn opts() -> EmitOptions {
    EmitOptions { use_workspace_alias: false, ignore_tests: false, supported_platform_only: false }
}

#[test]
fn unconditional_alias_conflict_keeps_first_label() {
    let mut attrs = DepAttrs::new();
    let r = insert_dep(&mut attrs, "//a:first", Some("alias"), None);
    assert!(matches!(r, Ok(Inserted::Recorded)));
    let r = insert_dep(&mut attrs, "//a:second", Some("alias"), None);
    match r {
        Ok(Inserted::KeptFirst { existing }) => assert_eq!(existing, "//a:first"),
        _ => panic!("expected the first label to be kept"),
    }
    assert_eq!(entries(&attrs.named_deps), vec![("alias".to_string(), "//a:first".to_string())]);
}

#[test]
fn platform_alias_conflict_is_an_error() {
    let mut attrs = DepAttrs::new();
    let linux = PlatformMask::of(Os::Linux);
    assert!(insert_dep(&mut attrs, "//a:first", Some("alias"), Some(linux)).is_ok());
    let r = insert_dep(&mut attrs, "//a:second", Some("alias"), Some(linux));
    match r {
        Err(c) => {
            assert_eq!(c.alias, "alias");
            assert_eq!(c.os, Os::Linux);
            assert_eq!(c.existing, "//a:first");
            assert_eq!(c.target, "//a:second");
        }
        Ok(_) => panic!("expected a conflict"),
    }
    assert_eq!(
        entries(&attrs.os_named_deps.linux),
        vec![("alias".to_string(), "//a:first".to_string())]
    );
    let windows = PlatformMask::of(Os::Windows);
    assert!(insert_dep(&mut attrs, "//a:second", Some("alias"), Some(windows)).is_ok());
    assert!(insert_dep(&mut attrs, "//a:first", Some("alias"), Some(linux)).is_ok());
}

#[test]
fn plain_and_platform_deps_go_to_their_sets() {
    let mut attrs = DepAttrs::new();
    insert_dep(&mut attrs, "//x:b", None, None).unwrap();
    insert_dep(&mut attrs, "//x:a", None, None).unwrap();
    insert_dep(&mut attrs, "//x:a", None, None).unwrap();
    assert_eq!(attrs.deps.items, strs(&["//x:a", "//x:b"]));
    let mask = PlatformMask::of(Os::Windows).union(PlatformMask::of(Os::Macos));
    insert_dep(&mut attrs, "//x:w", None, Some(mask)).unwrap();
    assert_eq!(attrs.os_deps.windows.items, strs(&["//x:w"]));
    assert_eq!(attrs.os_deps.macos.items, strs(&["//x:w"]));
    assert!(attrs.os_deps.linux.items.is_empty());
}

#[test]
fn attachment_decisions() {
    let kind = CargoTargetKind::Lib;
    assert_eq!(attach_edge(kind, &vec![normal()], false), Attachment::Unconditional { promoted: false });
    let win = on(PlatformMask::of(Os::Windows));
    assert_eq!(attach_edge(kind, &vec![win], false), Attachment::Platforms(PlatformMask::of(Os::Windows)));
    let unsupported = on(PlatformMask::empty());
    assert_eq!(attach_edge(kind, &vec![unsupported], false), Attachment::Omitted { dropped: true });
    let unmapped = EdgeCondition {
        kind: DependencyKind::Normal,
        platform: Some(PredicateOutcome { oses: PlatformMask::empty(), target_only: false }),
        on_host: false,
    };
    assert_eq!(attach_edge(kind, &vec![unmapped], false), Attachment::Unconditional { promoted: true });
    assert_eq!(attach_edge(kind, &vec![unmapped], true), Attachment::Omitted { dropped: true });
    let dev = EdgeCondition { kind: DependencyKind::Development, platform: None, on_host: true };
    assert_eq!(attach_edge(kind, &vec![dev], false), Attachment::Omitted { dropped: false });
    assert_eq!(
        attach_edge(CargoTargetKind::Test, &vec![dev], false),
        Attachment::Unconditional { promoted: false }
    );
}

#[test]
fn labels_of_dependencies() {
    let (label, alias) = resolve_dep_label("serde_json", &third_party("serde-json", "1.0.1"), false).unwrap();
    assert_eq!(label, "//third-party/rust/crates/serde-json/1.0.1:serde-json");
    assert!(alias.is_none());
    let (label, alias) = resolve_dep_label("json", &third_party("serde_json", "1.0.1"), true).unwrap();
    assert_eq!(label, "//third-party/rust:serde_json");
    assert_eq!(alias.unwrap(), "json");
}

#[test]
fn labels_of_first_party_packages() {
    let layout = FirstPartyLayout {
        relative_dir: Some("crates/util".to_string()),
        lib_targets: strs(&["util"]),
        bin_targets: strs(&["util"]),
    };
    assert_eq!(resolve_first_party_label(&layout, "util").unwrap(), "//crates/util:libutil");
    let no_root = FirstPartyLayout { relative_dir: None, lib_targets: strs(&["u"]), bin_targets: vec![] };
    assert!(matches!(resolve_first_party_label(&no_root, "u"), Err(LabelError::NotUnderRoot { .. })));
    let two = FirstPartyLayout {
        relative_dir: Some("x".to_string()),
        lib_targets: strs(&["a", "b"]),
        bin_targets: vec![],
    };
    match resolve_first_party_label(&two, "x") {
        Err(LabelError::LibraryCount { found, .. }) => assert_eq!(found, 2),
        _ => panic!("expected a library count error"),
    }
}

#[test]
fn set_deps_attaches_each_edge_once() {
    let mut attrs = DepAttrs::new();
    let edges = vec![
        DepEdge { name: "a".to_string(), package: third_party("a", "1.0.0"), conditions: vec![normal()] },
        DepEdge { name: "a".to_string(), package: third_party("a", "1.0.0"), conditions: vec![normal()] },
        DepEdge {
            name: "w".to_string(),
            package: third_party("w", "2.0.0"),
            conditions: vec![on(PlatformMask::of(Os::Windows))],
        },
    ];
    let diags = set_deps(&mut attrs, &edges, CargoTargetKind::Lib, false, false).unwrap();
    assert!(diags.is_empty());
    assert_eq!(attrs.deps.items, strs(&["//third-party/rust/crates/a/1.0.0:a"]));
    assert_eq!(attrs.os_deps.windows.items, strs(&["//third-party/rust/crates/w/2.0.0:w"]));
}

#[test]
fn set_deps_reports_platform_alias_conflicts() {
    let mut attrs = DepAttrs::new();
    let linux = PlatformMask::of(Os::Linux);
    let edges = vec![
        DepEdge { name: "x".to_string(), package: third_party("one", "1.0.0"), conditions: vec![on(linux)] },
        DepEdge { name: "x".to_string(), package: third_party("two", "1.0.0"), conditions: vec![on(linux)] },
    ];
    match set_deps(&mut attrs, &edges, CargoTargetKind::Lib, false, false) {
        Err(DepError::Conflict(c)) => assert_eq!(c.alias, "x"),
        _ => panic!("expected a conflict"),
    }
}

fn target(name: &str, src: &str) -> TargetInfo {
    TargetInfo {
        name: name.to_string(),
        src_path: src.to_string(),
        is_lib: false,
        is_bin: false,
        is_test: false,
        is_custom_build: false,
        is_proc_macro: false,
        has_tests: false,
    }
}

#[test]
fn third_party_package_with_build_script() {
    let mut lib = target("foo", "src/lib.rs");
    lib.is_lib = true;
    let mut build = target("build-script-build", "build.rs");
    build.is_custom_build = true;
    let pkg = PackageInfo {
        name: "foo".to_string(),
        version: "1.2.0".to_string(),
        edition: "2021".to_string(),
        targets: vec![lib, build],
        checksum: Some("abc".to_string()),
    };
    let node = NodeInfo { features: vec![], edges: vec![] };
    let rules = buckify_dep_node(&pkg, &node, opts()).unwrap();
    assert_eq!(rules.len(), 5);
    assert!(matches!(rules[0], Rule::HttpArchive(_)));
    assert!(matches!(rules[1], Rule::CargoManifest(_)));
    match &rules[2] {
        Rule::RustLibrary(l) => {
            assert_eq!(l.attrs.name, "foo");
            assert_eq!(
                entries(&l.attrs.env),
                vec![(
                    "OUT_DIR".to_string(),
                    "$(location :foo-build-script-run[out_dir])".to_string()
                )]
            );
            assert!(l.attrs.rustc_flags.items.contains(&"@$(location :foo-build-script-run[rustc_flags])".to_string()));
        }
        _ => panic!("expected the library third"),
    }
    match &rules[3] {
        Rule::RustBinary(b) => assert_eq!(b.attrs.name, "foo-build-script-build"),
        _ => panic!("expected the build script binary fourth"),
    }
    match &rules[4] {
        Rule::BuildscriptRun(r) => {
            assert_eq!(r.name, "foo-build-script-run");
            assert_eq!(r.buildscript_rule, ":foo-build-script-build");
        }
        _ => panic!("expected the build script run last"),
    }
}

#[test]
fn third_party_package_without_build_script() {
    let mut lib = target("bar", "src/lib.rs");
    lib.is_lib = true;
    let pkg = PackageInfo {
        name: "bar".to_string(),
        version: "0.1.0".to_string(),
        edition: "2018".to_string(),
        targets: vec![lib],
        checksum: Some("abc".to_string()),
    };
    let node = NodeInfo { features: strs(&["std", "alloc"]), edges: vec![] };
    let rules = buckify_dep_node(&pkg, &node, opts()).unwrap();
    assert_eq!(rules.len(), 3);
    match &rules[2] {
        Rule::RustLibrary(l) => {
            assert_eq!(l.attrs.features.items, strs(&["alloc", "std"]));
            assert_eq!(l.attrs.crate_root, "vendor/src/lib.rs");
            assert_eq!(l.attrs.srcs.items, strs(&[":bar-vendor"]));
            assert_eq!(l.attrs.rustc_flags.items, strs(&["@$(location :bar-manifest[env_flags])"]));
            assert_eq!(l.attrs.visibility.items, strs(&["PUBLIC"]));
        }
        _ => panic!("expected a library"),
    }
    let no_lib = PackageInfo { targets: vec![], ..pkg };
    assert!(matches!(buckify_dep_node(&no_lib, &node, opts()), Err(EmitError::NoLibrary { .. })));
}

#[test]
fn http_archive_needs_a_checksum() {
    let pkg = PackageInfo {
        name: "foo".to_string(),
        version: "1.0.0".to_string(),
        edition: "2021".to_string(),
        targets: vec![],
        checksum: None,
    };
    assert!(matches!(emit_http_archive(&pkg), Err(EmitError::MissingChecksum { .. })));
    let pkg = PackageInfo { checksum: Some("ff".to_string()), ..pkg };
    let h = emit_http_archive(&pkg).unwrap();
    assert_eq!(h.urls.items, strs(&["https://static.crates.io/crates/foo/foo-1.0.0.crate"]));
    assert_eq!(h.strip_prefix, "foo-1.0.0");
    assert_eq!(h.name, "foo-vendor");
}

#[test]
fn root_package_with_library_and_binary_of_one_name() {
    let mut lib = target("mylib", "src/lib.rs");
    lib.is_lib = true;
    let mut bin = target("mylib", "src/main.rs");
    bin.is_bin = true;
    let pkg = PackageInfo {
        name: "mylib".to_string(),
        version: "0.1.0".to_string(),
        edition: "2021".to_string(),
        targets: vec![lib, bin],
        checksum: None,
    };
    let node = NodeInfo { features: vec![], edges: vec![] };
    let rules = buckify_root_node(&pkg, &node, opts()).unwrap();
    let binary = rules.iter().find_map(|r| match r {
        Rule::RustBinary(b) if b.attrs.name == "mylib" => Some(b),
        _ => None,
    });
    let binary = binary.expect("binary named mylib");
    assert!(binary.attrs.dep_attrs.deps.items.contains(&":libmylib".to_string()));
    assert!(rules.iter().any(|r| matches!(r, Rule::RustLibrary(l) if l.attrs.name == "libmylib")));
}

#[test]
fn build_names_lose_their_suffix() {
    assert_eq!(get_build_name("build-script-build"), "build-script");
    assert_eq!(get_build_name("custom"), "custom");
}

#[test]
fn root_package_rules_in_order() {
    let mut lib = target("mylib", "src/lib.rs");
    lib.is_lib = true;
    lib.has_tests = true;
    let mut bin = target("mylib", "src/main.rs");
    bin.is_bin = true;
    let mut it = target("api", "tests/api.rs");
    it.is_test = true;
    let pkg = PackageInfo {
        name: "mylib".to_string(),
        version: "0.1.0".to_string(),
        edition: "2021".to_string(),
        targets: vec![lib, bin, it],
        checksum: None,
    };
    let node = NodeInfo { features: vec![], edges: vec![] };
    let rules = buckify_root_node(&pkg, &node, opts()).unwrap();
    let names: Vec<String> = rules
        .iter()
        .map(|r| match r {
            Rule::FileGroup(f) => format!("filegroup {}", f.name),
            Rule::CargoManifest(m) => format!("manifest {}", m.name),
            Rule::RustBinary(b) => format!("binary {}", b.attrs.name),
            Rule::RustLibrary(l) => format!("library {}", l.attrs.name),
            Rule::RustTest(t) => format!("test {}", t.attrs.name),
            _ => "other".to_string(),
        })
        .collect();
    assert_eq!(
        names,
        vec![
            "filegroup mylib-vendor",
            "manifest mylib-manifest",
            "binary mylib",
            "library libmylib",
            "test mylib-unittest",
            "test api",
        ]
    );
    match &rules[5] {
        Rule::RustTest(t) => {
            assert_eq!(t.attrs.dep_attrs.deps.items, vec![":libmylib".to_string()]);
            assert_eq!(
                t.attrs.env.entries,
                vec![("CARGO_BIN_EXE_mylib".to_string(), "$(location :mylib)".to_string())]
            );
        }
        _ => panic!("expected the integration test last"),
    }
    let quiet = EmitOptions { ignore_tests: true, ..opts() };
    assert_eq!(buckify_root_node(&pkg, &node, quiet).unwrap().len(), 4);
}

#[test]
fn set_deps_notes_dropped_and_promoted_edges() {
    let mut attrs = DepAttrs::new();
    let unmapped = EdgeCondition {
        kind: DependencyKind::Normal,
        platform: Some(PredicateOutcome { oses: PlatformMask::empty(), target_only: false }),
        on_host: false,
    };
    let edges = vec![
        DepEdge { name: "gone".to_string(), package: third_party("gone", "1.0.0"), conditions: vec![on(PlatformMask::empty())] },
        DepEdge { name: "kept".to_string(), package: third_party("kept", "1.0.0"), conditions: vec![unmapped] },
    ];
    let diags = set_deps(&mut attrs, &edges, CargoTargetKind::Lib, false, false).unwrap();
    assert_eq!(diags.len(), 2);
    assert!(matches!(&diags[0], buckal::deps::Diagnostic::UnsupportedPlatformOmitted { dep, .. } if dep == "gone"));
    assert!(matches!(&diags[1], buckal::deps::Diagnostic::PromotedToUnconditional { dep, .. } if dep == "kept"));
    assert_eq!(attrs.deps.items, strs(&["//third-party/rust/crates/kept/1.0.0:kept"]));
}
