use buckal::targets::{
    build_specific_targets, extract_target_name, filter_root_third_party, get_binary_targets,
    get_example_targets, get_library_targets, glob_to_regex, pattern_matches, sort_dedup,
    BuildArgs,
};

fn create_test_targets() -> Vec<String> {
    vec![
        "//src:my_lib".to_string(),
        "//src:main_bin".to_string(),
        "//src:cli_tool".to_string(),
        "//examples:demo_example".to_string(),
        "//examples:test_example".to_string(),
        "//examples:other_example".to_string(),
        "//src:app1".to_string(),
        "//src:app2".to_string(),
        "//src:lib1".to_string(),
        "//src:test_app".to_string(),
        "//src:demo_app".to_string(),
        "//src:other_app".to_string(),
    ]
}

fn args(lib: bool, bin: Vec<String>, all_targets: bool) -> BuildArgs {
    BuildArgs {
        release: false,
        verbose: 0,
        lib,
        bin,
        bins: false,
        example: vec![],
        examples: false,
        all_targets,
        target_platforms: None,
    }
}

#[test]
fn test_build_args_validation() {
    assert!(args(true, vec![], false).validate_target_selection().is_ok());
    assert!(args(false, vec!["myapp".to_string()], false).validate_target_selection().is_ok());
    assert!(args(false, vec![], true).validate_target_selection().is_ok());
    assert!(args(true, vec![], true).validate_target_selection().is_err());
}

#[test]
fn test_has_target_selection() {
    assert!(!args(false, vec![], false).has_target_selection());
    assert!(args(true, vec![], false).has_target_selection());
    assert!(args(false, vec!["app".to_string()], false).has_target_selection());
    assert!(args(false, vec![], true).has_target_selection());
}

#[test]
fn test_has_other_target_selection() {
    assert!(!args(false, vec![], false).has_other_target_selection());
    assert!(args(true, vec![], false).has_other_target_selection());
    assert!(args(false, vec!["app".to_string()], false).has_other_target_selection());
    assert!(!args(false, vec![], true).has_other_target_selection());
}

#[test]
fn test_extract_target_name() {
    assert_eq!(
        extract_target_name("//src/main:myapp (rust_binary)", "src/main/"),
        "myapp"
    );
    assert_eq!(extract_target_name("//:mylib (rust_library)", ""), "mylib");
    assert_eq!(
        extract_target_name("//examples/demo:demo_app (rust_binary)", "examples/demo/"),
        "demo_app"
    );
    assert_eq!(extract_target_name("//src/main:myapp", "src/main/"), "myapp");
    assert_eq!(extract_target_name("//src:main_bin", "src/"), "main_bin");
    assert_eq!(extract_target_name("//:root_lib", ""), "root_lib");
}

#[test]
fn test_glob_to_regex() {
    assert_eq!(glob_to_regex("test*"), "^test.*$");
    assert_eq!(glob_to_regex("test?"), "^test.$");
    assert_eq!(glob_to_regex("test[abc]"), "^test[abc]$");
    assert_eq!(glob_to_regex("test.app"), "^test\\.app$");
}

#[test]
fn test_pattern_matching() {
    assert!(pattern_matches("test_app", "test*"));
    assert!(pattern_matches("tester", "test*"));
    assert!(!pattern_matches("other", "test*"));

    assert!(pattern_matches("demo1", "demo?"));
    assert!(pattern_matches("demo2", "demo?"));
    assert!(!pattern_matches("demo", "demo?"));
    assert!(!pattern_matches("demo_app", "demo?"));

    assert!(pattern_matches("exact", "exact"));
    assert!(!pattern_matches("exact-match", "exact"));

    assert!(pattern_matches("test1", "test[123]"));
    assert!(pattern_matches("test2", "test[123]"));
    assert!(pattern_matches("test3", "test[123]"));
    assert!(!pattern_matches("test4", "test[123]"));
}

#[test]
fn test_target_selection_scenarios() {
    let available_targets = create_test_targets();
    let relative_path = "src/";

    let lib_targets = get_library_targets(&available_targets, relative_path);
    assert!(lib_targets.len() >= 2);
    assert!(lib_targets.iter().any(|t| t.contains("my_lib")));
    assert!(lib_targets.iter().any(|t| t.contains("lib1")));

    let bin_targets = get_binary_targets(
        &available_targets,
        relative_path,
        &vec!["main*".to_string()],
        false,
    );
    assert_eq!(bin_targets.len(), 1);
    assert!(bin_targets[0].contains("main_bin"));
}

#[test]
fn test_edge_cases() {
    let targets = get_binary_targets(&vec![], "", &vec![], false);
    assert!(targets.is_empty());

    assert!(!pattern_matches("target", "invalid[pattern"));
}

#[test]
fn test_binary_targets_all_bins() {
    let available_targets = create_test_targets();
    let targets = get_binary_targets(&available_targets, "src/", &vec![], true);

    assert!(targets.len() >= 6);
    assert!(targets.iter().any(|t| t.contains("main_bin")));
    assert!(targets.iter().any(|t| t.contains("cli_tool")));
    assert!(targets.iter().any(|t| t.contains("app1")));
    assert!(targets.iter().any(|t| t.contains("app2")));
    assert!(targets.iter().any(|t| t.contains("test_app")));
    assert!(targets.iter().any(|t| t.contains("demo_app")));
}

#[test]
fn test_binary_targets_with_patterns() {
    let available_targets = create_test_targets();
    let targets = get_binary_targets(
        &available_targets,
        "src/",
        &vec!["test*".to_string(), "demo*".to_string()],
        false,
    );

    assert_eq!(targets.len(), 2);
    assert!(targets.iter().any(|t| t.contains("test_app")));
    assert!(targets.iter().any(|t| t.contains("demo_app")));
}

#[test]
fn test_example_targets_all_examples() {
    let available_targets = create_test_targets();
    let targets = get_example_targets(&available_targets, "examples/", &vec![], true);

    assert_eq!(targets.len(), 3);
    assert!(targets.iter().any(|t| t.contains("demo_example")));
    assert!(targets.iter().any(|t| t.contains("test_example")));
    assert!(targets.iter().any(|t| t.contains("other_example")));
}

#[test]
fn test_example_targets_with_patterns() {
    let available_targets = create_test_targets();
    let targets = get_example_targets(
        &available_targets,
        "examples/",
        &vec!["demo*".to_string()],
        false,
    );

    assert_eq!(targets.len(), 1);
    assert!(targets[0].contains("demo_example"));
}

#[test]
fn test_duplicate_removal() {
    let targets = vec![
        "//src:app1".to_string(),
        "//src:app2".to_string(),
        "//src:app1".to_string(),
        "//src:app3".to_string(),
    ];

    let targets = sort_dedup(targets);

    assert_eq!(targets.len(), 3);
    assert_eq!(targets, vec!["//src:app1", "//src:app2", "//src:app3"]);
}

#[test]
fn test_complex_glob_patterns() {
    assert!(pattern_matches("test1", "test[123]"));
    assert!(pattern_matches("test2", "test[123]"));
    assert!(pattern_matches("test3", "test[123]"));
    assert!(!pattern_matches("test4", "test[123]"));
    assert!(!pattern_matches("test12", "test[123]"));

    assert!(pattern_matches("testa", "test[a-c]"));
    assert!(pattern_matches("testb", "test[a-c]"));
    assert!(pattern_matches("testc", "test[a-c]"));
    assert!(!pattern_matches("testd", "test[a-c]"));

    assert!(pattern_matches("test1", "test?"));
    assert!(pattern_matches("testa", "test?"));
    assert!(!pattern_matches("test", "test?"));
    assert!(!pattern_matches("test12", "test?"));
}

#[test]
fn test_no_targets_found() {
    let available_targets = vec!["//src:lib1".to_string()];

    let targets =
        get_binary_targets(&available_targets, "src/", &vec!["app*".to_string()], false);
    assert!(targets.is_empty());

    let targets = get_example_targets(
        &available_targets,
        "src/",
        &vec!["example*".to_string()],
        false,
    );
    assert!(targets.is_empty());
}

#[test]
fn test_mixed_target_selection() {
    let args = BuildArgs {
        release: false,
        verbose: 0,
        lib: true,
        bin: vec!["main*".to_string()],
        bins: false,
        example: vec!["demo*".to_string()],
        examples: false,
        all_targets: false,
        target_platforms: None,
    };

    assert!(args.has_target_selection());
    assert!(args.validate_target_selection().is_ok());
}

#[test]
fn test_empty_relative_path() {
    let extracted = extract_target_name("//:mylib", "");
    assert_eq!(extracted, "mylib");
    let extracted = extract_target_name("//src:myapp", "");
    assert_eq!(extracted, "myapp");
}

#[test]
fn build_specific_targets_sorts_and_merges_selections() {
    let available = create_test_targets();
    let args = BuildArgs {
        release: false,
        verbose: 0,
        lib: true,
        bin: vec!["main*".to_string(), "main_bin".to_string()],
        bins: false,
        example: vec![],
        examples: false,
        all_targets: false,
        target_platforms: None,
    };
    let targets = build_specific_targets(&args, &available, "src/");
    assert_eq!(targets, vec!["//src:lib1", "//src:main_bin", "//src:my_lib"]);
}

#[test]
fn extract_target_name_falls_back_to_last_colon() {
    assert_eq!(extract_target_name("//other/dir:thing", "src/"), "thing");
    assert_eq!(extract_target_name("plain", "src/"), "plain");
    assert_eq!(extract_target_name("   ", ""), "   ");
}

#[test]
fn glob_to_regex_escapes_metacharacters() {
    assert_eq!(glob_to_regex("a+b(c)|d{e}$^\\"), "^a\\+b\\(c\\)\\|d\\{e\\}\\$\\^\\\\$");
}

#[test]
fn filter_root_third_party_only_at_root() {
    let targets = vec![
        "//third-party/rust:serde".to_string(),
        "//toolchains/x:y".to_string(),
        "//platforms:linux".to_string(),
        "//platforms/a:b".to_string(),
        "//src:app".to_string(),
    ];
    assert_eq!(
        filter_root_third_party(targets.clone(), ""),
        vec!["//platforms:linux", "//src:app"]
    );
    assert_eq!(filter_root_third_party(targets.clone(), "src/"), targets);
}

#[test]
fn library_targets_by_label_kind() {
    let available = vec!["//src:thing (rust_library)".to_string(), "//src:other".to_string()];
    assert_eq!(get_library_targets(&available, "src/"), vec!["//src:thing (rust_library)"]);
}
