use buckal::platform::{
    buck_labels, fallback_cfg_lines, lookup_platforms, oses_from_matches, supported_targets, Os,
    PlatformMask,
};

#[test]
fn test_platform_mask_operations() {
    let mask = PlatformMask::of(Os::Windows).union(PlatformMask::of(Os::Linux));
    assert!(mask.contains(Os::Windows));
    assert!(!mask.contains(Os::Macos));
    assert!(mask.contains(Os::Linux));

    let oses = mask.to_oses();
    assert_eq!(oses, vec![Os::Windows, Os::Linux]);
}

#[test]
fn test_os_buck_labels() {
    assert_eq!(Os::Windows.buck_label(), "prelude//os/constraints:windows");
    assert_eq!(Os::Macos.buck_label(), "prelude//os/constraints:macos");
    assert_eq!(Os::Linux.buck_label(), "prelude//os/constraints:linux");

    assert_eq!(Os::Windows.key(), "windows");
    assert_eq!(Os::Macos.key(), "macos");
    assert_eq!(Os::Linux.key(), "linux");
}

#[test]
fn test_lookup_platforms() {
    let windows_pkgs = lookup_platforms("windows-future").unwrap();
    assert_eq!(windows_pkgs.to_oses(), vec![Os::Windows]);

    let macos_pkgs = lookup_platforms("system-configuration").unwrap();
    assert_eq!(macos_pkgs.to_oses(), vec![Os::Macos]);

    assert!(lookup_platforms("unknown-package").is_none());
}

#[test]
fn test_buck_labels_utility() {
    let oses = PlatformMask::of(Os::Windows).union(PlatformMask::of(Os::Linux));
    let labels = buck_labels(oses);
    assert_eq!(
        labels.items,
        vec![
            "prelude//os/constraints:linux".to_string(),
            "prelude//os/constraints:windows".to_string(),
        ]
    );
}

#[test]
fn test_supported_targets() {
    let targets = supported_targets();
    assert!(!targets.is_empty());
    for (os, triple) in &targets {
        assert!(matches!(os, Os::Windows | Os::Macos | Os::Linux));
        assert!(!triple.is_empty());
    }
}

#[test]
fn oses_from_matches_collects_the_oses_of_matching_triples() {
    let mut matched = vec![false; 8];
    matched[0] = true;
    matched[6] = true;
    let mask = oses_from_matches(&matched);
    assert_eq!(mask.to_oses(), vec![Os::Macos, Os::Linux]);
    assert!(oses_from_matches(&vec![false; 8]).is_none());
}

#[test]
fn fallback_cfg_lines_cover_known_triples() {
    let linux = fallback_cfg_lines("x86_64-unknown-linux-gnu").unwrap();
    assert!(linux.contains(&"target_os=\"linux\""));
    assert_eq!(linux.len(), 9);
    assert_eq!(fallback_cfg_lines("aarch64-apple-darwin").unwrap().len(), 8);
    assert!(fallback_cfg_lines("riscv64gc-unknown-linux-gnu").is_none());
}

#[test]
fn fallback_cfgs_parse_every_line() {
    let cfgs = buckal::platform::fallback_cfgs_for_triple("x86_64-pc-windows-msvc").unwrap();
    assert_eq!(cfgs.len(), 9);
    let platform: cargo_platform::Platform = "cfg(windows)".parse().unwrap();
    assert!(platform.matches("x86_64-pc-windows-msvc", &cfgs));
}

#[test]
fn oses_from_platform_skips_targets_without_configuration() {
    let platform: cargo_platform::Platform = "cfg(unix)".parse().unwrap();
    let mut cfgs = Vec::new();
    for (_, triple) in supported_targets() {
        cfgs.push(buckal::platform::fallback_cfgs_for_triple(triple));
    }
    let mask = buckal::platform::oses_from_platform(&platform, &cfgs);
    assert_eq!(mask.to_oses(), vec![Os::Macos, Os::Linux]);
    cfgs[0] = None;
    let mask = buckal::platform::oses_from_platform(&platform, &cfgs);
    assert_eq!(mask.to_oses(), vec![Os::Linux]);
}
