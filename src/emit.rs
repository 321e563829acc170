//! Rule emission: the rules that one package of the graph becomes.
use vstd::prelude::*;
use crate::collections::{strings_view, LabelSet, StrMap};
use crate::deps::{
    alias_on, dep_kind_matches, edge_label, edges_clash, missing_label, os_labels, plain_aliases,
    plain_labels, set_deps, start_clash, DepEdge, DepError, DependencyKind, RUST_CRATES_ROOT,
};
use crate::platform::{buck_labels, forced_platforms, lookup_platforms, os_buck_label, Os};
use crate::rules::{
    BuildscriptRun, CargoManifest, CargoTargetKind, DepAttrs, FileGroup, Glob, HttpArchive, Rule,
    RustAttrs, RustBinary, RustLibrary, RustTest,
};
use crate::text::{concat2, concat3, concat4, ends_with, replace_char, replaced, substring};

verus! {

/// A target of a package, with its source path relative to the package's
/// manifest directory.
pub struct TargetInfo {
    pub name: String,
    pub src_path: String,
    /// A library of any crate type, proc-macro included.
    pub is_lib: bool,
    pub is_bin: bool,
    pub is_test: bool,
    pub is_custom_build: bool,
    pub is_proc_macro: bool,
    /// Whether the target holds tests of its own.
    pub has_tests: bool,
}

/// What rule emission reads of a package.
pub struct PackageInfo {
    pub name: String,
    pub version: String,
    pub edition: String,
    pub targets: Vec<TargetInfo>,
    /// The checksum of the package's archive, where it comes from a registry.
    pub checksum: Option<String>,
}

/// What rule emission reads of a resolved node.
pub struct NodeInfo {
    pub features: Vec<String>,
    pub edges: Vec<DepEdge>,
}

/// Settings of the repository that rule emission follows.
#[derive(Debug, Clone, Copy)]
pub struct EmitOptions {
    /// Third-party dependencies go through the workspace-wide aliases.
    pub use_workspace_alias: bool,
    /// No test rules are emitted.
    pub ignore_tests: bool,
    /// Edges whose predicates select no supported platform are dropped
    /// rather than made unconditional.
    pub supported_platform_only: bool,
}

/// Why the rules of a package cannot be emitted.
#[derive(Debug)]
pub enum EmitError {
    Deps(DepError),
    NoLibrary { package: String },
    MissingChecksum { package: String },
    LinksWithoutBuildScript { package: String },
}

pub open spec fn vendor_target(pkg: Seq<char>) -> Seq<char> {
    ":"@ + pkg + "-vendor"@
}

pub open spec fn manifest_flags(pkg: Seq<char>) -> Seq<char> {
    "@$(location :"@ + pkg + "-manifest[env_flags])"@
}

/// A build script target's name without its `-build` suffix.
pub open spec fn build_name(s: Seq<char>) -> Seq<char> {
    if s.len() >= 6 && s.subrange(s.len() - 6, s.len() as int) == "-build"@ {
        s.subrange(0, s.len() - 6)
    } else {
        s
    }
}

pub open spec fn run_rule_name(pkg: Seq<char>, build_target: Seq<char>) -> Seq<char> {
    pkg + "-"@ + build_name(build_target) + "-run"@
}

pub open spec fn out_dir_env(pkg: Seq<char>, build_target: Seq<char>) -> Seq<char> {
    "$(location :"@ + run_rule_name(pkg, build_target) + "[out_dir])"@
}

pub open spec fn run_flags(pkg: Seq<char>, build_target: Seq<char>) -> Seq<char> {
    "@$(location :"@ + run_rule_name(pkg, build_target) + "[rustc_flags])"@
}

pub open spec fn crate_root_of(src_path: Seq<char>) -> Seq<char> {
    "vendor/"@ + replaced(src_path, '\\', '/')
}

/// A build script target's name without its `-build` suffix.
pub fn get_build_name(s: &str) -> (r: String)
    ensures
        r@ == build_name(s@),
{
    proof {
        reveal_strlit("-build");
    }
    if ends_with(s, "-build") {
        let n = s.unicode_len();
        substring(s, 0, n - 6)
    } else {
        String::from_str(s)
    }
}

/// The label of a package's vendored sources.
pub fn get_vendor_target(package_name: &str) -> (r: String)
    ensures
        r@ == vendor_target(package_name@),
{
    concat3(":", package_name, "-vendor")
}

/// A path with forward slashes only, as build files want them.
pub fn normalize_path_for_buck(path: &str) -> (r: String)
    ensures
        r@ == replaced(path@, '\\', '/'),
{
    replace_char(path, '\\', '/')
}

/// A set built from the strings of `v`.
fn label_set_of(v: &Vec<String>) -> (r: LabelSet)
    ensures
        r.wf(),
        r.members() == strings_view(v@).to_set(),
{
    let mut r = LabelSet::new();
    let mut i: usize = 0;
    while i < v.len()
        invariant
            r.wf(),
            i <= v@.len(),
            r.members() == strings_view(v@).subrange(0, i as int).to_set(),
        decreases v.len() - i,
    {
        r.insert(v[i].clone());
        proof {
            let s = strings_view(v@);
            Seq::lemma_to_set_insert_commutes(s.subrange(0, i as int), s[i as int]);
            assert(s.subrange(0, i as int) + seq![s[i as int]] =~= s.subrange(0, i + 1));
        }
        i = i + 1;
    }
    proof {
        assert(strings_view(v@).subrange(0, v@.len() as int) =~= strings_view(v@));
    }
    r
}

/// The attributes that every Rust rule of package `pkg` starts from.
fn base_attrs(pkg: &PackageInfo, features: &Vec<String>, target: &TargetInfo, name: String) -> (r:
    RustAttrs)
    ensures
        r.wf(),
        r.name == name,
        r.srcs@ == seq![vendor_target(pkg.name@)],
        r.crate_name@ == replaced(target.name@, '-', '_'),
        r.crate_root@ == crate_root_of(target.src_path@),
        r.edition@ == pkg.edition@,
        r.features.members() == strings_view(features@).to_set(),
        r.rustc_flags@ == seq![manifest_flags(pkg.name@)],
        r.visibility@.len() == 0,
        r.compatible_with@.len() == 0,
        r.target_compatible_with@.len() == 0,
        r.exec_compatible_with@.len() == 0,
        r.env.map() == Map::<Seq<char>, Seq<char>>::empty(),
        r.dep_attrs.deps@.len() == 0,
        r.dep_attrs.named_deps.map() == Map::<Seq<char>, Seq<char>>::empty(),
        forall|os: Os| (#[trigger] r.dep_attrs.os_deps.at(os))@.len() == 0,
        forall|os: Os|
            (#[trigger] r.dep_attrs.os_named_deps.at(os)).map() == Map::<
                Seq<char>,
                Seq<char>,
            >::empty(),
{
    let mut attrs = RustAttrs::named(name);
    attrs.srcs = LabelSet::singleton(get_vendor_target(pkg.name.as_str()));
    attrs.crate_name = replace_char(target.name.as_str(), '-', '_');
    attrs.edition = pkg.edition.clone();
    attrs.features = label_set_of(features);
    attrs.rustc_flags = LabelSet::singleton(
        concat3("@$(location :", pkg.name.as_str(), "-manifest[env_flags])"),
    );
    let root = normalize_path_for_buck(target.src_path.as_str());
    attrs.crate_root = concat2("vendor/", root.as_str());
    proof {
        assert(attrs.edition@ == pkg.edition@);
    }
    attrs
}

/// Whether the edges of a node can be attached to a rule of kind `kind`:
/// each attached edge has a label, and no two edges ask for different labels
/// under one alias on one OS.
pub open spec fn deps_ok(kind: CargoTargetKind, edges: Seq<DepEdge>, opts: EmitOptions) -> bool {
    !missing_label(kind, edges, opts.use_workspace_alias, opts.supported_platform_only)
        && !edges_clash(kind, edges, opts.use_workspace_alias, opts.supported_platform_only)
}

/// What `set_deps` guarantees of dependency attributes that started empty.
pub open spec fn deps_from_edges(
    d: DepAttrs,
    kind: CargoTargetKind,
    edges: Seq<DepEdge>,
    opts: EmitOptions,
) -> bool {
    &&& d.deps.members() == plain_labels(
        kind,
        edges,
        edges.len() as int,
        opts.use_workspace_alias,
        opts.supported_platform_only,
    )
    &&& forall|os: Os|
        (#[trigger] d.os_deps.at(os)).members() == os_labels(
            kind,
            edges,
            edges.len() as int,
            opts.use_workspace_alias,
            opts.supported_platform_only,
            os,
        )
    &&& d.named_deps.map().dom() == plain_aliases(
        kind,
        edges,
        edges.len() as int,
        opts.supported_platform_only,
    )
}

/// Sets the dependency attributes of fresh attributes from the node's edges.
fn attach_deps(attrs: &mut RustAttrs, node: &NodeInfo, kind: CargoTargetKind, opts: EmitOptions) -> (r:
    Result<(), EmitError>)
    requires
        old(attrs).wf(),
        old(attrs).dep_attrs.deps@.len() == 0,
        old(attrs).dep_attrs.named_deps.map() == Map::<Seq<char>, Seq<char>>::empty(),
        forall|os: Os| (#[trigger] old(attrs).dep_attrs.os_deps.at(os))@.len() == 0,
        forall|os: Os|
            (#[trigger] old(attrs).dep_attrs.os_named_deps.at(os)).map() == Map::<Seq<char>, Seq<char>>::empty(),
    ensures
        deps_ok(kind, node.edges@, opts) ==> r is Ok,
        final(attrs).wf(),
        final(attrs).name == old(attrs).name,
        final(attrs).srcs == old(attrs).srcs,
        final(attrs).crate_name == old(attrs).crate_name,
        final(attrs).crate_root == old(attrs).crate_root,
        final(attrs).edition == old(attrs).edition,
        final(attrs).features == old(attrs).features,
        final(attrs).rustc_flags == old(attrs).rustc_flags,
        final(attrs).visibility == old(attrs).visibility,
        final(attrs).compatible_with == old(attrs).compatible_with,
        final(attrs).target_compatible_with == old(attrs).target_compatible_with,
        final(attrs).exec_compatible_with == old(attrs).exec_compatible_with,
        final(attrs).env == old(attrs).env,
        r is Ok ==> deps_from_edges(final(attrs).dep_attrs, kind, node.edges@, opts),
        r is Err ==> r matches Err(EmitError::Deps(_)),
{
    let ghost start = attrs.dep_attrs;
    proof {
        if start_clash(start, kind, node.edges@, opts.use_workspace_alias, opts.supported_platform_only) {
            let (k, os, a) = choose|k: int, os: Os, a: Seq<char>|
                0 <= k < node.edges@.len() && #[trigger] alias_on(kind, node.edges@[k], opts.supported_platform_only, os, a)
                    && start.os_named_deps.at(os).map().contains_key(a) && start.os_named_deps.at(
                    os,
                ).map()[a] != edge_label(node.edges@[k], opts.use_workspace_alias);
            assert(start.os_named_deps.at(os).map() == Map::<Seq<char>, Seq<char>>::empty());
        }
    }
    match set_deps(
        &mut attrs.dep_attrs,
        &node.edges,
        kind,
        opts.use_workspace_alias,
        opts.supported_platform_only,
    ) {
        Ok(_) => {
            proof {
                assert(start.deps.members() =~= Set::<Seq<char>>::empty());
                assert(start.named_deps.map().dom() =~= Set::<Seq<char>>::empty());
                assert forall|os: Os| (#[trigger] start.os_deps.at(os)).members() =~= Set::<
                    Seq<char>,
                >::empty() by {}
                let d = attrs.dep_attrs;
                assert(d.deps.members() =~= plain_labels(
                    kind,
                    node.edges@,
                    node.edges@.len() as int,
                    opts.use_workspace_alias,
                    opts.supported_platform_only,
                ));
                assert(d.named_deps.map().dom() =~= plain_aliases(
                    kind,
                    node.edges@,
                    node.edges@.len() as int,
                    opts.supported_platform_only,
                ));
                assert forall|os: Os|
                    (#[trigger] d.os_deps.at(os)).members() == os_labels(
                        kind,
                        node.edges@,
                        node.edges@.len() as int,
                        opts.use_workspace_alias,
                        opts.supported_platform_only,
                        os,
                    ) by {
                    assert(d.os_deps.at(os).members() =~= os_labels(
                        kind,
                        node.edges@,
                        node.edges@.len() as int,
                        opts.use_workspace_alias,
                        opts.supported_platform_only,
                        os,
                    ));
                }
            }
            Ok(())
        },
        Err(e) => Err(EmitError::Deps(e)),
    }
}

/// The platform labels to which package `name` is restricted, if any.
pub open spec fn compatibility_of(name: Seq<char>) -> Set<Seq<char>> {
    match forced_platforms(name) {
        Some(bits) => crate::platform::PlatformMask { bits }.oses().map(|os: Os| os_buck_label(os)),
        None => Set::empty(),
    }
}

fn set_compatibility(attrs: &mut RustAttrs, package_name: &str)
    requires
        old(attrs).wf(),
    ensures
        final(attrs).wf(),
        final(attrs).compatible_with.members() == if forced_platforms(package_name@) is Some {
            compatibility_of(package_name@)
        } else {
            old(attrs).compatible_with.members()
        },
        final(attrs).name == old(attrs).name,
        final(attrs).srcs == old(attrs).srcs,
        final(attrs).crate_name == old(attrs).crate_name,
        final(attrs).crate_root == old(attrs).crate_root,
        final(attrs).edition == old(attrs).edition,
        final(attrs).features == old(attrs).features,
        final(attrs).rustc_flags == old(attrs).rustc_flags,
        final(attrs).visibility == old(attrs).visibility,
        final(attrs).target_compatible_with == old(attrs).target_compatible_with,
        final(attrs).exec_compatible_with == old(attrs).exec_compatible_with,
        final(attrs).env == old(attrs).env,
        final(attrs).dep_attrs == old(attrs).dep_attrs,
{
    match lookup_platforms(package_name) {
        Some(mask) => {
            attrs.compatible_with = buck_labels(mask);
        },
        None => {},
    }
}

/// Whether `r` holds the attributes that `emit_rust_library` and its
/// siblings give every Rust rule of package `pkg` for target `t`.
pub open spec fn standard_attrs(
    r: RustAttrs,
    pkg: PackageInfo,
    node: NodeInfo,
    t: TargetInfo,
    name: Seq<char>,
    kind: CargoTargetKind,
    opts: EmitOptions,
) -> bool {
    &&& r.wf()
    &&& r.name@ == name
    &&& r.srcs@ == seq![vendor_target(pkg.name@)]
    &&& r.crate_name@ == replaced(t.name@, '-', '_')
    &&& r.crate_root@ == crate_root_of(t.src_path@)
    &&& r.edition@ == pkg.edition@
    &&& r.features.members() == strings_view(node.features@).to_set()
    &&& r.rustc_flags@ == seq![manifest_flags(pkg.name@)]
    &&& r.compatible_with.members() == compatibility_of(pkg.name@)
    &&& r.env.map() == Map::<Seq<char>, Seq<char>>::empty()
    &&& deps_from_edges(r.dep_attrs, kind, node.edges@, opts)
}

/// The `rust_library` rule named `name` for library target `lib`.
pub fn emit_rust_library(
    pkg: &PackageInfo,
    node: &NodeInfo,
    lib: &TargetInfo,
    name: &str,
    opts: EmitOptions,
) -> (r: Result<RustLibrary, EmitError>)
    ensures
        r matches Ok(l) ==> standard_attrs(l.attrs, *pkg, *node, *lib, name@, CargoTargetKind::Lib, opts)
            && l.attrs.visibility@ == seq!["PUBLIC"@]
            && l.proc_macro == if lib.is_proc_macro { Some(true) } else { None },
        r is Err ==> r matches Err(EmitError::Deps(_)),
        deps_ok(CargoTargetKind::Lib, node.edges@, opts) ==> r is Ok,
{
    let mut attrs = base_attrs(pkg, &node.features, lib, String::from_str(name));
    attrs.visibility = LabelSet::singleton(String::from_str("PUBLIC"));
    set_compatibility(&mut attrs, pkg.name.as_str());
    if let Err(e) = attach_deps(&mut attrs, node, CargoTargetKind::Lib, opts) {
        return Err(e);
    }
    proof {
        assert(attrs.compatible_with.members() =~= compatibility_of(pkg.name@));
    }
    Ok(RustLibrary { attrs, proc_macro: if lib.is_proc_macro { Some(true) } else { None } })
}

/// The `rust_binary` rule named `name` for binary target `bin`.
pub fn emit_rust_binary(
    pkg: &PackageInfo,
    node: &NodeInfo,
    bin: &TargetInfo,
    name: &str,
    opts: EmitOptions,
) -> (r: Result<RustBinary, EmitError>)
    ensures
        r matches Ok(b) ==> standard_attrs(b.attrs, *pkg, *node, *bin, name@, CargoTargetKind::Bin, opts)
            && b.attrs.visibility@ == seq!["PUBLIC"@],
        r is Err ==> r matches Err(EmitError::Deps(_)),
        deps_ok(CargoTargetKind::Bin, node.edges@, opts) ==> r is Ok,
{
    let mut attrs = base_attrs(pkg, &node.features, bin, String::from_str(name));
    attrs.visibility = LabelSet::singleton(String::from_str("PUBLIC"));
    if let Err(e) = attach_deps(&mut attrs, node, CargoTargetKind::Bin, opts) {
        return Err(e);
    }
    set_compatibility(&mut attrs, pkg.name.as_str());
    proof {
        assert(attrs.compatible_with.members() =~= compatibility_of(pkg.name@));
    }
    Ok(RustBinary { attrs })
}

/// The `rust_test` rule named `name` for target `test`.
pub fn emit_rust_test(
    pkg: &PackageInfo,
    node: &NodeInfo,
    test: &TargetInfo,
    name: &str,
    opts: EmitOptions,
) -> (r: Result<RustTest, EmitError>)
    ensures
        r matches Ok(t) ==> standard_attrs(t.attrs, *pkg, *node, *test, name@, CargoTargetKind::Test, opts)
            && t.attrs.visibility@ == seq!["PUBLIC"@],
        r is Err ==> r matches Err(EmitError::Deps(_)),
        deps_ok(CargoTargetKind::Test, node.edges@, opts) ==> r is Ok,
{
    let mut attrs = base_attrs(pkg, &node.features, test, String::from_str(name));
    attrs.visibility = LabelSet::singleton(String::from_str("PUBLIC"));
    if let Err(e) = attach_deps(&mut attrs, node, CargoTargetKind::Test, opts) {
        return Err(e);
    }
    set_compatibility(&mut attrs, pkg.name.as_str());
    proof {
        assert(attrs.compatible_with.members() =~= compatibility_of(pkg.name@));
    }
    Ok(RustTest { attrs })
}

/// The `rust_binary` rule that builds the build script `build`.
pub fn emit_buildscript_build(
    build: &TargetInfo,
    pkg: &PackageInfo,
    node: &NodeInfo,
    opts: EmitOptions,
) -> (r: Result<RustBinary, EmitError>)
    ensures
        r matches Ok(b) ==> {
            &&& b.attrs.name@ == pkg.name@ + "-"@ + build.name@
            &&& b.attrs.visibility@.len() == 0
            &&& b.attrs.srcs@ == seq![vendor_target(pkg.name@)]
            &&& b.attrs.crate_root@ == crate_root_of(build.src_path@)
            &&& b.attrs.rustc_flags@ == seq![manifest_flags(pkg.name@)]
            &&& b.attrs.wf()
            &&& deps_from_edges(b.attrs.dep_attrs, CargoTargetKind::CustomBuild, node.edges@, opts)
        },
        r is Err ==> r matches Err(EmitError::Deps(_)),
        deps_ok(CargoTargetKind::CustomBuild, node.edges@, opts) ==> r is Ok,
{
    let name = concat3(pkg.name.as_str(), "-", build.name.as_str());
    let mut attrs = base_attrs(pkg, &node.features, build, name);
    if let Err(e) = attach_deps(&mut attrs, node, CargoTargetKind::CustomBuild, opts) {
        return Err(e);
    }
    Ok(RustBinary { attrs })
}

/// The label of the metadata that the build script of dependency package
/// `name` at `version` produces.
pub open spec fn links_metadata(name: Seq<char>, version: Seq<char>, build_target: Seq<char>) -> Seq<char> {
    "//"@ + RUST_CRATES_ROOT@ + "/"@ + name + "/"@ + version + ":"@ + name + "-"@ + build_name(build_target) + "-run[metadata]"@
}

/// Whether every `links` dependency on the host has a build script, whose
/// metadata a build script run can then take.
pub open spec fn links_ok(node: NodeInfo) -> bool {
    forall|k: int|
        0 <= k < node.edges@.len() && needs_links_metadata(#[trigger] node.edges@[k])
            ==> node.edges@[k].package.build_script is Some
}

/// Whether edge `e` is a normal dependency on the host on a package with a
/// `links` key, whose build script metadata a build script run needs.
pub open spec fn needs_links_metadata(e: DepEdge) -> bool {
    e.package.links && exists|i: int|
        0 <= i < e.conditions@.len() && (#[trigger] e.conditions@[i]).kind == DependencyKind::Normal
            && e.conditions@[i].on_host
}

fn links_on_host(e: &DepEdge) -> (r: bool)
    ensures
        r == needs_links_metadata(*e),
{
    if !e.package.links {
        return false;
    }
    let mut i: usize = 0;
    while i < e.conditions.len()
        invariant
            e.package.links,
            i <= e.conditions@.len(),
            forall|k: int| 0 <= k < i ==> !((#[trigger] e.conditions@[k]).kind == DependencyKind::Normal
                && e.conditions@[k].on_host),
        decreases e.conditions.len() - i,
    {
        let c = e.conditions[i];
        if dep_kind_matches(CargoTargetKind::Lib, c.kind) && c.on_host {
            proof {
                assert(e.conditions@[i as int] == c);
            }
            return true;
        }
        i = i + 1;
    }
    false
}

/// The `buildscript_run` rule that runs the build script `build` of `pkg`,
/// with the metadata of the build scripts of its `links` dependencies.
pub fn emit_buildscript_run(pkg: &PackageInfo, node: &NodeInfo, build: &TargetInfo) -> (r: Result<
    BuildscriptRun,
    EmitError,
>)
    ensures
        r matches Ok(b) ==> {
            &&& b.wf()
            &&& b.name@ == run_rule_name(pkg.name@, build.name@)
            &&& b.package_name@ == pkg.name@
            &&& b.buildscript_rule@ == ":"@ + pkg.name@ + "-"@ + build.name@
            &&& b.version@ == pkg.version@
            &&& b.manifest_dir@ == vendor_target(pkg.name@)
            &&& b.visibility@ == seq!["PUBLIC"@]
            &&& b.features.members() == strings_view(node.features@).to_set()
            &&& b.env_srcs.members().contains(":"@ + pkg.name@ + "-manifest[env_dict]"@)
            &&& forall|k: int| 0 <= k < node.edges@.len() && needs_links_metadata(#[trigger] node.edges@[k])
                ==> b.env_srcs.members().contains(links_metadata(
                    node.edges@[k].package.name@,
                    node.edges@[k].package.version@,
                    node.edges@[k].package.build_script->Some_0@,
                ))
        },
        r is Err <==> exists|k: int| 0 <= k < node.edges@.len() && needs_links_metadata(#[trigger] node.edges@[k])
            && node.edges@[k].package.build_script is None,
        r is Err ==> r matches Err(EmitError::LinksWithoutBuildScript { .. }),
{
    let bname = get_build_name(build.name.as_str());
    let mut name = concat3(pkg.name.as_str(), "-", bname.as_str());
    name.append("-run");
    let mut env_srcs = LabelSet::singleton(concat3(":", pkg.name.as_str(), "-manifest[env_dict]"));
    let ghost first = ":"@ + pkg.name@ + "-manifest[env_dict]"@;
    proof {
        assert(env_srcs@[0] == first);
        assert(env_srcs.members().contains(first));
    }
    let mut i: usize = 0;
    while i < node.edges.len()
        invariant
            i <= node.edges@.len(),
            env_srcs.wf(),
            env_srcs.members().contains(first),
            forall|k: int| 0 <= k < i && needs_links_metadata(#[trigger] node.edges@[k]) ==> node.edges@[k].package.build_script is Some
                && env_srcs.members().contains(links_metadata(
                    node.edges@[k].package.name@,
                    node.edges@[k].package.version@,
                    node.edges@[k].package.build_script->Some_0@,
                )),
        decreases node.edges.len() - i,
    {
        let e = &node.edges[i];
        if links_on_host(e) {
            match &e.package.build_script {
                Some(bs) => {
                    let dep_build = get_build_name(bs.as_str());
                    let mut label = concat3("//", RUST_CRATES_ROOT, "/");
                    label.append(e.package.name.as_str());
                    label.append("/");
                    label.append(e.package.version.as_str());
                    label.append(":");
                    label.append(e.package.name.as_str());
                    label.append("-");
                    label.append(dep_build.as_str());
                    label.append("-run[metadata]");
                    proof {
                        assert(label@ =~= links_metadata(e.package.name@, e.package.version@, bs@));
                    }
                    env_srcs.insert(label);
                },
                None => {
                    return Err(EmitError::LinksWithoutBuildScript { package: e.package.name.clone() });
                },
            }
        }
        i = i + 1;
    }
    let r = BuildscriptRun {
        name,
        package_name: pkg.name.clone(),
        buildscript_rule: concat4(":", pkg.name.as_str(), "-", build.name.as_str()),
        env: StrMap::new(),
        env_srcs,
        features: label_set_of(&node.features),
        version: pkg.version.clone(),
        manifest_dir: get_vendor_target(pkg.name.as_str()),
        visibility: LabelSet::singleton(String::from_str("PUBLIC")),
    };
    proof {
        assert(r.name@ =~= run_rule_name(pkg.name@, build.name@));
    }
    Ok(r)
}

/// Wires the outputs of the build script `build_target` of package
/// `package_name` into a library or binary rule: its output directory as
/// `OUT_DIR`, and the compiler flags it prints.
pub fn patch_with_buildscript(attrs: &mut RustAttrs, build_target: &str, package_name: &str)
    requires
        old(attrs).wf(),
    ensures
        final(attrs).wf(),
        final(attrs).env.map() == old(attrs).env.map().insert(
            "OUT_DIR"@,
            out_dir_env(package_name@, build_target@),
        ),
        final(attrs).rustc_flags.members() == old(attrs).rustc_flags.members().insert(
            run_flags(package_name@, build_target@),
        ),
        final(attrs).name == old(attrs).name,
        final(attrs).srcs == old(attrs).srcs,
        final(attrs).crate_name == old(attrs).crate_name,
        final(attrs).crate_root == old(attrs).crate_root,
        final(attrs).edition == old(attrs).edition,
        final(attrs).features == old(attrs).features,
        final(attrs).visibility == old(attrs).visibility,
        final(attrs).compatible_with == old(attrs).compatible_with,
        final(attrs).target_compatible_with == old(attrs).target_compatible_with,
        final(attrs).exec_compatible_with == old(attrs).exec_compatible_with,
        final(attrs).dep_attrs == old(attrs).dep_attrs,
{
    let bname = get_build_name(build_target);
    let mut run = concat3(package_name, "-", bname.as_str());
    run.append("-run");
    let out_dir = concat3("$(location :", run.as_str(), "[out_dir])");
    let flags = concat3("@$(location :", run.as_str(), "[rustc_flags])");
    proof {
        assert(run@ =~= run_rule_name(package_name@, build_target@));
    }
    attrs.env.put(String::from_str("OUT_DIR"), out_dir, true);
    attrs.rustc_flags.insert(flags);
}

/// The `http_archive` rule that fetches the sources of a registry package.
pub fn emit_http_archive(pkg: &PackageInfo) -> (r: Result<HttpArchive, EmitError>)
    ensures
        r is Ok <==> pkg.checksum is Some,
        r is Err ==> r matches Err(EmitError::MissingChecksum { .. }),
        r matches Ok(h) ==> {
            &&& h.urls.wf()
            &&& h.name@ == pkg.name@ + "-vendor"@
            &&& h.urls@ == seq![
                "https://static.crates.io/crates/"@ + pkg.name@ + "/"@ + pkg.name@ + "-"@ + pkg.version@
                    + ".crate"@,
            ]
            &&& h.sha256@ == pkg.checksum->Some_0@
            &&& h.archive_type@ == "tar.gz"@
            &&& h.strip_prefix@ == pkg.name@ + "-"@ + pkg.version@
            &&& h.out matches Some(o) && o@ == "vendor"@
        },
{
    let checksum = match &pkg.checksum {
        Some(c) => c.clone(),
        None => {
            return Err(EmitError::MissingChecksum { package: pkg.name.clone() });
        },
    };
    let mut url = concat4("https://static.crates.io/crates/", pkg.name.as_str(), "/", pkg.name.as_str());
    url.append("-");
    url.append(pkg.version.as_str());
    url.append(".crate");
    let ghost u = url@;
    let h = HttpArchive {
        name: concat2(pkg.name.as_str(), "-vendor"),
        urls: LabelSet::singleton(url),
        sha256: checksum,
        archive_type: String::from_str("tar.gz"),
        strip_prefix: concat3(pkg.name.as_str(), "-", pkg.version.as_str()),
        out: Some(String::from_str("vendor")),
    };
    proof {
        assert(u =~= "https://static.crates.io/crates/"@ + pkg.name@ + "/"@ + pkg.name@ + "-"@ + pkg.version@ + ".crate"@);
    }
    Ok(h)
}

/// The `filegroup` rule of all the sources of a first-party package.
pub fn emit_filegroup(pkg: &PackageInfo) -> (r: FileGroup)
    ensures
        r.name@ == pkg.name@ + "-vendor"@,
        r.srcs.patterns@ == seq!["**/**"@],
        r.srcs.excluded@.len() == 0,
        r.srcs.patterns.wf() && r.srcs.excluded.wf(),
        r.out matches Some(o) && o@ == "vendor"@,
{
    FileGroup {
        name: concat2(pkg.name.as_str(), "-vendor"),
        srcs: Glob { patterns: LabelSet::singleton(String::from_str("**/**")), excluded: LabelSet::new() },
        out: Some(String::from_str("vendor")),
    }
}

/// The `cargo_manifest` rule of a package.
pub fn emit_cargo_manifest(pkg: &PackageInfo) -> (r: CargoManifest)
    ensures
        r.name@ == pkg.name@ + "-manifest"@,
        r.vendor@ == vendor_target(pkg.name@),
{
    CargoManifest {
        name: concat2(pkg.name.as_str(), "-manifest"),
        vendor: get_vendor_target(pkg.name.as_str()),
    }
}

} // verus!

verus! {

/// Which targets of a package a step of emission looks at.
#[derive(Debug, Clone, Copy, PartialEq, Eq, Structural)]
pub enum TargetSel {
    Lib,
    Bin,
    Test,
    CustomBuild,
}

pub open spec fn selected(t: TargetInfo, sel: TargetSel) -> bool {
    match sel {
        TargetSel::Lib => t.is_lib,
        TargetSel::Bin => t.is_bin,
        TargetSel::Test => t.is_test,
        TargetSel::CustomBuild => t.is_custom_build,
    }
}

fn is_selected(t: &TargetInfo, sel: TargetSel) -> (r: bool)
    ensures
        r == selected(*t, sel),
{
    match sel {
        TargetSel::Lib => t.is_lib,
        TargetSel::Bin => t.is_bin,
        TargetSel::Test => t.is_test,
        TargetSel::CustomBuild => t.is_custom_build,
    }
}

/// Whether `i` is the first index of a target that `sel` selects.
pub open spec fn is_first(targets: Seq<TargetInfo>, sel: TargetSel, i: int) -> bool {
    0 <= i < targets.len() && selected(targets[i], sel) && forall|k: int|
        0 <= k < i ==> !selected(#[trigger] targets[k], sel)
}

pub open spec fn has_target(targets: Seq<TargetInfo>, sel: TargetSel) -> bool {
    exists|i: int| 0 <= i < targets.len() && selected(#[trigger] targets[i], sel)
}

/// The index of the first target that `sel` selects.
pub fn first_target(targets: &Vec<TargetInfo>, sel: TargetSel) -> (r: Option<usize>)
    ensures
        match r {
            Some(i) => is_first(targets@, sel, i as int),
            None => !has_target(targets@, sel),
        },
{
    let mut i: usize = 0;
    while i < targets.len()
        invariant
            i <= targets@.len(),
            forall|k: int| 0 <= k < i ==> !selected(#[trigger] targets@[k], sel),
        decreases targets.len() - i,
    {
        if is_selected(&targets[i], sel) {
            return Some(i);
        }
        i = i + 1;
    }
    None
}

/// The names of the targets that `sel` selects, in order.
pub open spec fn selected_names(targets: Seq<TargetInfo>, sel: TargetSel) -> Seq<Seq<char>>
    decreases targets.len(),
{
    if targets.len() == 0 {
        Seq::empty()
    } else if selected(targets.last(), sel) {
        selected_names(targets.drop_last(), sel).push(targets.last().name@)
    } else {
        selected_names(targets.drop_last(), sel)
    }
}

/// The names of the targets that `sel` selects, in order.
pub fn target_names(targets: &Vec<TargetInfo>, sel: TargetSel) -> (r: Vec<String>)
    ensures
        strings_view(r@) == selected_names(targets@, sel),
{
    let mut r: Vec<String> = Vec::new();
    let mut i: usize = 0;
    while i < targets.len()
        invariant
            i <= targets@.len(),
            strings_view(r@) == selected_names(targets@.subrange(0, i as int), sel),
        decreases targets.len() - i,
    {
        proof {
            assert(targets@.subrange(0, i + 1).drop_last() =~= targets@.subrange(0, i as int));
        }
        if is_selected(&targets[i], sel) {
            r.push(targets[i].name.clone());
        }
        proof {
            assert(strings_view(r@) =~= selected_names(targets@.subrange(0, i + 1), sel));
        }
        i = i + 1;
    }
    proof {
        assert(targets@.subrange(0, targets@.len() as int) =~= targets@);
    }
    r
}

pub open spec fn is_library_named(r: Rule, name: Seq<char>) -> bool {
    r matches Rule::RustLibrary(l) && l.attrs.name@ == name
}

pub open spec fn is_binary_named(r: Rule, name: Seq<char>) -> bool {
    r matches Rule::RustBinary(b) && b.attrs.name@ == name
}

pub open spec fn binary_depends_on(r: Rule, label: Seq<char>) -> bool {
    r matches Rule::RustBinary(b) && b.attrs.dep_attrs.deps.members().contains(label)
}

/// Whether the attributes take the outputs of build script `build` of package `pkg`.
pub open spec fn takes_outputs(a: RustAttrs, pkg: Seq<char>, build: Seq<char>) -> bool {
    &&& a.env.map().contains_key("OUT_DIR"@)
    &&& a.env.map()["OUT_DIR"@] == out_dir_env(pkg, build)
    &&& a.rustc_flags.members().contains(run_flags(pkg, build))
}

/// The rules of a third-party package: its archive, its manifest, its
/// library, and, where it has a build script, the binary that builds the
/// script and the rule that runs it, whose outputs the library takes.
pub fn buckify_dep_node(pkg: &PackageInfo, node: &NodeInfo, opts: EmitOptions) -> (r: Result<
    Vec<Rule>,
    EmitError,
>)
    ensures
        !has_target(pkg.targets@, TargetSel::Lib) ==> r matches Err(EmitError::NoLibrary { .. }),
        has_target(pkg.targets@, TargetSel::Lib) && pkg.checksum is None ==> r matches Err(
            EmitError::MissingChecksum { .. },
        ),
        r matches Ok(rules) ==> {
            &&& rules@.len() == if has_target(pkg.targets@, TargetSel::CustomBuild) {
                5int
            } else {
                3int
            }
            &&& rules@[0] is HttpArchive
            &&& rules@[1] is CargoManifest
            &&& is_library_named(rules@[2], pkg.name@)
            &&& forall|i: int| 0 <= i < rules@.len() ==> (#[trigger] rules@[i]).wf()
        },
        has_target(pkg.targets@, TargetSel::Lib) && pkg.checksum is Some && deps_ok(
            CargoTargetKind::Lib,
            node.edges@,
            opts,
        ) && deps_ok(CargoTargetKind::CustomBuild, node.edges@, opts) && links_ok(*node) ==> r is Ok,
        r matches Ok(rules) ==> rules@[0] matches Rule::HttpArchive(h) && h.name@ == pkg.name@ + "-vendor"@
            && h.urls@ == seq![
            "https://static.crates.io/crates/"@ + pkg.name@ + "/"@ + pkg.name@ + "-"@ + pkg.version@ + ".crate"@,
        ] && h.sha256@ == pkg.checksum->Some_0@ && h.strip_prefix@ == pkg.name@ + "-"@ + pkg.version@
            && h.archive_type@ == "tar.gz"@,
        r matches Ok(rules) ==> rules@[1] matches Rule::CargoManifest(m) && m.name@ == pkg.name@ + "-manifest"@
            && m.vendor@ == vendor_target(pkg.name@),
        r matches Ok(rules) ==> forall|b: int|
            is_first(pkg.targets@, TargetSel::CustomBuild, b) ==> {
                &&& rules@[4] matches Rule::BuildscriptRun(run) && run.buildscript_rule@ == ":"@ + pkg.name@
                    + "-"@ + pkg.targets@[b].name@ && run.package_name@ == pkg.name@ && run.version@
                    == pkg.version@
                &&& rules@[2] matches Rule::RustLibrary(l) && takes_outputs(
                    l.attrs,
                    pkg.name@,
                    pkg.targets@[b].name@,
                )
                &&& is_binary_named(rules@[3], pkg.name@ + "-"@ + pkg.targets@[b].name@)
                &&& rules@[4] matches Rule::BuildscriptRun(run) && run.name@ == run_rule_name(
                    pkg.name@,
                    pkg.targets@[b].name@,
                )
            },
{
    let lib_index = match first_target(&pkg.targets, TargetSel::Lib) {
        Some(i) => i,
        None => {
            return Err(EmitError::NoLibrary { package: pkg.name.clone() });
        },
    };
    let http = match emit_http_archive(pkg) {
        Ok(h) => h,
        Err(e) => {
            return Err(e);
        },
    };
    let manifest = emit_cargo_manifest(pkg);
    let mut lib = match emit_rust_library(pkg, node, &pkg.targets[lib_index], pkg.name.as_str(), opts) {
        Ok(l) => l,
        Err(e) => {
            return Err(e);
        },
    };
    let mut rules: Vec<Rule> = Vec::new();
    match first_target(&pkg.targets, TargetSel::CustomBuild) {
        Some(b) => {
            let build = &pkg.targets[b];
            patch_with_buildscript(&mut lib.attrs, build.name.as_str(), pkg.name.as_str());
            let build_rule = match emit_buildscript_build(build, pkg, node, opts) {
                Ok(x) => x,
                Err(e) => {
                    return Err(e);
                },
            };
            let run = match emit_buildscript_run(pkg, node, build) {
                Ok(x) => x,
                Err(e) => {
                    return Err(e);
                },
            };
            rules.push(Rule::HttpArchive(http));
            rules.push(Rule::CargoManifest(manifest));
            rules.push(Rule::RustLibrary(lib));
            rules.push(Rule::RustBinary(build_rule));
            rules.push(Rule::BuildscriptRun(run));
            proof {
                assert(has_target(pkg.targets@, TargetSel::CustomBuild));
                assert forall|c: int| is_first(pkg.targets@, TargetSel::CustomBuild, c) implies c
                    == b by {
                    if c < b {
                        assert(!selected(pkg.targets@[c], TargetSel::CustomBuild));
                    } else if c > b {
                        assert(!selected(pkg.targets@[b as int], TargetSel::CustomBuild));
                    }
                }
            }
        },
        None => {
            rules.push(Rule::HttpArchive(http));
            rules.push(Rule::CargoManifest(manifest));
            rules.push(Rule::RustLibrary(lib));
        },
    }
    Ok(rules)
}

} // verus!

verus! {

/// Whether `rules` holds, for each binary target among the first `upto`
/// targets, a binary rule of its name, which depends on the library of the
/// same name where there is one.
pub open spec fn bins_emitted(rules: Seq<Rule>, targets: Seq<TargetInfo>, upto: int, libs: Seq<Seq<char>>) -> bool {
    forall|k: int|
        0 <= k < upto && (#[trigger] targets[k]).is_bin ==> exists|j: int|
            0 <= j < rules.len() && is_binary_named(#[trigger] rules[j], targets[k].name@) && (libs.contains(
                targets[k].name@,
            ) ==> binary_depends_on(rules[j], ":lib"@ + targets[k].name@))
}

/// Whether `rules` holds, for each library target among the first `upto`
/// targets, a library rule of the name that `library_rule_name` gives it.
pub open spec fn libs_emitted(rules: Seq<Rule>, targets: Seq<TargetInfo>, upto: int, bins: Seq<Seq<char>>) -> bool {
    forall|k: int|
        0 <= k < upto && (#[trigger] targets[k]).is_lib ==> exists|j: int|
            0 <= j < rules.len() && is_library_named(
                #[trigger] rules[j],
                crate::deps::library_rule_name(targets[k].name@, bins),
            )
}

proof fn lemma_push_keeps(rules: Seq<Rule>, x: Rule, targets: Seq<TargetInfo>, ub: int, ul: int, libs: Seq<Seq<char>>, bins: Seq<Seq<char>>)
    requires
        bins_emitted(rules, targets, ub, libs),
        libs_emitted(rules, targets, ul, bins),
    ensures
        bins_emitted(rules.push(x), targets, ub, libs),
        libs_emitted(rules.push(x), targets, ul, bins),
{
    let n = rules.push(x);
    assert forall|k: int| 0 <= k < ub && (#[trigger] targets[k]).is_bin implies exists|j: int|
        0 <= j < n.len() && is_binary_named(#[trigger] n[j], targets[k].name@) && (libs.contains(
            targets[k].name@,
        ) ==> binary_depends_on(n[j], ":lib"@ + targets[k].name@)) by {
        let j = choose|j: int|
            0 <= j < rules.len() && is_binary_named(#[trigger] rules[j], targets[k].name@) && (libs.contains(
                targets[k].name@,
            ) ==> binary_depends_on(rules[j], ":lib"@ + targets[k].name@));
        assert(n[j] == rules[j]);
    }
    assert forall|k: int| 0 <= k < ul && (#[trigger] targets[k]).is_lib implies exists|j: int|
        0 <= j < n.len() && is_library_named(#[trigger] n[j], crate::deps::library_rule_name(targets[k].name@, bins)) by {
        let j = choose|j: int|
            0 <= j < rules.len() && is_library_named(#[trigger] rules[j], crate::deps::library_rule_name(targets[k].name@, bins));
        assert(n[j] == rules[j]);
    }
}

/// The kind and name of a rule: file group 0, manifest 1, binary 2,
/// library 3, test 4, build script run 5, archive 6, load 7.
pub open spec fn rule_tag(r: Rule) -> (int, Seq<char>) {
    match r {
        Rule::FileGroup(f) => (0, f.name@),
        Rule::CargoManifest(m) => (1, m.name@),
        Rule::RustBinary(b) => (2, b.attrs.name@),
        Rule::RustLibrary(l) => (3, l.attrs.name@),
        Rule::RustTest(t) => (4, t.attrs.name@),
        Rule::BuildscriptRun(b) => (5, b.name@),
        Rule::HttpArchive(h) => (6, h.name@),
        Rule::Load(l) => (7, l.bzl@),
    }
}

pub open spec fn tags(rules: Seq<Rule>) -> Seq<(int, Seq<char>)> {
    rules.map_values(|r: Rule| rule_tag(r))
}

/// One binary rule per binary target, in order.
pub open spec fn bin_tags(ts: Seq<TargetInfo>) -> Seq<(int, Seq<char>)>
    decreases ts.len(),
{
    if ts.len() == 0 {
        Seq::empty()
    } else {
        bin_tags(ts.drop_last()) + if ts.last().is_bin {
            seq![(2int, ts.last().name@)]
        } else {
            Seq::empty()
        }
    }
}

/// One library rule per library target, each followed by its test rule
/// where `tests` is set and it holds tests.
pub open spec fn lib_tags(ts: Seq<TargetInfo>, bins: Seq<Seq<char>>, tests: bool) -> Seq<(int, Seq<char>)>
    decreases ts.len(),
{
    if ts.len() == 0 {
        Seq::empty()
    } else {
        lib_tags(ts.drop_last(), bins, tests) + if ts.last().is_lib {
            seq![(3int, crate::deps::library_rule_name(ts.last().name@, bins))] + if tests
                && ts.last().has_tests {
                seq![(4int, ts.last().name@ + "-unittest"@)]
            } else {
                Seq::empty()
            }
        } else {
            Seq::empty()
        }
    }
}

/// One test rule per test target, in order.
pub open spec fn test_tags(ts: Seq<TargetInfo>) -> Seq<(int, Seq<char>)>
    decreases ts.len(),
{
    if ts.len() == 0 {
        Seq::empty()
    } else {
        test_tags(ts.drop_last()) + if ts.last().is_test {
            seq![(4int, ts.last().name@)]
        } else {
            Seq::empty()
        }
    }
}

/// The build script's binary and run rules, where the package has one.
pub open spec fn build_tags(pkg: PackageInfo) -> Seq<(int, Seq<char>)> {
    if has_target(pkg.targets@, TargetSel::CustomBuild) {
        let b = choose|b: int| is_first(pkg.targets@, TargetSel::CustomBuild, b);
        seq![
            (2int, pkg.name@ + "-"@ + pkg.targets@[b].name@),
            (5int, run_rule_name(pkg.name@, pkg.targets@[b].name@)),
        ]
    } else {
        Seq::empty()
    }
}

/// The kinds and names of the rules of a first-party package, in order.
pub open spec fn root_layout(pkg: PackageInfo, opts: EmitOptions) -> Seq<(int, Seq<char>)> {
    seq![(0int, pkg.name@ + "-vendor"@), (1int, pkg.name@ + "-manifest"@)] + bin_tags(pkg.targets@)
        + lib_tags(pkg.targets@, selected_names(pkg.targets@, TargetSel::Bin), !opts.ignore_tests)
        + (if opts.ignore_tests {
        Seq::empty()
    } else {
        test_tags(pkg.targets@)
    }) + build_tags(pkg)
}

/// Whether `rules` holds, for each test target among the first `upto`
/// targets, a test rule of its name wired to the package's own library and
/// binary named `ident`, where there are such.
pub open spec fn tests_wired(
    rules: Seq<Rule>,
    ts: Seq<TargetInfo>,
    upto: int,
    ident: Seq<char>,
    bins: Seq<Seq<char>>,
    libs: Seq<Seq<char>>,
) -> bool {
    forall|k: int|
        0 <= k < upto && (#[trigger] ts[k]).is_test ==> exists|j: int|
            0 <= j < rules.len() && #[trigger] test_wired(rules[j], ts[k].name@, ident, bins, libs)
}

/// Whether `r` is a test rule named `name` that depends on the library named
/// `ident` (as `:lib<ident>` where a binary has that name too, else as
/// `:<ident>`) and knows the binary named `ident` by its environment.
pub open spec fn test_wired(r: Rule, name: Seq<char>, ident: Seq<char>, bins: Seq<Seq<char>>, libs: Seq<Seq<char>>) -> bool {
    r matches Rule::RustTest(t) && t.attrs.name@ == name && (libs.contains(ident)
        ==> t.attrs.dep_attrs.deps.members().contains(
        if bins.contains(ident) {
            ":lib"@ + ident
        } else {
            ":"@ + ident
        },
    )) && (bins.contains(ident) ==> t.attrs.env.map().contains_key("CARGO_BIN_EXE_"@ + ident)
        && t.attrs.env.map()["CARGO_BIN_EXE_"@ + ident] == "$(location :"@ + ident + ")"@)
}

proof fn lemma_push_keeps_tests(
    rules: Seq<Rule>,
    x: Rule,
    ts: Seq<TargetInfo>,
    ident: Seq<char>,
    bins: Seq<Seq<char>>,
    libs: Seq<Seq<char>>,
)
    requires
        tests_wired(rules, ts, ts.len() as int, ident, bins, libs),
    ensures
        tests_wired(rules.push(x), ts, ts.len() as int, ident, bins, libs),
{
    let n = rules.push(x);
    assert forall|k: int| 0 <= k < ts.len() && (#[trigger] ts[k]).is_test implies exists|j: int|
        0 <= j < n.len() && #[trigger] test_wired(n[j], ts[k].name@, ident, bins, libs) by {
        let j = choose|j: int| 0 <= j < rules.len() && #[trigger] test_wired(rules[j], ts[k].name@, ident, bins, libs);
        assert(n[j] == rules[j]);
    }
}

proof fn lemma_first_unique(ts: Seq<TargetInfo>, sel: TargetSel, b: int, c: int)
    requires
        is_first(ts, sel, b),
        is_first(ts, sel, c),
    ensures
        b == c,
{
    if b < c {
        assert(!selected(ts[b], sel));
    } else if c < b {
        assert(!selected(ts[c], sel));
    }
}

/// The rules of a first-party package: a file group of its sources, its
/// manifest, a binary rule per binary target, a library rule per library
/// target (named `lib<name>` where a binary has its name, and then a
/// dependency of that binary), unless tests are ignored a test rule per
/// library with tests of its own and per test target, and, where it has a
/// build script, the rules that build and run it, whose outputs the library
/// and binary rules take.
pub fn buckify_root_node(pkg: &PackageInfo, node: &NodeInfo, opts: EmitOptions) -> (r: Result<
    Vec<Rule>,
    EmitError,
>)
    ensures
        r is Err ==> (r matches Err(EmitError::Deps(_))) || (r matches Err(
            EmitError::LinksWithoutBuildScript { .. },
        )),
        r matches Ok(rules) ==> {
            &&& rules@.len() >= 2
            &&& rules@[0] is FileGroup
            &&& rules@[1] is CargoManifest
            &&& forall|i: int| 0 <= i < rules@.len() ==> (#[trigger] rules@[i]).wf()
            &&& bins_emitted(
                rules@,
                pkg.targets@,
                pkg.targets@.len() as int,
                selected_names(pkg.targets@, TargetSel::Lib),
            )
            &&& libs_emitted(
                rules@,
                pkg.targets@,
                pkg.targets@.len() as int,
                selected_names(pkg.targets@, TargetSel::Bin),
            )
            &&& tags(rules@) == root_layout(*pkg, opts)
            &&& !opts.ignore_tests ==> tests_wired(
                rules@,
                pkg.targets@,
                pkg.targets@.len() as int,
                replaced(pkg.name@, '-', '_'),
                selected_names(pkg.targets@, TargetSel::Bin),
                selected_names(pkg.targets@, TargetSel::Lib),
            )
            &&& rules@[0] matches Rule::FileGroup(f) && f.srcs.patterns@ == seq!["**/**"@]
                && f.srcs.excluded@.len() == 0
        },
        deps_ok(CargoTargetKind::Lib, node.edges@, opts) && deps_ok(CargoTargetKind::Bin, node.edges@, opts)
            && deps_ok(CargoTargetKind::Test, node.edges@, opts) && deps_ok(
            CargoTargetKind::CustomBuild,
            node.edges@,
            opts,
        ) && links_ok(*node) ==> r is Ok,
{
    let bin_names = target_names(&pkg.targets, TargetSel::Bin);
    let lib_names = target_names(&pkg.targets, TargetSel::Lib);
    let ghost bins = selected_names(pkg.targets@, TargetSel::Bin);
    let ghost libs = selected_names(pkg.targets@, TargetSel::Lib);
    let ghost ts = pkg.targets@;
    let build_index = first_target(&pkg.targets, TargetSel::CustomBuild);
    let mut rules: Vec<Rule> = Vec::new();
    rules.push(Rule::FileGroup(emit_filegroup(pkg)));
    rules.push(Rule::CargoManifest(emit_cargo_manifest(pkg)));
    let ghost head = seq![(0int, pkg.name@ + "-vendor"@), (1int, pkg.name@ + "-manifest"@)];
    let ghost tests = !opts.ignore_tests;
    proof {
        assert(tags(rules@) =~= head + bin_tags(ts.subrange(0, 0)));
    }
    let mut i: usize = 0;
    while i < pkg.targets.len()
        invariant
            ts == pkg.targets@,
            strings_view(bin_names@) == bins,
            strings_view(lib_names@) == libs,
            bins == selected_names(ts, TargetSel::Bin),
            libs == selected_names(ts, TargetSel::Lib),
            i <= ts.len(),
            rules@.len() >= 2,
            rules@[0] is FileGroup,
            rules@[1] is CargoManifest,
            forall|k: int| 0 <= k < rules@.len() ==> (#[trigger] rules@[k]).wf(),
            bins_emitted(rules@, ts, i as int, libs),
            libs_emitted(rules@, ts, 0, bins),
            build_index matches Some(b) ==> b < ts.len(),
            rules@[0] matches Rule::FileGroup(f) && f.srcs.patterns@ == seq!["**/**"@]
                && f.srcs.excluded@.len() == 0,
            tags(rules@) == head + bin_tags(ts.subrange(0, i as int)),
        decreases ts.len() - i,
    {
        let t = &pkg.targets[i];
        let ghost tags_before = tags(rules@);
        proof {
            assert(ts.subrange(0, i + 1).drop_last() =~= ts.subrange(0, i as int));
        }
        if t.is_bin {
            let mut b = match emit_rust_binary(pkg, node, t, t.name.as_str(), opts) {
                Ok(x) => x,
                Err(e) => {
                    return Err(e);
                },
            };
            let has_lib = crate::deps::contains_string(&lib_names, t.name.as_str());
            if has_lib {
                b.attrs.dep_attrs.deps.insert(concat2(":lib", t.name.as_str()));
            }
            if let Some(bi) = build_index {
                patch_with_buildscript(&mut b.attrs, pkg.targets[bi].name.as_str(), pkg.name.as_str());
            }
            let ghost before = rules@;
            let ghost rule = Rule::RustBinary(b);
            rules.push(Rule::RustBinary(b));
            proof {
                lemma_push_keeps(before, rule, ts, i as int, 0, libs, bins);
                assert(rules@ == before.push(rule));
                assert(rules@[before.len() as int] == rule);
                assert(bins_emitted(rules@, ts, i + 1, libs)) by {
                    assert forall|k: int| 0 <= k < i + 1 && (#[trigger] ts[k]).is_bin implies exists|j: int|
                        0 <= j < rules@.len() && is_binary_named(#[trigger] rules@[j], ts[k].name@) && (libs.contains(
                            ts[k].name@,
                        ) ==> binary_depends_on(rules@[j], ":lib"@ + ts[k].name@)) by {
                        if k == i {
                            assert(is_binary_named(rules@[before.len() as int], ts[k].name@));
                        }
                    }
                }
                assert(tags(rules@) =~= tags_before + seq![(2int, t.name@)]);
            }
        }
        proof {
            assert(tags(rules@) =~= head + bin_tags(ts.subrange(0, i + 1)));
        }
        i = i + 1;
    }
    proof {
        assert(ts.subrange(0, ts.len() as int) =~= ts);
        assert(tags(rules@) =~= head + bin_tags(ts) + lib_tags(ts.subrange(0, 0), bins, tests));
    }
    let mut i: usize = 0;
    while i < pkg.targets.len()
        invariant
            ts == pkg.targets@,
            strings_view(bin_names@) == bins,
            strings_view(lib_names@) == libs,
            i <= ts.len(),
            rules@.len() >= 2,
            rules@[0] is FileGroup,
            rules@[1] is CargoManifest,
            forall|k: int| 0 <= k < rules@.len() ==> (#[trigger] rules@[k]).wf(),
            bins_emitted(rules@, ts, ts.len() as int, libs),
            libs_emitted(rules@, ts, i as int, bins),
            build_index matches Some(b) ==> b < ts.len(),
            rules@[0] matches Rule::FileGroup(f) && f.srcs.patterns@ == seq!["**/**"@]
                && f.srcs.excluded@.len() == 0,
            tests == !opts.ignore_tests,
            tags(rules@) == head + bin_tags(ts) + lib_tags(ts.subrange(0, i as int), bins, tests),
        decreases ts.len() - i,
    {
        let t = &pkg.targets[i];
        let ghost tags_before = tags(rules@);
        proof {
            assert(ts.subrange(0, i + 1).drop_last() =~= ts.subrange(0, i as int));
        }
        if t.is_lib {
            let name = if crate::deps::contains_string(&bin_names, t.name.as_str()) {
                concat2("lib", t.name.as_str())
            } else {
                t.name.clone()
            };
            let ghost lname = name@;
            let mut l = match emit_rust_library(pkg, node, t, name.as_str(), opts) {
                Ok(x) => x,
                Err(e) => {
                    return Err(e);
                },
            };
            if let Some(bi) = build_index {
                patch_with_buildscript(&mut l.attrs, pkg.targets[bi].name.as_str(), pkg.name.as_str());
            }
            let ghost before = rules@;
            let ghost rule = Rule::RustLibrary(l);
            rules.push(Rule::RustLibrary(l));
            proof {
                lemma_push_keeps(before, rule, ts, ts.len() as int, i as int, libs, bins);
                assert(rules@[before.len() as int] == rule);
                assert(libs_emitted(rules@, ts, i + 1, bins)) by {
                    assert forall|k: int| 0 <= k < i + 1 && (#[trigger] ts[k]).is_lib implies exists|j: int|
                        0 <= j < rules@.len() && is_library_named(#[trigger] rules@[j], crate::deps::library_rule_name(ts[k].name@, bins)) by {
                        if k == i {
                            assert(is_library_named(rules@[before.len() as int], crate::deps::library_rule_name(ts[k].name@, bins)));
                        }
                    }
                }
                assert(tags(rules@) =~= tags_before + seq![(3int, crate::deps::library_rule_name(t.name@, bins))]);
            }
            let ghost tags_lib = tags(rules@);
            if !opts.ignore_tests && t.has_tests {
                let test_name = concat2(t.name.as_str(), "-unittest");
                let test = match emit_rust_test(pkg, node, t, test_name.as_str(), opts) {
                    Ok(x) => x,
                    Err(e) => {
                        return Err(e);
                    },
                };
                let ghost before = rules@;
                let ghost rule = Rule::RustTest(test);
                rules.push(Rule::RustTest(test));
                proof {
                    lemma_push_keeps(before, rule, ts, ts.len() as int, i + 1, libs, bins);
                    assert(tags(rules@) =~= tags_lib + seq![(4int, t.name@ + "-unittest"@)]);
                }
            }
        }
        proof {
            assert(tags(rules@) =~= head + bin_tags(ts) + lib_tags(ts.subrange(0, i + 1), bins, tests));
        }
        i = i + 1;
    }
    let ghost lib_part = head + bin_tags(ts) + lib_tags(ts, bins, tests);
    proof {
        assert(ts.subrange(0, ts.len() as int) =~= ts);
        assert(tags(rules@) == lib_part);
    }
    if !opts.ignore_tests {
        let ident = replace_char(pkg.name.as_str(), '-', '_');
        let bin_alias = crate::deps::contains_string(&bin_names, ident.as_str());
        let has_lib = crate::deps::contains_string(&lib_names, ident.as_str());
        let mut i: usize = 0;
        while i < pkg.targets.len()
            invariant
                ts == pkg.targets@,
                i <= ts.len(),
                rules@.len() >= 2,
                rules@[0] is FileGroup,
                rules@[1] is CargoManifest,
                forall|k: int| 0 <= k < rules@.len() ==> (#[trigger] rules@[k]).wf(),
                bins_emitted(rules@, ts, ts.len() as int, libs),
                libs_emitted(rules@, ts, ts.len() as int, bins),
                rules@[0] matches Rule::FileGroup(f) && f.srcs.patterns@ == seq!["**/**"@]
                    && f.srcs.excluded@.len() == 0,
                tags(rules@) == lib_part + test_tags(ts.subrange(0, i as int)),
                ident@ == replaced(pkg.name@, '-', '_'),
                bin_alias == bins.contains(ident@),
                has_lib == libs.contains(ident@),
                strings_view(bin_names@) == bins,
                strings_view(lib_names@) == libs,
                tests_wired(rules@, ts, i as int, ident@, bins, libs),
            decreases ts.len() - i,
        {
            let t = &pkg.targets[i];
            let ghost tags_before = tags(rules@);
            proof {
                assert(ts.subrange(0, i + 1).drop_last() =~= ts.subrange(0, i as int));
            }
            if t.is_test {
                let mut test = match emit_rust_test(pkg, node, t, t.name.as_str(), opts) {
                    Ok(x) => x,
                    Err(e) => {
                        return Err(e);
                    },
                };
                if bin_alias {
                    let key = concat2("CARGO_BIN_EXE_", ident.as_str());
                    let value = concat3("$(location :", ident.as_str(), ")");
                    test.attrs.env.put(key, value, true);
                }
                if has_lib {
                    if bin_alias {
                        test.attrs.dep_attrs.deps.insert(concat2(":lib", ident.as_str()));
                    } else {
                        test.attrs.dep_attrs.deps.insert(concat2(":", ident.as_str()));
                    }
                }
                let ghost before = rules@;
                let ghost rule = Rule::RustTest(test);
                rules.push(Rule::RustTest(test));
                proof {
                    lemma_push_keeps(before, rule, ts, ts.len() as int, ts.len() as int, libs, bins);
                    assert(tags(rules@) =~= tags_before + seq![(4int, t.name@)]);
                    assert(test_wired(rules@[before.len() as int], t.name@, ident@, bins, libs));
                    assert forall|k: int| 0 <= k < i + 1 && (#[trigger] ts[k]).is_test implies exists|j: int|
                        0 <= j < rules@.len() && #[trigger] test_wired(rules@[j], ts[k].name@, ident@, bins, libs) by {
                        if k < i {
                            let j = choose|j: int| 0 <= j < before.len() && #[trigger] test_wired(before[j], ts[k].name@, ident@, bins, libs);
                            assert(rules@[j] == before[j]);
                        } else {
                            assert(test_wired(rules@[before.len() as int], ts[k].name@, ident@, bins, libs));
                        }
                    }
                }
            }
            proof {
                assert(tags(rules@) =~= lib_part + test_tags(ts.subrange(0, i + 1)));
            }
            i = i + 1;
        }
        proof {
            assert(ts.subrange(0, ts.len() as int) =~= ts);
        }
    }
    let ghost test_part = tags(rules@);
    let ghost wired = !opts.ignore_tests ==> tests_wired(rules@, ts, ts.len() as int, replaced(pkg.name@, '-', '_'), bins, libs);
    proof {
        assert(wired);
    }
    proof {
        assert(test_part == lib_part + (if opts.ignore_tests {
            Seq::<(int, Seq<char>)>::empty()
        } else {
            test_tags(ts)
        }));
    }
    if let Some(bi) = build_index {
        let build = &pkg.targets[bi];
        let build_rule = match emit_buildscript_build(build, pkg, node, opts) {
            Ok(x) => x,
            Err(e) => {
                return Err(e);
            },
        };
        let run = match emit_buildscript_run(pkg, node, build) {
            Ok(x) => x,
            Err(e) => {
                return Err(e);
            },
        };
        let ghost before = rules@;
        let ghost rule = Rule::RustBinary(build_rule);
        rules.push(Rule::RustBinary(build_rule));
        proof {
            if !opts.ignore_tests {
                lemma_push_keeps_tests(before, rule, ts, replaced(pkg.name@, '-', '_'), bins, libs);
            }
            lemma_push_keeps(before, rule, ts, ts.len() as int, ts.len() as int, libs, bins);
        }
        let ghost before = rules@;
        let ghost rule = Rule::BuildscriptRun(run);
        rules.push(Rule::BuildscriptRun(run));
        proof {
            if !opts.ignore_tests {
                lemma_push_keeps_tests(before, rule, ts, replaced(pkg.name@, '-', '_'), bins, libs);
            }
            lemma_push_keeps(before, rule, ts, ts.len() as int, ts.len() as int, libs, bins);
            let c = choose|c: int| is_first(ts, TargetSel::CustomBuild, c);
            lemma_first_unique(ts, TargetSel::CustomBuild, bi as int, c);
            assert(tags(rules@) =~= test_part + build_tags(*pkg));
        }
    }
    proof {
        if build_index is None {
            assert(!has_target(ts, TargetSel::CustomBuild));
            assert(tags(rules@) =~= test_part + build_tags(*pkg));
        }
        assert(tags(rules@) =~= root_layout(*pkg, opts));
    }
    Ok(rules)
}

} // verus!
