//! The rule records that a generated build file holds, and the merge of
//! hand-edited attribute values from an existing file into fresh rules.
use vstd::prelude::*;
use crate::collections::{LabelSet, StrMap};
use crate::platform::Os;

verus! {

/// One value of type `T` for each operating system.
pub struct PerOs<T> {
    pub windows: T,
    pub macos: T,
    pub linux: T,
}

impl<T> PerOs<T> {
    pub open spec fn at(&self, os: Os) -> T {
        match os {
            Os::Windows => self.windows,
            Os::Macos => self.macos,
            Os::Linux => self.linux,
        }
    }

    pub fn get(&self, os: Os) -> (r: &T)
        ensures
            *r == self.at(os),
    {
        match os {
            Os::Windows => &self.windows,
            Os::Macos => &self.macos,
            Os::Linux => &self.linux,
        }
    }
}

impl PerOs<LabelSet> {
    pub open spec fn wf(&self) -> bool {
        self.windows.wf() && self.macos.wf() && self.linux.wf()
    }

    pub fn new() -> (r: PerOs<LabelSet>)
        ensures
            r.wf(),
            forall|os: Os| (#[trigger] r.at(os))@.len() == 0,
    {
        PerOs { windows: LabelSet::new(), macos: LabelSet::new(), linux: LabelSet::new() }
    }

    /// Adds `label` to the set of `os`.
    pub fn insert(&mut self, os: Os, label: String)
        requires
            old(self).wf(),
        ensures
            final(self).wf(),
            final(self).at(os).members() == old(self).at(os).members().insert(label@),
            forall|o: Os| o != os ==> #[trigger] final(self).at(o) == old(self).at(o),
    {
        match os {
            Os::Windows => {
                self.windows.insert(label);
            },
            Os::Macos => {
                self.macos.insert(label);
            },
            Os::Linux => {
                self.linux.insert(label);
            },
        }
    }

    /// Adds, for each OS, the members of `other` that are missing.
    pub fn extend_from(&mut self, other: &PerOs<LabelSet>)
        requires
            old(self).wf(),
        ensures
            final(self).wf(),
            forall|os: Os|
                (#[trigger] final(self).at(os)).members() == old(self).at(os).members().union(
                    other.at(os).members(),
                ),
            *other == *old(self) ==> *final(self) == *old(self),
    {
        self.windows.extend_from(&other.windows);
        self.macos.extend_from(&other.macos);
        self.linux.extend_from(&other.linux);
        proof {
            if *other == *old(self) {
                assert(self.windows.items@ =~= old(self).windows.items@);
            }
        }
    }
}

impl PerOs<StrMap> {
    pub open spec fn wf(&self) -> bool {
        self.windows.wf() && self.macos.wf() && self.linux.wf()
    }

    pub fn new() -> (r: PerOs<StrMap>)
        ensures
            r.wf(),
            forall|os: Os| (#[trigger] r.at(os)).map() == Map::<Seq<char>, Seq<char>>::empty(),
    {
        PerOs { windows: StrMap::new(), macos: StrMap::new(), linux: StrMap::new() }
    }

    /// Adds, for each OS, the entries of `other` whose keys are missing.
    pub fn extend_missing(&mut self, other: &PerOs<StrMap>)
        requires
            old(self).wf(),
            other.wf(),
        ensures
            final(self).wf(),
            forall|os: Os|
                (#[trigger] final(self).at(os)).map() == other.at(os).map().union_prefer_right(
                    old(self).at(os).map(),
                ),
            *other == *old(self) ==> *final(self) == *old(self),
    {
        self.windows.extend_missing(&other.windows);
        self.macos.extend_missing(&other.macos);
        self.linux.extend_missing(&other.linux);
    }
}

/// The four dependency attributes of a Rust rule.
pub struct DepAttrs {
    /// Unconditional dependencies.
    pub deps: LabelSet,
    /// Unconditional dependencies under an alias: alias to label.
    pub named_deps: StrMap,
    /// Dependencies that apply on one OS only.
    pub os_deps: PerOs<LabelSet>,
    /// Aliased dependencies that apply on one OS only: per OS, alias to label.
    pub os_named_deps: PerOs<StrMap>,
}

impl DepAttrs {
    pub open spec fn wf(&self) -> bool {
        self.deps.wf() && self.named_deps.wf() && self.os_deps.wf() && self.os_named_deps.wf()
    }

    pub fn new() -> (r: DepAttrs)
        ensures
            r.wf(),
            r.deps@.len() == 0,
            r.named_deps.map() == Map::<Seq<char>, Seq<char>>::empty(),
            forall|os: Os| (#[trigger] r.os_deps.at(os))@.len() == 0,
            forall|os: Os|
                (#[trigger] r.os_named_deps.at(os)).map() == Map::<Seq<char>, Seq<char>>::empty(),
    {
        DepAttrs {
            deps: LabelSet::new(),
            named_deps: StrMap::new(),
            os_deps: PerOs::<LabelSet>::new(),
            os_named_deps: PerOs::<StrMap>::new(),
        }
    }
}

/// Which of a rule's mergeable attributes a name in the merge configuration selects.
pub open spec fn selects(fields: &LabelSet, name: Seq<char>) -> bool {
    fields@.contains(name)
}

/// Merges the dependency attributes that `fields` names from `src` into `dst`:
/// sets gain the members they lack, maps the keys they lack.
pub fn patch_dep_attrs(fields: &LabelSet, dst: &mut DepAttrs, src: &DepAttrs)
    requires
        fields.wf(),
        old(dst).wf(),
        src.wf(),
    ensures
        final(dst).wf(),
        final(dst).deps.members() == if selects(fields, "deps"@) {
            old(dst).deps.members().union(src.deps.members())
        } else {
            old(dst).deps.members()
        },
        final(dst).named_deps.map() == if selects(fields, "named_deps"@) {
            src.named_deps.map().union_prefer_right(old(dst).named_deps.map())
        } else {
            old(dst).named_deps.map()
        },
        forall|os: Os|
            (#[trigger] final(dst).os_deps.at(os)).members() == if selects(fields, "os_deps"@) {
                old(dst).os_deps.at(os).members().union(src.os_deps.at(os).members())
            } else {
                old(dst).os_deps.at(os).members()
            },
        forall|os: Os|
            (#[trigger] final(dst).os_named_deps.at(os)).map() == if selects(
                fields,
                "os_named_deps"@,
            ) {
                src.os_named_deps.at(os).map().union_prefer_right(
                    old(dst).os_named_deps.at(os).map(),
                )
            } else {
                old(dst).os_named_deps.at(os).map()
            },
        *src == *old(dst) ==> *final(dst) == *old(dst),
{
    if fields.contains("deps") {
        dst.deps.extend_from(&src.deps);
    }
    if fields.contains("named_deps") {
        dst.named_deps.extend_missing(&src.named_deps);
    }
    if fields.contains("os_deps") {
        dst.os_deps.extend_from(&src.os_deps);
    }
    if fields.contains("os_named_deps") {
        dst.os_named_deps.extend_missing(&src.os_named_deps);
    }
    proof {
        if *src == *old(dst) {
            assert(dst.deps.items@ =~= old(dst).deps.items@);
            assert(dst.named_deps.entries@ =~= old(dst).named_deps.entries@);
        }
    }
}

/// The kind of a Cargo target, as far as rule emission distinguishes them.
#[derive(Debug, Clone, Copy, PartialEq, Eq, Structural)]
pub enum CargoTargetKind {
    Lib,
    Bin,
    CustomBuild,
    Test,
}

/// A `load` statement: the file and the symbols taken from it.
pub struct Load {
    pub bzl: String,
    pub items: LabelSet,
}

/// Fetches and unpacks a source archive.
pub struct HttpArchive {
    pub name: String,
    pub urls: LabelSet,
    pub sha256: String,
    pub archive_type: String,
    pub strip_prefix: String,
    pub out: Option<String>,
}

/// Reads a package manifest to produce the environment that Cargo would set.
pub struct CargoManifest {
    pub name: String,
    pub vendor: String,
}

/// Patterns of files to take, and of files to leave out.
pub struct Glob {
    pub patterns: LabelSet,
    pub excluded: LabelSet,
}

/// A named group of files.
pub struct FileGroup {
    pub name: String,
    pub srcs: Glob,
    pub out: Option<String>,
}

/// What merging `other` into `before` under `fields` gives.
pub open spec fn attrs_merged(after: RustAttrs, before: RustAttrs, other: RustAttrs, fields: &LabelSet) -> bool {
        &&& after.name == before.name
        &&& after.crate_name == before.crate_name
        &&& after.crate_root == before.crate_root
        &&& after.edition == before.edition
        &&& after.srcs == before.srcs
        &&& after.features.members() == if selects(fields, "features"@) {
                    before.features.members().union(other.features.members())
                } else {
                    before.features.members()
                }
        &&& after.rustc_flags.members() == if selects(fields, "rustc_flags"@) {
                    before.rustc_flags.members().union(other.rustc_flags.members())
                } else {
                    before.rustc_flags.members()
                }
        &&& after.visibility.members() == if selects(fields, "visibility"@) {
                    before.visibility.members().union(other.visibility.members())
                } else {
                    before.visibility.members()
                }
        &&& after.target_compatible_with.members() == if selects(
                    fields,
                    "target_compatible_with"@,
                ) {
                    before.target_compatible_with.members().union(
                        other.target_compatible_with.members(),
                    )
                } else {
                    before.target_compatible_with.members()
                }
        &&& after.compatible_with.members() == if selects(fields, "compatible_with"@) {
                    before.compatible_with.members().union(other.compatible_with.members())
                } else {
                    before.compatible_with.members()
                }
        &&& after.exec_compatible_with.members() == if selects(
                    fields,
                    "exec_compatible_with"@,
                ) {
                    before.exec_compatible_with.members().union(
                        other.exec_compatible_with.members(),
                    )
                } else {
                    before.exec_compatible_with.members()
                }
        &&& after.env.map() == if selects(fields, "env"@) {
                    other.env.map().union_prefer_right(before.env.map())
                } else {
                    before.env.map()
                }
        &&& after.dep_attrs.deps.members() == if selects(fields, "deps"@) {
                    before.dep_attrs.deps.members().union(other.dep_attrs.deps.members())
                } else {
                    before.dep_attrs.deps.members()
                }
        &&& after.dep_attrs.named_deps.map() == if selects(fields, "named_deps"@) {
                    other.dep_attrs.named_deps.map().union_prefer_right(
                        before.dep_attrs.named_deps.map(),
                    )
                } else {
                    before.dep_attrs.named_deps.map()
                }
}

/// The attributes that the library, binary and test rules share.
pub struct RustAttrs {
    pub name: String,
    pub srcs: LabelSet,
    pub crate_name: String,
    pub crate_root: String,
    pub edition: String,
    pub target_compatible_with: LabelSet,
    pub compatible_with: LabelSet,
    pub exec_compatible_with: LabelSet,
    pub env: StrMap,
    pub features: LabelSet,
    pub rustc_flags: LabelSet,
    pub visibility: LabelSet,
    pub dep_attrs: DepAttrs,
}

impl RustAttrs {
    pub open spec fn wf(&self) -> bool {
        &&& self.srcs.wf()
        &&& self.target_compatible_with.wf()
        &&& self.compatible_with.wf()
        &&& self.exec_compatible_with.wf()
        &&& self.env.wf()
        &&& self.features.wf()
        &&& self.rustc_flags.wf()
        &&& self.visibility.wf()
        &&& self.dep_attrs.wf()
    }

    /// Attributes named `name` with every collection empty and every text
    /// attribute empty.
    pub fn named(name: String) -> (r: RustAttrs)
        ensures
            r.wf(),
            r.name == name,
            r.srcs@.len() == 0,
            r.target_compatible_with@.len() == 0,
            r.compatible_with@.len() == 0,
            r.exec_compatible_with@.len() == 0,
            r.env.map() == Map::<Seq<char>, Seq<char>>::empty(),
            r.features@.len() == 0,
            r.rustc_flags@.len() == 0,
            r.visibility@.len() == 0,
            r.dep_attrs.deps@.len() == 0,
            r.dep_attrs.named_deps.map() == Map::<Seq<char>, Seq<char>>::empty(),
            forall|os: Os| (#[trigger] r.dep_attrs.os_deps.at(os))@.len() == 0,
            forall|os: Os|
                (#[trigger] r.dep_attrs.os_named_deps.at(os)).map() == Map::<
                    Seq<char>,
                    Seq<char>,
                >::empty(),
    {
        RustAttrs {
            name,
            srcs: LabelSet::new(),
            crate_name: String::new(),
            crate_root: String::new(),
            edition: String::new(),
            target_compatible_with: LabelSet::new(),
            compatible_with: LabelSet::new(),
            exec_compatible_with: LabelSet::new(),
            env: StrMap::new(),
            features: LabelSet::new(),
            rustc_flags: LabelSet::new(),
            visibility: LabelSet::new(),
            dep_attrs: DepAttrs::new(),
        }
    }

    /// Merges the attributes that `fields` names from `other` into `self`:
    /// collections gain what they lack, text attributes keep their values.
    pub fn patch_from(&mut self, other: &RustAttrs, fields: &LabelSet)
        requires
            old(self).wf(),
            other.wf(),
            fields.wf(),
        ensures
            final(self).wf(),
            attrs_merged(*final(self), *old(self), *other, fields),
            *other == *old(self) ==> *final(self) == *old(self),
    {
        if fields.contains("target_compatible_with") {
            self.target_compatible_with.extend_from(&other.target_compatible_with);
        }
        if fields.contains("compatible_with") {
            self.compatible_with.extend_from(&other.compatible_with);
        }
        if fields.contains("exec_compatible_with") {
            self.exec_compatible_with.extend_from(&other.exec_compatible_with);
        }
        if fields.contains("env") {
            self.env.extend_missing(&other.env);
        }
        if fields.contains("features") {
            self.features.extend_from(&other.features);
        }
        if fields.contains("rustc_flags") {
            self.rustc_flags.extend_from(&other.rustc_flags);
        }
        if fields.contains("visibility") {
            self.visibility.extend_from(&other.visibility);
        }
        patch_dep_attrs(fields, &mut self.dep_attrs, &other.dep_attrs);
        proof {
            if *other == *old(self) {
                assert(self.features.items@ =~= old(self).features.items@);
                assert(self.env.entries@ =~= old(self).env.entries@);
            }
        }
    }
}

/// A `rust_library` rule.
pub struct RustLibrary {
    pub attrs: RustAttrs,
    pub proc_macro: Option<bool>,
}

/// A `rust_binary` rule.
pub struct RustBinary {
    pub attrs: RustAttrs,
}

/// A `rust_test` rule.
pub struct RustTest {
    pub attrs: RustAttrs,
}

/// What merging `other` into `before` under `fields` gives.
pub open spec fn run_merged(after: BuildscriptRun, before: BuildscriptRun, other: BuildscriptRun, fields: &LabelSet) -> bool {
        &&& after.name == before.name
        &&& after.env_srcs == before.env_srcs
        &&& after.env.map() == if selects(fields, "env"@) {
                    other.env.map().union_prefer_right(before.env.map())
                } else {
                    before.env.map()
                }
        &&& after.features.members() == if selects(fields, "features"@) {
                    before.features.members().union(other.features.members())
                } else {
                    before.features.members()
                }
        &&& after.visibility.members() == if selects(fields, "visibility"@) {
                    before.visibility.members().union(other.visibility.members())
                } else {
                    before.visibility.members()
                }
}

/// Runs a build script and exposes what it produced.
pub struct BuildscriptRun {
    pub name: String,
    pub package_name: String,
    pub buildscript_rule: String,
    pub env: StrMap,
    pub env_srcs: LabelSet,
    pub features: LabelSet,
    pub version: String,
    pub manifest_dir: String,
    pub visibility: LabelSet,
}

impl BuildscriptRun {
    pub open spec fn wf(&self) -> bool {
        self.env.wf() && self.env_srcs.wf() && self.features.wf() && self.visibility.wf()
    }

    /// Merges the environment, features and visibility, where `fields` names
    /// them, from `other` into `self`.
    pub fn patch_from(&mut self, other: &BuildscriptRun, fields: &LabelSet)
        requires
            old(self).wf(),
            other.wf(),
            fields.wf(),
        ensures
            final(self).wf(),
            run_merged(*final(self), *old(self), *other, fields),
            *other == *old(self) ==> *final(self) == *old(self),
    {
        if fields.contains("env") {
            self.env.extend_missing(&other.env);
        }
        if fields.contains("features") {
            self.features.extend_from(&other.features);
        }
        if fields.contains("visibility") {
            self.visibility.extend_from(&other.visibility);
        }
        proof {
            if *other == *old(self) {
                assert(self.features.items@ =~= old(self).features.items@);
                assert(self.env.entries@ =~= old(self).env.entries@);
            }
        }
    }
}

/// An `alias` rule: a second name for a target.
pub struct Alias {
    pub name: String,
    pub actual: String,
    pub visibility: LabelSet,
}

/// One rule of a generated build file.
pub enum Rule {
    Load(Load),
    HttpArchive(HttpArchive),
    FileGroup(FileGroup),
    CargoManifest(CargoManifest),
    RustLibrary(RustLibrary),
    RustBinary(RustBinary),
    RustTest(RustTest),
    BuildscriptRun(BuildscriptRun),
}

impl Rule {
    pub open spec fn wf(&self) -> bool {
        match self {
            Rule::RustLibrary(r) => r.attrs.wf(),
            Rule::RustBinary(r) => r.attrs.wf(),
            Rule::RustTest(r) => r.attrs.wf(),
            Rule::BuildscriptRun(r) => r.wf(),
            Rule::Load(l) => l.items.wf(),
            Rule::HttpArchive(h) => h.urls.wf(),
            Rule::FileGroup(f) => f.srcs.patterns.wf() && f.srcs.excluded.wf(),
            Rule::CargoManifest(_) => true,
        }
    }

}

/// The Rust rules of an existing build file, by kind and in file order, as
/// read back for a merge.
pub struct ExistingRules {
    pub libraries: Vec<RustLibrary>,
    pub binaries: Vec<RustBinary>,
    pub tests: Vec<RustTest>,
    pub runs: Vec<BuildscriptRun>,
}

impl ExistingRules {
    pub open spec fn wf(&self) -> bool {
        &&& forall|i: int| 0 <= i < self.libraries@.len() ==> (#[trigger] self.libraries@[i]).attrs.wf()
        &&& forall|i: int| 0 <= i < self.binaries@.len() ==> (#[trigger] self.binaries@[i]).attrs.wf()
        &&& forall|i: int| 0 <= i < self.tests@.len() ==> (#[trigger] self.tests@[i]).attrs.wf()
        &&& forall|i: int| 0 <= i < self.runs@.len() ==> (#[trigger] self.runs@[i]).wf()
    }
}

/// The position of the last of `names` equal to `name`, if any.
pub open spec fn last_named(names: Seq<Seq<char>>, name: Seq<char>) -> Option<int>
    decreases names.len(),
{
    if names.len() == 0 {
        None
    } else if names.last() == name {
        Some(names.len() - 1)
    } else {
        last_named(names.drop_last(), name)
    }
}

pub open spec fn library_names(v: Seq<RustLibrary>) -> Seq<Seq<char>> {
    v.map_values(|r: RustLibrary| r.attrs.name@)
}

pub open spec fn binary_names(v: Seq<RustBinary>) -> Seq<Seq<char>> {
    v.map_values(|r: RustBinary| r.attrs.name@)
}

pub open spec fn test_names(v: Seq<RustTest>) -> Seq<Seq<char>> {
    v.map_values(|r: RustTest| r.attrs.name@)
}

pub open spec fn run_names(v: Seq<BuildscriptRun>) -> Seq<Seq<char>> {
    v.map_values(|r: BuildscriptRun| r.name@)
}

proof fn lemma_last_named_bounds(names: Seq<Seq<char>>, name: Seq<char>)
    ensures
        last_named(names, name) matches Some(i) ==> 0 <= i < names.len() && names[i] == name,
    decreases names.len(),
{
    if names.len() > 0 && names.last() != name {
        lemma_last_named_bounds(names.drop_last(), name);
    }
}

/// How merging `existing` into the fresh rule `before` gives `after`: a Rust
/// rule takes the hand-edited values of the last existing rule of its kind
/// and name, and is kept as it is where there is none; other rules are kept.
pub open spec fn merged_rule(existing: &ExistingRules, before: Rule, after: Rule, fields: &LabelSet) -> bool {
    match before {
        Rule::RustLibrary(b) => after matches Rule::RustLibrary(a) && a.proc_macro == b.proc_macro
            && match last_named(library_names(existing.libraries@), b.attrs.name@) {
            Some(j) => attrs_merged(a.attrs, b.attrs, existing.libraries@[j].attrs, fields),
            None => a == b,
        },
        Rule::RustBinary(b) => after matches Rule::RustBinary(a) && match last_named(
            binary_names(existing.binaries@),
            b.attrs.name@,
        ) {
            Some(j) => attrs_merged(a.attrs, b.attrs, existing.binaries@[j].attrs, fields),
            None => a == b,
        },
        Rule::RustTest(b) => after matches Rule::RustTest(a) && match last_named(
            test_names(existing.tests@),
            b.attrs.name@,
        ) {
            Some(j) => attrs_merged(a.attrs, b.attrs, existing.tests@[j].attrs, fields),
            None => a == b,
        },
        Rule::BuildscriptRun(b) => after matches Rule::BuildscriptRun(a) && match last_named(
            run_names(existing.runs@),
            b.name@,
        ) {
            Some(j) => run_merged(a, b, existing.runs@[j], fields),
            None => a == b,
        },
        _ => after == before,
    }
}

/// Whether the last existing rule of the kind and name of `rule` is `rule` itself.
pub open spec fn identical_in(existing: &ExistingRules, rule: Rule) -> bool {
    match rule {
        Rule::RustLibrary(r) => last_named(library_names(existing.libraries@), r.attrs.name@) matches Some(
            j,
        ) && existing.libraries@[j] == r,
        Rule::RustBinary(r) => last_named(binary_names(existing.binaries@), r.attrs.name@) matches Some(j)
            && existing.binaries@[j] == r,
        Rule::RustTest(r) => last_named(test_names(existing.tests@), r.attrs.name@) matches Some(j)
            && existing.tests@[j] == r,
        Rule::BuildscriptRun(r) => last_named(run_names(existing.runs@), r.name@) matches Some(j)
            && existing.runs@[j] == r,
        _ => true,
    }
}

fn find_library(v: &Vec<RustLibrary>, name: &str) -> (r: Option<usize>)
    ensures
        r matches Some(i) ==> last_named(library_names(v@), name@) == Some(i as int) && i < v@.len(),
        r is None ==> last_named(library_names(v@), name@) is None,
{
    let ghost names = library_names(v@);
    let mut k: usize = v.len();
    proof {
        assert(names.subrange(0, k as int) =~= names);
    }
    while k > 0
        invariant
            k <= v@.len(),
            names == library_names(v@),
            last_named(names, name@) == last_named(names.subrange(0, k as int), name@),
        decreases k,
    {
        proof {
            assert(names.subrange(0, k as int).drop_last() =~= names.subrange(0, k - 1));
            assert(names.subrange(0, k as int).last() == v@[k - 1].attrs.name@);
        }
        if crate::text::str_eq(v[k - 1].attrs.name.as_str(), name) {
            return Some(k - 1);
        }
        k = k - 1;
    }
    proof {
        assert(names.subrange(0, 0).len() == 0);
    }
    None
}

fn find_binary(v: &Vec<RustBinary>, name: &str) -> (r: Option<usize>)
    ensures
        r matches Some(i) ==> last_named(binary_names(v@), name@) == Some(i as int) && i < v@.len(),
        r is None ==> last_named(binary_names(v@), name@) is None,
{
    let ghost names = binary_names(v@);
    let mut k: usize = v.len();
    proof {
        assert(names.subrange(0, k as int) =~= names);
    }
    while k > 0
        invariant
            k <= v@.len(),
            names == binary_names(v@),
            last_named(names, name@) == last_named(names.subrange(0, k as int), name@),
        decreases k,
    {
        proof {
            assert(names.subrange(0, k as int).drop_last() =~= names.subrange(0, k - 1));
            assert(names.subrange(0, k as int).last() == v@[k - 1].attrs.name@);
        }
        if crate::text::str_eq(v[k - 1].attrs.name.as_str(), name) {
            return Some(k - 1);
        }
        k = k - 1;
    }
    proof {
        assert(names.subrange(0, 0).len() == 0);
    }
    None
}

fn find_test(v: &Vec<RustTest>, name: &str) -> (r: Option<usize>)
    ensures
        r matches Some(i) ==> last_named(test_names(v@), name@) == Some(i as int) && i < v@.len(),
        r is None ==> last_named(test_names(v@), name@) is None,
{
    let ghost names = test_names(v@);
    let mut k: usize = v.len();
    proof {
        assert(names.subrange(0, k as int) =~= names);
    }
    while k > 0
        invariant
            k <= v@.len(),
            names == test_names(v@),
            last_named(names, name@) == last_named(names.subrange(0, k as int), name@),
        decreases k,
    {
        proof {
            assert(names.subrange(0, k as int).drop_last() =~= names.subrange(0, k - 1));
            assert(names.subrange(0, k as int).last() == v@[k - 1].attrs.name@);
        }
        if crate::text::str_eq(v[k - 1].attrs.name.as_str(), name) {
            return Some(k - 1);
        }
        k = k - 1;
    }
    proof {
        assert(names.subrange(0, 0).len() == 0);
    }
    None
}

fn find_run(v: &Vec<BuildscriptRun>, name: &str) -> (r: Option<usize>)
    ensures
        r matches Some(i) ==> last_named(run_names(v@), name@) == Some(i as int) && i < v@.len(),
        r is None ==> last_named(run_names(v@), name@) is None,
{
    let ghost names = run_names(v@);
    let mut k: usize = v.len();
    proof {
        assert(names.subrange(0, k as int) =~= names);
    }
    while k > 0
        invariant
            k <= v@.len(),
            names == run_names(v@),
            last_named(names, name@) == last_named(names.subrange(0, k as int), name@),
        decreases k,
    {
        proof {
            assert(names.subrange(0, k as int).drop_last() =~= names.subrange(0, k - 1));
            assert(names.subrange(0, k as int).last() == v@[k - 1].name@);
        }
        if crate::text::str_eq(v[k - 1].name.as_str(), name) {
            return Some(k - 1);
        }
        k = k - 1;
    }
    proof {
        assert(names.subrange(0, 0).len() == 0);
    }
    None
}

/// Merges into one fresh rule the hand-edited values of the last existing
/// rule of its kind and name.
fn patch_rule(existing: &ExistingRules, rule: Rule, fields: &LabelSet) -> (r: Rule)
    requires
        existing.wf(),
        rule.wf(),
        fields.wf(),
    ensures
        r.wf(),
        merged_rule(existing, rule, r, fields),
        identical_in(existing, rule) ==> r == rule,
{
    match rule {
        Rule::RustLibrary(mut new_rule) => {
            if let Some(j) = find_library(&existing.libraries, new_rule.attrs.name.as_str()) {
                new_rule.attrs.patch_from(&existing.libraries[j].attrs, fields);
            }
            Rule::RustLibrary(new_rule)
        },
        Rule::RustBinary(mut new_rule) => {
            if let Some(j) = find_binary(&existing.binaries, new_rule.attrs.name.as_str()) {
                new_rule.attrs.patch_from(&existing.binaries[j].attrs, fields);
            }
            Rule::RustBinary(new_rule)
        },
        Rule::RustTest(mut new_rule) => {
            if let Some(j) = find_test(&existing.tests, new_rule.attrs.name.as_str()) {
                new_rule.attrs.patch_from(&existing.tests[j].attrs, fields);
            }
            Rule::RustTest(new_rule)
        },
        Rule::BuildscriptRun(mut new_rule) => {
            if let Some(j) = find_run(&existing.runs, new_rule.name.as_str()) {
                new_rule.patch_from(&existing.runs[j], fields);
            }
            Rule::BuildscriptRun(new_rule)
        },
        other => other,
    }
}

/// Merges into each fresh rule the hand-edited values of the last existing
/// rule of its kind and name: set attributes gain the members the existing
/// rule adds, map attributes the keys it adds, and on a shared key the fresh
/// value stays. Where the existing file holds the very rules being
/// generated, nothing changes.
pub fn patch_buck_rules(existing: &ExistingRules, rules: Vec<Rule>, fields: &LabelSet) -> (r: Vec<Rule>)
    requires
        existing.wf(),
        fields.wf(),
        forall|i: int| 0 <= i < rules@.len() ==> (#[trigger] rules@[i]).wf(),
    ensures
        r@.len() == rules@.len(),
        forall|i: int| 0 <= i < r@.len() ==> (#[trigger] r@[i]).wf(),
        forall|i: int| 0 <= i < r@.len() ==> merged_rule(existing, rules@[i], #[trigger] r@[i], fields),
        forall|i: int|
            0 <= i < r@.len() && identical_in(existing, rules@[i]) ==> #[trigger] r@[i] == rules@[i],
{
    let ghost input = rules@;
    let mut rest = rules;
    let mut out: Vec<Rule> = Vec::new();
    while rest.len() > 0
        invariant
            fields.wf(),
            existing.wf(),
            out@.len() + rest@.len() == input.len(),
            rest@ == input.subrange(out@.len() as int, input.len() as int),
            forall|i: int| 0 <= i < input.len() ==> (#[trigger] input[i]).wf(),
            forall|i: int| 0 <= i < out@.len() ==> (#[trigger] out@[i]).wf(),
            forall|i: int| 0 <= i < out@.len() ==> merged_rule(existing, input[i], #[trigger] out@[i], fields),
            forall|i: int|
                0 <= i < out@.len() && identical_in(existing, input[i]) ==> #[trigger] out@[i]
                    == input[i],
        decreases rest@.len(),
    {
        let ghost n: int = out@.len() as int;
        let rule = rest.remove(0);
        proof {
            assert(rule == input[n]);
            assert(rest@ =~= input.subrange(n + 1, input.len() as int));
        }
        let patched = patch_rule(existing, rule, fields);
        out.push(patched);
    }
    out
}

} // verus!

verus! {

/// The aliases that both rules map, to different labels: where a merge of
/// `named_deps` keeps the fresh label over a hand-edited one.
pub fn named_dep_conflicts(fresh: &StrMap, existing: &StrMap) -> (r: Vec<String>)
    requires
        fresh.wf(),
        existing.wf(),
    ensures
        forall|a: Seq<char>|
            #[trigger] crate::collections::strings_view(r@).contains(a) <==> (fresh.map().contains_key(a)
                && existing.map().contains_key(a) && fresh.map()[a] != existing.map()[a]),
{
    let mut out: Vec<String> = Vec::new();
    let mut i: usize = 0;
    while i < existing.entries.len()
        invariant
            fresh.wf(),
            existing.wf(),
            i <= existing.entries@.len(),
            forall|a: Seq<char>|
                #[trigger] crate::collections::strings_view(out@).contains(a) <==> (existing.keys().subrange(0, i as int).contains(a)
                    && fresh.map().contains_key(a) && existing.map().contains_key(a) && fresh.map()[a]
                    != existing.map()[a]),
        decreases existing.entries.len() - i,
    {
        let key = &existing.entries[i].0;
        let value = &existing.entries[i].1;
        proof {
            existing.lemma_index_of_pub(i as int);
        }
        let ghost before = out@;
        proof {
            assert forall|a: Seq<char>|
                #[trigger] crate::collections::strings_view(before).contains(a) <==> (existing.keys().subrange(0, i as int).contains(a)
                    && fresh.map().contains_key(a) && existing.map().contains_key(a) && fresh.map()[a]
                    != existing.map()[a]) by {}
        }
        let pushed = match fresh.get(key.as_str()) {
            Some(v) => !crate::text::str_eq(v.as_str(), value.as_str()),
            None => false,
        };
        if pushed {
            out.push(key.clone());
        }
        proof {
            assert(pushed == (fresh.map().contains_key(key@) && fresh.map()[key@] != existing.map()[key@]));
            if pushed {
                assert(crate::collections::strings_view(out@) =~= crate::collections::strings_view(before).push(key@));
            } else {
                assert(crate::collections::strings_view(out@) =~= crate::collections::strings_view(before));
            }
            let ks = existing.keys();
            assert(ks.subrange(0, i + 1) =~= ks.subrange(0, i as int).push(ks[i as int]));
            assert forall|a: Seq<char>|
                #[trigger] crate::collections::strings_view(out@).contains(a) <==> (ks.subrange(0, i + 1).contains(a)
                    && fresh.map().contains_key(a) && existing.map().contains_key(a) && fresh.map()[a]
                    != existing.map()[a]) by {
                let sv = crate::collections::strings_view(out@);
                let sb = crate::collections::strings_view(before);
                let t = ks.subrange(0, i + 1);
                let u = ks.subrange(0, i as int);
                let cond = fresh.map().contains_key(a) && existing.map().contains_key(a) && fresh.map()[a]
                    != existing.map()[a];
                assert(sb.contains(a) <==> (u.contains(a) && cond));
                assert(t.contains(a) <==> (u.contains(a) || a == key@)) by {
                    if a == key@ {
                        assert(t[i as int] == a);
                    }
                    if u.contains(a) {
                        let j = choose|j: int| 0 <= j < u.len() && u[j] == a;
                        assert(t[j] == a);
                    }
                    if t.contains(a) {
                        let j = choose|j: int| 0 <= j < t.len() && t[j] == a;
                        if j < i {
                            assert(u[j] == a);
                        }
                    }
                }
                if pushed {
                    assert(sv.contains(a) <==> (sb.contains(a) || a == key@)) by {
                        if sb.contains(a) {
                            let j = choose|j: int| 0 <= j < sb.len() && sb[j] == a;
                            assert(sv[j] == a);
                        }
                        if a == key@ {
                            assert(sv[sv.len() - 1] == a);
                        }
                        if sv.contains(a) {
                            let j = choose|j: int| 0 <= j < sv.len() && sv[j] == a;
                            if j < sb.len() {
                                assert(sb[j] == a);
                            }
                        }
                    }
                }
                if t.contains(a) {
                    let j = choose|j: int| 0 <= j < t.len() && t[j] == a;
                    if j < i {
                        assert(u[j] == a);
                    }
                }
                if u.contains(a) {
                    let j = choose|j: int| 0 <= j < u.len() && u[j] == a;
                    assert(t[j] == a);
                }
                if a == ks[i as int] {
                    assert(t[i as int] == a);
                }
                if sb.contains(a) {
                    let j = choose|j: int| 0 <= j < sb.len() && sb[j] == a;
                    assert(sv[j] == a);
                }
                if sv.contains(a) {
                    let j = choose|j: int| 0 <= j < sv.len() && sv[j] == a;
                    if j < sb.len() {
                        assert(sb[j] == a);
                    }
                }
                if out@.len() > before.len() && a == key@ {
                    assert(sv[sv.len() - 1] == a);
                }
            }
        }
        i = i + 1;
    }
    proof {
        assert(existing.keys().subrange(0, existing.entries@.len() as int) =~= existing.keys());
        assert forall|a: Seq<char>| existing.map().contains_key(a) implies existing.keys().contains(a) by {}
    }
    out
}

} // verus!
