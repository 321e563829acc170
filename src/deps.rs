//! Dependency attachment: which edges of a package apply to a rule, under
//! which operating systems, under which label and alias, and how they are
//! recorded in the rule's dependency attributes.
use vstd::prelude::*;
use crate::platform::{Os, PlatformMask};
use crate::rules::{CargoTargetKind, DepAttrs};
use crate::text::{concat2, concat3, concat4, replace_char, replaced, str_eq};

verus! {

/// The kind of a dependency edge, as Cargo declares it.
#[derive(Debug, Clone, Copy, PartialEq, Eq, Structural)]
pub enum DependencyKind {
    Normal,
    Development,
    Build,
}

pub open spec fn kind_applies(target: CargoTargetKind, dep: DependencyKind) -> bool {
    match target {
        CargoTargetKind::CustomBuild => dep == DependencyKind::Build,
        CargoTargetKind::Test => dep == DependencyKind::Development || dep == DependencyKind::Normal,
        _ => dep == DependencyKind::Normal,
    }
}

/// Whether an edge of kind `dep_kind` applies to a target of kind
/// `target_kind`: build scripts take build edges, tests normal and
/// development edges, everything else normal edges.
pub fn dep_kind_matches(target_kind: CargoTargetKind, dep_kind: DependencyKind) -> (r: bool)
    ensures
        r == kind_applies(target_kind, dep_kind),
{
    match target_kind {
        CargoTargetKind::CustomBuild => dep_kind == DependencyKind::Build,
        CargoTargetKind::Test => dep_kind == DependencyKind::Development || dep_kind
            == DependencyKind::Normal,
        _ => dep_kind == DependencyKind::Normal,
    }
}

/// What a platform predicate of an edge resolved to.
#[derive(Debug, Clone, Copy, PartialEq, Eq, Structural)]
pub struct PredicateOutcome {
    /// The operating systems on which the predicate holds.
    pub oses: PlatformMask,
    /// Whether the predicate speaks of the target's identity alone, so that
    /// an empty `oses` means that it selects no supported target.
    pub target_only: bool,
}

/// One declaration of an edge: its kind and, where it is conditional, what
/// its platform predicate resolved to.
#[derive(Debug, Clone, Copy, PartialEq, Eq, Structural)]
pub struct EdgeCondition {
    pub kind: DependencyKind,
    pub platform: Option<PredicateOutcome>,
    /// Whether the declaration applies on the host: it has no predicate, or
    /// its predicate holds on the host target.
    pub on_host: bool,
}

pub open spec fn mask_is_empty(m: PlatformMask) -> bool {
    forall|os: Os| !m.has(os)
}

/// A predicate that selects no supported OS is dropped where it speaks of the
/// target alone, or where only supported platforms are wanted.
pub open spec fn is_dropped(p: PredicateOutcome, strict: bool) -> bool {
    mask_is_empty(p.oses) && (p.target_only || strict)
}

/// A predicate that selects no supported OS and is not dropped is taken as
/// unconditional, so that a real dependency is not lost.
pub open spec fn is_promoted(p: PredicateOutcome, strict: bool) -> bool {
    mask_is_empty(p.oses) && !(p.target_only || strict)
}

pub open spec fn relevant(kind: CargoTargetKind, c: EdgeCondition) -> bool {
    kind_applies(kind, c.kind)
}

pub open spec fn plain_at(kind: CargoTargetKind, c: EdgeCondition) -> bool {
    relevant(kind, c) && c.platform is None
}

pub open spec fn promoted_at(kind: CargoTargetKind, c: EdgeCondition, strict: bool) -> bool {
    relevant(kind, c) && match c.platform {
        Some(p) => is_promoted(p, strict),
        None => false,
    }
}

pub open spec fn dropped_at(kind: CargoTargetKind, c: EdgeCondition, strict: bool) -> bool {
    relevant(kind, c) && match c.platform {
        Some(p) => is_dropped(p, strict),
        None => false,
    }
}

pub open spec fn selects_at(kind: CargoTargetKind, c: EdgeCondition, os: Os) -> bool {
    relevant(kind, c) && match c.platform {
        Some(p) => p.oses.has(os),
        None => false,
    }
}

pub open spec fn has_plain(kind: CargoTargetKind, cs: Seq<EdgeCondition>) -> bool {
    exists|i: int| 0 <= i < cs.len() && plain_at(kind, #[trigger] cs[i])
}

pub open spec fn has_promoted(kind: CargoTargetKind, cs: Seq<EdgeCondition>, strict: bool) -> bool {
    exists|i: int| 0 <= i < cs.len() && promoted_at(kind, #[trigger] cs[i], strict)
}

pub open spec fn has_dropped(kind: CargoTargetKind, cs: Seq<EdgeCondition>, strict: bool) -> bool {
    exists|i: int| 0 <= i < cs.len() && dropped_at(kind, #[trigger] cs[i], strict)
}

/// Whether some relevant conditional declaration selects `os`.
pub open spec fn selects_os(kind: CargoTargetKind, cs: Seq<EdgeCondition>, os: Os) -> bool {
    exists|i: int| 0 <= i < cs.len() && selects_at(kind, #[trigger] cs[i], os)
}

/// How an edge is attached to a rule.
#[derive(Debug, Clone, Copy, PartialEq, Eq, Structural)]
pub enum Attachment {
    /// On every platform; `promoted` where only a predicate that could not be
    /// mapped made it so.
    Unconditional { promoted: bool },
    /// On the operating systems of the mask only.
    Platforms(PlatformMask),
    /// Not at all; `dropped` where a predicate was dropped for selecting no
    /// supported platform.
    Omitted { dropped: bool },
}

/// Decides how an edge with declarations `conditions` is attached to a rule of
/// kind `kind`. Relevant unconditional declarations make it unconditional; so
/// does a predicate that selects no supported OS unless it is dropped (it
/// speaks of the target alone, or `strict` asks for supported platforms
/// only). Otherwise the edge applies on the union of what its predicates
/// select, and is omitted where that is empty.
pub fn attach_edge(kind: CargoTargetKind, conditions: &Vec<EdgeCondition>, strict: bool) -> (r:
    Attachment)
    ensures
        r is Unconditional <==> (has_plain(kind, conditions@) || has_promoted(
            kind,
            conditions@,
            strict,
        )),
        r matches Attachment::Unconditional { promoted } ==> promoted == !has_plain(
            kind,
            conditions@,
        ),
        r matches Attachment::Platforms(m) ==> forall|os: Os|
            m.has(os) == selects_os(kind, conditions@, os),
        r matches Attachment::Platforms(m) ==> !mask_is_empty(m),
        r is Omitted <==> (!has_plain(kind, conditions@) && !has_promoted(kind, conditions@, strict)
            && forall|os: Os| !selects_os(kind, conditions@, os)),
        r matches Attachment::Omitted { dropped } ==> dropped == has_dropped(
            kind,
            conditions@,
            strict,
        ),
{
    let ghost cs = conditions@;
    let mut plain = false;
    let mut promoted = false;
    let mut dropped = false;
    let mut platforms = PlatformMask::empty();
    let mut i: usize = 0;
    while i < conditions.len()
        invariant
            cs == conditions@,
            i <= cs.len(),
            plain == exists|k: int| 0 <= k < i && plain_at(kind, #[trigger] cs[k]),
            promoted == exists|k: int| 0 <= k < i && promoted_at(kind, #[trigger] cs[k], strict),
            dropped == exists|k: int| 0 <= k < i && dropped_at(kind, #[trigger] cs[k], strict),
            forall|os: Os|
                platforms.has(os) == exists|k: int| 0 <= k < i && selects_at(kind, #[trigger] cs[k], os),
        decreases cs.len() - i,
    {
        let c = conditions[i];
        let ghost prev_platforms = platforms;
        if dep_kind_matches(kind, c.kind) {
            match c.platform {
                None => {
                    plain = true;
                },
                Some(p) => {
                    if p.oses.is_none() {
                        if p.target_only || strict {
                            dropped = true;
                        } else {
                            promoted = true;
                        }
                    } else {
                        platforms = platforms.union(p.oses);
                    }
                },
            }
        }
        proof {
            assert(cs[i as int] == c);
            assert forall|os: Os|
                platforms.has(os) == exists|k: int| 0 <= k < i + 1 && selects_at(kind, #[trigger] cs[k], os) by {
                if exists|k: int| 0 <= k < i + 1 && selects_at(kind, #[trigger] cs[k], os) {
                    let k = choose|k: int| 0 <= k < i + 1 && selects_at(kind, #[trigger] cs[k], os);
                    if k < i {
                        assert(prev_platforms.has(os));
                    }
                }
                if platforms.has(os) && !prev_platforms.has(os) {
                    assert(selects_at(kind, cs[i as int], os));
                }
            }
            assert(plain == exists|k: int| 0 <= k < i + 1 && plain_at(kind, #[trigger] cs[k])) by {
                if exists|k: int| 0 <= k < i + 1 && plain_at(kind, #[trigger] cs[k]) {
                    let k = choose|k: int| 0 <= k < i + 1 && plain_at(kind, #[trigger] cs[k]);
                    assert(k < i || plain_at(kind, c));
                }
            }
            assert(promoted == exists|k: int| 0 <= k < i + 1 && promoted_at(kind, #[trigger] cs[k], strict)) by {
                if exists|k: int| 0 <= k < i + 1 && promoted_at(kind, #[trigger] cs[k], strict) {
                    let k = choose|k: int| 0 <= k < i + 1 && promoted_at(kind, #[trigger] cs[k], strict);
                    assert(k < i || promoted_at(kind, c, strict));
                }
            }
            assert(dropped == exists|k: int| 0 <= k < i + 1 && dropped_at(kind, #[trigger] cs[k], strict)) by {
                if exists|k: int| 0 <= k < i + 1 && dropped_at(kind, #[trigger] cs[k], strict) {
                    let k = choose|k: int| 0 <= k < i + 1 && dropped_at(kind, #[trigger] cs[k], strict);
                    assert(k < i || dropped_at(kind, c, strict));
                }
            }
        }
        i = i + 1;
    }
    proof {
        assert forall|os: Os| platforms.has(os) == selects_os(kind, conditions@, os) by {}
    }
    if plain || promoted {
        Attachment::Unconditional { promoted: !plain }
    } else if !platforms.is_none() {
        proof {
            assert(!forall|os: Os| !platforms.has(os));
            assert(exists|os: Os| platforms.has(os));
            let os = choose|os: Os| platforms.has(os);
            assert(platforms.has(os));
            assert(!mask_is_empty(platforms));
            assert(selects_os(kind, conditions@, os));
        }
        Attachment::Platforms(platforms)
    } else {
        proof {
            assert forall|os: Os| !selects_os(kind, conditions@, os) by {
                assert(!platforms.has(os));
            }
        }
        Attachment::Omitted { dropped }
    }
}

/// A second, different label for an alias on one OS: the rule cannot hold both.
#[derive(Debug)]
pub struct AliasConflict {
    pub alias: String,
    pub os: Os,
    pub existing: String,
    pub target: String,
}

/// How `insert_dep` recorded a dependency.
#[derive(Debug)]
pub enum Inserted {
    /// Recorded, or present already with the same label.
    Recorded,
    /// The alias was taken already by another label, which was kept.
    KeptFirst { existing: String },
}

pub open spec fn is_recorded(r: Result<Inserted, AliasConflict>) -> bool {
    r matches Ok(Inserted::Recorded)
}

pub open spec fn is_kept_first(r: Result<Inserted, AliasConflict>) -> bool {
    r matches Ok(Inserted::KeptFirst { .. })
}

/// Whether some OS of `m` maps `alias` to a label other than `target` in `attrs`.
pub open spec fn os_alias_conflict(attrs: &DepAttrs, alias: Seq<char>, target: Seq<char>, m: PlatformMask) -> bool {
    exists|os: Os|
        m.has(os) && (#[trigger] attrs.os_named_deps.at(os)).map().contains_key(alias)
            && attrs.os_named_deps.at(os).map()[alias] != target
}

/// Once an alias holds a label on an OS, asking for another label under that
/// alias on a set of OSes that includes it is a conflict (which `insert_dep`
/// reports as an error, leaving the attributes as they were).
pub proof fn lemma_second_os_alias_label_conflicts(
    attrs: &DepAttrs,
    alias: Seq<char>,
    first: Seq<char>,
    second: Seq<char>,
    os: Os,
    m: PlatformMask,
)
    requires
        attrs.os_named_deps.at(os).map().contains_key(alias),
        attrs.os_named_deps.at(os).map()[alias] == first,
        first != second,
        m.has(os),
    ensures
        os_alias_conflict(attrs, alias, second, m),
{
    assert(m.has(os) && attrs.os_named_deps.at(os).map().contains_key(alias)
        && attrs.os_named_deps.at(os).map()[alias] != second);
}

/// Records a dependency on `target` in the attribute that `alias` and
/// `platforms` select. Without platforms it is unconditional: it goes to
/// `named_deps` under its alias, where a different label already there is
/// kept and reported, or to `deps`. With platforms it goes, for each OS of
/// them, to `os_named_deps` under its alias, or to `os_deps`; a different
/// label already there under that alias and OS is an error, and then nothing
/// is changed.
pub fn insert_dep(
    attrs: &mut DepAttrs,
    target: &str,
    alias: Option<&str>,
    platforms: Option<PlatformMask>,
) -> (r: Result<Inserted, AliasConflict>)
    requires
        old(attrs).wf(),
    ensures
        final(attrs).wf(),
        platforms is None && alias is None ==> {
            &&& is_recorded(r)
            &&& final(attrs).deps.members() == old(attrs).deps.members().insert(target@)
            &&& final(attrs).named_deps == old(attrs).named_deps
            &&& final(attrs).os_deps == old(attrs).os_deps
            &&& final(attrs).os_named_deps == old(attrs).os_named_deps
        },
        platforms is None && alias is Some ==> {
            &&& final(attrs).deps == old(attrs).deps
            &&& final(attrs).os_deps == old(attrs).os_deps
            &&& final(attrs).os_named_deps == old(attrs).os_named_deps
            &&& r is Ok
        },
        platforms is None && alias is Some && old(attrs).named_deps.map().contains_key(
            alias->Some_0@,
        ) ==> {
            &&& final(attrs).named_deps.map() == old(attrs).named_deps.map()
            &&& is_kept_first(r) == (old(attrs).named_deps.map()[alias->Some_0@] != target@)
            &&& (is_kept_first(r) ==> r->Ok_0->existing@ == old(attrs).named_deps.map()[alias->Some_0@])
        },
        platforms is None && alias is Some && !old(attrs).named_deps.map().contains_key(
            alias->Some_0@,
        ) ==> {
            &&& is_recorded(r)
            &&& final(attrs).named_deps.map() == old(attrs).named_deps.map().insert(
                alias->Some_0@,
                target@,
            )
        },
        platforms is Some && alias is None ==> {
            &&& is_recorded(r)
            &&& final(attrs).deps == old(attrs).deps
            &&& final(attrs).named_deps == old(attrs).named_deps
            &&& final(attrs).os_named_deps == old(attrs).os_named_deps
            &&& forall|os: Os|
                (#[trigger] final(attrs).os_deps.at(os)).members() == if platforms->Some_0.has(os) {
                    old(attrs).os_deps.at(os).members().insert(target@)
                } else {
                    old(attrs).os_deps.at(os).members()
                }
        },
        platforms is Some && alias is Some ==> {
            &&& final(attrs).deps == old(attrs).deps
            &&& final(attrs).named_deps == old(attrs).named_deps
            &&& final(attrs).os_deps == old(attrs).os_deps
            &&& (r is Err <==> os_alias_conflict(old(attrs), alias->Some_0@, target@, platforms->Some_0))
            &&& (r is Err ==> final(attrs).os_named_deps == old(attrs).os_named_deps)
            &&& (r is Ok ==> is_recorded(r))
            &&& (r is Ok ==> forall|os: Os|
                (#[trigger] final(attrs).os_named_deps.at(os)).map() == if platforms->Some_0.has(os) {
                    old(attrs).os_named_deps.at(os).map().insert(alias->Some_0@, target@)
                } else {
                    old(attrs).os_named_deps.at(os).map()
                })
        },
        r matches Err(e) ==> {
            &&& platforms is Some && alias is Some
            &&& e.alias@ == alias->Some_0@
            &&& e.target@ == target@
            &&& platforms->Some_0.has(e.os)
            &&& old(attrs).os_named_deps.at(e.os).map().contains_key(e.alias@)
            &&& e.existing@ == old(attrs).os_named_deps.at(e.os).map()[e.alias@]
            &&& e.existing@ != target@
        },
{
    match platforms {
        None => {
            match alias {
                None => {
                    attrs.deps.insert(String::from_str(target));
                    Ok(Inserted::Recorded)
                },
                Some(a) => {
                    match attrs.named_deps.get(a) {
                        Some(existing) => {
                            if str_eq(existing.as_str(), target) {
                                Ok(Inserted::Recorded)
                            } else {
                                Ok(Inserted::KeptFirst { existing: existing.clone() })
                            }
                        },
                        None => {
                            attrs.named_deps.put(String::from_str(a), String::from_str(target), false);
                            Ok(Inserted::Recorded)
                        },
                    }
                },
            }
        },
        Some(m) => {
            match alias {
                None => {
                    let oses = m.to_oses();
                    let ghost start = *attrs;
                    let mut i: usize = 0;
                    while i < oses.len()
                        invariant
                            attrs.wf(),
                            platforms == Some(m),
                            alias.is_none(),
                            i <= oses@.len(),
                            oses@ == crate::platform::os_order().filter(|os: Os| m.has(os)),
                            attrs.deps == start.deps,
                            attrs.named_deps == start.named_deps,
                            attrs.os_named_deps == start.os_named_deps,
                            forall|os: Os|
                                (#[trigger] attrs.os_deps.at(os)).members() == if oses@.subrange(
                                    0,
                                    i as int,
                                ).contains(os) {
                                    start.os_deps.at(os).members().insert(target@)
                                } else {
                                    start.os_deps.at(os).members()
                                },
                        decreases oses@.len() - i,
                    {
                        let os = oses[i];
                        let ghost prev = *attrs;
                        attrs.os_deps.insert(os, String::from_str(target));
                        proof {
                            assert(attrs.os_deps.at(os).members() =~= start.os_deps.at(os).members().insert(target@));
                            assert forall|o: Os| #[trigger]
                                oses@.subrange(0, i + 1).contains(o) == (oses@.subrange(
                                    0,
                                    i as int,
                                ).contains(o) || o == os) by {
                                lemma_subrange_push_contains(oses@, i as int, o);
                            }
                        }
                        i = i + 1;
                    }
                    proof {
                        lemma_filtered_members(m, oses@);
                        assert(oses@.subrange(0, oses@.len() as int) =~= oses@);
                    }
                    Ok(Inserted::Recorded)
                },
                Some(a) => {
                    let oses = m.to_oses();
                    proof {
                        lemma_filtered_members(m, oses@);
                    }
                    let mut i: usize = 0;
                    while i < oses.len()
                        invariant
                            attrs.wf(),
                            *attrs == *old(attrs),
                            platforms == Some(m),
                            alias == Some(a),
                            i <= oses@.len(),
                            forall|o: Os| #[trigger] oses@.contains(o) == m.has(o),
                            forall|k: int|
                                0 <= k < i ==> !((#[trigger] attrs.os_named_deps.at(
                                    oses@[k],
                                )).map().contains_key(a@) && attrs.os_named_deps.at(
                                    oses@[k],
                                ).map()[a@] != target@),
                        decreases oses@.len() - i,
                    {
                        let os = oses[i];
                        proof {
                            assert(oses@.contains(os));
                        }
                        match attrs.os_named_deps.get(os).get(a) {
                            Some(existing) => {
                                if !str_eq(existing.as_str(), target) {
                                    proof {
                                        assert(m.has(os));
                                        assert(attrs.os_named_deps.at(os).map().contains_key(a@));
                                        assert(os_alias_conflict(old(attrs), a@, target@, m));
                                    }
                                    return Err(
                                        AliasConflict {
                                            alias: String::from_str(a),
                                            os,
                                            existing: existing.clone(),
                                            target: String::from_str(target),
                                        },
                                    );
                                }
                            },
                            None => {},
                        }
                        i = i + 1;
                    }
                    proof {
                        assert forall|os: Os|
                            !(m.has(os) && (#[trigger] attrs.os_named_deps.at(
                                os,
                            )).map().contains_key(a@) && attrs.os_named_deps.at(os).map()[a@]
                                != target@) by {
                            if m.has(os) {
                                assert(oses@.contains(os));
                                let k = choose|k: int| 0 <= k < oses@.len() && oses@[k] == os;
                                assert(attrs.os_named_deps.at(oses@[k]) == attrs.os_named_deps.at(os));
                            }
                        }
                    }
                    put_alias_on(attrs, m, a, target);
                    Ok(Inserted::Recorded)
                },
            }
        },
    }
}

/// Stores `alias` to `target` for every OS of `m`.
fn put_alias_on(attrs: &mut DepAttrs, m: PlatformMask, alias: &str, target: &str)
    requires
        old(attrs).wf(),
    ensures
        final(attrs).wf(),
        final(attrs).deps == old(attrs).deps,
        final(attrs).named_deps == old(attrs).named_deps,
        final(attrs).os_deps == old(attrs).os_deps,
        forall|os: Os|
            (#[trigger] final(attrs).os_named_deps.at(os)).map() == if m.has(os) {
                old(attrs).os_named_deps.at(os).map().insert(alias@, target@)
            } else {
                old(attrs).os_named_deps.at(os).map()
            },
{
    if m.contains(Os::Windows) {
        attrs.os_named_deps.windows.put(String::from_str(alias), String::from_str(target), true);
    }
    if m.contains(Os::Macos) {
        attrs.os_named_deps.macos.put(String::from_str(alias), String::from_str(target), true);
    }
    if m.contains(Os::Linux) {
        attrs.os_named_deps.linux.put(String::from_str(alias), String::from_str(target), true);
    }
    proof {
        assert forall|os: Os|
            (#[trigger] attrs.os_named_deps.at(os)).map() == if m.has(os) {
                old(attrs).os_named_deps.at(os).map().insert(alias@, target@)
            } else {
                old(attrs).os_named_deps.at(os).map()
            } by {
            match os {
                Os::Windows => {},
                Os::Macos => {},
                Os::Linux => {},
            }
        }
    }
}

proof fn lemma_filtered_members(m: PlatformMask, s: Seq<Os>)
    requires
        s == crate::platform::os_order().filter(|os: Os| m.has(os)),
    ensures
        forall|o: Os| #[trigger] s.contains(o) == m.has(o),
{
    let f = |os: Os| m.has(os);
    let order = crate::platform::os_order();
    assert(s == order.filter(f));
    assert forall|o: Os| #[trigger] s.contains(o) == m.has(o) by {
        if m.has(o) {
            match o {
                Os::Windows => {
                    assert(order[0] == o);
                },
                Os::Macos => {
                    assert(order[1] == o);
                },
                Os::Linux => {
                    assert(order[2] == o);
                },
            }
            order.lemma_filter_contains_rev(f, o);
        }
        if order.filter(f).contains(o) {
            let k = choose|k: int| 0 <= k < order.filter(f).len() && order.filter(f)[k] == o;
            order.lemma_filter_pred(f, k);
        }
    }
}

proof fn lemma_subrange_push_contains<A>(s: Seq<A>, i: int, x: A)
    requires
        0 <= i < s.len(),
    ensures
        s.subrange(0, i + 1).contains(x) == (s.subrange(0, i).contains(x) || x == s[i]),
{
    let t = s.subrange(0, i + 1);
    let u = s.subrange(0, i);
    assert(t =~= u.push(s[i]));
    if t.contains(x) {
        let k = choose|k: int| 0 <= k < t.len() && t[k] == x;
        if k < i {
            assert(u[k] == x);
        }
    }
    if u.contains(x) {
        let k = choose|k: int| 0 <= k < u.len() && u[k] == x;
        assert(t[k] == x);
    }
    if x == s[i] {
        assert(t[i] == x);
    }
}

} // verus!

verus! {

/// Where vendored third-party packages live, relative to the build root.
pub const RUST_CRATES_ROOT: &'static str = "third-party/rust/crates";

/// The label of a third-party package that is built from its vendored sources.
pub open spec fn third_party_label(name: Seq<char>, version: Seq<char>) -> Seq<char> {
    "//"@ + RUST_CRATES_ROOT@ + "/"@ + name + "/"@ + version + ":"@ + name
}

/// The label of the workspace-wide alias of a third-party package.
pub open spec fn workspace_alias_label(name: Seq<char>) -> Seq<char> {
    "//third-party/rust:"@ + name
}

/// A package name as it is written in Rust code.
pub open spec fn crate_ident(name: Seq<char>) -> Seq<char> {
    replaced(name, '-', '_')
}

/// What is known of a first-party package that another one depends on.
pub struct FirstPartyLayout {
    /// Its manifest directory relative to the build root; `None` where the
    /// directory is not under the root.
    pub relative_dir: Option<String>,
    /// The names of its library targets.
    pub lib_targets: Vec<String>,
    /// The names of its binary targets.
    pub bin_targets: Vec<String>,
}

/// A package that an edge points to.
pub struct DepPackage {
    pub name: String,
    pub version: String,
    /// `Some` for a first-party package, `None` for a third-party one.
    pub first_party: Option<FirstPartyLayout>,
    /// Whether the package's manifest has a `links` key.
    pub links: bool,
    /// The name of the package's build script target, if it has one.
    pub build_script: Option<String>,
}

/// A dependency edge of a package: the name under which it is referenced,
/// the package it points to, and its declarations.
pub struct DepEdge {
    pub name: String,
    pub package: DepPackage,
    pub conditions: Vec<EdgeCondition>,
}

/// Why the label of a first-party dependency cannot be had.
#[derive(Debug)]
pub enum LabelError {
    /// The package's manifest directory is not under the build root.
    NotUnderRoot { package: String },
    /// The package has no library target, or more than one.
    LibraryCount { package: String, found: usize },
}

/// The rule name of a library that a binary of the same name would clash with.
pub open spec fn library_rule_name(lib: Seq<char>, bins: Seq<Seq<char>>) -> Seq<char> {
    if bins.contains(lib) {
        "lib"@ + lib
    } else {
        lib
    }
}

/// The label of a first-party package, where it can be had.
pub open spec fn first_party_label(layout: FirstPartyLayout) -> Option<Seq<char>> {
    match layout.relative_dir {
        None => None,
        Some(dir) => if layout.lib_targets@.len() == 1 {
            Some(
                "//"@ + dir@ + ":"@ + library_rule_name(
                    layout.lib_targets@[0]@,
                    crate::collections::strings_view(layout.bin_targets@),
                ),
            )
        } else {
            None
        },
    }
}

/// Whether `x` is among `v`.
pub fn contains_string(v: &Vec<String>, x: &str) -> (r: bool)
    ensures
        r == crate::collections::strings_view(v@).contains(x@),
{
    let mut i: usize = 0;
    while i < v.len()
        invariant
            i <= v@.len(),
            forall|k: int| 0 <= k < i ==> v@[k]@ != x@,
        decreases v.len() - i,
    {
        if str_eq(v[i].as_str(), x) {
            proof {
                assert(crate::collections::strings_view(v@)[i as int] == x@);
            }
            return true;
        }
        i = i + 1;
    }
    proof {
        if crate::collections::strings_view(v@).contains(x@) {
            let k = choose|k: int|
                0 <= k < v@.len() && crate::collections::strings_view(v@)[k] == x@;
            assert(v@[k]@ == x@);
        }
    }
    false
}

/// The label of first-party package `package`: its directory under the build
/// root and its one library, renamed `lib<name>` where a binary has its name.
pub fn resolve_first_party_label(layout: &FirstPartyLayout, package: &str) -> (r: Result<
    String,
    LabelError,
>)
    ensures
        r is Ok <==> first_party_label(*layout) is Some,
        r matches Ok(l) ==> l@ == first_party_label(*layout)->Some_0,
        r matches Err(LabelError::NotUnderRoot { package: p }) ==> layout.relative_dir is None
            && p@ == package@,
        r matches Err(LabelError::LibraryCount { package: p, found }) ==> layout.relative_dir is Some
            && found == layout.lib_targets@.len() && found != 1 && p@ == package@,
{
    let dir = match &layout.relative_dir {
        Some(d) => d,
        None => {
            return Err(LabelError::NotUnderRoot { package: String::from_str(package) });
        },
    };
    if layout.lib_targets.len() != 1 {
        return Err(
            LabelError::LibraryCount {
                package: String::from_str(package),
                found: layout.lib_targets.len(),
            },
        );
    }
    let lib = &layout.lib_targets[0];
    let name = if contains_string(&layout.bin_targets, lib.as_str()) {
        concat2("lib", lib.as_str())
    } else {
        lib.clone()
    };
    Ok(concat4("//", dir.as_str(), ":", name.as_str()))
}

/// The label of `package` and, where `dep_name` renames it, the alias under
/// which it is referenced.
pub open spec fn dep_label(package: DepPackage, use_workspace_alias: bool) -> Option<Seq<char>> {
    match package.first_party {
        Some(layout) => first_party_label(layout),
        None => if use_workspace_alias {
            Some(workspace_alias_label(package.name@))
        } else {
            Some(third_party_label(package.name@, package.version@))
        },
    }
}

pub open spec fn dep_alias(dep_name: Seq<char>, package_name: Seq<char>) -> Option<Seq<char>> {
    if dep_name != crate_ident(package_name) {
        Some(dep_name)
    } else {
        None
    }
}

/// The label of the package that an edge named `dep_name` points to, and the
/// alias of the edge where it renames the package.
pub fn resolve_dep_label(dep_name: &str, package: &DepPackage, use_workspace_alias: bool) -> (r:
    Result<(String, Option<String>), LabelError>)
    ensures
        r is Ok <==> dep_label(*package, use_workspace_alias) is Some,
        r matches Ok((l, a)) ==> l@ == dep_label(*package, use_workspace_alias)->Some_0 && match a {
            Some(s) => dep_alias(dep_name@, package.name@) == Some(s@),
            None => dep_alias(dep_name@, package.name@) is None,
        },
{
    let ident = replace_char(package.name.as_str(), '-', '_');
    let alias = if !str_eq(dep_name, ident.as_str()) {
        Some(String::from_str(dep_name))
    } else {
        None
    };
    match &package.first_party {
        Some(layout) => {
            let label = resolve_first_party_label(layout, package.name.as_str())?;
            Ok((label, alias))
        },
        None => {
            let label = if use_workspace_alias {
                concat2("//third-party/rust:", package.name.as_str())
            } else {
                let mut l = concat3("//", RUST_CRATES_ROOT, "/");
                l.append(package.name.as_str());
                l.append("/");
                l.append(package.version.as_str());
                l.append(":");
                l.append(package.name.as_str());
                l
            };
            proof {
                assert(third_party_label(package.name@, package.version@) =~= "//"@ + RUST_CRATES_ROOT@ + "/"@ + package.name@ + "/"@ + package.version@ + ":"@ + package.name@);
            }
            Ok((label, alias))
        },
    }
}

} // verus!

verus! {

/// A note on how an edge was attached, for the user to see.
#[derive(Debug)]
pub enum Diagnostic {
    /// The edge selects only unsupported platforms and was left out.
    UnsupportedPlatformOmitted { dep: String, package: String },
    /// The edge's predicate could not be mapped; it was made unconditional.
    PromotedToUnconditional { dep: String, package: String },
    /// The alias was taken already by another label, which was kept.
    AliasKeptFirst { alias: String, existing: String, target: String },
}

/// Why the dependencies of a rule cannot be set.
#[derive(Debug)]
pub enum DepError {
    Label(LabelError),
    Conflict(AliasConflict),
}

pub open spec fn edge_uncond(kind: CargoTargetKind, e: DepEdge, strict: bool) -> bool {
    has_plain(kind, e.conditions@) || has_promoted(kind, e.conditions@, strict)
}

pub open spec fn edge_on(kind: CargoTargetKind, e: DepEdge, strict: bool, os: Os) -> bool {
    !edge_uncond(kind, e, strict) && selects_os(kind, e.conditions@, os)
}

pub open spec fn edge_attached(kind: CargoTargetKind, e: DepEdge, strict: bool) -> bool {
    edge_uncond(kind, e, strict) || exists|os: Os| edge_on(kind, e, strict, os)
}

pub open spec fn edge_alias(e: DepEdge) -> Option<Seq<char>> {
    dep_alias(e.name@, e.package.name@)
}

pub open spec fn edge_label(e: DepEdge, ws: bool) -> Seq<char> {
    dep_label(e.package, ws)->Some_0
}

/// The labels that the first `n` edges add to `deps`.
pub open spec fn plain_labels(
    kind: CargoTargetKind,
    edges: Seq<DepEdge>,
    n: int,
    ws: bool,
    strict: bool,
) -> Set<Seq<char>> {
    Set::new(
        |l: Seq<char>|
            exists|k: int|
                0 <= k < n && edge_uncond(kind, #[trigger] edges[k], strict) && edge_alias(
                    edges[k],
                ) is None && l == edge_label(edges[k], ws),
    )
}

/// The labels that the first `n` edges add to the `os_deps` of `os`.
pub open spec fn os_labels(
    kind: CargoTargetKind,
    edges: Seq<DepEdge>,
    n: int,
    ws: bool,
    strict: bool,
    os: Os,
) -> Set<Seq<char>> {
    Set::new(
        |l: Seq<char>|
            exists|k: int|
                0 <= k < n && edge_on(kind, #[trigger] edges[k], strict, os) && edge_alias(
                    edges[k],
                ) is None && l == edge_label(edges[k], ws),
    )
}

/// The aliases that the first `n` edges add to `named_deps`.
pub open spec fn plain_aliases(kind: CargoTargetKind, edges: Seq<DepEdge>, n: int, strict: bool) -> Set<
    Seq<char>,
> {
    Set::new(
        |a: Seq<char>|
            exists|k: int|
                0 <= k < n && edge_uncond(kind, #[trigger] edges[k], strict) && edge_alias(edges[k])
                    == Some(a),
    )
}

/// Whether the dependency attributes hold what edge `e` asks of the
/// platform-scoped aliases: its label under its alias on each OS it selects.
pub open spec fn os_alias_recorded(
    attrs: DepAttrs,
    kind: CargoTargetKind,
    e: DepEdge,
    ws: bool,
    strict: bool,
) -> bool {
    edge_alias(e) matches Some(a) ==> forall|os: Os|
        edge_on(kind, e, strict, os) ==> (#[trigger] attrs.os_named_deps.at(os)).map().contains_key(
            a,
        ) && attrs.os_named_deps.at(os).map()[a] == edge_label(e, ws)
}

/// Whether some edge that is attached has no label.
pub open spec fn missing_label(kind: CargoTargetKind, edges: Seq<DepEdge>, ws: bool, strict: bool) -> bool {
    exists|k: int|
        0 <= k < edges.len() && edge_attached(kind, #[trigger] edges[k], strict) && dep_label(
            edges[k].package,
            ws,
        ) is None
}

/// Whether edge `e` is attached on `os` only, under alias `a`.
pub open spec fn alias_on(kind: CargoTargetKind, e: DepEdge, strict: bool, os: Os, a: Seq<char>) -> bool {
    edge_on(kind, e, strict, os) && edge_alias(e) == Some(a)
}

/// Whether two edges ask for different labels under one alias on one OS.
pub open spec fn edges_clash(kind: CargoTargetKind, edges: Seq<DepEdge>, ws: bool, strict: bool) -> bool {
    exists|j: int, k: int, os: Os, a: Seq<char>|
        0 <= j < k < edges.len() && #[trigger] alias_on(kind, edges[j], strict, os, a)
            && #[trigger] alias_on(kind, edges[k], strict, os, a) && edge_label(edges[j], ws)
            != edge_label(edges[k], ws)
}

/// Whether an edge asks for a label under an alias and OS that `start`
/// holds with another label.
pub open spec fn start_clash(
    start: DepAttrs,
    kind: CargoTargetKind,
    edges: Seq<DepEdge>,
    ws: bool,
    strict: bool,
) -> bool {
    exists|k: int, os: Os, a: Seq<char>|
        0 <= k < edges.len() && #[trigger] alias_on(kind, edges[k], strict, os, a)
            && start.os_named_deps.at(os).map().contains_key(a) && start.os_named_deps.at(
            os,
        ).map()[a] != edge_label(edges[k], ws)
}

/// Whether edge `e` is left out for selecting no supported platform.
pub open spec fn edge_dropped(kind: CargoTargetKind, e: DepEdge, strict: bool) -> bool {
    !edge_attached(kind, e, strict) && has_dropped(kind, e.conditions@, strict)
}

/// Whether edge `e` was made unconditional by a predicate that could not be mapped.
pub open spec fn edge_promoted(kind: CargoTargetKind, e: DepEdge, strict: bool) -> bool {
    !has_plain(kind, e.conditions@) && has_promoted(kind, e.conditions@, strict)
}

pub open spec fn notes_omitted(d: Seq<Diagnostic>, name: Seq<char>) -> bool {
    exists|m: int|
        0 <= m < d.len() && (#[trigger] d[m] matches Diagnostic::UnsupportedPlatformOmitted { dep, .. }
            && dep@ == name)
}

pub open spec fn notes_promoted(d: Seq<Diagnostic>, name: Seq<char>) -> bool {
    exists|m: int|
        0 <= m < d.len() && (#[trigger] d[m] matches Diagnostic::PromotedToUnconditional { dep, .. }
            && dep@ == name)
}

/// Where the OS-scoped alias `a` of `attrs` on `os` came from: `start`, or
/// an edge before `i`.
pub open spec fn alias_origin(
    attrs: DepAttrs,
    start: DepAttrs,
    kind: CargoTargetKind,
    edges: Seq<DepEdge>,
    i: int,
    ws: bool,
    strict: bool,
    os: Os,
    a: Seq<char>,
) -> bool {
    (start.os_named_deps.at(os).map().contains_key(a) && attrs.os_named_deps.at(os).map()[a]
        == start.os_named_deps.at(os).map()[a]) || exists|j: int|
        0 <= j < i && #[trigger] alias_on(kind, edges[j], strict, os, a) && edge_label(edges[j], ws)
            == attrs.os_named_deps.at(os).map()[a]
}

proof fn lemma_notes_grow(
    d: Seq<Diagnostic>,
    d2: Seq<Diagnostic>,
    kind: CargoTargetKind,
    e: Seq<DepEdge>,
    i: int,
    strict: bool,
)
    requires
        d2.len() >= d.len(),
        forall|m: int| 0 <= m < d.len() ==> d2[m] == d[m],
        forall|k: int| 0 <= k < i && #[trigger] edge_dropped(kind, e[k], strict) ==> notes_omitted(d, e[k].name@),
        forall|k: int| 0 <= k < i && #[trigger] edge_promoted(kind, e[k], strict) ==> notes_promoted(d, e[k].name@),
    ensures
        forall|k: int| 0 <= k < i && #[trigger] edge_dropped(kind, e[k], strict) ==> notes_omitted(d2, e[k].name@),
        forall|k: int| 0 <= k < i && #[trigger] edge_promoted(kind, e[k], strict) ==> notes_promoted(d2, e[k].name@),
{
    assert forall|k: int| 0 <= k < i && #[trigger] edge_dropped(kind, e[k], strict) implies notes_omitted(d2, e[k].name@) by {
        let m = choose|m: int| 0 <= m < d.len() && (#[trigger] d[m] matches Diagnostic::UnsupportedPlatformOmitted { dep, .. }
            && dep@ == e[k].name@);
        assert(d2[m] == d[m]);
    }
    assert forall|k: int| 0 <= k < i && #[trigger] edge_promoted(kind, e[k], strict) implies notes_promoted(d2, e[k].name@) by {
        let m = choose|m: int| 0 <= m < d.len() && (#[trigger] d[m] matches Diagnostic::PromotedToUnconditional { dep, .. }
            && dep@ == e[k].name@);
        assert(d2[m] == d[m]);
    }
}

/// Attaches every edge of `edges` that applies to a rule of kind `kind` to
/// `attrs`, each under its label and alias, unconditionally or on the
/// operating systems its predicates select (see `attach_edge`). Where an
/// unconditional alias is taken already the first label stays, with a
/// diagnostic. Fails on an edge whose label cannot be had, and on a
/// platform-scoped alias that would get a second label.
pub fn set_deps(
    attrs: &mut DepAttrs,
    edges: &Vec<DepEdge>,
    kind: CargoTargetKind,
    use_workspace_alias: bool,
    strict: bool,
) -> (r: Result<Vec<Diagnostic>, DepError>)
    requires
        old(attrs).wf(),
    ensures
        final(attrs).wf(),
        r is Ok ==> forall|k: int|
            0 <= k < edges@.len() && edge_attached(kind, #[trigger] edges@[k], strict) ==> dep_label(
                edges@[k].package,
                use_workspace_alias,
            ) is Some,
        r is Ok ==> final(attrs).deps.members() == old(attrs).deps.members().union(
            plain_labels(kind, edges@, edges@.len() as int, use_workspace_alias, strict),
        ),
        r is Ok ==> forall|os: Os|
            (#[trigger] final(attrs).os_deps.at(os)).members() == old(attrs).os_deps.at(
                os,
            ).members().union(
                os_labels(kind, edges@, edges@.len() as int, use_workspace_alias, strict, os),
            ),
        r is Ok ==> final(attrs).named_deps.map().dom() == old(attrs).named_deps.map().dom().union(
            plain_aliases(kind, edges@, edges@.len() as int, strict),
        ),
        r is Ok ==> forall|k: int|
            0 <= k < edges@.len() ==> os_alias_recorded(
                *final(attrs),
                kind,
                #[trigger] edges@[k],
                use_workspace_alias,
                strict,
            ),
        r matches Err(DepError::Label(_)) ==> missing_label(kind, edges@, use_workspace_alias, strict),
        !missing_label(kind, edges@, use_workspace_alias, strict) && !edges_clash(kind, edges@, use_workspace_alias, strict)
            && !start_clash(*old(attrs), kind, edges@, use_workspace_alias, strict) ==> r is Ok,
        r matches Ok(d) ==> forall|k: int| 0 <= k < edges@.len() && #[trigger] edge_dropped(kind, edges@[k], strict)
            ==> notes_omitted(d@, edges@[k].name@),
        r matches Ok(d) ==> forall|k: int| 0 <= k < edges@.len() && #[trigger] edge_promoted(kind, edges@[k], strict)
            ==> notes_promoted(d@, edges@[k].name@),
        r matches Err(DepError::Conflict(c)) ==> exists|k: int|
            0 <= k < edges@.len() && #[trigger] edge_alias(edges@[k]) == Some(c.alias@) && edge_on(
                kind,
                edges@[k],
                strict,
                c.os,
            ),
{
    let ghost e = edges@;
    let ghost ws = use_workspace_alias;
    let mut diags: Vec<Diagnostic> = Vec::new();
    let mut i: usize = 0;
    proof {
        assert(plain_labels(kind, e, 0, ws, strict) =~= Set::empty());
        assert(plain_aliases(kind, e, 0, strict) =~= Set::empty());
        assert forall|os: Os| os_labels(kind, e, 0, ws, strict, os) =~= Set::empty() by {}
        assert(attrs.deps.members().union(Set::empty()) =~= attrs.deps.members());
        assert(attrs.named_deps.map().dom().union(Set::empty()) =~= attrs.named_deps.map().dom());
        assert forall|os: Os|
            attrs.os_deps.at(os).members().union(Set::empty()) =~= attrs.os_deps.at(
                os,
            ).members() by {}
    }
    while i < edges.len()
        invariant
            e == edges@,
            ws == use_workspace_alias,
            i <= e.len(),
            attrs.wf(),
            forall|k: int|
                0 <= k < i && edge_attached(kind, #[trigger] e[k], strict) ==> dep_label(
                    e[k].package,
                    ws,
                ) is Some,
            attrs.deps.members() == old(attrs).deps.members().union(
                plain_labels(kind, e, i as int, ws, strict),
            ),
            forall|os: Os|
                (#[trigger] attrs.os_deps.at(os)).members() == old(attrs).os_deps.at(
                    os,
                ).members().union(os_labels(kind, e, i as int, ws, strict, os)),
            attrs.named_deps.map().dom() == old(attrs).named_deps.map().dom().union(
                plain_aliases(kind, e, i as int, strict),
            ),
            forall|k: int| 0 <= k < i ==> os_alias_recorded(*attrs, kind, #[trigger] e[k], ws, strict),
            forall|os: Os, a: Seq<char>|
                #[trigger] attrs.os_named_deps.at(os).map().contains_key(a) ==> alias_origin(
                    *attrs,
                    *old(attrs),
                    kind,
                    e,
                    i as int,
                    ws,
                    strict,
                    os,
                    a,
                ),
            forall|k: int| 0 <= k < i && #[trigger] edge_dropped(kind, e[k], strict) ==> notes_omitted(diags@, e[k].name@),
            forall|k: int| 0 <= k < i && #[trigger] edge_promoted(kind, e[k], strict) ==> notes_promoted(diags@, e[k].name@),
        decreases e.len() - i,
    {
        let edge = &edges[i];
        let ghost diags_before = diags@;
        let ghost before = *attrs;
        let att = attach_edge(kind, &edge.conditions, strict);
        let platforms = match att {
            Attachment::Omitted { dropped } => {
                if dropped {
                    diags.push(
                        Diagnostic::UnsupportedPlatformOmitted {
                            dep: edge.name.clone(),
                            package: edge.package.name.clone(),
                        },
                    );
                }
                proof {
                    lemma_notes_grow(diags_before, diags@, kind, e, i as int, strict);
                    assert(!edge_promoted(kind, e[i as int], strict));
                    if dropped {
                        assert(diags@[diags@.len() - 1] matches Diagnostic::UnsupportedPlatformOmitted { dep, .. } && dep@ == e[i as int].name@);
                    }
                    assert(edge_dropped(kind, e[i as int], strict) == dropped);
                    lemma_step_sets(kind, e, i as int, ws, strict);
                    assert forall|os: Os| !edge_on(kind, e[i as int], strict, os) by {}
                    assert forall|k: int| 0 <= k < i + 1 && edge_attached(kind, #[trigger] e[k], strict) implies dep_label(e[k].package, ws) is Some by {
                        if k == i {
                            assert(!edge_attached(kind, e[k], strict));
                        }
                    }
                    assert forall|k: int| 0 <= k < i + 1 implies os_alias_recorded(*attrs, kind, #[trigger] e[k], ws, strict) by {
                        if k == i {
                            assert forall|os: Os| !edge_on(kind, e[k], strict, os) by {}
                        }
                    }
                }
                i = i + 1;
                continue;
            },
            Attachment::Unconditional { promoted } => {
                if promoted {
                    diags.push(
                        Diagnostic::PromotedToUnconditional {
                            dep: edge.name.clone(),
                            package: edge.package.name.clone(),
                        },
                    );
                }
                None
            },
            Attachment::Platforms(m) => Some(m),
        };
        let ghost diags_mid = diags@;
        proof {
            lemma_notes_grow(diags_before, diags@, kind, e, i as int, strict);
            assert(!edge_dropped(kind, e[i as int], strict)) by {
                if platforms is Some {
                    let m = platforms->Some_0;
                    let os = choose|os: Os| m.has(os);
                    assert(edge_on(kind, e[i as int], strict, os));
                }
            }
            if edge_promoted(kind, e[i as int], strict) {
                assert(diags@[diags@.len() - 1] matches Diagnostic::PromotedToUnconditional { dep, .. } && dep@ == e[i as int].name@);
            }
            assert forall|k: int| 0 <= k < i + 1 && #[trigger] edge_dropped(kind, e[k], strict) implies notes_omitted(diags@, e[k].name@) by {}
            assert forall|k: int| 0 <= k < i + 1 && #[trigger] edge_promoted(kind, e[k], strict) implies notes_promoted(diags@, e[k].name@) by {}
        }
        let (label, alias) = match resolve_dep_label(edge.name.as_str(), &edge.package, use_workspace_alias) {
            Ok(la) => la,
            Err(err) => {
                proof {
                    if platforms is None {
                        assert(edge_attached(kind, e[i as int], strict));
                    } else {
                        let m = platforms->Some_0;
                        let os = choose|os: Os| m.has(os);
                        assert(edge_on(kind, e[i as int], strict, os));
                        assert(edge_attached(kind, e[i as int], strict));
                    }
                }
                return Err(DepError::Label(err));
            },
        };
        let alias_ref: Option<&str> = match &alias {
            Some(a) => Some(a.as_str()),
            None => None,
        };
        match insert_dep(attrs, label.as_str(), alias_ref, platforms) {
            Ok(Inserted::Recorded) => {},
            Ok(Inserted::KeptFirst { existing }) => {
                diags.push(
                    Diagnostic::AliasKeptFirst {
                        alias: match alias {
                            Some(a) => a,
                            None => String::new(),
                        },
                        existing,
                        target: label,
                    },
                );
            },
            Err(c) => {
                proof {
                    let os = c.os;
                    let a = c.alias@;
                    assert(edge_alias(e[i as int]) == Some(c.alias@));
                    assert(edge_on(kind, e[i as int], strict, c.os));
                    assert(alias_on(kind, e[i as int], strict, os, a));
                    assert(before.os_named_deps.at(os).map().contains_key(a));
                    assert(alias_origin(before, *old(attrs), kind, e, i as int, ws, strict, os, a));
                    if old(attrs).os_named_deps.at(os).map().contains_key(a)
                        && before.os_named_deps.at(os).map()[a] == old(attrs).os_named_deps.at(os).map()[a] {
                        assert(start_clash(*old(attrs), kind, e, ws, strict));
                    } else {
                        let j = choose|j: int| 0 <= j < i && #[trigger] alias_on(kind, e[j], strict, os, a)
                            && edge_label(e[j], ws) == before.os_named_deps.at(os).map()[a];
                        assert(edges_clash(kind, e, ws, strict));
                    }
                }
                return Err(DepError::Conflict(c));
            },
        }
        proof {
            lemma_notes_grow(diags_mid, diags@, kind, e, i + 1, strict);
            assert forall|os: Os, a: Seq<char>| #[trigger] attrs.os_named_deps.at(os).map().contains_key(a)
                implies alias_origin(*attrs, *old(attrs), kind, e, i + 1, ws, strict, os, a) by {
                let fresh = platforms is Some && alias is Some && platforms->Some_0.has(os) && a == alias->Some_0@;
                if fresh {
                    let m = platforms->Some_0;
                    assert(edge_on(kind, e[i as int], strict, os));
                    assert(alias_on(kind, e[i as int], strict, os, a));
                    assert(edge_label(e[i as int], ws) == attrs.os_named_deps.at(os).map()[a]);
                } else {
                    assert(before.os_named_deps.at(os).map().contains_key(a));
                    assert(before.os_named_deps.at(os).map()[a] == attrs.os_named_deps.at(os).map()[a]);
                    assert(alias_origin(before, *old(attrs), kind, e, i as int, ws, strict, os, a));
                    if !(old(attrs).os_named_deps.at(os).map().contains_key(a)
                        && before.os_named_deps.at(os).map()[a] == old(attrs).os_named_deps.at(os).map()[a]) {
                        let j = choose|j: int| 0 <= j < i && #[trigger] alias_on(kind, e[j], strict, os, a)
                            && edge_label(e[j], ws) == before.os_named_deps.at(os).map()[a];
                        assert(alias_on(kind, e[j], strict, os, a));
                    }
                }
            }
            lemma_step_sets(kind, e, i as int, ws, strict);
            assert(dep_label(e[i as int].package, ws) is Some);
            assert forall|k: int| 0 <= k < i + 1 && edge_attached(kind, #[trigger] e[k], strict) implies dep_label(e[k].package, ws) is Some by {}
            assert forall|k: int| 0 <= k < i + 1 implies os_alias_recorded(*attrs, kind, #[trigger] e[k], ws, strict) by {
                if k < i {
                    assert(os_alias_recorded(before, kind, e[k], ws, strict));
                    if edge_alias(e[k]) is Some {
                        let a = edge_alias(e[k])->Some_0;
                        assert forall|os: Os| edge_on(kind, e[k], strict, os) implies (#[trigger] attrs.os_named_deps.at(os)).map().contains_key(a) && attrs.os_named_deps.at(os).map()[a] == edge_label(e[k], ws) by {
                            assert(before.os_named_deps.at(os).map().contains_key(a));
                        }
                    }
                }
            }
        }
        i = i + 1;
    }
    Ok(diags)
}

/// How the sets of `set_deps` grow by one edge.
proof fn lemma_step_sets(kind: CargoTargetKind, e: Seq<DepEdge>, i: int, ws: bool, strict: bool)
    requires
        0 <= i < e.len(),
    ensures
        plain_labels(kind, e, i + 1, ws, strict) == if edge_uncond(kind, e[i], strict) && edge_alias(e[i]) is None {
            plain_labels(kind, e, i, ws, strict).insert(edge_label(e[i], ws))
        } else {
            plain_labels(kind, e, i, ws, strict)
        },
        forall|os: Os| #[trigger] os_labels(kind, e, i + 1, ws, strict, os) == if edge_on(kind, e[i], strict, os) && edge_alias(e[i]) is None {
            os_labels(kind, e, i, ws, strict, os).insert(edge_label(e[i], ws))
        } else {
            os_labels(kind, e, i, ws, strict, os)
        },
        plain_aliases(kind, e, i + 1, strict) == if edge_uncond(kind, e[i], strict) && edge_alias(e[i]) is Some {
            plain_aliases(kind, e, i, strict).insert(edge_alias(e[i])->Some_0)
        } else {
            plain_aliases(kind, e, i, strict)
        },
{
    assert(plain_labels(kind, e, i + 1, ws, strict) =~= if edge_uncond(kind, e[i], strict) && edge_alias(e[i]) is None {
            plain_labels(kind, e, i, ws, strict).insert(edge_label(e[i], ws))
        } else {
            plain_labels(kind, e, i, ws, strict)
        });
    assert forall|os: Os| #[trigger] os_labels(kind, e, i + 1, ws, strict, os) == if edge_on(kind, e[i], strict, os) && edge_alias(e[i]) is None {
            os_labels(kind, e, i, ws, strict, os).insert(edge_label(e[i], ws))
        } else {
            os_labels(kind, e, i, ws, strict, os)
        } by {
        assert(os_labels(kind, e, i + 1, ws, strict, os) =~= if edge_on(kind, e[i], strict, os) && edge_alias(e[i]) is None {
            os_labels(kind, e, i, ws, strict, os).insert(edge_label(e[i], ws))
        } else {
            os_labels(kind, e, i, ws, strict, os)
        });
    }
    assert(plain_aliases(kind, e, i + 1, strict) =~= if edge_uncond(kind, e[i], strict) && edge_alias(e[i]) is Some {
            plain_aliases(kind, e, i, strict).insert(edge_alias(e[i])->Some_0)
        } else {
            plain_aliases(kind, e, i, strict)
        });
}

} // verus!

verus! {

/// One leaf of a configuration predicate: a bare name such as `unix`, or a
/// key with a value such as `target_os = "linux"`.
pub enum CfgLeaf {
    Name(String),
    KeyPair(String, String),
}

/// Whether a leaf speaks of the identity of the target alone.
pub open spec fn leaf_is_target(l: CfgLeaf) -> bool {
    match l {
        CfgLeaf::Name(n) => n@ == "unix"@ || n@ == "windows"@,
        CfgLeaf::KeyPair(k, _) => k@.len() >= 7 && k@.subrange(0, 7) == "target_"@,
    }
}

/// Whether a platform predicate speaks of the target's identity alone: it
/// names a target triple (`named`), or every leaf of its configuration
/// expression is a `target_*` key or the `unix` or `windows` name. Such a
/// predicate that selects no supported target is dropped rather than taken
/// as unconditional.
pub fn platform_is_target_only(named: bool, leaves: &Vec<CfgLeaf>) -> (r: bool)
    ensures
        r == (named || forall|i: int| 0 <= i < leaves@.len() ==> leaf_is_target(#[trigger] leaves@[i])),
{
    if named {
        return true;
    }
    proof {
        reveal_strlit("target_");
    }
    let mut i: usize = 0;
    while i < leaves.len()
        invariant
            !named,
            i <= leaves@.len(),
            forall|k: int| 0 <= k < i ==> leaf_is_target(#[trigger] leaves@[k]),
        decreases leaves.len() - i,
    {
        let ok = match &leaves[i] {
            CfgLeaf::Name(n) => str_eq(n.as_str(), "unix") || str_eq(n.as_str(), "windows"),
            CfgLeaf::KeyPair(k, _) => crate::text::starts_with(k.as_str(), "target_"),
        };
        proof {
            reveal_strlit("target_");
            assert(ok == leaf_is_target(leaves@[i as int]));
        }
        if !ok {
            return false;
        }
        i = i + 1;
    }
    true
}

} // verus!
