//! Operating systems, the supported target triples, and the resolution of
//! Cargo platform predicates to the set of operating systems they select.
use vstd::prelude::*;
use cargo_platform::{Cfg, Platform};
use crate::collections::LabelSet;
use crate::text::str_eq;

verus! {

#[verifier::external_type_specification]
#[verifier::external_body]
pub struct ExPlatform(Platform);

#[verifier::external_type_specification]
#[verifier::external_body]
pub struct ExCfg(Cfg);

/// The three operating system families that generated rules distinguish.
#[derive(Debug, Clone, Copy, PartialEq, Eq, Structural, PartialOrd, Ord, Hash)]
pub enum Os {
    Windows,
    Macos,
    Linux,
}

pub open spec fn os_buck_label(os: Os) -> Seq<char> {
    match os {
        Os::Windows => "prelude//os/constraints:windows"@,
        Os::Macos => "prelude//os/constraints:macos"@,
        Os::Linux => "prelude//os/constraints:linux"@,
    }
}

pub open spec fn os_key(os: Os) -> Seq<char> {
    match os {
        Os::Windows => "windows"@,
        Os::Macos => "macos"@,
        Os::Linux => "linux"@,
    }
}

/// The bit that stands for `os` in a `PlatformMask`.
pub open spec fn os_bit(os: Os) -> u32 {
    match os {
        Os::Windows => 1,
        Os::Macos => 2,
        Os::Linux => 4,
    }
}

impl Os {
    /// The constraint label of the prelude that selects this OS.
    pub fn buck_label(self) -> (r: &'static str)
        ensures
            r@ == os_buck_label(self),
    {
        match self {
            Os::Windows => "prelude//os/constraints:windows",
            Os::Macos => "prelude//os/constraints:macos",
            Os::Linux => "prelude//os/constraints:linux",
        }
    }

    /// The key under which platform-scoped attributes store this OS.
    pub fn key(self) -> (r: &'static str)
        ensures
            r@ == os_key(self),
    {
        match self {
            Os::Windows => "windows",
            Os::Macos => "macos",
            Os::Linux => "linux",
        }
    }
}

/// A set of operating systems, one bit each.
#[derive(Debug, Clone, Copy, PartialEq, Eq, Structural, Hash)]
pub struct PlatformMask {
    pub bits: u32,
}

impl PlatformMask {
    /// Whether `os` is in the set.
    pub open spec fn has(self, os: Os) -> bool {
        self.bits & os_bit(os) != 0
    }

    /// The set as a mathematical set.
    pub open spec fn oses(self) -> Set<Os> {
        Set::new(|os: Os| self.has(os))
    }

    pub fn empty() -> (r: PlatformMask)
        ensures
            forall|os: Os| !r.has(os),
    {
        proof {
            assert(0u32 & 1 == 0 && 0u32 & 2 == 0 && 0u32 & 4 == 0) by (bit_vector);
        }
        PlatformMask { bits: 0 }
    }

    pub fn from_bits(bits: u32) -> (r: PlatformMask)
        ensures
            r.bits == bits,
    {
        PlatformMask { bits }
    }

    /// The set holding only `os`.
    pub fn of(os: Os) -> (r: PlatformMask)
        ensures
            forall|o: Os| r.has(o) == (o == os),
    {
        proof {
            assert(1u32 & 1 != 0 && 1u32 & 2 == 0 && 1u32 & 4 == 0) by (bit_vector);
            assert(2u32 & 1 == 0 && 2u32 & 2 != 0 && 2u32 & 4 == 0) by (bit_vector);
            assert(4u32 & 1 == 0 && 4u32 & 2 == 0 && 4u32 & 4 != 0) by (bit_vector);
        }
        match os {
            Os::Windows => PlatformMask { bits: 1 },
            Os::Macos => PlatformMask { bits: 2 },
            Os::Linux => PlatformMask { bits: 4 },
        }
    }

    pub fn contains(self, os: Os) -> (b: bool)
        ensures
            b == self.has(os),
    {
        let bit: u32 = match os {
            Os::Windows => 1,
            Os::Macos => 2,
            Os::Linux => 4,
        };
        self.bits & bit != 0
    }

    pub fn union(self, other: PlatformMask) -> (r: PlatformMask)
        ensures
            forall|os: Os| r.has(os) == (self.has(os) || other.has(os)),
    {
        let r = PlatformMask { bits: self.bits | other.bits };
        proof {
            let (a, b) = (self.bits, other.bits);
            assert((a | b) & 1 != 0 <==> (a & 1 != 0 || b & 1 != 0)) by (bit_vector);
            assert((a | b) & 2 != 0 <==> (a & 2 != 0 || b & 2 != 0)) by (bit_vector);
            assert((a | b) & 4 != 0 <==> (a & 4 != 0 || b & 4 != 0)) by (bit_vector);
        }
        r
    }

    /// Whether no OS is in the set.
    pub fn is_none(self) -> (b: bool)
        ensures
            b == (forall|os: Os| !self.has(os)),
    {
        let b = !self.contains(Os::Windows) && !self.contains(Os::Macos) && !self.contains(
            Os::Linux,
        );
        proof {
            if !b {
                if self.has(Os::Windows) {
                    assert(!forall|os: Os| !self.has(os));
                } else if self.has(Os::Macos) {
                    assert(!forall|os: Os| !self.has(os));
                } else {
                    assert(self.has(Os::Linux));
                }
            } else {
                assert forall|os: Os| !self.has(os) by {
                    match os {
                        Os::Windows => {},
                        Os::Macos => {},
                        Os::Linux => {},
                    }
                }
            }
        }
        b
    }

    /// The members in increasing order: Windows, Macos, Linux.
    pub fn to_oses(self) -> (r: Vec<Os>)
        ensures
            r@ == os_order().filter(|os: Os| self.has(os)),
    {
        let mut r: Vec<Os> = Vec::new();
        if self.contains(Os::Windows) {
            r.push(Os::Windows);
        }
        if self.contains(Os::Macos) {
            r.push(Os::Macos);
        }
        if self.contains(Os::Linux) {
            r.push(Os::Linux);
        }
        proof {
            let f = |os: Os| self.has(os);
            let o = os_order();
            assert(o.subrange(0, 0).filter(f) =~= Seq::<Os>::empty());
            assert(o.subrange(0, 1) =~= o.subrange(0, 0).push(Os::Windows));
            assert(o.subrange(0, 2) =~= o.subrange(0, 1).push(Os::Macos));
            assert(o.subrange(0, 3) =~= o.subrange(0, 2).push(Os::Linux));
            o.subrange(0, 0).lemma_filter_push(Os::Windows, f);
            o.subrange(0, 1).lemma_filter_push(Os::Macos, f);
            o.subrange(0, 2).lemma_filter_push(Os::Linux, f);
            assert(o.subrange(0, 3) =~= o);
            assert(r@ =~= o.filter(f));
        }
        r
    }
}

/// The operating systems in the order in which generated output lists them.
pub open spec fn os_order() -> Seq<Os> {
    seq![Os::Windows, Os::Macos, Os::Linux]
}

/// Number of target triples against which platform predicates are evaluated.
pub const SUPPORTED_TARGET_COUNT: usize = 8;

/// The tier-1 host triples used to evaluate platform predicates, each with
/// its operating system.
pub open spec fn supported_target(i: int) -> (Os, Seq<char>) {
    if i == 0 {
        (Os::Macos, "aarch64-apple-darwin"@)
    } else if i == 1 {
        (Os::Windows, "aarch64-pc-windows-msvc"@)
    } else if i == 2 {
        (Os::Windows, "x86_64-pc-windows-msvc"@)
    } else if i == 3 {
        (Os::Windows, "x86_64-pc-windows-gnu"@)
    } else if i == 4 {
        (Os::Windows, "i686-pc-windows-msvc"@)
    } else if i == 5 {
        (Os::Linux, "aarch64-unknown-linux-gnu"@)
    } else if i == 6 {
        (Os::Linux, "x86_64-unknown-linux-gnu"@)
    } else {
        (Os::Linux, "i686-unknown-linux-gnu"@)
    }
}

/// The supported target triples, each with its operating system.
pub fn supported_targets() -> (r: Vec<(Os, &'static str)>)
    ensures
        r@.len() == SUPPORTED_TARGET_COUNT,
        forall|i: int|
            0 <= i < r@.len() ==> (#[trigger] r@[i]).0 == supported_target(i).0 && r@[i].1@
                == supported_target(i).1,
{
    let r = vec![
        (Os::Macos, "aarch64-apple-darwin"),
        (Os::Windows, "aarch64-pc-windows-msvc"),
        (Os::Windows, "x86_64-pc-windows-msvc"),
        (Os::Windows, "x86_64-pc-windows-gnu"),
        (Os::Windows, "i686-pc-windows-msvc"),
        (Os::Linux, "aarch64-unknown-linux-gnu"),
        (Os::Linux, "x86_64-unknown-linux-gnu"),
        (Os::Linux, "i686-unknown-linux-gnu"),
    ];
    r
}

/// Whether some supported target of operating system `os` is marked in `matched`.
pub open spec fn some_target_matches(matched: Seq<bool>, os: Os) -> bool {
    exists|i: int| 0 <= i < SUPPORTED_TARGET_COUNT && #[trigger] matched[i] && supported_target(i).0 == os
}

/// The operating systems of the supported targets that `matched` marks, where
/// `matched[i]` says whether the `i`-th supported target satisfied a predicate.
pub fn oses_from_matches(matched: &Vec<bool>) -> (r: PlatformMask)
    requires
        matched@.len() == SUPPORTED_TARGET_COUNT,
    ensures
        forall|os: Os| r.has(os) == some_target_matches(matched@, os),
{
    let targets = supported_targets();
    let mut r = PlatformMask::empty();
    let mut i: usize = 0;
    while i < SUPPORTED_TARGET_COUNT
        invariant
            i <= SUPPORTED_TARGET_COUNT,
            matched@.len() == SUPPORTED_TARGET_COUNT,
            targets@.len() == SUPPORTED_TARGET_COUNT,
            forall|k: int|
                0 <= k < targets@.len() ==> (#[trigger] targets@[k]).0 == supported_target(k).0,
            forall|os: Os|
                r.has(os) == exists|k: int|
                    0 <= k < i && #[trigger] matched@[k] && supported_target(k).0 == os,
        decreases SUPPORTED_TARGET_COUNT - i,
    {
        if matched[i] {
            let ghost prev = r;
            r = r.union(PlatformMask::of(targets[i].0));
            proof {
                assert forall|os: Os|
                    r.has(os) == exists|k: int|
                        0 <= k < i + 1 && #[trigger] matched@[k] && supported_target(k).0
                            == os by {
                    if r.has(os) && !prev.has(os) {
                        assert(matched@[i as int] && supported_target(i as int).0 == os);
                    }
                    if exists|k: int|
                        0 <= k < i + 1 && #[trigger] matched@[k] && supported_target(k).0
                            == os {
                        let k = choose|k: int|
                            0 <= k < i + 1 && #[trigger] matched@[k] && supported_target(k).0
                                == os;
                        if k < i {
                            assert(prev.has(os));
                        }
                    }
                }
            }
        } else {
            proof {
                assert forall|os: Os|
                    r.has(os) == exists|k: int|
                        0 <= k < i + 1 && #[trigger] matched@[k] && supported_target(k).0
                            == os by {
                    if exists|k: int|
                        0 <= k < i + 1 && #[trigger] matched@[k] && supported_target(k).0
                            == os {
                        let k = choose|k: int|
                            0 <= k < i + 1 && #[trigger] matched@[k] && supported_target(k).0
                                == os;
                        assert(k < i);
                    }
                }
            }
        }
        i = i + 1;
    }
    r
}

/// Whether a Cargo platform predicate holds on the target named `triple`
/// whose configuration is `cfgs`.
pub uninterp spec fn platform_holds(platform: Platform, triple: Seq<char>, cfgs: Seq<Cfg>) -> bool;

/// Relies on `cargo_platform::Platform::matches`: whether `platform` holds
/// on the target named `triple` whose configuration is `cfgs`, a function of
/// the three alone.
#[verifier::external_body]
fn platform_matches(platform: &Platform, triple: &str, cfgs: &Vec<Cfg>) -> (r: bool)
    ensures
        r == platform_holds(*platform, triple@, cfgs@),
{
    platform.matches(triple, cfgs)
}

/// Whether the `i`-th supported target has a configuration on which `platform` holds.
pub open spec fn target_holds(platform: Platform, cfgs: Seq<Option<Vec<Cfg>>>, i: int) -> bool {
    cfgs[i] is Some && platform_holds(platform, supported_target(i).1, cfgs[i]->Some_0@)
}

/// The operating systems of the supported targets on which `platform` holds.
/// `cfgs[i]` is the configuration of the `i`-th supported target, or `None`
/// where it could not be had; such a target matches nothing.
pub fn oses_from_platform(platform: &Platform, cfgs: &Vec<Option<Vec<Cfg>>>) -> (r: PlatformMask)
    requires
        cfgs@.len() == SUPPORTED_TARGET_COUNT,
    ensures
        forall|os: Os|
            r.has(os) == exists|i: int|
                0 <= i < SUPPORTED_TARGET_COUNT && #[trigger] target_holds(*platform, cfgs@, i)
                    && supported_target(i).0 == os,
{
    let targets = supported_targets();
    let mut matched: Vec<bool> = Vec::new();
    let mut i: usize = 0;
    while i < SUPPORTED_TARGET_COUNT
        invariant
            i <= SUPPORTED_TARGET_COUNT,
            cfgs@.len() == SUPPORTED_TARGET_COUNT,
            targets@.len() == SUPPORTED_TARGET_COUNT,
            matched@.len() == i,
            forall|k: int| 0 <= k < targets@.len() ==> (#[trigger] targets@[k]).1@ == supported_target(k).1,
            forall|k: int| 0 <= k < i ==> #[trigger] matched@[k] == target_holds(*platform, cfgs@, k),
        decreases SUPPORTED_TARGET_COUNT - i,
    {
        let m = match &cfgs[i] {
            Some(c) => platform_matches(platform, targets[i].1, c),
            None => false,
        };
        matched.push(m);
        i = i + 1;
    }
    let r = oses_from_matches(&matched);
    proof {
        assert forall|os: Os| r.has(os) == exists|i: int|
            0 <= i < SUPPORTED_TARGET_COUNT && #[trigger] target_holds(*platform, cfgs@, i)
                && supported_target(i).0 == os by {
            if r.has(os) {
                let i = choose|i: int| 0 <= i < SUPPORTED_TARGET_COUNT && #[trigger] matched@[i] && supported_target(i).0 == os;
                assert(target_holds(*platform, cfgs@, i));
            }
            if exists|i: int| 0 <= i < SUPPORTED_TARGET_COUNT && #[trigger] target_holds(*platform, cfgs@, i)
                && supported_target(i).0 == os {
                let i = choose|i: int| 0 <= i < SUPPORTED_TARGET_COUNT && #[trigger] target_holds(*platform, cfgs@, i)
                    && supported_target(i).0 == os;
                assert(matched@[i]);
            }
        }
    }
    r
}

/// The operating systems to which a package is restricted regardless of what
/// its dependents declare, for the few packages whose predicates say too little.
pub open spec fn forced_platforms(name: Seq<char>) -> Option<u32> {
    if name == "hyper-named-pipe"@ {
        Some(1u32)
    } else if name == "system-configuration"@ {
        Some(2u32)
    } else if name == "windows-future"@ {
        Some(1u32)
    } else if name == "windows"@ {
        Some(1u32)
    } else if name == "winreg"@ {
        Some(1u32)
    } else {
        None
    }
}

/// The operating systems to which package `package_name` is restricted, if any.
pub fn lookup_platforms(package_name: &str) -> (r: Option<PlatformMask>)
    ensures
        r.is_some() == forced_platforms(package_name@).is_some(),
        r.is_some() ==> r.unwrap().bits == forced_platforms(package_name@).unwrap(),
{
    if str_eq(package_name, "hyper-named-pipe") {
        Some(PlatformMask { bits: 1 })
    } else if str_eq(package_name, "system-configuration") {
        Some(PlatformMask { bits: 2 })
    } else if str_eq(package_name, "windows-future") {
        Some(PlatformMask { bits: 1 })
    } else if str_eq(package_name, "windows") {
        Some(PlatformMask { bits: 1 })
    } else if str_eq(package_name, "winreg") {
        Some(PlatformMask { bits: 1 })
    } else {
        None
    }
}

/// The constraint labels of the operating systems in `oses`.
pub fn buck_labels(oses: PlatformMask) -> (r: LabelSet)
    ensures
        r.wf(),
        r.members() == oses.oses().map(|os: Os| os_buck_label(os)),
{
    let mut r = LabelSet::new();
    let list = oses.to_oses();
    let mut i: usize = 0;
    while i < list.len()
        invariant
            r.wf(),
            i <= list@.len(),
            list@ == os_order().filter(|os: Os| oses.has(os)),
            r.members() == list@.subrange(0, i as int).to_set().map(|os: Os| os_buck_label(os)),
        decreases list.len() - i,
    {
        let os = list[i];
        let label = String::from_str(os.buck_label());
        r.insert(label);
        proof {
            let f = |os: Os| os_buck_label(os);
            let pre = list@.subrange(0, i as int);
            Seq::lemma_to_set_insert_commutes(pre, os);
            assert(pre + seq![os] =~= list@.subrange(0, i + 1));
            let a = list@.subrange(0, i + 1).to_set();
            let b = pre.to_set();
            assert(a == b.insert(os));
            assert forall|y: Seq<char>| a.map(f).contains(y) <==> b.map(f).insert(f(os)).contains(y) by {
                if a.map(f).contains(y) {
                    let x = choose|x: Os| a.contains(x) && f(x) == y;
                    if x != os {
                        assert(b.contains(x));
                    }
                }
                if b.map(f).contains(y) {
                    let x = choose|x: Os| b.contains(x) && f(x) == y;
                    assert(a.contains(x));
                }
                if y == f(os) {
                    assert(a.contains(os));
                }
            }
            assert(a.map(f) =~= b.map(f).insert(f(os)));
        }
        i = i + 1;
    }
    proof {
        assert(list@.subrange(0, list@.len() as int) =~= list@);
        assert(list@.to_set() =~= oses.oses()) by {
            let g = |os: Os| oses.has(os);
            assert forall|os: Os| list@.contains(os) <==> oses.has(os) by {
                let o = os_order();
                if oses.has(os) {
                    match os {
                        Os::Windows => { assert(o[0] == os); },
                        Os::Macos => { assert(o[1] == os); },
                        Os::Linux => { assert(o[2] == os); },
                    }
                    o.lemma_filter_contains_rev(g, os);
                }
                if list@.contains(os) {
                    let k = choose|k: int| 0 <= k < list@.len() && list@[k] == os;
                    o.lemma_filter_pred(g, k);
                }
            }
        }
    }
    r
}

/// Whether a built-in configuration is known for `triple`.
pub open spec fn has_fallback_cfgs(triple: Seq<char>) -> bool {
    triple == "aarch64-apple-darwin"@ || triple == "x86_64-apple-darwin"@ || triple
        == "aarch64-pc-windows-msvc"@ || triple == "x86_64-pc-windows-msvc"@ || triple
        == "x86_64-pc-windows-gnu"@ || triple == "i686-pc-windows-msvc"@ || triple
        == "aarch64-unknown-linux-gnu"@ || triple == "x86_64-unknown-linux-gnu"@ || triple
        == "i686-unknown-linux-gnu"@
}

/// The line that names the operating system of a triple with a built-in configuration.
pub open spec fn fallback_os_line(triple: Seq<char>) -> Seq<char> {
    if triple == "aarch64-apple-darwin"@ {
        "target_os=\"macos\""@
    } else if triple == "x86_64-apple-darwin"@ {
        "target_os=\"macos\""@
    } else if triple == "aarch64-pc-windows-msvc"@ {
        "target_os=\"windows\""@
    } else if triple == "x86_64-pc-windows-msvc"@ {
        "target_os=\"windows\""@
    } else if triple == "x86_64-pc-windows-gnu"@ {
        "target_os=\"windows\""@
    } else if triple == "i686-pc-windows-msvc"@ {
        "target_os=\"windows\""@
    } else {
        "target_os=\"linux\""@
    }
}

/// The configuration lines that the compiler prints for `triple`, for the
/// triples that are known here; used where the compiler cannot be asked.
pub fn fallback_cfg_lines(triple: &str) -> (r: Option<Vec<&'static str>>)
    ensures
        r.is_some() == has_fallback_cfgs(triple@),
        r.is_some() ==> 8 <= r.unwrap()@.len() <= 9,
        r.is_some() ==> r.unwrap()@[3]@ == fallback_os_line(triple@) || r.unwrap()@[4]@
            == fallback_os_line(triple@),
{
    if str_eq(triple, "aarch64-apple-darwin") {
        Some(
            vec![
                "target_arch=\"aarch64\"",
                "target_endian=\"little\"",
                "target_family=\"unix\"",
                "target_os=\"macos\"",
                "target_pointer_width=\"64\"",
                "target_vendor=\"apple\"",
                "target_abi=\"\"",
                "unix",
            ],
        )
    } else if str_eq(triple, "x86_64-apple-darwin") {
        Some(
            vec![
                "target_arch=\"x86_64\"",
                "target_endian=\"little\"",
                "target_family=\"unix\"",
                "target_os=\"macos\"",
                "target_pointer_width=\"64\"",
                "target_vendor=\"apple\"",
                "target_abi=\"\"",
                "unix",
            ],
        )
    } else if str_eq(triple, "aarch64-pc-windows-msvc") {
        Some(
            vec![
                "target_arch=\"aarch64\"",
                "target_endian=\"little\"",
                "target_env=\"msvc\"",
                "target_family=\"windows\"",
                "target_os=\"windows\"",
                "target_pointer_width=\"64\"",
                "target_vendor=\"pc\"",
                "target_abi=\"msvc\"",
                "windows",
            ],
        )
    } else if str_eq(triple, "x86_64-pc-windows-msvc") {
        Some(
            vec![
                "target_arch=\"x86_64\"",
                "target_endian=\"little\"",
                "target_env=\"msvc\"",
                "target_family=\"windows\"",
                "target_os=\"windows\"",
                "target_pointer_width=\"64\"",
                "target_vendor=\"pc\"",
                "target_abi=\"msvc\"",
                "windows",
            ],
        )
    } else if str_eq(triple, "x86_64-pc-windows-gnu") {
        Some(
            vec![
                "target_arch=\"x86_64\"",
                "target_endian=\"little\"",
                "target_env=\"gnu\"",
                "target_family=\"windows\"",
                "target_os=\"windows\"",
                "target_pointer_width=\"64\"",
                "target_vendor=\"pc\"",
                "target_abi=\"gnu\"",
                "windows",
            ],
        )
    } else if str_eq(triple, "i686-pc-windows-msvc") {
        Some(
            vec![
                "target_arch=\"x86\"",
                "target_endian=\"little\"",
                "target_env=\"msvc\"",
                "target_family=\"windows\"",
                "target_os=\"windows\"",
                "target_pointer_width=\"32\"",
                "target_vendor=\"pc\"",
                "target_abi=\"msvc\"",
                "windows",
            ],
        )
    } else if str_eq(triple, "aarch64-unknown-linux-gnu") {
        Some(
            vec![
                "target_arch=\"aarch64\"",
                "target_endian=\"little\"",
                "target_env=\"gnu\"",
                "target_family=\"unix\"",
                "target_os=\"linux\"",
                "target_pointer_width=\"64\"",
                "target_vendor=\"unknown\"",
                "target_abi=\"\"",
                "unix",
            ],
        )
    } else if str_eq(triple, "x86_64-unknown-linux-gnu") {
        Some(
            vec![
                "target_arch=\"x86_64\"",
                "target_endian=\"little\"",
                "target_env=\"gnu\"",
                "target_family=\"unix\"",
                "target_os=\"linux\"",
                "target_pointer_width=\"64\"",
                "target_vendor=\"unknown\"",
                "target_abi=\"\"",
                "unix",
            ],
        )
    } else if str_eq(triple, "i686-unknown-linux-gnu") {
        Some(
            vec![
                "target_arch=\"x86\"",
                "target_endian=\"little\"",
                "target_env=\"gnu\"",
                "target_family=\"unix\"",
                "target_os=\"linux\"",
                "target_pointer_width=\"32\"",
                "target_vendor=\"unknown\"",
                "target_abi=\"\"",
                "unix",
            ],
        )
    } else {
        None
    }
}

/// Relies on `cargo_platform::Cfg::from_str`: parses one line of compiler
/// configuration output, `None` where the line is not a configuration value.
#[verifier::external_body]
fn parse_cfg(line: &str) -> (r: Option<Cfg>) {
    line.parse::<Cfg>().ok()
}

/// The built-in configuration of `triple`, where one is known.
pub fn fallback_cfgs_for_triple(triple: &str) -> (r: Option<Vec<Cfg>>)
    ensures
        r.is_some() == has_fallback_cfgs(triple@),
        r.is_some() ==> r.unwrap()@.len() <= 9,
{
    let lines = match fallback_cfg_lines(triple) {
        Some(l) => l,
        None => return None,
    };
    let mut cfgs: Vec<Cfg> = Vec::new();
    let mut i: usize = 0;
    while i < lines.len()
        invariant
            i <= lines@.len(),
            lines@.len() <= 9,
            cfgs@.len() <= i,
        decreases lines.len() - i,
    {
        if let Some(c) = parse_cfg(lines[i]) {
            cfgs.push(c);
        }
        i = i + 1;
    }
    Some(cfgs)
}

} // verus!
