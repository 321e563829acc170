//! Reading the rules of an existing build file back from its calls, for the
//! merge of hand-edited values: each call's keyword arguments, as plain
//! values, become the attributes of a rule of the call's kind.
use vstd::prelude::*;
use crate::collections::{strings_view, LabelSet, StrMap};
use crate::platform::{os_key, Os};
use crate::rules::{
    BuildscriptRun, DepAttrs, ExistingRules, PerOs, RustAttrs, RustBinary, RustLibrary, RustTest,
};
use crate::text::str_eq;

verus! {

/// The value of a keyword argument, as far as a rule reads it.
pub enum ParsedValue {
    Str(String),
    List(Vec<String>),
    StrDict(Vec<(String, String)>),
    ListDict(Vec<(String, Vec<String>)>),
    DictDict(Vec<(String, Vec<(String, String)>)>),
    Other,
}

/// One call of an existing build file: the function and its keyword arguments.
pub struct ParsedCall {
    pub function: String,
    pub kwargs: Vec<(String, ParsedValue)>,
}

pub type Kwargs = Seq<(String, ParsedValue)>;

/// The position of the last keyword argument named `key`.
pub open spec fn kw_index(kw: Kwargs, key: Seq<char>) -> Option<int>
    decreases kw.len(),
{
    if kw.len() == 0 {
        None
    } else if kw.last().0@ == key {
        Some(kw.len() - 1)
    } else {
        kw_index(kw.drop_last(), key)
    }
}

/// The map of key-value pairs, a later pair replacing an earlier one.
pub open spec fn pairs_map(p: Seq<(String, String)>) -> Map<Seq<char>, Seq<char>>
    decreases p.len(),
{
    if p.len() == 0 {
        Map::empty()
    } else {
        pairs_map(p.drop_last()).insert(p.last().0@, p.last().1@)
    }
}

/// The labels that the entries of an OS-keyed dictionary give `os`.
pub open spec fn os_lists(p: Seq<(String, Vec<String>)>, os: Os) -> Set<Seq<char>>
    decreases p.len(),
{
    if p.len() == 0 {
        Set::empty()
    } else if p.last().0@ == os_key(os) {
        os_lists(p.drop_last(), os).union(strings_view(p.last().1@).to_set())
    } else {
        os_lists(p.drop_last(), os)
    }
}

/// The aliases and labels that an alias-then-OS dictionary gives `os`.
pub open spec fn os_maps(p: Seq<(String, Vec<(String, String)>)>, os: Os) -> Map<Seq<char>, Seq<char>>
    decreases p.len(),
{
    if p.len() == 0 {
        Map::empty()
    } else if pairs_map(p.last().1@).contains_key(os_key(os)) {
        os_maps(p.drop_last(), os).insert(p.last().0@, pairs_map(p.last().1@)[os_key(os)])
    } else {
        os_maps(p.drop_last(), os)
    }
}

pub open spec fn str_arg(kw: Kwargs, key: Seq<char>) -> Seq<char> {
    match kw_index(kw, key) {
        Some(i) => match kw[i].1 {
            ParsedValue::Str(s) => s@,
            _ => Seq::empty(),
        },
        None => Seq::empty(),
    }
}

pub open spec fn set_arg(kw: Kwargs, key: Seq<char>) -> Set<Seq<char>> {
    match kw_index(kw, key) {
        Some(i) => match kw[i].1 {
            ParsedValue::List(l) => strings_view(l@).to_set(),
            _ => Set::empty(),
        },
        None => Set::empty(),
    }
}

pub open spec fn map_arg(kw: Kwargs, key: Seq<char>) -> Map<Seq<char>, Seq<char>> {
    match kw_index(kw, key) {
        Some(i) => match kw[i].1 {
            ParsedValue::StrDict(p) => pairs_map(p@),
            _ => Map::empty(),
        },
        None => Map::empty(),
    }
}

pub open spec fn os_set_arg(kw: Kwargs, key: Seq<char>, os: Os) -> Set<Seq<char>> {
    match kw_index(kw, key) {
        Some(i) => match kw[i].1 {
            ParsedValue::ListDict(p) => os_lists(p@, os),
            _ => Set::empty(),
        },
        None => Set::empty(),
    }
}

pub open spec fn os_map_arg(kw: Kwargs, key: Seq<char>, os: Os) -> Map<Seq<char>, Seq<char>> {
    match kw_index(kw, key) {
        Some(i) => match kw[i].1 {
            ParsedValue::DictDict(p) => os_maps(p@, os),
            _ => Map::empty(),
        },
        None => Map::empty(),
    }
}

/// Whether `a` holds what the keyword arguments `kw` of a Rust rule's call say.
pub open spec fn attrs_of(a: RustAttrs, kw: Kwargs) -> bool {
    &&& a.wf()
    &&& a.name@ == str_arg(kw, "name"@)
    &&& a.srcs.members() == set_arg(kw, "srcs"@)
    &&& a.crate_name@ == str_arg(kw, "crate"@)
    &&& a.crate_root@ == str_arg(kw, "crate_root"@)
    &&& a.edition@ == str_arg(kw, "edition"@)
    &&& a.target_compatible_with.members() == set_arg(kw, "target_compatible_with"@)
    &&& a.compatible_with.members() == set_arg(kw, "compatible_with"@)
    &&& a.exec_compatible_with.members() == set_arg(kw, "exec_compatible_with"@)
    &&& a.env.map() == map_arg(kw, "env"@)
    &&& a.features.members() == set_arg(kw, "features"@)
    &&& a.rustc_flags.members() == set_arg(kw, "rustc_flags"@)
    &&& a.visibility.members() == set_arg(kw, "visibility"@)
    &&& a.dep_attrs.deps.members() == set_arg(kw, "deps"@)
    &&& a.dep_attrs.named_deps.map() == map_arg(kw, "named_deps"@)
    &&& forall|os: Os| (#[trigger] a.dep_attrs.os_deps.at(os)).members() == os_set_arg(kw, "os_deps"@, os)
    &&& forall|os: Os|
        (#[trigger] a.dep_attrs.os_named_deps.at(os)).map() == os_map_arg(kw, "os_named_deps"@, os)
}

/// Whether `r` holds what the keyword arguments `kw` of a build script run's call say.
pub open spec fn run_of(r: BuildscriptRun, kw: Kwargs) -> bool {
    &&& r.wf()
    &&& r.name@ == str_arg(kw, "name"@)
    &&& r.package_name@ == str_arg(kw, "package_name"@)
    &&& r.buildscript_rule@ == str_arg(kw, "buildscript_rule"@)
    &&& r.env.map() == map_arg(kw, "env"@)
    &&& r.env_srcs.members() == set_arg(kw, "env_srcs"@)
    &&& r.features.members() == set_arg(kw, "features"@)
    &&& r.version@ == str_arg(kw, "version"@)
    &&& r.manifest_dir@ == str_arg(kw, "manifest_dir"@)
    &&& r.visibility.members() == set_arg(kw, "visibility"@)
}

/// The keyword arguments of the calls of `function`, in order.
pub open spec fn calls_of(calls: Seq<ParsedCall>, function: Seq<char>) -> Seq<Kwargs>
    decreases calls.len(),
{
    if calls.len() == 0 {
        Seq::empty()
    } else if calls.last().function@ == function {
        calls_of(calls.drop_last(), function).push(calls.last().kwargs@)
    } else {
        calls_of(calls.drop_last(), function)
    }
}

fn find_kw(kw: &Vec<(String, ParsedValue)>, key: &str) -> (r: Option<usize>)
    ensures
        r matches Some(i) ==> kw_index(kw@, key@) == Some(i as int) && i < kw@.len(),
        r is None ==> kw_index(kw@, key@) is None,
{
    let mut k: usize = kw.len();
    proof {
        assert(kw@.subrange(0, k as int) =~= kw@);
    }
    while k > 0
        invariant
            k <= kw@.len(),
            kw_index(kw@, key@) == kw_index(kw@.subrange(0, k as int), key@),
        decreases k,
    {
        proof {
            assert(kw@.subrange(0, k as int).drop_last() =~= kw@.subrange(0, k - 1));
        }
        if str_eq(kw[k - 1].0.as_str(), key) {
            return Some(k - 1);
        }
        k = k - 1;
    }
    None
}

fn set_from(v: &Vec<String>) -> (r: LabelSet)
    ensures
        r.wf(),
        r.members() == strings_view(v@).to_set(),
{
    let mut r = LabelSet::new();
    let mut i: usize = 0;
    while i < v.len()
        invariant
            r.wf(),
            i <= v@.len(),
            r.members() == strings_view(v@).subrange(0, i as int).to_set(),
        decreases v.len() - i,
    {
        r.insert(v[i].clone());
        proof {
            let s = strings_view(v@);
            Seq::lemma_to_set_insert_commutes(s.subrange(0, i as int), s[i as int]);
            assert(s.subrange(0, i as int) + seq![s[i as int]] =~= s.subrange(0, i + 1));
        }
        i = i + 1;
    }
    proof {
        assert(strings_view(v@).subrange(0, v@.len() as int) =~= strings_view(v@));
    }
    r
}

fn map_from(p: &Vec<(String, String)>) -> (r: StrMap)
    ensures
        r.wf(),
        r.map() == pairs_map(p@),
{
    let mut r = StrMap::new();
    let mut i: usize = 0;
    while i < p.len()
        invariant
            r.wf(),
            i <= p@.len(),
            r.map() == pairs_map(p@.subrange(0, i as int)),
        decreases p.len() - i,
    {
        r.put(p[i].0.clone(), p[i].1.clone(), true);
        proof {
            assert(p@.subrange(0, i + 1).drop_last() =~= p@.subrange(0, i as int));
        }
        i = i + 1;
    }
    proof {
        assert(p@.subrange(0, p@.len() as int) =~= p@);
    }
    r
}

fn lookup_pair(p: &Vec<(String, String)>, key: &str) -> (r: Option<String>)
    ensures
        r matches Some(v) ==> pairs_map(p@).contains_key(key@) && pairs_map(p@)[key@] == v@,
        r is None ==> !pairs_map(p@).contains_key(key@),
{
    let m = map_from(p);
    match m.get(key) {
        Some(v) => Some(v.clone()),
        None => None,
    }
}

fn string_arg(kw: &Vec<(String, ParsedValue)>, key: &str) -> (r: String)
    ensures
        r@ == str_arg(kw@, key@),
{
    match find_kw(kw, key) {
        Some(i) => match &kw[i].1 {
            ParsedValue::Str(s) => s.clone(),
            _ => String::new(),
        },
        None => String::new(),
    }
}

fn labels_arg(kw: &Vec<(String, ParsedValue)>, key: &str) -> (r: LabelSet)
    ensures
        r.wf(),
        r.members() == set_arg(kw@, key@),
{
    match find_kw(kw, key) {
        Some(i) => match &kw[i].1 {
            ParsedValue::List(l) => set_from(l),
            _ => LabelSet::new(),
        },
        None => LabelSet::new(),
    }
}

fn strmap_arg(kw: &Vec<(String, ParsedValue)>, key: &str) -> (r: StrMap)
    ensures
        r.wf(),
        r.map() == map_arg(kw@, key@),
{
    match find_kw(kw, key) {
        Some(i) => match &kw[i].1 {
            ParsedValue::StrDict(p) => map_from(p),
            _ => StrMap::new(),
        },
        None => StrMap::new(),
    }
}

fn os_sets_from(p: &Vec<(String, Vec<String>)>) -> (r: PerOs<LabelSet>)
    ensures
        r.wf(),
        forall|os: Os| (#[trigger] r.at(os)).members() == os_lists(p@, os),
{
    let mut r = PerOs::<LabelSet>::new();
    let mut i: usize = 0;
    proof {
        assert forall|os: Os| (#[trigger] r.at(os)).members() == os_lists(p@.subrange(0, 0), os) by {
            assert(r.at(os).members() =~= Set::<Seq<char>>::empty());
        }
    }
    while i < p.len()
        invariant
            r.wf(),
            i <= p@.len(),
            forall|os: Os| (#[trigger] r.at(os)).members() == os_lists(p@.subrange(0, i as int), os),
        decreases p.len() - i,
    {
        let key = p[i].0.as_str();
        let labels = set_from(&p[i].1);
        let ghost prev = r;
        let w = str_eq(key, Os::Windows.key());
        let m = str_eq(key, Os::Macos.key());
        let l = str_eq(key, Os::Linux.key());
        if w {
            r.windows.extend_from(&labels);
        }
        if m {
            r.macos.extend_from(&labels);
        }
        if l {
            r.linux.extend_from(&labels);
        }
        proof {
            let sub = p@.subrange(0, i + 1);
            assert(sub.drop_last() =~= p@.subrange(0, i as int));
            assert(sub.last() == p@[i as int]);
            assert(r.windows.members() == if w { prev.windows.members().union(labels.members()) } else { prev.windows.members() });
            assert(r.macos.members() == if m { prev.macos.members().union(labels.members()) } else { prev.macos.members() });
            assert(r.linux.members() == if l { prev.linux.members().union(labels.members()) } else { prev.linux.members() });
            assert forall|os: Os| (#[trigger] r.at(os)).members() == os_lists(sub, os) by {
                assert(prev.at(os).members() == os_lists(p@.subrange(0, i as int), os));
                match os {
                    Os::Windows => {},
                    Os::Macos => {},
                    Os::Linux => {},
                }
            }
        }
        i = i + 1;
    }
    proof {
        assert(p@.subrange(0, p@.len() as int) =~= p@);
    }
    r
}

fn os_maps_from(p: &Vec<(String, Vec<(String, String)>)>) -> (r: PerOs<StrMap>)
    ensures
        r.wf(),
        forall|os: Os| (#[trigger] r.at(os)).map() == os_maps(p@, os),
{
    let mut r = PerOs::<StrMap>::new();
    let mut i: usize = 0;
    proof {
        assert forall|os: Os| (#[trigger] r.at(os)).map() == os_maps(p@.subrange(0, 0), os) by {}
    }
    while i < p.len()
        invariant
            r.wf(),
            i <= p@.len(),
            forall|os: Os| (#[trigger] r.at(os)).map() == os_maps(p@.subrange(0, i as int), os),
        decreases p.len() - i,
    {
        let alias = &p[i].0;
        let inner = &p[i].1;
        let ghost prev = r;
        let w = lookup_pair(inner, Os::Windows.key());
        let m = lookup_pair(inner, Os::Macos.key());
        let l = lookup_pair(inner, Os::Linux.key());
        if let Some(v) = w {
            r.windows.put(alias.clone(), v, true);
        }
        if let Some(v) = m {
            r.macos.put(alias.clone(), v, true);
        }
        if let Some(v) = l {
            r.linux.put(alias.clone(), v, true);
        }
        proof {
            let sub = p@.subrange(0, i + 1);
            assert(sub.drop_last() =~= p@.subrange(0, i as int));
            assert(sub.last() == p@[i as int]);
            assert forall|os: Os| (#[trigger] r.at(os)).map() == os_maps(sub, os) by {
                assert(prev.at(os).map() == os_maps(p@.subrange(0, i as int), os));
                match os {
                    Os::Windows => {},
                    Os::Macos => {},
                    Os::Linux => {},
                }
            }
        }
        i = i + 1;
    }
    proof {
        assert(p@.subrange(0, p@.len() as int) =~= p@);
    }
    r
}

fn os_sets_arg(kw: &Vec<(String, ParsedValue)>, key: &str) -> (r: PerOs<LabelSet>)
    ensures
        r.wf(),
        forall|os: Os| (#[trigger] r.at(os)).members() == os_set_arg(kw@, key@, os),
{
    match find_kw(kw, key) {
        Some(i) => match &kw[i].1 {
            ParsedValue::ListDict(p) => os_sets_from(p),
            _ => {
                let r = PerOs::<LabelSet>::new();
                proof {
                    assert forall|os: Os| (#[trigger] r.at(os)).members() == os_set_arg(kw@, key@, os) by {
                        assert(r.at(os).members() =~= Set::<Seq<char>>::empty());
                    }
                }
                r
            },
        },
        None => {
            let r = PerOs::<LabelSet>::new();
            proof {
                assert forall|os: Os| (#[trigger] r.at(os)).members() == os_set_arg(kw@, key@, os) by {
                    assert(r.at(os).members() =~= Set::<Seq<char>>::empty());
                }
            }
            r
        },
    }
}

fn os_maps_arg(kw: &Vec<(String, ParsedValue)>, key: &str) -> (r: PerOs<StrMap>)
    ensures
        r.wf(),
        forall|os: Os| (#[trigger] r.at(os)).map() == os_map_arg(kw@, key@, os),
{
    match find_kw(kw, key) {
        Some(i) => match &kw[i].1 {
            ParsedValue::DictDict(p) => os_maps_from(p),
            _ => PerOs::<StrMap>::new(),
        },
        None => PerOs::<StrMap>::new(),
    }
}

/// The attributes of a Rust rule that the keyword arguments `kw` of its call give.
pub fn rust_attrs_from(kw: &Vec<(String, ParsedValue)>) -> (r: RustAttrs)
    ensures
        attrs_of(r, kw@),
{
    RustAttrs {
        name: string_arg(kw, "name"),
        srcs: labels_arg(kw, "srcs"),
        crate_name: string_arg(kw, "crate"),
        crate_root: string_arg(kw, "crate_root"),
        edition: string_arg(kw, "edition"),
        target_compatible_with: labels_arg(kw, "target_compatible_with"),
        compatible_with: labels_arg(kw, "compatible_with"),
        exec_compatible_with: labels_arg(kw, "exec_compatible_with"),
        env: strmap_arg(kw, "env"),
        features: labels_arg(kw, "features"),
        rustc_flags: labels_arg(kw, "rustc_flags"),
        visibility: labels_arg(kw, "visibility"),
        dep_attrs: DepAttrs {
            deps: labels_arg(kw, "deps"),
            named_deps: strmap_arg(kw, "named_deps"),
            os_deps: os_sets_arg(kw, "os_deps"),
            os_named_deps: os_maps_arg(kw, "os_named_deps"),
        },
    }
}

/// The build script run that the keyword arguments `kw` of its call give.
pub fn run_from(kw: &Vec<(String, ParsedValue)>) -> (r: BuildscriptRun)
    ensures
        run_of(r, kw@),
{
    BuildscriptRun {
        name: string_arg(kw, "name"),
        package_name: string_arg(kw, "package_name"),
        buildscript_rule: string_arg(kw, "buildscript_rule"),
        env: strmap_arg(kw, "env"),
        env_srcs: labels_arg(kw, "env_srcs"),
        features: labels_arg(kw, "features"),
        version: string_arg(kw, "version"),
        manifest_dir: string_arg(kw, "manifest_dir"),
        visibility: labels_arg(kw, "visibility"),
    }
}

/// The Rust rules of an existing build file, read from its calls: one rule
/// per call of `rust_library`, `rust_binary`, `rust_test` or
/// `buildscript_run`, in file order; other calls are passed over.
pub fn existing_rules_from_calls(calls: &Vec<ParsedCall>) -> (r: ExistingRules)
    ensures
        r.wf(),
        r.libraries@.len() == calls_of(calls@, "rust_library"@).len(),
        r.binaries@.len() == calls_of(calls@, "rust_binary"@).len(),
        r.tests@.len() == calls_of(calls@, "rust_test"@).len(),
        r.runs@.len() == calls_of(calls@, "buildscript_run"@).len(),
        forall|i: int| 0 <= i < r.libraries@.len() ==> attrs_of((#[trigger] r.libraries@[i]).attrs, calls_of(calls@, "rust_library"@)[i])
            && r.libraries@[i].proc_macro is None,
        forall|i: int| 0 <= i < r.binaries@.len() ==> attrs_of((#[trigger] r.binaries@[i]).attrs, calls_of(calls@, "rust_binary"@)[i]),
        forall|i: int| 0 <= i < r.tests@.len() ==> attrs_of((#[trigger] r.tests@[i]).attrs, calls_of(calls@, "rust_test"@)[i]),
        forall|i: int| 0 <= i < r.runs@.len() ==> run_of(#[trigger] r.runs@[i], calls_of(calls@, "buildscript_run"@)[i]),
{
    let mut r = ExistingRules { libraries: Vec::new(), binaries: Vec::new(), tests: Vec::new(), runs: Vec::new() };
    let mut k: usize = 0;
    while k < calls.len()
        invariant
            k <= calls@.len(),
            r.wf(),
            r.libraries@.len() == calls_of(calls@.subrange(0, k as int), "rust_library"@).len(),
            r.binaries@.len() == calls_of(calls@.subrange(0, k as int), "rust_binary"@).len(),
            r.tests@.len() == calls_of(calls@.subrange(0, k as int), "rust_test"@).len(),
            r.runs@.len() == calls_of(calls@.subrange(0, k as int), "buildscript_run"@).len(),
            forall|i: int| 0 <= i < r.libraries@.len() ==> attrs_of((#[trigger] r.libraries@[i]).attrs, calls_of(calls@.subrange(0, k as int), "rust_library"@)[i])
                && r.libraries@[i].proc_macro is None,
            forall|i: int| 0 <= i < r.binaries@.len() ==> attrs_of((#[trigger] r.binaries@[i]).attrs, calls_of(calls@.subrange(0, k as int), "rust_binary"@)[i]),
            forall|i: int| 0 <= i < r.tests@.len() ==> attrs_of((#[trigger] r.tests@[i]).attrs, calls_of(calls@.subrange(0, k as int), "rust_test"@)[i]),
            forall|i: int| 0 <= i < r.runs@.len() ==> run_of(#[trigger] r.runs@[i], calls_of(calls@.subrange(0, k as int), "buildscript_run"@)[i]),
        decreases calls.len() - k,
    {
        let call = &calls[k];
        let ghost sub = calls@.subrange(0, k + 1);
        proof {
            assert(sub.drop_last() =~= calls@.subrange(0, k as int));
            assert(sub.last() == calls@[k as int]);
        }
        let f = call.function.as_str();
        proof {
            reveal_strlit("rust_library");
            reveal_strlit("rust_binary");
            reveal_strlit("rust_test");
            reveal_strlit("buildscript_run");
            assert("rust_library"@.len() == 12 && "rust_binary"@.len() == 11 && "rust_test"@.len() == 9
                && "buildscript_run"@.len() == 15);
            assert("rust_library"@ != "rust_binary"@ && "rust_library"@ != "rust_test"@
                && "rust_binary"@ != "rust_test"@ && "buildscript_run"@ != "rust_library"@
                && "buildscript_run"@ != "rust_binary"@ && "buildscript_run"@ != "rust_test"@);
        }
        if str_eq(f, "rust_library") {
            let attrs = rust_attrs_from(&call.kwargs);
            r.libraries.push(RustLibrary { attrs, proc_macro: None });
        } else if str_eq(f, "rust_binary") {
            let attrs = rust_attrs_from(&call.kwargs);
            r.binaries.push(RustBinary { attrs });
        } else if str_eq(f, "rust_test") {
            let attrs = rust_attrs_from(&call.kwargs);
            r.tests.push(RustTest { attrs });
        } else if str_eq(f, "buildscript_run") {
            let run = run_from(&call.kwargs);
            r.runs.push(run);
        }
        proof {
            reveal_strlit("rust_library");
            reveal_strlit("rust_binary");
            reveal_strlit("rust_test");
            reveal_strlit("buildscript_run");
        }
        k = k + 1;
    }
    proof {
        assert(calls@.subrange(0, calls@.len() as int) =~= calls@);
    }
    r
}

} // verus!
