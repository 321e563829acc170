//! Selection of the build targets that a `build` invocation asks for.
use vstd::prelude::*;
use crate::collections::{strings_view, LabelSet};
use crate::text::{concat3, contains_seq, contains_str, starts_with, str_eq, substring};

verus! {

/// The Unicode `White_Space` characters, as `char::is_whitespace` has them.
pub open spec fn is_ws(c: char) -> bool {
    let u = c as u32;
    (9 <= u <= 13) || u == 32 || u == 0x85 || u == 0xa0 || u == 0x1680 || (0x2000 <= u <= 0x200a)
        || u == 0x2028 || u == 0x2029 || u == 0x202f || u == 0x205f || u == 0x3000
}

/// Whether `c` is whitespace.
pub fn is_whitespace(c: char) -> (r: bool)
    ensures
        r == is_ws(c),
{
    let u = c as u32;
    (9 <= u && u <= 13) || u == 32 || u == 0x85 || u == 0xa0 || u == 0x1680 || (0x2000 <= u && u
        <= 0x200a) || u == 0x2028 || u == 0x2029 || u == 0x202f || u == 0x205f || u == 0x3000
}

/// The first index at or after `i` that is not whitespace, or the length.
pub open spec fn skip_ws(s: Seq<char>, i: int) -> int
    decreases s.len() - i,
{
    if i >= s.len() {
        s.len() as int
    } else if is_ws(s[i]) {
        skip_ws(s, i + 1)
    } else {
        i
    }
}

/// The first index at or after `i` that is whitespace, or the length.
pub open spec fn token_end(s: Seq<char>, i: int) -> int
    decreases s.len() - i,
{
    if i >= s.len() {
        s.len() as int
    } else if is_ws(s[i]) {
        i
    } else {
        token_end(s, i + 1)
    }
}

/// The first whitespace-separated word of `s`, or `s` itself where it has none.
pub open spec fn first_word(s: Seq<char>) -> Seq<char> {
    let a = skip_ws(s, 0);
    if a >= s.len() {
        s
    } else {
        s.subrange(a, token_end(s, a))
    }
}

/// The index just after the last `:` before `i`, or 0.
pub open spec fn after_last_colon(s: Seq<char>, i: int) -> int
    decreases i,
{
    if i <= 0 {
        0
    } else if s[i - 1] == ':' {
        i
    } else {
        after_last_colon(s, i - 1)
    }
}

/// The name of a target from its label: what follows `//<relative_path>:`
/// where the label starts so, else what follows its last `:`. A trailing
/// description such as ` (rust_binary)` is left out.
pub open spec fn target_name_of(target: Seq<char>, relative_path: Seq<char>) -> Seq<char> {
    let path = first_word(target);
    let prefix = if relative_path.len() == 0 {
        "//:"@
    } else {
        "//"@ + relative_path + ":"@
    };
    if prefix.len() <= path.len() && path.subrange(0, prefix.len() as int) == prefix {
        path.subrange(prefix.len() as int, path.len() as int)
    } else {
        path.subrange(after_last_colon(path, path.len() as int), path.len() as int)
    }
}

/// The first whitespace-separated word of `s`, or `s` itself where it has none.
pub fn first_word_of(s: &str) -> (r: String)
    ensures
        r@ == first_word(s@),
{
    let n = s.unicode_len();
    let mut a: usize = 0;
    while a < n && is_whitespace(s.get_char(a))
        invariant
            n == s@.len(),
            a <= n,
            skip_ws(s@, 0) == skip_ws(s@, a as int),
        decreases n - a,
    {
        a = a + 1;
    }
    if a >= n {
        return String::from_str(s);
    }
    let mut b: usize = a;
    while b < n && !is_whitespace(s.get_char(b))
        invariant
            n == s@.len(),
            a <= b <= n,
            a == skip_ws(s@, 0),
            token_end(s@, a as int) == token_end(s@, b as int),
        decreases n - b,
    {
        b = b + 1;
    }
    substring(s, a, b)
}

/// The name of a target from its label: what follows `//<relative_path>:`
/// where the label starts so, else what follows its last `:`.
pub fn extract_target_name(target: &str, relative_path: &str) -> (r: String)
    ensures
        r@ == target_name_of(target@, relative_path@),
{
    let path = first_word_of(target);
    let prefix = if relative_path.unicode_len() == 0 {
        String::from_str("//:")
    } else {
        concat3("//", relative_path, ":")
    };
    let n = path.unicode_len();
    if starts_with(path.as_str(), prefix.as_str()) {
        let p = prefix.unicode_len();
        return substring(path.as_str(), p, n);
    }
    let mut i: usize = n;
    while i > 0 && path.as_str().get_char(i - 1) != ':'
        invariant
            n == path@.len(),
            i <= n,
            after_last_colon(path@, n as int) == after_last_colon(path@, i as int),
        decreases i,
    {
        i = i - 1;
    }
    substring(path.as_str(), i, n)
}

/// The characters of a regular expression that match `c` literally, or
/// stand for what `c` stands for in a glob pattern.
pub open spec fn glob_char_regex(c: char) -> Seq<char> {
    if c == '*' {
        ".*"@
    } else if c == '?' {
        "."@
    } else if c == '.' || c == '+' || c == '^' || c == '$' || c == '{' || c == '}' || c == '('
        || c == ')' || c == '|' || c == '\\' {
        seq!['\\', c]
    } else {
        seq![c]
    }
}

pub open spec fn glob_body_regex(g: Seq<char>) -> Seq<char>
    decreases g.len(),
{
    if g.len() == 0 {
        Seq::empty()
    } else {
        glob_body_regex(g.drop_last()) + glob_char_regex(g.last())
    }
}

/// The anchored regular expression of a glob pattern: `*` matches any run of
/// characters, `?` any one, `[...]` a class; the rest matches itself.
pub open spec fn glob_regex(g: Seq<char>) -> Seq<char> {
    "^"@ + glob_body_regex(g) + "$"@
}

/// The anchored regular expression of a glob pattern.
pub fn glob_to_regex(glob: &str) -> (r: String)
    ensures
        r@ == glob_regex(glob@),
{
    let n = glob.unicode_len();
    let mut out = String::from_str("^");
    let mut i: usize = 0;
    while i < n
        invariant
            n == glob@.len(),
            i <= n,
            out@ == "^"@ + glob_body_regex(glob@.subrange(0, i as int)),
        decreases n - i,
    {
        let c = glob.get_char(i);
        if c == '*' {
            out.append(".*");
        } else if c == '?' {
            out.append(".");
        } else if c == '.' || c == '+' || c == '^' || c == '$' || c == '{' || c == '}' || c == '('
            || c == ')' || c == '|' || c == '\\' {
            out.append("\\");
            out.append(crate::text::char_string(c).as_str());
        } else {
            out.append(crate::text::char_string(c).as_str());
        }
        proof {
            reveal_strlit("\\");
            assert(glob@.subrange(0, i + 1).drop_last() =~= glob@.subrange(0, i as int));
            assert(out@ =~= "^"@ + glob_body_regex(glob@.subrange(0, i + 1)));
        }
        i = i + 1;
    }
    out.append("$");
    proof {
        assert(glob@.subrange(0, n as int) =~= glob@);
    }
    out
}

/// Whether the regular expression `pattern` compiles and matches somewhere
/// in `text`; `false` where it does not compile.
pub uninterp spec fn regex_matches(pattern: Seq<char>, text: Seq<char>) -> bool;

/// Relies on `regex::Regex::new` and `Regex::is_match`: whether `pattern`
/// compiles and matches in `text`, a function of the two strings alone.
#[verifier::external_body]
fn regex_is_match(pattern: &str, text: &str) -> (r: bool)
    ensures
        r == regex_matches(pattern@, text@),
{
    regex::Regex::new(pattern).map(|re| re.is_match(text)).unwrap_or(false)
}

/// Whether a target name matches a pattern: equal to it, or matched by it
/// as a glob pattern.
pub open spec fn name_matches(name: Seq<char>, pattern: Seq<char>) -> bool {
    pattern == name || regex_matches(glob_regex(pattern), name)
}

/// Whether `target_name` matches `pattern`, exactly or as a glob pattern.
pub fn pattern_matches(target_name: &str, pattern: &str) -> (r: bool)
    ensures
        r == name_matches(target_name@, pattern@),
{
    if str_eq(pattern, target_name) {
        return true;
    }
    let re = glob_to_regex(pattern);
    regex_is_match(re.as_str(), target_name)
}

/// Which targets a selection looks for.
#[derive(Debug, Clone, Copy, PartialEq, Eq, Structural)]
pub enum TargetClass {
    Library,
    Binary,
    Example,
}

/// Whether a target with label `target` and name `name` is of class `class`,
/// as far as its label and name show it.
pub open spec fn in_class(target: Seq<char>, name: Seq<char>, class: TargetClass) -> bool {
    match class {
        TargetClass::Library => contains_seq(target, "rust_library"@) || contains_seq(name, "lib"@),
        TargetClass::Binary => contains_seq(target, "rust_binary"@) || ((contains_seq(name, "bin"@)
            || contains_seq(name, "app"@) || contains_seq(name, "main"@) || contains_seq(
            name,
            "tool"@,
        )) && !contains_seq(name, "example"@)),
        TargetClass::Example => contains_seq(name, "example"@),
    }
}

fn is_in_class(target: &str, name: &str, class: TargetClass) -> (r: bool)
    ensures
        r == in_class(target@, name@, class),
{
    match class {
        TargetClass::Library => contains_str(target, "rust_library") || contains_str(name, "lib"),
        TargetClass::Binary => contains_str(target, "rust_binary") || ((contains_str(name, "bin")
            || contains_str(name, "app") || contains_str(name, "main") || contains_str(name, "tool"))
            && !contains_str(name, "example")),
        TargetClass::Example => contains_str(name, "example"),
    }
}

/// The targets of `ts` of class `class`, in order.
pub open spec fn of_class(ts: Seq<Seq<char>>, rel: Seq<char>, class: TargetClass) -> Seq<Seq<char>>
    decreases ts.len(),
{
    if ts.len() == 0 {
        Seq::empty()
    } else if in_class(ts.last(), target_name_of(ts.last(), rel), class) {
        of_class(ts.drop_last(), rel, class).push(ts.last())
    } else {
        of_class(ts.drop_last(), rel, class)
    }
}

/// The targets of `available` of class `class`, in order.
pub fn targets_of_class(available: &Vec<String>, relative_path: &str, class: TargetClass) -> (r:
    Vec<String>)
    ensures
        strings_view(r@) == of_class(strings_view(available@), relative_path@, class),
{
    let ghost ts = strings_view(available@);
    let mut r: Vec<String> = Vec::new();
    let mut i: usize = 0;
    while i < available.len()
        invariant
            ts == strings_view(available@),
            i <= ts.len(),
            strings_view(r@) == of_class(ts.subrange(0, i as int), relative_path@, class),
        decreases ts.len() - i,
    {
        let t = &available[i];
        let name = extract_target_name(t.as_str(), relative_path);
        proof {
            assert(ts.subrange(0, i + 1).drop_last() =~= ts.subrange(0, i as int));
            assert(ts.subrange(0, i + 1).last() == t@);
        }
        if is_in_class(t.as_str(), name.as_str(), class) {
            r.push(t.clone());
        }
        proof {
            assert(strings_view(r@) =~= of_class(ts.subrange(0, i + 1), relative_path@, class));
        }
        i = i + 1;
    }
    proof {
        assert(ts.subrange(0, ts.len() as int) =~= ts);
    }
    r
}

/// The library targets among `available`.
pub fn get_library_targets(available: &Vec<String>, relative_path: &str) -> (r: Vec<String>)
    ensures
        strings_view(r@) == of_class(strings_view(available@), relative_path@, TargetClass::Library),
{
    targets_of_class(available, relative_path, TargetClass::Library)
}

/// The targets of `ts` whose names match `pattern`, in order.
pub open spec fn matching(ts: Seq<Seq<char>>, rel: Seq<char>, pattern: Seq<char>) -> Seq<Seq<char>>
    decreases ts.len(),
{
    if ts.len() == 0 {
        Seq::empty()
    } else if name_matches(target_name_of(ts.last(), rel), pattern) {
        matching(ts.drop_last(), rel, pattern).push(ts.last())
    } else {
        matching(ts.drop_last(), rel, pattern)
    }
}

/// For each pattern in turn, the targets of `ts` whose names match it.
pub open spec fn matching_all(ts: Seq<Seq<char>>, rel: Seq<char>, patterns: Seq<Seq<char>>) -> Seq<
    Seq<char>,
>
    decreases patterns.len(),
{
    if patterns.len() == 0 {
        Seq::empty()
    } else {
        matching_all(ts, rel, patterns.drop_last()) + matching(ts, rel, patterns.last())
    }
}

fn append_matching(out: &mut Vec<String>, ts: &Vec<String>, relative_path: &str, pattern: &str)
    ensures
        strings_view(final(out)@) == strings_view(old(out)@) + matching(
            strings_view(ts@),
            relative_path@,
            pattern@,
        ),
{
    let ghost start = strings_view(out@);
    let ghost s = strings_view(ts@);
    let mut i: usize = 0;
    while i < ts.len()
        invariant
            s == strings_view(ts@),
            i <= s.len(),
            strings_view(out@) == start + matching(s.subrange(0, i as int), relative_path@, pattern@),
        decreases s.len() - i,
    {
        let t = &ts[i];
        let name = extract_target_name(t.as_str(), relative_path);
        proof {
            assert(s.subrange(0, i + 1).drop_last() =~= s.subrange(0, i as int));
            assert(s.subrange(0, i + 1).last() == t@);
        }
        let ghost before = strings_view(out@);
        if pattern_matches(name.as_str(), pattern) {
            out.push(t.clone());
            proof {
                assert(strings_view(out@) =~= before.push(t@));
                assert(matching(s.subrange(0, i + 1), relative_path@, pattern@) == matching(s.subrange(0, i as int), relative_path@, pattern@).push(t@));
            }
        } else {
            proof {
                assert(matching(s.subrange(0, i + 1), relative_path@, pattern@) == matching(s.subrange(0, i as int), relative_path@, pattern@));
            }
        }
        proof {
            assert(strings_view(out@) =~= start + matching(s.subrange(0, i + 1), relative_path@, pattern@));
        }
        i = i + 1;
    }
    proof {
        assert(s.subrange(0, s.len() as int) =~= s);
    }
}

/// The targets of class `class`: all of them where `all` is set, else for
/// each pattern in turn those whose names match it.
pub open spec fn selection(
    available: Seq<Seq<char>>,
    rel: Seq<char>,
    patterns: Seq<Seq<char>>,
    all: bool,
    class: TargetClass,
) -> Seq<Seq<char>> {
    if all {
        of_class(available, rel, class)
    } else {
        matching_all(of_class(available, rel, class), rel, patterns)
    }
}

fn select_targets(
    available: &Vec<String>,
    relative_path: &str,
    patterns: &Vec<String>,
    all: bool,
    class: TargetClass,
) -> (r: Vec<String>)
    ensures
        strings_view(r@) == selection(
            strings_view(available@),
            relative_path@,
            strings_view(patterns@),
            all,
            class,
        ),
{
    let candidates = targets_of_class(available, relative_path, class);
    if all {
        return candidates;
    }
    let ghost ps = strings_view(patterns@);
    let mut out: Vec<String> = Vec::new();
    let mut k: usize = 0;
    proof {
        assert(strings_view(out@) =~= Seq::<Seq<char>>::empty());
    }
    while k < patterns.len()
        invariant
            ps == strings_view(patterns@),
            k <= ps.len(),
            strings_view(candidates@) == of_class(strings_view(available@), relative_path@, class),
            strings_view(out@) == matching_all(strings_view(candidates@), relative_path@, ps.subrange(0, k as int)),
        decreases ps.len() - k,
    {
        append_matching(&mut out, &candidates, relative_path, patterns[k].as_str());
        proof {
            assert(ps.subrange(0, k + 1).drop_last() =~= ps.subrange(0, k as int));
            assert(ps.subrange(0, k + 1).last() == patterns@[k as int]@);
        }
        k = k + 1;
    }
    proof {
        assert(ps.subrange(0, ps.len() as int) =~= ps);
    }
    out
}

/// The binary targets: all of them where `all_bins` is set, else those whose
/// names match one of `bin_patterns`, pattern by pattern.
pub fn get_binary_targets(
    available: &Vec<String>,
    relative_path: &str,
    bin_patterns: &Vec<String>,
    all_bins: bool,
) -> (r: Vec<String>)
    ensures
        strings_view(r@) == selection(
            strings_view(available@),
            relative_path@,
            strings_view(bin_patterns@),
            all_bins,
            TargetClass::Binary,
        ),
{
    select_targets(available, relative_path, bin_patterns, all_bins, TargetClass::Binary)
}

/// The example targets: all of them where `all_examples` is set, else those
/// whose names match one of `example_patterns`, pattern by pattern.
pub fn get_example_targets(
    available: &Vec<String>,
    relative_path: &str,
    example_patterns: &Vec<String>,
    all_examples: bool,
) -> (r: Vec<String>)
    ensures
        strings_view(r@) == selection(
            strings_view(available@),
            relative_path@,
            strings_view(example_patterns@),
            all_examples,
            TargetClass::Example,
        ),
{
    select_targets(available, relative_path, example_patterns, all_examples, TargetClass::Example)
}

/// The target selection of a `build` invocation.
pub struct BuildArgs {
    pub release: bool,
    pub verbose: u8,
    pub lib: bool,
    pub bin: Vec<String>,
    pub bins: bool,
    pub example: Vec<String>,
    pub examples: bool,
    pub all_targets: bool,
    pub target_platforms: Option<String>,
}

impl BuildArgs {
    pub open spec fn selects_other(&self) -> bool {
        self.lib || self.bins || self.bin@.len() > 0 || self.examples || self.example@.len() > 0
    }

    /// Whether any target selection is given.
    pub fn has_target_selection(&self) -> (r: bool)
        ensures
            r == (self.selects_other() || self.all_targets),
    {
        self.lib || self.bins || self.bin.len() > 0 || self.examples || self.example.len() > 0
            || self.all_targets
    }

    /// Whether a target selection other than `all_targets` is given.
    pub fn has_other_target_selection(&self) -> (r: bool)
        ensures
            r == self.selects_other(),
    {
        self.lib || self.bins || self.bin.len() > 0 || self.examples || self.example.len() > 0
    }

    /// Fails where `all_targets` comes with another selection.
    pub fn validate_target_selection(&self) -> (r: Result<(), String>)
        ensures
            r is Err <==> (self.all_targets && self.selects_other()),
    {
        if self.all_targets && self.has_other_target_selection() {
            return Err(
                String::from_str("--all-targets cannot be used with other target selection options"),
            );
        }
        Ok(())
    }
}

/// The sorted, duplicate-free list of `targets`.
pub fn sort_dedup(targets: Vec<String>) -> (r: Vec<String>)
    ensures
        crate::collections::strictly_sorted(strings_view(r@)),
        strings_view(r@).to_set() == strings_view(targets@).to_set(),
{
    let mut set = LabelSet::new();
    let mut i: usize = 0;
    while i < targets.len()
        invariant
            set.wf(),
            i <= targets@.len(),
            set.members() == strings_view(targets@).subrange(0, i as int).to_set(),
        decreases targets.len() - i,
    {
        set.insert(targets[i].clone());
        proof {
            let s = strings_view(targets@);
            Seq::lemma_to_set_insert_commutes(s.subrange(0, i as int), s[i as int]);
            assert(s.subrange(0, i as int) + seq![s[i as int]] =~= s.subrange(0, i + 1));
        }
        i = i + 1;
    }
    proof {
        assert(strings_view(targets@).subrange(0, targets@.len() as int) =~= strings_view(targets@));
    }
    set.items
}

/// The targets that the selection in `args` asks for among `available`:
/// libraries, binaries and examples as selected, sorted, without duplicates.
pub fn build_specific_targets(args: &BuildArgs, available: &Vec<String>, relative_path: &str) -> (r:
    Vec<String>)
    ensures
        crate::collections::strictly_sorted(strings_view(r@)),
        strings_view(r@).to_set() == (if args.lib {
            of_class(strings_view(available@), relative_path@, TargetClass::Library).to_set()
        } else {
            Set::empty()
        }).union(if args.bins || args.bin@.len() > 0 {
            selection(strings_view(available@), relative_path@, strings_view(args.bin@), args.bins, TargetClass::Binary).to_set()
        } else {
            Set::empty()
        }).union(if args.examples || args.example@.len() > 0 {
            selection(strings_view(available@), relative_path@, strings_view(args.example@), args.examples, TargetClass::Example).to_set()
        } else {
            Set::empty()
        }),
{
    let mut targets: Vec<String> = Vec::new();
    let ghost empty = Seq::<Seq<char>>::empty();
    let lib = if args.lib {
        get_library_targets(available, relative_path)
    } else {
        Vec::new()
    };
    let bins = if args.bins || args.bin.len() > 0 {
        get_binary_targets(available, relative_path, &args.bin, args.bins)
    } else {
        Vec::new()
    };
    let examples = if args.examples || args.example.len() > 0 {
        get_example_targets(available, relative_path, &args.example, args.examples)
    } else {
        Vec::new()
    };
    let mut lib = lib;
    let mut bins = bins;
    let mut examples = examples;
    let ghost (l, b, e) = (strings_view(lib@), strings_view(bins@), strings_view(examples@));
    targets.append(&mut lib);
    targets.append(&mut bins);
    targets.append(&mut examples);
    proof {
        assert(strings_view(targets@) =~= l + b + e);
        assert((l + b + e).to_set() =~= l.to_set().union(b.to_set()).union(e.to_set())) by {
            assert forall|x: Seq<char>| (l + b + e).contains(x) <==> l.contains(x) || b.contains(x) || e.contains(x) by {
                if (l + b + e).contains(x) {
                    let k = choose|k: int| 0 <= k < (l + b + e).len() && (l + b + e)[k] == x;
                    if k < l.len() {
                        assert(l[k] == x);
                    } else if k < l.len() + b.len() {
                        assert(b[k - l.len()] == x);
                    } else {
                        assert(e[k - l.len() - b.len()] == x);
                    }
                }
                if l.contains(x) {
                    let k = choose|k: int| 0 <= k < l.len() && l[k] == x;
                    assert((l + b + e)[k] == x);
                }
                if b.contains(x) {
                    let k = choose|k: int| 0 <= k < b.len() && b[k] == x;
                    assert((l + b + e)[l.len() + k] == x);
                }
                if e.contains(x) {
                    let k = choose|k: int| 0 <= k < e.len() && e[k] == x;
                    assert((l + b + e)[l.len() + b.len() + k] == x);
                }
            }
        }
        if !args.lib {
            assert(l.to_set() =~= Set::empty());
        }
        if !(args.bins || args.bin@.len() > 0) {
            assert(b.to_set() =~= Set::empty());
        }
        if !(args.examples || args.example@.len() > 0) {
            assert(e.to_set() =~= Set::empty());
        }
    }
    sort_dedup(targets)
}

/// Whether a label names a target of the vendored third-party packages, the
/// toolchains or the platforms.
pub open spec fn is_infrastructure(t: Seq<char>) -> bool {
    (t.len() >= 14 && t.subrange(0, 14) == "//third-party/"@) || (t.len() >= 13 && t.subrange(0, 13)
        == "//toolchains/"@) || (t.len() >= 12 && t.subrange(0, 12) == "//platforms/"@)
}

/// The targets to build from the root: `targets` without those of the
/// vendored packages, the toolchains and the platforms. Below the root all
/// of `targets` stay.
pub fn filter_root_third_party(targets: Vec<String>, relative_path: &str) -> (r: Vec<String>)
    ensures
        relative_path@.len() > 0 ==> r@ == targets@,
        relative_path@.len() == 0 ==> strings_view(r@) == strings_view(targets@).filter(
            |t: Seq<char>| !is_infrastructure(t),
        ),
{
    if relative_path.unicode_len() > 0 {
        return targets;
    }
    let ghost s = strings_view(targets@);
    let ghost f = |t: Seq<char>| !is_infrastructure(t);
    let mut out: Vec<String> = Vec::new();
    let mut i: usize = 0;
    proof {
        reveal_strlit("//third-party/");
        reveal_strlit("//toolchains/");
        reveal_strlit("//platforms/");
        assert(s.subrange(0, 0).filter(f) =~= Seq::<Seq<char>>::empty());
        assert(strings_view(out@) =~= Seq::<Seq<char>>::empty());
    }
    while i < targets.len()
        invariant
            s == strings_view(targets@),
            f == (|t: Seq<char>| !is_infrastructure(t)),
            i <= s.len(),
            strings_view(out@) == s.subrange(0, i as int).filter(f),
        decreases s.len() - i,
    {
        let t = &targets[i];
        let keep = !starts_with(t.as_str(), "//third-party/") && !starts_with(t.as_str(), "//toolchains/")
            && !starts_with(t.as_str(), "//platforms/");
        proof {
            reveal_strlit("//third-party/");
            reveal_strlit("//toolchains/");
            reveal_strlit("//platforms/");
            assert(s.subrange(0, i + 1) =~= s.subrange(0, i as int).push(t@));
            s.subrange(0, i as int).lemma_filter_push(t@, f);
        }
        if keep {
            out.push(t.clone());
        }
        proof {
            assert(strings_view(out@) =~= s.subrange(0, i + 1).filter(f));
        }
        i = i + 1;
    }
    proof {
        assert(s.subrange(0, s.len() as int) =~= s);
    }
    out
}

} // verus!
