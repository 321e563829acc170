//! Decisions of the command-line front end: test target selection, package
//! specifications, version strings and prerequisite checks.
use vstd::prelude::*;
use crate::collections::strings_view;
use crate::text::{concat2, concat3, contains_seq, contains_str, find_char, replace_char, replaced, str_eq, substring};

verus! {

/// Whether glob pattern `p` matches all of `t`: `*` matches any run of
/// characters, `?` any one character, anything else itself.
pub open spec fn glob_matches(p: Seq<char>, t: Seq<char>) -> bool
    decreases p.len() + t.len(),
{
    if p.len() == 0 {
        t.len() == 0
    } else if p[0] == '*' {
        glob_matches(p.drop_first(), t) || (t.len() > 0 && glob_matches(p, t.drop_first()))
    } else {
        t.len() > 0 && (p[0] == '?' || p[0] == t[0]) && glob_matches(p.drop_first(), t.drop_first())
    }
}

proof fn lemma_glob_step(p: Seq<char>, t: Seq<char>, i: int, j: int)
    requires
        0 <= i < p.len(),
        0 <= j <= t.len(),
    ensures
        glob_matches(p.skip(i), t.skip(j)) == if p[i] == '*' {
            glob_matches(p.skip(i + 1), t.skip(j)) || (j < t.len() && glob_matches(
                p.skip(i),
                t.skip(j + 1),
            ))
        } else {
            j < t.len() && (p[i] == '?' || p[i] == t[j]) && glob_matches(p.skip(i + 1), t.skip(j + 1))
        },
{
    assert(p.skip(i).drop_first() =~= p.skip(i + 1));
    if j < t.len() {
        assert(t.skip(j).drop_first() =~= t.skip(j + 1));
    }
}

/// Whether glob pattern `pattern` matches all of `text`.
pub fn glob_match(pattern: &str, text: &str) -> (r: bool)
    ensures
        r == glob_matches(pattern@, text@),
{
    let m = pattern.unicode_len();
    let n = text.unicode_len();
    let ghost p = pattern@;
    let ghost t = text@;
    if n >= usize::MAX {
        return glob_match_slow(pattern, text);
    }
    // `next[j]` says whether the pattern from `i + 1` on matches the text from `j` on.
    let mut next: Vec<bool> = Vec::new();
    let mut j: usize = 0;
    while j <= n
        invariant
            n == t.len(),
            n < usize::MAX,
            j <= n + 1,
            next@.len() == j,
            forall|k: int| 0 <= k < j ==> next@[k] == (k == n),
        decreases n + 1 - j,
    {
        next.push(j == n);
        j = j + 1;
    }
    proof {
        assert forall|k: int| 0 <= k <= n implies next@[k] == glob_matches(p.skip(m as int), t.skip(k)) by {
            assert(p.skip(m as int).len() == 0);
        }
    }
    let mut i: usize = m;
    while i > 0
        invariant
            m == p.len(),
            n == t.len(),
            n < usize::MAX,
            p == pattern@,
            t == text@,
            i <= m,
            next@.len() == n + 1,
            forall|k: int| 0 <= k <= n ==> next@[k] == glob_matches(p.skip(i as int), #[trigger] t.skip(k)),
        decreases i,
    {
        let c = pattern.get_char(i - 1);
        let mut cur: Vec<bool> = next.clone();
        let mut jj: usize = n + 1;
        while jj > 0
            invariant
                m == p.len(),
                n == t.len(),
                n < usize::MAX,
                p == pattern@,
                t == text@,
                0 < i <= m,
                c == p[i - 1],
                jj <= n + 1,
                cur@.len() == n + 1,
                next@.len() == n + 1,
                forall|k: int| 0 <= k <= n ==> next@[k] == glob_matches(p.skip(i as int), #[trigger] t.skip(k)),
                forall|k: int| jj <= k <= n ==> cur@[k] == glob_matches(p.skip(i - 1), #[trigger] t.skip(k)),
            decreases jj,
        {
            let j = jj - 1;
            let v = if c == '*' {
                next[j] || (j < n && cur[j + 1])
            } else {
                j < n && (c == '?' || c == text.get_char(j)) && next[j + 1]
            };
            proof {
                lemma_glob_step(p, t, i - 1, j as int);
            }
            cur.set(j, v);
            jj = j;
        }
        next = cur;
        i = i - 1;
    }
    proof {
        assert(p.skip(0) =~= p);
        assert(t.skip(0) =~= t);
    }
    next[0]
}

/// The same as `glob_match`, for texts too long for a table of positions.
fn glob_match_slow(pattern: &str, text: &str) -> (r: bool)
    ensures
        r == glob_matches(pattern@, text@),
    decreases pattern@.len() + text@.len(),
{
    let m = pattern.unicode_len();
    let n = text.unicode_len();
    if m == 0 {
        return n == 0;
    }
    let c = pattern.get_char(0);
    let prest = substring(pattern, 1, m);
    proof {
        assert(prest@ =~= pattern@.drop_first());
    }
    if c == '*' {
        if glob_match_slow(prest.as_str(), text) {
            return true;
        }
        if n == 0 {
            return false;
        }
        let trest = substring(text, 1, n);
        proof {
            assert(trest@ =~= text@.drop_first());
        }
        glob_match_slow(pattern, trest.as_str())
    } else {
        if n == 0 {
            return false;
        }
        let d = text.get_char(0);
        if !(c == '?' || c == d) {
            return false;
        }
        let trest = substring(text, 1, n);
        proof {
            assert(trest@ =~= text@.drop_first());
        }
        glob_match_slow(prest.as_str(), trest.as_str())
    }
}

/// Whether `s` holds a wildcard: `*` or `?`.
pub fn is_glob_pattern(s: &str) -> (r: bool)
    ensures
        r == (s@.contains('*') || s@.contains('?')),
{
    let star = find_char(s, '*');
    let question = find_char(s, '?');
    proof {
        if s@.contains('*') {
            let k = choose|k: int| 0 <= k < s@.len() && s@[k] == '*';
        }
        if s@.contains('?') {
            let k = choose|k: int| 0 <= k < s@.len() && s@[k] == '?';
        }
    }
    star.is_some() || question.is_some()
}

/// The number of `/` that `s` starts with.
pub open spec fn leading_slashes(s: Seq<char>, i: int) -> int
    decreases s.len() - i,
{
    if i >= s.len() || s[i] != '/' {
        i
    } else {
        leading_slashes(s, i + 1)
    }
}

/// The Buck2 pattern of every target under `rel_path`, a directory relative
/// to the project root.
pub open spec fn buck2_pattern(rel_path: Seq<char>) -> Seq<char> {
    let normalized = replaced(rel_path, '\\', '/');
    let trimmed = normalized.subrange(leading_slashes(normalized, 0), normalized.len() as int);
    if trimmed.len() == 0 {
        "//..."@
    } else {
        "//"@ + trimmed + "/..."@
    }
}

/// The Buck2 pattern of every target under `rel_path`.
pub fn format_buck2_pattern(rel_path: &str) -> (r: String)
    ensures
        r@ == buck2_pattern(rel_path@),
{
    let normalized = replace_char(rel_path, '\\', '/');
    let n = normalized.unicode_len();
    let mut i: usize = 0;
    while i < n && normalized.as_str().get_char(i) == '/'
        invariant
            n == normalized@.len(),
            i <= n,
            leading_slashes(normalized@, 0) == leading_slashes(normalized@, i as int),
        decreases n - i,
    {
        i = i + 1;
    }
    let trimmed = substring(normalized.as_str(), i, n);
    if trimmed.unicode_len() == 0 {
        String::from_str("//...")
    } else {
        concat3("//", trimmed.as_str(), "/...")
    }
}

/// Whether a test target named `target_name` with source file stem
/// `file_stem` is the one that `selector` names: by glob pattern where it has
/// a wildcard, else by name or file stem, `-` and `_` alike.
pub open spec fn test_selected(selector: Seq<char>, target_name: Seq<char>, file_stem: Seq<char>) -> bool {
    if selector.contains('*') || selector.contains('?') {
        glob_matches(selector, target_name)
    } else {
        replaced(target_name, '-', '_') == replaced(selector, '-', '_') || replaced(file_stem, '-', '_')
            == replaced(selector, '-', '_')
    }
}

/// Whether `selector` names the test target `target_name` with source file stem `file_stem`.
pub fn matches_test_selector(selector: &str, target_name: &str, file_stem: &str) -> (r: bool)
    ensures
        r == test_selected(selector@, target_name@, file_stem@),
{
    if is_glob_pattern(selector) {
        glob_match(selector, target_name)
    } else {
        let sel = replace_char(selector, '-', '_');
        let name = replace_char(target_name, '-', '_');
        let stem = replace_char(file_stem, '-', '_');
        str_eq(name.as_str(), sel.as_str()) || str_eq(stem.as_str(), sel.as_str())
    }
}

/// The target selection of a `test` invocation.
pub struct TestArgs {
    pub package: Vec<String>,
    pub workspace: bool,
    pub exclude: Vec<String>,
    pub all_targets: bool,
    pub lib: bool,
    pub bin: Vec<String>,
    pub bins: bool,
    pub example: Vec<String>,
    pub examples: bool,
    pub test: Vec<String>,
    pub tests: bool,
    pub no_run: bool,
    pub no_fail_fast: bool,
    pub jobs: Option<usize>,
    pub target: Option<String>,
    pub target_platforms: Option<String>,
    pub release: bool,
    pub test_name: Option<String>,
    pub args: Vec<String>,
}

/// Whether one of `selectors` names `name`: by glob pattern where it has a
/// wildcard, else exactly.
pub open spec fn named_by(selectors: Seq<Seq<char>>, name: Seq<char>) -> bool {
    exists|k: int|
        0 <= k < selectors.len() && if (#[trigger] selectors[k]).contains('*') || selectors[k].contains('?') {
            glob_matches(selectors[k], name)
        } else {
            selectors[k] == name
        }
}

fn any_names(selectors: &Vec<String>, name: &str) -> (r: bool)
    ensures
        r == named_by(strings_view(selectors@), name@),
{
    let ghost s = strings_view(selectors@);
    let mut k: usize = 0;
    while k < selectors.len()
        invariant
            s == strings_view(selectors@),
            k <= s.len(),
            forall|q: int|
                0 <= q < k ==> !(if (#[trigger] s[q]).contains('*') || s[q].contains('?') {
                    glob_matches(s[q], name@)
                } else {
                    s[q] == name@
                }),
        decreases s.len() - k,
    {
        let sel = selectors[k].as_str();
        let hit = if is_glob_pattern(sel) {
            glob_match(sel, name)
        } else {
            str_eq(sel, name)
        };
        proof {
            assert(s[k as int] == sel@);
        }
        if hit {
            return true;
        }
        k = k + 1;
    }
    false
}

impl TestArgs {
    /// Whether a kind of target is selected: libraries, binaries or examples.
    pub open spec fn selects_kind(&self) -> bool {
        self.lib || self.bins || self.bin@.len() > 0 || self.examples || self.example@.len() > 0
    }

    /// Whether any kind of target is selected.
    pub fn has_kind_selection(&self) -> (r: bool)
        ensures
            r == self.selects_kind(),
    {
        self.lib || self.bins || self.bin.len() > 0 || self.examples || self.example.len() > 0
    }

    /// For a target named `name` that is a library (`is_lib`), a binary
    /// (`is_bin`) or an example (`is_example`): whether the kind selection
    /// takes it, and whether it was named by a `--bin` or `--example` selector.
    pub fn kind_selects(&self, name: &str, is_lib: bool, is_bin: bool, is_example: bool) -> (r: (
        bool,
        bool,
    ))
        ensures
            r.1 == ((is_bin && !self.bins && named_by(strings_view(self.bin@), name@)) || (is_example
                && !self.examples && named_by(strings_view(self.example@), name@))),
            r.0 == ((self.lib && is_lib) || (is_bin && self.bins) || (is_example && self.examples)
                || r.1),
    {
        let mut matches = self.lib && is_lib;
        let mut specific = false;
        if is_bin {
            if self.bins {
                matches = true;
            } else if any_names(&self.bin, name) {
                matches = true;
                specific = true;
            }
        }
        if is_example {
            if self.examples {
                matches = true;
            } else if any_names(&self.example, name) {
                matches = true;
                specific = true;
            }
        }
        (matches, specific)
    }
}

/// The patterns that do not point into the vendored third-party packages.
pub fn drop_third_party(patterns: Vec<String>) -> (r: Vec<String>)
    ensures
        strings_view(r@) == strings_view(patterns@).filter(|p: Seq<char>| !contains_seq(p, "third-party"@)),
{
    let ghost s = strings_view(patterns@);
    let ghost f = |p: Seq<char>| !contains_seq(p, "third-party"@);
    let mut out: Vec<String> = Vec::new();
    let mut i: usize = 0;
    proof {
        assert(s.subrange(0, 0).filter(f) =~= Seq::<Seq<char>>::empty());
        assert(strings_view(out@) =~= Seq::<Seq<char>>::empty());
    }
    while i < patterns.len()
        invariant
            s == strings_view(patterns@),
            f == (|p: Seq<char>| !contains_seq(p, "third-party"@)),
            i <= s.len(),
            strings_view(out@) == s.subrange(0, i as int).filter(f),
        decreases s.len() - i,
    {
        let p = &patterns[i];
        proof {
            assert(s.subrange(0, i + 1) =~= s.subrange(0, i as int).push(p@));
            s.subrange(0, i as int).lemma_filter_push(p@, f);
        }
        if !contains_str(p.as_str(), "third-party") {
            out.push(p.clone());
        }
        proof {
            assert(strings_view(out@) =~= s.subrange(0, i + 1).filter(f));
        }
        i = i + 1;
    }
    proof {
        assert(s.subrange(0, s.len() as int) =~= s);
    }
    out
}

/// A package specification `name@version` split at its first `@`.
pub open spec fn split_spec(spec: Seq<char>) -> (Seq<char>, Option<Seq<char>>) {
    if spec.contains('@') {
        let i = choose|i: int| 0 <= i < spec.len() && spec[i] == '@' && forall|k: int| 0 <= k < i ==> spec[k] != '@';
        (spec.subrange(0, i), Some(spec.subrange(i + 1, spec.len() as int)))
    } else {
        (spec, None)
    }
}

fn split_at_first_at(spec: &str) -> (r: (String, Option<String>))
    ensures
        r.0@ == split_spec(spec@).0,
        match r.1 {
            Some(v) => split_spec(spec@).1 == Some(v@),
            None => split_spec(spec@).1 is None,
        },
{
    let n = spec.unicode_len();
    match find_char(spec, '@') {
        Some(i) => {
            proof {
                assert(spec@.contains('@'));
                let j = choose|j: int| 0 <= j < spec@.len() && spec@[j] == '@' && forall|k: int| 0 <= k < j ==> spec@[k] != '@';
                if j < i {
                } else if j > i {
                }
                assert(j == i);
            }
            (substring(spec, 0, i), Some(substring(spec, i + 1, n)))
        },
        None => {
            proof {
                if spec@.contains('@') {
                    let k = choose|k: int| 0 <= k < spec@.len() && spec@[k] == '@';
                }
            }
            (String::from_str(spec), None)
        },
    }
}

/// The name and, where given, the version of a dependency to add.
pub fn parse_package_spec(spec: &str) -> (r: (String, Option<String>))
    ensures
        r.0@ == split_spec(spec@).0,
        match r.1 {
            Some(v) => split_spec(spec@).1 == Some(v@),
            None => split_spec(spec@).1 is None,
        },
{
    split_at_first_at(spec)
}

/// The name and, where given, the version of a dependency to patch.
pub fn parse_patch_spec(spec: &str) -> (r: (String, Option<String>))
    ensures
        r.0@ == split_spec(spec@).0,
        match r.1 {
            Some(v) => split_spec(spec@).1 == Some(v@),
            None => split_spec(spec@).1 is None,
        },
{
    split_at_first_at(spec)
}

/// The version string: the package version, then the commit and its date,
/// `unknown` where they were not recorded.
pub fn build_version(pkg_version: &str, git_hash: Option<&str>, commit_date: Option<&str>) -> (r:
    String)
    ensures
        r@ == pkg_version@ + " ("@ + (match git_hash {
            Some(h) => h@,
            None => "unknown"@,
        }) + " "@ + (match commit_date {
            Some(d) => d@,
            None => "unknown"@,
        }) + ")"@,
{
    let hash = match git_hash {
        Some(h) => h,
        None => "unknown",
    };
    let date = match commit_date {
        Some(d) => d,
        None => "unknown",
    };
    let mut s = concat3(pkg_version, " (", hash);
    s.append(" ");
    s.append(date);
    s.append(")");
    s
}

/// The user agent of requests: `buckal/` and the package version.
pub fn user_agent(pkg_version: &str) -> (r: String)
    ensures
        r@ == "buckal/"@ + pkg_version@,
{
    concat2("buckal/", pkg_version)
}

/// A tool that the commands need and that is missing.
#[derive(Debug, Clone, Copy, PartialEq, Eq, Structural)]
pub enum MissingTool {
    Rustc,
    Buck2,
    Python3,
}

/// What to tell the user of a missing tool.
pub open spec fn missing_message(t: MissingTool) -> Seq<char> {
    match t {
        MissingTool::Rustc => "rustc is required but not installed. Please install Rust and try again."@,
        MissingTool::Buck2 => "Buck2 is required but not installed. Please install Buck2 and try again."@,
        MissingTool::Python3 => "Python 3 is required but not installed. Please install Python 3 and try again."@,
    }
}

impl MissingTool {
    /// What to tell the user.
    pub fn message(self) -> (r: &'static str)
        ensures
            r@ == missing_message(self),
    {
        match self {
            MissingTool::Rustc => "rustc is required but not installed. Please install Rust and try again.",
            MissingTool::Buck2 => "Buck2 is required but not installed. Please install Buck2 and try again.",
            MissingTool::Python3 => "Python 3 is required but not installed. Please install Python 3 and try again.",
        }
    }
}

/// Fails where the Rust compiler was not found.
pub fn ensure_rustc_installed(found: bool) -> (r: Result<(), MissingTool>)
    ensures
        r is Ok <==> found,
        r is Err ==> r == Err::<(), MissingTool>(MissingTool::Rustc),
{
    if found {
        Ok(())
    } else {
        Err(MissingTool::Rustc)
    }
}

/// Fails where Python 3 was not found.
pub fn ensure_python3_installed(found: bool) -> (r: Result<(), MissingTool>)
    ensures
        r is Ok <==> found,
        r is Err ==> r == Err::<(), MissingTool>(MissingTool::Python3),
{
    if found {
        Ok(())
    } else {
        Err(MissingTool::Python3)
    }
}

/// Fails where Buck2 was neither found nor installed when the user was
/// offered to install it.
pub fn ensure_buck2_installed(found: bool, installed_on_prompt: bool) -> (r: Result<(), MissingTool>)
    ensures
        r is Ok <==> (found || installed_on_prompt),
        r is Err ==> r == Err::<(), MissingTool>(MissingTool::Buck2),
{
    if found || installed_on_prompt {
        Ok(())
    } else {
        Err(MissingTool::Buck2)
    }
}

/// The first missing tool, in the order rustc, Buck2, Python 3.
pub fn ensure_prerequisites(rustc: bool, buck2: bool, buck2_on_prompt: bool, python3: bool) -> (r:
    Result<(), MissingTool>)
    ensures
        r is Ok <==> (rustc && (buck2 || buck2_on_prompt) && python3),
        !rustc ==> r == Err::<(), MissingTool>(MissingTool::Rustc),
        rustc && !(buck2 || buck2_on_prompt) ==> r == Err::<(), MissingTool>(MissingTool::Buck2),
        rustc && (buck2 || buck2_on_prompt) && !python3 ==> r == Err::<(), MissingTool>(
            MissingTool::Python3,
        ),
{
    ensure_rustc_installed(rustc)?;
    ensure_buck2_installed(buck2, buck2_on_prompt)?;
    ensure_python3_installed(python3)?;
    Ok(())
}

} // verus!
