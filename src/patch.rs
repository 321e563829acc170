//! Text splicing of generated build files at positions that a parse of the
//! file located, and the platform-conditional flag expression that is
//! spliced into binary rules.
use vstd::prelude::*;
use crate::collections::strings_view;
use crate::targets::{is_whitespace, is_ws};
use crate::text::{concat2, str_eq, substring};

verus! {

/// The clause that marks a test rule incompatible with cross builds.
pub const CROSS_SELECT_EXPR: &'static str = "select({\"//platforms:cross\": [\"config//:none\"], \"DEFAULT\": []})";

/// The last character before `i` that is not whitespace, if any.
pub open spec fn last_non_ws(s: Seq<char>, i: int) -> Option<char>
    decreases i,
{
    if i <= 0 {
        None
    } else if is_ws(s[i - 1]) {
        last_non_ws(s, i - 1)
    } else {
        Some(s[i - 1])
    }
}

/// Whether a clause inserted at `pos` needs a comma before it: the text
/// before `pos` does not end, whitespace aside, in one.
pub open spec fn comma_needed(s: Seq<char>, pos: int) -> bool {
    match last_non_ws(s, pos) {
        Some(c) => c != ',',
        None => true,
    }
}

/// Whether a clause inserted at `insert_pos` of `content` needs a comma first.
pub fn needs_leading_comma(content: &str, insert_pos: usize) -> (r: bool)
    requires
        insert_pos <= content@.len(),
    ensures
        r == comma_needed(content@, insert_pos as int),
{
    let mut i: usize = insert_pos;
    while i > 0
        invariant
            i <= insert_pos <= content@.len(),
            last_non_ws(content@, insert_pos as int) == last_non_ws(content@, i as int),
        decreases i,
    {
        let c = content.get_char(i - 1);
        if !is_whitespace(c) {
            return c != ',';
        }
        i = i - 1;
    }
    true
}

/// The text inserted into a test rule at `pos` to mark it incompatible with
/// cross builds.
pub open spec fn cross_clause(s: Seq<char>, pos: int) -> Seq<char> {
    (if comma_needed(s, pos) {
        ","@
    } else {
        ""@
    }) + "\n    target_compatible_with = "@ + CROSS_SELECT_EXPR@ + ",\n"@
}

/// The text to insert into `content` at `insert_pos`.
pub fn build_insert(content: &str, insert_pos: usize) -> (r: String)
    requires
        insert_pos <= content@.len(),
    ensures
        r@ == cross_clause(content@, insert_pos as int),
{
    let mut out = if needs_leading_comma(content, insert_pos) {
        String::from_str(",")
    } else {
        String::new()
    };
    out.append("\n    target_compatible_with = ");
    out.append(CROSS_SELECT_EXPR);
    out.append(",\n");
    proof {
        assert(""@ =~= Seq::<char>::empty()) by {
            reveal_strlit("");
        }
    }
    out
}

/// `s` with the cross-build clause inserted at each of `ps`, the last
/// position first; positions past the end are passed over.
pub open spec fn with_clauses(s: Seq<char>, ps: Seq<int>) -> Seq<char>
    decreases ps.len(),
{
    if ps.len() == 0 {
        s
    } else {
        let p = ps.last();
        let s2 = if 0 <= p < s.len() {
            s.subrange(0, p) + cross_clause(s, p) + s.subrange(p, s.len() as int)
        } else {
            s
        };
        with_clauses(s2, ps.drop_last())
    }
}

pub open spec fn positions_view(ps: Seq<usize>) -> Seq<int> {
    ps.map_values(|p: usize| p as int)
}

/// Inserts the cross-build clause into `content` at each of `positions`,
/// which a parse of `content` gave as the ends of the test rules that lack
/// one, in increasing order.
pub fn insert_cross_clauses(content: String, positions: &Vec<usize>) -> (r: String)
    ensures
        r@ == with_clauses(content@, positions_view(positions@)),
{
    let ghost ps = positions_view(positions@);
    let mut out = content;
    let mut k: usize = positions.len();
    proof {
        assert(ps.subrange(0, k as int) =~= ps);
    }
    while k > 0
        invariant
            ps == positions_view(positions@),
            k <= ps.len(),
            with_clauses(content@, ps) == with_clauses(out@, ps.subrange(0, k as int)),
        decreases k,
    {
        let pos = positions[k - 1];
        let ghost before = out@;
        let n = out.unicode_len();
        if pos < n {
            let insert = build_insert(out.as_str(), pos);
            let head = substring(out.as_str(), 0, pos);
            let tail = substring(out.as_str(), pos, n);
            let mut next = head;
            next.append(insert.as_str());
            next.append(tail.as_str());
            out = next;
        }
        proof {
            let sub = ps.subrange(0, k as int);
            assert(sub.last() == pos as int);
            assert(sub.drop_last() =~= ps.subrange(0, k - 1));
        }
        k = k - 1;
    }
    out
}

/// Inserting at positions at or after `k` keeps the text before `k`: the
/// rules that come before the patched ones stay as they were.
pub proof fn lemma_clauses_keep_prefix(s: Seq<char>, ps: Seq<int>, k: int)
    requires
        0 <= k <= s.len(),
        forall|i: int| 0 <= i < ps.len() ==> #[trigger] ps[i] >= k,
    ensures
        with_clauses(s, ps).len() >= k,
        with_clauses(s, ps).subrange(0, k) == s.subrange(0, k),
    decreases ps.len(),
{
    if ps.len() > 0 {
        let p = ps.last();
        let s2 = if 0 <= p < s.len() {
            s.subrange(0, p) + cross_clause(s, p) + s.subrange(p, s.len() as int)
        } else {
            s
        };
        assert(s2.subrange(0, k) =~= s.subrange(0, k));
        assert forall|i: int| 0 <= i < ps.drop_last().len() implies #[trigger] ps.drop_last()[i] >= k by {
            assert(ps.drop_last()[i] == ps[i]);
        }
        lemma_clauses_keep_prefix(s2, ps.drop_last(), k);
    }
}

/// Inserting at positions at or before `k` keeps the text from `k` on at the
/// end: the rules that come after the patched ones stay as they were.
pub proof fn lemma_clauses_keep_suffix(s: Seq<char>, ps: Seq<int>, k: int)
    requires
        0 <= k <= s.len(),
        forall|i: int| 0 <= i < ps.len() ==> #[trigger] ps[i] <= k,
    ensures
        with_clauses(s, ps).len() >= s.len() - k,
        with_clauses(s, ps).subrange(
            with_clauses(s, ps).len() - (s.len() - k),
            with_clauses(s, ps).len() as int,
        ) == s.subrange(k, s.len() as int),
    decreases ps.len(),
{
    if ps.len() == 0 {
    } else {
        let p = ps.last();
        let s2 = if 0 <= p < s.len() {
            s.subrange(0, p) + cross_clause(s, p) + s.subrange(p, s.len() as int)
        } else {
            s
        };
        let k2 = s2.len() - (s.len() - k);
        assert(s2.subrange(k2, s2.len() as int) =~= s.subrange(k, s.len() as int));
        assert forall|i: int| 0 <= i < ps.drop_last().len() implies #[trigger] ps.drop_last()[i] <= k2 by {
            assert(ps.drop_last()[i] == ps[i]);
        }
        lemma_clauses_keep_suffix(s2, ps.drop_last(), k2);
    }
}

/// `content` with ` + ` and `select_expr` inserted at `insert_pos`, the end
/// of a binary rule's flag list that a parse of `content` located.
pub fn apply_rustc_flags_patch_at(content: &str, insert_pos: usize, select_expr: &str) -> (r: String)
    requires
        insert_pos <= content@.len(),
    ensures
        r@ == content@.subrange(0, insert_pos as int) + " + "@ + select_expr@ + content@.subrange(
            insert_pos as int,
            content@.len() as int,
        ),
{
    let n = content.unicode_len();
    let mut out = substring(content, 0, insert_pos);
    out.append(" + ");
    out.append(select_expr);
    let tail = substring(content, insert_pos, n);
    out.append(tail.as_str());
    out
}

/// The build-script flags of the Windows import-library packages, by ABI
/// and CPU.
pub struct WindowsImportLibFlags {
    pub gnu: Vec<String>,
    pub msvc_x86_64: Vec<String>,
    pub msvc_i686: Vec<String>,
    pub msvc_aarch64: Vec<String>,
}

impl Default for WindowsImportLibFlags {
    fn default() -> (r: WindowsImportLibFlags)
        ensures
            r.gnu@.len() == 0 && r.msvc_x86_64@.len() == 0 && r.msvc_i686@.len() == 0
                && r.msvc_aarch64@.len() == 0,
    {
        WindowsImportLibFlags {
            gnu: Vec::new(),
            msvc_x86_64: Vec::new(),
            msvc_i686: Vec::new(),
            msvc_aarch64: Vec::new(),
        }
    }
}

/// A character as it stands inside a string literal.
pub open spec fn escape_char(c: char) -> Seq<char> {
    if c == '\\' {
        seq!['\\', '\\']
    } else if c == '"' {
        seq!['\\', '"']
    } else if c == '\n' {
        seq!['\\', 'n']
    } else if c == '\r' {
        seq!['\\', 'r']
    } else if c == '\t' {
        seq!['\\', 't']
    } else {
        seq![c]
    }
}

pub open spec fn escaped(s: Seq<char>) -> Seq<char>
    decreases s.len(),
{
    if s.len() == 0 {
        Seq::empty()
    } else {
        escaped(s.drop_last()) + escape_char(s.last())
    }
}

/// A string literal holding `s`.
pub open spec fn quoted(s: Seq<char>) -> Seq<char> {
    seq!['"'] + escaped(s) + seq!['"']
}

pub open spec fn spaces(n: nat) -> Seq<char> {
    Seq::new(n, |i: int| ' ')
}

pub open spec fn list_items(items: Seq<Seq<char>>, indent: nat) -> Seq<char>
    decreases items.len(),
{
    if items.len() == 0 {
        Seq::empty()
    } else {
        list_items(items.drop_last(), indent) + spaces(indent + 4) + quoted(items.last()) + ",\n"@
    }
}

/// A list of string literals, one per line, closed at indentation `indent`.
#[verifier::opaque]
pub open spec fn list_text(items: Seq<Seq<char>>, indent: nat) -> Seq<char> {
    "[\n"@ + list_items(items, indent) + spaces(indent) + "]"@
}

/// One entry of a `select`, at indentation `indent` plus four.
pub open spec fn entry_text(key: Seq<char>, value: Seq<char>, indent: nat) -> Seq<char> {
    spaces(indent + 4) + quoted(key) + ": "@ + value + ",\n"@
}

#[verifier::opaque]
pub open spec fn msvc_select_text(f: WindowsImportLibFlags, indent: nat) -> Seq<char> {
    "select({\n"@ + entry_text(
        "prelude//cpu/constraints:arm64"@,
        list_text(strings_view(f.msvc_aarch64@), indent + 4),
        indent,
    ) + entry_text(
        "prelude//cpu/constraints:x86_32"@,
        list_text(strings_view(f.msvc_i686@), indent + 4),
        indent,
    ) + entry_text("DEFAULT"@, list_text(strings_view(f.msvc_x86_64@), indent + 4), indent)
        + spaces(indent) + "})"@
}

#[verifier::opaque]
pub open spec fn windows_select_text(f: WindowsImportLibFlags, indent: nat) -> Seq<char> {
    "select({\n"@ + entry_text(
        "prelude//abi/constraints:gnu"@,
        list_text(strings_view(f.gnu@), indent + 4),
        indent,
    ) + entry_text("prelude//abi/constraints:msvc"@, msvc_select_text(f, indent + 4), indent)
        + entry_text("DEFAULT"@, msvc_select_text(f, indent + 4), indent) + spaces(indent) + "})"@
}

/// The flag expression for binaries: on Windows, by ABI and then by CPU, the
/// flags of the import-library packages; elsewhere none.
pub open spec fn rustc_flags_select_text(f: WindowsImportLibFlags) -> Seq<char> {
    "select({\n"@ + entry_text("prelude//os/constraints:windows"@, windows_select_text(f, 8), 4)
        + entry_text("DEFAULT"@, "[]"@, 4) + spaces(4) + "})"@
}

fn push_spaces(out: &mut String, n: usize)
    ensures
        final(out)@ == old(out)@ + spaces(n as nat),
{
    let mut i: usize = 0;
    let ghost start = out@;
    while i < n
        invariant
            i <= n,
            out@ == start + spaces(i as nat),
        decreases n - i,
    {
        out.append(" ");
        proof {
            reveal_strlit(" ");
            assert(out@ =~= start + spaces((i + 1) as nat));
        }
        i = i + 1;
    }
}

fn push_quoted(out: &mut String, s: &str)
    ensures
        final(out)@ == old(out)@ + quoted(s@),
{
    let ghost start = out@;
    out.append("\"");
    proof {
        reveal_strlit("\"");
        assert(s@.subrange(0, 0) =~= Seq::<char>::empty());
        assert(out@ =~= start + seq!['"'] + escaped(s@.subrange(0, 0)));
    }
    let n = s.unicode_len();
    let mut i: usize = 0;
    while i < n
        invariant
            n == s@.len(),
            i <= n,
            out@ == start + seq!['"'] + escaped(s@.subrange(0, i as int)),
        decreases n - i,
    {
        let c = s.get_char(i);
        if c == '\\' {
            out.append("\\\\");
        } else if c == '"' {
            out.append("\\\"");
        } else if c == '\n' {
            out.append("\\n");
        } else if c == '\r' {
            out.append("\\r");
        } else if c == '\t' {
            out.append("\\t");
        } else {
            out.append(crate::text::char_string(c).as_str());
        }
        proof {
            reveal_strlit("\\\\");
            reveal_strlit("\\\"");
            reveal_strlit("\\n");
            reveal_strlit("\\r");
            reveal_strlit("\\t");
            assert(s@.subrange(0, i + 1).drop_last() =~= s@.subrange(0, i as int));
            assert(out@ =~= start + seq!['"'] + escaped(s@.subrange(0, i + 1)));
        }
        i = i + 1;
    }
    out.append("\"");
    proof {
        reveal_strlit("\"");
        assert(s@.subrange(0, n as int) =~= s@);
        assert(out@ =~= start + quoted(s@));
    }
}

fn push_list(out: &mut String, items: &Vec<String>, indent: usize)
    requires
        indent + 4 <= usize::MAX,
    ensures
        final(out)@ == old(out)@ + list_text(strings_view(items@), indent as nat),
{
    let ghost start = out@;
    let ghost s = strings_view(items@);
    out.append("[\n");
    let mut i: usize = 0;
    while i < items.len()
        invariant
            s == strings_view(items@),
            i <= s.len(),
            indent + 4 <= usize::MAX,
            out@ == start + "[\n"@ + list_items(s.subrange(0, i as int), indent as nat),
        decreases s.len() - i,
    {
        push_spaces(out, indent + 4);
        push_quoted(out, items[i].as_str());
        out.append(",\n");
        proof {
            assert(s.subrange(0, i + 1).drop_last() =~= s.subrange(0, i as int));
            assert(s.subrange(0, i + 1).last() == items@[i as int]@);
            assert(out@ =~= start + "[\n"@ + list_items(s.subrange(0, i + 1), indent as nat));
        }
        i = i + 1;
    }
    push_spaces(out, indent);
    out.append("]");
    proof {
        assert(s.subrange(0, s.len() as int) =~= s);
        reveal(list_text);
        assert(out@ =~= start + list_text(s, indent as nat));
    }
}

fn push_entry_head(out: &mut String, key: &str, indent: usize)
    requires
        indent + 4 <= usize::MAX,
    ensures
        final(out)@ == old(out)@ + spaces((indent + 4) as nat) + quoted(key@) + ": "@,
{
    push_spaces(out, indent + 4);
    push_quoted(out, key);
    out.append(": ");
}

fn push_msvc_select(out: &mut String, f: &WindowsImportLibFlags, indent: usize)
    requires
        indent + 8 <= usize::MAX,
    ensures
        final(out)@ == old(out)@ + msvc_select_text(*f, indent as nat),
{
    let ghost start = out@;
    out.append("select({\n");
    push_entry_head(out, "prelude//cpu/constraints:arm64", indent);
    push_list(out, &f.msvc_aarch64, indent + 4);
    out.append(",\n");
    push_entry_head(out, "prelude//cpu/constraints:x86_32", indent);
    push_list(out, &f.msvc_i686, indent + 4);
    out.append(",\n");
    push_entry_head(out, "DEFAULT", indent);
    push_list(out, &f.msvc_x86_64, indent + 4);
    out.append(",\n");
    push_spaces(out, indent);
    out.append("})");
    proof {
        reveal(msvc_select_text);
        assert(out@ =~= start + msvc_select_text(*f, indent as nat));
    }
}

fn push_windows_select(out: &mut String, f: &WindowsImportLibFlags, indent: usize)
    requires
        indent + 12 <= usize::MAX,
    ensures
        final(out)@ == old(out)@ + windows_select_text(*f, indent as nat),
{
    let ghost start = out@;
    out.append("select({\n");
    push_entry_head(out, "prelude//abi/constraints:gnu", indent);
    push_list(out, &f.gnu, indent + 4);
    out.append(",\n");
    push_entry_head(out, "prelude//abi/constraints:msvc", indent);
    push_msvc_select(out, f, indent + 4);
    out.append(",\n");
    push_entry_head(out, "DEFAULT", indent);
    push_msvc_select(out, f, indent + 4);
    out.append(",\n");
    push_spaces(out, indent);
    out.append("})");
    proof {
        reveal(windows_select_text);
        assert(out@ =~= start + windows_select_text(*f, indent as nat));
    }
}

/// The flag expression for binaries, empty where there are no flags at all.
pub fn render_windows_rustc_flags_select(flags: &WindowsImportLibFlags) -> (r: String)
    ensures
        (flags.gnu@.len() == 0 && flags.msvc_x86_64@.len() == 0 && flags.msvc_i686@.len() == 0
            && flags.msvc_aarch64@.len() == 0) ==> r@.len() == 0,
        !(flags.gnu@.len() == 0 && flags.msvc_x86_64@.len() == 0 && flags.msvc_i686@.len() == 0
            && flags.msvc_aarch64@.len() == 0) ==> r@ == rustc_flags_select_text(*flags),
{
    if flags.gnu.len() == 0 && flags.msvc_x86_64.len() == 0 && flags.msvc_i686.len() == 0
        && flags.msvc_aarch64.len() == 0 {
        return String::new();
    }
    let mut out = String::new();
    out.append("select({\n");
    push_entry_head(&mut out, "prelude//os/constraints:windows", 4);
    push_windows_select(&mut out, flags, 8);
    out.append(",\n");
    push_entry_head(&mut out, "DEFAULT", 4);
    out.append("[]");
    out.append(",\n");
    push_spaces(&mut out, 4);
    out.append("})");
    proof {
        assert(out@ =~= rustc_flags_select_text(*flags));
    }
    out
}

/// The import-library packages whose build-script flags a Windows binary
/// needs, with the ABI and CPU they serve.
pub open spec fn import_lib_slot(name: Seq<char>) -> int {
    if name == "windows_x86_64_gnu"@ || name == "winapi-x86_64-pc-windows-gnu"@ {
        0
    } else if name == "windows_x86_64_msvc"@ {
        1
    } else if name == "windows_i686_msvc"@ {
        2
    } else if name == "windows_aarch64_msvc"@ {
        3
    } else {
        -1
    }
}

/// The label of the build-script flags of a vendored package.
pub open spec fn build_script_flags(name: Seq<char>, version: Seq<char>) -> Seq<char> {
    "@$(location //"@ + crate::deps::RUST_CRATES_ROOT@ + "/"@ + name + "/"@ + version + ":"@ + name
        + "-build-script-run[rustc_flags])"@
}

/// Whether `flags` of slot `slot` hold, in order, the labels of the packages
/// of `packages` that belong to it.
pub open spec fn slot_flags(packages: Seq<(Seq<char>, Seq<char>)>, slot: int) -> Seq<Seq<char>>
    decreases packages.len(),
{
    if packages.len() == 0 {
        Seq::empty()
    } else if import_lib_slot(packages.last().0) == slot {
        slot_flags(packages.drop_last(), slot).push(build_script_flags(packages.last().0, packages.last().1))
    } else {
        slot_flags(packages.drop_last(), slot)
    }
}

pub open spec fn packages_view(p: Seq<(String, String)>) -> Seq<(Seq<char>, Seq<char>)> {
    p.map_values(|e: (String, String)| (e.0@, e.1@))
}

/// The build-script flags of the import-library packages among `packages`,
/// given as name and version; each slot takes them in the order of
/// `packages`, which lists each name's versions in increasing order.
pub fn windows_import_lib_flags(packages: &Vec<(String, String)>) -> (r: WindowsImportLibFlags)
    ensures
        strings_view(r.gnu@) == slot_flags(packages_view(packages@), 0),
        strings_view(r.msvc_x86_64@) == slot_flags(packages_view(packages@), 1),
        strings_view(r.msvc_i686@) == slot_flags(packages_view(packages@), 2),
        strings_view(r.msvc_aarch64@) == slot_flags(packages_view(packages@), 3),
{
    let ghost ps = packages_view(packages@);
    let mut f = WindowsImportLibFlags::default();
    let mut i: usize = 0;
    proof {
        assert(strings_view(f.gnu@) =~= Seq::<Seq<char>>::empty());
        assert(strings_view(f.msvc_x86_64@) =~= Seq::<Seq<char>>::empty());
        assert(strings_view(f.msvc_i686@) =~= Seq::<Seq<char>>::empty());
        assert(strings_view(f.msvc_aarch64@) =~= Seq::<Seq<char>>::empty());
    }
    while i < packages.len()
        invariant
            ps == packages_view(packages@),
            i <= ps.len(),
            strings_view(f.gnu@) == slot_flags(ps.subrange(0, i as int), 0),
            strings_view(f.msvc_x86_64@) == slot_flags(ps.subrange(0, i as int), 1),
            strings_view(f.msvc_i686@) == slot_flags(ps.subrange(0, i as int), 2),
            strings_view(f.msvc_aarch64@) == slot_flags(ps.subrange(0, i as int), 3),
        decreases ps.len() - i,
    {
        let (name, version) = (&packages[i].0, &packages[i].1);
        let mut label = concat2("@$(location //", crate::deps::RUST_CRATES_ROOT);
        label.append("/");
        label.append(name.as_str());
        label.append("/");
        label.append(version.as_str());
        label.append(":");
        label.append(name.as_str());
        label.append("-build-script-run[rustc_flags])");
        let ghost sub = ps.subrange(0, i + 1);
        proof {
            assert(sub.drop_last() =~= ps.subrange(0, i as int));
            assert(sub.last() == (name@, version@));
            assert(label@ =~= build_script_flags(name@, version@));
        }
        if str_eq(name.as_str(), "windows_x86_64_gnu") || str_eq(name.as_str(), "winapi-x86_64-pc-windows-gnu") {
            f.gnu.push(label);
        } else if str_eq(name.as_str(), "windows_x86_64_msvc") {
            f.msvc_x86_64.push(label);
        } else if str_eq(name.as_str(), "windows_i686_msvc") {
            f.msvc_i686.push(label);
        } else if str_eq(name.as_str(), "windows_aarch64_msvc") {
            f.msvc_aarch64.push(label);
        }
        proof {
            assert(strings_view(f.gnu@) =~= slot_flags(sub, 0));
            assert(strings_view(f.msvc_x86_64@) =~= slot_flags(sub, 1));
            assert(strings_view(f.msvc_i686@) =~= slot_flags(sub, 2));
            assert(strings_view(f.msvc_aarch64@) =~= slot_flags(sub, 3));
        }
        i = i + 1;
    }
    proof {
        assert(ps.subrange(0, ps.len() as int) =~= ps);
    }
    f
}

} // verus!
