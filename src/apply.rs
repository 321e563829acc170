//! What regeneration does with each entry of a change set.
use vstd::prelude::*;
use crate::cache::{Change, ChangeType};
use crate::text::{concat2, starts_with, str_eq, substring};

verus! {

/// The first index at or after `i` where `s` holds `c`, or the length.
pub open spec fn first_from(s: Seq<char>, c: char, i: int) -> int
    decreases s.len() - i,
{
    if i >= s.len() {
        s.len() as int
    } else if s[i] == c {
        i
    } else {
        first_from(s, c, i + 1)
    }
}

/// The first index at or after `i` where `s` holds `+` or `#`, or the length.
pub open spec fn first_plus_or_hash(s: Seq<char>, i: int) -> int
    decreases s.len() - i,
{
    if i >= s.len() {
        s.len() as int
    } else if s[i] == '+' || s[i] == '#' {
        i
    } else {
        first_plus_or_hash(s, i + 1)
    }
}

proof fn lemma_first_from_bounds(s: Seq<char>, c: char, i: int)
    requires
        0 <= i <= s.len(),
    ensures
        i <= first_from(s, c, i) <= s.len(),
        first_from(s, c, i) < s.len() ==> s[first_from(s, c, i)] == c,
        forall|k: int| i <= k < first_from(s, c, i) ==> s[k] != c,
    decreases s.len() - i,
{
    if i < s.len() && s[i] != c {
        lemma_first_from_bounds(s, c, i + 1);
    }
}

proof fn lemma_first_plus_or_hash_bounds(s: Seq<char>, i: int)
    requires
        0 <= i <= s.len(),
    ensures
        i <= first_plus_or_hash(s, i) <= s.len(),
    decreases s.len() - i,
{
    if i < s.len() && s[i] != '+' && s[i] != '#' {
        lemma_first_plus_or_hash_bounds(s, i + 1);
    }
}

fn find_from(s: &str, c: char, start: usize) -> (r: usize)
    requires
        start <= s@.len(),
    ensures
        r == first_from(s@, c, start as int),
{
    let n = s.unicode_len();
    let mut i: usize = start;
    while i < n && s.get_char(i) != c
        invariant
            n == s@.len(),
            start <= i <= n,
            first_from(s@, c, start as int) == first_from(s@, c, i as int),
        decreases n - i,
    {
        i = i + 1;
    }
    i
}

fn find_plus_or_hash(s: &str, start: usize) -> (r: usize)
    requires
        start <= s@.len(),
    ensures
        r == first_plus_or_hash(s@, start as int),
{
    let n = s.unicode_len();
    let mut i: usize = start;
    while i < n && s.get_char(i) != '+' && s.get_char(i) != '#'
        invariant
            n == s@.len(),
            start <= i <= n,
            first_plus_or_hash(s@, start as int) == first_plus_or_hash(s@, i as int),
        decreases n - i,
    {
        i = i + 1;
    }
    i
}

/// The name and version in a package identifier of the form
/// `kind+source#name@version`, optionally followed by `+` and more; `None`
/// where the identifier has another form.
pub open spec fn id_name_version(s: Seq<char>) -> Option<(Seq<char>, Seq<char>)> {
    let p = first_from(s, '+', 0);
    let h = first_from(s, '#', p + 1);
    let a = first_from(s, '@', h + 1);
    let e = first_plus_or_hash(s, a + 1);
    if p == 0 || p >= s.len() || first_from(s, '#', 0) < p || h <= p + 1 || h >= s.len() || a
        <= h + 1 || a >= s.len() || e <= a + 1 {
        None
    } else if e < s.len() && (s[e] == '#' || e + 1 >= s.len() || first_from(s, '\n', e + 1) < s.len()) {
        None
    } else {
        Some((s.subrange(h + 1, a), s.subrange(a + 1, e)))
    }
}

/// The name and version that a package identifier names.
pub fn parse_package_id(id: &str) -> (r: Option<(String, String)>)
    ensures
        match r {
            Some((n, v)) => id_name_version(id@) == Some((n@, v@)),
            None => id_name_version(id@) is None,
        },
{
    let ghost s = id@;
    let n = id.unicode_len();
    let p = find_from(id, '+', 0);
    proof {
        lemma_first_from_bounds(s, '+', 0);
        lemma_first_from_bounds(s, '#', 0);
    }
    if p == 0 || p >= n || find_from(id, '#', 0) < p {
        return None;
    }
    let h = find_from(id, '#', p + 1);
    proof {
        lemma_first_from_bounds(s, '#', p + 1);
    }
    if h <= p + 1 || h >= n {
        return None;
    }
    let a = find_from(id, '@', h + 1);
    proof {
        lemma_first_from_bounds(s, '@', h + 1);
    }
    if a <= h + 1 || a >= n {
        return None;
    }
    let e = find_plus_or_hash(id, a + 1);
    proof {
        lemma_first_plus_or_hash_bounds(s, a + 1);
    }
    if e <= a + 1 {
        return None;
    }
    if e < n {
        if id.get_char(e) == '#' || e + 1 >= n {
            return None;
        }
        let nl = find_from(id, '\n', e + 1);
        if nl < n {
            return None;
        }
    }
    Some((substring(id, h + 1, a), substring(id, a + 1, e)))
}

/// What regeneration does with one entry of a change set.
#[derive(Debug)]
pub enum ChangeAction {
    /// Nothing: the entry is the root package, or is left to another pass.
    Skip,
    /// Regenerate the package's build file; `first_party` says whether it is
    /// a workspace member, whose sources are not vendored.
    Regenerate { first_party: bool },
    /// Delete the vendored sources of the removed package.
    RemoveVendored { name: String, version: String },
    /// The removed identifier does not have the form of a package identifier.
    UnreadableId,
}

/// What to do with `change`. `first_party` tells, for a node of the current
/// graph, whether it is a workspace member (`None` where it is not in the
/// graph); `separate` leaves workspace members to another pass; removed
/// packages of the workspace itself keep their directories.
pub fn plan_change(
    change: &Change,
    root_id: &str,
    workspace_root: &str,
    separate: bool,
    first_party: Option<bool>,
) -> (r: ChangeAction)
    ensures
        change.change != ChangeType::Removed ==> match r {
            ChangeAction::Regenerate { first_party: fp } => change.id@ != root_id@ && first_party == Some(fp)
                && !(separate && fp),
            ChangeAction::Skip => change.id@ == root_id@ || first_party is None || (separate
                && first_party == Some(true)),
            _ => false,
        },
        change.change == ChangeType::Removed ==> {
            let local = "path+file://"@ + workspace_root@;
            let is_local = local.len() <= change.id@.len() && change.id@.subrange(0, local.len() as int) == local;
            match r {
                ChangeAction::Skip => is_local,
                ChangeAction::RemoveVendored { name, version } => !is_local && id_name_version(change.id@) == Some((name@, version@)),
                ChangeAction::UnreadableId => !is_local && id_name_version(change.id@) is None,
                _ => false,
            }
        },
{
    match change.change {
        ChangeType::Added | ChangeType::Changed => {
            if str_eq(change.id.as_str(), root_id) {
                return ChangeAction::Skip;
            }
            match first_party {
                None => ChangeAction::Skip,
                Some(fp) => {
                    if separate && fp {
                        ChangeAction::Skip
                    } else {
                        ChangeAction::Regenerate { first_party: fp }
                    }
                },
            }
        },
        ChangeType::Removed => {
            let local = concat2("path+file://", workspace_root);
            if starts_with(change.id.as_str(), local.as_str()) {
                return ChangeAction::Skip;
            }
            match parse_package_id(change.id.as_str()) {
                Some((name, version)) => ChangeAction::RemoveVendored { name, version },
                None => ChangeAction::UnreadableId,
            }
        },
    }
}

} // verus!
