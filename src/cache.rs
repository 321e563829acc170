//! Content-addressed change detection: the canonical encoding and the
//! fingerprint of a graph node, snapshots, and the diff of two snapshots.
use vstd::prelude::*;
use crate::collections::{strictly_sorted, strings_view, LabelSet};
use crate::text::{lemma_lex_asymmetric, lemma_lex_irreflexive, lex_lt, str_eq};

verus! {

/// Where a package comes from.
pub enum NodeKind {
    /// A member of the workspace, at `relative_path` under the build root.
    FirstParty { relative_path: String },
    /// A package of a registry.
    ThirdParty,
}

/// One resolved package of the dependency graph.
pub struct BuckalNode {
    pub package_id: String,
    pub name: String,
    pub version: String,
    pub features: Vec<String>,
    pub kind: NodeKind,
    pub edition: String,
    pub dep_ids: Vec<String>,
}

/// The BLAKE3 digest of a byte string.
pub uninterp spec fn blake3_digest(data: Seq<u8>) -> Seq<u8>;

/// Relies on `blake3::hash`: the 32-byte BLAKE3 digest of `data`, a function
/// of the bytes alone.
#[verifier::external_body]
fn blake3_hash(data: &Vec<u8>) -> (r: Vec<u8>)
    ensures
        r@ == blake3_digest(data@),
        r@.len() == 32,
{
    let bytes: [u8; 32] = blake3::hash(data.as_slice()).into();
    bytes.to_vec()
}

/// The four little-endian bytes of `x`.
pub open spec fn u32_le(x: u32) -> Seq<u8> {
    seq![(x & 0xff) as u8, ((x >> 8) & 0xff) as u8, ((x >> 16) & 0xff) as u8, ((x >> 24) & 0xff) as u8]
}

/// A character sequence as the code points of its characters, four bytes each.
pub open spec fn chars_bytes(s: Seq<char>) -> Seq<u8>
    decreases s.len(),
{
    if s.len() == 0 {
        Seq::empty()
    } else {
        chars_bytes(s.drop_last()) + u32_le(s.last() as u32)
    }
}

/// A string, preceded by its length in characters.
pub open spec fn str_bytes(s: Seq<char>) -> Seq<u8> {
    u32_le(s.len() as u32) + chars_bytes(s)
}

/// The strings of a list, one after the other.
pub open spec fn items_bytes(l: Seq<Seq<char>>) -> Seq<u8>
    decreases l.len(),
{
    if l.len() == 0 {
        Seq::empty()
    } else {
        items_bytes(l.drop_last()) + str_bytes(l.last())
    }
}

/// A list of strings, preceded by its length.
pub open spec fn list_bytes(l: Seq<Seq<char>>) -> Seq<u8> {
    u32_le(l.len() as u32) + items_bytes(l)
}

/// The sorted, duplicate-free list of the members of `s`.
pub open spec fn sorted_members(s: Set<Seq<char>>) -> Seq<Seq<char>> {
    choose|t: Seq<Seq<char>>| strictly_sorted(t) && t.to_set() == s
}

pub open spec fn kind_bytes(kind: NodeKind) -> Seq<u8> {
    match kind {
        NodeKind::FirstParty { relative_path } => seq![1u8] + str_bytes(relative_path@),
        NodeKind::ThirdParty => seq![0u8],
    }
}

/// The canonical encoding of a node's semantic content. Features and
/// dependency identifiers enter as sets: their order and repetitions in the
/// node do not matter.
pub open spec fn node_encoding(
    id: Seq<char>,
    name: Seq<char>,
    version: Seq<char>,
    edition: Seq<char>,
    kind: NodeKind,
    features: Set<Seq<char>>,
    dep_ids: Set<Seq<char>>,
) -> Seq<u8> {
    str_bytes(id) + (str_bytes(name) + (str_bytes(version) + (str_bytes(edition) + fixed_tail(
        kind,
        features,
        dep_ids,
    ))))
}

/// What follows the four strings in a node's encoding.
pub open spec fn fixed_tail(kind: NodeKind, features: Set<Seq<char>>, dep_ids: Set<Seq<char>>) -> Seq<u8> {
    kind_bytes(kind) + list_bytes(sorted_members(features)) + list_bytes(sorted_members(dep_ids))
}

impl BuckalNode {
    pub open spec fn encoding(&self) -> Seq<u8> {
        node_encoding(
            self.package_id@,
            self.name@,
            self.version@,
            self.edition@,
            self.kind,
            strings_view(self.features@).to_set(),
            strings_view(self.dep_ids@).to_set(),
        )
    }

    /// Whether the node's strings are short enough for their lengths to be encoded.
    pub open spec fn encodable(&self) -> bool {
        &&& self.package_id@.len() <= u32::MAX
        &&& self.name@.len() <= u32::MAX
        &&& self.version@.len() <= u32::MAX
        &&& self.edition@.len() <= u32::MAX
        &&& (self.kind matches NodeKind::FirstParty { relative_path } ==> relative_path@.len()
            <= u32::MAX)
        &&& self.features@.len() <= u32::MAX
        &&& self.dep_ids@.len() <= u32::MAX
        &&& forall|i: int| 0 <= i < self.features@.len() ==> (#[trigger] self.features@[i])@.len() <= u32::MAX
        &&& forall|i: int| 0 <= i < self.dep_ids@.len() ==> (#[trigger] self.dep_ids@[i])@.len() <= u32::MAX
    }

    /// The canonical encoding of the node.
    pub fn encode(&self) -> (r: Vec<u8>)
        requires
            self.encodable(),
        ensures
            r@ == self.encoding(),
    {
        let mut out: Vec<u8> = Vec::new();
        push_str(&mut out, self.package_id.as_str());
        push_str(&mut out, self.name.as_str());
        push_str(&mut out, self.version.as_str());
        push_str(&mut out, self.edition.as_str());
        match &self.kind {
            NodeKind::FirstParty { relative_path } => {
                out.push(1u8);
                push_str(&mut out, relative_path.as_str());
            },
            NodeKind::ThirdParty => {
                out.push(0u8);
            },
        }
        let features = set_of(&self.features);
        proof {
            lemma_bounded_members(self.features@, features@);
        }
        push_list(&mut out, &features);
        let deps = set_of(&self.dep_ids);
        proof {
            lemma_bounded_members(self.dep_ids@, deps@);
        }
        push_list(&mut out, &deps);
        proof {
            lemma_sorted_members(features@);
            lemma_sorted_members(deps@);
            assert(out@ =~= self.encoding());
        }
        out
    }

    /// The fingerprint of the node: the BLAKE3 digest of its canonical encoding.
    pub fn fingerprint(&self) -> (r: Vec<u8>)
        requires
            self.encodable(),
        ensures
            r@ == blake3_digest(self.encoding()),
            r@.len() == 32,
    {
        let bytes = self.encode();
        blake3_hash(&bytes)
    }
}

/// Nodes with the same semantic content, whatever the order and repetitions
/// of their features and dependency identifiers, have the same encoding and
/// so the same fingerprint.
pub proof fn lemma_fingerprint_deterministic(a: &BuckalNode, b: &BuckalNode)
    requires
        a.package_id@ == b.package_id@,
        a.name@ == b.name@,
        a.version@ == b.version@,
        a.edition@ == b.edition@,
        kind_bytes(a.kind) == kind_bytes(b.kind),
        strings_view(a.features@).to_set() == strings_view(b.features@).to_set(),
        strings_view(a.dep_ids@).to_set() == strings_view(b.dep_ids@).to_set(),
    ensures
        a.encoding() == b.encoding(),
        blake3_digest(a.encoding()) == blake3_digest(b.encoding()),
{
}

/// Two strictly sorted lists with the same members are the same list.
pub proof fn lemma_sorted_unique(a: Seq<Seq<char>>, b: Seq<Seq<char>>)
    requires
        strictly_sorted(a),
        strictly_sorted(b),
        a.to_set() == b.to_set(),
    ensures
        a == b,
    decreases a.len(),
{
    if a.len() == 0 {
        if b.len() > 0 {
            assert(b.to_set().contains(b[0]));
        }
        assert(a =~= b);
    } else if b.len() == 0 {
        assert(a.to_set().contains(a[0]));
    } else {
        assert(a.to_set().contains(a[0]));
        assert(b.to_set().contains(b[0]));
        let i = choose|i: int| 0 <= i < b.len() && b[i] == a[0];
        let j = choose|j: int| 0 <= j < a.len() && a[j] == b[0];
        if i > 0 {
            // b[0] < b[i] == a[0] <= a[j] == b[0]
            if j > 0 {
                lemma_lex_asymmetric(a[0], a[j]);
            } else {
                lemma_lex_irreflexive(b[0]);
            }
        }
        assert(a[0] == b[0]);
        let a1 = a.drop_first();
        let b1 = b.drop_first();
        assert forall|x: Seq<char>| a1.to_set().contains(x) <==> b1.to_set().contains(x) by {
            if a1.to_set().contains(x) {
                let k = choose|k: int| 0 <= k < a1.len() && a1[k] == x;
                assert(a[k + 1] == x);
                assert(b.to_set().contains(x));
                let m = choose|m: int| 0 <= m < b.len() && b[m] == x;
                if m == 0 {
                    lemma_lex_irreflexive(x);
                }
                assert(b1[m - 1] == x);
            }
            if b1.to_set().contains(x) {
                let k = choose|k: int| 0 <= k < b1.len() && b1[k] == x;
                assert(b[k + 1] == x);
                assert(a.to_set().contains(x));
                let m = choose|m: int| 0 <= m < a.len() && a[m] == x;
                if m == 0 {
                    lemma_lex_irreflexive(x);
                }
                assert(a1[m - 1] == x);
            }
        }
        assert(a1.to_set() =~= b1.to_set());
        lemma_sorted_unique(a1, b1);
        assert(a =~= seq![a[0]] + a1);
        assert(b =~= seq![b[0]] + b1);
    }
}

proof fn lemma_sorted_members(t: Seq<Seq<char>>)
    requires
        strictly_sorted(t),
    ensures
        sorted_members(t.to_set()) == t,
{
    let c = sorted_members(t.to_set());
    assert(strictly_sorted(c) && c.to_set() == t.to_set());
    lemma_sorted_unique(c, t);
}

proof fn lemma_bounded_members(v: Seq<String>, t: Seq<Seq<char>>)
    requires
        v.len() <= u32::MAX,
        forall|i: int| 0 <= i < v.len() ==> (#[trigger] v[i])@.len() <= u32::MAX,
        forall|i: int| 0 <= i < t.len() ==> strings_view(v).contains(#[trigger] t[i]),
        t.no_duplicates(),
    ensures
        t.len() <= u32::MAX,
        forall|i: int| 0 <= i < t.len() ==> (#[trigger] t[i]).len() <= u32::MAX,
{
    assert forall|i: int| 0 <= i < t.len() implies (#[trigger] t[i]).len() <= u32::MAX by {
        let k = choose|k: int| 0 <= k < strings_view(v).len() && strings_view(v)[k] == t[i];
        assert(v[k]@ == t[i]);
    }
    t.unique_seq_to_set();
    strings_view(v).lemma_cardinality_of_set();
    assert(t.to_set().subset_of(strings_view(v).to_set()));
    vstd::set_lib::lemma_len_subset(t.to_set(), strings_view(v).to_set());
}

/// The members of `v`, sorted and without duplicates.
fn set_of(v: &Vec<String>) -> (r: LabelSet)
    ensures
        r.wf(),
        r.members() == strings_view(v@).to_set(),
        forall|i: int| 0 <= i < r@.len() ==> strings_view(v@).contains(#[trigger] r@[i]),
        r@.no_duplicates(),
{
    let mut r = LabelSet::new();
    let mut i: usize = 0;
    while i < v.len()
        invariant
            r.wf(),
            i <= v@.len(),
            r.members() == strings_view(v@).subrange(0, i as int).to_set(),
        decreases v.len() - i,
    {
        r.insert(v[i].clone());
        proof {
            let s = strings_view(v@);
            Seq::lemma_to_set_insert_commutes(s.subrange(0, i as int), s[i as int]);
            assert(s.subrange(0, i as int) + seq![s[i as int]] =~= s.subrange(0, i + 1));
        }
        i = i + 1;
    }
    proof {
        assert(strings_view(v@).subrange(0, v@.len() as int) =~= strings_view(v@));
        assert forall|i: int| 0 <= i < r@.len() implies strings_view(v@).contains(#[trigger] r@[i]) by {
            assert(r.members().contains(r@[i]));
        }
        assert forall|i: int, j: int| 0 <= i < r@.len() && 0 <= j < r@.len() && i != j implies r@[i] != r@[j] by {
            if i < j {
                assert(lex_lt(r@[i], r@[j]));
            } else {
                assert(lex_lt(r@[j], r@[i]));
            }
            lemma_lex_irreflexive(r@[i]);
        }
    }
    r
}

fn push_u32(out: &mut Vec<u8>, x: u32)
    ensures
        final(out)@ == old(out)@ + u32_le(x),
{
    out.push((x & 0xff) as u8);
    out.push(((x >> 8) & 0xff) as u8);
    out.push(((x >> 16) & 0xff) as u8);
    out.push(((x >> 24) & 0xff) as u8);
    proof {
        assert(final(out)@ =~= old(out)@ + u32_le(x));
    }
}

fn push_str(out: &mut Vec<u8>, s: &str)
    requires
        s@.len() <= u32::MAX,
    ensures
        final(out)@ == old(out)@ + str_bytes(s@),
{
    let n = s.unicode_len();
    push_u32(out, n as u32);
    let ghost start = out@;
    let mut i: usize = 0;
    while i < n
        invariant
            n == s@.len(),
            i <= n,
            out@ == start + chars_bytes(s@.subrange(0, i as int)),
        decreases n - i,
    {
        let c = s.get_char(i);
        push_u32(out, c as u32);
        proof {
            assert(s@.subrange(0, i + 1).drop_last() =~= s@.subrange(0, i as int));
            assert(out@ =~= start + chars_bytes(s@.subrange(0, i + 1)));
        }
        i = i + 1;
    }
    proof {
        assert(s@.subrange(0, n as int) =~= s@);
        assert(out@ =~= old(out)@ + str_bytes(s@));
    }
}

fn push_list(out: &mut Vec<u8>, l: &LabelSet)
    requires
        l@.len() <= u32::MAX,
        forall|i: int| 0 <= i < l@.len() ==> (#[trigger] l@[i]).len() <= u32::MAX,
    ensures
        final(out)@ == old(out)@ + list_bytes(l@),
{
    let n = l.items.len();
    push_u32(out, n as u32);
    let ghost start = out@;
    let mut i: usize = 0;
    while i < n
        invariant
            n == l@.len(),
            i <= n,
            forall|k: int| 0 <= k < l@.len() ==> (#[trigger] l@[k]).len() <= u32::MAX,
            out@ == start + items_bytes(l@.subrange(0, i as int)),
        decreases n - i,
    {
        proof {
            assert(l@[i as int] == l.items@[i as int]@);
        }
        push_str(out, l.items[i].as_str());
        proof {
            assert(l@.subrange(0, i + 1).drop_last() =~= l@.subrange(0, i as int));
            assert(out@ =~= start + items_bytes(l@.subrange(0, i + 1)));
        }
        i = i + 1;
    }
    proof {
        assert(l@.subrange(0, n as int) =~= l@);
        assert(out@ =~= old(out)@ + list_bytes(l@));
    }
}

} // verus!

verus! {

/// One node of a snapshot: its identifier and its fingerprint.
pub struct SnapshotEntry {
    pub id: String,
    pub fingerprint: Vec<u8>,
}

/// How a node changed between two snapshots.
#[derive(Debug, Clone, Copy, PartialEq, Eq, Structural)]
pub enum ChangeType {
    Added,
    Changed,
    Removed,
}

/// One entry of a change set.
pub struct Change {
    pub id: String,
    pub change: ChangeType,
}

pub open spec fn entry_ids(v: Seq<SnapshotEntry>) -> Seq<Seq<char>> {
    v.map_values(|e: SnapshotEntry| e.id@)
}

pub open spec fn change_ids(v: Seq<Change>) -> Seq<Seq<char>> {
    v.map_values(|c: Change| c.id@)
}

pub open spec fn holds_id(v: Seq<SnapshotEntry>, id: Seq<char>) -> bool {
    exists|i: int| 0 <= i < v.len() && (#[trigger] v[i]).id@ == id
}

/// Whether `id` is in both snapshots with different fingerprints.
pub open spec fn fingerprint_differs(cur: Seq<SnapshotEntry>, prev: Seq<SnapshotEntry>, id: Seq<char>) -> bool {
    exists|i: int, j: int|
        0 <= i < cur.len() && 0 <= j < prev.len() && (#[trigger] cur[i]).id@ == id && (#[trigger] prev[j]).id@
            == id && cur[i].fingerprint@ != prev[j].fingerprint@
}

/// The change that `id` went through from `prev` to `cur`, if any.
pub open spec fn expected_change(cur: Seq<SnapshotEntry>, prev: Seq<SnapshotEntry>, id: Seq<char>) -> Option<ChangeType> {
    if holds_id(cur, id) && !holds_id(prev, id) {
        Some(ChangeType::Added)
    } else if fingerprint_differs(cur, prev, id) {
        Some(ChangeType::Changed)
    } else if !holds_id(cur, id) && holds_id(prev, id) {
        Some(ChangeType::Removed)
    } else {
        None
    }
}

/// Whether two byte strings are equal.
pub fn bytes_eq(a: &Vec<u8>, b: &Vec<u8>) -> (r: bool)
    ensures
        r == (a@ == b@),
{
    if a.len() != b.len() {
        return false;
    }
    let mut i: usize = 0;
    while i < a.len()
        invariant
            a@.len() == b@.len(),
            i <= a@.len(),
            forall|k: int| 0 <= k < i ==> a@[k] == b@[k],
        decreases a.len() - i,
    {
        if a[i] != b[i] {
            return false;
        }
        i = i + 1;
    }
    proof {
        assert(a@ =~= b@);
    }
    true
}

/// Index of the entry of `v` with identifier `id`, if any.
fn find_entry(v: &Vec<SnapshotEntry>, id: &str) -> (r: Option<usize>)
    ensures
        match r {
            Some(i) => i < v@.len() && v@[i as int].id@ == id@,
            None => !holds_id(v@, id@),
        },
{
    let mut i: usize = 0;
    while i < v.len()
        invariant
            i <= v@.len(),
            forall|k: int| 0 <= k < i ==> (#[trigger] v@[k]).id@ != id@,
        decreases v.len() - i,
    {
        if str_eq(v[i].id.as_str(), id) {
            return Some(i);
        }
        i = i + 1;
    }
    None
}

/// The change set from snapshot `previous` to snapshot `current`: each
/// identifier of either that was added, changed or removed, exactly once and
/// with that tag; identifiers whose fingerprint is the same in both are left
/// out.
pub fn diff(current: &Vec<SnapshotEntry>, previous: &Vec<SnapshotEntry>) -> (r: Vec<Change>)
    requires
        entry_ids(current@).no_duplicates(),
        entry_ids(previous@).no_duplicates(),
    ensures
        change_ids(r@).no_duplicates(),
        forall|k: int|
            0 <= k < r@.len() ==> expected_change(current@, previous@, (#[trigger] r@[k]).id@)
                == Some(r@[k].change),
        forall|id: Seq<char>|
            #[trigger] expected_change(current@, previous@, id) is Some ==> change_ids(r@).contains(id),
{
    let ghost cur = current@;
    let ghost prev = previous@;
    let mut out: Vec<Change> = Vec::new();
    let mut i: usize = 0;
    while i < current.len()
        invariant
            cur == current@,
            prev == previous@,
            i <= cur.len(),
            entry_ids(cur).no_duplicates(),
            entry_ids(prev).no_duplicates(),
            change_ids(out@).no_duplicates(),
            forall|k: int|
                0 <= k < out@.len() ==> exists|m: int| 0 <= m < i && (#[trigger] cur[m]).id@ == (#[trigger] out@[k]).id@,
            forall|k: int|
                0 <= k < out@.len() ==> expected_change(cur, prev, (#[trigger] out@[k]).id@) == Some(out@[k].change),
            forall|m: int|
                0 <= m < i && #[trigger] expected_change(cur, prev, cur[m].id@) is Some ==> change_ids(out@).contains(cur[m].id@),
        decreases cur.len() - i,
    {
        let e = &current[i];
        let ghost id = e.id@;
        proof {
            lemma_unique_entry(cur, i as int);
        }
        let found = find_entry(previous, e.id.as_str());
        let change = match found {
            None => Some(ChangeType::Added),
            Some(j) => {
                proof {
                    lemma_unique_entry(prev, j as int);
                }
                if bytes_eq(&e.fingerprint, &previous[j].fingerprint) {
                    proof {
                        assert(!fingerprint_differs(cur, prev, id));
                    }
                    None
                } else {
                    proof {
                        assert(fingerprint_differs(cur, prev, id));
                    }
                    Some(ChangeType::Changed)
                }
            },
        };
        let ghost before = out@;
        match change {
            Some(c) => {
                proof {
                    assert forall|k: int| 0 <= k < before.len() implies (#[trigger] before[k]).id@ != id by {
                        let m = choose|m: int| 0 <= m < i && (#[trigger] cur[m]).id@ == before[k].id@;
                        assert(entry_ids(cur)[m] == entry_ids(cur)[i as int] ==> m == i);
                    }
                }
                out.push(Change { id: e.id.clone(), change: c });
                proof {
                    assert(out@.subrange(0, before.len() as int) =~= before);
                    lemma_push_distinct(before, out@, id);
                    assert(out@[before.len() as int].id@ == id);
                }
            },
            None => {},
        }
        proof {
            assert forall|k: int| 0 <= k < out@.len() implies exists|m: int| 0 <= m < i + 1 && (#[trigger] cur[m]).id@ == (#[trigger] out@[k]).id@ by {
                if k < before.len() {
                    assert(out@[k] == before[k]);
                    let m = choose|m: int| 0 <= m < i && (#[trigger] cur[m]).id@ == before[k].id@;
                    assert(cur[m].id@ == out@[k].id@);
                } else {
                    assert(cur[i as int].id@ == out@[k].id@);
                }
            }
            assert forall|m: int| 0 <= m < i + 1 && #[trigger] expected_change(cur, prev, cur[m].id@) is Some implies change_ids(out@).contains(cur[m].id@) by {
                if m < i {
                    let k = choose|k: int| 0 <= k < before.len() && change_ids(before)[k] == cur[m].id@;
                    assert(change_ids(out@)[k] == cur[m].id@);
                } else {
                    assert(change_ids(out@)[out@.len() - 1] == cur[m].id@);
                }
            }
        }
        i = i + 1;
    }
    let ghost phase1 = out@;
    let mut j: usize = 0;
    while j < previous.len()
        invariant
            cur == current@,
            prev == previous@,
            j <= prev.len(),
            entry_ids(cur).no_duplicates(),
            entry_ids(prev).no_duplicates(),
            change_ids(out@).no_duplicates(),
            out@.len() >= phase1.len(),
            out@.subrange(0, phase1.len() as int) == phase1,
            forall|k: int| 0 <= k < phase1.len() ==> holds_id(cur, (#[trigger] phase1[k]).id@),
            forall|k: int|
                phase1.len() <= k < out@.len() ==> !holds_id(cur, (#[trigger] out@[k]).id@) && exists|m: int| 0 <= m < j && (#[trigger] prev[m]).id@ == out@[k].id@,
            forall|k: int|
                0 <= k < out@.len() ==> expected_change(cur, prev, (#[trigger] out@[k]).id@) == Some(out@[k].change),
            forall|m: int|
                0 <= m < cur.len() && #[trigger] expected_change(cur, prev, cur[m].id@) is Some ==> change_ids(out@).contains(cur[m].id@),
            forall|m: int|
                0 <= m < j && #[trigger] expected_change(cur, prev, prev[m].id@) is Some ==> change_ids(out@).contains(prev[m].id@),
        decreases prev.len() - j,
    {
        let p = &previous[j];
        let ghost id = p.id@;
        let ghost before = out@;
        proof {
            lemma_unique_entry(prev, j as int);
        }
        match find_entry(current, p.id.as_str()) {
            None => {
                proof {
                    assert(holds_id(prev, id));
                    assert forall|k: int| 0 <= k < before.len() implies (#[trigger] before[k]).id@ != id by {
                        if k < phase1.len() {
                            assert(before[k] == phase1[k]);
                        } else {
                            let m = choose|m: int| 0 <= m < j && (#[trigger] prev[m]).id@ == before[k].id@;
                            assert(entry_ids(prev)[m] == entry_ids(prev)[j as int] ==> m == j);
                        }
                    }
                }
                out.push(Change { id: p.id.clone(), change: ChangeType::Removed });
                proof {
                    assert(out@.subrange(0, before.len() as int) =~= before);
                    lemma_push_distinct(before, out@, id);
                    assert(out@[before.len() as int].id@ == id);
                }
            },
            Some(_) => {},
        }
        proof {
            assert(out@.subrange(0, phase1.len() as int) =~= phase1);
            assert forall|k: int|
                phase1.len() <= k < out@.len() implies !holds_id(cur, (#[trigger] out@[k]).id@) && exists|m: int| 0 <= m < j + 1 && (#[trigger] prev[m]).id@ == out@[k].id@ by {
                if k < before.len() {
                    assert(out@[k] == before[k]);
                    let m = choose|m: int| 0 <= m < j && (#[trigger] prev[m]).id@ == before[k].id@;
                    assert(prev[m].id@ == out@[k].id@);
                } else {
                    assert(prev[j as int].id@ == out@[k].id@);
                }
            }
            assert forall|m: int| 0 <= m < cur.len() && #[trigger] expected_change(cur, prev, cur[m].id@) is Some implies change_ids(out@).contains(cur[m].id@) by {
                let k = choose|k: int| 0 <= k < before.len() && change_ids(before)[k] == cur[m].id@;
                assert(change_ids(out@)[k] == cur[m].id@);
            }
            assert forall|m: int| 0 <= m < j + 1 && #[trigger] expected_change(cur, prev, prev[m].id@) is Some implies change_ids(out@).contains(prev[m].id@) by {
                if m < j {
                    let k = choose|k: int| 0 <= k < before.len() && change_ids(before)[k] == prev[m].id@;
                    assert(change_ids(out@)[k] == prev[m].id@);
                } else if holds_id(cur, prev[m].id@) {
                    let c = choose|c: int| 0 <= c < cur.len() && (#[trigger] cur[c]).id@ == prev[m].id@;
                    let k = choose|k: int| 0 <= k < before.len() && change_ids(before)[k] == cur[c].id@;
                    assert(change_ids(out@)[k] == prev[m].id@);
                } else {
                    assert(change_ids(out@)[out@.len() - 1] == prev[m].id@);
                }
            }
        }
        j = j + 1;
    }
    proof {
        assert forall|id: Seq<char>| #[trigger] expected_change(cur, prev, id) is Some implies change_ids(out@).contains(id) by {
            if holds_id(cur, id) {
                let m = choose|m: int| 0 <= m < cur.len() && (#[trigger] cur[m]).id@ == id;
            } else {
                let m = choose|m: int| 0 <= m < prev.len() && (#[trigger] prev[m]).id@ == id;
            }
        }
    }
    out
}

/// In a snapshot without repeated identifiers, the entry at `i` is the only
/// one with its identifier.
proof fn lemma_unique_entry(v: Seq<SnapshotEntry>, i: int)
    requires
        entry_ids(v).no_duplicates(),
        0 <= i < v.len(),
    ensures
        forall|k: int| 0 <= k < v.len() && (#[trigger] v[k]).id@ == v[i].id@ ==> k == i,
{
    assert forall|k: int| 0 <= k < v.len() && (#[trigger] v[k]).id@ == v[i].id@ implies k == i by {
        assert(entry_ids(v)[k] == entry_ids(v)[i]);
    }
}

proof fn lemma_push_distinct(before: Seq<Change>, after: Seq<Change>, id: Seq<char>)
    requires
        change_ids(before).no_duplicates(),
        after.len() == before.len() + 1,
        after.subrange(0, before.len() as int) == before,
        after[before.len() as int].id@ == id,
        forall|k: int| 0 <= k < before.len() ==> (#[trigger] before[k]).id@ != id,
    ensures
        change_ids(after).no_duplicates(),
{
    assert forall|a: int, b: int|
        0 <= a < after.len() && 0 <= b < after.len() && a != b implies change_ids(after)[a] != change_ids(after)[b] by {
        if a < before.len() {
            assert(after[a] == before[a]);
        }
        if b < before.len() {
            assert(after[b] == before[b]);
        }
        if a < before.len() && b < before.len() {
            assert(change_ids(before)[a] != change_ids(before)[b]);
        }
    }
}

} // verus!

verus! {

proof fn lemma_u32_le_injective(x: u32, y: u32)
    requires
        u32_le(x) == u32_le(y),
    ensures
        x == y,
{
    assert(u32_le(x)[0] == u32_le(y)[0]);
    assert(u32_le(x)[1] == u32_le(y)[1]);
    assert(u32_le(x)[2] == u32_le(y)[2]);
    assert(u32_le(x)[3] == u32_le(y)[3]);
    assert(((x & 0xff) as u8 == (y & 0xff) as u8 && ((x >> 8) & 0xff) as u8 == ((y >> 8) & 0xff) as u8
        && ((x >> 16) & 0xff) as u8 == ((y >> 16) & 0xff) as u8 && ((x >> 24) & 0xff) as u8 == ((y
        >> 24) & 0xff) as u8) ==> x == y) by (bit_vector);
}

proof fn lemma_chars_bytes_at(s: Seq<char>, i: int)
    requires
        0 <= i < s.len(),
    ensures
        chars_bytes(s).len() == 4 * s.len(),
        chars_bytes(s).subrange(4 * i, 4 * i + 4) == u32_le(s[i] as u32),
    decreases s.len(),
{
    lemma_chars_bytes_shape(s);
    let t = s.drop_last();
    lemma_chars_bytes_shape(t);
    if i < t.len() {
        lemma_chars_bytes_at(t, i);
        assert(chars_bytes(s).subrange(4 * i, 4 * i + 4) =~= chars_bytes(t).subrange(4 * i, 4 * i + 4));
    } else {
        assert(chars_bytes(s).subrange(4 * i, 4 * i + 4) =~= u32_le(s.last() as u32));
    }
}

proof fn lemma_chars_bytes_shape(s: Seq<char>)
    ensures
        chars_bytes(s).len() == 4 * s.len(),
    decreases s.len(),
{
    if s.len() > 0 {
        lemma_chars_bytes_shape(s.drop_last());
    }
}

proof fn lemma_code_point_injective(c: char, d: char)
    requires
        (c as u32) == (d as u32),
    ensures
        c == d,
{
}

/// A length-prefixed string determines where it ends: two encodings that
/// start with the encodings of two strings agree only where the strings do.
pub proof fn lemma_str_bytes_prefix_free(a: Seq<char>, b: Seq<char>, ra: Seq<u8>, rb: Seq<u8>)
    requires
        a.len() <= u32::MAX,
        b.len() <= u32::MAX,
        str_bytes(a) + ra == str_bytes(b) + rb,
    ensures
        a == b,
        ra == rb,
{
    let x = str_bytes(a) + ra;
    let y = str_bytes(b) + rb;
    lemma_chars_bytes_shape(a);
    lemma_chars_bytes_shape(b);
    assert(x.subrange(0, 4) =~= u32_le(a.len() as u32));
    assert(y.subrange(0, 4) =~= u32_le(b.len() as u32));
    lemma_u32_le_injective(a.len() as u32, b.len() as u32);
    assert(a.len() == b.len());
    assert forall|i: int| 0 <= i < a.len() implies a[i] == b[i] by {
        assert(x.subrange(4 + 4 * i, 4 + 4 * i + 4) =~= chars_bytes(a).subrange(4 * i, 4 * i + 4));
        assert(y.subrange(4 + 4 * i, 4 + 4 * i + 4) =~= chars_bytes(b).subrange(4 * i, 4 * i + 4));
        lemma_chars_bytes_at(a, i);
        lemma_chars_bytes_at(b, i);
        assert(x.subrange(4 + 4 * i, 4 + 4 * i + 4) == y.subrange(4 + 4 * i, 4 + 4 * i + 4));
        assert(u32_le(a[i] as u32) == u32_le(b[i] as u32));
        lemma_u32_le_injective(a[i] as u32, b[i] as u32);
        assert((a[i] as u32) == (b[i] as u32));
        lemma_code_point_injective(a[i], b[i]);
    }
    assert(a =~= b);
    assert(ra =~= x.subrange(str_bytes(a).len() as int, x.len() as int));
    assert(rb =~= y.subrange(str_bytes(b).len() as int, y.len() as int));
}

/// Nodes with the same identifier whose names, versions or editions differ
/// (the first that differs deciding) have different encodings, and so
/// different fingerprints wherever BLAKE3 does not collide.
pub proof fn lemma_encoding_tells_name_version_edition(a: &BuckalNode, b: &BuckalNode)
    requires
        a.encodable(),
        b.encodable(),
        a.package_id@ == b.package_id@,
        a.name@ != b.name@ || a.version@ != b.version@ || a.edition@ != b.edition@,
    ensures
        a.encoding() != b.encoding(),
{
    if a.encoding() == b.encoding() {
        let fa = fixed_tail(a.kind, strings_view(a.features@).to_set(), strings_view(a.dep_ids@).to_set());
        let fb = fixed_tail(b.kind, strings_view(b.features@).to_set(), strings_view(b.dep_ids@).to_set());
        let ea = str_bytes(a.edition@) + fa;
        let eb = str_bytes(b.edition@) + fb;
        let va = str_bytes(a.version@) + ea;
        let vb = str_bytes(b.version@) + eb;
        let na = str_bytes(a.name@) + va;
        let nb = str_bytes(b.name@) + vb;
        lemma_str_bytes_prefix_free(a.package_id@, b.package_id@, na, nb);
        lemma_str_bytes_prefix_free(a.name@, b.name@, va, vb);
        lemma_str_bytes_prefix_free(a.version@, b.version@, ea, eb);
        lemma_str_bytes_prefix_free(a.edition@, b.edition@, fa, fb);
    }
}

} // verus!

verus! {

/// The number of leading elements of `t` below `x`.
pub open spec fn count_below(t: Seq<Seq<char>>, x: Seq<char>) -> int
    decreases t.len(),
{
    if t.len() == 0 {
        0
    } else if lex_lt(t[0], x) {
        1 + count_below(t.drop_first(), x)
    } else {
        0
    }
}

proof fn lemma_count_below(t: Seq<Seq<char>>, x: Seq<char>)
    requires
        strictly_sorted(t),
    ensures
        crate::collections::is_lower_bound(t, x, count_below(t, x)),
    decreases t.len(),
{
    if t.len() > 0 && lex_lt(t[0], x) {
        let u = t.drop_first();
        assert(strictly_sorted(u)) by {
            assert forall|i: int, j: int| 0 <= i < j < u.len() implies lex_lt(#[trigger] u[i], #[trigger] u[j]) by {
                assert(u[i] == t[i + 1] && u[j] == t[j + 1]);
            }
        }
        lemma_count_below(u, x);
        let k = count_below(t, x);
        assert forall|i: int| 0 <= i < k implies lex_lt(#[trigger] t[i], x) by {
            if i > 0 {
                assert(t[i] == u[i - 1]);
            }
        }
        if k < t.len() {
            assert(t[k] == u[k - 1]);
        }
    }
}

/// Every finite sequence of strings has a strictly sorted enumeration of its members.
pub proof fn lemma_sorted_enumeration(s: Seq<Seq<char>>) -> (t: Seq<Seq<char>>)
    ensures
        strictly_sorted(t),
        t.to_set() == s.to_set(),
    decreases s.len(),
{
    if s.len() == 0 {
        let t = Seq::<Seq<char>>::empty();
        assert(t.to_set() =~= s.to_set());
        t
    } else {
        let p = s.drop_last();
        let x = s.last();
        let u = lemma_sorted_enumeration(p);
        Seq::lemma_to_set_insert_commutes(p, x);
        assert(p + seq![x] =~= s);
        if u.contains(x) {
            assert(u.to_set() =~= s.to_set());
            u
        } else {
            let k = count_below(u, x);
            lemma_count_below(u, x);
            if k < u.len() {
                assert(u[k] != x);
            }
            crate::collections::lemma_lower_bound_above(u, x, k);
            crate::collections::lemma_insert_sorted(u, x, k);
            let t = u.insert(k, x);
            assert(t.to_set() =~= u.to_set().insert(x)) by {
                assert forall|y: Seq<char>| t.contains(y) <==> u.contains(y) || y == x by {
                    if u.contains(y) {
                        let j = choose|j: int| 0 <= j < u.len() && u[j] == y;
                        if j < k {
                            assert(t[j] == y);
                        } else {
                            assert(t[j + 1] == y);
                        }
                    }
                    if t.contains(y) {
                        let j = choose|j: int| 0 <= j < t.len() && t[j] == y;
                        if j < k {
                            assert(u[j] == y);
                        } else if j > k {
                            assert(u[j - 1] == y);
                        }
                    }
                    if y == x {
                        assert(t[k] == y);
                    }
                }
            }
            t
        }
    }
}

proof fn lemma_items_bytes_front(l: Seq<Seq<char>>)
    requires
        l.len() > 0,
    ensures
        items_bytes(l) == str_bytes(l[0]) + items_bytes(l.drop_first()),
    decreases l.len(),
{
    if l.len() == 1 {
        assert(l.drop_last().len() == 0);
        assert(l.drop_first().len() == 0);
        assert(items_bytes(l.drop_last()) == Seq::<u8>::empty());
        assert(items_bytes(l.drop_first()) == Seq::<u8>::empty());
        assert(l.last() == l[0]);
        assert(items_bytes(l) == items_bytes(l.drop_last()) + str_bytes(l.last()));
        assert(items_bytes(l) =~= str_bytes(l[0]) + items_bytes(l.drop_first()));
    } else {
        lemma_items_bytes_front(l.drop_last());
        assert(l.drop_last().drop_first() =~= l.drop_first().drop_last());
        assert(l.drop_first().last() == l.last());
        assert(l.drop_last()[0] == l[0]);
        assert(items_bytes(l) == items_bytes(l.drop_last()) + str_bytes(l.last()));
        assert(items_bytes(l.drop_first()) == items_bytes(l.drop_first().drop_last()) + str_bytes(
            l.drop_first().last(),
        ));
        assert(items_bytes(l.drop_last()) == str_bytes(l[0]) + items_bytes(l.drop_first().drop_last()));
        assert(items_bytes(l) =~= str_bytes(l[0]) + items_bytes(l.drop_first()));
    }
}

proof fn lemma_items_prefix_free(a: Seq<Seq<char>>, b: Seq<Seq<char>>, ra: Seq<u8>, rb: Seq<u8>)
    requires
        a.len() == b.len(),
        forall|i: int| 0 <= i < a.len() ==> (#[trigger] a[i]).len() <= u32::MAX,
        forall|i: int| 0 <= i < b.len() ==> (#[trigger] b[i]).len() <= u32::MAX,
        items_bytes(a) + ra == items_bytes(b) + rb,
    ensures
        a == b,
        ra == rb,
    decreases a.len(),
{
    if a.len() == 0 {
        assert(a =~= b);
    } else {
        lemma_items_bytes_front(a);
        lemma_items_bytes_front(b);
        let ta = items_bytes(a.drop_first()) + ra;
        let tb = items_bytes(b.drop_first()) + rb;
        assert(items_bytes(a) + ra =~= str_bytes(a[0]) + ta);
        assert(items_bytes(b) + rb =~= str_bytes(b[0]) + tb);
        lemma_str_bytes_prefix_free(a[0], b[0], ta, tb);
        assert forall|i: int| 0 <= i < a.drop_first().len() implies (#[trigger] a.drop_first()[i]).len() <= u32::MAX by {
            assert(a.drop_first()[i] == a[i + 1]);
        }
        assert forall|i: int| 0 <= i < b.drop_first().len() implies (#[trigger] b.drop_first()[i]).len() <= u32::MAX by {
            assert(b.drop_first()[i] == b[i + 1]);
        }
        lemma_items_prefix_free(a.drop_first(), b.drop_first(), ra, rb);
        assert(a =~= seq![a[0]] + a.drop_first());
        assert(b =~= seq![b[0]] + b.drop_first());
    }
}

proof fn lemma_list_prefix_free(a: Seq<Seq<char>>, b: Seq<Seq<char>>, ra: Seq<u8>, rb: Seq<u8>)
    requires
        a.len() <= u32::MAX,
        b.len() <= u32::MAX,
        forall|i: int| 0 <= i < a.len() ==> (#[trigger] a[i]).len() <= u32::MAX,
        forall|i: int| 0 <= i < b.len() ==> (#[trigger] b[i]).len() <= u32::MAX,
        list_bytes(a) + ra == list_bytes(b) + rb,
    ensures
        a == b,
        ra == rb,
{
    let x = list_bytes(a) + ra;
    let y = list_bytes(b) + rb;
    assert(x.subrange(0, 4) =~= u32_le(a.len() as u32));
    assert(y.subrange(0, 4) =~= u32_le(b.len() as u32));
    lemma_u32_le_injective(a.len() as u32, b.len() as u32);
    assert(x =~= u32_le(a.len() as u32) + (items_bytes(a) + ra));
    assert(y =~= u32_le(b.len() as u32) + (items_bytes(b) + rb));
    assert(items_bytes(a) + ra =~= x.subrange(4, x.len() as int));
    assert(items_bytes(b) + rb =~= y.subrange(4, y.len() as int));
    lemma_items_prefix_free(a, b, ra, rb);
}

} // verus!

verus! {

proof fn lemma_sorted_members_bounded(v: Seq<String>)
    requires
        v.len() <= u32::MAX,
        forall|i: int| 0 <= i < v.len() ==> (#[trigger] v[i])@.len() <= u32::MAX,
    ensures
        strictly_sorted(sorted_members(strings_view(v).to_set())),
        sorted_members(strings_view(v).to_set()).to_set() == strings_view(v).to_set(),
        sorted_members(strings_view(v).to_set()).len() <= u32::MAX,
        forall|i: int|
            0 <= i < sorted_members(strings_view(v).to_set()).len() ==> (#[trigger] sorted_members(
                strings_view(v).to_set(),
            )[i]).len() <= u32::MAX,
{
    let e = lemma_sorted_enumeration(strings_view(v));
    let t = sorted_members(strings_view(v).to_set());
    assert(strictly_sorted(t) && t.to_set() == strings_view(v).to_set());
    assert forall|i: int| 0 <= i < t.len() implies strings_view(v).contains(#[trigger] t[i]) by {
        assert(t.to_set().contains(t[i]));
    }
    assert(t.no_duplicates()) by {
        assert forall|i: int, j: int| 0 <= i < t.len() && 0 <= j < t.len() && i != j implies t[i] != t[j] by {
            if i < j {
                assert(lex_lt(t[i], t[j]));
            } else {
                assert(lex_lt(t[j], t[i]));
            }
            lemma_lex_irreflexive(t[i]);
        }
    }
    lemma_bounded_members(v, t);
}

/// Nodes that agree in identifier, name, version, edition and kind but not
/// in their feature sets, or else not in their sets of dependency
/// identifiers, have different encodings, and so different fingerprints
/// wherever BLAKE3 does not collide.
pub proof fn lemma_encoding_tells_features_and_deps(a: &BuckalNode, b: &BuckalNode)
    requires
        a.encodable(),
        b.encodable(),
        a.package_id@ == b.package_id@,
        a.name@ == b.name@,
        a.version@ == b.version@,
        a.edition@ == b.edition@,
        kind_bytes(a.kind) == kind_bytes(b.kind),
        strings_view(a.features@).to_set() != strings_view(b.features@).to_set() || strings_view(
            a.dep_ids@,
        ).to_set() != strings_view(b.dep_ids@).to_set(),
    ensures
        a.encoding() != b.encoding(),
{
    if a.encoding() == b.encoding() {
        let fsa = strings_view(a.features@).to_set();
        let fsb = strings_view(b.features@).to_set();
        let dsa = strings_view(a.dep_ids@).to_set();
        let dsb = strings_view(b.dep_ids@).to_set();
        let fa = fixed_tail(a.kind, fsa, dsa);
        let fb = fixed_tail(b.kind, fsb, dsb);
        let ea = str_bytes(a.edition@) + fa;
        let eb = str_bytes(b.edition@) + fb;
        let va = str_bytes(a.version@) + ea;
        let vb = str_bytes(b.version@) + eb;
        let na = str_bytes(a.name@) + va;
        let nb = str_bytes(b.name@) + vb;
        lemma_str_bytes_prefix_free(a.package_id@, b.package_id@, na, nb);
        lemma_str_bytes_prefix_free(a.name@, b.name@, va, vb);
        lemma_str_bytes_prefix_free(a.version@, b.version@, ea, eb);
        lemma_str_bytes_prefix_free(a.edition@, b.edition@, fa, fb);
        let k = kind_bytes(a.kind);
        let la = list_bytes(sorted_members(fsa)) + list_bytes(sorted_members(dsa));
        let lb = list_bytes(sorted_members(fsb)) + list_bytes(sorted_members(dsb));
        assert(fa =~= k + la);
        assert(fb =~= k + lb);
        assert(la =~= fa.subrange(k.len() as int, fa.len() as int));
        assert(lb =~= fb.subrange(k.len() as int, fb.len() as int));
        lemma_sorted_members_bounded(a.features@);
        lemma_sorted_members_bounded(b.features@);
        lemma_sorted_members_bounded(a.dep_ids@);
        lemma_sorted_members_bounded(b.dep_ids@);
        lemma_list_prefix_free(
            sorted_members(fsa),
            sorted_members(fsb),
            list_bytes(sorted_members(dsa)),
            list_bytes(sorted_members(dsb)),
        );
        assert(list_bytes(sorted_members(dsa)) + Seq::<u8>::empty() =~= list_bytes(sorted_members(dsa)));
        assert(list_bytes(sorted_members(dsb)) + Seq::<u8>::empty() =~= list_bytes(sorted_members(dsb)));
        lemma_list_prefix_free(
            sorted_members(dsa),
            sorted_members(dsb),
            Seq::<u8>::empty(),
            Seq::<u8>::empty(),
        );
        assert(fsa == fsb);
        assert(dsa == dsb);
    }
}

} // verus!

verus! {

/// The lower-case hexadecimal digit of `d`.
pub open spec fn hex_digit(d: u8) -> char {
    if d < 10 {
        (d + 48) as char
    } else {
        (d + 87) as char
    }
}

/// The value of a lower-case hexadecimal digit.
pub open spec fn digit_value(c: char) -> Option<u8> {
    if '0' <= c && c <= '9' {
        Some(((c as u32) - 48) as u8)
    } else if 'a' <= c && c <= 'f' {
        Some(((c as u32) - 87) as u8)
    } else {
        None
    }
}

/// Two lower-case hexadecimal digits per byte.
pub open spec fn hex_of(b: Seq<u8>) -> Seq<char>
    decreases b.len(),
{
    if b.len() == 0 {
        Seq::empty()
    } else {
        hex_of(b.drop_last()) + seq![hex_digit(b.last() / 16), hex_digit(b.last() % 16)]
    }
}

fn digit_char(d: u8) -> (c: char)
    requires
        d < 16,
    ensures
        c == hex_digit(d),
{
    if d < 10 {
        (d + 48) as char
    } else {
        (d + 87) as char
    }
}

fn char_digit(c: char) -> (r: Option<u8>)
    ensures
        r == digit_value(c),
{
    if '0' <= c && c <= '9' {
        Some(((c as u32) - 48) as u8)
    } else if 'a' <= c && c <= 'f' {
        Some(((c as u32) - 87) as u8)
    } else {
        None
    }
}

/// A fingerprint as text, for the snapshot file.
pub fn to_hex(bytes: &Vec<u8>) -> (r: String)
    ensures
        r@ == hex_of(bytes@),
{
    let mut out = String::new();
    let mut i: usize = 0;
    while i < bytes.len()
        invariant
            i <= bytes@.len(),
            out@ == hex_of(bytes@.subrange(0, i as int)),
        decreases bytes.len() - i,
    {
        let b = bytes[i];
        let hi = digit_char(b / 16);
        let lo = digit_char(b % 16);
        out.append(crate::text::char_string(hi).as_str());
        out.append(crate::text::char_string(lo).as_str());
        proof {
            assert(bytes@.subrange(0, i + 1).drop_last() =~= bytes@.subrange(0, i as int));
            assert(out@ =~= hex_of(bytes@.subrange(0, i + 1)));
        }
        i = i + 1;
    }
    proof {
        assert(bytes@.subrange(0, bytes@.len() as int) =~= bytes@);
    }
    out
}

proof fn lemma_digit_round_trip(d: u8)
    requires
        d < 16,
    ensures
        digit_value(hex_digit(d)) == Some(d),
{
    if d < 10 {
        assert(((d + 48) as char) as u32 == (d + 48) as u32);
    } else {
        assert(((d + 87) as char) as u32 == (d + 87) as u32);
    }
}

/// The bytes that a text of lower-case hexadecimal digit pairs stands for;
/// `None` where it is not such a text.
pub fn from_hex(s: &str) -> (r: Option<Vec<u8>>)
    ensures
        match r {
            Some(b) => hex_of(b@) == s@,
            None => forall|b: Seq<u8>| hex_of(b) != s@,
        },
{
    let n = s.unicode_len();
    if n % 2 != 0 {
        proof {
            assert forall|b: Seq<u8>| hex_of(b) != s@ by {
                lemma_hex_len(b);
            }
        }
        return None;
    }
    let mut out: Vec<u8> = Vec::new();
    let mut i: usize = 0;
    while i < n / 2
        invariant
            n == s@.len(),
            n % 2 == 0,
            i <= n / 2,
            out@.len() == i,
            hex_of(out@) == s@.subrange(0, 2 * i as int),
        decreases n / 2 - i,
    {
        let hi = char_digit(s.get_char(2 * i));
        let lo = char_digit(s.get_char(2 * i + 1));
        match (hi, lo) {
            (Some(h), Some(l)) => {
                proof {
                    assert(h < 16 && l < 16) by {
                        let c = s@[2 * i as int];
                        let d = s@[2 * i + 1];
                    }
                }
                let b = h * 16 + l;
                let ghost before = out@;
                out.push(b);
                proof {
                    assert(b / 16 == h && b % 16 == l) by (nonlinear_arith)
                        requires
                            b == h * 16 + l,
                            h < 16,
                            l < 16,
                    ;
                    lemma_digit_char_back(s@[2 * i as int], h);
                    lemma_digit_char_back(s@[2 * i + 1], l);
                    assert(out@.drop_last() =~= before);
                    assert(s@.subrange(0, 2 * (i + 1)) =~= s@.subrange(0, 2 * i as int) + seq![
                        s@[2 * i as int],
                        s@[2 * i + 1],
                    ]);
                }
            },
            _ => {
                proof {
                    assert forall|b: Seq<u8>| hex_of(b) != s@ by {
                        if hex_of(b) == s@ {
                            lemma_hex_len(b);
                            lemma_hex_at(b, i as int);
                            lemma_digit_round_trip(b[i as int] / 16);
                            lemma_digit_round_trip(b[i as int] % 16);
                        }
                    }
                }
                return None;
            },
        }
        i = i + 1;
    }
    proof {
        assert(s@.subrange(0, n as int) =~= s@);
    }
    Some(out)
}

proof fn lemma_digit_char_back(c: char, d: u8)
    requires
        digit_value(c) == Some(d),
    ensures
        d < 16,
        hex_digit(d) == c,
{
    if '0' <= c && c <= '9' {
        assert(((d + 48) as u32) == c as u32);
    } else {
        assert(((d + 87) as u32) == c as u32);
    }
}

proof fn lemma_hex_len(b: Seq<u8>)
    ensures
        hex_of(b).len() == 2 * b.len(),
    decreases b.len(),
{
    if b.len() > 0 {
        lemma_hex_len(b.drop_last());
    }
}

proof fn lemma_hex_at(b: Seq<u8>, i: int)
    requires
        0 <= i < b.len(),
    ensures
        hex_of(b)[2 * i] == hex_digit(b[i] / 16),
        hex_of(b)[2 * i + 1] == hex_digit(b[i] % 16),
    decreases b.len(),
{
    lemma_hex_len(b);
    lemma_hex_len(b.drop_last());
    if i < b.len() - 1 {
        lemma_hex_at(b.drop_last(), i);
    }
}

/// Reading back the text of a fingerprint gives the fingerprint.
pub proof fn lemma_hex_round_trip(b: Seq<u8>, c: Seq<u8>)
    requires
        hex_of(b) == hex_of(c),
    ensures
        b == c,
{
    lemma_hex_len(b);
    lemma_hex_len(c);
    assert forall|i: int| 0 <= i < b.len() implies b[i] == c[i] by {
        lemma_hex_at(b, i);
        lemma_hex_at(c, i);
        lemma_digit_round_trip(b[i] / 16);
        lemma_digit_round_trip(b[i] % 16);
        lemma_digit_round_trip(c[i] / 16);
        lemma_digit_round_trip(c[i] % 16);
        assert(b[i] == (b[i] / 16) * 16 + b[i] % 16) by (nonlinear_arith);
        assert(c[i] == (c[i] / 16) * 16 + c[i] % 16) by (nonlinear_arith);
    }
    assert(b =~= c);
}

} // verus!
