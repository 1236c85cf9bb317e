//! One directory scan: which of the entries read a listing admits, and
//! which it retains within its entry and path-byte ceilings.
use crate::path_order::{
    bytes_before, compare_paths, lemma_before_asymmetric, lemma_before_irreflexive, lemma_before_total,
    lemma_before_transitive, path_bytes, PathOrder,
};
use crate::file_tree::{
    bounded_text, bounded_text_spec, child_path, entries_below, names_at_boundaries, opt_text, portable_child,
    slash_count, tree_limits_valid, DirectoryReport, DirectoryResult, EntryModel, FileTreeEntry, FileTreeEntryKind,
    FileTreeError, FileTreeLimits,
};
use crate::text::{lemma_encode_concat, utf8_len};
use crate::tree_rows::sat;
use crate::tree_state::{sat_add, sat_sub};
use ignore::gitignore::Gitignore;
use vstd::prelude::*;
use vstd::multiset::Multiset;
use vstd::string::StringExecFns;
use vstd::utf8::{encode_utf8, is_char_boundary};

verus! {

/// Directories list before files.
pub open spec fn kind_rank(k: FileTreeEntryKind) -> int {
    match k {
        FileTreeEntryKind::Directory => 0,
        FileTreeEntryKind::File => 1,
    }
}

/// `a` lists before `b`: directories first, then by path bytes, then by
/// where the name starts, then by depth.
pub open spec fn listed_before(a: EntryModel, b: EntryModel) -> bool {
    if a.kind != b.kind {
        kind_rank(a.kind) < kind_rank(b.kind)
    } else if a.path != b.path {
        bytes_before(path_bytes(a.path), path_bytes(b.path))
    } else if a.name_start != b.name_start {
        a.name_start < b.name_start
    } else {
        a.depth < b.depth
    }
}

/// Bytes of an entry's path.
pub open spec fn entry_bytes(e: EntryModel) -> int {
    path_bytes(e.path).len() as int
}

/// `a` is retained in preference to `b`: shorter paths first, then in
/// listing order.
pub open spec fn kept_before(a: EntryModel, b: EntryModel) -> bool {
    if entry_bytes(a) != entry_bytes(b) {
        entry_bytes(a) < entry_bytes(b)
    } else {
        listed_before(a, b)
    }
}

proof fn lemma_path_bytes_injective(a: Seq<char>, b: Seq<char>)
    requires
        a != b,
    ensures
        path_bytes(a) != path_bytes(b),
{
    vstd::utf8::encode_utf8_decode_utf8(a);
    vstd::utf8::encode_utf8_decode_utf8(b);
}

/// Listing order is a strict total order.
pub proof fn lemma_listed_order(a: EntryModel, b: EntryModel, c: EntryModel)
    ensures
        !listed_before(a, a),
        listed_before(a, b) ==> !listed_before(b, a),
        listed_before(a, b) && listed_before(b, c) ==> listed_before(a, c),
        a != b ==> listed_before(a, b) || listed_before(b, a),
{
    lemma_before_irreflexive(path_bytes(a.path));
    if bytes_before(path_bytes(a.path), path_bytes(b.path)) {
        lemma_before_asymmetric(path_bytes(a.path), path_bytes(b.path));
    }
    if bytes_before(path_bytes(a.path), path_bytes(b.path)) && bytes_before(path_bytes(b.path), path_bytes(c.path)) {
        lemma_before_transitive(path_bytes(a.path), path_bytes(b.path), path_bytes(c.path));
    }
    if a.path != b.path {
        lemma_path_bytes_injective(a.path, b.path);
        lemma_before_total(path_bytes(a.path), path_bytes(b.path));
    }
}

/// Retention order is a strict total order.
pub proof fn lemma_kept_order(a: EntryModel, b: EntryModel, c: EntryModel)
    ensures
        !kept_before(a, a),
        kept_before(a, b) ==> !kept_before(b, a),
        kept_before(a, b) && kept_before(b, c) ==> kept_before(a, c),
        a != b ==> kept_before(a, b) || kept_before(b, a),
{
    lemma_listed_order(a, b, c);
    lemma_listed_order(b, a, c);
}

fn kind_precedes(a: FileTreeEntryKind, b: FileTreeEntryKind) -> (r: bool)
    ensures
        r == (kind_rank(a) < kind_rank(b)),
{
    match (a, b) {
        (FileTreeEntryKind::Directory, FileTreeEntryKind::File) => true,
        _ => false,
    }
}

/// Whether `a` lists before `b`.
pub fn listed_precedes(a: &FileTreeEntry, b: &FileTreeEntry) -> (r: bool)
    ensures
        r == listed_before(a@, b@),
{
    if a.kind != b.kind {
        return kind_precedes(a.kind, b.kind);
    }
    match compare_paths(a.path.as_str(), b.path.as_str()) {
        PathOrder::Less => true,
        PathOrder::Greater => {
            proof {
                lemma_before_asymmetric(path_bytes(b.path@), path_bytes(a.path@));
            }
            false
        },
        PathOrder::Equal => if a.name_start != b.name_start {
            a.name_start < b.name_start
        } else {
            a.depth < b.depth
        },
    }
}

/// Whether `a` is retained in preference to `b`.
pub fn kept_precedes(a: &FileTreeEntry, b: &FileTreeEntry) -> (r: bool)
    ensures
        r == kept_before(a@, b@),
{
    let x = a.path.as_str().as_bytes().len();
    let y = b.path.as_str().as_bytes().len();
    if x != y {
        x < y
    } else {
        listed_precedes(a, b)
    }
}


/// The number of components of directory `relative`.
pub open spec fn relative_depth(relative: Seq<char>) -> int {
    if relative.len() == 0 {
        0
    } else {
        (slash_count(path_bytes(relative)) + 1) as int
    }
}

/// Total path bytes of `entries`.
pub open spec fn total_bytes(entries: Seq<EntryModel>) -> int
    decreases entries.len(),
{
    if entries.len() == 0 {
        0
    } else {
        total_bytes(entries.drop_last()) + entry_bytes(entries.last())
    }
}

/// Removing one entry removes its bytes from the total.
proof fn lemma_total_remove(s: Seq<EntryModel>, i: int)
    requires
        0 <= i < s.len(),
    ensures
        total_bytes(s.remove(i)) == total_bytes(s) - entry_bytes(s[i]),
    decreases s.len(),
{
    if i == s.len() - 1 {
        assert(s.remove(i) =~= s.drop_last());
    } else {
        lemma_total_remove(s.drop_last(), i);
        assert(s.remove(i) =~= s.drop_last().remove(i).push(s.last()));
        assert(s.remove(i).drop_last() =~= s.drop_last().remove(i));
    }
}

/// A total is at least any one entry's bytes.
proof fn lemma_total_covers(s: Seq<EntryModel>, i: int)
    requires
        0 <= i < s.len(),
    ensures
        0 <= entry_bytes(s[i]) <= total_bytes(s),
    decreases s.len(),
{
    lemma_total_nonneg(s.drop_last());
    if i < s.len() - 1 {
        lemma_total_covers(s.drop_last(), i);
    }
}

proof fn lemma_total_nonneg(s: Seq<EntryModel>)
    ensures
        total_bytes(s) >= 0,
    decreases s.len(),
{
    if s.len() > 0 {
        lemma_total_nonneg(s.drop_last());
    }
}

/// The ceilings leave no room for the byte count to saturate: a full
/// directory plus one more path fits in a `usize`.
pub open spec fn bytes_tracked(l: FileTreeLimits) -> bool {
    l.directory_path_bytes + l.path_bytes <= usize::MAX
}

/// The entry a multiset would give up first: the last in retention order.
pub open spec fn kept_last(m: Multiset<EntryModel>) -> EntryModel {
    choose|x: EntryModel| m.contains(x) && forall|y: EntryModel| #[trigger] m.contains(y) ==> y == x || kept_before(y, x)
}

/// `kept`, of total path bytes `bytes`, is what a directory retains of the
/// entries `admitted` to it under `limits`: every retained entry comes
/// before every one given up in retention order, the retained fit both
/// ceilings, and no entry given up would fit beside them.
pub open spec fn retains(
    kept: Multiset<EntryModel>,
    bytes: int,
    admitted: Multiset<EntryModel>,
    limits: FileTreeLimits,
) -> bool {
    &&& kept.subset_of(admitted)
    &&& forall|x: EntryModel, y: EntryModel|
        kept.contains(x) && #[trigger] admitted.sub(kept).contains(y) ==> x == y || #[trigger] kept_before(x, y)
    &&& kept.len() <= limits.children_per_directory
    &&& bytes <= limits.directory_path_bytes
    &&& forall|y: EntryModel|
        #[trigger] admitted.sub(kept).contains(y) ==> kept.len() >= limits.children_per_directory || bytes
            + entry_bytes(y) > limits.directory_path_bytes
}

/// Totals grow with the entries counted.
proof fn lemma_total_mono(a: Seq<EntryModel>, b: Seq<EntryModel>)
    requires
        a.to_multiset().subset_of(b.to_multiset()),
    ensures
        total_bytes(a) <= total_bytes(b),
    decreases a.len(),
{
    broadcast use vstd::multiset::group_multiset_axioms;

    if a.len() == 0 {
        lemma_total_nonneg(b);
    } else {
        let z = a.last();
        let rest = a.drop_last();
        assert(a =~= rest.push(z));
        vstd::seq_lib::to_multiset_build(rest, z);
        assert(a.to_multiset().count(z) > 0);
        vstd::seq_lib::to_multiset_contains(b, z);
        let j = choose|j: int| 0 <= j < b.len() && b[j] == z;
        vstd::seq_lib::to_multiset_remove(b, j);
        assert(rest.to_multiset().subset_of(b.remove(j).to_multiset())) by {
            assert forall|v: EntryModel| rest.to_multiset().count(v) <= b.remove(j).to_multiset().count(v) by {
                assert(a.to_multiset().count(v) <= b.to_multiset().count(v));
            }
        }
        lemma_total_mono(rest, b.remove(j));
        lemma_total_remove(b, j);
    }
}

/// Retaining an entry that fits keeps what the directory retains right.
proof fn lemma_retain_fits(
    kept: Multiset<EntryModel>,
    bytes: int,
    admitted: Multiset<EntryModel>,
    e: EntryModel,
    limits: FileTreeLimits,
)
    requires
        retains(kept, bytes, admitted, limits),
        kept.len() + 1 <= limits.children_per_directory,
        bytes + entry_bytes(e) <= limits.directory_path_bytes,
    ensures
        retains(kept.insert(e), bytes + entry_bytes(e), admitted.insert(e), limits),
{
    broadcast use vstd::multiset::group_multiset_axioms;

    let k2 = kept.insert(e);
    let a2 = admitted.insert(e);
    assert forall|v: EntryModel| k2.count(v) <= a2.count(v) by {
        assert(kept.count(v) <= admitted.count(v));
    }
    assert forall|y: EntryModel| #[trigger] a2.sub(k2).count(y) == admitted.sub(kept).count(y) by {
        assert(kept.count(y) <= admitted.count(y));
    }
    assert forall|x: EntryModel, y: EntryModel|
        k2.contains(x) && #[trigger] a2.sub(k2).contains(y) implies x == y || #[trigger] kept_before(x, y) by {
        assert(admitted.sub(kept).contains(y));
        if !kept.contains(x) {
            assert(x == e);
        }
    }
    assert forall|y: EntryModel| #[trigger] a2.sub(k2).contains(y) implies k2.len() >= limits.children_per_directory
        || bytes + entry_bytes(e) + entry_bytes(y) > limits.directory_path_bytes by {
        assert(admitted.sub(kept).contains(y));
    }
}

/// Retaining an entry past a ceiling and giving up the last in retention
/// order keeps what the directory retains right.
proof fn lemma_retain_over(
    kept: Multiset<EntryModel>,
    bytes: int,
    admitted: Multiset<EntryModel>,
    e: EntryModel,
    m: EntryModel,
    limits: FileTreeLimits,
)
    requires
        retains(kept, bytes, admitted, limits),
        kept.insert(e).contains(m),
        forall|y: EntryModel| #[trigger] kept.insert(e).contains(y) ==> y == m || kept_before(y, m),
        kept.insert(e).len() > limits.children_per_directory || bytes + entry_bytes(e) > limits.directory_path_bytes,
    ensures
        entry_bytes(e) <= entry_bytes(m),
        retains(kept.insert(e).remove(m), bytes + entry_bytes(e) - entry_bytes(m), admitted.insert(e), limits),
{
    broadcast use vstd::multiset::group_multiset_axioms;

    let p = kept.insert(e);
    let k2 = p.remove(m);
    let a2 = admitted.insert(e);
    let b2 = bytes + entry_bytes(e) - entry_bytes(m);
    assert(p.contains(e));
    assert(e == m || kept_before(e, m));
    assert forall|v: EntryModel| k2.count(v) <= a2.count(v) by {
        assert(kept.count(v) <= admitted.count(v));
    }
    assert(k2.len() == p.len() - 1);
    assert(p.len() == kept.len() + 1);
    assert forall|y: EntryModel| #[trigger] a2.sub(k2).contains(y) implies admitted.sub(kept).contains(y) || y == m by {
        assert(kept.count(y) <= admitted.count(y));
    }
    if m != e {
        assert(kept.contains(m));
    }
    assert forall|x: EntryModel, y: EntryModel|
        k2.contains(x) && #[trigger] a2.sub(k2).contains(y) implies x == y || #[trigger] kept_before(x, y) by {
        assert(p.contains(x));
        if y == m {
        } else {
            assert(admitted.sub(kept).contains(y));
            if kept.contains(x) {
            } else {
                assert(x == e);
                if m == e {
                    assert(kept.contains(x));
                } else {
                    assert(m == y || kept_before(m, y));
                    lemma_kept_order(e, m, y);
                }
            }
        }
    }
    assert forall|y: EntryModel| #[trigger] a2.sub(k2).contains(y) implies k2.len() >= limits.children_per_directory
        || b2 + entry_bytes(y) > limits.directory_path_bytes by {
        if y == m {
        } else {
            assert(admitted.sub(kept).contains(y));
            if m != e {
                assert(m == y || kept_before(m, y));
            } else {
                assert(k2 =~= kept);
            }
        }
    }
    if m == e {
        assert(k2 =~= kept);
    }
}

/// What a directory retains depends only on which entries were admitted to
/// it: two retained lists that are right for the same admitted entries
/// hold the same entries and the same path bytes.
pub proof fn law_retention_is_determined(
    a: Seq<EntryModel>,
    b: Seq<EntryModel>,
    admitted: Multiset<EntryModel>,
    limits: FileTreeLimits,
)
    requires
        retains(a.to_multiset(), total_bytes(a), admitted, limits),
        retains(b.to_multiset(), total_bytes(b), admitted, limits),
    ensures
        a.to_multiset() == b.to_multiset(),
        total_bytes(a) == total_bytes(b),
{
    broadcast use vstd::multiset::group_multiset_axioms;

    let ma = a.to_multiset();
    let mb = b.to_multiset();
    if !ma.subset_of(mb) && !mb.subset_of(ma) {
        let x = choose|v: EntryModel| ma.count(v) > mb.count(v);
        let y = choose|v: EntryModel| mb.count(v) > ma.count(v);
        assert(admitted.sub(mb).contains(x));
        assert(admitted.sub(ma).contains(y));
        lemma_kept_order(x, y, x);
    }
    if ma.subset_of(mb) {
        lemma_one_way(a, b, admitted, limits);
    } else {
        lemma_one_way(b, a, admitted, limits);
    }
    assert(ma =~= mb);
    lemma_total_mono(a, b);
    lemma_total_mono(b, a);
}

proof fn lemma_one_way(a: Seq<EntryModel>, b: Seq<EntryModel>, admitted: Multiset<EntryModel>, limits: FileTreeLimits)
    requires
        retains(a.to_multiset(), total_bytes(a), admitted, limits),
        retains(b.to_multiset(), total_bytes(b), admitted, limits),
        a.to_multiset().subset_of(b.to_multiset()),
    ensures
        b.to_multiset().subset_of(a.to_multiset()),
{
    broadcast use vstd::multiset::group_multiset_axioms;

    let ma = a.to_multiset();
    let mb = b.to_multiset();
    if !mb.subset_of(ma) {
        let y = choose|v: EntryModel| mb.count(v) > ma.count(v);
        assert(admitted.sub(ma).contains(y));
        vstd::seq_lib::to_multiset_build(a, y);
        assert(a.push(y).to_multiset().subset_of(mb));
        lemma_total_mono(a.push(y), b);
        assert(a.push(y).drop_last() =~= a);
        assert(mb.sub(ma.insert(y)).len() == mb.len() - ma.insert(y).len());
    }
}

/// A scan in progress: the directory, its depth, the ceilings, the entries
/// retained so far, their path bytes, what was counted, and the first
/// error recorded.
pub struct DirectoryScan {
    relative: String,
    depth: usize,
    limits: FileTreeLimits,
    entries: Vec<FileTreeEntry>,
    path_bytes: usize,
    report: DirectoryReport,
    first_error: Option<String>,
    admitted: Ghost<Multiset<EntryModel>>,
}

/// A scan, as values; `admitted` holds every entry offered for retention.
pub struct ScanModel {
    pub relative: Seq<char>,
    pub depth: usize,
    pub limits: FileTreeLimits,
    pub entries: Multiset<EntryModel>,
    pub path_bytes: usize,
    pub report: DirectoryReport,
    pub first_error: Option<Seq<char>>,
    pub admitted: Multiset<EntryModel>,
}

/// The models of `v`'s entries.
pub open spec fn entry_models(v: Seq<FileTreeEntry>) -> Seq<EntryModel> {
    v.map_values(|e: FileTreeEntry| e@)
}

impl View for DirectoryScan {
    type V = ScanModel;

    closed spec fn view(&self) -> ScanModel {
        ScanModel {
            relative: self.relative@,
            depth: self.depth,
            limits: self.limits,
            entries: entry_models(self.entries@).to_multiset(),
            path_bytes: self.path_bytes,
            report: self.report,
            first_error: opt_text(self.first_error),
            admitted: self.admitted@,
        }
    }
}

/// What a scan never exceeds: its entry ceiling, and, where the ceilings
/// leave no room to saturate, its byte ceiling.
pub open spec fn scan_bounded(s: ScanModel) -> bool {
    &&& s.entries.len() <= s.limits.children_per_directory
    &&& bytes_tracked(s.limits) ==> s.path_bytes <= s.limits.directory_path_bytes
}

/// The entry for `name` of kind `kind` inside the scanned directory.
pub open spec fn entry_for(s: ScanModel, name: Seq<char>, kind: FileTreeEntryKind) -> EntryModel {
    let path = child_path(s.relative, name);
    EntryModel {
        kind,
        path,
        name_start: (utf8_len(path) - utf8_len(name)) as u16,
        depth: s.depth as u16,
    }
}

/// An entry named `name` would pass the path-byte or depth ceiling.
pub open spec fn beyond_ceilings(s: ScanModel, name: Seq<char>) -> bool {
    utf8_len(child_path(s.relative, name)) > s.limits.path_bytes || s.depth + 1 > s.limits.depth
}

/// The scan with one more omission.
pub open spec fn omitting(s: ScanModel, truncated: bool) -> ScanModel {
    ScanModel {
        report: DirectoryReport {
            omitted: sat(s.report.omitted + 1) as usize,
            truncated: s.report.truncated || truncated,
            ..s.report
        },
        ..s
    }
}

/// The scan after retaining `e`: past either ceiling, the entry last in
/// retention order is given up again, counted as omitted and truncating.
pub open spec fn retaining(s: ScanModel, e: EntryModel) -> ScanModel {
    let all = s.entries.insert(e);
    let bytes = sat_add(s.path_bytes as int, entry_bytes(e));
    if all.len() > s.limits.children_per_directory || bytes > s.limits.directory_path_bytes {
        let last = kept_last(all);
        ScanModel {
            entries: all.remove(last),
            path_bytes: sat_sub(bytes, entry_bytes(last)) as usize,
            admitted: s.admitted.insert(e),
            ..omitting(s, true)
        }
    } else {
        ScanModel { entries: all, path_bytes: bytes as usize, admitted: s.admitted.insert(e), ..s }
    }
}

/// The scan after offering `name` of kind `kind`: an ignored entry, or one
/// past the path-byte or depth ceiling, is omitted, the latter truncating;
/// any other is retained.
pub open spec fn offered(s: ScanModel, name: Seq<char>, kind: FileTreeEntryKind, ignored: bool) -> ScanModel {
    if ignored {
        omitting(s, false)
    } else if beyond_ceilings(s, name) {
        omitting(s, true)
    } else {
        retaining(s, entry_for(s, name, kind))
    }
}

/// `after` keeps `before`'s first error, or, without one, records `detail`
/// cut to the bounded length.
pub open spec fn first_error_kept(before: Option<Seq<char>>, after: Option<Seq<char>>, detail: Seq<char>) -> bool {
    match before {
        Some(t) => after == Some(t),
        None => after matches Some(t) && encode_utf8(t) == bounded_text_spec(detail),
    }
}

/// The listing order holds between every two entries.
pub open spec fn listed_sorted(s: Seq<EntryModel>) -> bool {
    forall|i: int, j: int| 0 <= i < j < s.len() ==> !listed_before(#[trigger] s[j], #[trigger] s[i])
}

/// The encoding of a non-empty text is non-empty.
proof fn lemma_encode_nonempty(s: Seq<char>)
    requires
        s.len() > 0,
    ensures
        encode_utf8(s).len() > 0,
{
    vstd::utf8::encode_utf8_first_scalar(s);
}

/// The encoding of `a + b` has a character boundary where `a` ends.
proof fn lemma_boundary_after(a: Seq<char>, b: Seq<char>)
    ensures
        is_char_boundary(encode_utf8(a + b), encode_utf8(a).len() as int),
    decreases a.len(),
{
    broadcast use vstd::utf8::encode_utf8_valid_utf8;

    if a.len() > 0 {
        let c = a + b;
        let bytes = encode_utf8(c);
        assert(c[0] == a[0]);
        vstd::utf8::encode_utf8_first_scalar(c);
        assert(c.drop_first() =~= a.drop_first() + b);
        assert(vstd::utf8::pop_first_scalar(bytes) =~= encode_utf8(c.drop_first()));
        lemma_boundary_after(a.drop_first(), b);
        vstd::utf8::encode_utf8_first_scalar(a);
    }
}

/// A child path's name starts at a character boundary, after the
/// directory's bytes and separator, and the path is longer than the
/// directory.
proof fn lemma_child_layout(relative: Seq<char>, name: Seq<char>)
    requires
        name.len() > 0,
    ensures
        ({
            let path = path_bytes(child_path(relative, name));
            &&& path.len() == (if relative.len() == 0 {
                0
            } else {
                path_bytes(relative).len() + 1
            }) + path_bytes(name).len()
            &&& is_char_boundary(path, path.len() - path_bytes(name).len())
            &&& path_bytes(relative).len() < path.len()
        }),
{
    broadcast use vstd::utf8::encode_utf8_valid_utf8;

    reveal_strlit("/");
    lemma_encode_nonempty(name);
    if relative.len() == 0 {
        assert(encode_utf8(relative).len() == 0);
        assert(is_char_boundary(path_bytes(name), 0));
    } else {
        let head = relative + "/"@;
        lemma_encode_concat(relative, "/"@);
        lemma_encode_concat(head, name);
        assert(encode_utf8("/"@).len() == 1) by {
            assert("/"@.len() == 1);
            assert("/"@.drop_first() =~= Seq::<char>::empty());
            assert(encode_utf8("/"@.drop_first()).len() == 0);
            assert(vstd::utf8::encode_scalar(('/' as u32)).len() == 1);
        }
        lemma_boundary_after(head, name);
    }
}

/// Inserting an entry after every entry that does not list after it, and
/// before the first that does, keeps a sequence in listing order.
proof fn lemma_insert_sorted(s: Seq<EntryModel>, p: int, e: EntryModel)
    requires
        listed_sorted(s),
        0 <= p <= s.len(),
        forall|j: int| 0 <= j < p ==> !listed_before(e, #[trigger] s[j]),
        p < s.len() ==> listed_before(e, s[p]),
    ensures
        listed_sorted(s.insert(p, e)),
{
    let n = s.insert(p, e);
    assert forall|i: int, j: int| 0 <= i < j < n.len() implies !listed_before(#[trigger] n[j], #[trigger] n[i]) by {
        if j < p {
            assert(n[i] == s[i] && n[j] == s[j]);
        } else if j == p {
            assert(n[i] == s[i]);
        } else if i == p {
            assert(n[j] == s[j - 1]);
            lemma_listed_order(s[p], s[j - 1], e);
            lemma_listed_order(e, s[p], s[j - 1]);
            lemma_listed_order(s[j - 1], e, s[j - 1]);
        } else if i < p {
            assert(n[i] == s[i] && n[j] == s[j - 1]);
        } else {
            assert(n[i] == s[i - 1] && n[j] == s[j - 1]);
        }
    }
}

impl DirectoryScan {
    /// Whether the scan keeps its invariant: valid ceilings, entries below
    /// the directory with names at boundaries, within the entry and
    /// path-byte ceilings, and a byte count that is the entries' total
    /// wherever the ceilings leave no room to saturate.
    pub closed spec fn wf(&self) -> bool {
        let entries = entry_models(self.entries@);
        &&& tree_limits_valid(self.limits)
        &&& entries_below(self.relative@, entries)
        &&& names_at_boundaries(entries)
        &&& self.depth == relative_depth(self.relative@)
        &&& entries.len() <= self.limits.children_per_directory
        &&& self.report.scanned <= self.limits.scanned_per_directory
        &&& forall|k: int| 0 <= k < entries.len() ==> entry_bytes(#[trigger] entries[k]) <= self.limits.path_bytes
        &&& bytes_tracked(self.limits) ==> self.path_bytes == total_bytes(entries) && total_bytes(entries)
            <= self.limits.directory_path_bytes && retains(
            entries.to_multiset(),
            self.path_bytes as int,
            self.admitted@,
            self.limits,
        )
    }

    /// Where the ceilings leave no room to saturate, a scan retains exactly
    /// the entries that come first in retention order among those admitted
    /// and fit both ceilings.
    pub proof fn lemma_retains(&self)
        requires
            self.wf(),
            bytes_tracked(self@.limits),
        ensures
            retains(self@.entries, self@.path_bytes as int, self@.admitted, self@.limits),
    {
    }

    /// A well-formed scan stays within its ceilings.
    pub proof fn lemma_bounded(&self)
        requires
            self.wf(),
        ensures
            scan_bounded(self@),
    {
        vstd::seq_lib::to_multiset_len(entry_models(self.entries@));
    }

    /// Two scans under the same ceilings, to which the same entries were
    /// admitted in whatever order, retain the same entries and path bytes.
    pub proof fn law_scans_agree(&self, other: &DirectoryScan)
        requires
            self.wf(),
            other.wf(),
            self@.limits == other@.limits,
            bytes_tracked(self@.limits),
            self@.admitted == other@.admitted,
        ensures
            self@.entries == other@.entries,
            self@.path_bytes == other@.path_bytes,
    {
        law_retention_is_determined(
            entry_models(self.entries@),
            entry_models(other.entries@),
            self@.admitted,
            self@.limits,
        );
    }

    /// A scan of `relative` under `limits`, with nothing counted; refused
    /// for invalid limits.
    pub fn new(relative: &str, limits: FileTreeLimits) -> (r: Result<DirectoryScan, FileTreeError>)
        requires
            path_bytes(relative@).len() < usize::MAX,
        ensures
            r is Err <==> !tree_limits_valid(limits),
            r matches Err(e) ==> e == FileTreeError::InvalidLimits,
            r matches Ok(s) ==> s.wf() && s@ == (ScanModel {
                relative: relative@,
                depth: relative_depth(relative@) as usize,
                limits,
                entries: Multiset::empty(),
                path_bytes: 0,
                report: DirectoryReport {
                    scanned: 0,
                    retained: 0,
                    path_bytes: 0,
                    omitted: 0,
                    errors: 0,
                    truncated: false,
                },
                first_error: None,
                admitted: Multiset::empty(),
            }),
    {
        if !limits.is_valid() {
            return Err(FileTreeError::InvalidLimits);
        }
        let bytes = relative.as_bytes();
        let mut slashes: usize = 0;
        let mut i: usize = 0;
        while i < bytes.len()
            invariant
                bytes@ == path_bytes(relative@),
                i <= bytes@.len(),
                slashes == slash_count(bytes@.take(i as int)),
                slashes <= i,
            decreases bytes@.len() - i,
        {
            proof {
                assert(bytes@.take(i + 1).drop_last() =~= bytes@.take(i as int));
            }
            if bytes[i] == 47 {
                slashes = slashes + 1;
            }
            i += 1;
        }
        assert(bytes@.take(bytes@.len() as int) =~= bytes@);
        let depth = if bytes.len() == 0 {
            0
        } else {
            slashes + 1
        };
        proof {
            if relative@.len() > 0 {
                lemma_encode_nonempty(relative@);
            } else {
                assert(path_bytes(relative@).len() == 0);
            }
        }
        let scan = DirectoryScan {
            relative: String::from_str(relative),
            depth,
            limits,
            entries: Vec::new(),
            path_bytes: 0,
            report: DirectoryReport { scanned: 0, retained: 0, path_bytes: 0, omitted: 0, errors: 0, truncated: false },
            first_error: None,
            admitted: Ghost(Multiset::empty()),
        };
        proof {
            assert(entry_models(scan.entries@) =~= Seq::<EntryModel>::empty());
            assert(Seq::<EntryModel>::empty().to_multiset() =~= Multiset::<EntryModel>::empty()) by {
                vstd::seq_lib::to_multiset_len(Seq::<EntryModel>::empty());
            }
            broadcast use vstd::multiset::group_multiset_axioms;
            assert(retains(Multiset::empty(), 0, Multiset::empty(), limits)) by {
                assert forall|y: EntryModel| !(#[trigger] Multiset::<EntryModel>::empty().sub(Multiset::empty()).contains(y)) by {}
            }
        }
        Ok(scan)
    }

    /// Counts the next entry read, or, at the scan ceiling, counts it as
    /// omitted, marks the listing truncated and refuses it: the scan stops.
    pub fn begin_entry(&mut self) -> (r: bool)
        requires
            old(self).wf(),
        ensures
            final(self).wf(),
            r == (old(self)@.report.scanned < old(self)@.limits.scanned_per_directory),
            final(self)@ == if r {
                ScanModel {
                    report: DirectoryReport { scanned: (old(self)@.report.scanned + 1) as usize, ..old(self)@.report },
                    ..old(self)@
                }
            } else {
                omitting(old(self)@, true)
            },
    {
        if self.report.scanned == self.limits.scanned_per_directory {
            self.report.truncated = true;
            self.report.omitted = self.report.omitted.saturating_add(1);
            false
        } else {
            self.report.scanned = self.report.scanned + 1;
            true
        }
    }

    /// Records an entry that could not be read: one more error and one more
    /// omission, and `detail` as the first error when there is none yet.
    pub fn record_failure(&mut self, detail: &str)
        requires
            old(self).wf(),
        ensures
            final(self).wf(),
            first_error_kept(old(self)@.first_error, final(self)@.first_error, detail@),
            final(self)@ == (ScanModel {
                report: DirectoryReport {
                    errors: sat(old(self)@.report.errors + 1) as usize,
                    omitted: sat(old(self)@.report.omitted + 1) as usize,
                    ..old(self)@.report
                },
                first_error: final(self)@.first_error,
                ..old(self)@
            }),
    {
        self.report.errors = self.report.errors.saturating_add(1);
        self.report.omitted = self.report.omitted.saturating_add(1);
        if self.first_error.is_none() {
            self.first_error = Some(bounded_text(detail));
        }
    }

    /// Records an error that omits no entry, such as an unreadable ignore
    /// file: one more error, and `detail` as the first error when there is
    /// none yet.
    pub fn record_error(&mut self, detail: &str)
        requires
            old(self).wf(),
        ensures
            final(self).wf(),
            first_error_kept(old(self)@.first_error, final(self)@.first_error, detail@),
            final(self)@ == (ScanModel {
                report: DirectoryReport { errors: sat(old(self)@.report.errors + 1) as usize, ..old(self)@.report },
                first_error: final(self)@.first_error,
                ..old(self)@
            }),
    {
        self.report.errors = self.report.errors.saturating_add(1);
        if self.first_error.is_none() {
            self.first_error = Some(bounded_text(detail));
        }
    }

    /// Counts an entry the listing leaves out: a name that is not text, or
    /// an entry that is neither a directory nor a regular file.
    pub fn skip(&mut self)
        requires
            old(self).wf(),
        ensures
            final(self).wf(),
            final(self)@ == omitting(old(self)@, false),
    {
        self.report.omitted = self.report.omitted.saturating_add(1);
    }

    /// Whether the listing may hold an entry named `name`; the repository
    /// directory `.git` is counted as omitted instead.
    pub fn admit_name(&mut self, name: &str) -> (r: bool)
        requires
            old(self).wf(),
        ensures
            final(self).wf(),
            r == (name@ != ".git"@),
            final(self)@ == if r {
                old(self)@
            } else {
                omitting(old(self)@, false)
            },
    {
        if crate::text::str_eq(name, ".git") {
            self.report.omitted = self.report.omitted.saturating_add(1);
            false
        } else {
            true
        }
    }

    /// Offers the entry `name` of kind `kind`, read from the directory, with
    /// `ignored` telling whether the ignore rules exclude it. An ignored
    /// entry, or one past the path-byte or depth ceiling, is counted as
    /// omitted; any other is retained, and past the entry or byte ceiling
    /// the entry last in retention order is given up again. Refused, with
    /// nothing changed, when the entry's path or its storage cannot be had,
    /// or its name start or depth does not fit a `u16`.
    pub fn offer(&mut self, name: &str, kind: FileTreeEntryKind, ignored: bool) -> (r: Result<(), FileTreeError>)
        requires
            old(self).wf(),
            name@.len() > 0,
        ensures
            final(self).wf(),
            r is Ok ==> final(self)@ == offered(old(self)@, name@, kind, ignored),
            r matches Err(e) ==> e == FileTreeError::AllocationFailed && final(self)@ == old(self)@ && !ignored,
            !ignored && utf8_len(old(self)@.relative) + 1 + utf8_len(name@) > usize::MAX ==> r is Err,
            !ignored && !beyond_ceilings(old(self)@, name@) && (utf8_len(child_path(old(self)@.relative, name@))
                - utf8_len(name@) > u16::MAX || old(self)@.depth > u16::MAX) ==> r is Err,
    {
        let ghost m = self@;
        if ignored {
            self.report.omitted = self.report.omitted.saturating_add(1);
            return Ok(());
        }
        let path = match portable_child(self.relative.as_str(), name) {
            Ok(p) => p,
            Err(e) => return Err(e),
        };
        proof {
            lemma_child_layout(self.relative@, name@);
        }
        let plen = path.as_str().as_bytes().len();
        if plen > self.limits.path_bytes || self.depth >= self.limits.depth {
            self.report.omitted = self.report.omitted.saturating_add(1);
            self.report.truncated = true;
            return Ok(());
        }
        if self.entries.try_reserve(1).is_err() {
            return Err(FileTreeError::AllocationFailed);
        }
        let name_len = name.as_bytes().len();
        let name_start = plen - name_len;
        if name_start > 65535 || self.depth > 65535 {
            return Err(FileTreeError::AllocationFailed);
        }
        let entry = FileTreeEntry { kind, path, name_start: name_start as u16, depth: self.depth as u16 };
        let ghost e = entry@;
        let ghost before = entry_models(self.entries@);
        assert(e == entry_for(m, name@, kind));
        assert(before.to_multiset() == m.entries);
        self.path_bytes = if self.path_bytes > usize::MAX - plen {
            usize::MAX
        } else {
            self.path_bytes + plen
        };
        self.entries.push(entry);
        self.admitted = Ghost(self.admitted@.insert(e));
        let ghost pushed = entry_models(self.entries@);
        proof {
            assert(pushed =~= before.push(e));
            vstd::seq_lib::to_multiset_build(before, e);
            vstd::seq_lib::to_multiset_len(pushed);
            assert(pushed.drop_last() =~= before);
            if bytes_tracked(m.limits) {
                assert(total_bytes(pushed) == total_bytes(before) + entry_bytes(e));
            }
        }
        if self.entries.len() > self.limits.children_per_directory || self.path_bytes
            > self.limits.directory_path_bytes {
            let mut best: usize = 0;
            let mut k: usize = 1;
            while k < self.entries.len()
                invariant
                    entry_models(self.entries@) == pushed,
                    pushed.len() == self.entries@.len(),
                    1 <= k <= pushed.len(),
                    best < k,
                    forall|j: int| 0 <= j < k ==> pushed[j] == pushed[best as int] || kept_before(#[trigger] pushed[j], pushed[best as int]),
                decreases pushed.len() - k,
            {
                assert(pushed[best as int] == self.entries@[best as int]@);
                assert(pushed[k as int] == self.entries@[k as int]@);
                if kept_precedes(&self.entries[best], &self.entries[k]) {
                    proof {
                        assert forall|j: int| 0 <= j < k + 1 implies pushed[j] == pushed[k as int] || kept_before(
                            #[trigger] pushed[j],
                            pushed[k as int],
                        ) by {
                            lemma_kept_order(pushed[j], pushed[best as int], pushed[k as int]);
                        }
                    }
                    best = k;
                } else {
                    proof {
                        lemma_kept_order(pushed[k as int], pushed[best as int], pushed[best as int]);
                        lemma_kept_order(pushed[best as int], pushed[k as int], pushed[best as int]);
                    }
                }
                k += 1;
            }
            let ghost x = pushed[best as int];
            proof {
                let all = pushed.to_multiset();
                assert forall|y: EntryModel| #[trigger] all.contains(y) implies y == x || kept_before(y, x) by {
                    vstd::seq_lib::to_multiset_contains(pushed, y);
                    let j = choose|j: int| 0 <= j < pushed.len() && pushed[j] == y;
                    assert(pushed[j] == x || kept_before(pushed[j], x));
                }
                vstd::seq_lib::to_multiset_contains(pushed, x);
                assert(all.contains(x) && forall|y: EntryModel| #[trigger] all.contains(y) ==> y == x || kept_before(y, x));
                let c = kept_last(all);
                assert(all.contains(c) && forall|y: EntryModel| #[trigger] all.contains(y) ==> y == c || kept_before(y, c));
                lemma_kept_order(c, x, c);
                assert(c == x);
                vstd::seq_lib::to_multiset_remove(pushed, best as int);
                lemma_total_remove(pushed, best as int);
                lemma_total_covers(pushed, best as int);
                assert(e == x || kept_before(e, x)) by {
                    assert(pushed[pushed.len() - 1] == e);
                }
                if bytes_tracked(m.limits) {
                    lemma_retain_over(m.entries, m.path_bytes as int, m.admitted, e, x, m.limits);
                }
            }
            let removed = self.entries.remove(best);
            let rlen = removed.path.as_str().as_bytes().len();
            self.path_bytes = if self.path_bytes < rlen {
                0
            } else {
                self.path_bytes - rlen
            };
            self.report.omitted = self.report.omitted.saturating_add(1);
            self.report.truncated = true;
            proof {
                let rest = entry_models(self.entries@);
                assert(rest =~= pushed.remove(best as int));
                vstd::seq_lib::to_multiset_len(pushed.remove(best as int));
            }
        } else {
            proof {
                if bytes_tracked(m.limits) {
                    lemma_retain_fits(m.entries, m.path_bytes as int, m.admitted, e, m.limits);
                }
            }
        }
        Ok(())
    }

    /// The listing the scan produced: the retained entries in listing
    /// order, and the report with their number and path bytes.
    pub fn finish(self) -> (r: DirectoryResult)
        requires
            self.wf(),
        ensures
            r@.relative == self@.relative,
            listed_sorted(r@.entries),
            r@.entries.to_multiset() == self@.entries,
            r@.report == (DirectoryReport {
                retained: self@.entries.len() as usize,
                path_bytes: self@.path_bytes,
                ..self@.report
            }),
            r@.first_error == self@.first_error,
    {
        let ghost original = entry_models(self.entries@);
        let ghost whole = self@;
        let DirectoryScan { relative, depth: _, limits: _, entries, path_bytes: byte_total, report, first_error, admitted: _ } = self;
        let mut source = entries;
        let mut sorted: Vec<FileTreeEntry> = Vec::new();
        proof {
            assert(entry_models(sorted@) =~= Seq::<EntryModel>::empty());
            assert(entry_models(source@) == original);
            vstd::seq_lib::to_multiset_len(Seq::<EntryModel>::empty());
            assert(Seq::<EntryModel>::empty().to_multiset() =~= Multiset::<EntryModel>::empty());
            assert(Multiset::<EntryModel>::empty().add(original.to_multiset()) =~= original.to_multiset());
        }
        while source.len() > 0
            invariant
                entry_models(sorted@).to_multiset().add(entry_models(source@).to_multiset()) == original.to_multiset(),
                listed_sorted(entry_models(sorted@)),
                entries_below(relative@, entry_models(sorted@)),
                names_at_boundaries(entry_models(sorted@)),
                entries_below(relative@, entry_models(source@)),
                names_at_boundaries(entry_models(source@)),
            decreases source@.len(),
        {
            let ghost src = entry_models(source@);
            let ghost srt = entry_models(sorted@);
            let e = source.pop().unwrap();
            proof {
                assert(entry_models(source@) =~= src.drop_last());
                assert(src =~= entry_models(source@).push(e@));
                vstd::seq_lib::to_multiset_build(entry_models(source@), e@);
            }
            let mut p: usize = 0;
            while p < sorted.len()
                invariant
                    entry_models(sorted@) == srt,
                    p <= srt.len(),
                    forall|j: int| 0 <= j < p ==> !listed_before(e@, #[trigger] srt[j]),
                ensures
                    p <= srt.len(),
                    forall|j: int| 0 <= j < p ==> !listed_before(e@, #[trigger] srt[j]),
                    p < srt.len() ==> listed_before(e@, srt[p as int]),
                decreases srt.len() - p,
            {
                assert(srt[p as int] == sorted@[p as int]@);
                if listed_precedes(&e, &sorted[p]) {
                    break;
                }
                p += 1;
            }
            let ghost ev = e@;
            sorted.insert(p, e);
            proof {
                let now = entry_models(sorted@);
                assert(now =~= srt.insert(p as int, ev));
                lemma_insert_sorted(srt, p as int, ev);
                vstd::seq_lib::to_multiset_insert(srt, p as int, ev);
                assert(now.to_multiset().add(entry_models(source@).to_multiset()) =~= srt.to_multiset().add(
                    src.to_multiset(),
                ));
                assert forall|k: int| 0 <= k < now.len() implies path_bytes(relative@).len() < path_bytes(
                    (#[trigger] now[k]).path,
                ).len() <= usize::MAX && now[k].name_start <= path_bytes(now[k].path).len() && is_char_boundary(
                    path_bytes(now[k].path),
                    now[k].name_start as int,
                ) by {
                    if k < p {
                        assert(now[k] == srt[k]);
                    } else if k == p {
                        assert(now[k] == src[src.len() - 1]);
                    } else {
                        assert(now[k] == srt[k - 1]);
                    }
                }
            }
        }
        let ghost done = entry_models(sorted@);
        proof {
            assert(entry_models(source@) =~= Seq::<EntryModel>::empty());
            vstd::seq_lib::to_multiset_len(Seq::<EntryModel>::empty());
            assert(Seq::<EntryModel>::empty().to_multiset() =~= Multiset::<EntryModel>::empty());
            assert(done.to_multiset().add(Multiset::<EntryModel>::empty()) =~= done.to_multiset());
            vstd::seq_lib::to_multiset_len(done);
            vstd::seq_lib::to_multiset_len(original);
        }
        let retained = sorted.len();
        let report = DirectoryReport { retained, path_bytes: byte_total, ..report };
        proof {
            assert(done =~= sorted@.map_values(|e: FileTreeEntry| e@));
        }
        DirectoryResult::from_parts(relative, sorted, report, first_error)
    }
}

/// How one set of ignore rules judges a path: no rule applies, or the
/// deciding rule ignores or lists it.
#[derive(Clone, Copy, Debug, Eq, PartialEq, Structural)]
pub enum IgnoreMatch {
    Unmatched,
    Ignore,
    Whitelist,
}

/// Whether rule sets judging a path in turn as `matches` leave it
/// ignored: the last one that decides wins, and none deciding lists it.
pub open spec fn ignore_verdict_spec(matches: Seq<IgnoreMatch>) -> bool
    decreases matches.len(),
{
    if matches.len() == 0 {
        false
    } else {
        match matches.last() {
            IgnoreMatch::Ignore => true,
            IgnoreMatch::Whitelist => false,
            IgnoreMatch::Unmatched => ignore_verdict_spec(matches.drop_last()),
        }
    }
}

/// Whether rule sets judging a path in turn as `matches` leave it ignored.
pub fn ignore_verdict(matches: &[IgnoreMatch]) -> (r: bool)
    ensures
        r == ignore_verdict_spec(matches@),
{
    let mut verdict = false;
    let mut i: usize = 0;
    while i < matches.len()
        invariant
            i <= matches@.len(),
            verdict == ignore_verdict_spec(matches@.take(i as int)),
        decreases matches@.len() - i,
    {
        proof {
            assert(matches@.take(i + 1).drop_last() =~= matches@.take(i as int));
        }
        match matches[i] {
            IgnoreMatch::Ignore => verdict = true,
            IgnoreMatch::Whitelist => verdict = false,
            IgnoreMatch::Unmatched => {},
        }
        i += 1;
    }
    assert(matches@.take(matches@.len() as int) =~= matches@);
    verdict
}

#[verifier::external_type_specification]
#[verifier::external_body]
pub struct ExGitignore(Gitignore);

/// How `matcher` judges `path`, a directory when `is_dir`: the answer of
/// `Gitignore::matched`, which depends on the matcher's rules and the path
/// alone.
pub uninterp spec fn gitignore_match(matcher: Gitignore, path: Seq<char>, is_dir: bool) -> IgnoreMatch;

/// `Gitignore::matched` on `path`, a directory when `is_dir`: how the
/// matcher's highest-precedence applicable rule judges it, if one applies.
/// The rules were read from files; the answer is named, not spelled out.
#[verifier::external_body]
fn gitignore_matched(matcher: &Gitignore, path: &str, is_dir: bool) -> (r: IgnoreMatch)
    ensures
        r == gitignore_match(*matcher, path@, is_dir),
{
    match matcher.matched(path, is_dir) {
        ignore::Match::None => IgnoreMatch::Unmatched,
        ignore::Match::Ignore(_) => IgnoreMatch::Ignore,
        ignore::Match::Whitelist(_) => IgnoreMatch::Whitelist,
    }
}

/// The answers of `matchers`, in order, for `path`.
pub open spec fn matcher_answers(matchers: Seq<Gitignore>, path: Seq<char>, is_dir: bool) -> Seq<IgnoreMatch> {
    Seq::new(matchers.len(), |j: int| gitignore_match(matchers[j], path, is_dir))
}

/// Whether `matchers`, consulted in order, leave `path` ignored: the
/// verdict of what each of them answered, a later one overriding an
/// earlier one.
pub fn ignored(matchers: &Vec<Gitignore>, path: &str, is_dir: bool) -> (r: bool)
    ensures
        r == ignore_verdict_spec(matcher_answers(matchers@, path@, is_dir)),
{
    let mut answers: Vec<IgnoreMatch> = Vec::new();
    let mut i: usize = 0;
    while i < matchers.len()
        invariant
            i <= matchers@.len(),
            answers@ == matcher_answers(matchers@, path@, is_dir).take(i as int),
        decreases matchers@.len() - i,
    {
        answers.push(gitignore_matched(&matchers[i], path, is_dir));
        proof {
            assert(answers@ =~= matcher_answers(matchers@, path@, is_dir).take(i + 1));
        }
        i += 1;
    }
    assert(answers@ =~= matcher_answers(matchers@, path@, is_dir));
    ignore_verdict(answers.as_slice())
}

} // verus!
