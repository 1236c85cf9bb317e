//! The rows a file tree shows, as values: the directory nodes it caches,
//! the rows under each, and the running row counts each shown directory
//! keeps to skip whole subtrees.
use crate::file_tree::{entries_below, DirectoryReport, EntryModel, FileTreeEntryKind, FileTreeRequestIdentity};
use crate::path_order::{bytes_before, lemma_before_irreflexive, path_bytes};
use vstd::prelude::*;

verus! {

/// Where a directory's listing stands.
#[derive(Clone, Copy, Debug, Eq, PartialEq, Structural)]
pub enum DirectoryLoad {
    Dormant,
    Loading(FileTreeRequestIdentity),
    Ready,
    Failed,
}

/// One cached directory, as values.
pub struct NodeModel {
    pub path: Seq<char>,
    pub generation: u64,
    pub expanded: bool,
    pub load: DirectoryLoad,
    pub entries: Seq<EntryModel>,
    pub prefix_rows: Seq<usize>,
    pub report: DirectoryReport,
    pub first_error: Option<Seq<char>>,
}

/// One visible row, as values.
pub struct RowModel {
    pub path: Seq<char>,
    pub name_start: u16,
    pub depth: u16,
    pub kind: FileTreeEntryKind,
    pub expanded: bool,
}

/// The cached directories are in strictly ascending byte order of path.
pub open spec fn nodes_sorted(nodes: Seq<NodeModel>) -> bool {
    forall|i: int, j: int|
        0 <= i < j < nodes.len() ==> bytes_before(
            path_bytes((#[trigger] nodes[i]).path),
            path_bytes((#[trigger] nodes[j]).path),
        )
}

/// The paths of the cached directories, in order.
pub open spec fn node_paths(nodes: Seq<NodeModel>) -> Seq<Seq<char>> {
    nodes.map_values(|n: NodeModel| n.path)
}

/// The position of `path` among `paths`.
pub open spec fn index_of_path(paths: Seq<Seq<char>>, path: Seq<char>) -> Option<int> {
    if exists|i: int| 0 <= i < paths.len() && paths[i] == path {
        Some(choose|i: int| 0 <= i < paths.len() && paths[i] == path)
    } else {
        None
    }
}

/// The cached directory whose path is `path`.
pub open spec fn node_at(nodes: Seq<NodeModel>, path: Seq<char>) -> Option<int> {
    index_of_path(node_paths(nodes), path)
}

/// In sorted nodes, the node with a path is the one found.
pub proof fn lemma_node_at_unique(nodes: Seq<NodeModel>, i: int)
    requires
        nodes_sorted(nodes),
        0 <= i < nodes.len(),
    ensures
        node_at(nodes, nodes[i].path) == Some(i),
{
    let p = nodes[i].path;
    let paths = node_paths(nodes);
    assert(paths[i] == p);
    let c = choose|c: int| 0 <= c < paths.len() && paths[c] == p;
    assert(0 <= c < nodes.len() && nodes[c].path == p);
    lemma_before_irreflexive(path_bytes(p));
    if c < i {
        assert(bytes_before(path_bytes(nodes[c].path), path_bytes(nodes[i].path)));
    } else if c > i {
        assert(bytes_before(path_bytes(nodes[i].path), path_bytes(nodes[c].path)));
    }
}

/// A directory shows its listing: it is expanded and its listing is ready.
pub open spec fn shown(n: NodeModel) -> bool {
    n.expanded && n.load == DirectoryLoad::Ready
}

/// `child` lies below `parent`: its path bytes are longer, within a `usize`.
pub open spec fn descends(parent: Seq<char>, child: Seq<char>) -> bool {
    path_bytes(parent).len() < path_bytes(child).len() <= usize::MAX
}

/// How far a path may still descend.
pub open spec fn room(path: Seq<char>) -> int {
    usize::MAX - path_bytes(path).len()
}

/// The row of entry `e`; a directory row is expanded when its cached node
/// is.
pub open spec fn entry_row(nodes: Seq<NodeModel>, e: EntryModel) -> RowModel {
    RowModel {
        path: e.path,
        name_start: e.name_start,
        depth: e.depth,
        kind: e.kind,
        expanded: e.kind == FileTreeEntryKind::Directory && match node_at(nodes, e.path) {
            Some(j) => nodes[j].expanded,
            None => false,
        },
    }
}

/// The rows below directory `path`, in display order: nothing unless it is
/// cached and shown; otherwise each entry's row followed by the rows below
/// it.
pub open spec fn rows_under(nodes: Seq<NodeModel>, path: Seq<char>) -> Seq<RowModel>
    decreases room(path), 1int, 0int,
{
    match node_at(nodes, path) {
        None => Seq::empty(),
        Some(i) => if shown(nodes[i]) {
            rows_from(nodes, path, nodes[i].entries, 0)
        } else {
            Seq::empty()
        },
    }
}

/// The rows of entries `k..` of directory `path`, each followed by the rows
/// below it.
pub open spec fn rows_from(nodes: Seq<NodeModel>, path: Seq<char>, entries: Seq<EntryModel>, k: int) -> Seq<
    RowModel,
>
    decreases room(path), 0int, entries.len() - k,
{
    if k < 0 || k >= entries.len() {
        Seq::empty()
    } else {
        seq![entry_row(nodes, entries[k])] + rows_below_entry(nodes, path, entries[k]) + rows_from(
            nodes,
            path,
            entries,
            k + 1,
        )
    }
}

/// The rows below entry `e` of directory `path`.
pub open spec fn rows_below_entry(nodes: Seq<NodeModel>, path: Seq<char>, e: EntryModel) -> Seq<RowModel>
    decreases room(path), 0int, 0int,
{
    if e.kind == FileTreeEntryKind::Directory && descends(path, e.path) {
        rows_under(nodes, e.path)
    } else {
        Seq::empty()
    }
}

/// `x`, or `usize::MAX` above it.
pub open spec fn sat(x: int) -> int {
    if x > usize::MAX {
        usize::MAX as int
    } else {
        x
    }
}

/// The rows below entry `e` counted, saturating.
pub open spec fn entry_weight(nodes: Seq<NodeModel>, path: Seq<char>, e: EntryModel) -> int {
    sat(rows_below_entry(nodes, path, e).len() as int)
}

/// The running row count after the first `k` entries of directory `path`:
/// each entry adds itself and the rows below it, saturating.
pub open spec fn cumulative(nodes: Seq<NodeModel>, path: Seq<char>, entries: Seq<EntryModel>, k: int) -> int
    decreases k,
{
    if k <= 0 {
        0
    } else {
        sat(sat(cumulative(nodes, path, entries, k - 1) + 1) + entry_weight(nodes, path, entries[k - 1]))
    }
}

/// Node `i` keeps the right running counts: those of its entries when it is
/// shown, none otherwise.
pub open spec fn node_counts_right(nodes: Seq<NodeModel>, i: int) -> bool {
    if shown(nodes[i]) {
        &&& nodes[i].prefix_rows.len() == nodes[i].entries.len()
        &&& forall|k: int|
            0 <= k < nodes[i].entries.len() ==> #[trigger] nodes[i].prefix_rows[k] == cumulative(
                nodes,
                nodes[i].path,
                nodes[i].entries,
                k + 1,
            )
    } else {
        nodes[i].prefix_rows.len() == 0
    }
}

/// Every directory reachable from `path` through shown directories keeps
/// the right running counts.
pub open spec fn counts_right_under(nodes: Seq<NodeModel>, path: Seq<char>) -> bool
    decreases room(path), 1int, 0int,
{
    match node_at(nodes, path) {
        None => true,
        Some(i) => node_counts_right(nodes, i) && (shown(nodes[i]) ==> counts_right_from(
            nodes,
            path,
            nodes[i].entries,
            0,
        )),
    }
}

/// Every directory reachable from entries `k..` of directory `path` keeps
/// the right running counts.
pub open spec fn counts_right_from(nodes: Seq<NodeModel>, path: Seq<char>, entries: Seq<EntryModel>, k: int) -> bool
    decreases room(path), 0int, entries.len() - k,
{
    if k < 0 || k >= entries.len() {
        true
    } else {
        (entries[k].kind == FileTreeEntryKind::Directory && descends(path, entries[k].path) ==> counts_right_under(
            nodes,
            entries[k].path,
        )) && counts_right_from(nodes, path, entries, k + 1)
    }
}

/// Two node lists agree on everything but their running counts.
pub open spec fn same_shape(a: Seq<NodeModel>, b: Seq<NodeModel>) -> bool {
    &&& a.len() == b.len()
    &&& forall|i: int| 0 <= i < a.len() ==> (#[trigger] a[i]) == NodeModel { prefix_rows: a[i].prefix_rows, ..b[i] }
}

/// Lists of the same shape find the same nodes.
pub proof fn lemma_same_shape_node_at(a: Seq<NodeModel>, b: Seq<NodeModel>, path: Seq<char>)
    requires
        same_shape(a, b),
    ensures
        node_at(a, path) == node_at(b, path),
{
    assert forall|i: int| 0 <= i < a.len() implies node_paths(a)[i] == node_paths(b)[i] by {
        assert(a[i] == NodeModel { prefix_rows: a[i].prefix_rows, ..b[i] });
    }
    assert(node_paths(a) =~= node_paths(b));
}

/// Lists of the same shape show the same rows.
pub proof fn lemma_same_shape_rows(a: Seq<NodeModel>, b: Seq<NodeModel>, path: Seq<char>)
    requires
        same_shape(a, b),
    ensures
        rows_under(a, path) == rows_under(b, path),
    decreases room(path), 1int, 0int,
{
    lemma_same_shape_node_at(a, b, path);
    match node_at(a, path) {
        None => {},
        Some(i) => {
            assert(a[i] == NodeModel { prefix_rows: a[i].prefix_rows, ..b[i] });
            if shown(a[i]) {
                lemma_same_shape_rows_from(a, b, path, a[i].entries, 0);
            }
        },
    }
}

/// Lists of the same shape show the same rows for a run of entries.
pub proof fn lemma_same_shape_rows_from(a: Seq<NodeModel>, b: Seq<NodeModel>, path: Seq<char>, entries: Seq<EntryModel>, k: int)
    requires
        same_shape(a, b),
    ensures
        rows_from(a, path, entries, k) == rows_from(b, path, entries, k),
    decreases room(path), 0int, entries.len() - k,
{
    if 0 <= k < entries.len() {
        let e = entries[k];
        lemma_same_shape_node_at(a, b, e.path);
        if let Some(j) = node_at(a, e.path) {
            assert(a[j] == NodeModel { prefix_rows: a[j].prefix_rows, ..b[j] });
        }
        assert(entry_row(a, e) == entry_row(b, e));
        if e.kind == FileTreeEntryKind::Directory && descends(path, e.path) {
            lemma_same_shape_rows(a, b, e.path);
        }
        assert(rows_below_entry(a, path, e) == rows_below_entry(b, path, e));
        lemma_same_shape_rows_from(a, b, path, entries, k + 1);
    }
}

/// Lists of the same shape count the same running totals.
pub proof fn lemma_same_shape_cumulative(a: Seq<NodeModel>, b: Seq<NodeModel>, path: Seq<char>, entries: Seq<EntryModel>, k: int)
    requires
        same_shape(a, b),
    ensures
        cumulative(a, path, entries, k) == cumulative(b, path, entries, k),
    decreases k,
{
    if k > 0 {
        lemma_same_shape_cumulative(a, b, path, entries, k - 1);
        let e = entries[k - 1];
        if e.kind == FileTreeEntryKind::Directory && descends(path, e.path) {
            lemma_same_shape_rows(a, b, e.path);
        }
        assert(rows_below_entry(a, path, e) == rows_below_entry(b, path, e));
    }
}

/// Rows of the first `k` entries of directory `path`, each with the rows
/// below it.
pub open spec fn count_first(nodes: Seq<NodeModel>, path: Seq<char>, entries: Seq<EntryModel>, k: int) -> int
    decreases k,
{
    if k <= 0 {
        0
    } else {
        count_first(nodes, path, entries, k - 1) + 1 + rows_below_entry(nodes, path, entries[k - 1]).len()
    }
}

/// The running count is the saturated count of rows so far.
pub proof fn lemma_cumulative_saturates(nodes: Seq<NodeModel>, path: Seq<char>, entries: Seq<EntryModel>, k: int)
    requires
        0 <= k <= entries.len(),
    ensures
        cumulative(nodes, path, entries, k) == sat(count_first(nodes, path, entries, k)),
        count_first(nodes, path, entries, k) >= 0,
    decreases k,
{
    if k > 0 {
        lemma_cumulative_saturates(nodes, path, entries, k - 1);
    }
}

/// The rows of entries `0..` are those of the first `k` entries followed by
/// those of entries `k..`.
pub proof fn lemma_rows_from_split(nodes: Seq<NodeModel>, path: Seq<char>, entries: Seq<EntryModel>, k: int)
    requires
        0 <= k <= entries.len(),
    ensures
        rows_from(nodes, path, entries, 0).len() == count_first(nodes, path, entries, k) + rows_from(
            nodes,
            path,
            entries,
            k,
        ).len(),
    decreases k,
{
    if k > 0 {
        lemma_rows_from_split(nodes, path, entries, k - 1);
        assert(rows_from(nodes, path, entries, k - 1).len() == 1 + rows_below_entry(
            nodes,
            path,
            entries[k - 1],
        ).len() + rows_from(nodes, path, entries, k).len());
    }
}

/// Counts that were right stay right when only running counts change and
/// every node keeps its counts or has them right.
pub proof fn lemma_counts_right_transfer(a: Seq<NodeModel>, b: Seq<NodeModel>, path: Seq<char>)
    requires
        same_shape(a, b),
        forall|i: int| 0 <= i < a.len() && node_counts_right(a, i) ==> #[trigger] node_counts_right(b, i),
        counts_right_under(a, path),
    ensures
        counts_right_under(b, path),
    decreases room(path), 1int, 0int,
{
    lemma_same_shape_node_at(a, b, path);
    match node_at(a, path) {
        None => {},
        Some(i) => {
            assert(a[i] == NodeModel { prefix_rows: a[i].prefix_rows, ..b[i] });
            if shown(a[i]) {
                lemma_counts_right_transfer_from(a, b, path, a[i].entries, 0);
            }
        },
    }
}

/// Counts that were right stay right, for a run of entries.
pub proof fn lemma_counts_right_transfer_from(
    a: Seq<NodeModel>,
    b: Seq<NodeModel>,
    path: Seq<char>,
    entries: Seq<EntryModel>,
    k: int,
)
    requires
        same_shape(a, b),
        forall|i: int| 0 <= i < a.len() && node_counts_right(a, i) ==> #[trigger] node_counts_right(b, i),
        counts_right_from(a, path, entries, k),
    ensures
        counts_right_from(b, path, entries, k),
    decreases room(path), 0int, entries.len() - k,
{
    if 0 <= k < entries.len() {
        if entries[k].kind == FileTreeEntryKind::Directory && descends(path, entries[k].path) {
            lemma_counts_right_transfer(a, b, entries[k].path);
        }
        lemma_counts_right_transfer_from(a, b, path, entries, k + 1);
    }
}

/// A node's counts are right in one list exactly when they are in another
/// of the same shape where the node keeps its counts.
pub proof fn lemma_node_counts_same_shape(a: Seq<NodeModel>, b: Seq<NodeModel>, i: int)
    requires
        same_shape(a, b),
        0 <= i < a.len(),
        a[i].prefix_rows == b[i].prefix_rows,
    ensures
        node_counts_right(a, i) == node_counts_right(b, i),
{
    assert(a[i] == NodeModel { prefix_rows: a[i].prefix_rows, ..b[i] });
    assert forall|k: int| 0 <= k < a[i].entries.len() implies #[trigger] cumulative(a, a[i].path, a[i].entries, k + 1)
        == cumulative(b, b[i].path, b[i].entries, k + 1) by {
        lemma_same_shape_cumulative(a, b, a[i].path, a[i].entries, k + 1);
    }
}

/// Every directory reachable from entries `k..` keeps right counts when
/// each directory entry's subtree does.
pub proof fn lemma_counts_right_from_all(nodes: Seq<NodeModel>, path: Seq<char>, entries: Seq<EntryModel>, k: int)
    requires
        0 <= k,
        forall|j: int|
            k <= j < entries.len() && (#[trigger] entries[j]).kind == FileTreeEntryKind::Directory && descends(
                path,
                entries[j].path,
            ) ==> counts_right_under(nodes, entries[j].path),
    ensures
        counts_right_from(nodes, path, entries, k),
    decreases entries.len() - k,
{
    if k < entries.len() {
        lemma_counts_right_from_all(nodes, path, entries, k + 1);
    }
}

/// The directories and entries in order, each entry strictly below its
/// directory.
pub open spec fn shape_wf(nodes: Seq<NodeModel>) -> bool {
    &&& nodes_sorted(nodes)
    &&& forall|i: int| 0 <= i < nodes.len() ==> entries_below((#[trigger] nodes[i]).path, nodes[i].entries)
}

/// Same shape is transitive.
pub proof fn lemma_same_shape_trans(a: Seq<NodeModel>, b: Seq<NodeModel>, c: Seq<NodeModel>)
    requires
        same_shape(a, b),
        same_shape(b, c),
    ensures
        same_shape(a, c),
{
    assert forall|i: int| 0 <= i < a.len() implies (#[trigger] a[i]) == NodeModel {
        prefix_rows: a[i].prefix_rows,
        ..c[i]
    } by {
        assert(a[i] == NodeModel { prefix_rows: a[i].prefix_rows, ..b[i] });
        assert(b[i] == NodeModel { prefix_rows: b[i].prefix_rows, ..c[i] });
    }
}

/// Same shape keeps the order and the entries.
pub proof fn lemma_same_shape_wf(a: Seq<NodeModel>, b: Seq<NodeModel>)
    requires
        same_shape(a, b),
        shape_wf(b),
    ensures
        shape_wf(a),
{
    assert forall|i: int, j: int| 0 <= i < j < a.len() implies bytes_before(
        path_bytes((#[trigger] a[i]).path),
        path_bytes((#[trigger] a[j]).path),
    ) by {
        assert(a[i] == NodeModel { prefix_rows: a[i].prefix_rows, ..b[i] });
        assert(a[j] == NodeModel { prefix_rows: a[j].prefix_rows, ..b[j] });
        assert(bytes_before(path_bytes(b[i].path), path_bytes(b[j].path)));
    }
    assert forall|i: int| 0 <= i < a.len() implies entries_below((#[trigger] a[i]).path, a[i].entries) by {
        assert(a[i] == NodeModel { prefix_rows: a[i].prefix_rows, ..b[i] });
        assert(entries_below(b[i].path, b[i].entries));
    }
}

/// The rows of entries `k..` follow the rows of the first `k` entries.
pub proof fn lemma_rows_from_skip(nodes: Seq<NodeModel>, path: Seq<char>, entries: Seq<EntryModel>, k: int)
    requires
        0 <= k <= entries.len(),
    ensures
        0 <= count_first(nodes, path, entries, k) <= rows_from(nodes, path, entries, 0).len(),
        rows_from(nodes, path, entries, 0).subrange(
            count_first(nodes, path, entries, k),
            rows_from(nodes, path, entries, 0).len() as int,
        ) == rows_from(nodes, path, entries, k),
    decreases k,
{
    lemma_rows_from_split(nodes, path, entries, k);
    lemma_cumulative_saturates(nodes, path, entries, k);
    if k > 0 {
        lemma_rows_from_skip(nodes, path, entries, k - 1);
        let all = rows_from(nodes, path, entries, 0);
        let prev = rows_from(nodes, path, entries, k - 1);
        let c = count_first(nodes, path, entries, k - 1);
        let below = rows_below_entry(nodes, path, entries[k - 1]);
        assert(prev == seq![entry_row(nodes, entries[k - 1])] + below + rows_from(nodes, path, entries, k));
        assert(all.subrange(c + 1 + below.len(), all.len() as int) =~= prev.subrange(
            1 + below.len() as int,
            prev.len() as int,
        ));
        assert(prev.subrange(1 + below.len() as int, prev.len() as int) =~= rows_from(nodes, path, entries, k));
    }
}

/// The rows of entry `k` and below it stand between the counts before and
/// after it.
pub proof fn lemma_rows_block(nodes: Seq<NodeModel>, path: Seq<char>, entries: Seq<EntryModel>, k: int)
    requires
        0 <= k < entries.len(),
    ensures
        0 <= count_first(nodes, path, entries, k),
        count_first(nodes, path, entries, k + 1) == count_first(nodes, path, entries, k) + 1 + rows_below_entry(
            nodes,
            path,
            entries[k],
        ).len(),
        count_first(nodes, path, entries, k + 1) <= rows_from(nodes, path, entries, 0).len(),
        rows_from(nodes, path, entries, 0).subrange(
            count_first(nodes, path, entries, k),
            count_first(nodes, path, entries, k + 1),
        ) == seq![entry_row(nodes, entries[k])] + rows_below_entry(nodes, path, entries[k]),
{
    lemma_rows_from_skip(nodes, path, entries, k);
    lemma_rows_from_skip(nodes, path, entries, k + 1);
    let all = rows_from(nodes, path, entries, 0);
    let c = count_first(nodes, path, entries, k);
    let d = count_first(nodes, path, entries, k + 1);
    let here = rows_from(nodes, path, entries, k);
    let below = rows_below_entry(nodes, path, entries[k]);
    assert(here == seq![entry_row(nodes, entries[k])] + below + rows_from(nodes, path, entries, k + 1));
    assert(all.subrange(c, d) =~= here.subrange(0, d - c));
    assert(here.subrange(0, d - c) =~= seq![entry_row(nodes, entries[k])] + below);
}

/// The first row at or after position `j` whose path is `target`.
pub open spec fn first_path_from(rows: Seq<RowModel>, target: Seq<char>, j: int) -> Option<int>
    decreases rows.len() - j,
{
    if j < 0 || j >= rows.len() {
        None
    } else if rows[j].path == target {
        Some(j)
    } else {
        first_path_from(rows, target, j + 1)
    }
}

/// Searching from the start of a block of `rows` finds the block's first
/// match, or continues after the block.
pub proof fn lemma_first_path_block(rows: Seq<RowModel>, target: Seq<char>, a: int, b: int, j: int)
    requires
        0 <= a <= j <= b <= rows.len(),
    ensures
        first_path_from(rows, target, j) == match first_path_from(rows.subrange(a, b), target, j - a) {
            Some(x) => Some(a + x),
            None => first_path_from(rows, target, b),
        },
    decreases b - j,
{
    if j < b {
        assert(rows.subrange(a, b)[j - a] == rows[j]);
        lemma_first_path_block(rows, target, a, b, j + 1);
    }
}

/// Row counts grow with the number of entries counted.
pub proof fn lemma_count_first_grows(nodes: Seq<NodeModel>, path: Seq<char>, entries: Seq<EntryModel>, i: int, j: int)
    requires
        0 <= i <= j <= entries.len(),
    ensures
        count_first(nodes, path, entries, i) + (j - i) <= count_first(nodes, path, entries, j),
    decreases j - i,
{
    if i < j {
        lemma_count_first_grows(nodes, path, entries, i, j - 1);
    }
}

/// A directory entry reachable through right counts has right counts
/// below it.
pub proof fn lemma_counts_right_from_get(nodes: Seq<NodeModel>, path: Seq<char>, entries: Seq<EntryModel>, k: int, j: int)
    requires
        0 <= k <= j < entries.len(),
        counts_right_from(nodes, path, entries, k),
        entries[j].kind == FileTreeEntryKind::Directory,
        descends(path, entries[j].path),
    ensures
        counts_right_under(nodes, entries[j].path),
    decreases j - k,
{
    if k < j {
        lemma_counts_right_from_get(nodes, path, entries, k + 1, j);
    }
}

/// Two node lists show the same rows and keep the same counts: they agree
/// on paths, expansion, which nodes are shown, shown nodes' entries, and
/// running counts.
pub open spec fn same_rows(a: Seq<NodeModel>, b: Seq<NodeModel>) -> bool {
    &&& a.len() == b.len()
    &&& forall|i: int|
        0 <= i < a.len() ==> {
            &&& (#[trigger] a[i]).path == b[i].path
            &&& a[i].expanded == b[i].expanded
            &&& shown(a[i]) == shown(b[i])
            &&& (shown(a[i]) ==> a[i].entries == b[i].entries)
            &&& a[i].prefix_rows == b[i].prefix_rows
        }
}

/// Lists that agree as `same_rows` asks find the same nodes.
pub proof fn lemma_same_rows_node_at(a: Seq<NodeModel>, b: Seq<NodeModel>, path: Seq<char>)
    requires
        same_rows(a, b),
    ensures
        node_at(a, path) == node_at(b, path),
{
    assert forall|i: int| 0 <= i < a.len() implies node_paths(a)[i] == node_paths(b)[i] by {
        assert(a[i].path == b[i].path);
    }
    assert(node_paths(a) =~= node_paths(b));
}

/// Lists that agree as `same_rows` asks show the same rows.
pub proof fn lemma_same_rows_rows(a: Seq<NodeModel>, b: Seq<NodeModel>, path: Seq<char>)
    requires
        same_rows(a, b),
    ensures
        rows_under(a, path) == rows_under(b, path),
    decreases room(path), 1int, 0int,
{
    lemma_same_rows_node_at(a, b, path);
    match node_at(a, path) {
        None => {},
        Some(i) => {
            assert(a[i].path == b[i].path);
            if shown(a[i]) {
                lemma_same_rows_rows_from(a, b, path, a[i].entries, 0);
            }
        },
    }
}

/// Lists that agree as `same_rows` asks show the same rows for a run of
/// entries.
pub proof fn lemma_same_rows_rows_from(a: Seq<NodeModel>, b: Seq<NodeModel>, path: Seq<char>, entries: Seq<EntryModel>, k: int)
    requires
        same_rows(a, b),
    ensures
        rows_from(a, path, entries, k) == rows_from(b, path, entries, k),
    decreases room(path), 0int, entries.len() - k,
{
    if 0 <= k < entries.len() {
        let e = entries[k];
        lemma_same_rows_node_at(a, b, e.path);
        if let Some(j) = node_at(a, e.path) {
            assert(a[j].expanded == b[j].expanded);
        }
        assert(entry_row(a, e) == entry_row(b, e));
        if e.kind == FileTreeEntryKind::Directory && descends(path, e.path) {
            lemma_same_rows_rows(a, b, e.path);
        }
        assert(rows_below_entry(a, path, e) == rows_below_entry(b, path, e));
        lemma_same_rows_rows_from(a, b, path, entries, k + 1);
    }
}

/// Lists that agree as `same_rows` asks keep right counts alike.
pub proof fn lemma_same_rows_counts(a: Seq<NodeModel>, b: Seq<NodeModel>, path: Seq<char>)
    requires
        same_rows(a, b),
        counts_right_under(a, path),
    ensures
        counts_right_under(b, path),
    decreases room(path), 1int, 0int,
{
    lemma_same_rows_node_at(a, b, path);
    match node_at(a, path) {
        None => {},
        Some(i) => {
            assert(a[i].path == b[i].path);
            if shown(a[i]) {
                assert forall|k: int| 0 <= k < b[i].entries.len() implies #[trigger] b[i].prefix_rows[k]
                    == cumulative(b, b[i].path, b[i].entries, k + 1) by {
                    lemma_same_rows_cumulative(a, b, a[i].path, a[i].entries, k + 1);
                }
                lemma_same_rows_counts_from(a, b, path, a[i].entries, 0);
            }
        },
    }
}

/// Lists that agree as `same_rows` asks keep right counts alike, for a run
/// of entries.
pub proof fn lemma_same_rows_counts_from(a: Seq<NodeModel>, b: Seq<NodeModel>, path: Seq<char>, entries: Seq<EntryModel>, k: int)
    requires
        same_rows(a, b),
        counts_right_from(a, path, entries, k),
    ensures
        counts_right_from(b, path, entries, k),
    decreases room(path), 0int, entries.len() - k,
{
    if 0 <= k < entries.len() {
        if entries[k].kind == FileTreeEntryKind::Directory && descends(path, entries[k].path) {
            lemma_same_rows_counts(a, b, entries[k].path);
        }
        lemma_same_rows_counts_from(a, b, path, entries, k + 1);
    }
}

/// Lists that agree as `same_rows` asks count alike.
pub proof fn lemma_same_rows_cumulative(a: Seq<NodeModel>, b: Seq<NodeModel>, path: Seq<char>, entries: Seq<EntryModel>, k: int)
    requires
        same_rows(a, b),
    ensures
        cumulative(a, path, entries, k) == cumulative(b, path, entries, k),
    decreases k,
{
    if k > 0 {
        lemma_same_rows_cumulative(a, b, path, entries, k - 1);
        let e = entries[k - 1];
        if e.kind == FileTreeEntryKind::Directory && descends(path, e.path) {
            lemma_same_rows_rows(a, b, e.path);
        }
        assert(rows_below_entry(a, path, e) == rows_below_entry(b, path, e));
    }
}

} // verus!
