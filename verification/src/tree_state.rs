//! The state of the workspace tree: activation, directory requests and
//! their answers, expansion, the visible rows and the selection.
use crate::file_tree::{
    bounded_message, bounded_text_spec, tree_error_message, tree_limits_valid, entries_below, names_at_boundaries, opt_text, DirectoryReport, DirectoryResult,
    EntryModel, FileTreeAction, FileTreeAdmission, FileTreeEntry, FileTreeEntryKind, FileTreeError,
    FileTreeLimits, FileTreeRequest, FileTreeRequestIdentity, FileTreeWorkerOutput, SessionFileTree,
    ListingModel, TreeRequestModel,
};
use crate::path_order::{
    bytes_before, compare_paths, lemma_before_asymmetric, lemma_before_irreflexive, lemma_before_transitive,
    path_bytes, PathOrder,
};
use crate::tree_rows::{
    lemma_same_rows_counts, lemma_same_rows_rows, same_rows,
    lemma_count_first_grows, lemma_counts_right_from_get,
    first_path_from, lemma_first_path_block, lemma_rows_block, lemma_rows_from_skip,
    lemma_same_shape_cumulative,
    count_first, counts_right_from, counts_right_under, cumulative, descends, entry_row, lemma_counts_right_transfer,
    lemma_cumulative_saturates, lemma_node_at_unique, lemma_node_counts_same_shape, lemma_rows_from_split,
    lemma_same_shape_node_at, lemma_same_shape_rows, node_at, node_counts_right, node_paths, nodes_sorted, room,
    rows_below_entry, rows_from, rows_under, same_shape, sat, shown, DirectoryLoad, NodeModel, RowModel,
    lemma_counts_right_from_all, shape_wf, lemma_same_shape_trans, lemma_same_shape_wf,
};
use crate::text::str_eq;
use crate::file_tree::{restored_identity, valid_restored_path};
use crate::std_calls::vec_try_reserve_exact;
use vstd::prelude::*;
use vstd::string::StringExecFns;
use vstd::utf8::is_char_boundary;

verus! {

struct DirectoryNode {
    path: String,
    generation: u64,
    expanded: bool,
    load: DirectoryLoad,
    entries: Vec<FileTreeEntry>,
    prefix_rows: Vec<usize>,
    report: DirectoryReport,
    first_error: Option<String>,
}

spec fn node_model(n: DirectoryNode) -> NodeModel {
    NodeModel {
        path: n.path@,
        generation: n.generation,
        expanded: n.expanded,
        load: n.load,
        entries: n.entries@.map_values(|e: FileTreeEntry| e@),
        prefix_rows: n.prefix_rows@,
        report: n.report,
        first_error: opt_text(n.first_error),
    }
}

/// The workspace tree: whether it is visible, active and focused, the
/// workspace it shows, its generations, the pending request, the cached
/// directories, the selection, the last error, and what it retains.
pub struct FileTreeState {
    visible: bool,
    active: bool,
    focused: bool,
    workspace: Option<u64>,
    tree_generation: u64,
    directory_generation: u64,
    request_generation: u64,
    pending: Option<FileTreeRequestIdentity>,
    nodes: Vec<DirectoryNode>,
    selected: Option<usize>,
    selected_path: Option<String>,
    error: Option<String>,
    retained_entries: usize,
    retained_path_bytes: usize,
    limits: FileTreeLimits,
}

/// A tree, as values.
pub struct TreeModel {
    pub visible: bool,
    pub active: bool,
    pub focused: bool,
    pub workspace: Option<u64>,
    pub tree_generation: u64,
    pub directory_generation: u64,
    pub request_generation: u64,
    pub pending: Option<FileTreeRequestIdentity>,
    pub nodes: Seq<NodeModel>,
    pub selected: Option<usize>,
    pub selected_path: Option<Seq<char>>,
    pub error: Option<Seq<char>>,
    pub retained_entries: usize,
    pub retained_path_bytes: usize,
    pub limits: FileTreeLimits,
}

impl View for FileTreeState {
    type V = TreeModel;

    closed spec fn view(&self) -> TreeModel {
        TreeModel {
            visible: self.visible,
            active: self.active,
            focused: self.focused,
            workspace: self.workspace,
            tree_generation: self.tree_generation,
            directory_generation: self.directory_generation,
            request_generation: self.request_generation,
            pending: self.pending,
            nodes: self.nodes@.map_values(|n: DirectoryNode| node_model(n)),
            selected: self.selected,
            selected_path: opt_text(self.selected_path),
            error: opt_text(self.error),
            retained_entries: self.retained_entries,
            retained_path_bytes: self.retained_path_bytes,
            limits: self.limits,
        }
    }
}

/// What every tree keeps: directories in ascending path order, each
/// listing entries below it whose names start at character boundaries,
/// right running counts for every directory reachable from the root,
/// distinct directory generations issued by the tree, and a pending
/// request whose directory, while cached, is the one loading it.
pub open spec fn tree_wf(m: TreeModel) -> bool {
    &&& tree_shape_ok(m)
    &&& counts_right_under(m.nodes, Seq::empty())
}

/// Everything the tree keeps but its running counts.
pub open spec fn tree_shape_ok(m: TreeModel) -> bool {
    &&& nodes_sorted(m.nodes)
    &&& forall|i: int|
        0 <= i < m.nodes.len() ==> entries_below((#[trigger] m.nodes[i]).path, m.nodes[i].entries)
            && names_at_boundaries(m.nodes[i].entries)
    &&& forall|i: int| 0 <= i < m.nodes.len() ==> (#[trigger] m.nodes[i]).generation <= m.directory_generation
    &&& forall|i: int, j: int|
        0 <= i < m.nodes.len() && 0 <= j < m.nodes.len() && i != j ==> (#[trigger] m.nodes[i]).generation
            != (#[trigger] m.nodes[j]).generation
    &&& forall|i: int|
        0 <= i < m.nodes.len() && (m.pending matches Some(id) && (#[trigger] m.nodes[i]).generation == id.directory)
            ==> m.nodes[i].load == DirectoryLoad::Loading(m.pending->0)
    &&& m.pending matches Some(id) ==> id.directory <= m.directory_generation
}

/// A tree whose shape holds keeps it when only its running counts change,
/// and keeps its invariant once the counts are right.
pub proof fn lemma_shape_after_recount(before: TreeModel, after: TreeModel)
    requires
        tree_shape_ok(before),
        same_shape(after.nodes, before.nodes),
        after == (TreeModel { nodes: after.nodes, ..before }),
        counts_right_under(after.nodes, Seq::empty()),
    ensures
        tree_wf(after),
{
    let a = after.nodes;
    let b = before.nodes;
    assert forall|i: int| 0 <= i < a.len() implies (#[trigger] a[i]) == NodeModel { prefix_rows: a[i].prefix_rows, ..b[i] } by {}
    assert forall|i: int, j: int| 0 <= i < j < a.len() implies bytes_before(
        path_bytes((#[trigger] a[i]).path),
        path_bytes((#[trigger] a[j]).path),
    ) by {
        assert(a[i] == NodeModel { prefix_rows: a[i].prefix_rows, ..b[i] });
        assert(a[j] == NodeModel { prefix_rows: a[j].prefix_rows, ..b[j] });
    }
    assert forall|i: int| 0 <= i < a.len() implies entries_below((#[trigger] a[i]).path, a[i].entries)
        && names_at_boundaries(a[i].entries) by {
        assert(a[i] == NodeModel { prefix_rows: a[i].prefix_rows, ..b[i] });
    }
    assert forall|i: int| 0 <= i < a.len() implies (#[trigger] a[i]).generation <= after.directory_generation by {
        assert(a[i] == NodeModel { prefix_rows: a[i].prefix_rows, ..b[i] });
    }
    assert forall|i: int, j: int|
        0 <= i < a.len() && 0 <= j < a.len() && i != j implies (#[trigger] a[i]).generation != (#[trigger] a[j]).generation by {
        assert(a[i] == NodeModel { prefix_rows: a[i].prefix_rows, ..b[i] });
        assert(a[j] == NodeModel { prefix_rows: a[j].prefix_rows, ..b[j] });
    }
    assert forall|i: int|
        0 <= i < a.len() && (after.pending matches Some(id) && (#[trigger] a[i]).generation == id.directory) implies a[i].load
        == DirectoryLoad::Loading(after.pending->0) by {
        assert(a[i] == NodeModel { prefix_rows: a[i].prefix_rows, ..b[i] });
    }
}

/// The rows the tree shows, in display order.
pub open spec fn tree_rows(m: TreeModel) -> Seq<RowModel> {
    rows_under(m.nodes, Seq::empty())
}

/// The tree shows fewer rows than a `usize` counts, so no count saturates.
pub open spec fn rows_countable(m: TreeModel) -> bool {
    tree_rows(m).len() < usize::MAX
}


/// One visible row: its position among the visible rows, its path, its
/// depth and kind, whether it is an expanded directory, and whether it is
/// selected.
pub struct VisibleFileTreeRow {
    index: usize,
    path: String,
    name_start: u16,
    depth: usize,
    kind: FileTreeEntryKind,
    expanded: bool,
    selected: bool,
}

/// A visible row, as values.
pub struct VisibleRowModel {
    pub index: usize,
    pub path: Seq<char>,
    pub name_start: u16,
    pub depth: usize,
    pub kind: FileTreeEntryKind,
    pub expanded: bool,
    pub selected: bool,
}

impl View for VisibleFileTreeRow {
    type V = VisibleRowModel;

    closed spec fn view(&self) -> VisibleRowModel {
        VisibleRowModel {
            index: self.index,
            path: self.path@,
            name_start: self.name_start,
            depth: self.depth,
            kind: self.kind,
            expanded: self.expanded,
            selected: self.selected,
        }
    }
}

/// Row `r` shown at position `index` of a tree whose selection is
/// `selected`.
pub open spec fn visible_row(r: RowModel, index: usize, selected: Option<usize>) -> VisibleRowModel {
    VisibleRowModel {
        index,
        path: r.path,
        name_start: r.name_start,
        depth: r.depth as usize,
        kind: r.kind,
        expanded: r.expanded,
        selected: selected == Some(index),
    }
}

impl VisibleFileTreeRow {
    #[verifier::type_invariant]
    spec fn name_at_boundary(self) -> bool {
        self.name_start <= path_bytes(self.path@).len() && is_char_boundary(
            path_bytes(self.path@),
            self.name_start as int,
        )
    }

    /// Position among the visible rows.
    pub fn index(&self) -> (r: usize)
        ensures
            r == self@.index,
    {
        self.index
    }

    /// The row's relative path.
    pub fn path(&self) -> (r: &str)
        ensures
            r@ == self@.path,
    {
        self.path.as_str()
    }

    /// Depth of the directory that lists the row.
    pub fn depth(&self) -> (r: usize)
        ensures
            r == self@.depth,
    {
        self.depth
    }

    /// Whether the row is a directory or a file.
    pub fn kind(&self) -> (r: FileTreeEntryKind)
        ensures
            r == self@.kind,
    {
        self.kind
    }

    /// Whether the row is an expanded directory.
    pub fn expanded(&self) -> (r: bool)
        ensures
            r == self@.expanded,
    {
        self.expanded
    }

    /// Whether the row is selected.
    pub fn selected(&self) -> (r: bool)
        ensures
            r == self@.selected,
    {
        self.selected
    }

    /// The row's name: its path from where the name starts.
    pub fn label(&self) -> (r: &str)
        ensures
            path_bytes(r@) == path_bytes(self@.path).subrange(
                self@.name_start as int,
                path_bytes(self@.path).len() as int,
            ),
    {
        proof {
            use_type_invariant(self);
        }
        let (_, name) = self.path.as_str().split_at(self.name_start as usize);
        name
    }
}


/// The first row and the row count a view asks for: it starts `overscan`
/// rows before its first visible row, and takes its visible rows and
/// `overscan` rows on each side, each capped by the row ceiling.
pub open spec fn window(first_visible: usize, visible_rows: usize, overscan: usize, ceiling: usize) -> (usize, usize) {
    let start = if first_visible < overscan {
        0
    } else {
        first_visible - overscan
    };
    let shown_rows = if visible_rows < ceiling {
        visible_rows
    } else {
        ceiling
    };
    let margin = sat(2 * overscan);
    let wanted = sat(shown_rows + margin);
    let count = if wanted < ceiling {
        wanted
    } else {
        ceiling as int
    };
    (start as usize, count as usize)
}


/// The cached directory whose generation is `generation`.
pub open spec fn generation_index(nodes: Seq<NodeModel>, generation: u64) -> Option<int> {
    if exists|i: int| 0 <= i < nodes.len() && (#[trigger] nodes[i]).generation == generation {
        Some(choose|i: int| 0 <= i < nodes.len() && (#[trigger] nodes[i]).generation == generation)
    } else {
        None
    }
}

/// `nodes` with the directory of generation `generation`, if cached,
/// loading as `load`.
pub open spec fn with_load(nodes: Seq<NodeModel>, generation: u64, load: DirectoryLoad) -> Seq<NodeModel> {
    match generation_index(nodes, generation) {
        Some(i) => nodes.update(i, NodeModel { load, ..nodes[i] }),
        None => nodes,
    }
}

/// The tree after its pending request is cancelled: no request is pending
/// and the directory that was loading it is dormant again.
pub open spec fn cancelled(m: TreeModel) -> TreeModel {
    match m.pending {
        None => m,
        Some(id) => TreeModel {
            pending: None,
            nodes: with_load(m.nodes, id.directory, DirectoryLoad::Dormant),
            ..m
        },
    }
}

/// The error text a tree records for `e`.
pub open spec fn recorded_error(e: FileTreeError) -> Seq<u8> {
    bounded_text_spec(tree_error_message(e))
}

/// An empty scan report.
pub open spec fn empty_report() -> DirectoryReport {
    DirectoryReport { scanned: 0, retained: 0, path_bytes: 0, omitted: 0, errors: 0, truncated: false }
}

/// A freshly cached directory: expanded, dormant, with nothing listed.
pub open spec fn fresh_node(path: Seq<char>, generation: u64) -> NodeModel {
    NodeModel {
        path,
        generation,
        expanded: true,
        load: DirectoryLoad::Dormant,
        entries: Seq::empty(),
        prefix_rows: Seq::empty(),
        report: empty_report(),
        first_error: None,
    }
}

/// The tree with its root directory cached under the next generation.
pub open spec fn with_root(m: TreeModel) -> TreeModel {
    TreeModel {
        directory_generation: (m.directory_generation + 1) as u64,
        nodes: seq![fresh_node(Seq::empty(), (m.directory_generation + 1) as u64)],
        ..m
    }
}

/// The tree reset for workspace `workspace` under the next tree
/// generation, before its root is cached.
pub open spec fn cleared(m: TreeModel, workspace: u64) -> TreeModel {
    TreeModel {
        tree_generation: (m.tree_generation + 1) as u64,
        workspace: Some(workspace),
        pending: None,
        nodes: Seq::empty(),
        selected: None,
        selected_path: None,
        error: None,
        retained_entries: 0,
        retained_path_bytes: 0,
        ..m
    }
}


/// The first error a cached directory at or after position `i` recorded.
pub open spec fn first_node_error(nodes: Seq<NodeModel>, i: int) -> Option<Seq<char>>
    decreases nodes.len() - i,
{
    if i < 0 || i >= nodes.len() {
        None
    } else {
        match nodes[i].first_error {
            Some(t) => Some(t),
            None => first_node_error(nodes, i + 1),
        }
    }
}

impl DirectoryNode {
    fn fresh(path: String, generation: u64) -> (n: DirectoryNode)
        ensures
            node_model(n) == fresh_node(path@, generation),
    {
        let n = DirectoryNode {
            path,
            generation,
            expanded: true,
            load: DirectoryLoad::Dormant,
            entries: Vec::new(),
            prefix_rows: Vec::new(),
            report: DirectoryReport { scanned: 0, retained: 0, path_bytes: 0, omitted: 0, errors: 0, truncated: false },
            first_error: None,
        };
        assert(node_model(n).entries =~= Seq::<EntryModel>::empty());
        n
    }
}


/// The first cached directory at or after position `i` that is expanded
/// and dormant.
pub open spec fn first_dormant(nodes: Seq<NodeModel>, i: int) -> Option<int>
    decreases nodes.len() - i,
{
    if i < 0 || i >= nodes.len() {
        None
    } else if nodes[i].expanded && nodes[i].load == DirectoryLoad::Dormant {
        Some(i)
    } else {
        first_dormant(nodes, i + 1)
    }
}

/// Some expanded directory is dormant or loading, so its listing may still
/// come.
pub open spec fn future_load(nodes: Seq<NodeModel>) -> bool {
    exists|i: int|
        0 <= i < nodes.len() && (#[trigger] nodes[i]).expanded && (nodes[i].load == DirectoryLoad::Dormant
            || nodes[i].load is Loading)
}

/// `after` is `before` with its selection bound again to the selected path:
/// the first visible row with that path (exactly, whenever the rows are
/// countable), and the path forgotten when no row holds it and no listing
/// may still bring one.
pub open spec fn rebound(before: TreeModel, after: TreeModel) -> bool {
    &&& after == TreeModel { selected: after.selected, selected_path: after.selected_path, ..before }
    &&& rows_countable(before) ==> after.selected == match before.selected_path {
        Some(p) => match first_path_from(tree_rows(before), p, 0) {
            Some(j) => Some(j as usize),
            None => None,
        },
        None => None,
    }
    &&& after.selected_path == if after.selected is None && !future_load(before.nodes) {
        None
    } else {
        before.selected_path
    }
}

/// What publishing keeps of `entries` given room for `available_entries`
/// entries and `available_bytes` path bytes: the kept entries in order,
/// their path bytes, and how many were skipped.
pub open spec fn retained_after(entries: Seq<EntryModel>, k: int, available_entries: int, available_bytes: int) -> (
    Seq<EntryModel>,
    int,
    int,
)
    decreases k,
{
    if k <= 0 {
        (Seq::empty(), 0, 0)
    } else {
        let (kept, bytes, skipped) = retained_after(entries, k - 1, available_entries, available_bytes);
        let len = path_bytes(entries[k - 1].path).len() as int;
        let room = if available_bytes < bytes {
            0
        } else {
            available_bytes - bytes
        };
        if kept.len() == available_entries || len > room {
            (kept, bytes, skipped + 1)
        } else {
            (kept.push(entries[k - 1]), bytes + len, skipped)
        }
    }
}


/// The saturating sum `a + b` within a `usize`.
pub open spec fn sat_add(a: int, b: int) -> int {
    sat(a + b)
}

/// `a - b`, or zero below it.
pub open spec fn sat_sub(a: int, b: int) -> int {
    if a < b {
        0
    } else {
        a - b
    }
}

/// Directory `i` of `m` after publishing `listing`: its entries are those
/// that fit the tree's remaining room, its report counts what was kept and
/// skipped, its first error is the listing's, and it is ready.
pub open spec fn published_node(m: TreeModel, i: int, listing: ListingModel) -> NodeModel {
    let available_entries = sat_sub(m.limits.cached_entries as int, m.retained_entries as int);
    let available_bytes = sat_sub(m.limits.cached_path_bytes as int, m.retained_path_bytes as int);
    let (kept, bytes, skipped) = retained_after(
        listing.entries,
        listing.entries.len() as int,
        available_entries,
        available_bytes,
    );
    let omitted = sat(listing.report.omitted + skipped);
    NodeModel {
        entries: kept,
        report: DirectoryReport {
            retained: kept.len() as usize,
            path_bytes: bytes as usize,
            omitted: omitted as usize,
            truncated: listing.report.truncated || omitted > listing.report.omitted,
            ..listing.report
        },
        first_error: listing.first_error,
        load: DirectoryLoad::Ready,
        ..m.nodes[i]
    }
}

/// The tree after publishing `listing` into directory `i`, before its
/// running counts and selection are brought up to date.
pub open spec fn published(m: TreeModel, i: int, listing: ListingModel) -> TreeModel {
    let n = published_node(m, i, listing);
    TreeModel {
        nodes: m.nodes.update(i, n),
        retained_entries: sat_add(m.retained_entries as int, n.entries.len() as int) as usize,
        retained_path_bytes: sat_add(m.retained_path_bytes as int, n.report.path_bytes as int) as usize,
        error: n.first_error,
        ..m
    }
}

/// Kept entries come from the listing.
pub proof fn lemma_retained_from(entries: Seq<EntryModel>, k: int, available_entries: int, available_bytes: int)
    requires
        0 <= k <= entries.len(),
        available_bytes <= usize::MAX,
    ensures
        ({
            let (kept, bytes, skipped) = retained_after(entries, k, available_entries, available_bytes);
            &&& forall|t: int| 0 <= t < kept.len() ==> exists|u: int| 0 <= u < k && #[trigger] kept[t] == entries[u]
            &&& 0 <= bytes <= available_bytes || (bytes == 0 && available_bytes < 0)
            &&& 0 <= skipped <= k
            &&& kept.len() <= k
        }),
    decreases k,
{
    if k > 0 {
        lemma_retained_from(entries, k - 1, available_entries, available_bytes);
        let (kept, bytes, skipped) = retained_after(entries, k - 1, available_entries, available_bytes);
        let (kept2, bytes2, skipped2) = retained_after(entries, k, available_entries, available_bytes);
        assert forall|t: int| 0 <= t < kept2.len() implies exists|u: int| 0 <= u < k && #[trigger] kept2[t] == entries[u] by {
            if t < kept.len() {
                assert(kept2[t] == kept[t]);
                let u = choose|u: int| 0 <= u < k - 1 && #[trigger] kept[t] == entries[u];
                assert(kept2[t] == entries[u]);
            } else {
                assert(kept2[t] == entries[k - 1]);
            }
        }
    }
}


fn retain_entries(
    retained: Vec<FileTreeEntry>,
    entries: &Vec<FileTreeEntry>,
    Ghost(listing): Ghost<Seq<EntryModel>>,
    available_entries: usize,
    available_bytes: usize,
) -> (r: (Vec<FileTreeEntry>, usize, usize))
    requires
        retained@.len() == 0,
        entries@.map_values(|e: FileTreeEntry| e@) == listing,
    ensures
        ({
            let (kept, bytes, skip) = retained_after(
                listing,
                listing.len() as int,
                available_entries as int,
                available_bytes as int,
            );
            &&& r.0@.map_values(|e: FileTreeEntry| e@) == kept
            &&& r.1 == bytes
            &&& r.2 == skip
        }),
{
    let mut retained = retained;
    let mut path_bytes_kept: usize = 0;
    let mut skipped: usize = 0;
    let mut k: usize = 0;
    assert(retained@.map_values(|e: FileTreeEntry| e@) =~= Seq::<EntryModel>::empty());
    while k < entries.len()
        invariant
            entries@.map_values(|e: FileTreeEntry| e@) == listing,
            k <= entries@.len(),
            ({
                let (kept, bytes, skip) = retained_after(listing, k as int, available_entries as int, available_bytes as int);
                &&& retained@.map_values(|e: FileTreeEntry| e@) == kept
                &&& path_bytes_kept == bytes
                &&& skipped == skip
                &&& skip <= k
                &&& bytes <= available_bytes
            }),
        decreases entries@.len() - k,
    {
        proof {
            lemma_retained_from(listing, k as int, available_entries as int, available_bytes as int);
        }
        let len = entries[k].path.as_str().as_bytes().len();
        let room = if available_bytes < path_bytes_kept {
            0
        } else {
            available_bytes - path_bytes_kept
        };
        if retained.len() == available_entries || len > room {
            skipped = skipped + 1;
        } else {
            let entry = FileTreeEntry {
                kind: entries[k].kind,
                path: entries[k].path.clone(),
                name_start: entries[k].name_start,
                depth: entries[k].depth,
            };
            let ghost before = retained@.map_values(|e: FileTreeEntry| e@);
            retained.push(entry);
            path_bytes_kept = path_bytes_kept + len;
            proof {
                assert(retained@.map_values(|e: FileTreeEntry| e@) =~= before.push(listing[k as int]));
            }
        }
        k += 1;
    }
    proof {
        assert(entries@.map_values(|e: FileTreeEntry| e@).len() == entries@.len());
    }
    (retained, path_bytes_kept, skipped)
}

/// Publishing keeps the tree's shape: the kept entries are listed entries,
/// below the directory, with names at character boundaries.
pub proof fn lemma_published_shape(m: TreeModel, i: int, listing: ListingModel)
    requires
        tree_wf(m),
        0 <= i < m.nodes.len(),
        m.nodes[i].path == listing.relative,
        m.pending is None,
        entries_below(listing.relative, listing.entries),
        names_at_boundaries(listing.entries),
    ensures
        tree_shape_ok(published(m, i, listing)),
        shape_wf(published(m, i, listing).nodes),
{
    let p = published(m, i, listing);
    let available_entries = sat_sub(m.limits.cached_entries as int, m.retained_entries as int);
    let available_bytes = sat_sub(m.limits.cached_path_bytes as int, m.retained_path_bytes as int);
    lemma_retained_from(listing.entries, listing.entries.len() as int, available_entries, available_bytes);
    let kept = p.nodes[i].entries;
    assert forall|t: int| 0 <= t < kept.len() implies path_bytes(listing.relative).len() < path_bytes(
        (#[trigger] kept[t]).path,
    ).len() <= usize::MAX && kept[t].name_start <= path_bytes(kept[t].path).len() && is_char_boundary(
        path_bytes(kept[t].path),
        kept[t].name_start as int,
    ) by {
        let u = choose|u: int| 0 <= u < listing.entries.len() && #[trigger] kept[t] == listing.entries[u];
        assert(listing.entries[u] == listing.entries[u]);
    }
    assert forall|a: int| 0 <= a < p.nodes.len() implies entries_below((#[trigger] p.nodes[a]).path, p.nodes[a].entries)
        && names_at_boundaries(p.nodes[a].entries) by {
        if a != i {
            assert(p.nodes[a] == m.nodes[a]);
        }
    }
    assert forall|a: int, b: int| 0 <= a < b < p.nodes.len() implies bytes_before(
        path_bytes((#[trigger] p.nodes[a]).path),
        path_bytes((#[trigger] p.nodes[b]).path),
    ) by {
        assert(p.nodes[a].path == m.nodes[a].path && p.nodes[b].path == m.nodes[b].path);
    }
    assert forall|a: int| 0 <= a < p.nodes.len() implies (#[trigger] p.nodes[a]).generation <= p.directory_generation by {
        assert(p.nodes[a].generation == m.nodes[a].generation);
    }
    assert forall|a: int, b: int|
        0 <= a < p.nodes.len() && 0 <= b < p.nodes.len() && a != b implies (#[trigger] p.nodes[a]).generation
        != (#[trigger] p.nodes[b]).generation by {
        assert(p.nodes[a].generation == m.nodes[a].generation);
        assert(p.nodes[b].generation == m.nodes[b].generation);
    }
}


/// `after` follows from `base` when directory `i` fails to load: it turns
/// failed, keeps `node_error` as its first error when one is given, the
/// tree records `error`, and the selection is bound again.
pub open spec fn failed_after(base: TreeModel, i: int, node_error: Option<FileTreeError>, error: FileTreeError, after: TreeModel) -> bool {
    exists|mid: TreeModel|
        {
            &&& mid.nodes.len() == base.nodes.len()
            &&& forall|j: int| 0 <= j < base.nodes.len() && j != i ==> #[trigger] mid.nodes[j] == base.nodes[j]
            &&& mid.nodes[i] == NodeModel {
                load: DirectoryLoad::Failed,
                first_error: mid.nodes[i].first_error,
                ..base.nodes[i]
            }
            &&& match node_error {
                Some(e) => match mid.nodes[i].first_error {
                    Some(t) => path_bytes(t) == recorded_error(e),
                    None => false,
                },
                None => mid.nodes[i].first_error == base.nodes[i].first_error,
            }
            &&& match mid.error {
                Some(t) => path_bytes(t) == recorded_error(error),
                None => false,
            }
            &&& mid == TreeModel { nodes: mid.nodes, error: mid.error, ..base }
            &&& rebound(mid, after)
        }
}


/// `p` begins `s`, byte for byte.
pub open spec fn is_byte_prefix(p: Seq<u8>, s: Seq<u8>) -> bool {
    p.len() <= s.len() && s.subrange(0, p.len() as int) == p
}

/// `child` lies strictly inside directory `path`: it begins with the
/// directory followed by a separator (any path does, below the root), and
/// is not the directory itself.
pub open spec fn inside(path: Seq<char>, child: Seq<char>) -> bool {
    let prefix = if path.len() == 0 {
        Seq::<char>::empty()
    } else {
        path + "/"@
    };
    is_byte_prefix(path_bytes(prefix), path_bytes(child)) && child != path
}

/// Path bytes of `entries`, saturating.
pub open spec fn entries_bytes(entries: Seq<EntryModel>) -> int
    decreases entries.len(),
{
    if entries.len() == 0 {
        0
    } else {
        sat(entries_bytes(entries.drop_last()) + path_bytes(entries.last().path).len())
    }
}

/// The first `k` cached directories that do not lie inside `path`, and the
/// entries and path bytes of those that do, saturating.
pub open spec fn outside_prefix(nodes: Seq<NodeModel>, path: Seq<char>, k: int) -> (Seq<NodeModel>, int, int)
    decreases k,
{
    if k <= 0 {
        (Seq::empty(), 0, 0)
    } else {
        let (kept, entries, bytes) = outside_prefix(nodes, path, k - 1);
        let n = nodes[k - 1];
        if inside(path, n.path) {
            (kept, sat(entries + n.entries.len()), sat(bytes + entries_bytes(n.entries)))
        } else {
            (kept.push(n), entries, bytes)
        }
    }
}

/// The tree without the cached directories inside `path`, their entries
/// and bytes no longer counted as retained.
pub open spec fn without_descendants(m: TreeModel, path: Seq<char>) -> TreeModel {
    let (kept, entries, bytes) = outside_prefix(m.nodes, path, m.nodes.len() as int);
    TreeModel {
        nodes: kept,
        retained_entries: sat_sub(m.retained_entries as int, entries) as usize,
        retained_path_bytes: sat_sub(m.retained_path_bytes as int, bytes) as usize,
        ..m
    }
}

/// Saturated byte counts stay within a `usize`.
pub proof fn lemma_entries_bytes_bounds(entries: Seq<EntryModel>)
    ensures
        0 <= entries_bytes(entries) <= usize::MAX,
    decreases entries.len(),
{
    if entries.len() > 0 {
        lemma_entries_bytes_bounds(entries.drop_last());
    }
}

/// Kept directories are cached directories, still in ascending order.
pub proof fn lemma_outside_prefix(nodes: Seq<NodeModel>, path: Seq<char>, k: int)
    requires
        0 <= k <= nodes.len(),
        nodes_sorted(nodes),
    ensures
        ({
            let (kept, entries, bytes) = outside_prefix(nodes, path, k);
            &&& kept.len() <= k
            &&& 0 <= entries <= usize::MAX
            &&& 0 <= bytes <= usize::MAX
            &&& forall|t: int| 0 <= t < kept.len() ==> exists|u: int| 0 <= u < k && #[trigger] kept[t] == nodes[u]
            &&& nodes_sorted(kept)
        }),
    decreases k,
{
    if k > 0 {
        lemma_outside_prefix(nodes, path, k - 1);
        let (kept, entries, bytes) = outside_prefix(nodes, path, k - 1);
        let n = nodes[k - 1];
        lemma_entries_bytes_bounds(n.entries);
        if inside(path, n.path) {
            assert forall|t: int| 0 <= t < kept.len() implies exists|u: int| 0 <= u < k && #[trigger] kept[t] == nodes[u] by {
                let u = choose|u: int| 0 <= u < k - 1 && #[trigger] kept[t] == nodes[u];
                assert(kept[t] == nodes[u]);
            }
        } else {
            let kept2 = kept.push(n);
            assert forall|t: int| 0 <= t < kept2.len() implies exists|u: int| 0 <= u < k && #[trigger] kept2[t] == nodes[u] by {
                if t < kept.len() {
                    let u = choose|u: int| 0 <= u < k - 1 && #[trigger] kept[t] == nodes[u];
                    assert(kept2[t] == nodes[u]);
                } else {
                    assert(kept2[t] == nodes[k - 1]);
                }
            }
            assert forall|a: int, b: int| 0 <= a < b < kept2.len() implies bytes_before(
                path_bytes((#[trigger] kept2[a]).path),
                path_bytes((#[trigger] kept2[b]).path),
            ) by {
                if b < kept.len() {
                    assert(kept2[a] == kept[a] && kept2[b] == kept[b]);
                } else {
                    let u = choose|u: int| 0 <= u < k - 1 && #[trigger] kept[a] == nodes[u];
                    assert(kept2[a] == nodes[u]);
                    assert(kept2[b] == nodes[k - 1]);
                }
            }
        }
    }
}


/// Where `path` belongs among the cached directories: after every one
/// that sorts before it and before every one that sorts after it.
pub open spec fn position_of(nodes: Seq<NodeModel>, path: Seq<char>) -> int {
    choose|k: int| #[trigger] splits_at(nodes, path, k)
}

/// Every directory before position `k` sorts before `path`, every one from
/// `k` on after it.
pub open spec fn splits_at(nodes: Seq<NodeModel>, path: Seq<char>, k: int) -> bool {
    &&& 0 <= k <= nodes.len()
    &&& forall|i: int| 0 <= i < k ==> bytes_before(path_bytes((#[trigger] nodes[i]).path), path_bytes(path))
    &&& forall|i: int| k <= i < nodes.len() ==> bytes_before(path_bytes(path), path_bytes((#[trigger] nodes[i]).path))
}

/// The tree's structure after toggling directory `path`: an expanded
/// cached directory collapses and drops everything cached inside it; a
/// collapsed one expands, a failed listing becoming dormant again; an
/// uncached directory is cached, expanded and dormant, under the next
/// generation.
pub open spec fn toggled(m: TreeModel, path: Seq<char>) -> TreeModel {
    match node_at(m.nodes, path) {
        Some(i) => if m.nodes[i].expanded {
            without_descendants(
                TreeModel { nodes: m.nodes.update(i, NodeModel { expanded: false, ..m.nodes[i] }), ..m },
                path,
            )
        } else {
            TreeModel {
                nodes: m.nodes.update(
                    i,
                    NodeModel {
                        expanded: true,
                        load: if m.nodes[i].load == DirectoryLoad::Failed {
                            DirectoryLoad::Dormant
                        } else {
                            m.nodes[i].load
                        },
                        ..m.nodes[i]
                    },
                ),
                ..m
            }
        },
        None => TreeModel {
            directory_generation: (m.directory_generation + 1) as u64,
            nodes: m.nodes.insert(
                position_of(m.nodes, path),
                fresh_node(path, (m.directory_generation + 1) as u64),
            ),
            ..m
        },
    }
}

/// Why toggling `path` is refused: caching it would pass the directory
/// ceiling or exhaust directory generations.
pub open spec fn toggle_error(m: TreeModel, path: Seq<char>) -> Option<FileTreeError> {
    if node_at(m.nodes, path) is Some {
        None
    } else if m.nodes.len() == m.limits.cached_directories {
        Some(FileTreeError::CacheLimitExceeded { resource: "directory count", limit: m.limits.cached_directories })
    } else if m.directory_generation == u64::MAX {
        Some(FileTreeError::GenerationExhausted)
    } else {
        None
    }
}


fn has_prefix(s: &str, p: &str) -> (r: bool)
    ensures
        r == is_byte_prefix(path_bytes(p@), path_bytes(s@)),
{
    let x = s.as_bytes();
    let y = p.as_bytes();
    if y.len() > x.len() {
        return false;
    }
    let mut i: usize = 0;
    while i < y.len()
        invariant
            x@ == path_bytes(s@),
            y@ == path_bytes(p@),
            y@.len() <= x@.len(),
            i <= y@.len(),
            forall|j: int| 0 <= j < i ==> x@[j] == y@[j],
        decreases y@.len() - i,
    {
        if x[i] != y[i] {
            assert(x@.subrange(0, y@.len() as int)[i as int] != y@[i as int]);
            return false;
        }
        i += 1;
    }
    assert(x@.subrange(0, y@.len() as int) =~= y@);
    true
}

fn entries_path_bytes(entries: &Vec<FileTreeEntry>) -> (r: usize)
    ensures
        r == entries_bytes(entries@.map_values(|e: FileTreeEntry| e@)),
{
    let ghost all = entries@.map_values(|e: FileTreeEntry| e@);
    let mut total: usize = 0;
    let mut i: usize = 0;
    while i < entries.len()
        invariant
            all == entries@.map_values(|e: FileTreeEntry| e@),
            i <= entries@.len(),
            total == entries_bytes(all.take(i as int)),
        decreases entries@.len() - i,
    {
        proof {
            assert(all.take(i + 1).drop_last() =~= all.take(i as int));
        }
        let len = entries[i].path.as_str().as_bytes().len();
        total = if total > usize::MAX - len {
            usize::MAX
        } else {
            total + len
        };
        i += 1;
    }
    assert(all.take(entries@.len() as int) =~= all);
    total
}

/// Collapsing keeps the tree's shape.
pub proof fn lemma_collapse_shape(m: TreeModel, i: int, path: Seq<char>)
    requires
        tree_wf(m),
        0 <= i < m.nodes.len(),
        m.nodes[i].path == path,
    ensures
        tree_shape_ok(without_descendants(
            TreeModel { nodes: m.nodes.update(i, NodeModel { expanded: false, ..m.nodes[i] }), ..m },
            path,
        )),
{
    let t = TreeModel { nodes: m.nodes.update(i, NodeModel { expanded: false, ..m.nodes[i] }), ..m };
    assert(tree_shape_ok(t)) by {
        assert forall|a: int, b: int| 0 <= a < b < t.nodes.len() implies bytes_before(
            path_bytes((#[trigger] t.nodes[a]).path),
            path_bytes((#[trigger] t.nodes[b]).path),
        ) by {
            assert(t.nodes[a].path == m.nodes[a].path && t.nodes[b].path == m.nodes[b].path);
        }
        assert forall|a: int, b: int|
            0 <= a < t.nodes.len() && 0 <= b < t.nodes.len() && a != b implies (#[trigger] t.nodes[a]).generation
            != (#[trigger] t.nodes[b]).generation by {
            assert(t.nodes[a].generation == m.nodes[a].generation);
            assert(t.nodes[b].generation == m.nodes[b].generation);
        }
    }
    let w = without_descendants(t, path);
    lemma_outside_prefix(t.nodes, path, t.nodes.len() as int);
    let kept = w.nodes;
    assert forall|a: int| 0 <= a < kept.len() implies entries_below((#[trigger] kept[a]).path, kept[a].entries)
        && names_at_boundaries(kept[a].entries) && kept[a].generation <= w.directory_generation && (w.pending matches Some(id)
        && kept[a].generation == id.directory ==> kept[a].load == DirectoryLoad::Loading(w.pending->0)) by {
        let u = choose|u: int| 0 <= u < t.nodes.len() && #[trigger] kept[a] == t.nodes[u];
        assert(kept[a] == t.nodes[u]);
    }
    assert forall|a: int, b: int|
        0 <= a < kept.len() && 0 <= b < kept.len() && a != b implies (#[trigger] kept[a]).generation
        != (#[trigger] kept[b]).generation by {
        let u = choose|u: int| 0 <= u < t.nodes.len() && #[trigger] kept[a] == t.nodes[u];
        let v = choose|v: int| 0 <= v < t.nodes.len() && #[trigger] kept[b] == t.nodes[v];
        if u == v {
            lemma_before_irreflexive(path_bytes(kept[a].path));
            if a < b {
                assert(bytes_before(path_bytes(kept[a].path), path_bytes(kept[b].path)));
            } else {
                assert(bytes_before(path_bytes(kept[b].path), path_bytes(kept[a].path)));
            }
        }
    }
}


/// Caching a new directory at its place keeps the tree's shape.
pub proof fn lemma_insert_shape(m: TreeModel, path: Seq<char>)
    requires
        tree_wf(m),
        node_at(m.nodes, path) is None,
        m.directory_generation < u64::MAX,
        splits_at(m.nodes, path, position_of(m.nodes, path)),
    ensures
        tree_shape_ok(toggled(m, path)),
{
    let k = position_of(m.nodes, path);
    let g = (m.directory_generation + 1) as u64;
    let t = toggled(m, path);
    let n = t.nodes;
    let f = fresh_node(path, g);
    assert(n == m.nodes.insert(k, f));
    assert forall|a: int| 0 <= a < n.len() implies #[trigger] n[a] == if a < k {
        m.nodes[a]
    } else if a == k {
        f
    } else {
        m.nodes[a - 1]
    } by {}
    assert forall|a: int, b: int| 0 <= a < b < n.len() implies bytes_before(
        path_bytes((#[trigger] n[a]).path),
        path_bytes((#[trigger] n[b]).path),
    ) by {
        if a < k && b < k {
        } else if a < k && b == k {
        } else if a < k {
            lemma_before_transitive(path_bytes(m.nodes[a].path), path_bytes(path), path_bytes(m.nodes[b - 1].path));
        } else if a == k {
        } else {
        }
    }
    assert forall|a: int| 0 <= a < n.len() implies entries_below((#[trigger] n[a]).path, n[a].entries)
        && names_at_boundaries(n[a].entries) by {
        if a < k {
        } else if a == k {
        } else {
            assert(n[a] == m.nodes[a - 1]);
        }
    }
    assert forall|a: int, b: int|
        0 <= a < n.len() && 0 <= b < n.len() && a != b implies (#[trigger] n[a]).generation != (#[trigger] n[b]).generation by {
        if a != k && b != k {
            let ua = if a < k { a } else { a - 1 };
            let ub = if b < k { b } else { b - 1 };
            assert(m.nodes[ua].generation != m.nodes[ub].generation);
        } else if a == k {
            let ub = if b < k { b } else { b - 1 };
            assert(m.nodes[ub].generation <= m.directory_generation);
        } else {
            let ua = if a < k { a } else { a - 1 };
            assert(m.nodes[ua].generation <= m.directory_generation);
        }
    }
    assert forall|a: int|
        0 <= a < n.len() && (t.pending matches Some(id) && (#[trigger] n[a]).generation == id.directory) implies n[a].load
        == DirectoryLoad::Loading(t.pending->0) by {
        if a < k {
        } else if a == k {
        } else {
            assert(n[a] == m.nodes[a - 1]);
        }
    }
}


/// A new tree with `limits`: visible, inactive, unfocused, with no
/// workspace, nothing cached and every generation at zero.
pub open spec fn fresh_tree(limits: FileTreeLimits) -> TreeModel {
    TreeModel {
        visible: true,
        active: false,
        focused: false,
        workspace: None,
        tree_generation: 0,
        directory_generation: 0,
        request_generation: 0,
        pending: None,
        nodes: Seq::empty(),
        selected: None,
        selected_path: None,
        error: None,
        retained_entries: 0,
        retained_path_bytes: 0,
        limits,
    }
}

/// What restoring a session gives: the restored tree, a stored path that
/// is refused, or another refusal.
pub enum SessionRestore {
    Restored(TreeModel),
    InvalidPath(Seq<char>),
    Refused(FileTreeError),
}

/// The empty tree, with `m`'s limits, visibility and generations, into
/// which a session is restored.
pub open spec fn restore_base(m: TreeModel) -> TreeModel {
    TreeModel {
        active: false,
        focused: false,
        workspace: None,
        pending: None,
        nodes: Seq::empty(),
        selected: None,
        selected_path: None,
        error: None,
        retained_entries: 0,
        retained_path_bytes: 0,
        ..m
    }
}

/// Caching the stored expanded directories `paths[i..]` in turn, each
/// under the next directory generation: a path that is not a valid
/// relative path, or that is cached already, is refused, as is one when
/// directory generations run out.
pub open spec fn restore_paths(t: TreeModel, paths: Seq<Seq<char>>, i: int) -> SessionRestore
    decreases paths.len() - i,
{
    if i < 0 || i >= paths.len() {
        SessionRestore::Restored(t)
    } else if !valid_restored_path(path_bytes(paths[i]), t.limits) || node_at(t.nodes, paths[i]) is Some {
        SessionRestore::InvalidPath(paths[i])
    } else if t.directory_generation == u64::MAX {
        SessionRestore::Refused(FileTreeError::GenerationExhausted)
    } else {
        restore_paths(toggled(t, paths[i]), paths, i + 1)
    }
}

/// Restoring expanded directories `paths` and selection `selected` into
/// tree `m` for `workspace`: the tree is reset for the workspace with its
/// root cached, refused when that many directories would pass the ceiling,
/// then each directory is cached, and the selected path is kept, checked,
/// with no row selected.
pub open spec fn restore_outcome(
    m: TreeModel,
    workspace: u64,
    paths: Seq<Seq<char>>,
    selected: Option<Seq<char>>,
) -> SessionRestore {
    if m.tree_generation == u64::MAX || cleared(m, workspace).directory_generation == u64::MAX {
        SessionRestore::Refused(FileTreeError::GenerationExhausted)
    } else if paths.len() >= m.limits.cached_directories {
        SessionRestore::Refused(
            FileTreeError::CacheLimitExceeded { resource: "directory count", limit: m.limits.cached_directories },
        )
    } else {
        match restore_paths(with_root(cleared(m, workspace)), paths, 0) {
            SessionRestore::Restored(t) => match selected {
                None => SessionRestore::Restored(t),
                Some(p) => if valid_restored_path(path_bytes(p), m.limits) {
                    SessionRestore::Restored(TreeModel { selected_path: Some(p), ..t })
                } else {
                    SessionRestore::InvalidPath(p)
                },
            },
            other => other,
        }
    }
}

/// `r` is what restoring with outcome `o` may return: the outcome itself,
/// or a failed reservation once the generations allowed the reset.
pub open spec fn restore_result(o: SessionRestore, r: Result<(), FileTreeError>, reached: bool) -> bool {
    ||| reached && r == Err::<(), FileTreeError>(FileTreeError::AllocationFailed)
    ||| match o {
        SessionRestore::Restored(_) => r is Ok,
        SessionRestore::InvalidPath(p) => r matches Err(FileTreeError::InvalidRelativePath(q)) && q@ == p,
        SessionRestore::Refused(e) => r == Err::<(), FileTreeError>(e),
    }
}

/// The texts of stored paths.
pub open spec fn stored_paths(v: Seq<String>) -> Seq<Seq<char>> {
    v.map_values(|p: String| p@)
}

/// The expanded directories below the root among `nodes`, in order.
pub open spec fn saved_directories(nodes: Seq<NodeModel>) -> Seq<Seq<char>>
    decreases nodes.len(),
{
    if nodes.len() == 0 {
        Seq::empty()
    } else {
        let rest = saved_directories(nodes.drop_last());
        if nodes.last().expanded && nodes.last().path.len() > 0 {
            rest.push(nodes.last().path)
        } else {
            rest
        }
    }
}

/// Nodes that list nothing and are not shown keep right counts under
/// every directory.
proof fn lemma_bare_counts(nodes: Seq<NodeModel>, path: Seq<char>)
    requires
        forall|i: int| 0 <= i < nodes.len() ==> (#[trigger] nodes[i]).load == DirectoryLoad::Dormant
            && nodes[i].prefix_rows.len() == 0,
    ensures
        counts_right_under(nodes, path),
{
    match node_at(nodes, path) {
        None => {},
        Some(i) => {
            assert(0 <= i < nodes.len());
            assert(nodes[i].load == DirectoryLoad::Dormant);
        },
    }
}

/// Paths in strictly ascending byte order.
pub open spec fn paths_ascending(ps: Seq<Seq<char>>) -> bool {
    forall|i: int, j: int| 0 <= i < j < ps.len() ==> bytes_before(path_bytes(#[trigger] ps[i]), path_bytes(#[trigger] ps[j]))
}

/// The paths of the directories below the root among `nodes`, in order.
spec fn nonroot_paths(nodes: Seq<NodeModel>) -> Seq<Seq<char>>
    decreases nodes.len(),
{
    if nodes.len() == 0 {
        Seq::empty()
    } else {
        let rest = nonroot_paths(nodes.drop_last());
        if nodes.last().path.len() > 0 {
            rest.push(nodes.last().path)
        } else {
            rest
        }
    }
}

/// The first position at or after `i` whose directory sorts after `path`.
spec fn first_after(nodes: Seq<NodeModel>, path: Seq<char>, i: int) -> int
    decreases nodes.len() - i,
{
    if i < 0 || i >= nodes.len() {
        nodes.len() as int
    } else if bytes_before(path_bytes(path), path_bytes(nodes[i].path)) {
        i
    } else {
        first_after(nodes, path, i + 1)
    }
}

proof fn lemma_distinct_bytes(a: Seq<char>, b: Seq<char>)
    requires
        a != b,
    ensures
        bytes_before(path_bytes(a), path_bytes(b)) || bytes_before(path_bytes(b), path_bytes(a)),
{
    vstd::utf8::encode_utf8_decode_utf8(a);
    vstd::utf8::encode_utf8_decode_utf8(b);
    crate::path_order::lemma_before_total(path_bytes(a), path_bytes(b));
}

proof fn lemma_first_after(nodes: Seq<NodeModel>, path: Seq<char>, i: int)
    requires
        0 <= i <= nodes.len(),
        nodes_sorted(nodes),
        node_at(nodes, path) is None,
        forall|j: int| 0 <= j < i ==> bytes_before(path_bytes((#[trigger] nodes[j]).path), path_bytes(path)),
    ensures
        splits_at(nodes, path, first_after(nodes, path, i)),
    decreases nodes.len() - i,
{
    if i < nodes.len() {
        if bytes_before(path_bytes(path), path_bytes(nodes[i].path)) {
            assert forall|j: int| i <= j < nodes.len() implies bytes_before(
                path_bytes(path),
                path_bytes((#[trigger] nodes[j]).path),
            ) by {
                if j > i {
                    lemma_before_transitive(path_bytes(path), path_bytes(nodes[i].path), path_bytes(nodes[j].path));
                }
            }
        } else {
            assert(node_paths(nodes)[i] == nodes[i].path);
            assert(nodes[i].path != path);
            lemma_distinct_bytes(nodes[i].path, path);
            lemma_first_after(nodes, path, i + 1);
        }
    }
}

/// Among sorted directories without `path`, there is a place for it.
proof fn lemma_split_exists(nodes: Seq<NodeModel>, path: Seq<char>)
    requires
        nodes_sorted(nodes),
        node_at(nodes, path) is None,
    ensures
        splits_at(nodes, path, position_of(nodes, path)),
{
    lemma_first_after(nodes, path, 0);
    let k = first_after(nodes, path, 0);
    assert(splits_at(nodes, path, k));
}

/// The directories hold the root and exactly `paths[..i]`, none of them
/// empty, all expanded and in ascending order.
spec fn holds_restored(nodes: Seq<NodeModel>, paths: Seq<Seq<char>>, i: int) -> bool {
    &&& nodes_sorted(nodes)
    &&& forall|k: int| 0 <= k < nodes.len() ==> (#[trigger] nodes[k]).expanded
    &&& forall|k: int|
        0 <= k < nodes.len() ==> (#[trigger] nodes[k]).path.len() == 0 || exists|j: int|
            0 <= j < i && paths[j] == nodes[k].path
    &&& forall|j: int| 0 <= j < i ==> (#[trigger] paths[j]).len() > 0 && exists|k: int|
        0 <= k < nodes.len() && nodes[k].path == paths[j]
}

proof fn lemma_insert_holds(nodes: Seq<NodeModel>, paths: Seq<Seq<char>>, i: int, k: int, f: NodeModel)
    requires
        0 <= i < paths.len(),
        holds_restored(nodes, paths, i),
        splits_at(nodes, paths[i], k),
        f.path == paths[i],
        f.expanded,
        paths[i].len() > 0,
    ensures
        holds_restored(nodes.insert(k, f), paths, i + 1),
{
    let p = paths[i];
    let n = nodes.insert(k, f);
    assert forall|a: int| 0 <= a < n.len() implies #[trigger] n[a] == if a < k {
        nodes[a]
    } else if a == k {
        f
    } else {
        nodes[a - 1]
    } by {}
    assert forall|a: int, b: int| 0 <= a < b < n.len() implies bytes_before(
        path_bytes((#[trigger] n[a]).path),
        path_bytes((#[trigger] n[b]).path),
    ) by {
        if a < k && b > k {
            lemma_before_transitive(path_bytes(nodes[a].path), path_bytes(p), path_bytes(nodes[b - 1].path));
        }
    }
    assert forall|a: int| 0 <= a < n.len() implies (#[trigger] n[a]).path.len() == 0 || exists|j: int|
        0 <= j < i + 1 && paths[j] == n[a].path by {
        if a == k {
            assert(paths[i] == n[a].path);
        } else {
            let u = if a < k {
                a
            } else {
                a - 1
            };
            assert(n[a] == nodes[u]);
            assert(nodes[u].path.len() == 0 || exists|j: int| 0 <= j < i && paths[j] == nodes[u].path);
        }
    }
    assert forall|j: int| 0 <= j < i + 1 implies (#[trigger] paths[j]).len() > 0 && exists|a: int|
        0 <= a < n.len() && n[a].path == paths[j] by {
        if j == i {
            assert(n[k].path == paths[j]);
        } else {
            let u = choose|u: int| 0 <= u < nodes.len() && nodes[u].path == paths[j];
            if u < k {
                assert(n[u].path == paths[j]);
            } else {
                assert(n[u + 1].path == paths[j]);
            }
        }
    }
    assert forall|a: int| 0 <= a < n.len() implies (#[trigger] n[a]).expanded by {}
}

proof fn lemma_restore_paths_holds(t: TreeModel, paths: Seq<Seq<char>>, i: int)
    requires
        0 <= i <= paths.len(),
        holds_restored(t.nodes, paths, i),
        restore_paths(t, paths, i) is Restored,
    ensures
        holds_restored(restore_paths(t, paths, i)->Restored_0.nodes, paths, paths.len() as int),
        restore_paths(t, paths, i)->Restored_0.selected_path == t.selected_path,
        restore_paths(t, paths, i)->Restored_0.workspace == t.workspace,
    decreases paths.len() - i,
{
    if i < paths.len() {
        let p = paths[i];
        assert(valid_restored_path(path_bytes(p), t.limits));
        assert(p.len() > 0) by {
            if p.len() == 0 {
                assert(path_bytes(p) =~= Seq::<u8>::empty());
            }
        }
        lemma_split_exists(t.nodes, p);
        let t2 = toggled(t, p);
        lemma_insert_holds(t.nodes, paths, i, position_of(t.nodes, p), fresh_node(p, (t.directory_generation + 1) as u64));
        assert(restore_paths(t, paths, i) == restore_paths(t2, paths, i + 1));
        lemma_restore_paths_holds(t2, paths, i + 1);
    }
}

proof fn lemma_saved_nonroot(nodes: Seq<NodeModel>)
    requires
        forall|k: int| 0 <= k < nodes.len() ==> (#[trigger] nodes[k]).expanded,
    ensures
        saved_directories(nodes) == nonroot_paths(nodes),
    decreases nodes.len(),
{
    if nodes.len() > 0 {
        assert forall|k: int| 0 <= k < nodes.drop_last().len() implies (#[trigger] nodes.drop_last()[k]).expanded by {
            assert(nodes.drop_last()[k] == nodes[k]);
        }
        lemma_saved_nonroot(nodes.drop_last());
    }
}

proof fn lemma_nonroot_members(nodes: Seq<NodeModel>)
    ensures
        forall|p: Seq<char>| #[trigger] nonroot_paths(nodes).contains(p) <==> p.len() > 0 && exists|k: int|
            0 <= k < nodes.len() && nodes[k].path == p,
        nodes_sorted(nodes) ==> paths_ascending(nonroot_paths(nodes)),
    decreases nodes.len(),
{
    if nodes.len() > 0 {
        let rest = nodes.drop_last();
        lemma_nonroot_members(rest);
        let r = nonroot_paths(rest);
        let last = nodes.last();
        assert forall|p: Seq<char>| #[trigger] nonroot_paths(nodes).contains(p) <==> p.len() > 0 && exists|k: int|
            0 <= k < nodes.len() && nodes[k].path == p by {
            if nonroot_paths(nodes).contains(p) {
                if r.contains(p) {
                    let k = choose|k: int| 0 <= k < rest.len() && rest[k].path == p;
                    assert(nodes[k].path == p);
                } else {
                    let x = choose|x: int| 0 <= x < nonroot_paths(nodes).len() && nonroot_paths(nodes)[x] == p;
                    if last.path.len() > 0 {
                        assert(nonroot_paths(nodes) == r.push(last.path));
                        if x < r.len() {
                            assert(r[x] == p);
                        }
                        assert(nodes[nodes.len() - 1].path == p);
                    }
                }
            }
            if p.len() > 0 && exists|k: int| 0 <= k < nodes.len() && nodes[k].path == p {
                let k = choose|k: int| 0 <= k < nodes.len() && nodes[k].path == p;
                if k < rest.len() {
                    assert(rest[k].path == p);
                    assert(r.contains(p));
                    let x = choose|x: int| 0 <= x < r.len() && r[x] == p;
                    if last.path.len() > 0 {
                        assert(r.push(last.path)[x] == p);
                    }
                } else {
                    assert(last.path == p);
                    assert(r.push(last.path)[r.len() as int] == p);
                }
            }
        }
        if nodes_sorted(nodes) {
            assert(nodes_sorted(rest)) by {
                assert forall|i: int, j: int| 0 <= i < j < rest.len() implies bytes_before(
                    path_bytes((#[trigger] rest[i]).path),
                    path_bytes((#[trigger] rest[j]).path),
                ) by {
                    assert(rest[i] == nodes[i] && rest[j] == nodes[j]);
                }
            }
            if last.path.len() > 0 {
                let q = r.push(last.path);
                assert forall|i: int, j: int| 0 <= i < j < q.len() implies bytes_before(
                    path_bytes(#[trigger] q[i]),
                    path_bytes(#[trigger] q[j]),
                ) by {
                    if j == r.len() {
                        assert(r.contains(q[i]));
                        let k = choose|k: int| 0 <= k < rest.len() && rest[k].path == q[i];
                        assert(nodes[k].path == q[i]);
                    } else {
                        assert(q[i] == r[i] && q[j] == r[j]);
                    }
                }
            }
        }
    }
}

/// Two ascending path lists with the same members are equal.
proof fn lemma_ascending_unique(a: Seq<Seq<char>>, b: Seq<Seq<char>>)
    requires
        paths_ascending(a),
        paths_ascending(b),
        forall|p: Seq<char>| a.contains(p) <==> b.contains(p),
    ensures
        a == b,
    decreases a.len(),
{
    if a.len() == 0 {
        if b.len() > 0 {
            assert(b.contains(b[0]));
        }
        assert(a =~= b);
    } else {
        assert(a.contains(a[0]));
        let y = choose|y: int| 0 <= y < b.len() && b[y] == a[0];
        assert(b.contains(b[0]));
        let x = choose|x: int| 0 <= x < a.len() && a[x] == b[0];
        if y > 0 {
            assert(bytes_before(path_bytes(b[0]), path_bytes(b[y])));
            if x > 0 {
                assert(bytes_before(path_bytes(a[0]), path_bytes(a[x])));
                lemma_before_asymmetric(path_bytes(a[0]), path_bytes(b[0]));
            } else {
                lemma_before_irreflexive(path_bytes(a[0]));
            }
        }
        assert(b[0] == a[0]);
        let a1 = a.drop_first();
        let b1 = b.drop_first();
        assert forall|p: Seq<char>| a1.contains(p) <==> b1.contains(p) by {
            if a1.contains(p) {
                let i = choose|i: int| 0 <= i < a1.len() && a1[i] == p;
                assert(a[i + 1] == p);
                assert(bytes_before(path_bytes(a[0]), path_bytes(p)));
                lemma_before_irreflexive(path_bytes(p));
                assert(b.contains(p));
                let j = choose|j: int| 0 <= j < b.len() && b[j] == p;
                assert(j != 0);
                assert(b1[j - 1] == p);
            }
            if b1.contains(p) {
                let i = choose|i: int| 0 <= i < b1.len() && b1[i] == p;
                assert(b[i + 1] == p);
                assert(bytes_before(path_bytes(b[0]), path_bytes(p)));
                lemma_before_irreflexive(path_bytes(p));
                assert(a.contains(p));
                let j = choose|j: int| 0 <= j < a.len() && a[j] == p;
                assert(j != 0);
                assert(a1[j - 1] == p);
            }
        }
        assert forall|i: int, j: int| 0 <= i < j < a1.len() implies bytes_before(
            path_bytes(#[trigger] a1[i]),
            path_bytes(#[trigger] a1[j]),
        ) by {
            assert(a1[i] == a[i + 1] && a1[j] == a[j + 1]);
        }
        assert forall|i: int, j: int| 0 <= i < j < b1.len() implies bytes_before(
            path_bytes(#[trigger] b1[i]),
            path_bytes(#[trigger] b1[j]),
        ) by {
            assert(b1[i] == b[i + 1] && b1[j] == b[j + 1]);
        }
        lemma_ascending_unique(a1, b1);
        assert(a =~= seq![a[0]] + a1);
        assert(b =~= seq![b[0]] + b1);
    }
}

/// A session restored from expanded directories in ascending path order
/// is saved back as the same directories and selection.
pub proof fn law_restored_session_saves_back(
    m: TreeModel,
    workspace: u64,
    paths: Seq<Seq<char>>,
    selected: Option<Seq<char>>,
)
    requires
        restore_outcome(m, workspace, paths, selected) is Restored,
        paths_ascending(paths),
    ensures
        ({
            let t = restore_outcome(m, workspace, paths, selected)->Restored_0;
            &&& t.workspace == Some(workspace)
            &&& saved_directories(t.nodes) == paths
            &&& t.selected_path == selected
        }),
{
    let start = with_root(cleared(m, workspace));
    let root = fresh_node(Seq::empty(), (cleared(m, workspace).directory_generation + 1) as u64);
    assert(start.nodes == seq![root]);
    assert(holds_restored(start.nodes, paths, 0));
    lemma_restore_paths_holds(start, paths, 0);
    let t0 = restore_paths(start, paths, 0)->Restored_0;
    lemma_saved_nonroot(t0.nodes);
    lemma_nonroot_members(t0.nodes);
    let saved = nonroot_paths(t0.nodes);
    assert forall|p: Seq<char>| saved.contains(p) <==> paths.contains(p) by {
        if saved.contains(p) {
            let k = choose|k: int| 0 <= k < t0.nodes.len() && t0.nodes[k].path == p;
            assert(t0.nodes[k].path.len() == 0 || exists|j: int| 0 <= j < paths.len() && paths[j] == t0.nodes[k].path);
        }
        if paths.contains(p) {
            let j = choose|j: int| 0 <= j < paths.len() && paths[j] == p;
            assert(paths[j].len() > 0);
            let k = choose|k: int| 0 <= k < t0.nodes.len() && t0.nodes[k].path == paths[j];
            assert(saved.contains(p));
        }
    }
    lemma_ascending_unique(saved, paths);
}

/// `r` and `after` are what activating the selected row of `m` may give:
/// nothing selected, no such row, or a failed reservation refuse it and
/// change nothing; a file row opens its path; a directory row toggles it.
/// Rows are read exactly whenever they are countable.
pub open spec fn activation(m: TreeModel, r: Result<FileTreeAction, FileTreeError>, after: TreeModel) -> bool {
    match m.selected {
        None => r == Err::<FileTreeAction, FileTreeError>(FileTreeError::MissingSelection) && after == m,
        Some(s) => {
            ||| r == Err::<FileTreeAction, FileTreeError>(FileTreeError::AllocationFailed) && after == m
            ||| (rows_countable(m) ==> (m.limits.visible_rows == 0 || s >= tree_rows(m).len())) && r == Err::<
                FileTreeAction,
                FileTreeError,
            >(FileTreeError::MissingSelection) && after == m
            ||| rows_countable(m) && m.limits.visible_rows > 0 && s < tree_rows(m).len() && ({
                let row = tree_rows(m)[s as int];
                if row.kind == FileTreeEntryKind::File {
                    r matches Ok(FileTreeAction::Open(p)) && p@ == row.path && after == m
                } else {
                    match toggle_error(m, row.path) {
                        Some(e) => r == Err::<FileTreeAction, FileTreeError>(e) && after == m,
                        None => r == Ok::<FileTreeAction, FileTreeError>(FileTreeAction::Changed) && exists|mid: TreeModel|
                            same_shape(mid.nodes, toggled(m, row.path).nodes) && mid == (TreeModel {
                                nodes: mid.nodes,
                                ..toggled(m, row.path)
                            }) && rebound(mid, after),
                    }
                }
            })
            ||| !rows_countable(m)
        },
    }
}

impl FileTreeState {
    /// Whether the tree keeps its invariant.
    pub open spec fn wf(&self) -> bool {
        tree_wf(self@)
    }

    /// A hidden-by-default tree with `limits`: visible, inactive, unfocused,
    /// with no workspace and nothing cached.
    pub fn with_limits(limits: FileTreeLimits) -> (s: Self)
        ensures
            s.wf(),
            s@ == fresh_tree(limits),
    {
        let s = FileTreeState {
            visible: true,
            active: false,
            focused: false,
            workspace: None,
            tree_generation: 0,
            directory_generation: 0,
            request_generation: 0,
            pending: None,
            nodes: Vec::new(),
            selected: None,
            selected_path: None,
            error: None,
            retained_entries: 0,
            retained_path_bytes: 0,
            limits,
        };
        assert(s@.nodes =~= Seq::<NodeModel>::empty());
        s
    }

    /// A tree with the shipping limits.
    pub fn new() -> (s: Self)
        ensures
            s.wf(),
            s@ == fresh_tree(FileTreeLimits::shipping()),
    {
        FileTreeState::with_limits(FileTreeLimits::default())
    }

    /// Whether the tree is shown.
    pub fn is_visible(&self) -> (r: bool)
        ensures
            r == self@.visible,
    {
        self.visible
    }

    /// Whether the tree is the active panel.
    pub fn is_active(&self) -> (r: bool)
        ensures
            r == self@.active,
    {
        self.active
    }

    /// Whether the tree has keyboard focus.
    pub fn is_focused(&self) -> (r: bool)
        ensures
            r == self@.focused,
    {
        self.focused
    }

    /// Cached directories, retained entries, retained path bytes and the
    /// selected row.
    pub fn snapshot(&self) -> (r: (usize, usize, usize, Option<usize>))
        ensures
            r == (self@.nodes.len() as usize, self@.retained_entries, self@.retained_path_bytes, self@.selected),
    {
        (self.nodes.len(), self.retained_entries, self.retained_path_bytes, self.selected)
    }

    fn node_index(&self, path: &str) -> (r: Option<usize>)
        requires
            nodes_sorted(self@.nodes),
        ensures
            match r {
                Some(i) => node_at(self@.nodes, path@) == Some(i as int) && i < self@.nodes.len(),
                None => node_at(self@.nodes, path@) is None,
            },
    {
        let ghost nodes = self@.nodes;
        let ghost target = path_bytes(path@);
        let mut lo: usize = 0;
        let mut hi: usize = self.nodes.len();
        while lo < hi
            invariant
                nodes == self@.nodes,
                target == path_bytes(path@),
                nodes_sorted(nodes),
                lo <= hi <= nodes.len(),
                forall|i: int| 0 <= i < lo ==> bytes_before(path_bytes((#[trigger] nodes[i]).path), target),
                forall|i: int| hi <= i < nodes.len() ==> bytes_before(target, path_bytes((#[trigger] nodes[i]).path)),
            decreases hi - lo,
        {
            let mid = lo + (hi - lo) / 2;
            assert(nodes[mid as int].path == self.nodes@[mid as int].path@);
            let order = compare_paths(self.nodes[mid].path.as_str(), path);
            match order {
                PathOrder::Equal => {
                    proof {
                        lemma_node_at_unique(nodes, mid as int);
                    }
                    return Some(mid);
                },
                PathOrder::Less => {
                    proof {
                        assert forall|i: int| 0 <= i < mid + 1 implies bytes_before(
                            path_bytes((#[trigger] nodes[i]).path),
                            target,
                        ) by {
                            if i < mid {
                                lemma_before_transitive(
                                    path_bytes(nodes[i].path),
                                    path_bytes(nodes[mid as int].path),
                                    target,
                                );
                            }
                        }
                    }
                    lo = mid + 1;
                },
                PathOrder::Greater => {
                    proof {
                        assert forall|i: int| mid <= i < nodes.len() implies bytes_before(
                            target,
                            path_bytes((#[trigger] nodes[i]).path),
                        ) by {
                            if i > mid {
                                lemma_before_transitive(
                                    target,
                                    path_bytes(nodes[mid as int].path),
                                    path_bytes(nodes[i].path),
                                );
                            }
                        }
                    }
                    hi = mid;
                },
            }
        }
        proof {
            let paths = node_paths(nodes);
            lemma_before_irreflexive(target);
            assert forall|i: int| 0 <= i < paths.len() implies paths[i] != path@ by {
                if paths[i] == path@ {
                    assert(nodes[i].path == path@);
                }
            }
        }
        None
    }

    fn recompute_node(&mut self, path: &str) -> (total: usize)
        requires
            shape_wf(old(self)@.nodes),
        ensures
            same_shape(final(self)@.nodes, old(self)@.nodes),
            final(self)@ == (TreeModel { nodes: final(self)@.nodes, ..old(self)@ }),
            total == sat(rows_under(old(self)@.nodes, path@).len() as int),
            counts_right_under(final(self)@.nodes, path@),
            forall|i: int|
                0 <= i < old(self)@.nodes.len() && node_counts_right(old(self)@.nodes, i) ==> #[trigger] node_counts_right(
                    final(self)@.nodes,
                    i,
                ),
        decreases room(path@),
    {
        let ghost old_nodes = self@.nodes;
        let index = match self.node_index(path) {
            Some(i) => i,
            None => {
                proof {
                    assert(same_shape(self@.nodes, old_nodes));
                }
                return 0;
            },
        };
        let ghost entries = old_nodes[index as int].entries;
        assert(old_nodes[index as int] == node_model(self.nodes@[index as int]));
        if !self.nodes[index].expanded || self.nodes[index].load != DirectoryLoad::Ready {
            self.nodes[index].prefix_rows = Vec::new();
            proof {
                let now = self@.nodes;
                assert(now =~= old_nodes.update(
                    index as int,
                    NodeModel { prefix_rows: Seq::empty(), ..old_nodes[index as int] },
                ));
                assert(same_shape(now, old_nodes));
                assert forall|i: int|
                    0 <= i < old_nodes.len() && node_counts_right(old_nodes, i) implies #[trigger] node_counts_right(
                        now,
                        i,
                    ) by {
                    if i != index {
                        lemma_node_counts_same_shape(now, old_nodes, i);
                    }
                }
                lemma_same_shape_node_at(now, old_nodes, path@);
            }
            return 0;
        }
        let n = self.nodes[index].entries.len();
        let mut prefix: Vec<usize> = Vec::new();
        let mut total: usize = 0;
        let mut k: usize = 0;
        while k < n
            invariant
                shape_wf(old_nodes),
                index < old_nodes.len(),
                old_nodes[index as int].path == path@,
                shown(old_nodes[index as int]),
                entries == old_nodes[index as int].entries,
                n == entries.len(),
                same_shape(self@.nodes, old_nodes),
                self@ == (TreeModel { nodes: self@.nodes, ..old(self)@ }),
                old_nodes == old(self)@.nodes,
                k <= n,
                prefix@.len() == k,
                forall|j: int| 0 <= j < k ==> #[trigger] prefix@[j] == cumulative(old_nodes, path@, entries, j + 1),
                total == cumulative(old_nodes, path@, entries, k as int),
                forall|j: int|
                    0 <= j < k && (#[trigger] entries[j]).kind == FileTreeEntryKind::Directory && descends(
                        path@,
                        entries[j].path,
                    ) ==> counts_right_under(self@.nodes, entries[j].path),
                forall|i: int|
                    0 <= i < old_nodes.len() && node_counts_right(old_nodes, i) ==> #[trigger] node_counts_right(
                        self@.nodes,
                        i,
                    ),
            decreases n - k,
        {
            let ghost before = self@.nodes;
            proof {
                lemma_same_shape_wf(before, old_nodes);
                assert(before[index as int] == NodeModel { prefix_rows: before[index as int].prefix_rows, ..old_nodes[index as int] });
                assert(before[index as int] == node_model(self.nodes@[index as int]));
                assert(entries_below(old_nodes[index as int].path, entries));
            }
            let kind = self.nodes[index].entries[k].kind;
            let descendants: usize = if kind == FileTreeEntryKind::Directory {
                let child = self.nodes[index].entries[k].path.clone();
                assert(child@ == entries[k as int].path);
                assert(descends(path@, child@));
                let d = self.recompute_node(child.as_str());
                proof {
                    let after = self@.nodes;
                    lemma_same_shape_trans(after, before, old_nodes);
                    lemma_same_shape_rows(before, old_nodes, child@);
                    assert forall|j: int|
                        0 <= j < k && (#[trigger] entries[j]).kind == FileTreeEntryKind::Directory && descends(
                            path@,
                            entries[j].path,
                        ) implies counts_right_under(after, entries[j].path) by {
                        lemma_counts_right_transfer(before, after, entries[j].path);
                    }
                }
                d
            } else {
                0
            };
            let once = if total == usize::MAX {
                total
            } else {
                total + 1
            };
            total = if once > usize::MAX - descendants {
                usize::MAX
            } else {
                once + descendants
            };
            prefix.push(total);
            k += 1;
        }
        let ghost before = self@.nodes;
        self.nodes[index].prefix_rows = prefix;
        proof {
            let now = self@.nodes;
            assert(now =~= before.update(
                index as int,
                NodeModel { prefix_rows: prefix@, ..before[index as int] },
            ));
            lemma_same_shape_trans(now, before, old_nodes);
            assert(node_counts_right(now, index as int)) by {
                assert forall|j: int| 0 <= j < entries.len() implies #[trigger] now[index as int].prefix_rows[j]
                    == cumulative(now, now[index as int].path, now[index as int].entries, j + 1) by {
                    lemma_same_shape_cumulative(now, old_nodes, path@, entries, j + 1);
                }
            }
            assert forall|i: int|
                0 <= i < old_nodes.len() && node_counts_right(old_nodes, i) implies #[trigger] node_counts_right(now, i) by {
                if i != index {
                    lemma_node_counts_same_shape(now, before, i);
                }
            }
            assert forall|i: int|
                0 <= i < before.len() && node_counts_right(before, i) implies #[trigger] node_counts_right(now, i) by {
                if i != index {
                    lemma_node_counts_same_shape(now, before, i);
                }
            }
            assert forall|j: int|
                0 <= j < n && (#[trigger] entries[j]).kind == FileTreeEntryKind::Directory && descends(
                    path@,
                    entries[j].path,
                ) implies counts_right_under(now, entries[j].path) by {
                lemma_counts_right_transfer(before, now, entries[j].path);
            }
            lemma_counts_right_from_all(now, path@, entries, 0);
            lemma_same_shape_node_at(now, old_nodes, path@);
            lemma_cumulative_saturates(old_nodes, path@, entries, n as int);
            lemma_rows_from_split(old_nodes, path@, entries, n as int);
        }
        total
    }

    /// Rows the tree shows, counted up to `usize::MAX`.
    pub fn total_rows(&self) -> (r: usize)
        requires
            self.wf(),
        ensures
            r == sat(tree_rows(self@).len() as int),
    {
        let root = String::new();
        let ghost nodes = self@.nodes;
        proof {
            assert(root@ =~= Seq::<char>::empty());
        }
        match self.node_index(root.as_str()) {
            None => 0,
            Some(index) => {
                assert(nodes[index as int] == node_model(self.nodes@[index as int]));
                let n = self.nodes[index].prefix_rows.len();
                if n == 0 {
                    proof {
                        if shown(nodes[index as int]) {
                            assert(rows_from(nodes, root@, nodes[index as int].entries, 0) =~= Seq::empty());
                        }
                    }
                    0
                } else {
                    proof {
                        let entries = nodes[index as int].entries;
                        assert(shown(nodes[index as int]));
                        lemma_cumulative_saturates(nodes, root@, entries, n as int);
                        lemma_rows_from_split(nodes, root@, entries, n as int);
                    }
                    self.nodes[index].prefix_rows[n - 1]
                }
            },
        }
    }

    fn visible_path_at_from(&self, directory: &str, target: usize, current: &mut usize) -> (r: Option<String>)
        requires
            shape_wf(self@.nodes),
        ensures
            ({
                let rows = rows_under(self@.nodes, directory@);
                *old(current) + rows.len() < usize::MAX ==> if *old(current) <= target < *old(current) + rows.len() {
                    match r {
                        Some(p) => p@ == rows[target - *old(current)].path,
                        None => false,
                    }
                } else {
                    r is None && *final(current) == *old(current) + rows.len()
                }
            }),
        decreases room(directory@),
    {
        let ghost nodes = self@.nodes;
        let ghost start = *current;
        let index = match self.node_index(directory) {
            Some(i) => i,
            None => return None,
        };
        assert(nodes[index as int] == node_model(self.nodes@[index as int]));
        if !self.nodes[index].expanded || self.nodes[index].load != DirectoryLoad::Ready {
            return None;
        }
        let ghost entries = nodes[index as int].entries;
        let ghost rows = rows_from(nodes, directory@, entries, 0);
        let ghost bounded = start + rows.len() < usize::MAX;
        let n = self.nodes[index].entries.len();
        let mut k: usize = 0;
        while k < n
            invariant
                shape_wf(nodes),
                nodes == self@.nodes,
                index < nodes.len(),
                nodes[index as int] == node_model(self.nodes@[index as int]),
                nodes[index as int].path == directory@,
                entries == nodes[index as int].entries,
                rows == rows_from(nodes, directory@, entries, 0),
                rows == rows_under(nodes, directory@),
                bounded == (start + rows.len() < usize::MAX),
                start == *old(current),
                n == entries.len(),
                k <= n,
                bounded ==> *current == start + count_first(nodes, directory@, entries, k as int),
                bounded ==> !(start <= target < *current),
            decreases n - k,
        {
            proof {
                lemma_rows_block(nodes, directory@, entries, k as int);
                assert(entries_below(nodes[index as int].path, entries));
            }
            if *current == target {
                proof {
                    if bounded {
                        let c = count_first(nodes, directory@, entries, k as int);
                        let d = count_first(nodes, directory@, entries, k + 1);
                        assert(d == c + 1 + rows_below_entry(nodes, directory@, entries[k as int]).len());
                        assert(d <= rows.len());
                        assert(rows.subrange(c, d)[0] == rows[c]);
                        assert(rows.subrange(c, d)[0] == entry_row(nodes, entries[k as int]));
                    }
                }
                return Some(self.nodes[index].entries[k].path.clone());
            }
            *current = if *current == usize::MAX {
                usize::MAX
            } else {
                *current + 1
            };
            if self.nodes[index].entries[k].kind == FileTreeEntryKind::Directory {
                let child = self.nodes[index].entries[k].path.clone();
                let ghost at = *current;
                let found = self.visible_path_at_from(child.as_str(), target, current);
                proof {
                    if bounded {
                        let c = count_first(nodes, directory@, entries, k as int);
                        let block = rows.subrange(c, count_first(nodes, directory@, entries, k + 1));
                        let below = rows_below_entry(nodes, directory@, entries[k as int]);
                        assert(below == rows_under(nodes, child@));
                        assert forall|t: int| 0 <= t < below.len() implies below[t] == rows[c + 1 + t] by {
                            assert(block[1 + t] == rows[c + 1 + t]);
                        }
                    }
                }
                if found.is_some() {
                    return found;
                }
            } else {
                proof {
                    assert(rows_below_entry(nodes, directory@, entries[k as int]) =~= Seq::empty());
                }
            }
            k += 1;
        }
        proof {
            lemma_rows_from_split(nodes, directory@, entries, n as int);
        }
        None
    }

    fn visible_index_of_from(&self, directory: &str, target: &str, current: &mut usize) -> (r: Option<usize>)
        requires
            shape_wf(self@.nodes),
        ensures
            ({
                let rows = rows_under(self@.nodes, directory@);
                *old(current) + rows.len() < usize::MAX ==> match first_path_from(rows, target@, 0) {
                    Some(j) => r == Some((*old(current) + j) as usize),
                    None => r is None && *final(current) == *old(current) + rows.len(),
                }
            }),
        decreases room(directory@),
    {
        let ghost nodes = self@.nodes;
        let ghost start = *current;
        let index = match self.node_index(directory) {
            Some(i) => i,
            None => return None,
        };
        assert(nodes[index as int] == node_model(self.nodes@[index as int]));
        if !self.nodes[index].expanded || self.nodes[index].load != DirectoryLoad::Ready {
            return None;
        }
        let ghost entries = nodes[index as int].entries;
        let ghost rows = rows_from(nodes, directory@, entries, 0);
        let ghost bounded = start + rows.len() < usize::MAX;
        let n = self.nodes[index].entries.len();
        let mut k: usize = 0;
        while k < n
            invariant
                shape_wf(nodes),
                nodes == self@.nodes,
                index < nodes.len(),
                nodes[index as int] == node_model(self.nodes@[index as int]),
                nodes[index as int].path == directory@,
                entries == nodes[index as int].entries,
                rows == rows_from(nodes, directory@, entries, 0),
                rows == rows_under(nodes, directory@),
                bounded == (start + rows.len() < usize::MAX),
                start == *old(current),
                n == entries.len(),
                k <= n,
                bounded ==> *current == start + count_first(nodes, directory@, entries, k as int),
                bounded ==> first_path_from(rows, target@, 0) == first_path_from(
                    rows,
                    target@,
                    count_first(nodes, directory@, entries, k as int),
                ),
            decreases n - k,
        {
            proof {
                lemma_rows_block(nodes, directory@, entries, k as int);
                assert(entries_below(nodes[index as int].path, entries));
            }
            let ghost c = count_first(nodes, directory@, entries, k as int);
            let ghost d = count_first(nodes, directory@, entries, k + 1);
            let ghost block = rows.subrange(c, d);
            proof {
                if bounded {
                    lemma_first_path_block(rows, target@, c, d, c);
                    assert(block[0] == rows[c]);
                }
            }
            if str_eq(self.nodes[index].entries[k].path.as_str(), target) {
                return Some(*current);
            }
            *current = if *current == usize::MAX {
                usize::MAX
            } else {
                *current + 1
            };
            if self.nodes[index].entries[k].kind == FileTreeEntryKind::Directory {
                let child = self.nodes[index].entries[k].path.clone();
                let found = self.visible_index_of_from(child.as_str(), target, current);
                proof {
                    if bounded {
                        let below = rows_below_entry(nodes, directory@, entries[k as int]);
                        assert(below == rows_under(nodes, child@));
                        assert(block.subrange(1, block.len() as int) =~= below);
                        lemma_first_path_block(block, target@, 1, block.len() as int, 1);
                        assert(block.subrange(1, block.len() as int) == below);
                    }
                }
                if found.is_some() {
                    return found;
                }
            } else {
                proof {
                    assert(rows_below_entry(nodes, directory@, entries[k as int]) =~= Seq::empty());
                    if bounded {
                        assert(first_path_from(block, target@, 1) is None);
                    }
                }
            }
            k += 1;
        }
        proof {
            lemma_rows_from_split(nodes, directory@, entries, n as int);
        }
        None
    }

    /// The path of visible row `target`; exact whenever the tree shows
    /// fewer than `usize::MAX` rows.
    pub fn visible_path_at(&self, target: usize) -> (r: Option<String>)
        requires
            self.wf(),
        ensures
            rows_countable(self@) ==> match r {
                Some(p) => target < tree_rows(self@).len() && p@ == tree_rows(self@)[target as int].path,
                None => target >= tree_rows(self@).len(),
            },
    {
        let root = String::new();
        assert(root@ =~= Seq::<char>::empty());
        let mut current: usize = 0;
        self.visible_path_at_from(root.as_str(), target, &mut current)
    }

    /// The position of the first visible row whose path is `target`; exact
    /// whenever the tree shows fewer than `usize::MAX` rows.
    pub fn visible_index_of(&self, target: &str) -> (r: Option<usize>)
        requires
            self.wf(),
        ensures
            rows_countable(self@) ==> match first_path_from(tree_rows(self@), target@, 0) {
                Some(j) => r == Some(j as usize),
                None => r is None,
            },
    {
        let root = String::new();
        assert(root@ =~= Seq::<char>::empty());
        let mut current: usize = 0;
        self.visible_index_of_from(root.as_str(), target, &mut current)
    }

    fn first_block_after(&self, index: usize, skip: usize) -> (r: usize)
        requires
            shape_wf(self@.nodes),
            index < self@.nodes.len(),
            shown(self@.nodes[index as int]),
            node_counts_right(self@.nodes, index as int),
        ensures
            r <= self@.nodes[index as int].entries.len(),
            rows_from(self@.nodes, self@.nodes[index as int].path, self@.nodes[index as int].entries, 0).len()
                < usize::MAX ==> count_first(
                self@.nodes,
                self@.nodes[index as int].path,
                self@.nodes[index as int].entries,
                r as int,
            ) <= skip,
            rows_from(self@.nodes, self@.nodes[index as int].path, self@.nodes[index as int].entries, 0).len()
                < usize::MAX ==> (r < self@.nodes[index as int].entries.len() ==> skip < count_first(
                self@.nodes,
                self@.nodes[index as int].path,
                self@.nodes[index as int].entries,
                r + 1,
            )),
    {
        let ghost nodes = self@.nodes;
        let ghost path = nodes[index as int].path;
        let ghost entries = nodes[index as int].entries;
        assert(nodes[index as int] == node_model(self.nodes@[index as int]));
        let n = self.nodes[index].prefix_rows.len();
        let ghost bounded = rows_from(nodes, path, entries, 0).len() < usize::MAX;
        proof {
            lemma_rows_from_split(nodes, path, entries, n as int);
            if bounded {
                assert forall|i: int| 0 <= i < n implies #[trigger] nodes[index as int].prefix_rows[i]
                    == count_first(nodes, path, entries, i + 1) by {
                    lemma_cumulative_saturates(nodes, path, entries, i + 1);
                    lemma_count_first_grows(nodes, path, entries, i + 1, n as int);
                }
            }
        }
        let mut lo: usize = 0;
        let mut hi: usize = n;
        while lo < hi
            invariant
                nodes == self@.nodes,
                index < nodes.len(),
                nodes[index as int] == node_model(self.nodes@[index as int]),
                path == nodes[index as int].path,
                entries == nodes[index as int].entries,
                n == entries.len(),
                n == nodes[index as int].prefix_rows.len(),
                bounded == (rows_from(nodes, path, entries, 0).len() < usize::MAX),
                bounded ==> forall|i: int| 0 <= i < n ==> #[trigger] nodes[index as int].prefix_rows[i]
                    == count_first(nodes, path, entries, i + 1),
                lo <= hi <= n,
                bounded ==> (lo == 0 || count_first(nodes, path, entries, lo as int) <= skip),
                bounded ==> (hi < n ==> skip < count_first(nodes, path, entries, hi + 1)),
            decreases hi - lo,
        {
            let mid = lo + (hi - lo) / 2;
            if self.nodes[index].prefix_rows[mid] <= skip {
                lo = mid + 1;
            } else {
                proof {
                    if bounded && hi < n {
                        lemma_count_first_grows(nodes, path, entries, mid + 1, hi + 1);
                    }
                }
                hi = mid;
            }
        }
        proof {
            if bounded && lo == 0 {
                assert(count_first(nodes, path, entries, 0) == 0);
            }
        }
        lo
    }

    fn collect_rows(
        &self,
        directory: &str,
        skip: usize,
        limit: usize,
        base: usize,
        rows: &mut Vec<VisibleFileTreeRow>,
    )
        requires
            shape_wf(self@.nodes),
            forall|i: int| 0 <= i < self@.nodes.len() ==> names_at_boundaries((#[trigger] self@.nodes[i]).entries),
            counts_right_under(self@.nodes, directory@),
        ensures
            rows_under(self@.nodes, directory@).len() < usize::MAX ==> ({
                let all = rows_under(self@.nodes, directory@);
                let start = old(rows)@.len();
                let added: int = if start >= limit {
                    0
                } else if skip >= all.len() {
                    0
                } else if limit - start < all.len() - skip {
                    limit - start
                } else {
                    all.len() - skip
                };
                &&& final(rows)@.len() == start + added
                &&& forall|t: int| 0 <= t < start ==> #[trigger] final(rows)@[t]@ == old(rows)@[t]@
                &&& forall|t: int|
                    0 <= t < added ==> #[trigger] final(rows)@[start + t]@ == visible_row(
                        all[skip + t],
                        sat(base + start + t) as usize,
                        self@.selected,
                    )
            }),
        decreases room(directory@),
    {
        let ghost nodes = self@.nodes;
        let ghost start = rows@.len();
        if rows.len() >= limit {
            return;
        }
        let index = match self.node_index(directory) {
            Some(i) => i,
            None => return,
        };
        assert(nodes[index as int] == node_model(self.nodes@[index as int]));
        if !self.nodes[index].expanded || self.nodes[index].load != DirectoryLoad::Ready {
            return;
        }
        let ghost entries = nodes[index as int].entries;
        let ghost all = rows_from(nodes, directory@, entries, 0);
        let ghost bounded = all.len() < usize::MAX;
        let n = self.nodes[index].entries.len();
        proof {
            lemma_rows_from_split(nodes, directory@, entries, n as int);
            assert(node_counts_right(nodes, index as int));
        }
        let mut entry_index = self.first_block_after(index, skip);
        let mut previous: usize = if entry_index == 0 {
            0
        } else {
            proof {
                lemma_cumulative_saturates(nodes, directory@, entries, entry_index as int);
                lemma_count_first_grows(nodes, directory@, entries, entry_index as int, n as int);
            }
            self.nodes[index].prefix_rows[entry_index - 1]
        };
        let mut next = skip;
        while entry_index < n && rows.len() < limit
            invariant
                shape_wf(nodes),
                nodes == self@.nodes,
                forall|i: int| 0 <= i < nodes.len() ==> names_at_boundaries((#[trigger] nodes[i]).entries),
                index < nodes.len(),
                nodes[index as int] == node_model(self.nodes@[index as int]),
                nodes[index as int].path == directory@,
                shown(nodes[index as int]),
                node_counts_right(nodes, index as int),
                counts_right_from(nodes, directory@, entries, 0),
                entries == nodes[index as int].entries,
                n == entries.len(),
                all == rows_from(nodes, directory@, entries, 0),
                all == rows_under(nodes, directory@),
                all.len() == count_first(nodes, directory@, entries, n as int),
                bounded == (all.len() < usize::MAX),
                start == old(rows)@.len(),
                start < limit,
                entry_index <= n,
                bounded ==> previous == count_first(nodes, directory@, entries, entry_index as int),
                bounded ==> previous <= next,
                bounded ==> (entry_index < n ==> next < count_first(nodes, directory@, entries, entry_index + 1)),
                bounded ==> (next == skip || next <= all.len()),
                bounded ==> skip <= next,
                bounded ==> rows@.len() <= limit,
                bounded ==> (rows@.len() < limit ==> skip + (rows@.len() - start) == next),
                bounded ==> (rows@.len() == start || skip + (rows@.len() - start) <= all.len()),
                bounded ==> rows@.len() >= start,
                bounded ==> forall|t: int| 0 <= t < start ==> #[trigger] rows@[t]@ == old(rows)@[t]@,
                bounded ==> forall|t: int|
                    0 <= t < rows@.len() - start ==> #[trigger] rows@[start + t]@ == visible_row(
                        all[skip + t],
                        sat(base + start + t) as usize,
                        self@.selected,
                    ),
            decreases n - entry_index,
        {
            let ghost k = entry_index as int;
            let ghost c = count_first(nodes, directory@, entries, k);
            let ghost d = count_first(nodes, directory@, entries, k + 1);
            let ghost below = rows_below_entry(nodes, directory@, entries[k]);
            let ghost before = rows@;
            proof {
                lemma_rows_block(nodes, directory@, entries, k);
                lemma_count_first_grows(nodes, directory@, entries, k + 1, n as int);
                lemma_cumulative_saturates(nodes, directory@, entries, k + 1);
                assert(entries_below(nodes[index as int].path, entries));
                assert(names_at_boundaries(entries));
                assert(all.subrange(c, d)[0] == all[c]);
                assert forall|t: int| 0 <= t < below.len() implies below[t] == all[c + 1 + t] by {
                    assert(all.subrange(c, d)[1 + t] == all[c + 1 + t]);
                }
            }
            let local_skip = if next < previous {
                0
            } else {
                next - previous
            };
            let kind = self.nodes[index].entries[entry_index].kind;
            if local_skip == 0 {
                let child_node = self.node_index(self.nodes[index].entries[entry_index].path.as_str());
                let expanded = kind == FileTreeEntryKind::Directory && match child_node {
                    Some(j) => self.nodes[j].expanded,
                    None => false,
                };
                proof {
                    if let Some(j) = child_node {
                        assert(nodes[j as int] == node_model(self.nodes@[j as int]));
                    }
                    assert(expanded == entry_row(nodes, entries[k]).expanded);
                }
                let position = rows.len();
                let row_index = if base > usize::MAX - position {
                    usize::MAX
                } else {
                    base + position
                };
                let selected = match self.selected {
                    Some(s) => s == row_index,
                    None => false,
                };
                let row = VisibleFileTreeRow {
                    index: row_index,
                    path: self.nodes[index].entries[entry_index].path.clone(),
                    name_start: self.nodes[index].entries[entry_index].name_start,
                    depth: self.nodes[index].entries[entry_index].depth as usize,
                    kind,
                    expanded,
                    selected,
                };
                rows.push(row);
                proof {
                    if bounded {
                        assert(rows@[position as int]@ == visible_row(
                            all[c],
                            sat(base + position) as usize,
                            self@.selected,
                        ));
                        assert forall|t: int| 0 <= t < rows@.len() - start implies #[trigger] rows@[start + t]@
                            == visible_row(all[skip + t], sat(base + start + t) as usize, self@.selected) by {
                            if t < before.len() - start {
                                assert(rows@[start + t] == before[start + t]);
                            }
                        }
                        assert forall|t: int| 0 <= t < start implies #[trigger] rows@[t]@ == old(rows)@[t]@ by {
                            assert(rows@[t] == before[t]);
                        }
                    }
                }
                if expanded {
                    let child = self.nodes[index].entries[entry_index].path.clone();
                    proof {
                        lemma_counts_right_from_get(nodes, directory@, entries, 0, k);
                        assert(below == rows_under(nodes, child@));
                    }
                    let ghost mid = rows@;
                    self.collect_rows(child.as_str(), 0, limit, base, rows);
                    proof {
                        if bounded {
                            assert forall|t: int| 0 <= t < rows@.len() - start implies #[trigger] rows@[start + t]@
                                == visible_row(all[skip + t], sat(base + start + t) as usize, self@.selected) by {
                                if t < mid.len() - start {
                                    assert(rows@[start + t]@ == mid[start + t]@);
                                } else {
                                    let u = t - (mid.len() - start);
                                    assert(rows@[mid.len() + u]@ == visible_row(
                                        below[u],
                                        sat(base + mid.len() + u) as usize,
                                        self@.selected,
                                    ));
                                }
                            }
                            assert forall|t: int| 0 <= t < start implies #[trigger] rows@[t]@ == old(rows)@[t]@ by {
                                assert(rows@[t]@ == mid[t]@);
                            }
                        }
                    }
                } else {
                    proof {
                        if kind == FileTreeEntryKind::Directory && descends(directory@, entries[k].path) {
                            match node_at(nodes, entries[k].path) {
                                Some(j) => {
                                    assert(!nodes[j].expanded);
                                },
                                None => {},
                            }
                        }
                        assert(below =~= Seq::<RowModel>::empty());
                    }
                }
            } else if kind == FileTreeEntryKind::Directory {
                let child = self.nodes[index].entries[entry_index].path.clone();
                proof {
                    lemma_counts_right_from_get(nodes, directory@, entries, 0, k);
                    assert(below == rows_under(nodes, child@));
                }
                let ghost mid = rows@;
                self.collect_rows(child.as_str(), local_skip - 1, limit, base, rows);
                proof {
                    if bounded {
                        assert forall|t: int| 0 <= t < rows@.len() - start implies #[trigger] rows@[start + t]@
                            == visible_row(all[skip + t], sat(base + start + t) as usize, self@.selected) by {
                            if t < mid.len() - start {
                                assert(rows@[start + t]@ == mid[start + t]@);
                            } else {
                                let u = t - (mid.len() - start);
                                assert(rows@[mid.len() + u]@ == visible_row(
                                    below[local_skip - 1 + u],
                                    sat(base + mid.len() + u) as usize,
                                    self@.selected,
                                ));
                            }
                        }
                        assert forall|t: int| 0 <= t < start implies #[trigger] rows@[t]@ == old(rows)@[t]@ by {
                            assert(rows@[t]@ == mid[t]@);
                        }
                    }
                }
            } else {
                proof {
                    assert(below =~= Seq::<RowModel>::empty());
                }
            }
            previous = self.nodes[index].prefix_rows[entry_index];
            next = previous;
            entry_index += 1;
        }
    }

    /// The rows of a view whose first visible row is `first_visible`, with
    /// `visible_rows` shown and `overscan` more on each side, capped by the
    /// tree's row ceiling; exact whenever the tree shows fewer than
    /// `usize::MAX` rows. Only reserving the rows can fail.
    pub fn visible_rows(&self, first_visible: usize, visible_rows: usize, overscan: usize) -> (r: Result<
        Vec<VisibleFileTreeRow>,
        FileTreeError,
    >)
        requires
            self.wf(),
        ensures
            r matches Err(e) ==> e == FileTreeError::AllocationFailed,
            rows_countable(self@) ==> (r matches Ok(v) ==> ({
                let all = tree_rows(self@);
                let (start, count) = window(first_visible, visible_rows, overscan, self@.limits.visible_rows);
                let added: int = if start >= all.len() {
                    0
                } else if count < all.len() - start {
                    count as int
                } else {
                    all.len() - start
                };
                &&& v@.len() == added
                &&& forall|t: int|
                    0 <= t < added ==> #[trigger] v@[t]@ == visible_row(
                        all[start + t],
                        (start + t) as usize,
                        self@.selected,
                    )
            })),
    {
        let start = if first_visible < overscan {
            0
        } else {
            first_visible - overscan
        };
        let shown_rows = if visible_rows < self.limits.visible_rows {
            visible_rows
        } else {
            self.limits.visible_rows
        };
        let margin = if overscan > usize::MAX / 2 {
            usize::MAX
        } else {
            overscan * 2
        };
        let wanted = if shown_rows > usize::MAX - margin {
            usize::MAX
        } else {
            shown_rows + margin
        };
        let count = if wanted < self.limits.visible_rows {
            wanted
        } else {
            self.limits.visible_rows
        };
        let mut rows: Vec<VisibleFileTreeRow> = Vec::new();
        if rows.try_reserve(count).is_err() {
            return Err(FileTreeError::AllocationFailed);
        }
        let root = String::new();
        assert(root@ =~= Seq::<char>::empty());
        assert(rows@.len() == 0);
        assert((start, count) == window(first_visible, visible_rows, overscan, self@.limits.visible_rows));
        self.collect_rows(root.as_str(), start, count, start, &mut rows);
        proof {
            let all = tree_rows(self@);
            if all.len() < usize::MAX {
                assert forall|t: int| 0 <= t < rows@.len() implies #[trigger] rows@[t]@ == visible_row(
                    all[start + t],
                    (start + t) as usize,
                    self@.selected,
                ) by {
                    assert(rows@[0 + t]@ == visible_row(all[start + t], sat(start + 0 + t) as usize, self@.selected));
                }
            }
        }
        Ok(rows)
    }

    fn cancel_pending(&mut self)
        requires
            old(self).wf(),
        ensures
            final(self).wf(),
            final(self)@ == cancelled(old(self)@),
    {
        let identity = match self.pending {
            Some(id) => id,
            None => return,
        };
        self.pending = None;
        self.set_generation_load(identity.directory, DirectoryLoad::Dormant);
    }

    fn set_generation_load(&mut self, generation: u64, load: DirectoryLoad)
        requires
            tree_wf(TreeModel { pending: None, ..old(self)@ }),
            old(self)@.pending is None,
            load != DirectoryLoad::Ready,
            forall|i: int|
                0 <= i < old(self)@.nodes.len() && (#[trigger] old(self)@.nodes[i]).generation == generation
                    ==> old(self)@.nodes[i].load != DirectoryLoad::Ready,
        ensures
            final(self).wf(),
            final(self)@ == (TreeModel { nodes: with_load(old(self)@.nodes, generation, load), ..old(self)@ }),
    {
        let ghost nodes = self@.nodes;
        let mut i: usize = 0;
        while i < self.nodes.len()
            invariant
                nodes == self@.nodes,
                self@ == old(self)@,
                tree_wf(self@),
                self@.pending is None,
                load != DirectoryLoad::Ready,
                forall|j: int|
                    0 <= j < nodes.len() && (#[trigger] nodes[j]).generation == generation ==> nodes[j].load
                        != DirectoryLoad::Ready,
                i <= nodes.len(),
                forall|j: int| 0 <= j < i ==> (#[trigger] nodes[j]).generation != generation,
            decreases nodes.len() - i,
        {
            assert(nodes[i as int] == node_model(self.nodes@[i as int]));
            if self.nodes[i].generation == generation {
                let ghost before = self@;
                self.nodes[i].load = load;
                proof {
                    let c = choose|c: int| 0 <= c < nodes.len() && (#[trigger] nodes[c]).generation == generation;
                    if c != i {
                        assert(nodes[c].generation != nodes[i as int].generation);
                    }
                    let now = self@.nodes;
                    assert(now =~= nodes.update(i as int, NodeModel { load, ..nodes[i as int] }));
                    assert(same_rows(nodes, now));
                    lemma_same_rows_counts(nodes, now, Seq::empty());
                }
                return;
            }
            i += 1;
        }
    }

    /// Records `error` as the tree's last error, bounded.
    fn record_error(&mut self, error: &FileTreeError)
        requires
            old(self).wf(),
        ensures
            final(self).wf(),
            final(self)@ == (TreeModel { error: final(self)@.error, ..old(self)@ }),
            final(self)@.error matches Some(t) && crate::path_order::path_bytes(t) == recorded_error(*error),
    {
        self.error = Some(bounded_message(error));
    }

    /// The last error, or else the first error a cached directory recorded.
    pub fn error_message(&self) -> (r: Option<String>)
        ensures
            match self@.error {
                Some(t) => r matches Some(m) && m@ == t,
                None => match first_node_error(self@.nodes, 0) {
                    Some(t) => r matches Some(m) && m@ == t,
                    None => r is None,
                },
            },
    {
        match &self.error {
            Some(t) => return Some(t.clone()),
            None => {},
        }
        let mut i: usize = 0;
        while i < self.nodes.len()
            invariant
                i <= self@.nodes.len(),
                self@.error is None,
                first_node_error(self@.nodes, 0) == first_node_error(self@.nodes, i as int),
            decreases self@.nodes.len() - i,
        {
            assert(self@.nodes[i as int] == node_model(self.nodes@[i as int]));
            match &self.nodes[i].first_error {
                Some(t) => return Some(t.clone()),
                None => {},
            }
            i += 1;
        }
        None
    }

    /// Hides the tree, dropping focus and cancelling its pending request;
    /// whether it was visible.
    pub fn conceal(&mut self) -> (r: bool)
        requires
            old(self).wf(),
        ensures
            final(self).wf(),
            r == old(self)@.visible,
            !r ==> final(self)@ == old(self)@,
            r ==> final(self)@ == cancelled(TreeModel { visible: false, focused: false, ..old(self)@ }),
    {
        if !self.visible {
            return false;
        }
        self.visible = false;
        self.focused = false;
        self.cancel_pending();
        true
    }

    /// Drops keyboard focus; whether the tree had it.
    pub fn unfocus(&mut self) -> (r: bool)
        ensures
            r == old(self)@.focused,
            final(self)@ == (TreeModel { focused: false, ..old(self)@ }),
    {
        let changed = self.focused;
        self.focused = false;
        changed
    }

    fn insert_root(&mut self) -> (r: Result<(), FileTreeError>)
        requires
            old(self).wf(),
            old(self)@.nodes.len() == 0,
        ensures
            final(self).wf(),
            old(self)@.directory_generation == u64::MAX ==> r == Err::<(), FileTreeError>(
                FileTreeError::GenerationExhausted,
            ),
            r is Ok ==> old(self)@.directory_generation < u64::MAX && final(self)@ == with_root(old(self)@),
            r is Err ==> final(self)@ == old(self)@,
            old(self)@.directory_generation < u64::MAX && r is Err ==> r == Err::<(), FileTreeError>(
                FileTreeError::AllocationFailed,
            ),
    {
        if self.directory_generation == u64::MAX {
            return Err(FileTreeError::GenerationExhausted);
        }
        let generation = self.directory_generation + 1;
        if self.nodes.try_reserve(1).is_err() {
            return Err(FileTreeError::AllocationFailed);
        }
        self.directory_generation = generation;
        self.nodes.push(DirectoryNode::fresh(String::new(), generation));
        proof {
            let m = self@;
            assert(m.nodes =~= seq![fresh_node(Seq::empty(), generation)]);
            assert(node_counts_right(m.nodes, 0));
            assert(node_paths(m.nodes)[0] == Seq::<char>::empty());
        }
        Ok(())
    }

    fn reset_for_workspace(&mut self, workspace: u64) -> (r: Result<(), FileTreeError>)
        requires
            old(self).wf(),
        ensures
            final(self).wf(),
            old(self)@.tree_generation == u64::MAX ==> r == Err::<(), FileTreeError>(
                FileTreeError::GenerationExhausted,
            ) && final(self)@ == old(self)@,
            old(self)@.tree_generation < u64::MAX ==> ({
                let c = cleared(old(self)@, workspace);
                &&& c.directory_generation == u64::MAX ==> r == Err::<(), FileTreeError>(
                    FileTreeError::GenerationExhausted,
                ) && final(self)@ == c
                &&& r is Ok ==> final(self)@ == with_root(c)
                &&& r is Err ==> final(self)@ == c
                &&& c.directory_generation < u64::MAX && r is Err ==> r == Err::<(), FileTreeError>(
                    FileTreeError::AllocationFailed,
                )
            }),
    {
        if self.tree_generation == u64::MAX {
            return Err(FileTreeError::GenerationExhausted);
        }
        self.tree_generation = self.tree_generation + 1;
        self.workspace = Some(workspace);
        self.pending = None;
        self.nodes.clear();
        self.selected = None;
        self.selected_path = None;
        self.error = None;
        self.retained_entries = 0;
        self.retained_path_bytes = 0;
        proof {
            assert(self@.nodes =~= Seq::<NodeModel>::empty());
        }
        self.insert_root()
    }

    /// Shows, activates and focuses the tree for `workspace`, resetting it
    /// when the workspace changes and caching the root when nothing is
    /// cached; whether visibility, activity or focus changed. Refused for
    /// invalid limits or exhausted generations, and when the root cannot be
    /// stored.
    pub fn activate(&mut self, workspace: u64) -> (r: Result<bool, FileTreeError>)
        requires
            old(self).wf(),
        ensures
            final(self).wf(),
            !tree_limits_valid(old(self)@.limits) ==> r == Err::<bool, FileTreeError>(FileTreeError::InvalidLimits)
                && final(self)@ == old(self)@,
            tree_limits_valid(old(self)@.limits) ==> ({
                let flagged = TreeModel { visible: true, active: true, focused: true, ..old(self)@ };
                let changed = !old(self)@.visible || !old(self)@.active || !old(self)@.focused;
                if old(self)@.workspace != Some(workspace) {
                    if old(self)@.tree_generation == u64::MAX {
                        r == Err::<bool, FileTreeError>(FileTreeError::GenerationExhausted) && final(self)@ == flagged
                    } else {
                        let c = cleared(flagged, workspace);
                        if c.directory_generation == u64::MAX {
                            r == Err::<bool, FileTreeError>(FileTreeError::GenerationExhausted) && final(self)@ == c
                        } else {
                            (r == Ok::<bool, FileTreeError>(changed) && final(self)@ == with_root(c)) || (r
                                == Err::<bool, FileTreeError>(FileTreeError::AllocationFailed) && final(self)@ == c)
                        }
                    }
                } else if old(self)@.nodes.len() == 0 {
                    if old(self)@.directory_generation == u64::MAX {
                        r == Err::<bool, FileTreeError>(FileTreeError::GenerationExhausted) && final(self)@ == flagged
                    } else {
                        (r == Ok::<bool, FileTreeError>(changed) && final(self)@ == with_root(flagged)) || (r
                            == Err::<bool, FileTreeError>(FileTreeError::AllocationFailed) && final(self)@ == flagged)
                    }
                } else {
                    r == Ok::<bool, FileTreeError>(changed) && final(self)@ == flagged
                }
            }),
    {
        if !self.limits.is_valid() {
            return Err(FileTreeError::InvalidLimits);
        }
        let changed = !self.visible || !self.active || !self.focused;
        self.visible = true;
        self.active = true;
        self.focused = true;
        let same = match self.workspace {
            Some(w) => w == workspace,
            None => false,
        };
        if !same {
            match self.reset_for_workspace(workspace) {
                Ok(()) => {},
                Err(e) => return Err(e),
            }
        } else if self.nodes.len() == 0 {
            match self.insert_root() {
                Ok(()) => {},
                Err(e) => return Err(e),
            }
        }
        Ok(changed)
    }

    /// Takes the next directory request: the first expanded dormant
    /// directory starts loading under a fresh request identity. None while
    /// hidden, inactive, already waiting, without a workspace, with nothing
    /// to load, or with request generations exhausted.
    pub fn take_request(&mut self) -> (r: Option<FileTreeRequest>)
        requires
            old(self).wf(),
        ensures
            final(self).wf(),
            ({
                let m = old(self)@;
                if !m.visible || !m.active || m.pending is Some || m.workspace is None || first_dormant(m.nodes, 0) is None
                    || m.request_generation == u64::MAX {
                    r is None && final(self)@ == m
                } else {
                    let i = first_dormant(m.nodes, 0)->0;
                    let id = FileTreeRequestIdentity {
                        workspace: m.workspace->0,
                        tree: m.tree_generation,
                        directory: m.nodes[i].generation,
                        request: (m.request_generation + 1) as u64,
                    };
                    &&& r matches Some(q) && q@ == (TreeRequestModel { identity: id, relative: m.nodes[i].path, limits: m.limits })
                    &&& final(self)@ == (TreeModel {
                        request_generation: (m.request_generation + 1) as u64,
                        pending: Some(id),
                        nodes: m.nodes.update(i, NodeModel { load: DirectoryLoad::Loading(id), ..m.nodes[i] }),
                        ..m
                    })
                }
            }),
    {
        if !self.visible || !self.active || self.pending.is_some() {
            return None;
        }
        let workspace = match self.workspace {
            Some(w) => w,
            None => return None,
        };
        let ghost nodes = self@.nodes;
        let mut index: usize = 0;
        while index < self.nodes.len() && !(self.nodes[index].expanded && self.nodes[index].load
            == DirectoryLoad::Dormant)
            invariant
                nodes == self@.nodes,
                index <= nodes.len(),
                first_dormant(nodes, 0) == first_dormant(nodes, index as int),
            decreases nodes.len() - index,
        {
            assert(nodes[index as int] == node_model(self.nodes@[index as int]));
            index += 1;
        }
        if index == self.nodes.len() {
            return None;
        }
        if self.request_generation == u64::MAX {
            return None;
        }
        assert(nodes[index as int] == node_model(self.nodes@[index as int]));
        self.request_generation = self.request_generation + 1;
        let identity = FileTreeRequestIdentity {
            workspace,
            tree: self.tree_generation,
            directory: self.nodes[index].generation,
            request: self.request_generation,
        };
        let ghost before = self@;
        self.nodes[index].load = DirectoryLoad::Loading(identity);
        self.pending = Some(identity);
        proof {
            let now = self@.nodes;
            assert(now =~= nodes.update(index as int, NodeModel { load: DirectoryLoad::Loading(identity), ..nodes[index as int] }));
            assert(same_rows(nodes, now));
            lemma_same_rows_counts(nodes, now, Seq::empty());
            assert forall|i: int, j: int| 0 <= i < j < now.len() implies bytes_before(
                path_bytes((#[trigger] now[i]).path),
                path_bytes((#[trigger] now[j]).path),
            ) by {
                assert(now[i].path == nodes[i].path && now[j].path == nodes[j].path);
            }
            assert forall|i: int|
                0 <= i < now.len() && (self@.pending matches Some(id) && (#[trigger] now[i]).generation == id.directory)
                    implies now[i].load == DirectoryLoad::Loading(self@.pending->0) by {
                if i != index {
                    assert(nodes[i].generation != nodes[index as int].generation);
                }
            }
        }
        let relative = self.nodes[index].path.clone();
        Some(FileTreeRequest::new(identity, relative, self.limits))
    }

    /// Takes back the pending request `identity` after its submission
    /// failed: its directory turns dormant again and the failure is
    /// recorded. Whether `identity` was pending.
    pub fn reject_submission(&mut self, identity: FileTreeRequestIdentity) -> (r: bool)
        requires
            old(self).wf(),
        ensures
            final(self).wf(),
            r == (old(self)@.pending == Some(identity)),
            !r ==> final(self)@ == old(self)@,
            r ==> final(self)@ == (TreeModel { error: final(self)@.error, ..cancelled(old(self)@) }),
            r ==> match final(self)@.error {
                Some(t) => path_bytes(t) == recorded_error(FileTreeError::AllocationFailed),
                None => false,
            },
    {
        let matches_pending = match self.pending {
            Some(id) => id == identity,
            None => false,
        };
        if !matches_pending {
            return false;
        }
        self.pending = None;
        self.set_generation_load(identity.directory, DirectoryLoad::Dormant);
        self.record_error(&FileTreeError::AllocationFailed);
        true
    }

    fn rebind_selected(&mut self)
        requires
            old(self).wf(),
        ensures
            final(self).wf(),
            rebound(old(self)@, final(self)@),
    {
        let selected = match &self.selected_path {
            Some(p) => self.visible_index_of(p.as_str()),
            None => None,
        };
        self.selected = selected;
        let ghost nodes = self@.nodes;
        let mut future = false;
        let mut i: usize = 0;
        while i < self.nodes.len()
            invariant
                nodes == self@.nodes,
                i <= nodes.len(),
                future == exists|j: int|
                    0 <= j < i && (#[trigger] nodes[j]).expanded && (nodes[j].load == DirectoryLoad::Dormant
                        || nodes[j].load is Loading),
            decreases nodes.len() - i,
        {
            assert(nodes[i as int] == node_model(self.nodes@[i as int]));
            let waiting = match self.nodes[i].load {
                DirectoryLoad::Dormant => true,
                DirectoryLoad::Loading(_) => true,
                _ => false,
            };
            if self.nodes[i].expanded && waiting {
                future = true;
            }
            i += 1;
        }
        if self.selected.is_none() && !future {
            self.selected_path = None;
        }
    }

    fn recompute_prefixes(&mut self)
        requires
            shape_wf(old(self)@.nodes),
        ensures
            same_shape(final(self)@.nodes, old(self)@.nodes),
            final(self)@ == (TreeModel { nodes: final(self)@.nodes, ..old(self)@ }),
            counts_right_under(final(self)@.nodes, Seq::empty()),
    {
        let root = String::new();
        assert(root@ =~= Seq::<char>::empty());
        let _ = self.recompute_node(root.as_str());
    }

    fn publish_directory(&mut self, index: usize, result: DirectoryResult) -> (r: Result<(), FileTreeError>)
        requires
            old(self).wf(),
            index < old(self)@.nodes.len(),
            old(self)@.nodes[index as int].path == result@.relative,
            old(self)@.nodes[index as int].load != DirectoryLoad::Ready,
            old(self)@.pending is None,
        ensures
            final(self).wf(),
            r is Err ==> r == Err::<(), FileTreeError>(FileTreeError::AllocationFailed) && final(self)@ == old(self)@,
            r is Ok ==> exists|mid: TreeModel|
                same_shape(mid.nodes, published(old(self)@, index as int, result@).nodes) && mid == (TreeModel {
                    nodes: mid.nodes,
                    ..published(old(self)@, index as int, result@)
                }) && rebound(mid, final(self)@),
    {
        let ghost m = self@;
        let ghost listing = result@;
        let available_entries = if self.limits.cached_entries < self.retained_entries {
            0
        } else {
            self.limits.cached_entries - self.retained_entries
        };
        let available_bytes = if self.limits.cached_path_bytes < self.retained_path_bytes {
            0
        } else {
            self.limits.cached_path_bytes - self.retained_path_bytes
        };
        let (entries, report, first_error) = result.into_parts();
        let reserve = if entries.len() < available_entries {
            entries.len()
        } else {
            available_entries
        };
        let mut retained: Vec<FileTreeEntry> = Vec::new();
        if retained.try_reserve(reserve).is_err() {
            return Err(FileTreeError::AllocationFailed);
        }
        let (retained, path_bytes_kept, skipped) = retain_entries(
            retained,
            &entries,
            Ghost(listing.entries),
            available_entries,
            available_bytes,
        );
        let omitted = if report.omitted > usize::MAX - skipped {
            usize::MAX
        } else {
            report.omitted + skipped
        };
        let kept_count = retained.len();
        let new_report = DirectoryReport {
            scanned: report.scanned,
            retained: kept_count,
            path_bytes: path_bytes_kept,
            omitted,
            errors: report.errors,
            truncated: report.truncated || omitted > report.omitted,
        };
        self.retained_entries = if self.retained_entries > usize::MAX - kept_count {
            usize::MAX
        } else {
            self.retained_entries + kept_count
        };
        self.retained_path_bytes = if self.retained_path_bytes > usize::MAX - path_bytes_kept {
            usize::MAX
        } else {
            self.retained_path_bytes + path_bytes_kept
        };
        let error = match &first_error {
            Some(t) => Some(t.clone()),
            None => None,
        };
        self.nodes[index].entries = retained;
        self.nodes[index].report = new_report;
        self.nodes[index].first_error = first_error;
        self.nodes[index].load = DirectoryLoad::Ready;
        self.error = error;
        proof {
            let now = self@;
            let expected = published(m, index as int, listing);
            assert(now.nodes =~= expected.nodes);
            assert(now == expected);
            lemma_published_shape(m, index as int, listing);
        }
        self.recompute_prefixes();
        proof {
            lemma_shape_after_recount(published(m, index as int, listing), self@);
        }
        self.rebind_selected();
        Ok(())
    }

    /// Takes the answer to a directory request: stale unless the tree is
    /// shown and active for the answer's workspace and tree generation, the
    /// answer is the pending request, and its directory is still cached
    /// under the answered path. A listing is published and the rows and
    /// selection follow; a failure marks the directory failed and records
    /// the error.
    pub fn receive(&mut self, output: FileTreeWorkerOutput) -> (r: FileTreeAdmission)
        requires
            old(self).wf(),
        ensures
            final(self).wf(),
            ({
                let m = old(self)@;
                let id = output@.identity;
                let fresh = m.visible && m.active && m.workspace == Some(id.workspace) && m.tree_generation == id.tree
                    && m.pending == Some(id);
                let target = generation_index(m.nodes, id.directory);
                let matched = fresh && target is Some && m.nodes[target->0].path == output@.relative;
                let base = TreeModel { pending: None, ..m };
                if !matched {
                    r == FileTreeAdmission::Stale && final(self)@ == m
                } else {
                    match output@.result {
                        Ok(listing) => (r == FileTreeAdmission::Directory && exists|mid: TreeModel|
                            same_shape(mid.nodes, published(base, target->0, listing).nodes) && mid == (TreeModel {
                                nodes: mid.nodes,
                                ..published(base, target->0, listing)
                            }) && rebound(mid, final(self)@)) || (r == FileTreeAdmission::Failed && failed_after(
                            base,
                            target->0,
                            None,
                            FileTreeError::AllocationFailed,
                            final(self)@,
                        )),
                        Err(e) => r == FileTreeAdmission::Failed && failed_after(
                            base,
                            target->0,
                            Some(e),
                            e,
                            final(self)@,
                        ),
                    }
                }
            }),
    {
        let ghost m = self@;
        let (identity, relative, result) = output.into_parts();
        let fresh = self.visible && self.active && match self.workspace {
            Some(w) => w == identity.workspace,
            None => false,
        } && self.tree_generation == identity.tree && match self.pending {
            Some(p) => p == identity,
            None => false,
        };
        if !fresh {
            return FileTreeAdmission::Stale;
        }
        let ghost nodes = self@.nodes;
        let mut index: usize = 0;
        while index < self.nodes.len() && self.nodes[index].generation != identity.directory
            invariant
                nodes == self@.nodes,
                index <= nodes.len(),
                forall|j: int| 0 <= j < index ==> (#[trigger] nodes[j]).generation != identity.directory,
            decreases nodes.len() - index,
        {
            assert(nodes[index as int] == node_model(self.nodes@[index as int]));
            index += 1;
        }
        if index == self.nodes.len() {
            return FileTreeAdmission::Stale;
        }
        assert(nodes[index as int] == node_model(self.nodes@[index as int]));
        proof {
            let c = choose|c: int| 0 <= c < nodes.len() && (#[trigger] nodes[c]).generation == identity.directory;
            if c != index {
                assert(nodes[c].generation != nodes[index as int].generation);
            }
        }
        if !str_eq(self.nodes[index].path.as_str(), relative.as_str()) {
            return FileTreeAdmission::Stale;
        }
        self.pending = None;
        proof {
            assert(tree_wf(self@));
        }
        match result {
            Ok(listing) => {
                let published = self.publish_directory(index, listing);
                match published {
                    Ok(()) => FileTreeAdmission::Directory,
                    Err(error) => {
                        self.fail_directory(index, None);
                        self.record_error(&error);
                        self.rebind_selected();
                        FileTreeAdmission::Failed
                    },
                }
            },
            Err(error) => {
                let message = bounded_message(&error);
                self.fail_directory(index, Some(message));
                self.record_error(&error);
                self.rebind_selected();
                FileTreeAdmission::Failed
            },
        }
    }

    fn fail_directory(&mut self, index: usize, message: Option<String>)
        requires
            old(self).wf(),
            old(self)@.pending is None,
            index < old(self)@.nodes.len(),
            old(self)@.nodes[index as int].load != DirectoryLoad::Ready,
        ensures
            final(self).wf(),
            final(self)@ == (TreeModel {
                nodes: old(self)@.nodes.update(
                    index as int,
                    NodeModel {
                        load: DirectoryLoad::Failed,
                        first_error: match message {
                            Some(t) => Some(t@),
                            None => old(self)@.nodes[index as int].first_error,
                        },
                        ..old(self)@.nodes[index as int]
                    },
                ),
                ..old(self)@
            }),
    {
        let ghost nodes = self@.nodes;
        assert(nodes[index as int] == node_model(self.nodes@[index as int]));
        self.nodes[index].load = DirectoryLoad::Failed;
        match message {
            Some(t) => {
                self.nodes[index].first_error = Some(t);
            },
            None => {},
        }
        proof {
            let now = self@.nodes;
            assert(now =~= nodes.update(
                index as int,
                NodeModel {
                    load: DirectoryLoad::Failed,
                    first_error: match message {
                        Some(t) => Some(t@),
                        None => nodes[index as int].first_error,
                    },
                    ..nodes[index as int]
                },
            ));
            assert(same_rows(nodes, now));
            lemma_same_rows_counts(nodes, now, Seq::empty());
            assert forall|a: int, b: int| 0 <= a < b < now.len() implies bytes_before(
                path_bytes((#[trigger] now[a]).path),
                path_bytes((#[trigger] now[b]).path),
            ) by {
                assert(now[a].path == nodes[a].path && now[b].path == nodes[b].path);
            }
            assert forall|a: int, b: int|
                0 <= a < now.len() && 0 <= b < now.len() && a != b implies (#[trigger] now[a]).generation
                != (#[trigger] now[b]).generation by {
                assert(now[a].generation == nodes[a].generation);
                assert(now[b].generation == nodes[b].generation);
            }
        }
    }

    fn insertion_point(&self, path: &str) -> (r: usize)
        requires
            nodes_sorted(self@.nodes),
            node_at(self@.nodes, path@) is None,
        ensures
            r == position_of(self@.nodes, path@),
            splits_at(self@.nodes, path@, r as int),
            r <= self@.nodes.len(),
    {
        let ghost nodes = self@.nodes;
        let ghost target = path_bytes(path@);
        let mut lo: usize = 0;
        let mut hi: usize = self.nodes.len();
        while lo < hi
            invariant
                nodes == self@.nodes,
                target == path_bytes(path@),
                nodes_sorted(nodes),
                node_at(nodes, path@) is None,
                lo <= hi <= nodes.len(),
                forall|i: int| 0 <= i < lo ==> bytes_before(path_bytes((#[trigger] nodes[i]).path), target),
                forall|i: int| hi <= i < nodes.len() ==> bytes_before(target, path_bytes((#[trigger] nodes[i]).path)),
            decreases hi - lo,
        {
            let mid = lo + (hi - lo) / 2;
            assert(nodes[mid as int].path == self.nodes@[mid as int].path@);
            match compare_paths(self.nodes[mid].path.as_str(), path) {
                PathOrder::Less => {
                    proof {
                        assert forall|i: int| 0 <= i < mid + 1 implies bytes_before(
                            path_bytes((#[trigger] nodes[i]).path),
                            target,
                        ) by {
                            if i < mid {
                                lemma_before_transitive(
                                    path_bytes(nodes[i].path),
                                    path_bytes(nodes[mid as int].path),
                                    target,
                                );
                            }
                        }
                    }
                    lo = mid + 1;
                },
                PathOrder::Greater => {
                    proof {
                        assert forall|i: int| mid <= i < nodes.len() implies bytes_before(
                            target,
                            path_bytes((#[trigger] nodes[i]).path),
                        ) by {
                            if i > mid {
                                lemma_before_transitive(
                                    target,
                                    path_bytes(nodes[mid as int].path),
                                    path_bytes(nodes[i].path),
                                );
                            }
                        }
                    }
                    hi = mid;
                },
                PathOrder::Equal => {
                    proof {
                        assert(node_paths(nodes)[mid as int] == path@);
                    }
                    hi = mid;
                },
            }
        }
        proof {
            let k = lo as int;
            assert(splits_at(nodes, path@, k));
            let c = choose|k: int| #[trigger] splits_at(nodes, path@, k);
            if c < k {
                lemma_before_asymmetric(path_bytes(nodes[c].path), path_bytes(path@));
            } else if c > k {
                lemma_before_asymmetric(path_bytes(nodes[k].path), path_bytes(path@));
            }
        }
        lo
    }

    fn remove_descendants(&mut self, path: &str)
        ensures
            final(self)@ == without_descendants(old(self)@, path@),
    {
        let mut prefix = String::new();
        let path_len = path.as_bytes().len();
        if path_len > 0 {
            prefix.append(path);
            prefix.append("/");
        }
        proof {
            reveal_strlit("/");
            if path_len == 0 {
                if path@.len() > 0 {
                    vstd::utf8::encode_utf8_decode_utf8(path@);
                }
                assert(prefix@ =~= Seq::<char>::empty());
            } else {
                assert(path@.len() > 0) by {
                    if path@.len() == 0 {
                        assert(path_bytes(path@) =~= Seq::<u8>::empty());
                    }
                }
            }
        }
        let ghost original = self@;
        let ghost nodes = self@.nodes;
        let n = self.nodes.len();
        let mut kept: Vec<DirectoryNode> = Vec::new();
        let mut removed_entries: usize = 0;
        let mut removed_bytes: usize = 0;
        let mut i: usize = 0;
        while i < n
            invariant
                n == nodes.len(),
                self.nodes@.len() == n,
                self@ == (TreeModel { nodes: self@.nodes, ..original }),
                prefix@ == (if path@.len() == 0 {
                    Seq::<char>::empty()
                } else {
                    path@ + "/"@
                }),
                i <= n,
                forall|j: int| i <= j < n ==> #[trigger] node_model(self.nodes@[j]) == nodes[j],
                ({
                    let (k, e, b) = outside_prefix(nodes, path@, i as int);
                    &&& kept@.map_values(|x: DirectoryNode| node_model(x)) == k
                    &&& removed_entries == e
                    &&& removed_bytes == b
                }),
            decreases n - i,
        {
            assert(node_model(self.nodes@[i as int]) == nodes[i as int]);
            let inside_path = has_prefix(self.nodes[i].path.as_str(), prefix.as_str()) && !str_eq(
                self.nodes[i].path.as_str(),
                path,
            );
            if inside_path {
                let count = self.nodes[i].entries.len();
                removed_entries = if removed_entries > usize::MAX - count {
                    usize::MAX
                } else {
                    removed_entries + count
                };
                let bytes = entries_path_bytes(&self.nodes[i].entries);
                removed_bytes = if removed_bytes > usize::MAX - bytes {
                    usize::MAX
                } else {
                    removed_bytes + bytes
                };
            } else {
                let mut taken = DirectoryNode::fresh(String::new(), 0);
                std::mem::swap(&mut taken, &mut self.nodes[i]);
                let ghost before = kept@.map_values(|x: DirectoryNode| node_model(x));
                kept.push(taken);
                proof {
                    assert(kept@.map_values(|x: DirectoryNode| node_model(x)) =~= before.push(nodes[i as int]));
                }
            }
            i += 1;
        }
        self.nodes = kept;
        self.retained_entries = if self.retained_entries < removed_entries {
            0
        } else {
            self.retained_entries - removed_entries
        };
        self.retained_path_bytes = if self.retained_path_bytes < removed_bytes {
            0
        } else {
            self.retained_path_bytes - removed_bytes
        };
    }

    fn toggle_directory(&mut self, path: String) -> (r: Result<(), FileTreeError>)
        requires
            old(self).wf(),
        ensures
            final(self).wf(),
            match toggle_error(old(self)@, path@) {
                Some(e) => r == Err::<(), FileTreeError>(e) && final(self)@ == old(self)@,
                None => match r {
                    Ok(()) => exists|mid: TreeModel|
                        same_shape(mid.nodes, toggled(old(self)@, path@).nodes) && mid == (TreeModel {
                            nodes: mid.nodes,
                            ..toggled(old(self)@, path@)
                        }) && rebound(mid, final(self)@),
                    Err(e) => e == FileTreeError::AllocationFailed && node_at(old(self)@.nodes, path@) is None
                        && final(self)@ == old(self)@,
                },
            },
    {
        let ghost m = self@;
        match self.node_index(path.as_str()) {
            Some(index) => {
                assert(m.nodes[index as int] == node_model(self.nodes@[index as int]));
                let expanded = self.nodes[index].expanded;
                self.nodes[index].expanded = !expanded;
                if expanded {
                    proof {
                        let t = TreeModel {
                            nodes: m.nodes.update(index as int, NodeModel { expanded: false, ..m.nodes[index as int] }),
                            ..m
                        };
                        assert(self@.nodes =~= t.nodes);
                        lemma_collapse_shape(m, index as int, path@);
                    }
                    self.remove_descendants(path.as_str());
                    proof {
                        lemma_node_at_unique(m.nodes, index as int);
                        assert(self@ == toggled(m, path@));
                    }
                } else {
                    if self.nodes[index].load == DirectoryLoad::Failed {
                        self.nodes[index].load = DirectoryLoad::Dormant;
                    }
                    proof {
                        let t = toggled(m, path@);
                        assert(self@.nodes =~= t.nodes);
                        assert(tree_shape_ok(t)) by {
                            assert forall|a: int, b: int| 0 <= a < b < t.nodes.len() implies bytes_before(
                                path_bytes((#[trigger] t.nodes[a]).path),
                                path_bytes((#[trigger] t.nodes[b]).path),
                            ) by {
                                assert(t.nodes[a].path == m.nodes[a].path && t.nodes[b].path == m.nodes[b].path);
                            }
                            assert forall|a: int, b: int|
                                0 <= a < t.nodes.len() && 0 <= b < t.nodes.len() && a != b implies (#[trigger] t.nodes[a]).generation
                                != (#[trigger] t.nodes[b]).generation by {
                                assert(t.nodes[a].generation == m.nodes[a].generation);
                                assert(t.nodes[b].generation == m.nodes[b].generation);
                            }
                        }
                    }
                }
            },
            None => {
                if self.nodes.len() == self.limits.cached_directories {
                    return Err(
                        FileTreeError::CacheLimitExceeded {
                            resource: "directory count",
                            limit: self.limits.cached_directories,
                        },
                    );
                }
                if self.directory_generation == u64::MAX {
                    return Err(FileTreeError::GenerationExhausted);
                }
                let insertion = self.insertion_point(path.as_str());
                if self.nodes.try_reserve(1).is_err() {
                    return Err(FileTreeError::AllocationFailed);
                }
                let generation = self.directory_generation + 1;
                self.directory_generation = generation;
                self.nodes.insert(insertion, DirectoryNode::fresh(path, generation));
                proof {
                    let t = toggled(m, path@);
                    assert(self@.nodes =~= t.nodes);
                    lemma_insert_shape(m, path@);
                }
            },
        }
        self.recompute_prefixes();
        proof {
            lemma_shape_after_recount(toggled(m, path@), self@);
        }
        self.rebind_selected();
        Ok(())
    }


    /// Moves the selection one visible row down or up, within the rows, and
    /// selects the first row when nothing was selected; whether the
    /// selection changed. Nothing happens when no row is visible.
    pub fn navigate(&mut self, forward: bool, visible_rows: usize) -> (r: bool)
        requires
            old(self).wf(),
        ensures
            final(self).wf(),
            ({
                let m = old(self)@;
                let count = sat(tree_rows(m).len() as int);
                if count == 0 {
                    !r && final(self)@ == m
                } else {
                    let current = match m.selected {
                        Some(s) => s as int,
                        None => 0,
                    };
                    let next = if forward {
                        if sat(current + 1) < count - 1 {
                            sat(current + 1)
                        } else {
                            count - 1
                        }
                    } else {
                        sat_sub(current, 1)
                    };
                    &&& final(self)@ == (TreeModel {
                        selected: Some(next as usize),
                        selected_path: final(self)@.selected_path,
                        ..m
                    })
                    &&& r == (m.selected != Some(next as usize))
                    &&& rows_countable(m) ==> final(self)@.selected_path == (if next < tree_rows(m).len() {
                        Some(tree_rows(m)[next].path)
                    } else {
                        None::<Seq<char>>
                    })
                }
            }),
    {
        let count = self.total_rows();
        if count == 0 {
            return false;
        }
        let previous = self.selected;
        let current = match previous {
            Some(s) => s,
            None => 0,
        };
        let next = if forward {
            let up = if current == usize::MAX {
                usize::MAX
            } else {
                current + 1
            };
            if up < count - 1 {
                up
            } else {
                count - 1
            }
        } else if current == 0 {
            0
        } else {
            current - 1
        };
        let path = self.visible_path_at(next);
        self.selected = Some(next);
        self.selected_path = path;
        match previous {
            Some(p) => p != next,
            None => true,
        }
    }

    /// The visible row at position `index`, exactly whenever the rows are
    /// countable; none past the rows or with a zero row ceiling. Only
    /// reserving the row can fail.
    pub fn row_at(&self, index: usize) -> (r: Result<Option<VisibleFileTreeRow>, FileTreeError>)
        requires
            self.wf(),
        ensures
            r matches Err(e) ==> e == FileTreeError::AllocationFailed,
            rows_countable(self@) ==> (r matches Ok(o) ==> match o {
                Some(row) => self@.limits.visible_rows > 0 && index < tree_rows(self@).len() && row@ == visible_row(
                    tree_rows(self@)[index as int],
                    index,
                    self@.selected,
                ),
                None => self@.limits.visible_rows == 0 || index >= tree_rows(self@).len(),
            }),
    {
        let mut rows = match self.visible_rows(index, 1, 0) {
            Ok(rows) => rows,
            Err(e) => return Err(e),
        };
        if rows.len() == 0 {
            return Ok(None);
        }
        proof {
            if rows_countable(self@) {
                assert(rows@[0]@ == visible_row(tree_rows(self@)[index + 0], (index + 0) as usize, self@.selected));
            }
        }
        Ok(Some(rows.remove(0)))
    }

    /// Activates the selected row: a file row asks to open its path, a
    /// directory row toggles.
    pub fn activate_selected(&mut self) -> (r: Result<FileTreeAction, FileTreeError>)
        requires
            old(self).wf(),
        ensures
            final(self).wf(),
            activation(old(self)@, r, final(self)@),
    {
        let index = match self.selected {
            Some(i) => i,
            None => return Err(FileTreeError::MissingSelection),
        };
        let row = match self.row_at(index) {
            Ok(Some(row)) => row,
            Ok(None) => return Err(FileTreeError::MissingSelection),
            Err(e) => return Err(e),
        };
        let kind = row.kind();
        let path = String::from_str(row.path());
        match kind {
            FileTreeEntryKind::File => Ok(FileTreeAction::Open(path)),
            FileTreeEntryKind::Directory => {
                match self.toggle_directory(path) {
                    Ok(()) => Ok(FileTreeAction::Changed),
                    Err(e) => Err(e),
                }
            },
        }
    }

    /// Selects visible row `index`, or the last row beyond them, and
    /// activates it.
    pub fn activate_row(&mut self, index: usize) -> (r: Result<FileTreeAction, FileTreeError>)
        requires
            old(self).wf(),
        ensures
            final(self).wf(),
            ({
                let m = old(self)@;
                let count = sat(tree_rows(m).len() as int);
                let target = if index < sat_sub(count, 1) {
                    index as int
                } else {
                    sat_sub(count, 1)
                };
                ||| r == Err::<FileTreeAction, FileTreeError>(FileTreeError::AllocationFailed) && final(self)@ == m
                ||| (rows_countable(m) ==> (m.limits.visible_rows == 0 || target >= tree_rows(m).len())) && r == Err::<
                    FileTreeAction,
                    FileTreeError,
                >(FileTreeError::MissingSelection) && final(self)@ == m
                ||| rows_countable(m) && m.limits.visible_rows > 0 && target < tree_rows(m).len() && activation(
                    TreeModel {
                        selected: Some(target as usize),
                        selected_path: Some(tree_rows(m)[target].path),
                        ..m
                    },
                    r,
                    final(self)@,
                )
                ||| !rows_countable(m)
            }),
    {
        let total = self.total_rows();
        let last = if total == 0 {
            0
        } else {
            total - 1
        };
        let target = if index < last {
            index
        } else {
            last
        };
        let row = match self.row_at(target) {
            Ok(Some(row)) => row,
            Ok(None) => return Err(FileTreeError::MissingSelection),
            Err(e) => return Err(e),
        };
        self.selected = Some(target);
        self.selected_path = Some(String::from_str(row.path()));
        self.activate_selected()
    }

    /// Selects the first visible row whose path is `path`; whether the
    /// selection changed. Nothing changes when no visible row has it.
    pub fn select_path(&mut self, path: &str) -> (r: Result<bool, FileTreeError>)
        requires
            old(self).wf(),
        ensures
            final(self).wf(),
            ({
                let m = old(self)@;
                ||| r == Err::<bool, FileTreeError>(FileTreeError::AllocationFailed) && final(self)@ == m
                ||| r == Ok::<bool, FileTreeError>(false) && final(self)@ == m && (rows_countable(m)
                    && m.limits.visible_rows > 0 ==> first_path_from(tree_rows(m), path@, 0) is None)
                ||| rows_countable(m) && m.limits.visible_rows > 0 && match first_path_from(tree_rows(m), path@, 0) {
                    Some(j) => r == Ok::<bool, FileTreeError>(m.selected != Some(j as usize)) && final(self)@ == (TreeModel {
                        selected: Some(j as usize),
                        selected_path: Some(path@),
                        ..m
                    }),
                    None => false,
                }
                ||| !rows_countable(m)
            }),
    {
        let total = self.total_rows();
        let ghost m = self@;
        let ghost rows = tree_rows(m);
        let mut index: usize = 0;
        while index < total
            invariant
                self@ == m,
                old(self)@ == m,
                tree_wf(m),
                rows == tree_rows(m),
                total == sat(rows.len() as int),
                index <= total,
                rows_countable(m) && m.limits.visible_rows > 0 ==> first_path_from(rows, path@, 0) == first_path_from(
                    rows,
                    path@,
                    index as int,
                ),
            decreases total - index,
        {
            let found = match self.row_at(index) {
                Ok(Some(row)) => {
                    let same = str_eq(row.path(), path);
                    proof {
                        if rows_countable(m) {
                            assert(row@.path == rows[index as int].path);
                            if same {
                                assert(first_path_from(rows, path@, index as int) == Some(index as int));
                            }
                        }
                    }
                    same
                },
                Ok(None) => {
                    proof {
                        if rows_countable(m) && m.limits.visible_rows > 0 {
                            assert(index >= rows.len());
                            assert(false);
                        }
                    }
                    false
                },
                Err(e) => {
                    return Err(e);
                },
            };
            proof {
                if rows_countable(m) && m.limits.visible_rows > 0 && !found {
                    assert(rows[index as int].path != path@);
                    assert(first_path_from(rows, path@, index as int) == first_path_from(rows, path@, index + 1));
                }
            }
            if found {
                let changed = match self.selected {
                    Some(s) => s != index,
                    None => true,
                };
                self.selected = Some(index);
                self.selected_path = Some(String::from_str(path));
                return Ok(changed);
            }
            index += 1;
        }
        Ok(false)
    }

    /// Restores a session for `workspace` on a fresh tree with these limits,
    /// visibility and generations, and takes it on success; on failure the
    /// tree is unchanged.
    pub fn restore_session(&mut self, workspace: u64, state: &SessionFileTree) -> (r: Result<(), FileTreeError>)
        requires
            old(self).wf(),
        ensures
            final(self).wf(),
            ({
                let base = restore_base(old(self)@);
                let o = restore_outcome(
                    base,
                    workspace,
                    stored_paths(state.expanded@),
                    opt_text(state.selected),
                );
                &&& restore_result(
                    o,
                    r,
                    base.tree_generation < u64::MAX && cleared(base, workspace).directory_generation < u64::MAX,
                )
                &&& r is Ok ==> o is Restored && final(self)@ == o->Restored_0
                &&& r is Err ==> final(self)@ == old(self)@
            }),
    {
        let mut base = Self::with_limits(self.limits);
        base.visible = self.visible;
        base.tree_generation = self.tree_generation;
        base.directory_generation = self.directory_generation;
        base.request_generation = self.request_generation;
        proof {
            assert(base@ == restore_base(self@));
        }
        match Self::restored(base, workspace, state) {
            Ok(tree) => {
                *self = tree;
                Ok(())
            },
            Err(e) => Err(e),
        }
    }

    fn restored(base: FileTreeState, workspace: u64, state: &SessionFileTree) -> (r: Result<FileTreeState, FileTreeError>)
        requires
            base.wf(),
            base@.nodes.len() == 0,
            base@.pending is None,
        ensures
            ({
                let o = restore_outcome(
                    base@,
                    workspace,
                    stored_paths(state.expanded@),
                    opt_text(state.selected),
                );
                let unit = match r {
                    Ok(_) => Ok::<(), FileTreeError>(()),
                    Err(e) => Err::<(), FileTreeError>(e),
                };
                &&& restore_result(
                    o,
                    unit,
                    base@.tree_generation < u64::MAX && cleared(base@, workspace).directory_generation < u64::MAX,
                )
                &&& r matches Ok(t) ==> t.wf() && o is Restored && t@ == o->Restored_0
            }),
    {
        let ghost b = base@;
        let mut tree = base;
        let ghost paths = stored_paths(state.expanded@);
        if let Err(e) = tree.reset_for_workspace(workspace) {
            return Err(e);
        }
        let ghost start = tree@;
        if state.expanded.len() >= tree.limits.cached_directories {
            return Err(
                FileTreeError::CacheLimitExceeded {
                    resource: "directory count",
                    limit: tree.limits.cached_directories,
                },
            );
        }
        if vec_try_reserve_exact(&mut tree.nodes, state.expanded.len()).is_err() {
            return Err(FileTreeError::AllocationFailed);
        }
        assert(tree@ == start);
        let mut i: usize = 0;
        while i < state.expanded.len()
            invariant
                tree.wf(),
                paths == stored_paths(state.expanded@),
                i <= paths.len(),
                restore_paths(start, paths, 0) == restore_paths(tree@, paths, i as int),
                b == base@,
                b.tree_generation < u64::MAX,
                cleared(b, workspace).directory_generation < u64::MAX,
                paths.len() < b.limits.cached_directories,
                start == with_root(cleared(b, workspace)),
                tree@.limits == b.limits,
                tree@.selected_path is None,
                tree@.selected is None,
                tree@.pending is None,
                forall|k: int| 0 <= k < tree@.nodes.len() ==> (#[trigger] tree@.nodes[k]).load == DirectoryLoad::Dormant
                    && tree@.nodes[k].prefix_rows.len() == 0,
            decreases paths.len() - i,
        {
            assert(state.expanded@[i as int]@ == paths[i as int]);
            let path = match restored_identity(state.expanded[i].as_str(), tree.limits) {
                Ok(p) => p,
                Err(e) => return Err(e),
            };
            if tree.node_index(path.as_str()).is_some() {
                return Err(FileTreeError::InvalidRelativePath(path));
            }
            if tree.directory_generation == u64::MAX {
                return Err(FileTreeError::GenerationExhausted);
            }
            let ghost m = tree@;
            let insertion = tree.insertion_point(path.as_str());
            let generation = tree.directory_generation + 1;
            tree.directory_generation = generation;
            tree.nodes.insert(insertion, DirectoryNode::fresh(path, generation));
            proof {
                let t = toggled(m, paths[i as int]);
                assert(tree@.nodes =~= t.nodes);
                lemma_insert_shape(m, paths[i as int]);
                assert forall|k: int| 0 <= k < t.nodes.len() implies (#[trigger] t.nodes[k]).load == DirectoryLoad::Dormant
                    && t.nodes[k].prefix_rows.len() == 0 by {
                    if k < insertion {
                    } else if k > insertion {
                        assert(t.nodes[k] == m.nodes[k - 1]);
                    }
                }
                lemma_bare_counts(t.nodes, Seq::empty());
                assert(tree@ == t);
            }
            i += 1;
        }
        let selected = match &state.selected {
            None => None,
            Some(p) => match restored_identity(p.as_str(), tree.limits) {
                Ok(q) => Some(q),
                Err(e) => return Err(e),
            },
        };
        tree.selected_path = selected;
        tree.selected = None;
        Ok(tree)
    }

    /// The session to store: the expanded directories below the root, in
    /// path order, and the selected path; nothing for a tree without a
    /// workspace. Only reserving room for a path can fail.
    pub fn session_state(&self) -> (r: Result<SessionFileTree, FileTreeError>)
        requires
            self.wf(),
        ensures
            match r {
                Ok(s) => if self@.workspace is None {
                    s.expanded@.len() == 0 && s.selected is None
                } else {
                    stored_paths(s.expanded@) == saved_directories(self@.nodes) && opt_text(s.selected)
                        == self@.selected_path
                },
                Err(e) => e == FileTreeError::AllocationFailed,
            },
    {
        if self.workspace.is_none() {
            return Ok(SessionFileTree { expanded: Vec::new(), selected: None });
        }
        let ghost nodes = self@.nodes;
        let mut expanded: Vec<String> = Vec::new();
        let mut i: usize = 0;
        while i < self.nodes.len()
            invariant
                nodes == self@.nodes,
                i <= nodes.len(),
                stored_paths(expanded@) == saved_directories(nodes.take(i as int)),
            decreases nodes.len() - i,
        {
            proof {
                assert(nodes.take(i + 1).drop_last() =~= nodes.take(i as int));
                assert(nodes[i as int] == node_model(self.nodes@[i as int]));
            }
            if self.nodes[i].expanded && self.nodes[i].path.as_str().as_bytes().len() > 0 {
                if expanded.try_reserve(1).is_err() {
                    return Err(FileTreeError::AllocationFailed);
                }
                expanded.push(String::from_str(self.nodes[i].path.as_str()));
            }
            i += 1;
        }
        proof {
            assert(nodes.take(nodes.len() as int) =~= nodes);
        }
        let selected = match &self.selected_path {
            Some(p) => Some(String::from_str(p.as_str())),
            None => None,
        };
        Ok(SessionFileTree { expanded, selected })
    }
}

impl Default for FileTreeState {
    fn default() -> (s: Self)
        ensures
            s.wf(),
            s@ == fresh_tree(FileTreeLimits::shipping()),
    {
        FileTreeState::with_limits(FileTreeLimits::default())
    }
}

} // verus!
