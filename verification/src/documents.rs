//! Bounded ownership of the editor's open documents.
use crate::text::{decimal, str_eq, usize_to_decimal, utf8_len};
use core::ops::Range;
use vstd::prelude::*;
use vstd::string::StringExecFns;
use vstd::utf8::encode_utf8;

verus! {

/// Tabs open at once by default.
pub const DEFAULT_TAB_CAPACITY: usize = 32;

/// Bytes of tab paths and labels retained by default.
pub const DEFAULT_PATH_BYTE_BUDGET: usize = 65536;

/// Navigation history entries kept by default.
pub const DEFAULT_HISTORY_CAPACITY: usize = 256;

/// The stable identity of a tab.
#[derive(Clone, Copy, Debug, Eq, PartialEq, Structural)]
pub struct DocumentTabId(pub u64);

/// The ceilings of a tab set.
#[derive(Clone, Copy, Debug, Eq, PartialEq, Structural)]
pub struct DocumentTabLimits {
    pub tab_capacity: usize,
    pub path_byte_budget: usize,
    pub history_capacity: usize,
}

impl DocumentTabLimits {
    /// Limits with the given ceilings.
    pub fn new(tab_capacity: usize, path_byte_budget: usize, history_capacity: usize) -> (l: Self)
        ensures
            l == (DocumentTabLimits { tab_capacity, path_byte_budget, history_capacity }),
    {
        DocumentTabLimits { tab_capacity, path_byte_budget, history_capacity }
    }
}

impl Default for DocumentTabLimits {
    fn default() -> (l: Self)
        ensures
            l == (DocumentTabLimits {
                tab_capacity: DEFAULT_TAB_CAPACITY,
                path_byte_budget: DEFAULT_PATH_BYTE_BUDGET,
                history_capacity: DEFAULT_HISTORY_CAPACITY,
            }),
    {
        DocumentTabLimits {
            tab_capacity: DEFAULT_TAB_CAPACITY,
            path_byte_budget: DEFAULT_PATH_BYTE_BUDGET,
            history_capacity: DEFAULT_HISTORY_CAPACITY,
        }
    }
}

/// Why a tab operation was refused.
#[derive(Clone, Debug, Eq, PartialEq)]
pub enum DocumentTabError {
    InvalidLimits,
    AllocationFailed,
    CapacityReached(usize),
    PathBudgetExceeded(usize),
    IdentityExhausted,
    MissingTab(usize),
    /// A path that another tab already holds, as text.
    DuplicatePath(String),
    LastTab,
    InvalidPayloadState,
}

/// The text of a tab error.
pub open spec fn tab_error_message(e: DocumentTabError) -> Seq<char> {
    match e {
        DocumentTabError::InvalidLimits => "document tab limits must be non-zero"@,
        DocumentTabError::AllocationFailed => "document tab allocation failed"@,
        DocumentTabError::CapacityReached(limit) => "document tab limit of "@ + decimal(limit as nat)
            + " was reached"@,
        DocumentTabError::PathBudgetExceeded(limit) => "document path budget of "@ + decimal(
            limit as nat,
        ) + " bytes was reached"@,
        DocumentTabError::IdentityExhausted => "document tab identity is exhausted"@,
        DocumentTabError::MissingTab(index) => "document tab "@ + decimal(index as nat)
            + " is unavailable"@,
        DocumentTabError::DuplicatePath(path) => "document path is already open: "@ + path@,
        DocumentTabError::LastTab => "the final document tab cannot be closed"@,
        DocumentTabError::InvalidPayloadState => "document tab payload ownership is inconsistent"@,
    }
}

fn framed(prefix: &str, n: usize, suffix: &str) -> (m: String)
    ensures
        m@ == prefix@ + decimal(n as nat) + suffix@,
{
    let mut m = String::from_str(prefix);
    m.append(usize_to_decimal(n).as_str());
    m.append(suffix);
    m
}

impl DocumentTabError {
    /// A human-readable description.
    pub fn message(&self) -> (m: String)
        ensures
            m@ == tab_error_message(*self),
    {
        match self {
            DocumentTabError::InvalidLimits => String::from_str("document tab limits must be non-zero"),
            DocumentTabError::AllocationFailed => String::from_str("document tab allocation failed"),
            DocumentTabError::CapacityReached(limit) => framed(
                "document tab limit of ",
                *limit,
                " was reached",
            ),
            DocumentTabError::PathBudgetExceeded(limit) => framed(
                "document path budget of ",
                *limit,
                " bytes was reached",
            ),
            DocumentTabError::IdentityExhausted => String::from_str("document tab identity is exhausted"),
            DocumentTabError::MissingTab(index) => framed("document tab ", *index, " is unavailable"),
            DocumentTabError::DuplicatePath(path) => {
                let mut m = String::from_str("document path is already open: ");
                m.append(path.as_str());
                m
            },
            DocumentTabError::LastTab => String::from_str("the final document tab cannot be closed"),
            DocumentTabError::InvalidPayloadState => String::from_str(
                "document tab payload ownership is inconsistent",
            ),
        }
    }
}


/// A path as a tab holds it: its text, and its final component when it has
/// one.
#[derive(Clone, Debug, Eq, PartialEq)]
pub struct TabPath {
    pub path: String,
    pub file_name: Option<String>,
}

/// A tab path, as values.
pub struct TabPathModel {
    pub path: Seq<char>,
    pub file_name: Option<Seq<char>>,
}

impl View for TabPath {
    type V = TabPathModel;

    open spec fn view(&self) -> TabPathModel {
        TabPathModel {
            path: self.path@,
            file_name: match self.file_name {
                Some(n) => Some(n@),
                None => None,
            },
        }
    }
}

/// The label a tab shows for `path`: its final component, or "Untitled".
pub open spec fn tab_label(path: Option<TabPathModel>) -> Seq<char> {
    match path {
        Some(p) => match p.file_name {
            Some(n) => n,
            None => "Untitled"@,
        },
        None => "Untitled"@,
    }
}

/// Bytes a tab retains for `path`: the path's and the label's; none for a
/// tab without a path.
pub open spec fn tab_path_bytes(path: Option<TabPathModel>) -> int {
    match path {
        Some(p) => (utf8_len(p.path) + utf8_len(tab_label(path))) as int,
        None => 0,
    }
}

/// The label and retained bytes of a tab for `path`, refused when the byte
/// count does not fit a `usize`.
pub open spec fn tab_metadata_spec(path: Option<TabPathModel>) -> Result<(Seq<char>, usize), DocumentTabError> {
    if tab_path_bytes(path) > usize::MAX {
        Err(DocumentTabError::AllocationFailed)
    } else {
        Ok((tab_label(path), tab_path_bytes(path) as usize))
    }
}

/// The label and retained bytes of a tab for `path`.
pub fn tab_metadata(path: Option<&TabPath>) -> (r: Result<(String, usize), DocumentTabError>)
    ensures
        match r {
            Ok((label, bytes)) => tab_metadata_spec(opt_path(path)) == Ok::<
                (Seq<char>, usize),
                DocumentTabError,
            >((label@, bytes)),
            Err(e) => tab_metadata_spec(opt_path(path)) == Err::<(Seq<char>, usize), DocumentTabError>(e),
        },
{
    match path {
        None => Ok((String::from_str("Untitled"), 0)),
        Some(p) => {
            let label = match &p.file_name {
                Some(n) => n.clone(),
                None => String::from_str("Untitled"),
            };
            let path_len = p.path.as_str().as_bytes().len();
            let label_len = label.as_str().as_bytes().len();
            if path_len > usize::MAX - label_len {
                return Err(DocumentTabError::AllocationFailed);
            }
            Ok((label, path_len + label_len))
        },
    }
}

/// The model of an optional tab path.
pub open spec fn opt_path(path: Option<&TabPath>) -> Option<TabPathModel> {
    match path {
        Some(p) => Some(p@),
        None => None,
    }
}

/// One tab, as values.
pub struct TabModel<T, S> {
    pub id: DocumentTabId,
    pub path: Option<Seq<char>>,
    pub label: Seq<char>,
    pub retained_path_bytes: usize,
    pub workspace_entry: Option<usize>,
    pub document: Option<T>,
    pub deferred: bool,
    pub view: S,
}

/// A tab set, as values: the tabs in order, the active one, the next
/// identity, the retained path bytes, the navigation history and its
/// cursor, the ceilings, and the view a new tab starts with.
#[verifier::ext_equal]
pub struct TabsModel<T, S> {
    pub tabs: Seq<TabModel<T, S>>,
    pub active: usize,
    pub next_id: u64,
    pub retained_path_bytes: usize,
    pub history: Seq<DocumentTabId>,
    pub history_cursor: usize,
    pub limits: DocumentTabLimits,
    pub blank_view: S,
}

/// Whether every ceiling is non-zero.
pub open spec fn limits_valid(l: DocumentTabLimits) -> bool {
    l.tab_capacity > 0 && l.path_byte_budget > 0 && l.history_capacity > 0
}

/// No two tabs share an identity.
pub open spec fn ids_unique<T, S>(tabs: Seq<TabModel<T, S>>) -> bool {
    forall|i: int, j: int|
        0 <= i < tabs.len() && 0 <= j < tabs.len() && i != j ==> (#[trigger] tabs[i]).id != (#[trigger] tabs[j]).id
}

/// No two tabs share a path.
pub open spec fn paths_unique<T, S>(tabs: Seq<TabModel<T, S>>) -> bool {
    forall|i: int, j: int|
        0 <= i < tabs.len() && 0 <= j < tabs.len() && i != j && (#[trigger] tabs[i]).path is Some
            ==> (#[trigger] tabs[j]).path != tabs[i].path
}

/// What every tab set keeps: valid ceilings, one to `tab_capacity` tabs
/// with distinct identities below the next one and distinct paths, an
/// active tab, retained bytes within budget, and a non-empty bounded
/// history whose cursor lies within it.
pub open spec fn tabs_wf<T, S>(m: TabsModel<T, S>) -> bool {
    &&& limits_valid(m.limits)
    &&& 1 <= m.tabs.len() <= m.limits.tab_capacity
    &&& m.active < m.tabs.len()
    &&& ids_unique(m.tabs)
    &&& forall|i: int| 0 <= i < m.tabs.len() ==> (#[trigger] m.tabs[i]).id.0 < m.next_id
    &&& paths_unique(m.tabs)
    &&& m.retained_path_bytes <= m.limits.path_byte_budget
    &&& 1 <= m.history.len() <= m.limits.history_capacity
    &&& m.history_cursor < m.history.len()
}

/// The tab whose identity is `id`.
pub open spec fn id_index<T, S>(tabs: Seq<TabModel<T, S>>, id: DocumentTabId) -> Option<usize> {
    if exists|i: usize| i < tabs.len() && (#[trigger] tabs[i as int]).id == id {
        Some(choose|i: usize| i < tabs.len() && (#[trigger] tabs[i as int]).id == id)
    } else {
        None
    }
}

/// The tab whose path is `path`.
pub open spec fn path_index<T, S>(tabs: Seq<TabModel<T, S>>, path: Seq<char>) -> Option<usize> {
    if exists|i: usize| i < tabs.len() && (#[trigger] tabs[i as int]).path == Some(path) {
        Some(choose|i: usize| i < tabs.len() && (#[trigger] tabs[i as int]).path == Some(path))
    } else {
        None
    }
}

/// The history after navigating to `id`: unchanged when the cursor already
/// rests on it; otherwise the entries after the cursor are dropped, the
/// oldest entry too when the history is full, and `id` is appended and
/// becomes the cursor.
pub open spec fn recorded(history: Seq<DocumentTabId>, cursor: usize, capacity: usize, id: DocumentTabId) -> (
    Seq<DocumentTabId>,
    usize,
) {
    if history[cursor as int] == id {
        (history, cursor)
    } else {
        let kept = history.take(cursor + 1);
        let kept = if kept.len() == capacity {
            kept.drop_first()
        } else {
            kept
        };
        (kept.push(id), kept.len() as usize)
    }
}

/// The nearest history entry before position `k` whose tab is open and not
/// active: its position and the tab's index.
pub open spec fn back_target_from<T, S>(m: TabsModel<T, S>, k: int) -> Option<(usize, usize)>
    decreases k,
{
    if k <= 0 {
        None
    } else {
        match id_index(m.tabs, m.history[k - 1]) {
            Some(i) => if i != m.active {
                Some(((k - 1) as usize, i))
            } else {
                back_target_from(m, k - 1)
            },
            None => back_target_from(m, k - 1),
        }
    }
}

/// The nearest history entry at or after position `k` whose tab is open and
/// not active: its position and the tab's index.
pub open spec fn forward_target_from<T, S>(m: TabsModel<T, S>, k: int) -> Option<(usize, usize)>
    decreases m.history.len() - k,
{
    if k < 0 || k >= m.history.len() {
        None
    } else {
        match id_index(m.tabs, m.history[k]) {
            Some(i) => if i != m.active {
                Some((k as usize, i))
            } else {
                forward_target_from(m, k + 1)
            },
            None => forward_target_from(m, k + 1),
        }
    }
}

/// Where navigating back goes.
pub open spec fn back_target<T, S>(m: TabsModel<T, S>) -> Option<(usize, usize)> {
    back_target_from(m, m.history_cursor as int)
}

/// Where navigating forward goes.
pub open spec fn forward_target<T, S>(m: TabsModel<T, S>) -> Option<(usize, usize)> {
    forward_target_from(m, m.history_cursor + 1)
}

/// Why switching to tab `index` is refused: the active tab must hold no
/// stored payload and not be deferred, and the target must exist, be
/// loaded and hold its payload.
pub open spec fn switch_error<T, S>(m: TabsModel<T, S>, index: usize) -> Option<DocumentTabError> {
    if m.tabs[m.active as int].document is Some || m.tabs[m.active as int].deferred {
        Some(DocumentTabError::InvalidPayloadState)
    } else if index >= m.tabs.len() {
        Some(DocumentTabError::MissingTab(index))
    } else if m.tabs[index as int].deferred || m.tabs[index as int].document is None {
        Some(DocumentTabError::InvalidPayloadState)
    } else {
        None
    }
}

/// A back target lies before `k` and names an open tab other than the
/// active one.
pub proof fn lemma_back_target_bounds<T, S>(m: TabsModel<T, S>, k: int)
    requires
        0 <= k <= m.history.len(),
    ensures
        back_target_from(m, k) matches Some((c, i)) ==> c < k && i < m.tabs.len() && i != m.active,
    decreases k,
{
    if k > 0 {
        lemma_back_target_bounds(m, k - 1);
    }
}

/// A back target from `k` skips only entries whose tab is closed or active.
proof fn lemma_back_target_skips<T, S>(m: TabsModel<T, S>, k: int)
    requires
        0 <= k <= m.history.len(),
        m.history.len() <= usize::MAX,
        back_target_from(m, k) is Some,
    ensures
        ({
            let (c, i) = back_target_from(m, k)->0;
            &&& c < k
            &&& id_index(m.tabs, m.history[c as int]) == Some(i)
            &&& i != m.active
            &&& forall|j: int| c < j < k ==> match id_index(m.tabs, #[trigger] m.history[j]) {
                Some(x) => x == m.active,
                None => true,
            }
        }),
    decreases k,
{
    if k > 0 {
        match id_index(m.tabs, m.history[k - 1]) {
            Some(i) => if i == m.active {
                assert(back_target_from(m, k) == back_target_from(m, k - 1));
                lemma_back_target_skips(m, k - 1);
            } else {
                assert(back_target_from(m, k) == Some(((k - 1) as usize, i)));
            },
            None => {
                assert(back_target_from(m, k) == back_target_from(m, k - 1));
                lemma_back_target_skips(m, k - 1);
            },
        }
    }
}

/// Tab lists with the same identities in the same places, no identity
/// twice, find every identity in the same place.
proof fn lemma_same_ids_index<T, S>(a: Seq<TabModel<T, S>>, b: Seq<TabModel<T, S>>, id: DocumentTabId)
    requires
        a.len() == b.len(),
        forall|x: int| 0 <= x < a.len() ==> (#[trigger] a[x]).id == b[x].id,
        ids_unique(a),
    ensures
        id_index(a, id) == id_index(b, id),
{
    if exists|i: usize| i < a.len() && (#[trigger] a[i as int]).id == id {
        let i = choose|i: usize| i < a.len() && (#[trigger] a[i as int]).id == id;
        assert(b[i as int].id == id);
        let j = choose|j: usize| j < b.len() && (#[trigger] b[j as int]).id == id;
        assert(a[j as int].id == id);
    } else {
        assert forall|j: usize| j < b.len() implies (#[trigger] b[j as int]).id != id by {
            assert(a[j as int].id == b[j as int].id);
        }
    }
}

/// Searching forward from `j`, over entries whose tab is closed or is tab
/// `left`, up to the entry at `k` that names `left`, meets `left`.
proof fn lemma_forward_meets<T, S>(m: TabsModel<T, S>, left: usize, j: int, k: int)
    requires
        0 <= j <= k < m.history.len(),
        m.history.len() <= usize::MAX,
        left != m.active,
        id_index(m.tabs, m.history[k]) == Some(left),
        forall|x: int| j <= x < k ==> match id_index(m.tabs, #[trigger] m.history[x]) {
            Some(y) => y == left,
            None => true,
        },
    ensures
        forward_target_from(m, j) matches Some((c, i)) && i == left && j <= c <= k,
    decreases k - j,
{
    if j < k {
        match id_index(m.tabs, m.history[j]) {
            Some(y) => {
                assert(y == left);
                assert(forward_target_from(m, j) == Some((j as usize, left)));
            },
            None => {
                lemma_forward_meets(m, left, j + 1, k);
                assert(forward_target_from(m, j) == forward_target_from(m, j + 1));
            },
        }
    } else {
        assert(forward_target_from(m, j) == Some((j as usize, left)));
    }
}

/// Going back and then forward returns to the tab that was left, when the
/// history's current entry names it: back moves to the nearest earlier
/// open tab, and forward from there meets the tab left before any other.
pub proof fn law_back_then_forward_returns<T, S>(m: TabsModel<T, S>, previous: T, active_view: S)
    requires
        tabs_wf(m),
        id_index(m.tabs, m.history[m.history_cursor as int]) == Some(m.active),
        back_target(m) is Some,
    ensures
        ({
            let (cursor, index) = back_target(m)->0;
            let after = TabsModel { history_cursor: cursor, ..switched(m, index, previous, active_view) };
            forward_target(after) matches Some((k, j)) && j == m.active && cursor < k <= m.history_cursor
        }),
{
    let k = m.history_cursor as int;
    lemma_back_target_skips(m, k);
    let (cursor, index) = back_target(m)->0;
    let after = TabsModel { history_cursor: cursor, ..switched(m, index, previous, active_view) };
    assert forall|x: int| 0 <= x < m.tabs.len() implies (#[trigger] m.tabs[x]).id == after.tabs[x].id by {}
    assert forall|x: int| cursor < x <= k implies id_index(after.tabs, #[trigger] m.history[x]) == id_index(
        m.tabs,
        m.history[x],
    ) by {
        lemma_same_ids_index(m.tabs, after.tabs, m.history[x]);
    }
    lemma_forward_meets(after, m.active, cursor + 1, k);
}

/// A forward target lies at or after `k` within the history and names an
/// open tab other than the active one.
pub proof fn lemma_forward_target_bounds<T, S>(m: TabsModel<T, S>, k: int)
    requires
        0 <= k,
        m.history.len() <= usize::MAX,
    ensures
        forward_target_from(m, k) matches Some((c, i)) ==> k <= c < m.history.len() && i < m.tabs.len() && i
            != m.active,
    decreases m.history.len() - k,
{
    if k < m.history.len() {
        lemma_forward_target_bounds(m, k + 1);
    }
}

/// The tab set after switching to tab `index` with `previous` as the active
/// payload and `active_view` as the active view: the old active tab stores
/// both, the target gives its payload up and becomes active.
pub open spec fn switched<T, S>(m: TabsModel<T, S>, index: usize, previous: T, active_view: S) -> TabsModel<T, S> {
    let old_active = m.tabs[m.active as int];
    let stored = TabModel { document: Some(previous), deferred: false, view: active_view, ..old_active };
    let target = TabModel { document: None, ..m.tabs[index as int] };
    TabsModel { tabs: m.tabs.update(m.active as int, stored).update(index as int, target), active: index, ..m }
}

/// A tab restored from a saved session: its path and its view.
pub struct RestoredDocumentTab<S> {
    pub path: Option<TabPath>,
    pub view: S,
}

/// The model of a restored tab's path.
pub open spec fn restored_path<S>(r: RestoredDocumentTab<S>) -> Option<TabPathModel> {
    match r.path {
        Some(p) => Some(p@),
        None => None,
    }
}

/// The path text of an optional tab path.
pub open spec fn path_text(p: Option<TabPathModel>) -> Option<Seq<char>> {
    match p {
        Some(p) => Some(p.path),
        None => None,
    }
}

/// The tabs built from the first `k` restored entries and the bytes they
/// retain, or why the entries are refused: a path met twice, a byte count
/// that overflows, or bytes beyond the budget. Entry `j` becomes tab `j`
/// with identity `j + 1`, deferred unless it is the active one.
pub open spec fn restore_prefix<T, S>(
    rs: Seq<RestoredDocumentTab<S>>,
    active: usize,
    limits: DocumentTabLimits,
    k: int,
) -> Result<(Seq<TabModel<T, S>>, usize), DocumentTabError>
    decreases k,
{
    if k <= 0 {
        Ok((Seq::empty(), 0))
    } else {
        match restore_prefix::<T, S>(rs, active, limits, k - 1) {
            Err(e) => Err(e),
            Ok((tabs, bytes)) => {
                let entry = rs[k - 1];
                let p = restored_path(entry);
                if p is Some && exists|j: int| 0 <= j < tabs.len() && (#[trigger] tabs[j]).path == path_text(p) {
                    Err(DocumentTabError::DuplicatePath(entry.path->0.path))
                } else {
                    match tab_metadata_spec(p) {
                        Err(e) => Err(e),
                        Ok((label, path_bytes)) => if bytes + path_bytes > limits.path_byte_budget {
                            Err(DocumentTabError::PathBudgetExceeded(limits.path_byte_budget))
                        } else {
                            Ok((
                                tabs.push(
                                    TabModel {
                                        id: DocumentTabId(k as u64),
                                        path: path_text(p),
                                        label,
                                        retained_path_bytes: path_bytes,
                                        workspace_entry: None,
                                        document: None,
                                        deferred: k - 1 != active,
                                        view: entry.view,
                                    },
                                ),
                                (bytes + path_bytes) as usize,
                            ))
                        },
                    }
                }
            },
        }
    }
}

/// Once a prefix of the restored entries is refused, every longer prefix is
/// refused for the same reason.
pub proof fn lemma_restore_error_persists<T, S>(
    rs: Seq<RestoredDocumentTab<S>>,
    active: usize,
    limits: DocumentTabLimits,
    i: int,
    k: int,
)
    requires
        0 <= i <= k,
        restore_prefix::<T, S>(rs, active, limits, i) is Err,
    ensures
        restore_prefix::<T, S>(rs, active, limits, k) == restore_prefix::<T, S>(rs, active, limits, i),
    decreases k - i,
{
    if k > i {
        lemma_restore_error_persists::<T, S>(rs, active, limits, i, k - 1);
    }
}

/// The tab set restored from `rs` with tab `active` active, or why not,
/// apart from allocation failures.
pub open spec fn restore_outcome<T, S>(
    rs: Seq<RestoredDocumentTab<S>>,
    active: usize,
    limits: DocumentTabLimits,
    blank_view: S,
) -> Result<TabsModel<T, S>, DocumentTabError> {
    if !limits_valid(limits) {
        Err(DocumentTabError::InvalidLimits)
    } else if rs.len() == 0 || rs.len() > limits.tab_capacity || active >= rs.len() {
        Err(DocumentTabError::InvalidPayloadState)
    } else {
        match restore_prefix::<T, S>(rs, active, limits, rs.len() as int) {
            Err(e) => Err(e),
            Ok((tabs, bytes)) => if rs.len() >= u64::MAX {
                Err(DocumentTabError::IdentityExhausted)
            } else {
                Ok(
                    TabsModel {
                        tabs,
                        active,
                        next_id: (rs.len() + 1) as u64,
                        retained_path_bytes: bytes,
                        history: seq![DocumentTabId((active + 1) as u64)],
                        history_cursor: 0,
                        limits,
                        blank_view,
                    },
                )
            },
        }
    }
}

/// A fresh tab set of one tab for `path`, or why not, apart from
/// allocation failures.
pub open spec fn new_outcome<T, S>(
    path: Option<TabPathModel>,
    workspace_entry: Option<usize>,
    limits: DocumentTabLimits,
    blank_view: S,
) -> Result<TabsModel<T, S>, DocumentTabError> {
    if !limits_valid(limits) {
        Err(DocumentTabError::InvalidLimits)
    } else {
        match tab_metadata_spec(path) {
            Err(e) => Err(e),
            Ok((label, bytes)) => if bytes > limits.path_byte_budget {
                Err(DocumentTabError::PathBudgetExceeded(limits.path_byte_budget))
            } else {
                Ok(
                    TabsModel {
                        tabs: seq![
                            TabModel {
                                id: DocumentTabId(1),
                                path: path_text(path),
                                label,
                                retained_path_bytes: bytes,
                                workspace_entry,
                                document: None,
                                deferred: false,
                                view: blank_view,
                            },
                        ],
                        active: 0,
                        next_id: 2,
                        retained_path_bytes: bytes,
                        history: seq![DocumentTabId(1)],
                        history_cursor: 0,
                        limits,
                        blank_view,
                    },
                )
            },
        }
    }
}

/// Why opening a path that no tab holds is refused: a full tab set, an
/// active tab that already stores a payload, exhausted identities, a byte
/// count that does not fit, or bytes beyond the budget.
pub open spec fn insert_error<T, S>(m: TabsModel<T, S>, path: TabPathModel) -> Option<DocumentTabError> {
    if m.tabs.len() >= m.limits.tab_capacity {
        Some(DocumentTabError::CapacityReached(m.limits.tab_capacity))
    } else if m.tabs[m.active as int].document is Some {
        Some(DocumentTabError::InvalidPayloadState)
    } else if m.next_id == u64::MAX {
        Some(DocumentTabError::IdentityExhausted)
    } else {
        match tab_metadata_spec(Some(path)) {
            Err(e) => Some(e),
            Ok((_, bytes)) => if m.retained_path_bytes + bytes > m.limits.path_byte_budget {
                Some(DocumentTabError::PathBudgetExceeded(m.limits.path_byte_budget))
            } else {
                None
            },
        }
    }
}

/// The tab set after opening `path` in a new tab: the active tab stores
/// `previous` and `active_view`, the new tab takes the next identity and
/// the blank view, becomes active and enters the history.
pub open spec fn inserted<T, S>(
    m: TabsModel<T, S>,
    path: TabPathModel,
    workspace_entry: Option<usize>,
    previous: T,
    active_view: S,
) -> TabsModel<T, S> {
    let (label, bytes) = tab_metadata_spec(Some(path))->Ok_0;
    let stored = TabModel { document: Some(previous), deferred: false, view: active_view, ..m.tabs[m.active as int] };
    let tab = TabModel {
        id: DocumentTabId(m.next_id),
        path: Some(path.path),
        label,
        retained_path_bytes: bytes,
        workspace_entry,
        document: None,
        deferred: false,
        view: m.blank_view,
    };
    let (history, cursor) = recorded(m.history, m.history_cursor, m.limits.history_capacity, DocumentTabId(m.next_id));
    TabsModel {
        tabs: m.tabs.update(m.active as int, stored).push(tab),
        active: m.tabs.len() as usize,
        next_id: (m.next_id + 1) as u64,
        retained_path_bytes: (m.retained_path_bytes + bytes) as usize,
        history,
        history_cursor: cursor,
        ..m
    }
}

/// The tab that closing the active one activates: the next, or the
/// previous for the last tab.
pub open spec fn close_target_spec<T, S>(m: TabsModel<T, S>) -> usize {
    if m.active + 1 < m.tabs.len() {
        (m.active + 1) as usize
    } else {
        (m.active - 1) as usize
    }
}

/// The tab set after closing the active tab: the target gives its payload
/// up and becomes active, the closed tab and its bytes leave, and the
/// target is recorded in the history.
pub open spec fn closed<T, S>(m: TabsModel<T, S>) -> TabsModel<T, S> {
    let c = m.active as int;
    let t = close_target_spec(m) as int;
    let (history, cursor) = recorded(m.history, m.history_cursor, m.limits.history_capacity, m.tabs[t].id);
    TabsModel {
        tabs: m.tabs.update(t, TabModel { document: None, ..m.tabs[t] }).remove(c),
        active: (if t > c {
            t - 1
        } else {
            t
        }) as usize,
        retained_path_bytes: if m.retained_path_bytes < m.tabs[c].retained_path_bytes {
            0
        } else {
            (m.retained_path_bytes - m.tabs[c].retained_path_bytes) as usize
        },
        history,
        history_cursor: cursor,
        ..m
    }
}

/// The payloads the inactive tabs hold, in tab order.
pub open spec fn stored_documents<T, S>(tabs: Seq<TabModel<T, S>>) -> Seq<T>
    decreases tabs.len(),
{
    if tabs.len() == 0 {
        Seq::empty()
    } else {
        let earlier = stored_documents(tabs.drop_last());
        match tabs.last().document {
            Some(d) => earlier.push(d),
            None => earlier,
        }
    }
}

/// `a - b`, or zero below it.
pub open spec fn sat_sub(a: int, b: int) -> int {
    if a < b {
        0
    } else {
        a - b
    }
}

/// `a + b`, or `usize::MAX` above it.
pub open spec fn sat_add(a: int, b: int) -> int {
    if a + b > usize::MAX {
        usize::MAX as int
    } else {
        a + b
    }
}

/// The smaller of `a` and `b`.
pub open spec fn min_int(a: int, b: int) -> int {
    if a < b {
        a
    } else {
        b
    }
}

struct DocumentTab<T, S> {
    id: DocumentTabId,
    path: Option<String>,
    label: String,
    retained_path_bytes: usize,
    workspace_entry: Option<usize>,
    document: Option<T>,
    deferred: bool,
    view: S,
}

spec fn tab_model<T, S>(t: DocumentTab<T, S>) -> TabModel<T, S> {
    TabModel {
        id: t.id,
        path: match t.path {
            Some(p) => Some(p@),
            None => None,
        },
        label: t.label@,
        retained_path_bytes: t.retained_path_bytes,
        workspace_entry: t.workspace_entry,
        document: t.document,
        deferred: t.deferred,
        view: t.view,
    }
}

/// The open documents: one active tab whose payload the caller holds, and
/// inactive tabs that store theirs, with a bounded navigation history.
pub struct DocumentTabs<T, S> {
    tabs: Vec<DocumentTab<T, S>>,
    active: usize,
    next_id: u64,
    retained_path_bytes: usize,
    history: Vec<DocumentTabId>,
    history_cursor: usize,
    limits: DocumentTabLimits,
    blank_view: S,
}

impl<T, S> View for DocumentTabs<T, S> {
    type V = TabsModel<T, S>;

    closed spec fn view(&self) -> TabsModel<T, S> {
        TabsModel {
            tabs: self.tabs@.map_values(|t: DocumentTab<T, S>| tab_model(t)),
            active: self.active,
            next_id: self.next_id,
            retained_path_bytes: self.retained_path_bytes,
            history: self.history@,
            history_cursor: self.history_cursor,
            limits: self.limits,
            blank_view: self.blank_view,
        }
    }
}

/// The model of a tab set result.
pub open spec fn tabs_result<T, S>(r: Result<DocumentTabs<T, S>, DocumentTabError>) -> Result<TabsModel<T, S>, DocumentTabError> {
    match r {
        Ok(t) => Ok(t@),
        Err(e) => Err(e),
    }
}

/// `r` is `outcome`, or an allocation failure where `outcome` succeeds.
pub open spec fn outcome_or_allocation<A>(outcome: Result<A, DocumentTabError>, r: Result<A, DocumentTabError>) -> bool {
    r == outcome || (outcome is Ok && r == Err::<A, DocumentTabError>(DocumentTabError::AllocationFailed))
}

impl<T, S: Copy> DocumentTabs<T, S> {
    /// Whether the tab set keeps its invariant.
    pub open spec fn wf(&self) -> bool {
        tabs_wf(self@)
    }

    /// A tab set of one tab for `path`, starting with `blank_view`.
    pub fn new(path: Option<&TabPath>, workspace_entry: Option<usize>, limits: DocumentTabLimits, blank_view: S) -> (r:
        Result<Self, DocumentTabError>)
        ensures
            outcome_or_allocation(new_outcome::<T, S>(opt_path(path), workspace_entry, limits, blank_view), tabs_result(r)),
            r matches Ok(t) ==> t.wf(),
    {
        if limits.tab_capacity == 0 || limits.path_byte_budget == 0 || limits.history_capacity == 0 {
            return Err(DocumentTabError::InvalidLimits);
        }
        let (label, retained_path_bytes) = tab_metadata(path)?;
        if retained_path_bytes > limits.path_byte_budget {
            return Err(DocumentTabError::PathBudgetExceeded(limits.path_byte_budget));
        }
        let mut tabs: Vec<DocumentTab<T, S>> = Vec::new();
        if tabs.try_reserve(1).is_err() {
            return Err(DocumentTabError::AllocationFailed);
        }
        let tab_path = match path {
            Some(p) => Some(p.path.clone()),
            None => None,
        };
        tabs.push(
            DocumentTab {
                id: DocumentTabId(1),
                path: tab_path,
                label,
                retained_path_bytes,
                workspace_entry,
                document: None,
                deferred: false,
                view: blank_view,
            },
        );
        let mut history: Vec<DocumentTabId> = Vec::new();
        if crate::std_calls::vec_try_reserve_exact(&mut history, limits.history_capacity).is_err() {
            return Err(DocumentTabError::AllocationFailed);
        }
        history.push(DocumentTabId(1));
        let t = DocumentTabs {
            tabs,
            active: 0,
            next_id: 2,
            retained_path_bytes,
            history,
            history_cursor: 0,
            limits,
            blank_view,
        };
        assert(t@.tabs =~= new_outcome::<T, S>(opt_path(path), workspace_entry, limits, blank_view)->Ok_0.tabs);
        assert(t@.history =~= seq![DocumentTabId(1)]);
        Ok(t)
    }

    /// Number of tabs.
    pub fn len(&self) -> (n: usize)
        ensures
            n == self@.tabs.len(),
    {
        self.tabs.len()
    }

    /// Index of the active tab.
    pub fn active_index(&self) -> (n: usize)
        ensures
            n == self@.active,
    {
        self.active
    }

    /// Identity of the active tab.
    pub fn active_id(&self) -> (r: Result<DocumentTabId, DocumentTabError>)
        requires
            self.wf(),
        ensures
            r == Ok::<DocumentTabId, DocumentTabError>(self@.tabs[self@.active as int].id),
    {
        if self.active < self.tabs.len() {
            Ok(self.tabs[self.active].id)
        } else {
            Err(DocumentTabError::InvalidPayloadState)
        }
    }

    /// Index of the tab whose identity is `id`.
    pub fn index_for_id(&self, id: DocumentTabId) -> (r: Option<usize>)
        requires
            self.wf(),
        ensures
            r == id_index(self@.tabs, id),
    {
        let mut i: usize = 0;
        while i < self.tabs.len()
            invariant
                self.wf(),
                i <= self@.tabs.len(),
                forall|j: int| 0 <= j < i ==> (#[trigger] self@.tabs[j]).id != id,
            decreases self@.tabs.len() - i,
        {
            if self.tabs[i].id == id {
                proof {
                    let c = choose|c: usize| c < self@.tabs.len() && (#[trigger] self@.tabs[c as int]).id == id;
                    assert(self@.tabs[i as int].id == id);
                    if c != i {
                        assert(self@.tabs[c as int].id != self@.tabs[i as int].id);
                    }
                }
                return Some(i);
            }
            i += 1;
        }
        proof {
            assert forall|c: usize| c < self@.tabs.len() implies (#[trigger] self@.tabs[c as int]).id != id by {
                assert(self@.tabs[c as int].id != id);
            }
        }
        None
    }
    /// The payload of the tab whose identity is `id`: the caller's for the
    /// active tab, the stored one for another.
    pub fn document_for_id<'a>(&'a self, id: DocumentTabId, active_document: &'a T) -> (r: Result<
        &'a T,
        DocumentTabError,
    >)
        requires
            self.wf(),
        ensures
            match id_index(self@.tabs, id) {
                None => r == Err::<&T, DocumentTabError>(DocumentTabError::InvalidPayloadState),
                Some(i) => if i == self@.active {
                    r == Ok::<&T, DocumentTabError>(active_document)
                } else {
                    match self@.tabs[i as int].document {
                        Some(d) => r == Ok::<&T, DocumentTabError>(&d),
                        None => r == Err::<&T, DocumentTabError>(DocumentTabError::InvalidPayloadState),
                    }
                },
            },
    {
        let index = match self.index_for_id(id) {
            Some(i) => i,
            None => return Err(DocumentTabError::InvalidPayloadState),
        };
        if index == self.active {
            return Ok(active_document);
        }
        match self.tabs[index].document.as_ref() {
            Some(d) => Ok(d),
            None => Err(DocumentTabError::InvalidPayloadState),
        }
    }

    /// Identity of tab `index`.
    pub fn id_at(&self, index: usize) -> (r: Option<DocumentTabId>)
        ensures
            r == (if index < self@.tabs.len() {
                Some(self@.tabs[index as int].id)
            } else {
                None
            }),
    {
        if index < self.tabs.len() {
            Some(self.tabs[index].id)
        } else {
            None
        }
    }

    /// Path of tab `index`.
    pub fn path_at(&self, index: usize) -> (r: Option<&str>)
        ensures
            match r {
                Some(p) => index < self@.tabs.len() && self@.tabs[index as int].path == Some(p@),
                None => index >= self@.tabs.len() || self@.tabs[index as int].path is None,
            },
    {
        if index < self.tabs.len() {
            match &self.tabs[index].path {
                Some(p) => Some(p.as_str()),
                None => None,
            }
        } else {
            None
        }
    }

    /// Whether tab `index` waits for its payload.
    pub fn is_deferred(&self, index: usize) -> (r: Result<bool, DocumentTabError>)
        ensures
            r == (if index < self@.tabs.len() {
                Ok::<bool, DocumentTabError>(self@.tabs[index as int].deferred)
            } else {
                Err::<bool, DocumentTabError>(DocumentTabError::MissingTab(index))
            }),
    {
        if index < self.tabs.len() {
            Ok(self.tabs[index].deferred)
        } else {
            Err(DocumentTabError::MissingTab(index))
        }
    }

    /// Gives deferred tab `index` its payload.
    pub fn materialize(&mut self, index: usize, document: T) -> (r: Result<(), DocumentTabError>)
        requires
            old(self).wf(),
        ensures
            final(self).wf(),
            index == old(self)@.active ==> r == Err::<(), DocumentTabError>(DocumentTabError::InvalidPayloadState),
            index != old(self)@.active && index >= old(self)@.tabs.len() ==> r == Err::<(), DocumentTabError>(
                DocumentTabError::MissingTab(index),
            ),
            index != old(self)@.active && index < old(self)@.tabs.len() && (!old(self)@.tabs[index as int].deferred
                || old(self)@.tabs[index as int].document is Some) ==> r == Err::<(), DocumentTabError>(
                DocumentTabError::InvalidPayloadState,
            ),
            r is Err ==> final(self)@ == old(self)@,
            r is Ok ==> index != old(self)@.active && index < old(self)@.tabs.len() && old(
                self,
            )@.tabs[index as int].deferred && old(self)@.tabs[index as int].document is None && final(self)@ == (
            TabsModel {
                tabs: old(self)@.tabs.update(
                    index as int,
                    TabModel { document: Some(document), deferred: false, ..old(self)@.tabs[index as int] },
                ),
                ..old(self)@
            }),
    {
        if index == self.active {
            return Err(DocumentTabError::InvalidPayloadState);
        }
        if index >= self.tabs.len() {
            return Err(DocumentTabError::MissingTab(index));
        }
        if !self.tabs[index].deferred || self.tabs[index].document.is_some() {
            return Err(DocumentTabError::InvalidPayloadState);
        }
        let ghost before = self@;
        self.tabs[index].document = Some(document);
        self.tabs[index].deferred = false;
        proof {
            assert(self@.tabs =~= before.tabs.update(
                index as int,
                TabModel { document: Some(document), deferred: false, ..before.tabs[index as int] },
            ));
        }
        Ok(())
    }

    /// The tab that navigating would activate.
    pub fn navigation_target(&self, forward: bool) -> (r: Option<usize>)
        requires
            self.wf(),
        ensures
            r == (match (if forward {
                forward_target(self@)
            } else {
                back_target(self@)
            }) {
                Some(t) => Some(t.1),
                None => None,
            }),
    {
        let found = if forward {
            self.forward_search()
        } else {
            self.back_search()
        };
        match found {
            Some((_, index)) => Some(index),
            None => None,
        }
    }

    fn back_search(&self) -> (r: Option<(usize, usize)>)
        requires
            self.wf(),
        ensures
            r == back_target(self@),
    {
        let mut cursor = self.history_cursor;
        while cursor > 0
            invariant
                self.wf(),
                cursor <= self@.history_cursor,
                back_target(self@) == back_target_from(self@, cursor as int),
            decreases cursor,
        {
            let previous = cursor - 1;
            let id = self.history[previous];
            match self.index_for_id(id) {
                Some(index) => {
                    if index != self.active {
                        return Some((previous, index));
                    }
                },
                None => {},
            }
            cursor = previous;
        }
        None
    }

    fn forward_search(&self) -> (r: Option<(usize, usize)>)
        requires
            self.wf(),
        ensures
            r == forward_target(self@),
    {
        let mut cursor = self.history_cursor + 1;
        while cursor < self.history.len()
            invariant
                self.wf(),
                self@.history_cursor < cursor,
                forward_target(self@) == forward_target_from(self@, cursor as int),
            decreases self@.history.len() - cursor,
        {
            let id = self.history[cursor];
            match self.index_for_id(id) {
                Some(index) => {
                    if index != self.active {
                        return Some((cursor, index));
                    }
                },
                None => {},
            }
            cursor = cursor + 1;
        }
        None
    }

    /// The tab that closing the active one would activate.
    pub fn close_target(&self) -> (r: Result<usize, DocumentTabError>)
        requires
            self.wf(),
        ensures
            r == (if self@.tabs.len() == 1 {
                Err::<usize, DocumentTabError>(DocumentTabError::LastTab)
            } else {
                Ok::<usize, DocumentTabError>(close_target_spec(self@))
            }),
    {
        if self.tabs.len() == 1 {
            return Err(DocumentTabError::LastTab);
        }
        Ok(
            if self.active + 1 < self.tabs.len() {
                self.active + 1
            } else {
                self.active - 1
            },
        )
    }

    /// The view of tab `index`: the caller's for the active tab.
    pub fn view_at(&self, index: usize, active_view: S) -> (r: Result<S, DocumentTabError>)
        ensures
            r == (if index >= self@.tabs.len() {
                Err::<S, DocumentTabError>(DocumentTabError::InvalidPayloadState)
            } else if index == self@.active {
                Ok::<S, DocumentTabError>(active_view)
            } else {
                Ok::<S, DocumentTabError>(self@.tabs[index as int].view)
            }),
    {
        if index >= self.tabs.len() {
            return Err(DocumentTabError::InvalidPayloadState);
        }
        Ok(
            if index == self.active {
                active_view
            } else {
                self.tabs[index].view
            },
        )
    }

    /// The payload of tab `index`: the caller's for the active tab.
    pub fn document_at<'a>(&'a self, index: usize, active_document: &'a T) -> (r: Result<&'a T, DocumentTabError>)
        requires
            self.wf(),
        ensures
            if index >= self@.tabs.len() {
                r == Err::<&T, DocumentTabError>(DocumentTabError::InvalidPayloadState)
            } else if index == self@.active {
                r == Ok::<&T, DocumentTabError>(active_document)
            } else {
                match self@.tabs[index as int].document {
                    Some(d) => r == Ok::<&T, DocumentTabError>(&d),
                    None => r == Err::<&T, DocumentTabError>(DocumentTabError::InvalidPayloadState),
                }
            },
    {
        let id = match self.id_at(index) {
            Some(id) => id,
            None => return Err(DocumentTabError::InvalidPayloadState),
        };
        proof {
            let c = choose|c: usize| c < self@.tabs.len() && (#[trigger] self@.tabs[c as int]).id == id;
            assert(self@.tabs[index as int].id == id);
            if c != index {
                assert(self@.tabs[c as int].id != self@.tabs[index as int].id);
            }
        }
        self.document_for_id(id, active_document)
    }

    /// The workspace entry of the active tab.
    pub fn active_workspace_entry(&self) -> (r: Option<usize>)
        requires
            self.wf(),
        ensures
            r == self@.tabs[self@.active as int].workspace_entry,
    {
        self.tabs[self.active].workspace_entry
    }

    /// The label of tab `index`.
    pub fn label(&self, index: usize) -> (r: Option<String>)
        ensures
            match r {
                Some(l) => index < self@.tabs.len() && l@ == self@.tabs[index as int].label,
                None => index >= self@.tabs.len(),
            },
    {
        if index < self.tabs.len() {
            Some(self.tabs[index].label.clone())
        } else {
            None
        }
    }

    /// Index of the tab whose path is `path`.
    pub fn index_for_path(&self, path: &str) -> (r: Option<usize>)
        requires
            self.wf(),
        ensures
            r == path_index(self@.tabs, path@),
    {
        let mut i: usize = 0;
        while i < self.tabs.len()
            invariant
                self.wf(),
                i <= self@.tabs.len(),
                forall|j: int| 0 <= j < i ==> (#[trigger] self@.tabs[j]).path != Some(path@),
            decreases self@.tabs.len() - i,
        {
            let same = match &self.tabs[i].path {
                Some(p) => str_eq(p.as_str(), path),
                None => false,
            };
            if same {
                proof {
                    let c = choose|c: usize| c < self@.tabs.len() && (#[trigger] self@.tabs[c as int]).path == Some(
                        path@,
                    );
                    assert(self@.tabs[i as int].path == Some(path@));
                    if c != i {
                        assert(self@.tabs[c as int].path != self@.tabs[i as int].path);
                    }
                }
                return Some(i);
            }
            i += 1;
        }
        proof {
            assert forall|c: usize| c < self@.tabs.len() implies (#[trigger] self@.tabs[c as int]).path != Some(
                path@,
            ) by {
                assert(self@.tabs[c as int].path != Some(path@));
            }
        }
        None
    }

    /// The stored payload of the tab whose path is `path`.
    pub fn inactive_document_for_path(&self, path: &str) -> (r: Option<&T>)
        requires
            self.wf(),
        ensures
            match path_index(self@.tabs, path@) {
                None => r is None,
                Some(i) => match self@.tabs[i as int].document {
                    Some(d) => r == Some(&d),
                    None => r is None,
                },
            },
    {
        match self.index_for_path(path) {
            Some(i) => self.tabs[i].document.as_ref(),
            None => None,
        }
    }

    /// The payloads the inactive tabs store, in tab order.
    pub fn inactive_documents(&self) -> (r: Vec<&T>)
        ensures
            r@.map_values(|d: &T| *d) == stored_documents(self@.tabs),
    {
        let mut r: Vec<&T> = Vec::new();
        let mut i: usize = 0;
        while i < self.tabs.len()
            invariant
                i <= self@.tabs.len(),
                r@.map_values(|d: &T| *d) == stored_documents(self@.tabs.take(i as int)),
            decreases self@.tabs.len() - i,
        {
            proof {
                assert(self@.tabs.take(i + 1).drop_last() =~= self@.tabs.take(i as int));
            }
            match self.tabs[i].document.as_ref() {
                Some(d) => {
                    r.push(d);
                },
                None => {},
            }
            assert(r@.map_values(|d: &T| *d) =~= stored_documents(self@.tabs.take(i + 1)));
            i += 1;
        }
        assert(self@.tabs.take(self@.tabs.len() as int) =~= self@.tabs);
        r
    }

    /// Whether navigating back would activate a tab.
    pub fn can_navigate_back(&self) -> (r: bool)
        requires
            self.wf(),
        ensures
            r == back_target(self@) is Some,
    {
        self.back_search().is_some()
    }

    /// Whether navigating forward would activate a tab.
    pub fn can_navigate_forward(&self) -> (r: bool)
        requires
            self.wf(),
        ensures
            r == forward_target(self@) is Some,
    {
        self.forward_search().is_some()
    }

    /// The tabs to show for a strip whose first visible tab is
    /// `first_visible`, with `visible_tabs` shown and `overscan` more on
    /// each side, within the tabs.
    pub fn visible_range(&self, first_visible: usize, visible_tabs: usize, overscan: usize) -> (r: Range<usize>)
        ensures
            ({
                let n = self@.tabs.len() as int;
                let start = min_int(sat_sub(first_visible as int, overscan as int), n);
                let end = min_int(sat_add(sat_add(first_visible as int, visible_tabs as int), overscan as int), n);
                r.start == start && r.end == (if end < start {
                    start
                } else {
                    end
                })
            }),
    {
        let n = self.tabs.len();
        let lower = if first_visible < overscan {
            0
        } else {
            first_visible - overscan
        };
        let start = if lower < n {
            lower
        } else {
            n
        };
        let shown = if first_visible > usize::MAX - visible_tabs {
            usize::MAX
        } else {
            first_visible + visible_tabs
        };
        let upper = if shown > usize::MAX - overscan {
            usize::MAX
        } else {
            shown + overscan
        };
        let end = if upper < n {
            upper
        } else {
            n
        };
        start..(if end < start {
            start
        } else {
            end
        })
    }

    /// Bytes the tabs retain for paths and labels.
    pub fn retained_path_bytes(&self) -> (n: usize)
        ensures
            n == self@.retained_path_bytes,
    {
        self.retained_path_bytes
    }

    /// Number of navigation history entries.
    pub fn history_len(&self) -> (n: usize)
        ensures
            n == self@.history.len(),
    {
        self.history.len()
    }

    fn record_navigation(&mut self, id: DocumentTabId)
        requires
            old(self).wf(),
        ensures
            final(self).wf(),
            (final(self)@.history, final(self)@.history_cursor) == recorded(
                old(self)@.history,
                old(self)@.history_cursor,
                old(self)@.limits.history_capacity,
                id,
            ),
            final(self)@ == (TabsModel {
                history: final(self)@.history,
                history_cursor: final(self)@.history_cursor,
                ..old(self)@
            }),
    {
        if self.history[self.history_cursor] == id {
            return;
        }
        self.history.truncate(self.history_cursor + 1);
        if self.history.len() == self.limits.history_capacity {
            self.history.remove(0);
            self.history_cursor = if self.history_cursor > 0 {
                self.history_cursor - 1
            } else {
                0
            };
        }
        self.history.push(id);
        self.history_cursor = self.history.len() - 1;
    }

    fn switch_to(&mut self, index: usize, active_document: &mut T, active_view: S) -> (r: Result<S, DocumentTabError>)
        requires
            old(self).wf(),
        ensures
            final(self).wf(),
            match r {
                Err(e) => switch_error(old(self)@, index) == Some(e) && final(self)@ == old(self)@
                    && *final(active_document) == *old(active_document),
                Ok(view) => switch_error(old(self)@, index) is None && view == old(self)@.tabs[index as int].view
                    && *final(active_document) == old(self)@.tabs[index as int].document->0 && final(self)@
                    == switched(old(self)@, index, *old(active_document), active_view),
            },
    {
        if self.tabs[self.active].document.is_some() || self.tabs[self.active].deferred {
            return Err(DocumentTabError::InvalidPayloadState);
        }
        if index >= self.tabs.len() {
            return Err(DocumentTabError::MissingTab(index));
        }
        if self.tabs[index].deferred || self.tabs[index].document.is_none() {
            return Err(DocumentTabError::InvalidPayloadState);
        }
        let ghost before = self@;
        let ghost previous = *active_document;
        let mut target_document: Option<T> = None;
        std::mem::swap(&mut target_document, &mut self.tabs[index].document);
        let target_view = self.tabs[index].view;
        let mut incoming = match target_document {
            Some(d) => d,
            None => {
                assert(false);
                return Err(DocumentTabError::InvalidPayloadState);
            },
        };
        std::mem::swap(active_document, &mut incoming);
        let active = self.active;
        self.tabs[active].document = Some(incoming);
        self.tabs[active].deferred = false;
        self.tabs[active].view = active_view;
        self.active = index;
        proof {
            assert(self@.tabs =~= switched(before, index, previous, active_view).tabs);
            let m = self@;
            assert forall|i: int, j: int|
                0 <= i < m.tabs.len() && 0 <= j < m.tabs.len() && i != j implies (#[trigger] m.tabs[i]).id
                != (#[trigger] m.tabs[j]).id by {
                assert(before.tabs[i].id != before.tabs[j].id);
            }
            assert forall|i: int, j: int|
                0 <= i < m.tabs.len() && 0 <= j < m.tabs.len() && i != j && (#[trigger] m.tabs[i]).path is Some
                    implies (#[trigger] m.tabs[j]).path != m.tabs[i].path by {
                assert(before.tabs[i].path is Some);
                assert(before.tabs[j].path != before.tabs[i].path);
            }
            assert forall|i: int| 0 <= i < m.tabs.len() implies (#[trigger] m.tabs[i]).id.0 < m.next_id by {
                assert(before.tabs[i].id.0 < before.next_id);
            }
        }
        Ok(target_view)
    }

    /// Activates tab `index`, storing the caller's payload and view in the
    /// active tab and handing over the target's; the view the target had is
    /// returned. Activating the active tab changes nothing.
    pub fn activate(&mut self, index: usize, active_document: &mut T, active_view: S) -> (r: Result<
        Option<S>,
        DocumentTabError,
    >)
        requires
            old(self).wf(),
        ensures
            final(self).wf(),
            index == old(self)@.active ==> r == Ok::<Option<S>, DocumentTabError>(None) && final(self)@ == old(
                self,
            )@ && *final(active_document) == *old(active_document),
            index != old(self)@.active ==> match r {
                Ok(None) => false,
                Ok(Some(view)) => switch_error(old(self)@, index) is None && view == old(self)@.tabs[index as int].view
                    && *final(active_document) == old(self)@.tabs[index as int].document->0 && ({
                    let s = switched(old(self)@, index, *old(active_document), active_view);
                    let (history, cursor) = recorded(
                        s.history,
                        s.history_cursor,
                        s.limits.history_capacity,
                        old(self)@.tabs[index as int].id,
                    );
                    final(self)@ == (TabsModel { history, history_cursor: cursor, ..s })
                }),
                Err(e) => (if index >= old(self)@.tabs.len() {
                    e == DocumentTabError::MissingTab(index)
                } else {
                    switch_error(old(self)@, index) == Some(e)
                }) && final(self)@ == old(self)@ && *final(active_document) == *old(active_document),
            },
    {
        if index == self.active {
            return Ok(None);
        }
        if index >= self.tabs.len() {
            return Err(DocumentTabError::MissingTab(index));
        }
        let id = self.tabs[index].id;
        let view = self.switch_to(index, active_document, active_view)?;
        self.record_navigation(id);
        Ok(Some(view))
    }

    /// Activates the nearest earlier history entry whose tab is open and not
    /// active, and moves the history cursor there.
    pub fn navigate_back(&mut self, active_document: &mut T, active_view: S) -> (r: Result<
        Option<S>,
        DocumentTabError,
    >)
        requires
            old(self).wf(),
        ensures
            final(self).wf(),
            match back_target(old(self)@) {
                None => r == Ok::<Option<S>, DocumentTabError>(None) && final(self)@ == old(self)@
                    && *final(active_document) == *old(active_document),
                Some((cursor, index)) => match r {
                    Ok(None) => false,
                    Ok(Some(view)) => switch_error(old(self)@, index) is None && view == old(self)@.tabs[index as int].view
                        && *final(active_document) == old(self)@.tabs[index as int].document->0 && final(self)@ == (
                    TabsModel {
                        history_cursor: cursor,
                        ..switched(old(self)@, index, *old(active_document), active_view)
                    }),
                    Err(e) => switch_error(old(self)@, index) == Some(e) && final(self)@ == old(self)@
                        && *final(active_document) == *old(active_document),
                },
            },
    {
        proof {
            lemma_back_target_bounds(self@, self@.history_cursor as int);
        }
        match self.back_search() {
            None => Ok(None),
            Some((cursor, index)) => {
                let view = self.switch_to(index, active_document, active_view)?;
                self.history_cursor = cursor;
                Ok(Some(view))
            },
        }
    }

    /// Activates the nearest later history entry whose tab is open and not
    /// active, and moves the history cursor there.
    pub fn navigate_forward(&mut self, active_document: &mut T, active_view: S) -> (r: Result<
        Option<S>,
        DocumentTabError,
    >)
        requires
            old(self).wf(),
        ensures
            final(self).wf(),
            match forward_target(old(self)@) {
                None => r == Ok::<Option<S>, DocumentTabError>(None) && final(self)@ == old(self)@
                    && *final(active_document) == *old(active_document),
                Some((cursor, index)) => match r {
                    Ok(None) => false,
                    Ok(Some(view)) => switch_error(old(self)@, index) is None && view == old(self)@.tabs[index as int].view
                        && *final(active_document) == old(self)@.tabs[index as int].document->0 && final(self)@ == (
                    TabsModel {
                        history_cursor: cursor,
                        ..switched(old(self)@, index, *old(active_document), active_view)
                    }),
                    Err(e) => switch_error(old(self)@, index) == Some(e) && final(self)@ == old(self)@
                        && *final(active_document) == *old(active_document),
                },
            },
    {
        proof {
            lemma_forward_target_bounds(self@, self@.history_cursor + 1);
        }
        match self.forward_search() {
            None => Ok(None),
            Some((cursor, index)) => {
                let view = self.switch_to(index, active_document, active_view)?;
                self.history_cursor = cursor;
                Ok(Some(view))
            },
        }
    }

    /// Opens `path` in a new tab and activates it: the caller's payload and
    /// view go to the active tab, `new_document` becomes the caller's, and
    /// the new tab enters the history. Refused, with nothing changed, for a
    /// path already open, a full tab set, an active tab that already stores
    /// a payload, exhausted identities, or path bytes beyond the budget.
    pub fn insert_and_activate(
        &mut self,
        path: &TabPath,
        workspace_entry: Option<usize>,
        new_document: T,
        active_document: &mut T,
        active_view: S,
    ) -> (r: Result<(), DocumentTabError>)
        requires
            old(self).wf(),
        ensures
            final(self).wf(),
            path_index(old(self)@.tabs, path@.path) is Some ==> r == Err::<(), DocumentTabError>(
                DocumentTabError::DuplicatePath(path.path),
            ),
            path_index(old(self)@.tabs, path@.path) is None ==> match insert_error(old(self)@, path@) {
                Some(e) => r == Err::<(), DocumentTabError>(e),
                None => r is Ok || r == Err::<(), DocumentTabError>(DocumentTabError::AllocationFailed),
            },
            r is Err ==> final(self)@ == old(self)@ && *final(active_document) == *old(active_document),
            r is Ok ==> path_index(old(self)@.tabs, path@.path) is None && insert_error(old(self)@, path@) is None
                && *final(active_document) == new_document && final(self)@ == inserted(
                old(self)@,
                path@,
                workspace_entry,
                *old(active_document),
                active_view,
            ),
    {
        if self.index_for_path(path.path.as_str()).is_some() {
            return Err(DocumentTabError::DuplicatePath(path.path.clone()));
        }
        if self.tabs.len() >= self.limits.tab_capacity {
            return Err(DocumentTabError::CapacityReached(self.limits.tab_capacity));
        }
        if self.tabs[self.active].document.is_some() {
            return Err(DocumentTabError::InvalidPayloadState);
        }
        if self.next_id == u64::MAX {
            return Err(DocumentTabError::IdentityExhausted);
        }
        let next_id = self.next_id + 1;
        let (label, retained_path_bytes) = tab_metadata(Some(path))?;
        if self.retained_path_bytes > usize::MAX - retained_path_bytes {
            return Err(DocumentTabError::PathBudgetExceeded(self.limits.path_byte_budget));
        }
        let next_path_bytes = self.retained_path_bytes + retained_path_bytes;
        if next_path_bytes > self.limits.path_byte_budget {
            return Err(DocumentTabError::PathBudgetExceeded(self.limits.path_byte_budget));
        }
        if self.tabs.try_reserve(1).is_err() {
            return Err(DocumentTabError::AllocationFailed);
        }
        let ghost before = self@;
        let ghost previous_document = *active_document;
        let mut previous = new_document;
        std::mem::swap(active_document, &mut previous);
        let active = self.active;
        self.tabs[active].document = Some(previous);
        self.tabs[active].deferred = false;
        self.tabs[active].view = active_view;
        let id = DocumentTabId(self.next_id);
        self.tabs.push(
            DocumentTab {
                id,
                path: Some(path.path.clone()),
                label,
                retained_path_bytes,
                workspace_entry,
                document: None,
                deferred: false,
                view: self.blank_view,
            },
        );
        self.active = self.tabs.len() - 1;
        self.next_id = next_id;
        self.retained_path_bytes = next_path_bytes;
        proof {
            let m = self@;
            let expected = inserted(before, path@, workspace_entry, previous_document, active_view);
            assert(m.tabs =~= expected.tabs);
            assert forall|i: int, j: int|
                0 <= i < m.tabs.len() && 0 <= j < m.tabs.len() && i != j implies (#[trigger] m.tabs[i]).id
                != (#[trigger] m.tabs[j]).id by {
                if i < before.tabs.len() && j < before.tabs.len() {
                    assert(before.tabs[i].id != before.tabs[j].id);
                } else if i < before.tabs.len() {
                    assert(before.tabs[i].id.0 < before.next_id);
                } else {
                    assert(before.tabs[j].id.0 < before.next_id);
                }
            }
            assert forall|i: int, j: int|
                0 <= i < m.tabs.len() && 0 <= j < m.tabs.len() && i != j && (#[trigger] m.tabs[i]).path is Some
                    implies (#[trigger] m.tabs[j]).path != m.tabs[i].path by {
                if i < before.tabs.len() && j < before.tabs.len() {
                    assert(before.tabs[i].path is Some);
                    assert(before.tabs[j].path != before.tabs[i].path);
                } else if i < before.tabs.len() {
                    assert(before.tabs[i as int].path != Some(path@.path));
                } else {
                    assert(before.tabs[j as int].path != Some(path@.path));
                }
            }
            assert forall|i: int| 0 <= i < m.tabs.len() implies (#[trigger] m.tabs[i]).id.0 < m.next_id by {
                if i < before.tabs.len() {
                    assert(before.tabs[i].id.0 < before.next_id);
                }
            }
        }
        self.record_navigation(id);
        Ok(())
    }

    /// Closes the active tab and activates its neighbour: the next tab, or
    /// the previous one for the last. The neighbour's payload becomes the
    /// caller's and its view is returned. The final tab cannot be closed.
    pub fn close_active(&mut self, active_document: &mut T) -> (r: Result<S, DocumentTabError>)
        requires
            old(self).wf(),
        ensures
            final(self).wf(),
            old(self)@.tabs.len() == 1 ==> r == Err::<S, DocumentTabError>(DocumentTabError::LastTab),
            old(self)@.tabs.len() > 1 && old(self)@.tabs[close_target_spec(old(self)@) as int].document is None ==> r
                == Err::<S, DocumentTabError>(DocumentTabError::InvalidPayloadState),
            r is Err ==> final(self)@ == old(self)@ && *final(active_document) == *old(active_document),
            old(self)@.tabs.len() > 1 && old(self)@.tabs[close_target_spec(old(self)@) as int].document is Some ==> r
                == Ok::<S, DocumentTabError>(old(self)@.tabs[close_target_spec(old(self)@) as int].view)
                && *final(active_document) == old(self)@.tabs[close_target_spec(old(self)@) as int].document->0
                && final(self)@ == closed(old(self)@),
    {
        if self.tabs.len() == 1 {
            return Err(DocumentTabError::LastTab);
        }
        let closing = self.active;
        let target = if closing + 1 < self.tabs.len() {
            closing + 1
        } else {
            closing - 1
        };
        let target_id = self.tabs[target].id;
        let target_view = self.tabs[target].view;
        if self.tabs[target].document.is_none() {
            return Err(DocumentTabError::InvalidPayloadState);
        }
        let ghost before = self@;
        let mut target_document: Option<T> = None;
        std::mem::swap(&mut target_document, &mut self.tabs[target].document);
        let mut incoming = match target_document {
            Some(d) => d,
            None => {
                assert(false);
                return Err(DocumentTabError::InvalidPayloadState);
            },
        };
        std::mem::swap(active_document, &mut incoming);
        let ghost updated = self.tabs@;
        let removed = self.tabs.remove(closing);
        self.retained_path_bytes = if self.retained_path_bytes < removed.retained_path_bytes {
            0
        } else {
            self.retained_path_bytes - removed.retained_path_bytes
        };
        self.active = if target > closing {
            target - 1
        } else {
            target
        };
        proof {
            let m = self@;
            let t = target as int;
            let c = closing as int;
            let expected = before.tabs.update(t, TabModel { document: None, ..before.tabs[t] }).remove(c);
            assert(m.tabs =~= expected);
            assert forall|i: int, j: int|
                0 <= i < m.tabs.len() && 0 <= j < m.tabs.len() && i != j implies (#[trigger] m.tabs[i]).id
                != (#[trigger] m.tabs[j]).id by {
                let bi = if i < c { i } else { i + 1 };
                let bj = if j < c { j } else { j + 1 };
                assert(before.tabs[bi].id != before.tabs[bj].id);
            }
            assert forall|i: int, j: int|
                0 <= i < m.tabs.len() && 0 <= j < m.tabs.len() && i != j && (#[trigger] m.tabs[i]).path is Some
                    implies (#[trigger] m.tabs[j]).path != m.tabs[i].path by {
                let bi = if i < c { i } else { i + 1 };
                let bj = if j < c { j } else { j + 1 };
                assert(before.tabs[bi].path is Some);
                assert(before.tabs[bj].path != before.tabs[bi].path);
            }
            assert forall|i: int| 0 <= i < m.tabs.len() implies (#[trigger] m.tabs[i]).id.0 < m.next_id by {
                let bi = if i < c { i } else { i + 1 };
                assert(before.tabs[bi].id.0 < before.next_id);
            }
        }
        self.record_navigation(target_id);
        Ok(target_view)
    }

    fn holds_path(tabs: &Vec<DocumentTab<T, S>>, path: &str) -> (r: bool)
        ensures
            r == exists|k: int| 0 <= k < tabs@.len() && (#[trigger] tab_model(tabs@[k])).path == Some(path@),
    {
        let mut j: usize = 0;
        while j < tabs.len()
            invariant
                j <= tabs@.len(),
                forall|k: int| 0 <= k < j ==> (#[trigger] tab_model(tabs@[k])).path != Some(path@),
            decreases tabs@.len() - j,
        {
            let same = match &tabs[j].path {
                Some(q) => str_eq(q.as_str(), path),
                None => false,
            };
            if same {
                assert(tab_model(tabs@[j as int]).path == Some(path@));
                return true;
            }
            j += 1;
        }
        false
    }

    /// The tab set of a saved session: one tab per restored entry, with
    /// identities counting from one, tab `active` active and the others
    /// deferred until their payloads are materialized. Refused for invalid
    /// limits, an empty or oversized session or an active index beyond it, a
    /// path met twice, or path bytes beyond the budget.
    pub fn from_restored(
        restored: Vec<RestoredDocumentTab<S>>,
        active: usize,
        limits: DocumentTabLimits,
        blank_view: S,
    ) -> (r: Result<Self, DocumentTabError>)
        ensures
            !limits_valid(limits) ==> r == Err::<Self, DocumentTabError>(DocumentTabError::InvalidLimits),
            limits_valid(limits) && (restored@.len() == 0 || restored@.len() > limits.tab_capacity || active
                >= restored@.len()) ==> r == Err::<Self, DocumentTabError>(DocumentTabError::InvalidPayloadState),
            match r {
                Ok(t) => t.wf() && restore_outcome::<T, S>(restored@, active, limits, blank_view) == Ok::<
                    TabsModel<T, S>,
                    DocumentTabError,
                >(t@),
                Err(e) => restore_outcome::<T, S>(restored@, active, limits, blank_view) == Err::<
                    TabsModel<T, S>,
                    DocumentTabError,
                >(e) || e == DocumentTabError::AllocationFailed,
            },
    {
        if limits.tab_capacity == 0 || limits.path_byte_budget == 0 || limits.history_capacity == 0 {
            return Err(DocumentTabError::InvalidLimits);
        }
        let n = restored.len();
        if n == 0 || n > limits.tab_capacity || active >= n {
            return Err(DocumentTabError::InvalidPayloadState);
        }
        let ghost rs = restored@;
        let mut entries = restored;
        let mut tabs: Vec<DocumentTab<T, S>> = Vec::new();
        if crate::std_calls::vec_try_reserve_exact(&mut tabs, n).is_err() {
            return Err(DocumentTabError::AllocationFailed);
        }
        assert(tabs@.map_values(|t: DocumentTab<T, S>| tab_model(t)) =~= Seq::<TabModel<T, S>>::empty());
        let mut retained_path_bytes: usize = 0;
        let mut index: usize = 0;
        while index < n
            invariant
                rs == restored@,
                n == rs.len(),
                n == entries@.len(),
                0 < n <= limits.tab_capacity,
                active < n,
                limits_valid(limits),
                index <= n,
                forall|j: int| index <= j < n ==> entries@[j] == rs[j],
                restore_prefix::<T, S>(rs, active, limits, index as int) == Ok::<
                    (Seq<TabModel<T, S>>, usize),
                    DocumentTabError,
                >((tabs@.map_values(|t: DocumentTab<T, S>| tab_model(t)), retained_path_bytes)),
                tabs@.len() == index,
                forall|j: int| 0 <= j < index ==> (#[trigger] tabs@[j]).id == DocumentTabId((j + 1) as u64),
                paths_unique(tabs@.map_values(|t: DocumentTab<T, S>| tab_model(t))),
                retained_path_bytes <= limits.path_byte_budget,
            decreases n - index,
        {
            let ghost built = tabs@.map_values(|t: DocumentTab<T, S>| tab_model(t));
            let mut path: Option<TabPath> = None;
            std::mem::swap(&mut path, &mut entries[index].path);
            let view = entries[index].view;
            let ghost entry = rs[index as int];
            assert(path == entry.path);
            if let Some(p) = &path {
                if Self::holds_path(&tabs, p.path.as_str()) {
                    proof {
                        let k = choose|k: int| 0 <= k < tabs@.len() && (#[trigger] tab_model(tabs@[k])).path == Some(
                            p.path@,
                        );
                        assert(built[k] == tab_model(tabs@[k]));
                        assert(restore_prefix::<T, S>(rs, active, limits, index + 1) is Err);
                        lemma_restore_error_persists::<T, S>(rs, active, limits, index + 1, n as int);
                    }
                    return Err(DocumentTabError::DuplicatePath(p.path.clone()));
                }
            }
            let (label, path_bytes) = match tab_metadata(path.as_ref()) {
                Ok(m) => m,
                Err(e) => {
                    proof {
                        lemma_restore_error_persists::<T, S>(rs, active, limits, index + 1, n as int);
                    }
                    return Err(e);
                },
            };
            if retained_path_bytes > usize::MAX - path_bytes || retained_path_bytes + path_bytes
                > limits.path_byte_budget {
                proof {
                    lemma_restore_error_persists::<T, S>(rs, active, limits, index + 1, n as int);
                }
                return Err(DocumentTabError::PathBudgetExceeded(limits.path_byte_budget));
            }
            retained_path_bytes = retained_path_bytes + path_bytes;
            let id_value = (index as u64) + 1;
            let tab_path = match path {
                Some(p) => Some(p.path),
                None => None,
            };
            tabs.push(
                DocumentTab {
                    id: DocumentTabId(id_value),
                    path: tab_path,
                    label,
                    retained_path_bytes: path_bytes,
                    workspace_entry: None,
                    document: None,
                    deferred: index != active,
                    view,
                },
            );
            proof {
                let now = tabs@.map_values(|t: DocumentTab<T, S>| tab_model(t));
                assert(now =~= built.push(tab_model(tabs@[index as int])));
                assert forall|i: int, j: int|
                    0 <= i < now.len() && 0 <= j < now.len() && i != j && (#[trigger] now[i]).path is Some
                        implies (#[trigger] now[j]).path != now[i].path by {
                    if i < index && j < index {
                        assert(built[i].path is Some);
                        assert(built[j].path != built[i].path);
                    } else if i < index {
                        assert(built[i].path != path_text(restored_path(entry)));
                    } else {
                        assert(built[j].path != path_text(restored_path(entry)));
                    }
                }
            }
            index += 1;
        }
        if n as u64 == u64::MAX {
            return Err(DocumentTabError::IdentityExhausted);
        }
        let next_id = (n as u64) + 1;
        let active_id = tabs[active].id;
        let mut history: Vec<DocumentTabId> = Vec::new();
        if crate::std_calls::vec_try_reserve_exact(&mut history, limits.history_capacity).is_err() {
            return Err(DocumentTabError::AllocationFailed);
        }
        history.push(active_id);
        let t = DocumentTabs {
            tabs,
            active,
            next_id,
            retained_path_bytes,
            history,
            history_cursor: 0,
            limits,
            blank_view,
        };
        proof {
            let m = t@;
            assert(m.history =~= seq![DocumentTabId((active + 1) as u64)]);
            assert forall|i: int, j: int|
                0 <= i < m.tabs.len() && 0 <= j < m.tabs.len() && i != j implies (#[trigger] m.tabs[i]).id
                != (#[trigger] m.tabs[j]).id by {
                assert(t.tabs@[i].id == DocumentTabId((i + 1) as u64));
                assert(t.tabs@[j].id == DocumentTabId((j + 1) as u64));
            }
            assert forall|i: int| 0 <= i < m.tabs.len() implies (#[trigger] m.tabs[i]).id.0 < m.next_id by {
                assert(t.tabs@[i].id == DocumentTabId((i + 1) as u64));
            }
        }
        Ok(t)
    }
}

} // verus!
