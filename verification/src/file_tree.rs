//! Lazy, bounded local workspace tree state: which directories are
//! expanded, what each listed, which rows are visible, and which row is
//! selected.
use crate::find::boundary_at_or_before;
use crate::path_order::{bytes_before, compare_paths, path_bytes, PathOrder};
use crate::text::{decimal, str_eq, usize_to_decimal, utf8_len};
use vstd::prelude::*;
use vstd::string::{StrSliceExecFns, StringExecFns};
use vstd::utf8::{encode_utf8, is_char_boundary};

verus! {

/// Directory entries a scan reads at most.
pub const MAX_SCANNED_PER_DIRECTORY: usize = 16384;

/// Entries one directory retains at most.
pub const MAX_CHILDREN_PER_DIRECTORY: usize = 4096;

/// Path bytes one directory retains at most.
pub const MAX_DIRECTORY_PATH_BYTES: usize = 1048576;

/// Directories the tree caches at most.
pub const MAX_CACHED_DIRECTORIES: usize = 4096;

/// Entries the tree caches at most.
pub const MAX_CACHED_ENTRIES: usize = 65536;

/// Path bytes the tree caches at most.
pub const MAX_CACHED_PATH_BYTES: usize = 8388608;

/// Bytes of one relative path at most.
pub const MAX_PATH_BYTES: usize = 4096;

/// Components of one relative path at most.
pub const MAX_DEPTH: usize = 256;

/// Rows one projection returns at most.
pub const MAX_VISIBLE_ROWS: usize = 512;

/// Bytes of a retained error message at most.
pub const MAX_ERROR_BYTES: usize = 512;

/// The hard ceilings of a tree.
#[derive(Clone, Copy, Debug, Eq, PartialEq, Structural)]
pub struct FileTreeLimits {
    pub scanned_per_directory: usize,
    pub children_per_directory: usize,
    pub directory_path_bytes: usize,
    pub cached_directories: usize,
    pub cached_entries: usize,
    pub cached_path_bytes: usize,
    pub path_bytes: usize,
    pub depth: usize,
    pub visible_rows: usize,
}

/// Every ceiling is non-zero.
pub open spec fn tree_limits_valid(l: FileTreeLimits) -> bool {
    &&& l.scanned_per_directory > 0
    &&& l.children_per_directory > 0
    &&& l.directory_path_bytes > 0
    &&& l.cached_directories > 0
    &&& l.cached_entries > 0
    &&& l.cached_path_bytes > 0
    &&& l.path_bytes > 0
    &&& l.depth > 0
    &&& l.visible_rows > 0
}

impl FileTreeLimits {
    /// Limits with the given ceilings.
    pub fn new(
        scanned_per_directory: usize,
        children_per_directory: usize,
        directory_path_bytes: usize,
        cached_directories: usize,
        cached_entries: usize,
        cached_path_bytes: usize,
        path_bytes: usize,
        depth: usize,
        visible_rows: usize,
    ) -> (l: Self)
        ensures
            l == (FileTreeLimits {
                scanned_per_directory,
                children_per_directory,
                directory_path_bytes,
                cached_directories,
                cached_entries,
                cached_path_bytes,
                path_bytes,
                depth,
                visible_rows,
            }),
    {
        FileTreeLimits {
            scanned_per_directory,
            children_per_directory,
            directory_path_bytes,
            cached_directories,
            cached_entries,
            cached_path_bytes,
            path_bytes,
            depth,
            visible_rows,
        }
    }

    /// Whether every ceiling is non-zero.
    pub fn is_valid(self) -> (r: bool)
        ensures
            r == tree_limits_valid(self),
    {
        self.scanned_per_directory > 0 && self.children_per_directory > 0 && self.directory_path_bytes > 0
            && self.cached_directories > 0 && self.cached_entries > 0 && self.cached_path_bytes > 0
            && self.path_bytes > 0 && self.depth > 0 && self.visible_rows > 0
    }

    /// The shipping ceilings, as a value.
    pub open spec fn shipping() -> FileTreeLimits {
        FileTreeLimits {
            scanned_per_directory: MAX_SCANNED_PER_DIRECTORY,
            children_per_directory: MAX_CHILDREN_PER_DIRECTORY,
            directory_path_bytes: MAX_DIRECTORY_PATH_BYTES,
            cached_directories: MAX_CACHED_DIRECTORIES,
            cached_entries: MAX_CACHED_ENTRIES,
            cached_path_bytes: MAX_CACHED_PATH_BYTES,
            path_bytes: MAX_PATH_BYTES,
            depth: MAX_DEPTH,
            visible_rows: MAX_VISIBLE_ROWS,
        }
    }
}

impl Default for FileTreeLimits {
    fn default() -> (l: Self)
        ensures
            l == FileTreeLimits::shipping(),
    {
        FileTreeLimits {
            scanned_per_directory: MAX_SCANNED_PER_DIRECTORY,
            children_per_directory: MAX_CHILDREN_PER_DIRECTORY,
            directory_path_bytes: MAX_DIRECTORY_PATH_BYTES,
            cached_directories: MAX_CACHED_DIRECTORIES,
            cached_entries: MAX_CACHED_ENTRIES,
            cached_path_bytes: MAX_CACHED_PATH_BYTES,
            path_bytes: MAX_PATH_BYTES,
            depth: MAX_DEPTH,
            visible_rows: MAX_VISIBLE_ROWS,
        }
    }
}

/// Why a tree operation failed. Paths are carried as text; an I/O failure
/// carries the operation, the path and the system's description.
#[derive(Clone, Debug, Eq, PartialEq)]
pub enum FileTreeError {
    NoWorkspace,
    InvalidLimits,
    GenerationExhausted,
    AllocationFailed,
    MissingSelection,
    InvalidRelativePath(String),
    PathDepthExceeded { actual: usize, limit: usize },
    Symlink(String),
    NotDirectory(String),
    CacheLimitExceeded { resource: &'static str, limit: usize },
    Ignore(String),
    Io { operation: &'static str, path: String, detail: String },
}

/// The text of a tree error.
pub open spec fn tree_error_message(e: FileTreeError) -> Seq<char> {
    match e {
        FileTreeError::NoWorkspace => "file tree requires one local workspace"@,
        FileTreeError::InvalidLimits => "file-tree limits must be non-zero"@,
        FileTreeError::GenerationExhausted => "file-tree request generation is exhausted"@,
        FileTreeError::AllocationFailed => "file-tree allocation failed"@,
        FileTreeError::MissingSelection => "file tree has no selected row"@,
        FileTreeError::InvalidRelativePath(p) => "invalid file-tree relative path: "@ + p@,
        FileTreeError::PathDepthExceeded { actual, limit } => "file-tree path depth "@ + decimal(actual as nat)
            + " exceeds the "@ + decimal(limit as nat) + "-component ceiling"@,
        FileTreeError::Symlink(p) => "file-tree path contains a symlink: "@ + p@,
        FileTreeError::NotDirectory(p) => "file-tree path is not a directory: "@ + p@,
        FileTreeError::CacheLimitExceeded { resource, limit } => "file-tree "@ + resource@ + " exceeds the "@
            + decimal(limit as nat) + " ceiling"@,
        FileTreeError::Ignore(m) => "file-tree ignore rules failed: "@ + m@,
        FileTreeError::Io { operation, path, detail } => "file-tree "@ + operation@ + " failed for "@ + path@
            + ": "@ + detail@,
    }
}

impl FileTreeError {
    /// A human-readable description.
    pub fn message(&self) -> (m: String)
        ensures
            m@ == tree_error_message(*self),
    {
        match self {
            FileTreeError::NoWorkspace => String::from_str("file tree requires one local workspace"),
            FileTreeError::InvalidLimits => String::from_str("file-tree limits must be non-zero"),
            FileTreeError::GenerationExhausted => String::from_str("file-tree request generation is exhausted"),
            FileTreeError::AllocationFailed => String::from_str("file-tree allocation failed"),
            FileTreeError::MissingSelection => String::from_str("file tree has no selected row"),
            FileTreeError::InvalidRelativePath(p) => {
                let mut m = String::from_str("invalid file-tree relative path: ");
                m.append(p.as_str());
                m
            },
            FileTreeError::PathDepthExceeded { actual, limit } => {
                let mut m = String::from_str("file-tree path depth ");
                m.append(usize_to_decimal(*actual).as_str());
                m.append(" exceeds the ");
                m.append(usize_to_decimal(*limit).as_str());
                m.append("-component ceiling");
                m
            },
            FileTreeError::Symlink(p) => {
                let mut m = String::from_str("file-tree path contains a symlink: ");
                m.append(p.as_str());
                m
            },
            FileTreeError::NotDirectory(p) => {
                let mut m = String::from_str("file-tree path is not a directory: ");
                m.append(p.as_str());
                m
            },
            FileTreeError::CacheLimitExceeded { resource, limit } => {
                let mut m = String::from_str("file-tree ");
                m.append(resource);
                m.append(" exceeds the ");
                m.append(usize_to_decimal(*limit).as_str());
                m.append(" ceiling");
                m
            },
            FileTreeError::Ignore(message) => {
                let mut m = String::from_str("file-tree ignore rules failed: ");
                m.append(message.as_str());
                m
            },
            FileTreeError::Io { operation, path, detail } => {
                let mut m = String::from_str("file-tree ");
                m.append(operation);
                m.append(" failed for ");
                m.append(path.as_str());
                m.append(": ");
                m.append(detail.as_str());
                m
            },
        }
    }
}

/// The longest prefix of `text` whose UTF-8 encoding fits
/// `MAX_ERROR_BYTES`, ending on a character boundary.
pub open spec fn bounded_text_spec(text: Seq<char>) -> Seq<u8> {
    let bytes = encode_utf8(text);
    if bytes.len() <= MAX_ERROR_BYTES {
        bytes
    } else {
        bytes.subrange(0, boundary_at_or_before(bytes, MAX_ERROR_BYTES as int))
    }
}

proof fn lemma_boundary_before(bytes: Seq<u8>, i: int)
    requires
        0 <= i <= bytes.len(),
        vstd::utf8::valid_utf8(bytes),
    ensures
        0 <= boundary_at_or_before(bytes, i) <= i,
        is_char_boundary(bytes, boundary_at_or_before(bytes, i)),
    decreases i,
{
    if i > 0 && !is_char_boundary(bytes, i) {
        lemma_boundary_before(bytes, i - 1);
    }
}

/// `text`, cut to at most `MAX_ERROR_BYTES` bytes at a character boundary.
pub fn bounded_text(text: &str) -> (r: String)
    ensures
        encode_utf8(r@) == bounded_text_spec(text@),
{
    let total = text.as_bytes().len();
    if total <= MAX_ERROR_BYTES {
        return String::from_str(text);
    }
    let mut end: usize = MAX_ERROR_BYTES;
    proof {
        broadcast use vstd::utf8::encode_utf8_valid_utf8;
        lemma_boundary_before(encode_utf8(text@), end as int);
    }
    while !text.is_char_boundary(end)
        invariant
            0 <= end <= MAX_ERROR_BYTES,
            MAX_ERROR_BYTES < encode_utf8(text@).len(),
            vstd::utf8::valid_utf8(encode_utf8(text@)),
            boundary_at_or_before(encode_utf8(text@), end as int) == boundary_at_or_before(
                encode_utf8(text@),
                MAX_ERROR_BYTES as int,
            ),
        decreases end,
    {
        end = end - 1;
    }
    let (prefix, _) = text.split_at(end);
    String::from_str(prefix)
}

/// The bounded description of `error`.
pub fn bounded_message(error: &FileTreeError) -> (r: String)
    ensures
        encode_utf8(r@) == bounded_text_spec(tree_error_message(*error)),
{
    bounded_text(error.message().as_str())
}

/// The relative path of `name` inside directory `relative`.
pub open spec fn child_path(relative: Seq<char>, name: Seq<char>) -> Seq<char> {
    if relative.len() == 0 {
        name
    } else {
        relative + "/"@ + name
    }
}

/// The relative path of `name` inside directory `relative`; refused when
/// its length does not fit or its storage cannot be reserved.
pub fn portable_child(relative: &str, name: &str) -> (r: Result<String, FileTreeError>)
    ensures
        match r {
            Ok(p) => p@ == child_path(relative@, name@),
            Err(e) => e == FileTreeError::AllocationFailed,
        },
        utf8_len(relative@) + 1 + utf8_len(name@) > usize::MAX ==> r is Err,
{
    let relative_len = relative.as_bytes().len();
    let name_len = name.as_bytes().len();
    if relative_len == usize::MAX || relative_len + 1 > usize::MAX - name_len {
        return Err(FileTreeError::AllocationFailed);
    }
    let capacity = relative_len + 1 + name_len;
    let mut path = String::new();
    if crate::std_calls::string_try_reserve(&mut path, capacity).is_err() {
        return Err(FileTreeError::AllocationFailed);
    }
    proof {
        reveal_strlit("/");
    }
    if relative_len > 0 {
        path.append(relative);
        path.append("/");
    } else {
        assert(relative@.len() == 0) by {
            if relative@.len() > 0 {
                vstd::utf8::encode_utf8_decode_utf8(relative@);
            }
        }
    }
    path.append(name);
    Ok(path)
}

/// Whether position `i` of `s` starts a `/`-separated component.
pub open spec fn starts_component(s: Seq<u8>, i: int) -> bool {
    i == 0 || s[i - 1] == 47
}

/// Whether position `i` of `s` ends a component.
pub open spec fn ends_component(s: Seq<u8>, i: int) -> bool {
    i == s.len() || s[i] == 47
}

/// Number of `/` bytes in `s`.
pub open spec fn slash_count(s: Seq<u8>) -> nat
    decreases s.len(),
{
    if s.len() == 0 {
        0
    } else {
        slash_count(s.drop_last()) + if s.last() == 47 {
            1nat
        } else {
            0nat
        }
    }
}

/// A relative path a session may restore: non-empty, not absolute, within
/// the path byte and depth ceilings, without NUL, and made of non-empty
/// components none of which is `.` or `..`.
pub open spec fn valid_restored_path(s: Seq<u8>, limits: FileTreeLimits) -> bool {
    &&& 0 < s.len() <= limits.path_bytes
    &&& forall|i: int| 0 <= i < s.len() ==> #[trigger] s[i] != 0
    &&& forall|i: int| 0 <= i < s.len() && #[trigger] s[i] == 47 ==> !starts_component(s, i) && !ends_component(
        s,
        i + 1,
    )
    &&& forall|i: int|
        0 <= i < s.len() && #[trigger] s[i] == 46 && starts_component(s, i) ==> !ends_component(s, i + 1)
            && !(i + 1 < s.len() && s[i + 1] == 46 && ends_component(s, i + 2))
    &&& slash_count(s) + 1 <= limits.depth
}

/// A restored relative path, checked.
pub fn restored_identity(path: &str, limits: FileTreeLimits) -> (r: Result<String, FileTreeError>)
    ensures
        match r {
            Ok(p) => valid_restored_path(path_bytes(path@), limits) && p@ == path@,
            Err(FileTreeError::InvalidRelativePath(p)) => !valid_restored_path(path_bytes(path@), limits) && p@
                == path@,
            Err(_) => false,
        },
{
    let s = path.as_bytes();
    let n = s.len();
    if n == 0 || n > limits.path_bytes {
        return Err(FileTreeError::InvalidRelativePath(String::from_str(path)));
    }
    let mut slashes: usize = 0;
    let mut i: usize = 0;
    while i < n
        invariant
            s@ == path_bytes(path@),
            n == s@.len(),
            0 < n <= limits.path_bytes,
            i <= n,
            slashes == slash_count(s@.take(i as int)),
            slashes <= i,
            forall|j: int| 0 <= j < i ==> #[trigger] s@[j] != 0,
            forall|j: int| 0 <= j < i && #[trigger] s@[j] == 47 ==> !starts_component(s@, j) && !ends_component(
                s@,
                j + 1,
            ),
            forall|j: int|
                0 <= j < i && #[trigger] s@[j] == 46 && starts_component(s@, j) ==> !ends_component(s@, j + 1)
                    && !(j + 1 < s@.len() && s@[j + 1] == 46 && ends_component(s@, j + 2)),
        decreases n - i,
    {
        proof {
            assert(s@.take(i + 1).drop_last() =~= s@.take(i as int));
        }
        let b = s[i];
        let starts = i == 0 || s[i - 1] == 47;
        let ends_next = i + 1 == n || s[i + 1] == 47;
        if b == 0 {
            return Err(FileTreeError::InvalidRelativePath(String::from_str(path)));
        }
        if b == 47 {
            if starts || ends_next {
                return Err(FileTreeError::InvalidRelativePath(String::from_str(path)));
            }
            slashes = slashes + 1;
        }
        if b == 46 && starts {
            if ends_next {
                return Err(FileTreeError::InvalidRelativePath(String::from_str(path)));
            }
            if i + 1 < n && s[i + 1] == 46 && (i + 2 == n || s[i + 2] == 47) {
                return Err(FileTreeError::InvalidRelativePath(String::from_str(path)));
            }
        }
        i += 1;
    }
    assert(s@.take(n as int) =~= s@);
    if slashes >= limits.depth {
        return Err(FileTreeError::InvalidRelativePath(String::from_str(path)));
    }
    Ok(String::from_str(path))
}

/// Whether an entry is a directory or a regular file.
#[derive(Clone, Copy, Debug, Eq, Ord, PartialEq, PartialOrd, Structural)]
pub enum FileTreeEntryKind {
    Directory,
    File,
}

/// One listed entry: its kind, its relative path, where its name starts in
/// the path, and the depth of the directory that lists it.
#[derive(Clone, Debug, Eq, PartialEq)]
pub struct FileTreeEntry {
    pub kind: FileTreeEntryKind,
    pub path: String,
    pub name_start: u16,
    pub depth: u16,
}

/// An entry, as values.
pub struct EntryModel {
    pub kind: FileTreeEntryKind,
    pub path: Seq<char>,
    pub name_start: u16,
    pub depth: u16,
}

impl View for FileTreeEntry {
    type V = EntryModel;

    open spec fn view(&self) -> EntryModel {
        EntryModel { kind: self.kind, path: self.path@, name_start: self.name_start, depth: self.depth }
    }
}

/// What a directory scan counted.
#[derive(Clone, Copy, Debug, Default, Eq, PartialEq, Structural)]
pub struct DirectoryReport {
    pub scanned: usize,
    pub retained: usize,
    pub path_bytes: usize,
    pub omitted: usize,
    pub errors: usize,
    pub truncated: bool,
}

/// The entries of `entries` lie strictly below directory `relative`, their
/// path bytes longer than its and within a `usize`.
pub open spec fn entries_below(relative: Seq<char>, entries: Seq<EntryModel>) -> bool {
    forall|k: int|
        0 <= k < entries.len() ==> path_bytes(relative).len() < path_bytes((#[trigger] entries[k]).path).len()
            <= usize::MAX
}

/// Each entry's name starts at a character boundary of its path.
pub open spec fn names_at_boundaries(entries: Seq<EntryModel>) -> bool {
    forall|k: int|
        0 <= k < entries.len() ==> (#[trigger] entries[k]).name_start <= path_bytes(entries[k].path).len()
            && is_char_boundary(path_bytes(entries[k].path), entries[k].name_start as int)
}

/// The listing of one directory: its relative path, its retained entries in
/// display order, what the scan counted, and its first recorded error.
pub struct DirectoryResult {
    relative: String,
    entries: Vec<FileTreeEntry>,
    report: DirectoryReport,
    first_error: Option<String>,
}

/// A listing, as values.
pub struct ListingModel {
    pub relative: Seq<char>,
    pub entries: Seq<EntryModel>,
    pub report: DirectoryReport,
    pub first_error: Option<Seq<char>>,
}

/// The model of an optional string.
pub open spec fn opt_text(s: Option<String>) -> Option<Seq<char>> {
    match s {
        Some(t) => Some(t@),
        None => None,
    }
}

impl View for DirectoryResult {
    type V = ListingModel;

    closed spec fn view(&self) -> ListingModel {
        ListingModel {
            relative: self.relative@,
            entries: self.entries@.map_values(|e: FileTreeEntry| e@),
            report: self.report,
            first_error: opt_text(self.first_error),
        }
    }
}

impl DirectoryResult {
    #[verifier::type_invariant]
    spec fn entries_are_children(self) -> bool {
        entries_below(self@.relative, self@.entries) && names_at_boundaries(self@.entries)
    }

    /// A listing of `relative` from its parts.
    pub(crate) fn from_parts(
        relative: String,
        entries: Vec<FileTreeEntry>,
        report: DirectoryReport,
        first_error: Option<String>,
    ) -> (r: Self)
        requires
            entries_below(relative@, entries@.map_values(|e: FileTreeEntry| e@)),
            names_at_boundaries(entries@.map_values(|e: FileTreeEntry| e@)),
        ensures
            r@ == (ListingModel {
                relative: relative@,
                entries: entries@.map_values(|e: FileTreeEntry| e@),
                report,
                first_error: opt_text(first_error),
            }),
    {
        DirectoryResult { relative, entries, report, first_error }
    }

    /// The directory the listing is of.
    pub fn relative(&self) -> (r: &str)
        ensures
            r@ == self@.relative,
    {
        self.relative.as_str()
    }

    /// What the scan counted.
    pub fn report(&self) -> (r: DirectoryReport)
        ensures
            r == self@.report,
    {
        self.report
    }

    /// The retained entries, in display order.
    pub fn entries(&self) -> (r: &[FileTreeEntry])
        ensures
            r@.map_values(|e: FileTreeEntry| e@) == self@.entries,
    {
        self.entries.as_slice()
    }

    /// The listing's parts: its entries, its report and its first error.
    pub(crate) fn into_parts(self) -> (r: (Vec<FileTreeEntry>, DirectoryReport, Option<String>))
        ensures
            r.0@.map_values(|e: FileTreeEntry| e@) == self@.entries,
            r.1 == self@.report,
            opt_text(r.2) == self@.first_error,
            entries_below(self@.relative, self@.entries),
            names_at_boundaries(self@.entries),
    {
        proof {
            use_type_invariant(&self);
        }
        (self.entries, self.report, self.first_error)
    }

    /// The first error the scan recorded.
    pub fn first_error(&self) -> (r: Option<&str>)
        ensures
            match r {
                Some(t) => self@.first_error == Some(t@),
                None => self@.first_error is None,
            },
    {
        match &self.first_error {
            Some(t) => Some(t.as_str()),
            None => None,
        }
    }
}

/// The identity of one directory request: the workspace, the tree
/// generation, the directory node's generation and the request's.
#[derive(Clone, Copy, Debug, Eq, PartialEq, Structural)]
pub struct FileTreeRequestIdentity {
    pub workspace: u64,
    pub tree: u64,
    pub directory: u64,
    pub request: u64,
}

/// A directory read the tree asks for.
pub struct FileTreeRequest {
    identity: FileTreeRequestIdentity,
    relative: String,
    limits: FileTreeLimits,
}

/// A request, as values.
pub struct TreeRequestModel {
    pub identity: FileTreeRequestIdentity,
    pub relative: Seq<char>,
    pub limits: FileTreeLimits,
}

impl View for FileTreeRequest {
    type V = TreeRequestModel;

    closed spec fn view(&self) -> TreeRequestModel {
        TreeRequestModel { identity: self.identity, relative: self.relative@, limits: self.limits }
    }
}

/// The model of a listing result.
pub open spec fn listing_result(r: Result<DirectoryResult, FileTreeError>) -> Result<ListingModel, FileTreeError> {
    match r {
        Ok(l) => Ok(l@),
        Err(e) => Err(e),
    }
}

impl FileTreeRequest {
    /// A request to read `relative` under `identity` with `limits`.
    pub(crate) fn new(identity: FileTreeRequestIdentity, relative: String, limits: FileTreeLimits) -> (r: Self)
        ensures
            r@ == (TreeRequestModel { identity, relative: relative@, limits }),
    {
        FileTreeRequest { identity, relative, limits }
    }

    /// The request's identity.
    pub fn identity(&self) -> (r: FileTreeRequestIdentity)
        ensures
            r == self@.identity,
    {
        self.identity
    }

    /// The directory to read, relative to the workspace root.
    pub fn relative(&self) -> (r: &str)
        ensures
            r@ == self@.relative,
    {
        self.relative.as_str()
    }

    /// The ceilings the read observes.
    pub fn limits(&self) -> (r: FileTreeLimits)
        ensures
            r == self@.limits,
    {
        self.limits
    }

    /// The request's answer: the listing read, or why reading failed.
    pub fn complete(self, result: Result<DirectoryResult, FileTreeError>) -> (r: FileTreeWorkerOutput)
        ensures
            r@.identity == self@.identity,
            r@.result == listing_result(result),
            result is Err ==> r@.relative == self@.relative,
    {
        match result {
            Ok(listing) => FileTreeWorkerOutput::completed(self.identity, listing),
            Err(e) => FileTreeWorkerOutput::failed(self.identity, self.relative, e),
        }
    }
}

/// The answer to a directory request.
pub struct FileTreeWorkerOutput {
    identity: FileTreeRequestIdentity,
    relative: String,
    result: Result<DirectoryResult, FileTreeError>,
}

/// An answer, as values.
pub struct OutputModel {
    pub identity: FileTreeRequestIdentity,
    pub relative: Seq<char>,
    pub result: Result<ListingModel, FileTreeError>,
}

impl View for FileTreeWorkerOutput {
    type V = OutputModel;

    closed spec fn view(&self) -> OutputModel {
        OutputModel { identity: self.identity, relative: self.relative@, result: listing_result(self.result) }
    }
}

impl FileTreeWorkerOutput {
    #[verifier::type_invariant]
    spec fn names_its_listing(self) -> bool {
        self.result matches Ok(listing) ==> listing@.relative == self.relative@
    }

    /// A completed read of `listing`.
    pub fn completed(identity: FileTreeRequestIdentity, listing: DirectoryResult) -> (r: Self)
        ensures
            r@.identity == identity,
            r@.relative == listing@.relative,
            r@.result == Ok::<ListingModel, FileTreeError>(listing@),
    {
        let relative = String::from_str(listing.relative());
        FileTreeWorkerOutput { identity, relative, result: Ok(listing) }
    }

    /// A failed read of `relative`.
    pub fn failed(identity: FileTreeRequestIdentity, relative: String, error: FileTreeError) -> (r: Self)
        ensures
            r@.identity == identity,
            r@.relative == relative@,
            r@.result == Err::<ListingModel, FileTreeError>(error),
    {
        FileTreeWorkerOutput { identity, relative, result: Err(error) }
    }

    /// The request this answers.
    pub fn identity(&self) -> (r: FileTreeRequestIdentity)
        ensures
            r == self@.identity,
    {
        self.identity
    }

    /// The answer's parts: the request, the directory and the result.
    pub(crate) fn into_parts(self) -> (r: (
        FileTreeRequestIdentity,
        String,
        Result<DirectoryResult, FileTreeError>,
    ))
        ensures
            r.0 == self@.identity,
            r.1@ == self@.relative,
            listing_result(r.2) == self@.result,
            r.2 matches Ok(l) ==> l@.relative == r.1@,
    {
        proof {
            use_type_invariant(&self);
        }
        (self.identity, self.relative, self.result)
    }
}

/// How the tree took a directory answer.
#[derive(Clone, Copy, Debug, Eq, PartialEq, Structural)]
pub enum FileTreeAdmission {
    Directory,
    Failed,
    Stale,
}

/// What a tree row asks of the editor.
#[derive(Clone, Debug, Eq, PartialEq)]
pub enum FileTreeAction {
    Changed,
    Open(String),
}

/// The directories a session keeps: those expanded, and the selected row.
#[derive(Clone, Debug, Default, Eq, PartialEq)]
pub struct SessionFileTree {
    pub expanded: Vec<String>,
    pub selected: Option<String>,
}

} // verus!
