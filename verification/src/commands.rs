//! Bounded command registry and palette state.
use crate::std_calls::{
    string_capacity, string_try_reserve, string_try_reserve_exact,
    vec_capacity, vec_try_reserve_exact,
};
use crate::text::{
    decimal, str_eq, trim, trim_chars, usize_saturated, usize_to_decimal, utf16_len, utf16_units,
    utf8_len,
};
use vstd::prelude::*;
use vstd::string::{StrSliceExecFns, StringExecFns};
use vstd::utf8::encode_utf8;

verus! {

/// Bound on registered commands.
pub const MAX_COMMANDS: usize = 32;

/// Bound on the bytes of a palette query.
pub const MAX_QUERY_BYTES: usize = 256;

/// Rows shown at once.
pub const MAX_VISIBLE_COMMANDS: usize = 12;

/// Rows rendered beyond each edge of the visible window.
pub const MAX_VISIBLE_OVERSCAN: usize = 3;

/// Bound on the bytes of a palette diagnostic.
pub const MAX_DIAGNOSTIC_BYTES: usize = 512;

/// Number of registered commands.
pub const REGISTRY_LEN: usize = 21;

/// Every command the palette can run.
#[derive(Clone, Copy, Debug, Eq, Ord, PartialEq, PartialOrd, Structural)]
pub enum StudioCommand {
    SaveFile,
    CloseTab,
    NavigateBack,
    NavigateForward,
    OpenQuickOpen,
    OpenProjectSearch,
    OpenFind,
    OpenReplace,
    TriggerCompletion,
    ShowRustHover,
    GoToRustDefinition,
    FindRustReferences,
    ShowRustDocumentSymbols,
    ShowRustWorkspaceSymbols,
    PreviewRustRename,
    PreviewRustFormatting,
    ToggleFileTree,
    SplitRight,
    SplitDown,
    FocusNextPane,
    ClosePane,
}

/// Which commands the editor can run right now.
#[derive(Clone, Copy, Debug, Default, Eq, PartialEq)]
pub struct CommandContext {
    pub can_save: bool,
    pub can_close_tab: bool,
    pub can_navigate_back: bool,
    pub can_navigate_forward: bool,
    pub has_workspace: bool,
    pub can_split_right: bool,
    pub can_split_down: bool,
    pub can_close_pane: bool,
    pub can_complete: bool,
}

/// Whether `command` can run in `context`.
pub open spec fn available_spec(context: CommandContext, command: StudioCommand) -> bool {
    match command {
        StudioCommand::SaveFile => context.can_save,
        StudioCommand::CloseTab => context.can_close_tab,
        StudioCommand::NavigateBack => context.can_navigate_back,
        StudioCommand::NavigateForward => context.can_navigate_forward,
        StudioCommand::OpenQuickOpen | StudioCommand::OpenProjectSearch
        | StudioCommand::ToggleFileTree => context.has_workspace,
        StudioCommand::OpenFind | StudioCommand::OpenReplace => true,
        StudioCommand::TriggerCompletion | StudioCommand::ShowRustHover
        | StudioCommand::GoToRustDefinition | StudioCommand::FindRustReferences
        | StudioCommand::ShowRustDocumentSymbols | StudioCommand::ShowRustWorkspaceSymbols
        | StudioCommand::PreviewRustRename | StudioCommand::PreviewRustFormatting => context.can_complete,
        StudioCommand::SplitRight => context.can_split_right,
        StudioCommand::SplitDown => context.can_split_down,
        StudioCommand::FocusNextPane | StudioCommand::ClosePane => context.can_close_pane,
    }
}

impl CommandContext {
    /// Whether `command` can run in this context.
    pub fn available(self, command: StudioCommand) -> (r: bool)
        ensures
            r == available_spec(self, command),
    {
        match command {
            StudioCommand::SaveFile => self.can_save,
            StudioCommand::CloseTab => self.can_close_tab,
            StudioCommand::NavigateBack => self.can_navigate_back,
            StudioCommand::NavigateForward => self.can_navigate_forward,
            StudioCommand::OpenQuickOpen | StudioCommand::OpenProjectSearch
            | StudioCommand::ToggleFileTree => self.has_workspace,
            StudioCommand::OpenFind | StudioCommand::OpenReplace => true,
            StudioCommand::TriggerCompletion | StudioCommand::ShowRustHover
            | StudioCommand::GoToRustDefinition | StudioCommand::FindRustReferences
            | StudioCommand::ShowRustDocumentSymbols | StudioCommand::ShowRustWorkspaceSymbols
            | StudioCommand::PreviewRustRename | StudioCommand::PreviewRustFormatting => self.can_complete,
            StudioCommand::SplitRight => self.can_split_right,
            StudioCommand::SplitDown => self.can_split_down,
            StudioCommand::FocusNextPane | StudioCommand::ClosePane => self.can_close_pane,
        }
    }
}

/// A registered command with its title and extra search terms.
#[derive(Clone, Copy)]
pub struct CommandSpec {
    pub command: StudioCommand,
    pub title: &'static str,
    pub search_terms: &'static str,
}

/// The registry, in registration order.
pub open spec fn registry_spec(index: usize) -> Option<CommandSpec> {
    match index {
        0 => Some(CommandSpec { command: StudioCommand::SaveFile, title: "File: Save", search_terms: "write persist" }),
        1 => Some(CommandSpec { command: StudioCommand::CloseTab, title: "File: Close Tab", search_terms: "document editor" }),
        2 => Some(CommandSpec { command: StudioCommand::NavigateBack, title: "Navigation: Go Back", search_terms: "history previous" }),
        3 => Some(CommandSpec { command: StudioCommand::NavigateForward, title: "Navigation: Go Forward", search_terms: "history next" }),
        4 => Some(CommandSpec { command: StudioCommand::OpenQuickOpen, title: "Workspace: Quick Open", search_terms: "file fuzzy path" }),
        5 => Some(CommandSpec { command: StudioCommand::OpenProjectSearch, title: "Workspace: Project Search", search_terms: "search content folder" }),
        6 => Some(CommandSpec { command: StudioCommand::OpenFind, title: "Editor: Find", search_terms: "search document" }),
        7 => Some(CommandSpec { command: StudioCommand::OpenReplace, title: "Editor: Find and Replace", search_terms: "search document change" }),
        8 => Some(CommandSpec { command: StudioCommand::TriggerCompletion, title: "Editor: Trigger Rust Completion", search_terms: "language rust analyzer suggest" }),
        9 => Some(CommandSpec { command: StudioCommand::ShowRustHover, title: "Navigation: Show Rust Hover", search_terms: "language rust analyzer documentation type" }),
        10 => Some(CommandSpec { command: StudioCommand::GoToRustDefinition, title: "Navigation: Go to Rust Definition", search_terms: "language rust analyzer source jump" }),
        11 => Some(CommandSpec { command: StudioCommand::FindRustReferences, title: "Navigation: Find Rust References", search_terms: "language rust analyzer usages source" }),
        12 => Some(CommandSpec { command: StudioCommand::ShowRustDocumentSymbols, title: "Navigation: Rust Document Symbols", search_terms: "language rust analyzer outline functions types" }),
        13 => Some(CommandSpec { command: StudioCommand::ShowRustWorkspaceSymbols, title: "Navigation: Rust Workspace Symbols", search_terms: "language rust analyzer project functions types" }),
        14 => Some(CommandSpec { command: StudioCommand::PreviewRustRename, title: "Editor: Preview Rust Rename", search_terms: "language rust analyzer symbol refactor" }),
        15 => Some(CommandSpec { command: StudioCommand::PreviewRustFormatting, title: "Editor: Preview Rust Formatting", search_terms: "language rust analyzer format document" }),
        16 => Some(CommandSpec { command: StudioCommand::ToggleFileTree, title: "Workspace: Toggle File Tree", search_terms: "sidebar explorer files" }),
        17 => Some(CommandSpec { command: StudioCommand::SplitRight, title: "Pane: Split Right", search_terms: "editor column view" }),
        18 => Some(CommandSpec { command: StudioCommand::SplitDown, title: "Pane: Split Down", search_terms: "editor row view" }),
        19 => Some(CommandSpec { command: StudioCommand::FocusNextPane, title: "Pane: Focus Next", search_terms: "editor navigate view" }),
        20 => Some(CommandSpec { command: StudioCommand::ClosePane, title: "Pane: Close", search_terms: "editor remove view" }),
        _ => None,
    }
}

/// The registered command at `index`.
pub fn registry_entry(index: usize) -> (r: Option<CommandSpec>)
    ensures
        r == registry_spec(index),
{
    match index {
        0 => Some(CommandSpec { command: StudioCommand::SaveFile, title: "File: Save", search_terms: "write persist" }),
        1 => Some(CommandSpec { command: StudioCommand::CloseTab, title: "File: Close Tab", search_terms: "document editor" }),
        2 => Some(CommandSpec { command: StudioCommand::NavigateBack, title: "Navigation: Go Back", search_terms: "history previous" }),
        3 => Some(CommandSpec { command: StudioCommand::NavigateForward, title: "Navigation: Go Forward", search_terms: "history next" }),
        4 => Some(CommandSpec { command: StudioCommand::OpenQuickOpen, title: "Workspace: Quick Open", search_terms: "file fuzzy path" }),
        5 => Some(CommandSpec { command: StudioCommand::OpenProjectSearch, title: "Workspace: Project Search", search_terms: "search content folder" }),
        6 => Some(CommandSpec { command: StudioCommand::OpenFind, title: "Editor: Find", search_terms: "search document" }),
        7 => Some(CommandSpec { command: StudioCommand::OpenReplace, title: "Editor: Find and Replace", search_terms: "search document change" }),
        8 => Some(CommandSpec { command: StudioCommand::TriggerCompletion, title: "Editor: Trigger Rust Completion", search_terms: "language rust analyzer suggest" }),
        9 => Some(CommandSpec { command: StudioCommand::ShowRustHover, title: "Navigation: Show Rust Hover", search_terms: "language rust analyzer documentation type" }),
        10 => Some(CommandSpec { command: StudioCommand::GoToRustDefinition, title: "Navigation: Go to Rust Definition", search_terms: "language rust analyzer source jump" }),
        11 => Some(CommandSpec { command: StudioCommand::FindRustReferences, title: "Navigation: Find Rust References", search_terms: "language rust analyzer usages source" }),
        12 => Some(CommandSpec { command: StudioCommand::ShowRustDocumentSymbols, title: "Navigation: Rust Document Symbols", search_terms: "language rust analyzer outline functions types" }),
        13 => Some(CommandSpec { command: StudioCommand::ShowRustWorkspaceSymbols, title: "Navigation: Rust Workspace Symbols", search_terms: "language rust analyzer project functions types" }),
        14 => Some(CommandSpec { command: StudioCommand::PreviewRustRename, title: "Editor: Preview Rust Rename", search_terms: "language rust analyzer symbol refactor" }),
        15 => Some(CommandSpec { command: StudioCommand::PreviewRustFormatting, title: "Editor: Preview Rust Formatting", search_terms: "language rust analyzer format document" }),
        16 => Some(CommandSpec { command: StudioCommand::ToggleFileTree, title: "Workspace: Toggle File Tree", search_terms: "sidebar explorer files" }),
        17 => Some(CommandSpec { command: StudioCommand::SplitRight, title: "Pane: Split Right", search_terms: "editor column view" }),
        18 => Some(CommandSpec { command: StudioCommand::SplitDown, title: "Pane: Split Down", search_terms: "editor row view" }),
        19 => Some(CommandSpec { command: StudioCommand::FocusNextPane, title: "Pane: Focus Next", search_terms: "editor navigate view" }),
        20 => Some(CommandSpec { command: StudioCommand::ClosePane, title: "Pane: Close", search_terms: "editor remove view" }),
        _ => None,
    }
}


/// ASCII lower-casing of one byte.
pub open spec fn lower(b: u8) -> u8 {
    if 65 <= b <= 90 {
        (b + 32) as u8
    } else {
        b
    }
}

fn lower_byte(b: u8) -> (r: u8)
    ensures
        r == lower(b),
{
    if 65 <= b && b <= 90 {
        b + 32
    } else {
        b
    }
}

/// ASCII white space as `u8::is_ascii_whitespace` defines it.
pub open spec fn is_ascii_ws(b: u8) -> bool {
    b == 32 || b == 9 || b == 10 || b == 12 || b == 13
}

fn ascii_ws(b: u8) -> (r: bool)
    ensures
        r == is_ascii_ws(b),
{
    b == 32 || b == 9 || b == 10 || b == 12 || b == 13
}

/// `value` starts with `query`, ignoring ASCII case.
pub open spec fn ascii_prefix_spec(value: Seq<u8>, query: Seq<u8>) -> bool {
    &&& value.len() >= query.len()
    &&& forall|i: int| 0 <= i < query.len() ==> lower(#[trigger] value[i]) == lower(query[i])
}

/// Whether `value` starts with `query`, ignoring ASCII case.
pub fn ascii_prefix(value: &[u8], query: &[u8]) -> (r: bool)
    ensures
        r == ascii_prefix_spec(value@, query@),
{
    if value.len() < query.len() {
        return false;
    }
    let mut i: usize = 0;
    while i < query.len()
        invariant
            value@.len() >= query@.len(),
            i <= query@.len(),
            forall|j: int| 0 <= j < i ==> lower(#[trigger] value@[j]) == lower(query@[j]),
        decreases query@.len() - i,
    {
        if lower_byte(value[i]) != lower_byte(query[i]) {
            return false;
        }
        i += 1;
    }
    true
}

/// Token separators: ASCII white space, and `:` in titles.
pub open spec fn is_separator(b: u8, colon: bool) -> bool {
    is_ascii_ws(b) || (colon && b == 58)
}

/// A token of `value` begins at `p`.
pub open spec fn token_start(value: Seq<u8>, p: int, colon: bool) -> bool {
    p == 0 || is_separator(value[p - 1], colon)
}

/// The token of `value` at `p` starts with `query`, ignoring ASCII case.
pub open spec fn token_prefix_at(value: Seq<u8>, query: Seq<u8>, p: int, colon: bool) -> bool {
    &&& p + query.len() <= value.len()
    &&& forall|i: int|
        0 <= i < query.len() ==> !is_separator(#[trigger] value[p + i], colon) && lower(value[p + i])
            == lower(query[i])
}

/// Some token of `value` starts with `query`, ignoring ASCII case.
pub open spec fn any_token_prefix(value: Seq<u8>, query: Seq<u8>, colon: bool) -> bool {
    exists|p: int|
        0 <= p <= value.len() && #[trigger] token_start(value, p, colon) && token_prefix_at(
            value,
            query,
            p,
            colon,
        )
}

fn token_prefix_at_exec(value: &[u8], query: &[u8], p: usize, colon: bool) -> (r: bool)
    requires
        p <= value@.len(),
    ensures
        r == token_prefix_at(value@, query@, p as int, colon),
{
    if value.len() - p < query.len() {
        return false;
    }
    let mut i: usize = 0;
    while i < query.len()
        invariant
            p + query@.len() <= value@.len(),
            value@.len() == value.len(),
            p <= value@.len(),
            i <= query@.len(),
            forall|j: int|
                0 <= j < i ==> !is_separator(#[trigger] value@[p + j], colon) && lower(value@[p + j])
                    == lower(query@[j]),
        decreases query@.len() - i,
    {
        let b = value[p + i];
        if ascii_ws(b) || (colon && b == 58) || lower_byte(b) != lower_byte(query[i]) {
            return false;
        }
        i += 1;
    }
    true
}

/// Whether some token of `value` starts with `query`, ignoring ASCII case.
pub fn any_token_prefix_exec(value: &[u8], query: &[u8], colon: bool) -> (r: bool)
    ensures
        r == any_token_prefix(value@, query@, colon),
{
    let mut p: usize = 0;
    while p < value.len()
        invariant
            p <= value@.len(),
            forall|q: int|
                0 <= q < p ==> !(#[trigger] token_start(value@, q, colon) && token_prefix_at(
                    value@,
                    query@,
                    q,
                    colon,
                )),
        decreases value@.len() - p,
    {
        let start = p == 0 || ascii_ws(value[p - 1]) || (colon && value[p - 1] == 58);
        if start && token_prefix_at_exec(value, query, p, colon) {
            assert(token_start(value@, p as int, colon));
            return true;
        }
        p += 1;
    }
    let end = value.len();
    let start = end == 0 || ascii_ws(value[end - 1]) || (colon && value[end - 1] == 58);
    if start && token_prefix_at_exec(value, query, end, colon) {
        assert(token_start(value@, end as int, colon));
        return true;
    }
    false
}

/// `query` without its ASCII white space.
pub open spec fn strip_ws(query: Seq<u8>) -> Seq<u8>
    decreases query.len(),
{
    if query.len() == 0 {
        Seq::empty()
    } else if is_ascii_ws(query.last()) {
        strip_ws(query.drop_last())
    } else {
        strip_ws(query.drop_last()).push(query.last())
    }
}

fn strip_ws_exec(query: &[u8]) -> (r: Vec<u8>)
    ensures
        r@ == strip_ws(query@),
{
    let mut out: Vec<u8> = Vec::new();
    let mut i: usize = 0;
    while i < query.len()
        invariant
            i <= query@.len(),
            out@ == strip_ws(query@.subrange(0, i as int)),
        decreases query@.len() - i,
    {
        assert(query@.subrange(0, i + 1).drop_last() =~= query@.subrange(0, i as int));
        if !ascii_ws(query[i]) {
            out.push(query[i]);
        }
        i += 1;
    }
    assert(query@.subrange(0, query@.len() as int) =~= query@);
    out
}

/// One more gap, saturating at `u16::MAX`.
pub open spec fn gap_add(gaps: u16) -> u16 {
    if gaps == u16::MAX {
        gaps
    } else {
        (gaps + 1) as u16
    }
}

/// Greedy left-to-right match of `needle[qi..]` in `value[i..]`, counting the
/// unmatched bytes after the first match.
pub open spec fn greedy_gaps(value: Seq<u8>, needle: Seq<u8>, i: int, qi: int, seen: bool, gaps: u16) -> Option<u16>
    decreases value.len() - i,
{
    if i >= value.len() || qi >= needle.len() {
        None
    } else if lower(value[i]) == lower(needle[qi]) {
        if qi + 1 >= needle.len() {
            Some(gaps)
        } else {
            greedy_gaps(value, needle, i + 1, qi + 1, true, gaps)
        }
    } else {
        greedy_gaps(value, needle, i + 1, qi, seen, if seen { gap_add(gaps) } else { gaps })
    }
}

/// Gaps of a case-insensitive subsequence match of `query`'s non-space bytes.
pub open spec fn subsequence_gaps_spec(value: Seq<u8>, query: Seq<u8>) -> Option<u16> {
    let needle = strip_ws(query);
    if needle.len() == 0 {
        None
    } else {
        greedy_gaps(value, needle, 0, 0, false, 0)
    }
}

/// Gaps of a case-insensitive subsequence match of `query`'s non-space bytes.
pub fn subsequence_gaps(value: &[u8], query: &[u8]) -> (r: Option<u16>)
    ensures
        r == subsequence_gaps_spec(value@, query@),
{
    let needle = strip_ws_exec(query);
    if needle.len() == 0 {
        return None;
    }
    let mut qi: usize = 0;
    let mut seen = false;
    let mut gaps: u16 = 0;
    let mut i: usize = 0;
    while i < value.len()
        invariant
            needle@ == strip_ws(query@),
            qi < needle@.len(),
            i <= value@.len(),
            subsequence_gaps_spec(value@, query@) == greedy_gaps(
                value@,
                needle@,
                i as int,
                qi as int,
                seen,
                gaps,
            ),
        decreases value@.len() - i,
    {
        let b = value[i];
        if lower_byte(b) == lower_byte(needle[qi]) {
            seen = true;
            if qi >= needle.len() - 1 {
                return Some(gaps);
            }
            qi += 1;
        } else if seen {
            if gaps < u16::MAX {
                gaps += 1;
            }
        }
        i += 1;
    }
    None
}

/// Rank and gaps of a command for a trimmed query: 0 for a prefix of the
/// title or terms, 1 for a token prefix, 2 for a subsequence.
pub open spec fn match_score_spec(title: Seq<u8>, terms: Seq<u8>, query: Seq<u8>) -> Option<(u8, u16)> {
    if query.len() == 0 {
        Some((0, 0))
    } else if ascii_prefix_spec(title, query) || ascii_prefix_spec(terms, query) {
        Some((0, 0))
    } else if any_token_prefix(title, query, true) || any_token_prefix(terms, query, false) {
        Some((1, 0))
    } else {
        match subsequence_gaps_spec(title, query) {
            Some(g) => Some((2, g)),
            None => match subsequence_gaps_spec(terms, query) {
                Some(g) => Some((2, g)),
                None => None,
            },
        }
    }
}

/// Rank and gaps of `spec` for a trimmed query.
pub fn match_score(spec: &CommandSpec, query: &str) -> (r: Option<(u8, u16)>)
    ensures
        r == match_score_spec(encode_utf8(spec.title@), encode_utf8(spec.search_terms@), encode_utf8(query@)),
{
    let q = query.as_bytes();
    let title = spec.title.as_bytes();
    let terms = spec.search_terms.as_bytes();
    if q.len() == 0 {
        return Some((0, 0));
    }
    if ascii_prefix(title, q) || ascii_prefix(terms, q) {
        return Some((0, 0));
    }
    if any_token_prefix_exec(title, q, true) || any_token_prefix_exec(terms, q, false) {
        return Some((1, 0));
    }
    match subsequence_gaps(title, q) {
        Some(g) => Some((2, g)),
        None => match subsequence_gaps(terms, q) {
            Some(g) => Some((2, g)),
            None => None,
        },
    }
}


/// A command that matched the query, ordered by rank, then gaps, then
/// registration.
#[derive(Clone, Copy, Debug, Eq, PartialEq, Structural)]
pub struct CommandMatch {
    pub registry_index: u8,
    pub rank: u8,
    pub gaps: u16,
}

/// The palette's order on matches.
pub open spec fn key_lt(a: CommandMatch, b: CommandMatch) -> bool {
    a.rank < b.rank || (a.rank == b.rank && (a.gaps < b.gaps || (a.gaps == b.gaps
        && a.registry_index < b.registry_index)))
}

/// `m` is the match of an available registered command for `query`.
pub open spec fn candidate(query: Seq<u8>, context: CommandContext, m: CommandMatch) -> bool {
    registry_spec(m.registry_index as usize) matches Some(spec) && available_spec(context, spec.command)
        && match_score_spec(encode_utf8(spec.title@), encode_utf8(spec.search_terms@), query) == Some(
        (m.rank, m.gaps),
    )
}

/// `v` holds exactly the candidates for `query`, in the palette's order.
pub open spec fn ranked(query: Seq<u8>, context: CommandContext, v: Seq<CommandMatch>) -> bool {
    &&& forall|i: int, j: int| 0 <= i < j < v.len() ==> key_lt(#[trigger] v[i], #[trigger] v[j])
    &&& forall|m: CommandMatch| v.contains(m) <==> candidate(query, context, m)
}

/// The ranked matches of `query`'s trimmed bytes.
pub open spec fn ranked_for(query: Seq<char>, context: CommandContext, v: Seq<CommandMatch>) -> bool {
    ranked(encode_utf8(trim_chars(query)), context, v)
}

/// Why a palette operation failed.
#[derive(Clone, Debug, Eq, PartialEq, Structural)]
pub enum CommandPaletteError {
    QueryTooLong { actual: usize, limit: usize },
    AllocationFailed,
    MissingSelection,
    Unavailable(StudioCommand),
    InvalidComposition,
}

/// Ranks the available registered commands against the trimmed query.
pub fn rank_matches(query: &str, context: CommandContext) -> (r: Result<Vec<CommandMatch>, CommandPaletteError>)
    ensures
        r matches Ok(v) ==> ranked_for(query@, context, v@) && v@.len() <= REGISTRY_LEN,
        r matches Err(e) ==> e == CommandPaletteError::AllocationFailed,
{
    let trimmed = trim(query);
    let ghost q = encode_utf8(trimmed@);
    let mut matches: Vec<CommandMatch> = Vec::new();
    if vec_try_reserve_exact(&mut matches, REGISTRY_LEN).is_err() {
        return Err(CommandPaletteError::AllocationFailed);
    }
    let mut index: usize = 0;
    while index < REGISTRY_LEN
        invariant
            q == encode_utf8(trim_chars(query@)),
            q == encode_utf8(trimmed@),
            index <= REGISTRY_LEN,
            matches@.len() <= index,
            forall|i: int, j: int|
                0 <= i < j < matches@.len() ==> key_lt(#[trigger] matches@[i], #[trigger] matches@[j]),
            forall|i: int| 0 <= i < matches@.len() ==> (#[trigger] matches@[i]).registry_index < index,
            forall|m: CommandMatch|
                matches@.contains(m) <==> (candidate(q, context, m) && (m.registry_index as int) < index),
        decreases REGISTRY_LEN - index,
    {
        let spec = match registry_entry(index) {
            Some(spec) => spec,
            None => {
                return Err(CommandPaletteError::AllocationFailed);
            },
        };
        if context.available(spec.command) {
            let score = match_score(&spec, trimmed);
            assert(score == match_score_spec(encode_utf8(spec.title@), encode_utf8(spec.search_terms@), q));
            if let Some((rank, gaps)) = score {
                let m = CommandMatch { registry_index: index as u8, rank, gaps };
                assert(m.registry_index as int == index);
                let mut pos: usize = 0;
                while pos < matches.len() && (matches[pos].rank < rank || (matches[pos].rank == rank
                    && matches[pos].gaps < gaps) || (matches[pos].rank == rank && matches[pos].gaps
                    == gaps))
                    invariant
                        pos <= matches@.len(),
                        index < REGISTRY_LEN,
                        m.registry_index as int == index,
                        m.rank == rank,
                        m.gaps == gaps,
                        forall|i: int| 0 <= i < matches@.len() ==> (#[trigger] matches@[i]).registry_index < index,
                        forall|k: int| 0 <= k < pos ==> key_lt(#[trigger] matches@[k], m),
                    decreases matches@.len() - pos,
                {
                    pos += 1;
                }
                let ghost before = matches@;
                matches.insert(pos, m);
                proof {
                    assert forall|k: int| pos <= k < before.len() implies key_lt(m, #[trigger] before[k]) by {
                        if k > pos as int {
                            assert(key_lt(before[pos as int], before[k]));
                        }
                    }
                    assert forall|i: int, j: int| 0 <= i < j < matches@.len() implies key_lt(
                        #[trigger] matches@[i],
                        #[trigger] matches@[j],
                    ) by {
                        if j < pos {
                        } else if j == pos {
                        } else if i < pos {
                            assert(key_lt(before[i], m));
                        } else if i == pos {
                        } else {
                            assert(key_lt(before[i - 1], before[j - 1]));
                        }
                    }
                    assert forall|x: CommandMatch| matches@.contains(x) <==> (candidate(q, context, x)
                        && (x.registry_index as int) < index + 1) by {
                        if matches@.contains(x) {
                            let k = choose|k: int| 0 <= k < matches@.len() && matches@[k] == x;
                            if k < pos {
                                assert(before[k] == x);
                            } else if k > pos {
                                assert(before[k - 1] == x);
                            }
                        }
                        if candidate(q, context, x) && (x.registry_index as int) < index + 1 {
                            if (x.registry_index as int) < index {
                                let k = choose|k: int| 0 <= k < before.len() && before[k] == x;
                                if k < pos {
                                    assert(matches@[k] == x);
                                } else {
                                    assert(matches@[k + 1] == x);
                                }
                            } else {
                                assert(x.registry_index == m.registry_index);
                                assert(registry_spec(x.registry_index as usize) == Some(spec));
                                assert(match_score_spec(encode_utf8(spec.title@), encode_utf8(spec.search_terms@), q) == Some((rank, gaps)));
                                assert(x.rank == rank);
                                assert(x == m);
                                assert(matches@[pos as int] == x);
                            }
                        }
                    }
                    assert forall|i: int| 0 <= i < matches@.len() implies (#[trigger] matches@[i]).registry_index
                        < index + 1 by {
                        if i < pos {
                        } else if i > pos {
                            assert(matches@[i] == before[i - 1]);
                        }
                    }
                }
            }
        }
        index += 1;
    }
    Ok(matches)
}


/// The text of a palette error.
pub open spec fn error_message(e: CommandPaletteError) -> Seq<char> {
    match e {
        CommandPaletteError::QueryTooLong { actual, limit } => "command query is "@ + decimal(
            actual as nat,
        ) + " bytes; limit is "@ + decimal(limit as nat),
        CommandPaletteError::AllocationFailed => "command palette allocation failed"@,
        CommandPaletteError::MissingSelection => "command palette has no selection"@,
        CommandPaletteError::Unavailable(command) => "command is unavailable: "@ + command_name_spec(
            command,
        )@,
        CommandPaletteError::InvalidComposition => "command palette composition range is invalid"@,
    }
}

impl CommandPaletteError {
    /// A human-readable description.
    pub fn message(&self) -> (m: String)
        ensures
            m@ == error_message(*self),
    {
        match self {
            CommandPaletteError::QueryTooLong { actual, limit } => {
                let mut m = String::from_str("command query is ");
                m.append(usize_to_decimal(*actual).as_str());
                m.append(" bytes; limit is ");
                m.append(usize_to_decimal(*limit).as_str());
                m
            },
            CommandPaletteError::AllocationFailed => String::from_str("command palette allocation failed"),
            CommandPaletteError::MissingSelection => String::from_str("command palette has no selection"),
            CommandPaletteError::Unavailable(command) => {
                let mut m = String::from_str("command is unavailable: ");
                m.append(command_name(*command));
                m
            },
            CommandPaletteError::InvalidComposition => String::from_str(
                "command palette composition range is invalid",
            ),
        }
    }
}

/// The variant name of a command, as `Debug` writes it.
pub open spec fn command_name_spec(command: StudioCommand) -> &'static str {
    match command {
        StudioCommand::SaveFile => "SaveFile",
        StudioCommand::CloseTab => "CloseTab",
        StudioCommand::NavigateBack => "NavigateBack",
        StudioCommand::NavigateForward => "NavigateForward",
        StudioCommand::OpenQuickOpen => "OpenQuickOpen",
        StudioCommand::OpenProjectSearch => "OpenProjectSearch",
        StudioCommand::OpenFind => "OpenFind",
        StudioCommand::OpenReplace => "OpenReplace",
        StudioCommand::TriggerCompletion => "TriggerCompletion",
        StudioCommand::ShowRustHover => "ShowRustHover",
        StudioCommand::GoToRustDefinition => "GoToRustDefinition",
        StudioCommand::FindRustReferences => "FindRustReferences",
        StudioCommand::ShowRustDocumentSymbols => "ShowRustDocumentSymbols",
        StudioCommand::ShowRustWorkspaceSymbols => "ShowRustWorkspaceSymbols",
        StudioCommand::PreviewRustRename => "PreviewRustRename",
        StudioCommand::PreviewRustFormatting => "PreviewRustFormatting",
        StudioCommand::ToggleFileTree => "ToggleFileTree",
        StudioCommand::SplitRight => "SplitRight",
        StudioCommand::SplitDown => "SplitDown",
        StudioCommand::FocusNextPane => "FocusNextPane",
        StudioCommand::ClosePane => "ClosePane",
    }
}

/// The variant name of a command, as `Debug` writes it.
pub fn command_name(command: StudioCommand) -> (name: &'static str)
    ensures
        name == command_name_spec(command),
{
    let name = match command {
        StudioCommand::SaveFile => "SaveFile",
        StudioCommand::CloseTab => "CloseTab",
        StudioCommand::NavigateBack => "NavigateBack",
        StudioCommand::NavigateForward => "NavigateForward",
        StudioCommand::OpenQuickOpen => "OpenQuickOpen",
        StudioCommand::OpenProjectSearch => "OpenProjectSearch",
        StudioCommand::OpenFind => "OpenFind",
        StudioCommand::OpenReplace => "OpenReplace",
        StudioCommand::TriggerCompletion => "TriggerCompletion",
        StudioCommand::ShowRustHover => "ShowRustHover",
        StudioCommand::GoToRustDefinition => "GoToRustDefinition",
        StudioCommand::FindRustReferences => "FindRustReferences",
        StudioCommand::ShowRustDocumentSymbols => "ShowRustDocumentSymbols",
        StudioCommand::ShowRustWorkspaceSymbols => "ShowRustWorkspaceSymbols",
        StudioCommand::PreviewRustRename => "PreviewRustRename",
        StudioCommand::PreviewRustFormatting => "PreviewRustFormatting",
        StudioCommand::ToggleFileTree => "ToggleFileTree",
        StudioCommand::SplitRight => "SplitRight",
        StudioCommand::SplitDown => "SplitDown",
        StudioCommand::FocusNextPane => "FocusNextPane",
        StudioCommand::ClosePane => "ClosePane",
    };
    name
}


/// A row of the palette's visible window.
#[derive(Clone, Copy, Debug, Eq, PartialEq)]
pub struct CommandRow {
    pub command: StudioCommand,
    pub title: &'static str,
    pub selected: bool,
}

/// Accounting of the palette.
#[derive(Clone, Copy, Debug, Default, Eq, PartialEq)]
pub struct CommandPaletteReport {
    pub query_bytes: usize,
    pub composition_bytes: usize,
    pub retained_matches: usize,
    pub retained_bytes: usize,
    pub peak_retained_bytes: usize,
    pub visible_rows: usize,
    pub executions: u64,
    pub cancellations: u64,
    pub truncations: u64,
}

/// The palette's state, as values.
#[verifier::ext_equal]
pub struct PaletteModel {
    pub open: bool,
    pub query: Seq<char>,
    pub composition: Option<Seq<char>>,
    pub matches: Seq<CommandMatch>,
    pub selected: usize,
    pub first_visible: usize,
    pub executions: u64,
    pub cancellations: u64,
    pub truncations: u64,
    pub fail_next_open: bool,
    pub fail_next_query_update: bool,
}

/// One more, saturating at `u64::MAX`.
pub open spec fn count_add(n: u64) -> u64 {
    if n == u64::MAX {
        n
    } else {
        (n + 1) as u64
    }
}

/// A closed palette that retains nothing.
pub open spec fn released(m: PaletteModel) -> PaletteModel {
    PaletteModel {
        open: false,
        query: Seq::empty(),
        composition: None,
        matches: Seq::empty(),
        selected: 0,
        first_visible: 0,
        ..m
    }
}

/// The effect of replacing the query of `before` with `query`.
pub open spec fn replace_effect(
    before: PaletteModel,
    query: Seq<char>,
    context: CommandContext,
    after: PaletteModel,
    r: Result<bool, CommandPaletteError>,
) -> bool {
    if before.fail_next_query_update {
        r == Err::<bool, CommandPaletteError>(CommandPaletteError::AllocationFailed) && after == (
        PaletteModel { fail_next_query_update: false, ..before })
    } else {
        ||| r == Err::<bool, CommandPaletteError>(CommandPaletteError::AllocationFailed) && after == before
        ||| r == Ok::<bool, CommandPaletteError>(query != before.query) && ranked_for(
            query,
            context,
            after.matches,
        ) && after == (PaletteModel {
            query,
            matches: after.matches,
            selected: 0,
            first_visible: 0,
            ..before
        })
    }
}

/// The effect of re-ranking the query of an open palette in `context`.
pub open spec fn refresh_effect(
    before: PaletteModel,
    context: CommandContext,
    after: PaletteModel,
    r: Result<bool, CommandPaletteError>,
) -> bool {
    if !before.open {
        r == Ok::<bool, CommandPaletteError>(false) && after == before
    } else {
        ||| r == Err::<bool, CommandPaletteError>(CommandPaletteError::AllocationFailed) && after == before
        ||| {
            let len = after.matches.len();
            let selected = if before.selected < (if len == 0 { 0 } else { len - 1 }) {
                before.selected as int
            } else if len == 0 {
                0
            } else {
                len - 1
            };
            &&& r == Ok::<bool, CommandPaletteError>(after.matches != before.matches)
            &&& ranked_for(before.query, context, after.matches)
            &&& after == (PaletteModel {
                matches: after.matches,
                selected: selected as usize,
                first_visible: if before.first_visible < selected {
                    before.first_visible
                } else {
                    selected as usize
                },
                ..before
            })
        }
    }
}

/// The selection after one step of navigation.
pub open spec fn navigate_selected(m: PaletteModel, forward: bool) -> usize {
    let len = m.matches.len();
    if forward {
        ((m.selected + 1) % (len as int)) as usize
    } else if m.selected == 0 {
        (len - 1) as usize
    } else {
        (m.selected - 1) as usize
    }
}

/// The window start after the selection moved to `selected`.
pub open spec fn navigate_first_visible(first_visible: usize, selected: usize) -> usize {
    let limit = if first_visible + MAX_VISIBLE_COMMANDS > usize::MAX {
        usize::MAX as int
    } else {
        first_visible + MAX_VISIBLE_COMMANDS
    };
    let scrolled = if selected >= limit {
        if selected + 1 > MAX_VISIBLE_COMMANDS {
            (selected + 1 - MAX_VISIBLE_COMMANDS) as usize
        } else {
            0
        }
    } else {
        first_visible
    };
    if scrolled < selected {
        scrolled
    } else {
        selected
    }
}

pub open spec fn sat_add(a: usize, b: int) -> usize {
    if a + b > usize::MAX {
        usize::MAX
    } else {
        (a + b) as usize
    }
}

pub open spec fn sat_sub(a: usize, b: usize) -> usize {
    if a < b {
        0
    } else {
        (a - b) as usize
    }
}

/// First match shown, overscan included.
pub open spec fn window_start(m: PaletteModel) -> usize {
    sat_sub(m.first_visible, MAX_VISIBLE_OVERSCAN)
}

/// One past the last match shown, overscan included.
pub open spec fn window_end(m: PaletteModel) -> usize {
    let start = window_start(m);
    let a = sat_add(sat_add(m.first_visible, MAX_VISIBLE_COMMANDS as int), MAX_VISIBLE_OVERSCAN as int);
    let b = if a < m.matches.len() {
        a
    } else {
        m.matches.len() as usize
    };
    let c = sat_add(start, (MAX_VISIBLE_COMMANDS + 2 * MAX_VISIBLE_OVERSCAN) as int);
    if b < c {
        b
    } else {
        c
    }
}

/// The visible row for the match at `k`.
pub open spec fn row_at(m: PaletteModel, k: int) -> Option<CommandRow> {
    match registry_spec(m.matches[k].registry_index as usize) {
        Some(spec) => Some(CommandRow { command: spec.command, title: spec.title, selected: k == m.selected }),
        None => None,
    }
}

/// The text the palette shows: the prompt, query, preedit and match count.
pub open spec fn palette_display(m: PaletteModel) -> Seq<char> {
    let composition = match m.composition {
        Some(c) => c,
        None => Seq::empty(),
    };
    "> "@ + m.query + composition + " | "@ + decimal(m.matches.len()) + " commands"@
}

/// What a palette retains when its query, preedit text and match list
/// were given room for `query` bytes, `composition` bytes and `matches`
/// records, saturating.
pub open spec fn palette_retained(query: nat, composition: nat, matches: nat) -> int {
    usize_saturated((query + composition + matches * vstd::layout::size_of::<CommandMatch>()) as int)
}

/// `retained` is what palette `m` retains for some room its allocations
/// were given: at least its query, its preedit text (none without one) and
/// its matches.
pub open spec fn palette_retention(m: PaletteModel, retained: int) -> bool {
    exists|query: nat, composition: nat, matches: nat|
        query >= utf8_len(m.query) && composition >= composition_len(m.composition) && (m.composition is None
            ==> composition == 0) && matches >= m.matches.len() && #[trigger] palette_retained(
            query,
            composition,
            matches,
        ) == retained
}

/// The larger of `a` and `b`.
pub open spec fn at_least(a: int, b: int) -> int {
    if a >= b {
        a
    } else {
        b
    }
}

/// Bytes of an optional preedit text.
pub open spec fn composition_len(composition: Option<Seq<char>>) -> nat {
    match composition {
        Some(c) => utf8_len(c),
        None => 0,
    }
}

spec fn opt_view(composition: Option<String>) -> Option<Seq<char>> {
    match composition {
        Some(c) => Some(c@),
        None => None,
    }
}

/// The query and the preedit text, which together stay within the query
/// bound.
struct QueryText {
    query: String,
    composition: Option<String>,
}

impl QueryText {
    #[verifier::type_invariant]
    spec fn within_bound(self) -> bool {
        utf8_len(self.query@) + composition_len(opt_view(self.composition)) <= MAX_QUERY_BYTES
    }

    fn empty() -> (t: QueryText)
        ensures
            t.query@ == Seq::<char>::empty(),
            t.composition is None,
    {
        QueryText { query: String::new(), composition: None }
    }

    /// Moves the query out, leaving both texts empty.
    fn take_query(&mut self) -> (query: String)
        ensures
            query@ == old(self).query@,
            utf8_len(query@) + composition_len(opt_view(old(self).composition)) <= MAX_QUERY_BYTES,
            final(self).query@ == Seq::<char>::empty(),
            final(self).composition is None,
    {
        proof {
            use_type_invariant(&*self);
        }
        let mut current = QueryText::empty();
        std::mem::swap(&mut current, self);
        proof {
            use_type_invariant(&current);
        }
        let QueryText { query, composition: _ } = current;
        query
    }

    fn set(&mut self, query: String, composition: Option<String>)
        requires
            utf8_len(query@) + composition_len(opt_view(composition)) <= MAX_QUERY_BYTES,
        ensures
            final(self).query@ == query@,
            opt_view(final(self).composition) == opt_view(composition),
    {
        *self = QueryText { query, composition };
    }

    fn set_composition(&mut self, composition: Option<String>)
        requires
            utf8_len(old(self).query@) + composition_len(opt_view(composition)) <= MAX_QUERY_BYTES,
        ensures
            final(self).query@ == old(self).query@,
            opt_view(final(self).composition) == opt_view(composition),
    {
        let query = self.take_query();
        self.set(query, composition);
    }
}

/// The command palette: a query over the registry, its ranked matches and a
/// selection within a scrolled window.
pub struct CommandPalette {
    open: bool,
    text: QueryText,
    /// Ranked matches of the query.
    pub matches: Vec<CommandMatch>,
    /// Index of the selected match.
    pub selected: usize,
    /// Index of the first match in the visible window.
    pub first_visible: usize,
    peak_retained_bytes: usize,
    executions: u64,
    cancellations: u64,
    truncations: u64,
    fail_next_open: bool,
    fail_next_query_update: bool,
}

impl View for CommandPalette {
    type V = PaletteModel;

    closed spec fn view(&self) -> PaletteModel {
        PaletteModel {
            open: self.open,
            query: self.text.query@,
            composition: opt_view(self.text.composition),
            matches: self.matches@,
            selected: self.selected,
            first_visible: self.first_visible,
            executions: self.executions,
            cancellations: self.cancellations,
            truncations: self.truncations,
            fail_next_open: self.fail_next_open,
            fail_next_query_update: self.fail_next_query_update,
        }
    }
}

impl Default for CommandPalette {
    fn default() -> (p: Self)
        ensures
            p@ == released(p@),
            p@.executions == 0 && p@.cancellations == 0 && p@.truncations == 0,
            !p@.fail_next_open && !p@.fail_next_query_update,
            p.peak_retained() == 0,
    {
        Self {
            open: false,
            text: QueryText::empty(),
            matches: Vec::new(),
            selected: 0,
            first_visible: 0,
            peak_retained_bytes: 0,
            executions: 0,
            cancellations: 0,
            truncations: 0,
            fail_next_open: false,
            fail_next_query_update: false,
        }
    }
}

impl CommandPalette {
    /// The most bytes the palette was seen to retain.
    pub closed spec fn peak_retained(&self) -> usize {
        self.peak_retained_bytes
    }

    /// Whether the palette is open.
    pub fn is_open(&self) -> (open: bool)
        ensures
            open == self@.open,
    {
        self.open
    }

    /// Makes the next `open` fail as an allocation failure would.
    pub fn fail_next_open(&mut self)
        ensures
            final(self)@ == (PaletteModel { fail_next_open: true, ..old(self)@ }),
    {
        self.fail_next_open = true;
    }

    /// Makes the next query replacement fail as an allocation failure would.
    pub fn fail_next_query_update(&mut self)
        ensures
            final(self)@ == (PaletteModel { fail_next_query_update: true, ..old(self)@ }),
    {
        self.fail_next_query_update = true;
    }

    /// Opens the palette with an empty query that matches every available
    /// command; an open palette is left as it is.
    pub fn open(&mut self, context: CommandContext) -> (r: Result<bool, CommandPaletteError>)
        ensures
            old(self)@.fail_next_open ==> r == Err::<bool, CommandPaletteError>(
                CommandPaletteError::AllocationFailed,
            ) && final(self)@ == (PaletteModel { fail_next_open: false, ..old(self)@ }),
            !old(self)@.fail_next_open && old(self)@.open ==> r == Ok::<bool, CommandPaletteError>(false)
                && final(self)@ == old(self)@,
            !old(self)@.fail_next_open && !old(self)@.open ==> {
                ||| r == Err::<bool, CommandPaletteError>(CommandPaletteError::AllocationFailed)
                    && final(self)@ == old(self)@
                ||| r == Ok::<bool, CommandPaletteError>(true) && ranked_for(
                    Seq::empty(),
                    context,
                    final(self)@.matches,
                ) && final(self)@ == (PaletteModel {
                    open: true,
                    query: Seq::empty(),
                    composition: None,
                    matches: final(self)@.matches,
                    selected: 0,
                    first_visible: 0,
                    ..old(self)@
                })
            },
    {
        if self.fail_next_open {
            self.fail_next_open = false;
            return Err(CommandPaletteError::AllocationFailed);
        }
        if self.open {
            return Ok(false);
        }
        let empty = "";
        proof {
            reveal_strlit("");
        }
        let matches = rank_matches(empty, context)?;
        self.open = true;
        self.text = QueryText::empty();
        self.matches = matches;
        self.selected = 0;
        self.first_visible = 0;
        self.observe_peak();
        Ok(true)
    }

    /// Closes an open palette and releases what it retains.
    pub fn cancel(&mut self) -> (changed: bool)
        ensures
            changed == old(self)@.open,
            !old(self)@.open ==> final(self)@ == old(self)@,
            old(self)@.open ==> final(self)@ == released(
                PaletteModel { cancellations: count_add(old(self)@.cancellations), ..old(self)@ },
            ),
    {
        if !self.open {
            return false;
        }
        if self.cancellations < u64::MAX {
            self.cancellations = self.cancellations + 1;
        }
        self.release();
        true
    }

    /// Starts an input-method composition in an open palette.
    pub fn begin_composition(&mut self) -> (started: bool)
        ensures
            started == (old(self)@.open && old(self)@.composition is None),
            started ==> final(self)@ == (PaletteModel { composition: Some(Seq::empty()), ..old(self)@ }),
            !started ==> final(self)@ == old(self)@,
    {
        if !self.open || self.text.composition.is_some() {
            false
        } else {
            proof {
                use_type_invariant(&self.text);
            }
            self.text.set_composition(Some(String::new()));
            true
        }
    }

    /// Replaces the composition text, after checking its selected range and
    /// the query bound.
    pub fn update_composition(&mut self, text: &str, selected_start_utf16: u32, selected_length_utf16: u32) -> (r:
        Result<bool, CommandPaletteError>)
        ensures
            ({
                let end = selected_start_utf16 + selected_length_utf16;
                let total = sat_add(utf8_len(old(self)@.query) as usize, utf8_len(text@) as int);
                if end > u32::MAX || utf16_len(text@) > u32::MAX || end > utf16_len(text@) {
                    r == Err::<bool, CommandPaletteError>(CommandPaletteError::InvalidComposition)
                        && final(self)@ == old(self)@
                } else if total > MAX_QUERY_BYTES {
                    r == Err::<bool, CommandPaletteError>(
                        CommandPaletteError::QueryTooLong { actual: total, limit: MAX_QUERY_BYTES },
                    ) && final(self)@ == old(self)@
                } else if old(self)@.composition == Some(text@) {
                    r == Ok::<bool, CommandPaletteError>(false) && final(self)@ == old(self)@
                } else {
                    ||| r == Err::<bool, CommandPaletteError>(CommandPaletteError::AllocationFailed)
                        && final(self)@ == old(self)@
                    ||| r == Ok::<bool, CommandPaletteError>(true) && final(self)@ == (PaletteModel {
                        composition: Some(text@),
                        ..old(self)@
                    })
                }
            }),
    {
        if selected_start_utf16 > u32::MAX - selected_length_utf16 {
            return Err(CommandPaletteError::InvalidComposition);
        }
        let selected_end = selected_start_utf16 + selected_length_utf16;
        let text_units = match utf16_units(text) {
            Some(n) => n,
            None => return Err(CommandPaletteError::InvalidComposition),
        };
        if selected_end > text_units {
            return Err(CommandPaletteError::InvalidComposition);
        }
        proof {
            use_type_invariant(&self.text);
        }
        let query_len = self.text.query.as_str().len();
        let text_len = text.as_bytes().len();
        let total = if query_len > usize::MAX - text_len {
            usize::MAX
        } else {
            query_len + text_len
        };
        Self::check_query_length(total)?;
        let changed = match &self.text.composition {
            Some(current) => !str_eq(current.as_str(), text),
            None => true,
        };
        if changed {
            let mut composition = String::new();
            if string_try_reserve_exact(&mut composition, text_len).is_err() {
                return Err(CommandPaletteError::AllocationFailed);
            }
            composition.append(text);
            self.text.set_composition(Some(composition));
            self.observe_peak();
        }
        Ok(changed)
    }

    /// Ends the composition, reporting whether there was one.
    pub fn cancel_composition(&mut self) -> (had: bool)
        ensures
            had == old(self)@.composition is Some,
            final(self)@ == (PaletteModel { composition: None, ..old(self)@ }),
    {
        let had = self.text.composition.is_some();
        proof {
            use_type_invariant(&self.text);
        }
        self.text.set_composition(None);
        had
    }

    /// Appends committed text to the query of an open palette and re-ranks.
    pub fn commit_text(&mut self, text: &str, context: CommandContext) -> (r: Result<bool, CommandPaletteError>)
        ensures
            ({
                let next = utf8_len(old(self)@.query) + utf8_len(text@);
                let cleared = PaletteModel { composition: None, ..old(self)@ };
                if !old(self)@.open {
                    r == Ok::<bool, CommandPaletteError>(false) && final(self)@ == old(self)@
                } else if next > usize::MAX {
                    r == Err::<bool, CommandPaletteError>(
                        CommandPaletteError::QueryTooLong { actual: usize::MAX, limit: MAX_QUERY_BYTES },
                    ) && final(self)@ == old(self)@
                } else if next > MAX_QUERY_BYTES {
                    r == Err::<bool, CommandPaletteError>(
                        CommandPaletteError::QueryTooLong { actual: next as usize, limit: MAX_QUERY_BYTES },
                    ) && final(self)@ == old(self)@
                } else if text@.len() == 0 {
                    r == Ok::<bool, CommandPaletteError>(false) && final(self)@ == cleared
                } else {
                    ||| r == Err::<bool, CommandPaletteError>(CommandPaletteError::AllocationFailed)
                        && final(self)@ == cleared
                    ||| replace_effect(cleared, old(self)@.query + text@, context, final(self)@, r)
                }
            }),
    {
        if !self.open {
            return Ok(false);
        }
        proof {
            use_type_invariant(&self.text);
        }
        let query_len = self.text.query.as_str().len();
        let text_len = text.as_bytes().len();
        if query_len > usize::MAX - text_len {
            return Err(CommandPaletteError::QueryTooLong { actual: usize::MAX, limit: MAX_QUERY_BYTES });
        }
        let next_length = query_len + text_len;
        Self::check_query_length(next_length)?;
        proof {
            use_type_invariant(&self.text);
        }
        self.text.set_composition(None);
        if text.is_empty() {
            return Ok(false);
        }
        let mut query = String::new();
        if string_try_reserve_exact(&mut query, next_length).is_err() {
            return Err(CommandPaletteError::AllocationFailed);
        }
        query.append(self.text.query.as_str());
        query.append(text);
        proof {
            crate::text::lemma_encode_concat(old(self)@.query, text@);
        }
        self.replace_query(query, context)
    }

    /// Removes the last character of the query and re-ranks.
    pub fn delete_backward(&mut self, context: CommandContext) -> (r: Result<bool, CommandPaletteError>)
        ensures
            ({
                let cleared = PaletteModel { composition: None, ..old(self)@ };
                ||| r == Err::<bool, CommandPaletteError>(CommandPaletteError::AllocationFailed)
                    && final(self)@ == cleared
                ||| old(self)@.query.len() == 0 && r == Ok::<bool, CommandPaletteError>(false)
                    && final(self)@ == cleared
                ||| old(self)@.query.len() > 0 && replace_effect(
                    cleared,
                    old(self)@.query.drop_last(),
                    context,
                    final(self)@,
                    r,
                )
            }),
    {
        proof {
            use_type_invariant(&self.text);
        }
        self.text.set_composition(None);
        proof {
            use_type_invariant(&self.text);
        }
        let length = self.text.query.as_str().len();
        let mut copy = String::new();
        if string_try_reserve_exact(&mut copy, length).is_err() {
            return Err(CommandPaletteError::AllocationFailed);
        }
        copy.append(self.text.query.as_str());
        let chars = copy.as_str().unicode_len();
        if chars == 0 {
            return Ok(false);
        }
        let shorter = String::from_str(copy.as_str().substring_char(0, chars - 1));
        assert(shorter@ =~= old(self)@.query.drop_last());
        proof {
            let q = old(self)@.query;
            assert(q =~= q.drop_last() + seq![q.last()]);
            crate::text::lemma_encode_concat(q.drop_last(), seq![q.last()]);
        }
        self.replace_query(shorter, context)
    }

    /// Re-ranks the query of an open palette in `context`, keeping the
    /// selection within the new matches.
    pub fn refresh(&mut self, context: CommandContext) -> (r: Result<bool, CommandPaletteError>)
        ensures
            refresh_effect(old(self)@, context, final(self)@, r),
    {
        if !self.open {
            return Ok(false);
        }
        let matches = rank_matches(self.text.query.as_str(), context)?;
        let changed = !vec_matches_eq(&matches, &self.matches);
        self.matches = matches;
        let last = if self.matches.len() == 0 {
            0
        } else {
            self.matches.len() - 1
        };
        if self.selected > last {
            self.selected = last;
        }
        if self.first_visible > self.selected {
            self.first_visible = self.selected;
        }
        self.observe_peak();
        Ok(changed)
    }

    /// Moves the selection one match forward or back, wrapping, and scrolls
    /// the window to keep it visible.
    pub fn navigate(&mut self, forward: bool) -> (moved: bool)
        ensures
            old(self)@.matches.len() == 0 ==> !moved && final(self)@ == old(self)@,
            old(self)@.matches.len() > 0 ==> {
                let selected = navigate_selected(old(self)@, forward);
                &&& moved == (selected != old(self)@.selected)
                &&& final(self)@ == (PaletteModel {
                    selected,
                    first_visible: navigate_first_visible(old(self)@.first_visible, selected),
                    ..old(self)@
                })
            },
    {
        if self.matches.len() == 0 {
            return false;
        }
        let previous = self.selected;
        let len = self.matches.len();
        proof {
            vstd::arithmetic::div_mod::lemma_add_mod_noop(previous as int, 1, len as int);
            if len > 1 {
                vstd::arithmetic::div_mod::lemma_small_mod(1, len as nat);
            } else {
                vstd::arithmetic::div_mod::lemma_mod_self_0(1);
                vstd::arithmetic::div_mod::lemma_mod_bound(previous as int, 1);
                vstd::arithmetic::div_mod::lemma_mod_bound(previous as int + 1, 1);
                vstd::arithmetic::div_mod::lemma_mod_bound(previous as int % 1 + 1, 1);
            }
        }
        self.selected = if forward {
            (self.selected % len + 1) % len
        } else if self.selected == 0 {
            self.matches.len() - 1
        } else {
            self.selected - 1
        };
        let limit = if self.first_visible > usize::MAX - MAX_VISIBLE_COMMANDS {
            usize::MAX
        } else {
            self.first_visible + MAX_VISIBLE_COMMANDS
        };
        if self.selected >= limit {
            self.first_visible = if self.selected + 1 > MAX_VISIBLE_COMMANDS {
                self.selected + 1 - MAX_VISIBLE_COMMANDS
            } else {
                0
            };
        }
        if self.first_visible > self.selected {
            self.first_visible = self.selected;
        }
        self.selected != previous
    }

    /// Runs the selected match's command.
    pub fn execute_selected(&mut self, context: CommandContext) -> (r: Result<StudioCommand, CommandPaletteError>)
        ensures
            old(self)@.selected >= old(self)@.matches.len() ==> r == Err::<StudioCommand, CommandPaletteError>(
                CommandPaletteError::MissingSelection,
            ) && final(self)@ == old(self)@,
            old(self)@.selected < old(self)@.matches.len() ==> match registry_spec(
                old(self)@.matches[old(self)@.selected as int].registry_index as usize,
            ) {
                Some(spec) => execute_effect(old(self)@, spec.command, context, final(self)@, r),
                None => r == Err::<StudioCommand, CommandPaletteError>(CommandPaletteError::MissingSelection)
                    && final(self)@ == old(self)@,
            },
    {
        if self.selected >= self.matches.len() {
            return Err(CommandPaletteError::MissingSelection);
        }
        let selected = self.matches[self.selected];
        let spec = match registry_entry(selected.registry_index as usize) {
            Some(spec) => spec,
            None => return Err(CommandPaletteError::MissingSelection),
        };
        self.execute(spec.command, context)
    }

    /// Runs `command` if it is available, closing the palette; otherwise
    /// re-ranks for the context and reports it unavailable.
    pub fn execute(&mut self, command: StudioCommand, context: CommandContext) -> (r: Result<
        StudioCommand,
        CommandPaletteError,
    >)
        ensures
            execute_effect(old(self)@, command, context, final(self)@, r),
    {
        if !context.available(command) {
            let _ = self.refresh(context)?;
            return Err(CommandPaletteError::Unavailable(command));
        }
        if self.executions < u64::MAX {
            self.executions = self.executions + 1;
        }
        self.release();
        Ok(command)
    }

    /// The rows of the visible window, overscan included.
    pub fn visible_commands(&self) -> (r: Result<Vec<CommandRow>, CommandPaletteError>)
        requires
            window_start(self@) <= self@.matches.len(),
        ensures
            r matches Ok(rows) ==> {
                &&& rows@.len() == window_end(self@) - window_start(self@)
                &&& rows@.len() <= MAX_VISIBLE_COMMANDS + 2 * MAX_VISIBLE_OVERSCAN
                &&& forall|k: int|
                    0 <= k < rows@.len() ==> row_at(self@, window_start(self@) + k) == Some(
                        #[trigger] rows@[k],
                    )
            },
            r matches Err(e) ==> e == CommandPaletteError::AllocationFailed || (
            e == CommandPaletteError::MissingSelection && exists|k: int|
                window_start(self@) <= k < window_end(self@) && #[trigger] row_at(self@, k) is None),
            (forall|k: int| window_start(self@) <= k < window_end(self@) ==> #[trigger] row_at(self@, k) is Some)
                ==> r is Ok || r == Err::<Vec<CommandRow>, CommandPaletteError>(
                CommandPaletteError::AllocationFailed,
            ),
    {
        let start = if self.first_visible < MAX_VISIBLE_OVERSCAN {
            0
        } else {
            self.first_visible - MAX_VISIBLE_OVERSCAN
        };
        let a = if self.first_visible > usize::MAX - (MAX_VISIBLE_COMMANDS + MAX_VISIBLE_OVERSCAN) {
            usize::MAX
        } else {
            self.first_visible + MAX_VISIBLE_COMMANDS + MAX_VISIBLE_OVERSCAN
        };
        let b = if a < self.matches.len() {
            a
        } else {
            self.matches.len()
        };
        let c = if start > usize::MAX - (MAX_VISIBLE_COMMANDS + 2 * MAX_VISIBLE_OVERSCAN) {
            usize::MAX
        } else {
            start + MAX_VISIBLE_COMMANDS + 2 * MAX_VISIBLE_OVERSCAN
        };
        let end = if b < c {
            b
        } else {
            c
        };
        let mut rows: Vec<CommandRow> = Vec::new();
        if rows.try_reserve(end - start).is_err() {
            return Err(CommandPaletteError::AllocationFailed);
        }
        let mut k = start;
        while k < end
            invariant
                start == window_start(self@),
                end == window_end(self@),
                start <= k <= end,
                end <= self@.matches.len(),
                rows@.len() == k - start,
                forall|i: int| 0 <= i < rows@.len() ==> row_at(self@, start + i) == Some(#[trigger] rows@[i]),
                forall|i: int| start <= i < k ==> #[trigger] row_at(self@, i) is Some,
            decreases end - k,
        {
            let matched = self.matches[k];
            let spec = match registry_entry(matched.registry_index as usize) {
                Some(spec) => spec,
                None => {
                    assert(row_at(self@, k as int) is None);
                    return Err(CommandPaletteError::MissingSelection);
                },
            };
            let ghost before = rows@;
            rows.push(CommandRow { command: spec.command, title: spec.title, selected: k == self.selected });
            assert forall|i: int| 0 <= i < rows@.len() implies row_at(self@, start + i) == Some(
                #[trigger] rows@[i],
            ) by {
                if i < before.len() {
                    assert(rows@[i] == before[i]);
                }
            }
            k += 1;
        }
        Ok(rows)
    }

    /// The text the palette shows.
    pub fn display_text(&self) -> (r: Result<String, CommandPaletteError>)
        ensures
            r matches Ok(text) ==> text@ == palette_display(self@),
            r matches Err(e) ==> e == CommandPaletteError::AllocationFailed,
    {
        proof {
            use_type_invariant(&self.text);
        }
        let mut display = String::new();
        let query_len = self.text.query.as_str().len();
        let composition_len = match &self.text.composition {
            Some(c) => c.as_str().len(),
            None => 0,
        };
        let required = query_len + composition_len + 48;
        if string_try_reserve(&mut display, required).is_err() {
            return Err(CommandPaletteError::AllocationFailed);
        }
        display.append("> ");
        display.append(self.text.query.as_str());
        match &self.text.composition {
            Some(c) => display.append(c.as_str()),
            None => {},
        }
        display.append(" | ");
        let count = usize_to_decimal(self.matches.len());
        display.append(count.as_str());
        display.append(" commands");
        proof {
            let composition = match self@.composition {
                Some(c) => c,
                None => Seq::empty(),
            };
            assert(display@ =~= palette_display(self@));
        }
        Ok(display)
    }

    /// Accounting of the palette.
    pub fn report(&self) -> (r: CommandPaletteReport)
        ensures
            r.query_bytes == utf8_len(self@.query),
            r.composition_bytes == (match self@.composition {
                Some(c) => utf8_len(c),
                None => 0,
            }),
            r.query_bytes + r.composition_bytes <= MAX_QUERY_BYTES,
            r.retained_matches == self@.matches.len(),
            r.visible_rows == (if self@.matches.len() < MAX_VISIBLE_COMMANDS + 2 * MAX_VISIBLE_OVERSCAN {
                self@.matches.len()
            } else {
                (MAX_VISIBLE_COMMANDS + 2 * MAX_VISIBLE_OVERSCAN) as nat
            }),
            r.executions == self@.executions,
            r.cancellations == self@.cancellations,
            r.truncations == self@.truncations,
            palette_retention(self@, r.retained_bytes as int),
            r.peak_retained_bytes == at_least(self.peak_retained() as int, r.retained_bytes as int),
            r.peak_retained_bytes >= r.retained_bytes,
    {
        proof {
            use_type_invariant(&self.text);
        }
        let composition_bytes = match &self.text.composition {
            Some(c) => c.as_str().len(),
            None => 0,
        };
        let window = MAX_VISIBLE_COMMANDS + 2 * MAX_VISIBLE_OVERSCAN;
        let retained = self.retained_bytes();
        CommandPaletteReport {
            query_bytes: self.text.query.as_str().len(),
            composition_bytes,
            retained_matches: self.matches.len(),
            retained_bytes: retained,
            peak_retained_bytes: if retained > self.peak_retained_bytes {
                retained
            } else {
                self.peak_retained_bytes
            },
            visible_rows: if self.matches.len() < window {
                self.matches.len()
            } else {
                window
            },
            executions: self.executions,
            cancellations: self.cancellations,
            truncations: self.truncations,
        }
    }

    fn replace_query(&mut self, query: String, context: CommandContext) -> (r: Result<bool, CommandPaletteError>)
        requires
            utf8_len(query@) <= MAX_QUERY_BYTES,
            old(self)@.composition is None,
        ensures
            replace_effect(old(self)@, query@, context, final(self)@, r),
    {
        if self.fail_next_query_update {
            self.fail_next_query_update = false;
            return Err(CommandPaletteError::AllocationFailed);
        }
        let matches = rank_matches(query.as_str(), context)?;
        let changed = !str_eq(query.as_str(), self.text.query.as_str());
        self.text.set(query, None);
        self.matches = matches;
        self.selected = 0;
        self.first_visible = 0;
        self.observe_peak();
        Ok(changed)
    }

    fn release(&mut self)
        ensures
            final(self)@ == released(old(self)@),
    {
        self.open = false;
        self.text = QueryText::empty();
        self.matches = Vec::new();
        self.selected = 0;
        self.first_visible = 0;
    }

    fn check_query_length(actual: usize) -> (r: Result<(), CommandPaletteError>)
        ensures
            actual > MAX_QUERY_BYTES ==> r == Err::<(), CommandPaletteError>(
                CommandPaletteError::QueryTooLong { actual, limit: MAX_QUERY_BYTES },
            ),
            actual <= MAX_QUERY_BYTES ==> r is Ok,
    {
        if actual > MAX_QUERY_BYTES {
            Err(CommandPaletteError::QueryTooLong { actual, limit: MAX_QUERY_BYTES })
        } else {
            Ok(())
        }
    }

    fn retained_bytes(&self) -> (n: usize)
        ensures
            palette_retention(self@, n as int),
    {
        let query = string_capacity(&self.text.query);
        let composition = match &self.text.composition {
            Some(c) => string_capacity(c),
            None => 0,
        };
        let matches = vec_capacity(&self.matches);
        let match_bytes = match matches.checked_mul(core::mem::size_of::<CommandMatch>()) {
            Some(bytes) => bytes,
            None => usize::MAX,
        };
        proof {
            assert(matches as nat * vstd::layout::size_of::<CommandMatch>() >= 0) by (nonlinear_arith);
        }
        let partial = if query > usize::MAX - composition {
            usize::MAX
        } else {
            query + composition
        };
        let n = if partial > usize::MAX - match_bytes {
            usize::MAX
        } else {
            partial + match_bytes
        };
        proof {
            assert(palette_retained(query as nat, composition as nat, matches as nat) == n);
        }
        n
    }

    fn observe_peak(&mut self)
        ensures
            final(self)@ == old(self)@,
            exists|retained: int|
                palette_retention(old(self)@, retained) && final(self).peak_retained_bytes == #[trigger] at_least(
                    old(self).peak_retained_bytes as int,
                    retained,
                ),
    {
        let retained = self.retained_bytes();
        if retained > self.peak_retained_bytes {
            self.peak_retained_bytes = retained;
        }
        assert(at_least(old(self).peak_retained_bytes as int, retained as int) == self.peak_retained_bytes);
    }
}

/// The effect of running `command` from palette state `before`.
pub open spec fn execute_effect(
    before: PaletteModel,
    command: StudioCommand,
    context: CommandContext,
    after: PaletteModel,
    r: Result<StudioCommand, CommandPaletteError>,
) -> bool {
    if available_spec(context, command) {
        r == Ok::<StudioCommand, CommandPaletteError>(command) && after == released(
            PaletteModel { executions: count_add(before.executions), ..before },
        )
    } else {
        ||| r == Err::<StudioCommand, CommandPaletteError>(CommandPaletteError::Unavailable(command))
            && refresh_effect(before, context, after, Ok(after.matches != before.matches))
        ||| r == Err::<StudioCommand, CommandPaletteError>(CommandPaletteError::AllocationFailed)
            && before.open && after == before
    }
}

/// Whether two match lists are equal.
fn vec_matches_eq(a: &Vec<CommandMatch>, b: &Vec<CommandMatch>) -> (r: bool)
    ensures
        r == (a@ == b@),
{
    if a.len() != b.len() {
        return false;
    }
    let mut i: usize = 0;
    while i < a.len()
        invariant
            a@.len() == b@.len(),
            i <= a@.len(),
            forall|j: int| 0 <= j < i ==> a@[j] == b@[j],
        decreases a@.len() - i,
    {
        if a[i].registry_index != b[i].registry_index || a[i].rank != b[i].rank || a[i].gaps != b[i].gaps {
            return false;
        }
        i += 1;
    }
    assert(a@ =~= b@);
    true
}

/// A ranked match list holds each registered command at most once, so it is
/// never longer than the registry, which fits the command bound.
pub proof fn law_ranked_matches_fit_registry(query: Seq<char>, context: CommandContext, v: Seq<CommandMatch>)
    requires
        ranked_for(query, context, v),
    ensures
        v.len() <= REGISTRY_LEN,
        REGISTRY_LEN <= MAX_COMMANDS,
{
    let q = encode_utf8(trim_chars(query));
    let idx = v.map_values(|m: CommandMatch| m.registry_index as int);
    assert forall|i: int, j: int| 0 <= i < idx.len() && 0 <= j < idx.len() && i != j implies idx[i]
        != idx[j] by {
        if idx[i] == idx[j] {
            assert(v.contains(v[i]));
            assert(v.contains(v[j]));
            assert(candidate(q, context, v[i]));
            assert(candidate(q, context, v[j]));
            assert(v[i] == v[j]);
            if i < j {
                assert(key_lt(v[i], v[j]));
            } else {
                assert(key_lt(v[j], v[i]));
            }
        }
    }
    assert(idx.no_duplicates());
    idx.unique_seq_to_set();
    assert forall|x: int| idx.to_set().contains(x) implies vstd::set_lib::set_int_range(0, 21).contains(x) by {
        let i = choose|i: int| 0 <= i < idx.len() && idx[i] == x;
        assert(v.contains(v[i]));
        assert(candidate(q, context, v[i]));
    }
    vstd::set_lib::lemma_int_range(0, 21);
    vstd::set_lib::lemma_len_subset(idx.to_set(), vstd::set_lib::set_int_range(0, 21));
}

/// Navigation leaves the selection inside the visible window: at or after
/// its first row and before its last.
pub proof fn law_navigation_keeps_selection_visible(first_visible: usize, selected: usize)
    ensures
        navigate_first_visible(first_visible, selected) <= selected,
        selected < navigate_first_visible(first_visible, selected) + MAX_VISIBLE_COMMANDS,
{
}

/// A query that begins a whitespace-separated token of a command's search
/// terms, ignoring ASCII case, ranks the command as a token match: rank 1,
/// no gaps, unless the title or the terms begin with the query outright.
pub proof fn law_search_term_token_ranks_as_token_match(title: Seq<u8>, terms: Seq<u8>, query: Seq<u8>, p: int)
    requires
        query.len() > 0,
        0 <= p,
        p + query.len() <= terms.len(),
        p == 0 || is_ascii_ws(terms[p - 1]),
        forall|i: int| 0 <= i < query.len() ==> !is_ascii_ws(#[trigger] terms[p + i]) && lower(terms[p + i]) == lower(query[i]),
        !ascii_prefix_spec(title, query),
        !ascii_prefix_spec(terms, query),
    ensures
        match_score_spec(title, terms, query) == Some((1u8, 0u16)),
{
    assert(token_start(terms, p, false));
    assert(token_prefix_at(terms, query, p, false));
}

} // verus!
