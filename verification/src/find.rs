//! Bounded literal search over a document and the find bar's state.
use crate::std_calls::{string_try_reserve_exact, vec_try_reserve_exact};
use crate::text::{decimal, usize_to_decimal, utf8_len};
use core::ops::Range;
use vstd::prelude::*;
use vstd::string::{StrSliceExecFns, StringExecFns};
use vstd::utf8::{encode_utf8, is_char_boundary};

verus! {

/// Bound on the bytes of a query or replacement.
pub const MAX_QUERY_BYTES: usize = 4096;

/// Bound on the source bytes one search reads.
pub const MAX_SOURCE_BYTES: usize = 16777216;

/// Bound on the matches one search retains.
pub const MAX_MATCHES: usize = 16384;

/// Bound on the bytes of retained match offsets.
pub const MAX_MATCH_METADATA_BYTES: usize = 262144;

/// Bound on the matches shown for one visible byte range.
pub const MAX_VISIBLE_MATCHES: usize = 2048;

/// Bound on the bytes one replace-all transaction may write.
pub const MAX_REPLACEMENT_TRANSACTION_BYTES: usize = 16777216;

/// Bound on the query bytes the find bar shows.
pub const MAX_DISPLAY_BYTES: usize = 256;

/// Bytes that one retained match occupies: its two offsets.
pub open spec fn range_bytes() -> nat {
    2 * vstd::layout::size_of::<usize>()
}

fn range_bytes_exec() -> (n: usize)
    ensures
        n == range_bytes(),
        n > 0,
{
    broadcast use vstd::layout::layout_of_primitives;

    let word = core::mem::size_of::<usize>();
    assert(word == 4 || word == 8);
    2 * word
}

/// The resource ceilings of one search.
#[derive(Clone, Copy, Debug, Eq, PartialEq, Structural)]
pub struct FindLimits {
    pub query_bytes: usize,
    pub source_bytes: usize,
    pub matches: usize,
    pub match_metadata_bytes: usize,
}

/// Matches a search may retain: the lesser of the match ceiling and what the
/// metadata ceiling holds.
pub open spec fn match_capacity_spec(limits: FindLimits) -> nat {
    let by_bytes = limits.match_metadata_bytes as nat / range_bytes();
    if limits.matches < by_bytes {
        limits.matches as nat
    } else {
        by_bytes
    }
}

/// Limits are usable when every ceiling admits something.
pub open spec fn limits_valid(limits: FindLimits) -> bool {
    limits.query_bytes > 0 && limits.source_bytes > 0 && match_capacity_spec(limits) > 0
}

impl FindLimits {
    /// The ceilings the editor ships with.
    pub fn shipping() -> (l: FindLimits)
        ensures
            l == (FindLimits {
                query_bytes: MAX_QUERY_BYTES,
                source_bytes: MAX_SOURCE_BYTES,
                matches: MAX_MATCHES,
                match_metadata_bytes: MAX_MATCH_METADATA_BYTES,
            }),
    {
        FindLimits {
            query_bytes: MAX_QUERY_BYTES,
            source_bytes: MAX_SOURCE_BYTES,
            matches: MAX_MATCHES,
            match_metadata_bytes: MAX_MATCH_METADATA_BYTES,
        }
    }

    /// Matches a search with these limits may retain.
    pub fn match_capacity(self) -> (n: usize)
        ensures
            n == match_capacity_spec(self),
    {
        let by_bytes = self.match_metadata_bytes / range_bytes_exec();
        if self.matches < by_bytes {
            self.matches
        } else {
            by_bytes
        }
    }

    /// Whether every ceiling admits something.
    pub fn is_valid(self) -> (r: bool)
        ensures
            r == limits_valid(self),
    {
        self.query_bytes > 0 && self.source_bytes > 0 && self.match_capacity() > 0
    }
}

impl Default for FindLimits {
    fn default() -> (l: Self)
        ensures
            l == (FindLimits {
                query_bytes: MAX_QUERY_BYTES,
                source_bytes: MAX_SOURCE_BYTES,
                matches: MAX_MATCHES,
                match_metadata_bytes: MAX_MATCH_METADATA_BYTES,
            }),
    {
        FindLimits::shipping()
    }
}

/// Which document, buffer revision and query generation a search is for.
#[derive(Clone, Copy, Debug, Eq, PartialEq, Structural)]
pub struct FindIdentity {
    pub document: u64,
    pub buffer_revision: u64,
    pub generation: u64,
}

impl FindIdentity {
    /// The identity of a search of `document` at `buffer_revision` for query
    /// `generation`.
    pub fn new(document: u64, buffer_revision: u64, generation: u64) -> (i: FindIdentity)
        ensures
            i == (FindIdentity { document, buffer_revision, generation }),
    {
        FindIdentity { document, buffer_revision, generation }
    }
}

/// Why a find operation failed.
#[derive(Clone, Debug, Eq, PartialEq, Structural)]
pub enum FindError {
    InvalidLimits,
    QueryTooLong { actual: usize, limit: usize },
    ReplacementTooLong { actual: usize, limit: usize },
    IncompleteResult,
    ReplacementBudgetExceeded { actual: usize, limit: usize },
    InvalidSourceLength { retained: usize, total: usize },
    GenerationExhausted,
    OffsetOverflow,
    AllocationFailed,
    WorkerUnavailable,
}

/// The text of a find error.
pub open spec fn find_error_message(e: FindError) -> Seq<char> {
    match e {
        FindError::InvalidLimits => "find limits must be non-zero and coherent"@,
        FindError::QueryTooLong { actual, limit } => "find query is "@ + decimal(actual as nat)
            + " bytes; limit is "@ + decimal(limit as nat),
        FindError::ReplacementTooLong { actual, limit } => "replacement is "@ + decimal(
            actual as nat,
        ) + " bytes; limit is "@ + decimal(limit as nat),
        FindError::IncompleteResult => "replace all requires one complete current find result"@,
        FindError::ReplacementBudgetExceeded { actual, limit } => "replacement transaction is "@
            + decimal(actual as nat) + " bytes; limit is "@ + decimal(limit as nat),
        FindError::InvalidSourceLength { retained, total } => "find source retained "@ + decimal(
            retained as nat,
        ) + " bytes but total length is "@ + decimal(total as nat),
        FindError::GenerationExhausted => "find query generation is exhausted"@,
        FindError::OffsetOverflow => "find match offset overflowed"@,
        FindError::AllocationFailed => "find allocation failed"@,
        FindError::WorkerUnavailable => "find worker admission failed"@,
    }
}

fn sized_message(prefix: &str, actual: usize, middle: &str, limit: usize) -> (m: String)
    ensures
        m@ == prefix@ + decimal(actual as nat) + middle@ + decimal(limit as nat),
{
    let mut m = String::from_str(prefix);
    m.append(usize_to_decimal(actual).as_str());
    m.append(middle);
    m.append(usize_to_decimal(limit).as_str());
    m
}

impl FindError {
    /// A human-readable description.
    pub fn message(&self) -> (m: String)
        ensures
            m@ == find_error_message(*self),
    {
        match self {
            FindError::InvalidLimits => String::from_str("find limits must be non-zero and coherent"),
            FindError::QueryTooLong { actual, limit } => sized_message(
                "find query is ",
                *actual,
                " bytes; limit is ",
                *limit,
            ),
            FindError::ReplacementTooLong { actual, limit } => sized_message(
                "replacement is ",
                *actual,
                " bytes; limit is ",
                *limit,
            ),
            FindError::IncompleteResult => String::from_str(
                "replace all requires one complete current find result",
            ),
            FindError::ReplacementBudgetExceeded { actual, limit } => sized_message(
                "replacement transaction is ",
                *actual,
                " bytes; limit is ",
                *limit,
            ),
            FindError::InvalidSourceLength { retained, total } => sized_message(
                "find source retained ",
                *retained,
                " bytes but total length is ",
                *total,
            ),
            FindError::GenerationExhausted => String::from_str("find query generation is exhausted"),
            FindError::OffsetOverflow => String::from_str("find match offset overflowed"),
            FindError::AllocationFailed => String::from_str("find allocation failed"),
            FindError::WorkerUnavailable => String::from_str("find worker admission failed"),
        }
    }
}

/// `q` occurs in `src` at byte `i`.
pub open spec fn occurs_at(src: Seq<u8>, q: Seq<u8>, i: int) -> bool {
    0 <= i && i + q.len() <= src.len() && src.subrange(i, i + q.len()) == q
}

/// Start offsets of the leftmost non-overlapping occurrences of a non-empty
/// `q` in `src[pos..]`, scanning left to right.
pub open spec fn literal_matches(src: Seq<u8>, q: Seq<u8>, pos: int) -> Seq<int>
    decreases src.len() - pos,
{
    if q.len() == 0 || pos < 0 || pos + q.len() > src.len() {
        Seq::empty()
    } else if occurs_at(src, q, pos) {
        seq![pos] + literal_matches(src, q, pos + q.len())
    } else {
        literal_matches(src, q, pos + 1)
    }
}

/// The occurrences of `q` in `src` as byte ranges.
pub open spec fn found_ranges(src: Seq<u8>, q: Seq<u8>) -> Seq<Range<usize>> {
    literal_matches(src, q, 0).map_values(
        |s: int| Range { start: s as usize, end: (s + q.len()) as usize },
    )
}

fn occurs_at_exec(src: &[u8], q: &[u8], i: usize) -> (r: bool)
    requires
        i + q@.len() <= src@.len(),
    ensures
        r == occurs_at(src@, q@, i as int),
{
    let n = src.len();
    let mut k: usize = 0;
    while k < q.len()
        invariant
            n == src@.len(),
            i + q@.len() <= src@.len(),
            k <= q@.len(),
            forall|j: int| 0 <= j < k ==> src@[i + j] == q@[j],
        decreases q@.len() - k,
    {
        if src[i + k] != q[k] {
            assert(src@.subrange(i as int, i + q@.len())[k as int] != q@[k as int]);
            return false;
        }
        k += 1;
    }
    assert(src@.subrange(i as int, i + q@.len()) =~= q@);
    true
}

/// What a completed search holds, as values.
#[verifier::ext_equal]
pub struct ResultModel {
    pub identity: FindIdentity,
    pub matches: Seq<Range<usize>>,
    pub source_bytes: usize,
    pub total_source_bytes: usize,
    pub matches_truncated: bool,
}

/// The result of searching `src` (the first `src.len()` of
/// `total_source_bytes` document bytes) for `q`.
pub open spec fn search_model(
    identity: FindIdentity,
    src: Seq<u8>,
    total_source_bytes: usize,
    q: Seq<u8>,
    limits: FindLimits,
) -> ResultModel {
    let all = found_ranges(src, q);
    let capacity = match_capacity_spec(limits);
    ResultModel {
        identity,
        matches: if all.len() <= capacity {
            all
        } else {
            all.take(capacity as int)
        },
        source_bytes: src.len() as usize,
        total_source_bytes,
        matches_truncated: all.len() > capacity,
    }
}

/// The outcome of a search: an error exactly when the inputs are
/// inconsistent, else the search result, unless allocation failed.
pub open spec fn search_outcome(
    identity: FindIdentity,
    src: Seq<u8>,
    total_source_bytes: usize,
    q: Seq<u8>,
    limits: FindLimits,
    r: Result<ResultModel, FindError>,
) -> bool {
    if src.len() > total_source_bytes {
        r == Err::<ResultModel, FindError>(
            FindError::InvalidSourceLength { retained: src.len() as usize, total: total_source_bytes },
        )
    } else if q.len() > limits.query_bytes {
        r == Err::<ResultModel, FindError>(
            FindError::QueryTooLong { actual: q.len() as usize, limit: limits.query_bytes },
        )
    } else {
        r == Err::<ResultModel, FindError>(FindError::AllocationFailed) || r == Ok::<
            ResultModel,
            FindError,
        >(search_model(identity, src, total_source_bytes, q, limits))
    }
}

/// A completed search.
pub struct FindResult {
    identity: FindIdentity,
    matches: Vec<Range<usize>>,
    source_bytes: usize,
    total_source_bytes: usize,
    matches_truncated: bool,
}

impl FindResult {
    #[verifier::type_invariant]
    spec fn metadata_fits(self) -> bool {
        self.matches@.len() * range_bytes() <= usize::MAX
    }
}

impl View for FindResult {
    type V = ResultModel;

    closed spec fn view(&self) -> ResultModel {
        ResultModel {
            identity: self.identity,
            matches: self.matches@,
            source_bytes: self.source_bytes,
            total_source_bytes: self.total_source_bytes,
            matches_truncated: self.matches_truncated,
        }
    }
}

/// The view of an optional result.
pub open spec fn result_view(r: Result<FindResult, FindError>) -> Result<ResultModel, FindError> {
    match r {
        Ok(v) => Ok(v@),
        Err(e) => Err(e),
    }
}

/// The outcome of a search once room for its matches was asked for: the
/// same refusals as `search_outcome`, then an allocation failure exactly
/// when the room was not `granted`, else the search result.
pub open spec fn granted_outcome(
    identity: FindIdentity,
    src: Seq<u8>,
    total_source_bytes: usize,
    q: Seq<u8>,
    limits: FindLimits,
    granted: bool,
) -> Result<ResultModel, FindError> {
    if src.len() > total_source_bytes {
        Err(FindError::InvalidSourceLength { retained: src.len() as usize, total: total_source_bytes })
    } else if q.len() > limits.query_bytes {
        Err(FindError::QueryTooLong { actual: q.len() as usize, limit: limits.query_bytes })
    } else if !granted {
        Err(FindError::AllocationFailed)
    } else {
        Ok(search_model(identity, src, total_source_bytes, q, limits))
    }
}

/// The matches a search reserves room for: as many as fit in the source,
/// at most the match capacity; none for an empty query.
fn reserved_matches(src_len: usize, q_len: usize, limits: FindLimits) -> usize {
    let capacity = limits.match_capacity();
    if q_len == 0 {
        0
    } else {
        let fit = src_len / q_len;
        if fit < capacity {
            fit
        } else {
            capacity
        }
    }
}

/// Searches `source` for `query`, leftmost match first, without overlap,
/// keeping at most the limits' match capacity.
pub fn search_text(
    identity: FindIdentity,
    source: &str,
    total_source_bytes: usize,
    query: &str,
    limits: FindLimits,
) -> (r: Result<FindResult, FindError>)
    ensures
        search_outcome(
            identity,
            encode_utf8(source@),
            total_source_bytes,
            encode_utf8(query@),
            limits,
            result_view(r),
        ),
{
    let mut matches: Vec<Range<usize>> = Vec::new();
    let mut granted = true;
    let src_len = source.as_bytes().len();
    let q_len = query.as_bytes().len();
    if src_len <= total_source_bytes && q_len <= limits.query_bytes {
        let reserve = reserved_matches(src_len, q_len, limits);
        granted = vec_try_reserve_exact(&mut matches, reserve).is_ok();
    }
    search_granted(identity, source, total_source_bytes, query, limits, matches, granted)
}

/// Searches `source` for `query` once room for the matches was asked for in
/// the empty `matches`: refused as an allocation failure when the room was
/// not `granted`, else the search result, an empty one included.
pub fn search_granted(
    identity: FindIdentity,
    source: &str,
    total_source_bytes: usize,
    query: &str,
    limits: FindLimits,
    matches: Vec<Range<usize>>,
    granted: bool,
) -> (r: Result<FindResult, FindError>)
    requires
        matches@.len() == 0,
    ensures
        result_view(r) == granted_outcome(
            identity,
            encode_utf8(source@),
            total_source_bytes,
            encode_utf8(query@),
            limits,
            granted,
        ),
{
    let src = source.as_bytes();
    let q = query.as_bytes();
    if src.len() > total_source_bytes {
        return Err(FindError::InvalidSourceLength { retained: src.len(), total: total_source_bytes });
    }
    if q.len() > limits.query_bytes {
        return Err(FindError::QueryTooLong { actual: q.len(), limit: limits.query_bytes });
    }
    if !granted {
        return Err(FindError::AllocationFailed);
    }
    let mut matches = matches;
    let capacity = limits.match_capacity();
    let ghost all = literal_matches(src@, q@, 0);
    let mut truncated = false;
    if q.len() > 0 {
        let mut pos: usize = 0;
        while pos <= src.len() && q.len() <= src.len() - pos
            invariant_except_break
                !truncated,
            invariant
                q@.len() > 0,
                all == literal_matches(src@, q@, 0),
                matches@.len() <= capacity,
                capacity == match_capacity_spec(limits),
                matches@.len() <= all.len(),
                all.subrange(matches@.len() as int, all.len() as int) == literal_matches(
                    src@,
                    q@,
                    pos as int,
                ),
                pos + q@.len() > src@.len() ==> literal_matches(src@, q@, pos as int) =~= Seq::<
                    int,
                >::empty(),
                forall|j: int|
                    0 <= j < matches@.len() ==> (#[trigger] matches@[j]).start == all[j]
                        && matches@[j].end == all[j] + q@.len(),
            ensures
                truncated ==> matches@.len() == capacity && all.len() > capacity,
                !truncated ==> matches@.len() == all.len(),
                matches@.len() <= all.len(),
                forall|j: int|
                    0 <= j < matches@.len() ==> (#[trigger] matches@[j]).start == all[j]
                        && matches@[j].end == all[j] + q@.len(),
            decreases src@.len() - pos,
        {
            let ghost rest = literal_matches(src@, q@, pos as int);
            if occurs_at_exec(src, q, pos) {
                assert(rest == seq![pos as int] + literal_matches(src@, q@, pos + q@.len()));
                if matches.len() == capacity {
                    truncated = true;
                    assert(all.subrange(matches@.len() as int, all.len() as int).len() > 0);
                    break;
                }
                let ghost before = matches@;
                assert(all[before.len() as int] == pos) by {
                    assert(all.subrange(before.len() as int, all.len() as int)[0] == pos);
                }
                matches.push(pos..pos + q.len());
                assert(all.subrange(matches@.len() as int, all.len() as int) =~= all.subrange(
                    before.len() as int,
                    all.len() as int,
                ).drop_first());
                assert forall|j: int| 0 <= j < matches@.len() implies (#[trigger] matches@[j]).start
                    == all[j] && matches@[j].end == all[j] + q@.len() by {
                    if j < before.len() {
                        assert(matches@[j] == before[j]);
                    }
                }
                pos = pos + q.len();
            } else {
                assert(rest == literal_matches(src@, q@, pos + 1));
                pos = pos + 1;
            }
        }
        proof {
            if !truncated {
                let rest = all.subrange(matches@.len() as int, all.len() as int);
                assert(rest.len() == 0);
            }
        }
    }
    proof {
        let found = found_ranges(src@, q@);
        if q@.len() == 0 {
            assert(all =~= Seq::<int>::empty());
        }
        let expected = search_model(identity, src@, total_source_bytes, q@, limits).matches;
        assert(matches@ =~= expected);
        let n = matches@.len();
        let rb = range_bytes();
        let md = limits.match_metadata_bytes as nat;
        assert(n <= md / rb);
        assert(rb > 0) by {
            broadcast use vstd::layout::layout_of_primitives;
        }
        assert(n * rb <= md) by (nonlinear_arith)
            requires
                n <= md / rb,
                rb > 0,
        ;
    }
    Ok(FindResult {
        identity,
        matches,
        source_bytes: src.len(),
        total_source_bytes,
        matches_truncated: truncated,
    })
}

/// Every match of a literal search is an occurrence, after the previous
/// one ends: the matches are ordered, do not overlap and lie inside the
/// searched bytes.
pub proof fn law_literal_matches_are_ordered_non_overlapping(src: Seq<u8>, q: Seq<u8>, pos: int)
    ensures
        forall|i: int|
            0 <= i < literal_matches(src, q, pos).len() ==> occurs_at(
                src,
                q,
                #[trigger] literal_matches(src, q, pos)[i],
            ) && literal_matches(src, q, pos)[i] >= pos,
        forall|i: int, j: int|
            0 <= i < j < literal_matches(src, q, pos).len() ==> #[trigger] literal_matches(
                src,
                q,
                pos,
            )[i] + q.len() <= #[trigger] literal_matches(src, q, pos)[j],
    decreases src.len() - pos,
{
    if q.len() == 0 || pos < 0 || pos + q.len() > src.len() {
    } else if occurs_at(src, q, pos) {
        law_literal_matches_are_ordered_non_overlapping(src, q, pos + q.len());
        let rest = literal_matches(src, q, pos + q.len());
        let all = literal_matches(src, q, pos);
        assert(all == seq![pos] + rest);
        assert forall|i: int, j: int| 0 <= i < j < all.len() implies #[trigger] all[i] + q.len()
            <= #[trigger] all[j] by {
            if i > 0 {
                assert(all[i] == rest[i - 1]);
            }
            assert(all[j] == rest[j - 1]);
        }
        assert forall|i: int| 0 <= i < all.len() implies occurs_at(src, q, #[trigger] all[i])
            && all[i] >= pos by {
            if i > 0 {
                assert(all[i] == rest[i - 1]);
            }
        }
    } else {
        law_literal_matches_are_ordered_non_overlapping(src, q, pos + 1);
        assert(literal_matches(src, q, pos) == literal_matches(src, q, pos + 1));
    }
}

impl FindResult {
    /// The identity the search ran for.
    pub fn identity(&self) -> (i: FindIdentity)
        ensures
            i == self@.identity,
    {
        self.identity
    }

    /// Number of retained matches.
    pub fn len(&self) -> (n: usize)
        ensures
            n == self@.matches.len(),
    {
        self.matches.len()
    }

    /// Whether no match was retained.
    pub fn is_empty(&self) -> (r: bool)
        ensures
            r == (self@.matches.len() == 0),
    {
        self.matches.len() == 0
    }

    /// Source bytes the search read.
    pub fn source_bytes(&self) -> (n: usize)
        ensures
            n == self@.source_bytes,
    {
        self.source_bytes
    }

    /// Bytes of the whole document.
    pub fn total_source_bytes(&self) -> (n: usize)
        ensures
            n == self@.total_source_bytes,
    {
        self.total_source_bytes
    }

    /// Whether the search read less than the whole document.
    pub fn source_truncated(&self) -> (r: bool)
        ensures
            r == (self@.source_bytes < self@.total_source_bytes),
    {
        self.source_bytes < self.total_source_bytes
    }

    /// Whether matches beyond the capacity were dropped.
    pub fn matches_truncated(&self) -> (r: bool)
        ensures
            r == self@.matches_truncated,
    {
        self.matches_truncated
    }

    /// Bytes of the retained match offsets.
    pub fn retained_metadata_bytes(&self) -> (n: usize)
        ensures
            n == self@.matches.len() * range_bytes(),
    {
        proof {
            use_type_invariant(self);
        }
        self.matches.len() * range_bytes_exec()
    }

    /// The match at `index`.
    pub fn range(&self, index: usize) -> (r: Option<Range<usize>>)
        ensures
            index < self@.matches.len() ==> r == Some(self@.matches[index as int]),
            index >= self@.matches.len() ==> r is None,
    {
        if index < self.matches.len() {
            Some(self.matches[index].start..self.matches[index].end)
        } else {
            None
        }
    }

    /// The matches that meet the byte range `bytes`, at most
    /// `MAX_VISIBLE_MATCHES` of them.
    pub fn visible(&self, bytes: Range<usize>) -> (r: &[Range<usize>])
        ensures
            r@ == visible_matches(self@.matches, bytes),
    {
        let n = self.matches.len();
        let mut start: usize = 0;
        while start < n && self.matches[start].end <= bytes.start
            invariant
                n == self@.matches.len(),
                start <= n,
                forall|i: int| 0 <= i < start ==> (#[trigger] self@.matches[i]).end <= bytes.start,
            decreases n - start,
        {
            start += 1;
        }
        let mut end: usize = 0;
        while end < n && self.matches[end].start < bytes.end
            invariant
                n == self@.matches.len(),
                end <= n,
                forall|i: int| 0 <= i < end ==> (#[trigger] self@.matches[i]).start < bytes.end,
            decreases n - end,
        {
            end += 1;
        }
        proof {
            lemma_first_failing_unique_ends(self@.matches, bytes.start, start as int);
            lemma_first_failing_unique_starts(self@.matches, bytes.end, end as int);
        }
        let bounded_end = if start > usize::MAX - MAX_VISIBLE_MATCHES || end < start + MAX_VISIBLE_MATCHES {
            end
        } else {
            start + MAX_VISIBLE_MATCHES
        };
        let lo = if start < bounded_end {
            start
        } else {
            bounded_end
        };
        vstd::slice::slice_subrange(self.matches.as_slice(), lo, bounded_end)
    }
}

/// Index of the first match that ends after `x`.
pub open spec fn first_ending_after(m: Seq<Range<usize>>, x: usize) -> int
    decreases m.len(),
{
    if m.len() == 0 {
        0
    } else if m[0].end <= x {
        1 + first_ending_after(m.drop_first(), x)
    } else {
        0
    }
}

/// Index of the first match that starts at or after `x`.
pub open spec fn first_starting_from(m: Seq<Range<usize>>, x: usize) -> int
    decreases m.len(),
{
    if m.len() == 0 {
        0
    } else if m[0].start < x {
        1 + first_starting_from(m.drop_first(), x)
    } else {
        0
    }
}

proof fn lemma_first_failing_unique_ends(m: Seq<Range<usize>>, x: usize, k: int)
    requires
        0 <= k <= m.len(),
        forall|i: int| 0 <= i < k ==> (#[trigger] m[i]).end <= x,
        k < m.len() ==> m[k].end > x,
    ensures
        first_ending_after(m, x) == k,
    decreases m.len(),
{
    if m.len() > 0 && k > 0 {
        assert forall|i: int| 0 <= i < k - 1 implies (#[trigger] m.drop_first()[i]).end <= x by {
            assert(m.drop_first()[i] == m[i + 1]);
        }
        lemma_first_failing_unique_ends(m.drop_first(), x, k - 1);
    }
}

proof fn lemma_first_failing_unique_starts(m: Seq<Range<usize>>, x: usize, k: int)
    requires
        0 <= k <= m.len(),
        forall|i: int| 0 <= i < k ==> (#[trigger] m[i]).start < x,
        k < m.len() ==> m[k].start >= x,
    ensures
        first_starting_from(m, x) == k,
    decreases m.len(),
{
    if m.len() > 0 && k > 0 {
        assert forall|i: int| 0 <= i < k - 1 implies (#[trigger] m.drop_first()[i]).start < x by {
            assert(m.drop_first()[i] == m[i + 1]);
        }
        lemma_first_failing_unique_starts(m.drop_first(), x, k - 1);
    }
}

/// The matches shown for the byte range `bytes`: from the first that ends
/// after its start to the first that starts at or after its end, at most
/// `MAX_VISIBLE_MATCHES` of them.
pub open spec fn visible_matches(m: Seq<Range<usize>>, bytes: Range<usize>) -> Seq<Range<usize>> {
    let start = first_ending_after(m, bytes.start);
    let end = first_starting_from(m, bytes.end);
    let bounded_end = if end < start + MAX_VISIBLE_MATCHES {
        end
    } else {
        start + MAX_VISIBLE_MATCHES
    };
    let lo = if start < bounded_end {
        start
    } else {
        bounded_end
    };
    m.subrange(lo, bounded_end)
}

/// The last character boundary of `bytes` at or before `i`.
pub open spec fn boundary_at_or_before(bytes: Seq<u8>, i: int) -> int
    decreases i,
{
    if i <= 0 {
        0
    } else if is_char_boundary(bytes, i) {
        i
    } else {
        boundary_at_or_before(bytes, i - 1)
    }
}

/// The document bytes a search with `limits` reads: a prefix of at most
/// `limits.source_bytes`, ending on a character boundary.
pub open spec fn retained_source(bytes: Seq<u8>, limits: FindLimits) -> Seq<u8> {
    let limit = if bytes.len() < limits.source_bytes {
        bytes.len() as int
    } else {
        limits.source_bytes as int
    };
    bytes.subrange(0, boundary_at_or_before(bytes, limit))
}

proof fn lemma_boundary_at_or_before(bytes: Seq<u8>, i: int)
    requires
        0 <= i <= bytes.len(),
        vstd::utf8::valid_utf8(bytes),
    ensures
        0 <= boundary_at_or_before(bytes, i) <= i,
        is_char_boundary(bytes, boundary_at_or_before(bytes, i)),
    decreases i,
{
    if i > 0 && !is_char_boundary(bytes, i) {
        lemma_boundary_at_or_before(bytes, i - 1);
    }
}

/// A search of a document for a query, ready to run on a worker.
pub struct FindRequest {
    identity: FindIdentity,
    source: String,
    query: String,
    limits: FindLimits,
}

/// What a request holds, as values.
pub struct RequestModel {
    pub identity: FindIdentity,
    pub source: Seq<char>,
    pub query: Seq<char>,
    pub limits: FindLimits,
}

impl View for FindRequest {
    type V = RequestModel;

    closed spec fn view(&self) -> RequestModel {
        RequestModel {
            identity: self.identity,
            source: self.source@,
            query: self.query@,
            limits: self.limits,
        }
    }
}

/// The outcome of preparing a request: refused for invalid limits or an
/// oversized query, else the request, unless allocation failed.
pub open spec fn request_outcome(
    identity: FindIdentity,
    source: Seq<char>,
    query: Seq<char>,
    limits: FindLimits,
    r: Result<RequestModel, FindError>,
) -> bool {
    if !limits_valid(limits) {
        r == Err::<RequestModel, FindError>(FindError::InvalidLimits)
    } else if utf8_len(query) > limits.query_bytes {
        r == Err::<RequestModel, FindError>(
            FindError::QueryTooLong { actual: utf8_len(query) as usize, limit: limits.query_bytes },
        )
    } else {
        r == Err::<RequestModel, FindError>(FindError::AllocationFailed) || r == Ok::<
            RequestModel,
            FindError,
        >(RequestModel { identity, source, query, limits })
    }
}

/// The view of a prepared request.
pub open spec fn request_view(r: Result<FindRequest, FindError>) -> Result<RequestModel, FindError> {
    match r {
        Ok(v) => Ok(v@),
        Err(e) => Err(e),
    }
}

/// The outcome of a search run by a worker.
pub struct FindWorkerOutput {
    identity: FindIdentity,
    result: Result<FindResult, FindError>,
}

/// What a worker output holds, as values.
pub struct OutputModel {
    pub identity: FindIdentity,
    pub result: Result<ResultModel, FindError>,
}

impl View for FindWorkerOutput {
    type V = OutputModel;

    closed spec fn view(&self) -> OutputModel {
        OutputModel { identity: self.identity, result: result_view(self.result) }
    }
}

impl FindWorkerOutput {
    /// The output of a search for `identity` that produced `result`.
    pub fn new(identity: FindIdentity, result: Result<FindResult, FindError>) -> (o: FindWorkerOutput)
        ensures
            o@ == (OutputModel { identity, result: result_view(result) }),
    {
        FindWorkerOutput { identity, result }
    }

    /// The output of a search for `identity` that failed with `error`.
    pub fn failure(identity: FindIdentity, error: FindError) -> (o: FindWorkerOutput)
        ensures
            o@ == (OutputModel { identity, result: Err::<ResultModel, FindError>(error) }),
    {
        FindWorkerOutput { identity, result: Err(error) }
    }

    /// The identity of the search.
    pub fn identity(&self) -> (i: FindIdentity)
        ensures
            i == self@.identity,
    {
        self.identity
    }

    /// The search's result.
    pub fn into_result(self) -> (r: Result<FindResult, FindError>)
        ensures
            result_view(r) == self@.result,
    {
        self.result
    }
}

impl FindRequest {
    /// A request with the shipping limits.
    pub fn new(identity: FindIdentity, source: String, query: &str) -> (r: Result<FindRequest, FindError>)
        ensures
            request_outcome(identity, source@, query@, FindLimits::shipping_spec(), request_view(r)),
    {
        Self::with_limits(identity, source, query, FindLimits::shipping())
    }

    /// A request with `limits`, refused when they are unusable or the query
    /// exceeds them.
    pub fn with_limits(identity: FindIdentity, source: String, query: &str, limits: FindLimits) -> (r:
        Result<FindRequest, FindError>)
        ensures
            request_outcome(identity, source@, query@, limits, request_view(r)),
    {
        if !limits.is_valid() {
            return Err(FindError::InvalidLimits);
        }
        let length = query.as_bytes().len();
        if length > limits.query_bytes {
            return Err(FindError::QueryTooLong { actual: length, limit: limits.query_bytes });
        }
        let mut owned = String::new();
        if string_try_reserve_exact(&mut owned, length).is_err() {
            return Err(FindError::AllocationFailed);
        }
        owned.append(query);
        Ok(FindRequest { identity, source, query: owned, limits })
    }

    /// The identity the search runs for.
    pub fn identity(&self) -> (i: FindIdentity)
        ensures
            i == self@.identity,
    {
        self.identity
    }

    /// Runs the search.
    pub fn execute(self) -> (o: FindWorkerOutput)
        ensures
            o@.identity == self@.identity,
            execution_outcome(self@, o@.result),
    {
        let identity = self.identity;
        let result = self.execute_inner();
        FindWorkerOutput { identity, result }
    }

    fn execute_inner(self) -> (r: Result<FindResult, FindError>)
        ensures
            execution_outcome(self@, result_view(r)),
    {
        let source = self.source.as_str();
        let total = source.as_bytes().len();
        let mut end = if total < self.limits.source_bytes {
            total
        } else {
            self.limits.source_bytes
        };
        proof {
            broadcast use vstd::utf8::encode_utf8_valid_utf8;
            lemma_boundary_at_or_before(encode_utf8(source@), end as int);
        }
        let ghost limit = end as int;
        while !source.is_char_boundary(end)
            invariant
                0 <= end <= limit,
                limit <= encode_utf8(source@).len(),
                vstd::utf8::valid_utf8(encode_utf8(source@)),
                boundary_at_or_before(encode_utf8(source@), end as int) == boundary_at_or_before(
                    encode_utf8(source@),
                    limit,
                ),
            decreases end,
        {
            end = end - 1;
        }
        let (prefix, _) = source.split_at(end);
        search_text(self.identity, prefix, total, self.query.as_str(), self.limits)
    }
}

impl FindLimits {
    /// The shipping limits, as a value.
    pub open spec fn shipping_spec() -> FindLimits {
        FindLimits {
            query_bytes: MAX_QUERY_BYTES,
            source_bytes: MAX_SOURCE_BYTES,
            matches: MAX_MATCHES,
            match_metadata_bytes: MAX_MATCH_METADATA_BYTES,
        }
    }
}

/// What running request `q` yields: the search of its retained source.
pub open spec fn execution_outcome(q: RequestModel, r: Result<ResultModel, FindError>) -> bool {
    let bytes = encode_utf8(q.source);
    search_outcome(
        q.identity,
        retained_source(bytes, q.limits),
        bytes.len() as usize,
        encode_utf8(q.query),
        q.limits,
        r,
    )
}

/// The field of the find bar that takes input.
#[derive(Clone, Copy, Debug, Eq, PartialEq, Structural)]
pub enum FindField {
    Query,
    Replacement,
}

/// Where navigation moved the active match, and whether it wrapped.
#[derive(Clone, Copy, Debug, Eq, PartialEq, Structural)]
pub struct FindNavigation {
    pub index: usize,
    pub wrapped: bool,
}

impl FindNavigation {
    /// Index of the new active match.
    pub fn index(self) -> (i: usize)
        ensures
            i == self.index,
    {
        self.index
    }

    /// Whether navigation wrapped around an end.
    pub fn wrapped(self) -> (w: bool)
        ensures
            w == self.wrapped,
    {
        self.wrapped
    }
}

/// What became of a worker output.
#[derive(Clone, Copy, Debug, Eq, PartialEq, Structural)]
pub enum FindAdmission {
    Accepted,
    Stale,
    Failed,
}

/// The find bar's state, as values.
#[verifier::ext_equal]
pub struct FindModel {
    pub open: bool,
    pub replace_visible: bool,
    pub field: FindField,
    pub query: Seq<char>,
    pub replacement: Seq<char>,
    pub composition: Option<Seq<char>>,
    pub generation: u64,
    pub pending: Option<FindIdentity>,
    pub result: Option<ResultModel>,
    pub active: Option<usize>,
    pub status: Option<Seq<char>>,
    pub failures: u64,
    pub stale_results: u64,
}

/// The find bar: a query and replacement, the pending search and the
/// admitted result with its active match.
pub struct FindState {
    open: bool,
    replace_visible: bool,
    field: FindField,
    query: String,
    replacement: String,
    composition: Option<String>,
    generation: u64,
    pending: Option<FindIdentity>,
    result: Option<FindResult>,
    active: Option<usize>,
    status: Option<String>,
    failures: u64,
    stale_results: u64,
}

spec fn opt_text(s: Option<String>) -> Option<Seq<char>> {
    match s {
        Some(t) => Some(t@),
        None => None,
    }
}

spec fn opt_result(r: Option<FindResult>) -> Option<ResultModel> {
    match r {
        Some(v) => Some(v@),
        None => None,
    }
}

impl View for FindState {
    type V = FindModel;

    closed spec fn view(&self) -> FindModel {
        FindModel {
            open: self.open,
            replace_visible: self.replace_visible,
            field: self.field,
            query: self.query@,
            replacement: self.replacement@,
            composition: opt_text(self.composition),
            generation: self.generation,
            pending: self.pending,
            result: opt_result(self.result),
            active: self.active,
            status: opt_text(self.status),
            failures: self.failures,
            stale_results: self.stale_results,
        }
    }
}

/// One more, saturating at `u64::MAX`.
pub open spec fn bump(n: u64) -> u64 {
    if n == u64::MAX {
        n
    } else {
        (n + 1) as u64
    }
}

/// The text of the field that takes input.
pub open spec fn target_text(m: FindModel) -> Seq<char> {
    match m.field {
        FindField::Query => m.query,
        FindField::Replacement => m.replacement,
    }
}

/// The error for `actual` bytes of input in `field`, over the limit.
pub open spec fn too_long(field: FindField, actual: usize) -> FindError {
    match field {
        FindField::Query => FindError::QueryTooLong { actual, limit: MAX_QUERY_BYTES },
        FindField::Replacement => FindError::ReplacementTooLong { actual, limit: MAX_QUERY_BYTES },
    }
}

/// `m` with the text of its input field replaced by `text`.
pub open spec fn with_target(m: FindModel, text: Seq<char>) -> FindModel {
    match m.field {
        FindField::Query => FindModel { query: text, ..m },
        FindField::Replacement => FindModel { replacement: text, ..m },
    }
}

/// `m` after its query changed: a new generation, and nothing pending or
/// shown for the old one.
pub open spec fn after_query_change(m: FindModel, generation: u64) -> FindModel {
    FindModel { generation, pending: None, result: None, active: None, status: None, ..m }
}

/// `m` with the identity of its result current for `document` at
/// `buffer_revision`.
pub open spec fn result_current(m: FindModel, document: u64, buffer_revision: u64) -> bool {
    m.result matches Some(r) && r.identity.document == document && r.identity.buffer_revision
        == buffer_revision && r.identity.generation == m.generation
}

/// `m` after recording `error`.
pub open spec fn with_error(m: FindModel, error: FindError) -> FindModel {
    FindModel { failures: bump(m.failures), status: Some(find_error_message(error)), ..m }
}

impl Default for FindState {
    fn default() -> (s: Self)
        ensures
            s@ == (FindModel {
                open: false,
                replace_visible: false,
                field: FindField::Query,
                query: Seq::empty(),
                replacement: Seq::empty(),
                composition: None,
                generation: 0,
                pending: None,
                result: None,
                active: None,
                status: None,
                failures: 0,
                stale_results: 0,
            }),
    {
        FindState {
            open: false,
            replace_visible: false,
            field: FindField::Query,
            query: String::new(),
            replacement: String::new(),
            composition: None,
            generation: 0,
            pending: None,
            result: None,
            active: None,
            status: None,
            failures: 0,
            stale_results: 0,
        }
    }
}

impl FindState {
    /// Whether the find bar is open.
    pub fn is_open(&self) -> (r: bool)
        ensures
            r == self@.open,
    {
        self.open
    }

    /// The field that takes input.
    pub fn field(&self) -> (f: FindField)
        ensures
            f == self@.field,
    {
        self.field
    }

    /// The query.
    pub fn query(&self) -> (q: &str)
        ensures
            q@ == self@.query,
    {
        self.query.as_str()
    }

    /// The replacement.
    pub fn replacement(&self) -> (r: &str)
        ensures
            r@ == self@.replacement,
    {
        self.replacement.as_str()
    }

    /// The query generation.
    pub fn generation(&self) -> (g: u64)
        ensures
            g == self@.generation,
    {
        self.generation
    }

    /// Failures recorded so far.
    pub fn failures(&self) -> (n: u64)
        ensures
            n == self@.failures,
    {
        self.failures
    }

    /// Worker outputs refused as stale so far.
    pub fn stale_results(&self) -> (n: u64)
        ensures
            n == self@.stale_results,
    {
        self.stale_results
    }

    /// The admitted result.
    pub fn result(&self) -> (r: Option<&FindResult>)
        ensures
            match r {
                Some(v) => self@.result == Some(v@),
                None => self@.result is None,
            },
    {
        match &self.result {
            Some(v) => Some(v),
            None => None,
        }
    }

    /// Opens the bar, showing the replacement field when asked; reports
    /// whether anything became visible.
    pub fn open(&mut self, replace_visible: bool) -> (changed: bool)
        ensures
            changed == (!old(self)@.open || (replace_visible && !old(self)@.replace_visible)),
            final(self)@ == (FindModel {
                open: true,
                replace_visible: old(self)@.replace_visible || replace_visible,
                field: if replace_visible {
                    FindField::Replacement
                } else {
                    FindField::Query
                },
                composition: None,
                ..old(self)@
            }),
    {
        let changed = !self.open || (replace_visible && !self.replace_visible);
        self.open = true;
        self.replace_visible = self.replace_visible || replace_visible;
        self.field = if replace_visible {
            FindField::Replacement
        } else {
            FindField::Query
        };
        self.composition = None;
        changed
    }

    /// Closes the bar, dropping any pending search and result.
    pub fn close(&mut self) -> (changed: bool)
        ensures
            changed == old(self)@.open,
            final(self)@ == (FindModel {
                open: false,
                composition: None,
                pending: None,
                result: None,
                active: None,
                status: None,
                ..old(self)@
            }),
    {
        let changed = self.open;
        self.open = false;
        self.composition = None;
        self.pending = None;
        self.result = None;
        self.active = None;
        self.status = None;
        changed
    }

    /// Moves input to the other field when the replacement is shown.
    pub fn toggle_field(&mut self) -> (changed: bool)
        ensures
            changed == old(self)@.replace_visible,
            !changed ==> final(self)@ == old(self)@,
            changed ==> final(self)@ == (FindModel {
                field: match old(self)@.field {
                    FindField::Query => FindField::Replacement,
                    FindField::Replacement => FindField::Query,
                },
                composition: None,
                ..old(self)@
            }),
    {
        if !self.replace_visible {
            return false;
        }
        self.field = match self.field {
            FindField::Query => FindField::Replacement,
            FindField::Replacement => FindField::Query,
        };
        self.composition = None;
        true
    }

    /// Starts an empty input-method composition.
    pub fn begin_composition(&mut self) -> (changed: bool)
        ensures
            changed == (old(self)@.composition != Some(Seq::<char>::empty())),
            final(self)@ == (FindModel { composition: Some(Seq::empty()), ..old(self)@ }),
    {
        let changed = match &self.composition {
            Some(c) => {
                let n = c.as_str().unicode_len();
                proof {
                    if n == 0 {
                        assert(c@ =~= Seq::<char>::empty());
                    }
                }
                n != 0
            },
            None => true,
        };
        self.composition = Some(String::new());
        changed
    }

    /// Replaces the composition text.
    pub fn update_composition(&mut self, text: &str) -> (r: Result<bool, FindError>)
        ensures
            utf8_len(text@) > MAX_QUERY_BYTES ==> r == Err::<bool, FindError>(
                too_long(old(self)@.field, utf8_len(text@) as usize),
            ) && final(self)@ == old(self)@,
            utf8_len(text@) <= MAX_QUERY_BYTES ==> {
                ||| r == Err::<bool, FindError>(FindError::AllocationFailed) && final(self)@ == old(self)@
                ||| r == Ok::<bool, FindError>(old(self)@.composition != Some(text@)) && final(self)@
                    == (FindModel { composition: Some(text@), ..old(self)@ })
            },
    {
        let length = text.as_bytes().len();
        if length > MAX_QUERY_BYTES {
            return Err(
                match self.field {
                    FindField::Query => FindError::QueryTooLong { actual: length, limit: MAX_QUERY_BYTES },
                    FindField::Replacement => FindError::ReplacementTooLong {
                        actual: length,
                        limit: MAX_QUERY_BYTES,
                    },
                },
            );
        }
        let changed = match &self.composition {
            Some(c) => !crate::text::str_eq(c.as_str(), text),
            None => true,
        };
        let mut owned = String::new();
        if string_try_reserve_exact(&mut owned, length).is_err() {
            return Err(FindError::AllocationFailed);
        }
        owned.append(text);
        self.composition = Some(owned);
        Ok(changed)
    }

    /// Ends the composition, reporting whether there was one.
    pub fn cancel_composition(&mut self) -> (had: bool)
        ensures
            had == old(self)@.composition is Some,
            final(self)@ == (FindModel { composition: None, ..old(self)@ }),
    {
        let had = self.composition.is_some();
        self.composition = None;
        had
    }

    fn query_changed(&mut self, generation: u64)
        ensures
            final(self)@ == after_query_change(old(self)@, generation),
    {
        self.generation = generation;
        self.pending = None;
        self.result = None;
        self.active = None;
        self.status = None;
    }

    /// Appends committed text to the input field; a changed query starts a
    /// new generation. Reports whether the query changed.
    pub fn commit_text(&mut self, text: &str) -> (r: Result<bool, FindError>)
        ensures
            ({
                let cleared = FindModel { composition: None, ..old(self)@ };
                let is_query = old(self)@.field == FindField::Query;
                let next = utf8_len(target_text(old(self)@)) + utf8_len(text@);
                if is_query && old(self)@.generation == u64::MAX {
                    r == Err::<bool, FindError>(FindError::GenerationExhausted) && final(self)@ == cleared
                } else if next > usize::MAX {
                    r == Err::<bool, FindError>(FindError::OffsetOverflow) && final(self)@ == cleared
                } else if next > MAX_QUERY_BYTES {
                    r == Err::<bool, FindError>(too_long(old(self)@.field, next as usize)) && final(self)@ == cleared
                } else {
                    let appended = with_target(cleared, target_text(old(self)@) + text@);
                    ||| r == Err::<bool, FindError>(FindError::AllocationFailed) && final(self)@
                        == cleared
                    ||| r == Ok::<bool, FindError>(is_query) && final(self)@ == (if is_query {
                        after_query_change(appended, (old(self)@.generation + 1) as u64)
                    } else {
                        appended
                    })
                }
            }),
    {
        self.composition = None;
        let is_query = match self.field {
            FindField::Query => true,
            FindField::Replacement => false,
        };
        if is_query && self.generation == u64::MAX {
            return Err(FindError::GenerationExhausted);
        }
        let current = match self.field {
            FindField::Query => self.query.as_str().as_bytes().len(),
            FindField::Replacement => self.replacement.as_str().as_bytes().len(),
        };
        let length = text.as_bytes().len();
        if current > usize::MAX - length {
            return Err(FindError::OffsetOverflow);
        }
        let next = current + length;
        if next > MAX_QUERY_BYTES {
            return Err(
                match self.field {
                    FindField::Query => FindError::QueryTooLong { actual: next, limit: MAX_QUERY_BYTES },
                    FindField::Replacement => FindError::ReplacementTooLong {
                        actual: next,
                        limit: MAX_QUERY_BYTES,
                    },
                },
            );
        }
        match self.field {
            FindField::Query => {
                if string_try_reserve_exact(&mut self.query, length).is_err() {
                    return Err(FindError::AllocationFailed);
                }
                self.query.append(text);
            },
            FindField::Replacement => {
                if string_try_reserve_exact(&mut self.replacement, length).is_err() {
                    return Err(FindError::AllocationFailed);
                }
                self.replacement.append(text);
            },
        }
        if is_query {
            self.query_changed(self.generation + 1);
        }
        Ok(is_query)
    }

    /// Removes the last character of the input field; a changed query
    /// starts a new generation. Reports whether the query changed.
    pub fn delete_backward(&mut self) -> (r: Result<bool, FindError>)
        ensures
            ({
                let cleared = FindModel { composition: None, ..old(self)@ };
                let is_query = old(self)@.field == FindField::Query;
                let target = target_text(old(self)@);
                if is_query && old(self)@.query.len() > 0 && old(self)@.generation == u64::MAX {
                    r == Err::<bool, FindError>(FindError::GenerationExhausted) && final(self)@ == cleared
                } else if target.len() == 0 {
                    r == Ok::<bool, FindError>(false) && final(self)@ == cleared
                } else {
                    let shortened = with_target(cleared, target.drop_last());
                    r == Ok::<bool, FindError>(is_query) && final(self)@ == (if is_query {
                        after_query_change(shortened, (old(self)@.generation + 1) as u64)
                    } else {
                        shortened
                    })
                }
            }),
    {
        self.composition = None;
        let is_query = match self.field {
            FindField::Query => true,
            FindField::Replacement => false,
        };
        let query_chars = self.query.as_str().unicode_len();
        if is_query && query_chars > 0 && self.generation == u64::MAX {
            return Err(FindError::GenerationExhausted);
        }
        match self.field {
            FindField::Query => {
                if query_chars == 0 {
                    return Ok(false);
                }
                let shorter = String::from_str(self.query.as_str().substring_char(0, query_chars - 1));
                assert(shorter@ =~= old(self)@.query.drop_last());
                self.query = shorter;
            },
            FindField::Replacement => {
                let chars = self.replacement.as_str().unicode_len();
                if chars == 0 {
                    return Ok(false);
                }
                let shorter = String::from_str(self.replacement.as_str().substring_char(0, chars - 1));
                assert(shorter@ =~= old(self)@.replacement.drop_last());
                self.replacement = shorter;
            },
        }
        if is_query {
            self.query_changed(self.generation + 1);
        }
        Ok(is_query)
    }

    /// Drops the pending search and result after the document changed; an
    /// open bar with a query starts a new generation.
    pub fn document_changed(&mut self) -> (r: Result<bool, FindError>)
        ensures
            ({
                let cleared = FindModel { pending: None, result: None, active: None, ..old(self)@ };
                if !old(self)@.open || old(self)@.query.len() == 0 {
                    r == Ok::<bool, FindError>(false) && final(self)@ == cleared
                } else if old(self)@.generation == u64::MAX {
                    r == Err::<bool, FindError>(FindError::GenerationExhausted) && final(self)@ == cleared
                } else {
                    r == Ok::<bool, FindError>(true) && final(self)@ == (FindModel {
                        generation: (old(self)@.generation + 1) as u64,
                        ..cleared
                    })
                }
            }),
    {
        self.pending = None;
        self.result = None;
        self.active = None;
        if !self.open || self.query.as_str().unicode_len() == 0 {
            return Ok(false);
        }
        if self.generation == u64::MAX {
            return Err(FindError::GenerationExhausted);
        }
        self.generation = self.generation + 1;
        Ok(true)
    }

    /// A search of `source`, the document at `buffer_revision`, for the
    /// current query; none when the bar is closed or the query is empty.
    pub fn request(&mut self, document: u64, buffer_revision: u64, source: String) -> (r: Result<
        Option<FindRequest>,
        FindError,
    >)
        ensures
            ({
                let identity = FindIdentity { document, buffer_revision, generation: old(self)@.generation };
                if !old(self)@.open || old(self)@.query.len() == 0 {
                    r matches Ok(None) && final(self)@ == (FindModel {
                        pending: None,
                        result: None,
                        active: None,
                        ..old(self)@
                    })
                } else {
                    match r {
                        Ok(Some(q)) => q@ == (RequestModel {
                            identity,
                            source: source@,
                            query: old(self)@.query,
                            limits: FindLimits::shipping_spec(),
                        }) && final(self)@ == (FindModel {
                            pending: Some(identity),
                            status: None,
                            ..old(self)@
                        }),
                        Ok(None) => false,
                        Err(e) => request_outcome(
                            identity,
                            source@,
                            old(self)@.query,
                            FindLimits::shipping_spec(),
                            Err(e),
                        ) && final(self)@ == old(self)@,
                    }
                }
            }),
    {
        if !self.open || self.query.as_str().unicode_len() == 0 {
            self.pending = None;
            self.result = None;
            self.active = None;
            return Ok(None);
        }
        let identity = FindIdentity::new(document, buffer_revision, self.generation);
        let request = FindRequest::new(identity, source, self.query.as_str())?;
        self.pending = Some(identity);
        self.status = None;
        Ok(Some(request))
    }

    /// Records a failed error: one more failure and its message as status.
    pub fn record_error(&mut self, error: &FindError)
        ensures
            final(self)@ == with_error(old(self)@, *error),
    {
        if self.failures < u64::MAX {
            self.failures = self.failures + 1;
        }
        self.status = Some(error.message());
    }

    /// Withdraws the pending search `identity` after the worker refused it.
    pub fn reject_submission(&mut self, identity: FindIdentity) -> (r: bool)
        ensures
            r == (old(self)@.pending == Some(identity)),
            !r ==> final(self)@ == old(self)@,
            r ==> final(self)@ == with_error(
                FindModel { pending: None, ..old(self)@ },
                FindError::WorkerUnavailable,
            ),
    {
        match self.pending {
            Some(p) => {
                if p != identity {
                    return false;
                }
            },
            None => {
                return false;
            },
        }
        self.pending = None;
        self.record_error(&FindError::WorkerUnavailable);
        true
    }

    /// Takes a worker output for `document` at `buffer_revision`: only the
    /// pending search of the current generation is admitted.
    pub fn receive(&mut self, output: FindWorkerOutput, document: u64, buffer_revision: u64) -> (a:
        FindAdmission)
        ensures
            ({
                let identity = output@.identity;
                let stale = FindModel { stale_results: bump(old(self)@.stale_results), ..old(self)@ };
                if old(self)@.pending != Some(identity) || identity.document != document
                    || identity.buffer_revision != buffer_revision || identity.generation != old(self)@.generation {
                    a == FindAdmission::Stale && final(self)@ == stale
                } else {
                    match output@.result {
                        Ok(result) => if result.identity != identity {
                            a == FindAdmission::Stale && final(self)@ == (FindModel {
                                pending: None,
                                ..stale
                            })
                        } else {
                            a == FindAdmission::Accepted && final(self)@ == (FindModel {
                                pending: None,
                                result: Some(result),
                                active: if result.matches.len() == 0 {
                                    None
                                } else {
                                    Some(0usize)
                                },
                                status: None,
                                ..old(self)@
                            })
                        },
                        Err(error) => a == FindAdmission::Failed && final(self)@ == with_error(
                            FindModel { pending: None, result: None, active: None, ..old(self)@ },
                            error,
                        ),
                    }
                }
            }),
    {
        let identity = output.identity;
        let current = match self.pending {
            Some(p) => p == identity,
            None => false,
        };
        if !current || identity.document != document || identity.buffer_revision != buffer_revision
            || identity.generation != self.generation {
            if self.stale_results < u64::MAX {
                self.stale_results = self.stale_results + 1;
            }
            return FindAdmission::Stale;
        }
        self.pending = None;
        match output.result {
            Ok(result) => {
                if result.identity != identity {
                    if self.stale_results < u64::MAX {
                        self.stale_results = self.stale_results + 1;
                    }
                    return FindAdmission::Stale;
                }
                self.active = if result.matches.len() == 0 {
                    None
                } else {
                    Some(0)
                };
                self.result = Some(result);
                self.status = None;
                FindAdmission::Accepted
            },
            Err(error) => {
                self.result = None;
                self.active = None;
                self.record_error(&error);
                FindAdmission::Failed
            },
        }
    }

    /// Moves the active match forward or back, wrapping at either end.
    pub fn navigate(&mut self, forward: bool) -> (r: Option<FindNavigation>)
        ensures
            match old(self)@.result {
                None => r is None && final(self)@ == old(self)@,
                Some(result) => {
                    let n = result.matches.len();
                    if n == 0 {
                        r is None && final(self)@ == (FindModel { active: None, ..old(self)@ })
                    } else {
                        let (index, wrapped) = navigation_step(old(self)@.active, forward, n as int);
                        r == Some(FindNavigation { index: index as usize, wrapped }) && final(self)@
                            == (FindModel { active: Some(index as usize), ..old(self)@ })
                    }
                },
            },
    {
        let n = match &self.result {
            Some(result) => result.matches.len(),
            None => {
                return None;
            },
        };
        if n == 0 {
            self.active = None;
            return None;
        }
        let (index, wrapped) = match self.active {
            None => if forward {
                (0, false)
            } else {
                (n - 1, false)
            },
            Some(active) => if forward {
                if active < n - 1 {
                    (active + 1, false)
                } else {
                    (0, true)
                }
            } else {
                if active > 0 {
                    (active - 1, false)
                } else {
                    (n - 1, true)
                }
            },
        };
        self.active = Some(index);
        Some(FindNavigation { index, wrapped })
    }

    /// The active match, when the result is current for `document` at
    /// `buffer_revision`.
    pub fn active_range(&self, document: u64, buffer_revision: u64) -> (r: Option<Range<usize>>)
        ensures
            r == (if result_current(self@, document, buffer_revision) {
                match self@.active {
                    Some(i) => if i < self@.result->0.matches.len() {
                        Some(self@.result->0.matches[i as int])
                    } else {
                        None
                    },
                    None => None,
                }
            } else {
                None
            }),
    {
        let result = match &self.result {
            Some(result) => result,
            None => {
                return None;
            },
        };
        if result.identity.document != document || result.identity.buffer_revision != buffer_revision
            || result.identity.generation != self.generation {
            return None;
        }
        match self.active {
            Some(i) => result.range(i),
            None => None,
        }
    }

    /// Every match, when the result is current and complete.
    pub fn all_ranges(&self, document: u64, buffer_revision: u64) -> (r: Option<&[Range<usize>]>)
        ensures
            match r {
                Some(ranges) => result_current(self@, document, buffer_revision)
                    && self@.result->0.source_bytes >= self@.result->0.total_source_bytes
                    && !self@.result->0.matches_truncated && ranges@ == self@.result->0.matches,
                None => !(result_current(self@, document, buffer_revision)
                    && self@.result->0.source_bytes >= self@.result->0.total_source_bytes
                    && !self@.result->0.matches_truncated),
            },
    {
        let result = match &self.result {
            Some(result) => result,
            None => {
                return None;
            },
        };
        if result.identity.document != document || result.identity.buffer_revision != buffer_revision
            || result.identity.generation != self.generation {
            return None;
        }
        if result.source_truncated() || result.matches_truncated() {
            return None;
        }
        Some(result.matches.as_slice())
    }

    /// The matches meeting `bytes`, when the result is current.
    pub fn visible_ranges(&self, document: u64, buffer_revision: u64, bytes: Range<usize>) -> (r: &[Range<
        usize,
    >])
        ensures
            r@ == (if result_current(self@, document, buffer_revision) {
                visible_matches(self@.result->0.matches, bytes)
            } else {
                Seq::empty()
            }),
    {
        let result = match &self.result {
            Some(result) => result,
            None => {
                return &[];
            },
        };
        if result.identity.document != document || result.identity.buffer_revision != buffer_revision
            || result.identity.generation != self.generation {
            return &[];
        }
        result.visible(bytes)
    }
}

/// The next active index among `n` matches, and whether it wrapped.
pub open spec fn navigation_step(active: Option<usize>, forward: bool, n: int) -> (int, bool) {
    match active {
        None => if forward {
            (0, false)
        } else {
            (n - 1, false)
        },
        Some(a) => if forward {
            if a + 1 < n {
                (a + 1, false)
            } else {
                (0, true)
            }
        } else {
            if a > 0 {
                (a - 1, false)
            } else {
                (n - 1, true)
            }
        },
    }
}

/// The first character boundary of `bytes` at or after `i`.
pub open spec fn boundary_at_or_after(bytes: Seq<u8>, i: int) -> int
    decreases bytes.len() - i,
{
    if i >= bytes.len() {
        bytes.len() as int
    } else if is_char_boundary(bytes, i) {
        i
    } else {
        boundary_at_or_after(bytes, i + 1)
    }
}

/// The byte offset where the last `bytes` bytes of `value` begin, moved
/// forward to a character boundary.
pub open spec fn suffix_start(value: Seq<char>, bytes: usize) -> int {
    let encoded = encode_utf8(value);
    let candidate = if encoded.len() < bytes {
        0
    } else {
        encoded.len() - bytes
    };
    boundary_at_or_after(encoded, candidate)
}

proof fn lemma_boundary_at_or_after(bytes: Seq<u8>, i: int)
    requires
        0 <= i <= bytes.len(),
        vstd::utf8::valid_utf8(bytes),
    ensures
        i <= boundary_at_or_after(bytes, i) <= bytes.len(),
        is_char_boundary(bytes, boundary_at_or_after(bytes, i)),
    decreases bytes.len() - i,
{
    broadcast use vstd::utf8::is_char_boundary_start_end_of_seq;

    if i < bytes.len() && !is_char_boundary(bytes, i) {
        lemma_boundary_at_or_after(bytes, i + 1);
    }
}

/// Byte offset of the suffix of `value` that fits in `bytes`, starting on a
/// character boundary.
pub fn suffix_boundary(value: &str, bytes: usize) -> (start: usize)
    ensures
        start == suffix_start(value@, bytes),
        is_char_boundary(encode_utf8(value@), start as int),
        start <= encode_utf8(value@).len(),
{
    let length = value.as_bytes().len();
    let mut i = if length < bytes {
        0
    } else {
        length - bytes
    };
    proof {
        broadcast use vstd::utf8::encode_utf8_valid_utf8;
        lemma_boundary_at_or_after(encode_utf8(value@), i as int);
    }
    let ghost first = i as int;
    while i < length && !value.is_char_boundary(i)
        invariant
            first <= i <= length,
            length == encode_utf8(value@).len(),
            vstd::utf8::valid_utf8(encode_utf8(value@)),
            boundary_at_or_after(encode_utf8(value@), i as int) == boundary_at_or_after(
                encode_utf8(value@),
                first,
            ),
        decreases length - i,
    {
        i += 1;
    }
    proof {
        lemma_boundary_at_or_after(encode_utf8(value@), i as int);
    }
    i
}

/// The label of the input field.
pub open spec fn find_label(field: FindField) -> Seq<char> {
    match field {
        FindField::Query => "Find: "@,
        FindField::Replacement => "Replace: "@,
    }
}

/// The tail of `value` that the display shows, marked when cut.
pub open spec fn find_value_tail(value: Seq<char>) -> Seq<char> {
    let start = suffix_start(value, MAX_DISPLAY_BYTES);
    let ellipsis = if start > 0 {
        "..."@
    } else {
        Seq::empty()
    };
    ellipsis + vstd::utf8::decode_utf8(encode_utf8(value).subrange(start, encode_utf8(value).len() as int))
}

/// The match position and count, marked when the result is truncated.
pub open spec fn find_position(result: Option<ResultModel>, active: Option<usize>) -> Seq<char> {
    match result {
        Some(r) => {
            let shown = match active {
                Some(i) => if i == usize::MAX {
                    i as nat
                } else {
                    (i + 1) as nat
                },
                None => 0,
            };
            "  "@ + decimal(shown) + "/"@ + decimal(r.matches.len()) + if r.source_bytes
                < r.total_source_bytes || r.matches_truncated {
                "  truncated"@
            } else {
                Seq::empty()
            }
        },
        None => Seq::empty(),
    }
}

/// The text the find bar shows: the field, the tail of its value that fits
/// the display, the preedit, the match position and count, and the status.
pub open spec fn find_display(m: FindModel) -> Seq<char> {
    let composition = match m.composition {
        Some(c) => c,
        None => Seq::empty(),
    };
    let status = match m.status {
        Some(s) => "  "@ + s,
        None => Seq::empty(),
    };
    find_label(m.field) + find_value_tail(target_text(m)) + composition + find_position(
        m.result,
        m.active,
    ) + status
}

fn value_tail(value: &str) -> (t: String)
    ensures
        t@ == find_value_tail(value@),
{
    let start = suffix_boundary(value, MAX_DISPLAY_BYTES);
    let mut t = String::new();
    if start > 0 {
        t.append("...");
    }
    let (_, tail) = value.split_at(start);
    proof {
        broadcast use vstd::utf8::encode_utf8_decode_utf8;

        assert(vstd::utf8::decode_utf8(encode_utf8(tail@)) == tail@);
    }
    t.append(tail);
    proof {
        if start > 0 {
            assert(t@ =~= "..."@ + tail@);
        } else {
            assert(t@ =~= tail@);
        }
    }
    t
}

fn position_text(result: &Option<FindResult>, active: Option<usize>) -> (t: String)
    ensures
        t@ == find_position(opt_result(*result), active),
{
    let mut t = String::new();
    match result {
        Some(result) => {
            let shown = match active {
                Some(i) => if i == usize::MAX {
                    i
                } else {
                    i + 1
                },
                None => 0,
            };
            t.append("  ");
            t.append(usize_to_decimal(shown).as_str());
            t.append("/");
            t.append(usize_to_decimal(result.len()).as_str());
            let truncated = result.source_truncated() || result.matches_truncated();
            if truncated {
                t.append("  truncated");
            }
            proof {
                let base = "  "@ + decimal(shown as nat) + "/"@ + decimal(result@.matches.len());
                if truncated {
                    assert(t@ =~= base + "  truncated"@);
                } else {
                    assert(t@ =~= base + Seq::<char>::empty());
                }
            }
        },
        None => {},
    }
    t
}

impl FindState {
    /// The text the find bar shows.
    pub fn display_text(&self) -> (r: Result<String, FindError>)
        ensures
            r matches Ok(text) ==> text@ == find_display(self@),
            r matches Err(e) ==> e == FindError::AllocationFailed,
    {
        let mut display = String::new();
        if string_try_reserve_exact(&mut display, MAX_DISPLAY_BYTES + 96).is_err() {
            return Err(FindError::AllocationFailed);
        }
        let value = match self.field {
            FindField::Query => {
                display.append("Find: ");
                self.query.as_str()
            },
            FindField::Replacement => {
                display.append("Replace: ");
                self.replacement.as_str()
            },
        };
        let ghost label = display@;
        let tail = value_tail(value);
        display.append(tail.as_str());
        let ghost with_tail = display@;
        match &self.composition {
            Some(c) => display.append(c.as_str()),
            None => {},
        }
        let ghost with_composition = display@;
        let position = position_text(&self.result, self.active);
        display.append(position.as_str());
        let ghost with_position = display@;
        match &self.status {
            Some(status) => {
                display.append("  ");
                display.append(status.as_str());
            },
            None => {},
        }
        proof {
            let composition = match self@.composition {
                Some(c) => c,
                None => Seq::empty(),
            };
            let status = match self@.status {
                Some(s) => "  "@ + s,
                None => Seq::empty(),
            };
            assert(label == find_label(self@.field));
            assert(with_tail == label + find_value_tail(target_text(self@)));
            assert(with_composition =~= with_tail + composition);
            assert(display@ =~= with_position + status);
            assert(display@ =~= find_display(self@));
        }
        Ok(display)
    }
}

proof fn lemma_no_occurrence_no_matches(src: Seq<u8>, q: Seq<u8>, pos: int)
    requires
        forall|i: int| !occurs_at(src, q, i),
    ensures
        literal_matches(src, q, pos).len() == 0,
    decreases src.len() - pos,
{
    if q.len() == 0 || pos < 0 || pos + q.len() > src.len() {
    } else {
        assert(!occurs_at(src, q, pos));
        lemma_no_occurrence_no_matches(src, q, pos + 1);
    }
}

/// Once room for its matches is granted, a search of consistent inputs
/// succeeds: where the query occurs nowhere in the source, with no matches
/// and nothing truncated; otherwise with occurrences of the query only.
pub proof fn law_granted_search_succeeds(
    identity: FindIdentity,
    src: Seq<u8>,
    total_source_bytes: usize,
    q: Seq<u8>,
    limits: FindLimits,
)
    requires
        src.len() <= total_source_bytes,
        q.len() <= limits.query_bytes,
    ensures
        granted_outcome(identity, src, total_source_bytes, q, limits, true) is Ok,
        (forall|i: int| !occurs_at(src, q, i)) ==> granted_outcome(identity, src, total_source_bytes, q, limits, true)
            == Ok::<ResultModel, FindError>(
            ResultModel {
                identity,
                matches: Seq::empty(),
                source_bytes: src.len() as usize,
                total_source_bytes,
                matches_truncated: false,
            },
        ),
        forall|k: int|
            0 <= k < (granted_outcome(identity, src, total_source_bytes, q, limits, true)->Ok_0).matches.len()
                ==> occurs_at(
                src,
                q,
                #[trigger] (granted_outcome(identity, src, total_source_bytes, q, limits, true)->Ok_0).matches[k].start
                    as int,
            ),
{
    law_literal_matches_are_ordered_non_overlapping(src, q, 0);
    if forall|i: int| !occurs_at(src, q, i) {
        lemma_no_occurrence_no_matches(src, q, 0);
        assert(found_ranges(src, q) =~= Seq::<Range<usize>>::empty());
    }
    let all = literal_matches(src, q, 0);
    let m = granted_outcome(identity, src, total_source_bytes, q, limits, true)->Ok_0;
    assert forall|k: int| 0 <= k < m.matches.len() implies occurs_at(src, q, #[trigger] m.matches[k].start as int) by {
        assert(occurs_at(src, q, all[k]));
        assert(all[k] + q.len() <= src.len());
    }
}

} // verus!
