//! Bounded byte framing for local Language Server Protocol streams.
use crate::lsp_header::{
    advance_delimiter, advance_delimiter_spec, parse_header,
    parse_header_spec,
};
use crate::std_calls::{vec_capacity, vec_try_reserve_exact};
use vstd::prelude::*;

verus! {

/// Default bound on one header, terminator included.
pub const DEFAULT_LSP_HEADER_BYTES: usize = 8192;

/// Default bound on one message body.
pub const DEFAULT_LSP_MESSAGE_BYTES: usize = 16777216;

/// Default bound on the frames of one batch.
pub const DEFAULT_LSP_BATCH_FRAMES: usize = 32;

/// Default bound on the body bytes of one batch.
pub const DEFAULT_LSP_BATCH_BYTES: usize = 16777216;

/// Length of the header terminator `\r\n\r\n`.
pub const HEADER_TERMINATOR_LEN: usize = 4;

/// Which part of a frame the framer is reading.
#[derive(Clone, Copy, Debug, Eq, PartialEq, Structural)]
pub enum LspFramePhase {
    Header,
    Body,
}

/// Why a stream could not be framed.
#[derive(Clone, Copy, Debug, Eq, PartialEq, Structural)]
pub enum LspFrameError {
    InvalidLimits,
    Poisoned,
    NonAsciiHeader,
    HeaderTooLarge { limit: usize },
    MalformedHeader,
    UnsupportedHeader,
    MissingContentLength,
    DuplicateContentLength,
    InvalidContentLength,
    EmptyBody,
    BodyTooLarge { declared: usize, limit: usize },
    UnsupportedContentType,
    AllocationFailed(LspFramePhase),
    SequenceExhausted,
    CounterOverflow,
    InvalidState,
    UnexpectedEof { phase: LspFramePhase, buffered: usize, expected: Option<usize> },
}

/// Failures that come from the allocator rather than from the stream: a
/// refused reservation, or a reservation larger than the bound it serves.
pub open spec fn resource_failure(e: LspFrameError) -> bool {
    e is AllocationFailed || e == LspFrameError::InvalidState
}

/// The four bounds of a framer.
pub struct LimitsModel {
    pub header_bytes: usize,
    pub message_bytes: usize,
    pub batch_frames: usize,
    pub batch_bytes: usize,
}

/// Bounds that a framer can work with.
pub open spec fn limits_valid(l: LimitsModel) -> bool {
    &&& l.header_bytes >= HEADER_TERMINATOR_LEN
    &&& l.message_bytes > 0
    &&& l.batch_frames > 0
    &&& l.batch_bytes >= l.message_bytes
}

/// Validated framing bounds.
#[derive(Clone, Copy, Debug, Eq, PartialEq)]
pub struct LspFrameLimits {
    header_bytes: usize,
    message_bytes: usize,
    batch_frames: usize,
    batch_bytes: usize,
}

impl View for LspFrameLimits {
    type V = LimitsModel;

    closed spec fn view(&self) -> LimitsModel {
        LimitsModel {
            header_bytes: self.header_bytes,
            message_bytes: self.message_bytes,
            batch_frames: self.batch_frames,
            batch_bytes: self.batch_bytes,
        }
    }
}

impl LspFrameLimits {
    #[verifier::type_invariant]
    spec fn inv(self) -> bool {
        limits_valid(self@)
    }

    /// Validates four framing bounds.
    pub fn new(header_bytes: usize, message_bytes: usize, batch_frames: usize, batch_bytes: usize) -> (r:
        Result<Self, LspFrameError>)
        ensures
            ({
                let m = LimitsModel { header_bytes, message_bytes, batch_frames, batch_bytes };
                &&& limits_valid(m) ==> (r matches Ok(l) && l@ == m)
                &&& !limits_valid(m) ==> r == Err::<Self, LspFrameError>(LspFrameError::InvalidLimits)
            }),
    {
        if header_bytes < HEADER_TERMINATOR_LEN || message_bytes == 0 || batch_frames == 0
            || batch_bytes < message_bytes {
            return Err(LspFrameError::InvalidLimits);
        }
        Ok(Self { header_bytes, message_bytes, batch_frames, batch_bytes })
    }
}

impl Default for LspFrameLimits {
    fn default() -> (l: Self)
        ensures
            l@ == (LimitsModel {
                header_bytes: DEFAULT_LSP_HEADER_BYTES,
                message_bytes: DEFAULT_LSP_MESSAGE_BYTES,
                batch_frames: DEFAULT_LSP_BATCH_FRAMES,
                batch_bytes: DEFAULT_LSP_BATCH_BYTES,
            }),
    {
        Self {
            header_bytes: DEFAULT_LSP_HEADER_BYTES,
            message_bytes: DEFAULT_LSP_MESSAGE_BYTES,
            batch_frames: DEFAULT_LSP_BATCH_FRAMES,
            batch_bytes: DEFAULT_LSP_BATCH_BYTES,
        }
    }
}

/// One framed message: its sequence number and its exact body bytes.
#[derive(Debug, Eq, PartialEq)]
pub struct LspFrame {
    sequence: u64,
    body: Vec<u8>,
}

impl View for LspFrame {
    type V = (u64, Seq<u8>);

    closed spec fn view(&self) -> (u64, Seq<u8>) {
        (self.sequence, self.body@)
    }
}

impl LspFrame {
    /// The frame's sequence number, counted from one per framer.
    pub fn sequence(&self) -> (s: u64)
        ensures
            s == self@.0,
    {
        self.sequence
    }

    /// The frame's body bytes.
    pub fn body(&self) -> (b: &[u8])
        ensures
            b@ == self@.1,
    {
        self.body.as_slice()
    }
}

/// The frames of one `ingest` call, in stream order.
#[derive(Debug, Eq, PartialEq)]
pub struct LspFrameBatch {
    consumed: usize,
    body_bytes: usize,
    frames: Vec<LspFrame>,
}

/// The frames of a batch, as values.
pub open spec fn frames_view(frames: Seq<LspFrame>) -> Seq<(u64, Seq<u8>)> {
    frames.map_values(|f: LspFrame| f@)
}

impl View for LspFrameBatch {
    type V = (usize, usize, Seq<(u64, Seq<u8>)>);

    closed spec fn view(&self) -> (usize, usize, Seq<(u64, Seq<u8>)>) {
        (self.consumed, self.body_bytes, frames_view(self.frames@))
    }
}

impl LspFrameBatch {
    /// Input bytes consumed by the call.
    pub fn consumed(&self) -> (c: usize)
        ensures
            c == self@.0,
    {
        self.consumed
    }

    /// Body bytes of the batch's frames.
    pub fn body_bytes(&self) -> (b: usize)
        ensures
            b == self@.1,
    {
        self.body_bytes
    }

    /// The batch's frames.
    pub fn frames(&self) -> (f: &[LspFrame])
        ensures
            frames_view(f@) == self@.2,
    {
        self.frames.as_slice()
    }

    /// The batch's frames, taken out of it.
    pub fn into_frames(self) -> (f: Vec<LspFrame>)
        ensures
            frames_view(f@) == self@.2,
    {
        self.frames
    }
}

/// Read-only accounting of a framer.
#[derive(Clone, Copy, Debug, Eq, PartialEq)]
pub struct LspFramerSnapshot {
    phase: LspFramePhase,
    buffered_bytes: usize,
    retained_bytes: usize,
    peak_buffered_bytes: usize,
    peak_retained_bytes: usize,
    frames_emitted: u64,
    body_bytes_emitted: u64,
    poisoned: bool,
}

impl LspFramerSnapshot {
    pub closed spec fn spec_phase(self) -> LspFramePhase {
        self.phase
    }

    pub closed spec fn spec_buffered_bytes(self) -> usize {
        self.buffered_bytes
    }

    pub closed spec fn spec_retained_bytes(self) -> usize {
        self.retained_bytes
    }

    pub closed spec fn spec_peak_buffered_bytes(self) -> usize {
        self.peak_buffered_bytes
    }

    pub closed spec fn spec_peak_retained_bytes(self) -> usize {
        self.peak_retained_bytes
    }

    pub closed spec fn spec_frames_emitted(self) -> u64 {
        self.frames_emitted
    }

    pub closed spec fn spec_body_bytes_emitted(self) -> u64 {
        self.body_bytes_emitted
    }

    pub closed spec fn spec_poisoned(self) -> bool {
        self.poisoned
    }

    /// Phase at the time of the snapshot.
    pub fn phase(self) -> (p: LspFramePhase)
        ensures
            p == self.spec_phase(),
    {
        self.phase
    }

    /// Bytes buffered for the current header or body.
    pub fn buffered_bytes(self) -> (b: usize)
        ensures
            b == self.spec_buffered_bytes(),
    {
        self.buffered_bytes
    }

    /// Capacity held for the current header or body.
    pub fn retained_bytes(self) -> (b: usize)
        ensures
            b == self.spec_retained_bytes(),
    {
        self.retained_bytes
    }

    /// Largest buffered length observed.
    pub fn peak_buffered_bytes(self) -> (b: usize)
        ensures
            b == self.spec_peak_buffered_bytes(),
    {
        self.peak_buffered_bytes
    }

    /// Largest capacity observed.
    pub fn peak_retained_bytes(self) -> (b: usize)
        ensures
            b == self.spec_peak_retained_bytes(),
    {
        self.peak_retained_bytes
    }

    /// Frames emitted so far.
    pub fn frames_emitted(self) -> (n: u64)
        ensures
            n == self.spec_frames_emitted(),
    {
        self.frames_emitted
    }

    /// Body bytes emitted so far.
    pub fn body_bytes_emitted(self) -> (n: u64)
        ensures
            n == self.spec_body_bytes_emitted(),
    {
        self.body_bytes_emitted
    }

    /// Whether an earlier failure poisoned the framer.
    pub fn poisoned(self) -> (p: bool)
        ensures
            p == self.spec_poisoned(),
    {
        self.poisoned
    }
}

/// What the framer is reading, as values.
#[verifier::ext_equal]
pub enum PhaseModel {
    /// Header bytes so far, and how much of the terminator they end with.
    Header { bytes: Seq<u8>, matched: usize },
    /// The declared body length, and the body bytes so far.
    Body { expected: usize, bytes: Seq<u8> },
}

/// The framer's state, as values.
#[verifier::ext_equal]
pub struct FramerModel {
    pub phase: PhaseModel,
    pub frames_emitted: u64,
    pub body_bytes_emitted: u64,
    pub peak_buffered: usize,
}

/// States that the framer reaches between calls.
pub open spec fn phase_wf(l: LimitsModel, p: PhaseModel) -> bool {
    match p {
        PhaseModel::Header { bytes, matched } => bytes.len() < l.header_bytes && matched < 4,
        PhaseModel::Body { expected, bytes } => 0 < expected <= l.message_bytes && bytes.len()
            < expected,
    }
}

/// Bytes buffered in a phase.
pub open spec fn phase_bytes(p: PhaseModel) -> Seq<u8> {
    match p {
        PhaseModel::Header { bytes, .. } => bytes,
        PhaseModel::Body { bytes, .. } => bytes,
    }
}

pub open spec fn max_usize(a: usize, b: int) -> usize {
    if b > a {
        b as usize
    } else {
        a
    }
}

/// One input byte: the next state and, where the byte completes a body, that body.
pub open spec fn step(l: LimitsModel, m: FramerModel, b: u8) -> Result<
    (FramerModel, Option<Seq<u8>>),
    LspFrameError,
> {
    match m.phase {
        PhaseModel::Header { bytes, matched } => {
            if b >= 128 {
                Err(LspFrameError::NonAsciiHeader)
            } else if bytes.len() == l.header_bytes {
                Err(LspFrameError::HeaderTooLarge { limit: l.header_bytes })
            } else {
                let nb = bytes.push(b);
                let nm = advance_delimiter_spec(matched, b);
                let peak = max_usize(m.peak_buffered, nb.len() as int);
                if nm == HEADER_TERMINATOR_LEN {
                    match parse_header_spec(nb, l.message_bytes) {
                        Err(e) => Err(e),
                        Ok(n) => Ok(
                            (
                                FramerModel {
                                    phase: PhaseModel::Body { expected: n, bytes: Seq::empty() },
                                    peak_buffered: peak,
                                    ..m
                                },
                                None,
                            ),
                        ),
                    }
                } else if nb.len() == l.header_bytes {
                    Err(LspFrameError::HeaderTooLarge { limit: l.header_bytes })
                } else {
                    Ok(
                        (
                            FramerModel {
                                phase: PhaseModel::Header { bytes: nb, matched: nm },
                                peak_buffered: peak,
                                ..m
                            },
                            None,
                        ),
                    )
                }
            }
        },
        PhaseModel::Body { expected, bytes } => {
            let nb = bytes.push(b);
            let peak = max_usize(m.peak_buffered, nb.len() as int);
            if nb.len() == expected {
                if m.frames_emitted == u64::MAX {
                    Err(LspFrameError::SequenceExhausted)
                } else if m.body_bytes_emitted + expected > u64::MAX {
                    Err(LspFrameError::CounterOverflow)
                } else {
                    Ok(
                        (
                            FramerModel {
                                phase: PhaseModel::Header { bytes: Seq::empty(), matched: 0 },
                                frames_emitted: (m.frames_emitted + 1) as u64,
                                body_bytes_emitted: (m.body_bytes_emitted + expected) as u64,
                                peak_buffered: peak,
                            },
                            Some(nb),
                        ),
                    )
                }
            } else {
                Ok(
                    (
                        FramerModel {
                            phase: PhaseModel::Body { expected, bytes: nb },
                            peak_buffered: peak,
                            ..m
                        },
                        None,
                    ),
                )
            }
        },
    }
}

/// The frames of a stream read byte by byte, with no batch bounds.
pub open spec fn run_bytes(l: LimitsModel, m: FramerModel, input: Seq<u8>) -> Result<
    (FramerModel, Seq<(u64, Seq<u8>)>),
    LspFrameError,
>
    decreases input.len(),
{
    if input.len() == 0 {
        Ok((m, Seq::empty()))
    } else {
        match step(l, m, input[0]) {
            Err(e) => Err(e),
            Ok((m2, out)) => match run_bytes(l, m2, input.drop_first()) {
                Err(e) => Err(e),
                Ok((m3, rest)) => Ok(
                    (
                        m3,
                        match out {
                            Some(body) => seq![(m2.frames_emitted, body)] + rest,
                            None => rest,
                        },
                    ),
                ),
            },
        }
    }
}

/// One `ingest` call from `pos` on: the state, the consumed count, the frames
/// and the body bytes of the batch when the call stops.
pub open spec fn ingest_from(
    l: LimitsModel,
    m: FramerModel,
    input: Seq<u8>,
    pos: int,
    frames: Seq<(u64, Seq<u8>)>,
    body_bytes: int,
) -> Result<(FramerModel, int, Seq<(u64, Seq<u8>)>, int), LspFrameError>
    decreases input.len() - pos,
{
    if pos >= input.len() || frames.len() >= l.batch_frames {
        Ok((m, pos, frames, body_bytes))
    } else {
        let projected = match m.phase {
            PhaseModel::Body { expected, .. } => body_bytes + expected,
            _ => 0,
        };
        if m.phase is Body && projected > usize::MAX {
            Err(LspFrameError::CounterOverflow)
        } else if m.phase is Body && frames.len() > 0 && projected > l.batch_bytes {
            Ok((m, pos, frames, body_bytes))
        } else {
            match step(l, m, input[pos]) {
                Err(e) => Err(e),
                Ok((m2, None)) => ingest_from(l, m2, input, pos + 1, frames, body_bytes),
                Ok((m2, Some(body))) => if body_bytes + body.len() > usize::MAX {
                    Err(LspFrameError::CounterOverflow)
                } else if body_bytes + body.len() > l.batch_bytes {
                    Err(LspFrameError::InvalidState)
                } else {
                    ingest_from(
                        l,
                        m2,
                        input,
                        pos + 1,
                        frames.push((m2.frames_emitted, body)),
                        body_bytes + body.len(),
                    )
                },
            }
        }
    }
}

/// One `ingest` call on `input`, from state `m`.
pub open spec fn ingest_spec(l: LimitsModel, m: FramerModel, input: Seq<u8>) -> Result<
    (FramerModel, int, Seq<(u64, Seq<u8>)>, int),
    LspFrameError,
> {
    ingest_from(l, m, input, 0, Seq::empty(), 0)
}

/// A framer's state, as values.
pub struct FramerView {
    pub limits: LimitsModel,
    pub model: FramerModel,
    pub poisoned: bool,
}

struct ReadState {
    body: bool,
    bytes: Vec<u8>,
    delimiter_match: usize,
    expected: usize,
}

/// Splits an LSP byte stream into bounded frames.
pub struct LspFramer {
    limits: LspFrameLimits,
    state: ReadState,
    peak_buffered_bytes: usize,
    peak_retained_bytes: usize,
    /// Frames emitted so far; the next frame's sequence is one more.
    pub frames_emitted: u64,
    /// Body bytes emitted so far.
    pub body_bytes_emitted: u64,
    poisoned: bool,
}

impl View for LspFramer {
    type V = FramerView;

    closed spec fn view(&self) -> FramerView {
        FramerView {
            limits: self.limits@,
            model: FramerModel {
                phase: if self.state.body {
                    PhaseModel::Body { expected: self.state.expected, bytes: self.state.bytes@ }
                } else {
                    PhaseModel::Header { bytes: self.state.bytes@, matched: self.state.delimiter_match }
                },
                frames_emitted: self.frames_emitted,
                body_bytes_emitted: self.body_bytes_emitted,
                peak_buffered: self.peak_buffered_bytes,
            },
            poisoned: self.poisoned,
        }
    }
}

/// Grows `bytes` so that `additional` more bytes fit, doubling from 64 bytes
/// and never past `limit`.
fn reserve_bounded(bytes: &mut Vec<u8>, additional: usize, limit: usize, phase: LspFramePhase) -> (r:
    Result<(), LspFrameError>)
    requires
        old(bytes)@.len() + additional <= limit,
    ensures
        final(bytes)@ == old(bytes)@,
        r matches Err(e) ==> e == LspFrameError::AllocationFailed(phase) || e
            == LspFrameError::InvalidState,
{
    let required = match bytes.len().checked_add(additional) {
        Some(n) => n,
        None => return Err(LspFrameError::CounterOverflow),
    };
    if required > limit {
        return Err(LspFrameError::InvalidState);
    }
    let capacity = vec_capacity(bytes);
    if required <= capacity {
        return Ok(());
    }
    let grown = if capacity == 0 {
        64
    } else {
        if capacity > usize::MAX / 2 {
            usize::MAX
        } else {
            capacity * 2
        }
    };
    let bounded = if grown < limit {
        grown
    } else {
        limit
    };
    let target = if bounded > required {
        bounded
    } else {
        required
    };
    if vec_try_reserve_exact(bytes, target - capacity).is_err() {
        return Err(LspFrameError::AllocationFailed(phase));
    }
    if vec_capacity(bytes) > limit {
        return Err(LspFrameError::InvalidState);
    }
    Ok(())
}


/// The state after body bytes `chunk` that do not complete the body.
pub open spec fn body_after(m: FramerModel, chunk: Seq<u8>) -> FramerModel {
    if chunk.len() == 0 {
        m
    } else {
        match m.phase {
            PhaseModel::Body { expected, bytes } => FramerModel {
                phase: PhaseModel::Body { expected, bytes: bytes + chunk },
                peak_buffered: max_usize(m.peak_buffered, (bytes.len() + chunk.len()) as int),
                ..m
            },
            _ => m,
        }
    }
}

/// Body bytes that do not complete the body pass through `ingest` without
/// stopping it, one step each.
proof fn lemma_body_chunk(
    l: LimitsModel,
    m: FramerModel,
    input: Seq<u8>,
    pos: int,
    frames: Seq<(u64, Seq<u8>)>,
    body_bytes: int,
    k: int,
)
    requires
        m.phase is Body,
        0 <= k,
        0 <= pos,
        pos + k <= input.len(),
        phase_bytes(m.phase).len() + k < m.phase->expected,
        frames.len() < l.batch_frames,
        body_bytes + m.phase->expected <= usize::MAX,
        !(frames.len() > 0 && body_bytes + m.phase->expected > l.batch_bytes),
    ensures
        ingest_from(l, m, input, pos, frames, body_bytes) == ingest_from(
            l,
            body_after(m, input.subrange(pos, pos + k)),
            input,
            pos + k,
            frames,
            body_bytes,
        ),
    decreases k,
{
    if k == 0 {
        assert(input.subrange(pos, pos) =~= Seq::<u8>::empty());
    } else {
        let bytes = phase_bytes(m.phase);
        let first = input.subrange(pos, pos + 1);
        let m1 = body_after(m, first);
        assert(bytes.push(input[pos]) =~= bytes + first);
        assert(step(l, m, input[pos]) == Ok::<(FramerModel, Option<Seq<u8>>), LspFrameError>(
            (m1, None),
        ));
        lemma_body_chunk(l, m1, input, pos + 1, frames, body_bytes, k - 1);
        let rest = input.subrange(pos + 1, pos + k);
        if k > 1 {
            assert(bytes + first + rest =~= bytes + input.subrange(pos, pos + k));
        } else {
            assert(rest =~= Seq::<u8>::empty());
            assert(first =~= input.subrange(pos, pos + k));
        }
        assert(body_after(m1, rest) =~= body_after(m, input.subrange(pos, pos + k)));
    }
}

/// The outcome of `ingest` on a framer that was not poisoned: the batch and
/// state of `ingest_spec`, or an allocator failure that poisons the framer.
pub open spec fn ingest_outcome(
    before: FramerView,
    input: Seq<u8>,
    after: FramerView,
    r: Result<LspFrameBatch, LspFrameError>,
) -> bool {
    match ingest_spec(before.limits, before.model, input) {
        Ok((m, consumed, frames, body_bytes)) => match r {
            Ok(batch) => batch@ == (consumed as usize, body_bytes as usize, frames) && after.model == m
                && !after.poisoned,
            Err(e) => resource_failure(e) && after.poisoned,
        },
        Err(se) => match r {
            Ok(_) => false,
            Err(e) => (e == se || resource_failure(e)) && after.poisoned,
        },
    }
}

/// The refusal of the next header byte that comes before a byte is
/// buffered: a byte outside ASCII, or a header buffer already full.
pub open spec fn early_header_error(v: FramerView, input: Seq<u8>) -> Option<LspFrameError> {
    if input.len() > 0 && v.model.phase is Header {
        if input[0] >= 128 {
            Some(LspFrameError::NonAsciiHeader)
        } else if phase_bytes(v.model.phase).len() == v.limits.header_bytes {
            Some(LspFrameError::HeaderTooLarge { limit: v.limits.header_bytes })
        } else {
            None
        }
    } else {
        None
    }
}

/// `ingest_outcome` before the poison flag is set.
pub open spec fn inner_outcome(
    before: FramerView,
    input: Seq<u8>,
    after: FramerModel,
    r: Result<LspFrameBatch, LspFrameError>,
) -> bool {
    match ingest_spec(before.limits, before.model, input) {
        Ok((m, consumed, frames, body_bytes)) => match r {
            Ok(batch) => batch@ == (consumed as usize, body_bytes as usize, frames) && after == m,
            Err(e) => resource_failure(e),
        },
        Err(se) => match r {
            Ok(_) => false,
            Err(e) => e == se || resource_failure(e),
        },
    }
}

fn append_range(dst: &mut Vec<u8>, src: &[u8], lo: usize, hi: usize)
    requires
        lo <= hi <= src@.len(),
    ensures
        final(dst)@ == old(dst)@ + src@.subrange(lo as int, hi as int),
{
    let mut i = lo;
    while i < hi
        invariant
            lo <= i <= hi <= src@.len(),
            dst@ == old(dst)@ + src@.subrange(lo as int, i as int),
        decreases hi - i,
    {
        dst.push(src[i]);
        i += 1;
        assert(dst@ =~= old(dst)@ + src@.subrange(lo as int, i as int));
    }
}

impl LspFramer {
    /// The most capacity the framer was seen to hold for its buffer.
    pub closed spec fn peak_retained(&self) -> usize {
        self.peak_retained_bytes
    }

    /// The framer's states between calls: a usable phase unless poisoned.
    pub closed spec fn wf(&self) -> bool {
        &&& limits_valid(self.limits@)
        &&& !self.poisoned ==> phase_wf(self.limits@, self@.model.phase)
    }

    /// A framer at the start of a stream.
    pub fn new(limits: LspFrameLimits) -> (f: Self)
        ensures
            f.wf(),
            f@.limits == limits@,
            f@.model == (FramerModel {
                phase: PhaseModel::Header { bytes: Seq::empty(), matched: 0 },
                frames_emitted: 0,
                body_bytes_emitted: 0,
                peak_buffered: 0,
            }),
            !f@.poisoned,
    {
        proof {
            use_type_invariant(&limits);
        }
        Self {
            limits,
            state: ReadState { body: false, bytes: Vec::new(), delimiter_match: 0, expected: 0 },
            peak_buffered_bytes: 0,
            peak_retained_bytes: 0,
            frames_emitted: 0,
            body_bytes_emitted: 0,
            poisoned: false,
        }
    }

    /// Reads as much of `input` as the batch bounds admit and returns the
    /// frames it completes. Any failure poisons the framer.
    pub fn ingest(&mut self, input: &[u8]) -> (r: Result<LspFrameBatch, LspFrameError>)
        requires
            old(self).wf(),
        ensures
            final(self).wf(),
            final(self)@.limits == old(self)@.limits,
            old(self)@.poisoned ==> r == Err::<LspFrameBatch, LspFrameError>(LspFrameError::Poisoned)
                && final(self)@ == old(self)@,
            !old(self)@.poisoned ==> ingest_outcome(old(self)@, input@, final(self)@, r),
            !old(self)@.poisoned && input@.len() == 0 ==> r is Ok,
            !old(self)@.poisoned && early_header_error(old(self)@, input@) is Some ==> r
                == Err::<LspFrameBatch, LspFrameError>(early_header_error(old(self)@, input@)->0),
    {
        if self.poisoned {
            return Err(LspFrameError::Poisoned);
        }
        let result = self.ingest_inner(input);
        if result.is_err() {
            self.poisoned = true;
        }
        result
    }

    fn observe_buffer(&mut self)
        ensures
            final(self)@ == (FramerView {
                model: FramerModel {
                    peak_buffered: max_usize(
                        old(self)@.model.peak_buffered,
                        phase_bytes(old(self)@.model.phase).len() as int,
                    ),
                    ..old(self)@.model
                },
                ..old(self)@
            }),
            final(self).state.body == old(self).state.body,
            final(self).state.expected == old(self).state.expected,
            final(self).state.delimiter_match == old(self).state.delimiter_match,
            final(self).state.bytes@ == old(self).state.bytes@,
    {
        let buffered = self.state.bytes.len();
        if buffered > self.peak_buffered_bytes {
            self.peak_buffered_bytes = buffered;
        }
        let retained = vec_capacity(&self.state.bytes);
        if retained > self.peak_retained_bytes {
            self.peak_retained_bytes = retained;
        }
    }

    fn emit_frame(&mut self, batch: &mut LspFrameBatch) -> (r: Result<(), LspFrameError>)
        requires
            old(self).state.body,
            old(self).state.bytes@.len() == old(self).state.expected,
        ensures
            final(self)@.limits == old(self)@.limits,
            final(self)@.poisoned == old(self)@.poisoned,
            ({
                let m = old(self)@.model;
                let expected = old(self).state.expected;
                let body = old(self).state.bytes@;
                let total = old(batch)@.1 + expected;
                if m.frames_emitted == u64::MAX {
                    r == Err::<(), LspFrameError>(LspFrameError::SequenceExhausted)
                } else if m.body_bytes_emitted + expected > u64::MAX {
                    r == Err::<(), LspFrameError>(LspFrameError::CounterOverflow)
                } else if total > usize::MAX {
                    r == Err::<(), LspFrameError>(LspFrameError::CounterOverflow)
                } else if total > old(self)@.limits.batch_bytes {
                    r == Err::<(), LspFrameError>(LspFrameError::InvalidState)
                } else {
                    &&& r matches Err(e) ==> resource_failure(e)
                    &&& r is Ok ==> {
                        &&& final(self)@.model == (FramerModel {
                            phase: PhaseModel::Header { bytes: Seq::empty(), matched: 0 },
                            frames_emitted: (m.frames_emitted + 1) as u64,
                            body_bytes_emitted: (m.body_bytes_emitted + expected) as u64,
                            peak_buffered: m.peak_buffered,
                        })
                        &&& final(batch)@ == (
                            old(batch)@.0,
                            total as usize,
                            old(batch)@.2.push(((m.frames_emitted + 1) as u64, body)),
                        )
                    }
                }
            }),
    {
        let expected = self.state.expected;
        if self.frames_emitted == u64::MAX {
            return Err(LspFrameError::SequenceExhausted);
        }
        let sequence = self.frames_emitted + 1;
        let expected_u64 = expected as u64;
        if self.body_bytes_emitted > u64::MAX - expected_u64 {
            return Err(LspFrameError::CounterOverflow);
        }
        let emitted_bytes = self.body_bytes_emitted + expected_u64;
        let batch_bytes = match batch.body_bytes.checked_add(expected) {
            Some(n) => n,
            None => return Err(LspFrameError::CounterOverflow),
        };
        if batch_bytes > self.limits.batch_bytes {
            return Err(LspFrameError::InvalidState);
        }
        if batch.frames.try_reserve(1).is_err() {
            return Err(LspFrameError::AllocationFailed(LspFramePhase::Body));
        }
        let mut body: Vec<u8> = Vec::new();
        std::mem::swap(&mut body, &mut self.state.bytes);
        self.state = ReadState { body: false, bytes: Vec::new(), delimiter_match: 0, expected: 0 };
        let ghost old_frames = batch.frames@;
        batch.frames.push(LspFrame { sequence, body });
        assert(frames_view(batch.frames@) =~= frames_view(old_frames).push(
            (sequence, old(self).state.bytes@),
        ));
        batch.body_bytes = batch_bytes;
        self.frames_emitted = sequence;
        self.body_bytes_emitted = emitted_bytes;
        Ok(())
    }

    #[verifier::rlimit(40)]
    #[verifier::spinoff_prover]
    fn ingest_inner(&mut self, input: &[u8]) -> (r: Result<LspFrameBatch, LspFrameError>)
        requires
            !old(self)@.poisoned,
            old(self).wf(),
        ensures
            final(self)@.limits == old(self)@.limits,
            !final(self)@.poisoned,
            r is Ok ==> final(self).wf(),
            inner_outcome(old(self)@, input@, final(self)@.model, r),
            input@.len() == 0 ==> r is Ok,
            early_header_error(old(self)@, input@) is Some ==> r == Err::<LspFrameBatch, LspFrameError>(
                early_header_error(old(self)@, input@)->0,
            ),
    {
        proof {
            use_type_invariant(&self.limits);
        }
        let ghost l = self@.limits;
        let ghost m0 = self@.model;
        let mut batch = LspFrameBatch { consumed: 0, body_bytes: 0, frames: Vec::new() };
        assert(frames_view(batch.frames@) =~= Seq::<(u64, Seq<u8>)>::empty());
        while batch.consumed < input.len()
            invariant
                self@.limits == l,
                l == old(self)@.limits,
                m0 == old(self)@.model,
                limits_valid(l),
                !self@.poisoned,
                self.wf(),
                batch.consumed <= input@.len(),
                batch.frames@.len() <= l.batch_frames,
                frames_view(batch.frames@).len() == batch.frames@.len(),
                batch.consumed == 0 ==> self@.model == old(self)@.model && batch.frames@.len() == 0
                    && batch.body_bytes == 0,
                batch.consumed > 0 ==> early_header_error(old(self)@, input@) is None,
                ingest_spec(l, m0, input@) == ingest_from(
                    l,
                    self@.model,
                    input@,
                    batch.consumed as int,
                    batch@.2,
                    batch.body_bytes as int,
                ),
            ensures
                ingest_from(
                    l,
                    self@.model,
                    input@,
                    batch.consumed as int,
                    batch@.2,
                    batch.body_bytes as int,
                ) == Ok::<(FramerModel, int, Seq<(u64, Seq<u8>)>, int), LspFrameError>(
                    (self@.model, batch.consumed as int, batch@.2, batch.body_bytes as int),
                ),
            decreases input@.len() - batch.consumed,
        {
            let ghost m = self@.model;
            let ghost pos = batch.consumed as int;
            if batch.frames.len() == self.limits.batch_frames {
                break;
            }
            if self.state.body {
                let projected = match batch.body_bytes.checked_add(self.state.expected) {
                    Some(p) => p,
                    None => return Err(LspFrameError::CounterOverflow),
                };
                if batch.frames.len() > 0 && projected > self.limits.batch_bytes {
                    break;
                }
            }
            if !self.state.body {
                let byte = input[batch.consumed];
                if byte >= 128 {
                    return Err(LspFrameError::NonAsciiHeader);
                }
                if self.state.bytes.len() == self.limits.header_bytes {
                    return Err(LspFrameError::HeaderTooLarge { limit: self.limits.header_bytes });
                }
                reserve_bounded(&mut self.state.bytes, 1, self.limits.header_bytes, LspFramePhase::Header)?;
                self.state.bytes.push(byte);
                batch.consumed = batch.consumed + 1;
                self.state.delimiter_match = advance_delimiter(self.state.delimiter_match, byte);
                if self.state.delimiter_match == HEADER_TERMINATOR_LEN {
                    let expected = parse_header(self.state.bytes.as_slice(), self.limits.message_bytes)?;
                    proof {
                        crate::lsp_header::lemma_parse_header_bounds(self.state.bytes@, l.message_bytes);
                    }
                    self.observe_buffer();
                    self.state = ReadState { body: true, bytes: Vec::new(), delimiter_match: 0, expected };
                    assert(self@.model =~= (step(l, m, input@[pos])->Ok_0).0);
                } else if self.state.bytes.len() == self.limits.header_bytes {
                    return Err(LspFrameError::HeaderTooLarge { limit: self.limits.header_bytes });
                } else {
                    self.observe_buffer();
                    assert(self@.model =~= (step(l, m, input@[pos])->Ok_0).0);
                }
            } else {
                let remaining = self.state.expected - self.state.bytes.len();
                let available = input.len() - batch.consumed;
                let take = if remaining < available {
                    remaining
                } else {
                    available
                };
                reserve_bounded(&mut self.state.bytes, take, self.state.expected, LspFramePhase::Body)?;
                let start = batch.consumed;
                append_range(&mut self.state.bytes, input, start, start + take);
                batch.consumed = start + take;
                self.observe_buffer();
                if take < remaining {
                    proof {
                        lemma_body_chunk(l, m, input@, pos, batch@.2, batch.body_bytes as int, take as int);
                        assert(self@.model =~= body_after(m, input@.subrange(pos, pos + take)));
                    }
                } else {
                    proof {
                        lemma_body_chunk(l, m, input@, pos, batch@.2, batch.body_bytes as int, take - 1);
                        let mid = body_after(m, input@.subrange(pos, pos + take - 1));
                        let bytes = phase_bytes(m.phase);
                        assert(phase_bytes(mid.phase).push(input@[pos + take - 1]) =~= bytes
                            + input@.subrange(pos, pos + take));
                    }
                    self.emit_frame(&mut batch)?;
                }
            }
        }
        Ok(batch)
    }

    /// Ends the stream: only a framer between frames finishes cleanly.
    pub fn finish(&mut self) -> (r: Result<(), LspFrameError>)
        requires
            old(self).wf(),
        ensures
            final(self).wf(),
            ({
                let v = old(self)@;
                let bytes = phase_bytes(v.model.phase);
                if v.poisoned {
                    r == Err::<(), LspFrameError>(LspFrameError::Poisoned) && final(self)@ == v
                } else if v.model.phase is Header && bytes.len() == 0 {
                    r is Ok && final(self)@ == v
                } else {
                    &&& r == Err::<(), LspFrameError>(
                        LspFrameError::UnexpectedEof {
                            phase: if v.model.phase is Header {
                                LspFramePhase::Header
                            } else {
                                LspFramePhase::Body
                            },
                            buffered: bytes.len() as usize,
                            expected: if v.model.phase is Header {
                                None
                            } else {
                                Some(v.model.phase->expected)
                            },
                        },
                    )
                    &&& final(self)@ == (FramerView { poisoned: true, ..v })
                }
            }),
    {
        if self.poisoned {
            return Err(LspFrameError::Poisoned);
        }
        let error = if !self.state.body {
            if self.state.bytes.len() == 0 {
                return Ok(());
            }
            LspFrameError::UnexpectedEof {
                phase: LspFramePhase::Header,
                buffered: self.state.bytes.len(),
                expected: None,
            }
        } else {
            LspFrameError::UnexpectedEof {
                phase: LspFramePhase::Body,
                buffered: self.state.bytes.len(),
                expected: Some(self.state.expected),
            }
        };
        self.poisoned = true;
        Err(error)
    }

    /// Accounting of the framer.
    pub fn snapshot(&self) -> (s: LspFramerSnapshot)
        ensures
            s.spec_phase() == (if self@.model.phase is Header {
                LspFramePhase::Header
            } else {
                LspFramePhase::Body
            }),
            s.spec_buffered_bytes() == phase_bytes(self@.model.phase).len(),
            s.spec_retained_bytes() >= s.spec_buffered_bytes(),
            s.spec_peak_retained_bytes() == max_usize(self.peak_retained(), s.spec_retained_bytes() as int),
            s.spec_peak_retained_bytes() >= s.spec_retained_bytes(),
            s.spec_peak_buffered_bytes() == self@.model.peak_buffered,
            s.spec_frames_emitted() == self@.model.frames_emitted,
            s.spec_body_bytes_emitted() == self@.model.body_bytes_emitted,
            s.spec_poisoned() == self@.poisoned,
    {
        let retained = vec_capacity(&self.state.bytes);
        LspFramerSnapshot {
            phase: if self.state.body {
                LspFramePhase::Body
            } else {
                LspFramePhase::Header
            },
            buffered_bytes: self.state.bytes.len(),
            retained_bytes: retained,
            peak_buffered_bytes: self.peak_buffered_bytes,
            peak_retained_bytes: if retained > self.peak_retained_bytes {
                retained
            } else {
                self.peak_retained_bytes
            },
            frames_emitted: self.frames_emitted,
            body_bytes_emitted: self.body_bytes_emitted,
            poisoned: self.poisoned,
        }
    }
}


proof fn lemma_ingest_all_is_run(
    l: LimitsModel,
    m: FramerModel,
    input: Seq<u8>,
    pos: int,
    frames: Seq<(u64, Seq<u8>)>,
    body_bytes: int,
)
    requires
        0 <= pos <= input.len(),
        ingest_from(l, m, input, pos, frames, body_bytes) is Ok,
        (ingest_from(l, m, input, pos, frames, body_bytes)->Ok_0).1 == input.len(),
    ensures
        ({
            let (m2, _, f2, _) = ingest_from(l, m, input, pos, frames, body_bytes)->Ok_0;
            &&& f2.len() >= frames.len()
            &&& f2.subrange(0, frames.len() as int) == frames
            &&& run_bytes(l, m, input.subrange(pos, input.len() as int)) == Ok::<
                (FramerModel, Seq<(u64, Seq<u8>)>),
                LspFrameError,
            >((m2, f2.subrange(frames.len() as int, f2.len() as int)))
        }),
    decreases input.len() - pos,
{
    let rest = input.subrange(pos, input.len() as int);
    if pos == input.len() {
        assert(rest =~= Seq::<u8>::empty());
        let f2 = (ingest_from(l, m, input, pos, frames, body_bytes)->Ok_0).2;
        assert(f2.subrange(0, frames.len() as int) =~= frames);
        assert(f2.subrange(frames.len() as int, f2.len() as int) =~= Seq::<(u64, Seq<u8>)>::empty());
    } else {
        assert(rest[0] == input[pos]);
        assert(rest.drop_first() =~= input.subrange(pos + 1, input.len() as int));
        match step(l, m, input[pos]) {
            Err(e) => {},
            Ok((m2, None)) => {
                lemma_ingest_all_is_run(l, m2, input, pos + 1, frames, body_bytes);
            },
            Ok((m2, Some(body))) => {
                let next = frames.push((m2.frames_emitted, body));
                lemma_ingest_all_is_run(l, m2, input, pos + 1, next, body_bytes + body.len());
                let f2 = (ingest_from(l, m, input, pos, frames, body_bytes)->Ok_0).2;
                assert(f2.subrange(0, next.len() as int) =~= next);
                assert(f2.subrange(0, frames.len() as int) =~= frames) by {
                    assert(f2.subrange(0, frames.len() as int) =~= next.subrange(
                        0,
                        frames.len() as int,
                    ));
                }
                assert(f2[frames.len() as int] == f2.subrange(0, next.len() as int)[frames.len() as int]);
                assert(f2[frames.len() as int] == (m2.frames_emitted, body));
                assert(seq![(m2.frames_emitted, body)] + f2.subrange(next.len() as int, f2.len() as int)
                    =~= f2.subrange(frames.len() as int, f2.len() as int));
            },
        }
    }
}

/// Body bytes of `frames`, first to last.
pub open spec fn frame_body_bytes(frames: Seq<(u64, Seq<u8>)>) -> nat
    decreases frames.len(),
{
    if frames.len() == 0 {
        0
    } else {
        frames[0].1.len() + frame_body_bytes(frames.drop_first())
    }
}

/// Body bytes add up over concatenated frames.
pub proof fn lemma_frame_body_bytes_append(a: Seq<(u64, Seq<u8>)>, b: Seq<(u64, Seq<u8>)>)
    ensures
        frame_body_bytes(a + b) == frame_body_bytes(a) + frame_body_bytes(b),
    decreases a.len(),
{
    if a.len() == 0 {
        assert(a + b =~= b);
    } else {
        assert((a + b).drop_first() =~= a.drop_first() + b);
        lemma_frame_body_bytes_append(a.drop_first(), b);
    }
}

/// An `ingest` call from `pos` reads, byte by byte, exactly the bytes up to
/// where it stops: its new frames and state are those of reading them, and
/// its body bytes grow by those of its new frames.
pub proof fn lemma_ingest_reads_its_consumed_bytes(
    l: LimitsModel,
    m: FramerModel,
    input: Seq<u8>,
    pos: int,
    frames: Seq<(u64, Seq<u8>)>,
    body_bytes: int,
)
    requires
        0 <= pos <= input.len(),
        0 <= body_bytes <= usize::MAX,
        ingest_from(l, m, input, pos, frames, body_bytes) is Ok,
    ensures
        ({
            let (m2, c, f2, b2) = ingest_from(l, m, input, pos, frames, body_bytes)->Ok_0;
            &&& pos <= c <= input.len()
            &&& body_bytes <= b2 <= usize::MAX
            &&& f2.len() >= frames.len()
            &&& f2.subrange(0, frames.len() as int) == frames
            &&& run_bytes(l, m, input.subrange(pos, c)) == Ok::<
                (FramerModel, Seq<(u64, Seq<u8>)>),
                LspFrameError,
            >((m2, f2.subrange(frames.len() as int, f2.len() as int)))
            &&& b2 == body_bytes + frame_body_bytes(f2.subrange(frames.len() as int, f2.len() as int))
        }),
    decreases input.len() - pos,
{
    let (m2, c, f2, b2) = ingest_from(l, m, input, pos, frames, body_bytes)->Ok_0;
    let projected = match m.phase {
        PhaseModel::Body { expected, .. } => body_bytes + expected,
        _ => 0,
    };
    if pos >= input.len() || frames.len() >= l.batch_frames || (m.phase is Body && frames.len() > 0
        && projected > l.batch_bytes && projected <= usize::MAX) {
        assert(input.subrange(pos, pos) =~= Seq::<u8>::empty());
        assert(f2.subrange(0, frames.len() as int) =~= frames);
        assert(f2.subrange(frames.len() as int, f2.len() as int) =~= Seq::<(u64, Seq<u8>)>::empty());
    } else {
        let rest = input.subrange(pos, c);
        match step(l, m, input[pos]) {
            Err(e) => {},
            Ok((m1, None)) => {
                lemma_ingest_reads_its_consumed_bytes(l, m1, input, pos + 1, frames, body_bytes);
                assert(rest[0] == input[pos]);
                assert(rest.drop_first() =~= input.subrange(pos + 1, c));
            },
            Ok((m1, Some(body))) => {
                let next = frames.push((m1.frames_emitted, body));
                lemma_ingest_reads_its_consumed_bytes(l, m1, input, pos + 1, next, body_bytes + body.len());
                assert(rest[0] == input[pos]);
                assert(rest.drop_first() =~= input.subrange(pos + 1, c));
                assert(f2.subrange(0, next.len() as int) =~= next);
                assert(f2.subrange(0, frames.len() as int) =~= frames) by {
                    assert(f2.subrange(0, frames.len() as int) =~= next.subrange(0, frames.len() as int));
                }
                assert(f2[frames.len() as int] == f2.subrange(0, next.len() as int)[frames.len() as int]);
                let tail = f2.subrange(next.len() as int, f2.len() as int);
                let fresh = f2.subrange(frames.len() as int, f2.len() as int);
                assert(seq![(m1.frames_emitted, body)] + tail =~= fresh);
                assert(fresh.drop_first() =~= tail);
            },
        }
    }
}

pub proof fn lemma_run_bytes_append(l: LimitsModel, m: FramerModel, a: Seq<u8>, b: Seq<u8>)
    ensures
        run_bytes(l, m, a + b) == (match run_bytes(l, m, a) {
            Err(e) => Err(e),
            Ok((m1, f1)) => match run_bytes(l, m1, b) {
                Err(e) => Err(e),
                Ok((m2, f2)) => Ok((m2, f1 + f2)),
            },
        }),
    decreases a.len(),
{
    if a.len() == 0 {
        assert(a + b =~= b);
        if let Ok((m2, f2)) = run_bytes(l, m, b) {
            assert(Seq::<(u64, Seq<u8>)>::empty() + f2 =~= f2);
        }
    } else {
        assert((a + b)[0] == a[0]);
        assert((a + b).drop_first() =~= a.drop_first() + b);
        if let Ok((m1, out)) = step(l, m, a[0]) {
            lemma_run_bytes_append(l, m1, a.drop_first(), b);
            if let Ok((m2, f1)) = run_bytes(l, m1, a.drop_first()) {
                if let Ok((m3, f2)) = run_bytes(l, m2, b) {
                    if let Some(body) = out {
                        assert(seq![(m1.frames_emitted, body)] + (f1 + f2) =~= (seq![
                            (m1.frames_emitted, body),
                        ] + f1) + f2);
                    }
                }
            }
        }
    }
}

/// Framing does not depend on how the stream is cut: an `ingest` call that
/// reads its whole input yields exactly the frames and the state of reading
/// that input byte by byte.
pub proof fn law_ingest_reads_stream_order(l: LimitsModel, m: FramerModel, input: Seq<u8>)
    requires
        ingest_spec(l, m, input) is Ok,
        (ingest_spec(l, m, input)->Ok_0).1 == input.len(),
    ensures
        run_bytes(l, m, input) == Ok::<(FramerModel, Seq<(u64, Seq<u8>)>), LspFrameError>(
            ((ingest_spec(l, m, input)->Ok_0).0, (ingest_spec(l, m, input)->Ok_0).2),
        ),
{
    lemma_ingest_all_is_run(l, m, input, 0, Seq::empty(), 0);
    let f2 = (ingest_spec(l, m, input)->Ok_0).2;
    assert(input.subrange(0, input.len() as int) =~= input);
    assert(f2.subrange(0, f2.len() as int) =~= f2);
}

/// Two `ingest` calls that each read their whole chunk yield, together, the
/// frames and the state of one call that reads both chunks as one stream.
pub proof fn law_split_ingest_matches_whole(l: LimitsModel, m: FramerModel, a: Seq<u8>, b: Seq<u8>)
    requires
        ingest_spec(l, m, a) is Ok,
        (ingest_spec(l, m, a)->Ok_0).1 == a.len(),
        ingest_spec(l, (ingest_spec(l, m, a)->Ok_0).0, b) is Ok,
        (ingest_spec(l, (ingest_spec(l, m, a)->Ok_0).0, b)->Ok_0).1 == b.len(),
        ingest_spec(l, m, a + b) is Ok,
        (ingest_spec(l, m, a + b)->Ok_0).1 == a.len() + b.len(),
    ensures
        ({
            let (m1, _, f1, _) = ingest_spec(l, m, a)->Ok_0;
            let (m2, _, f2, _) = ingest_spec(l, m1, b)->Ok_0;
            let (mw, _, fw, _) = ingest_spec(l, m, a + b)->Ok_0;
            mw == m2 && fw == f1 + f2
        }),
{
    let m1 = (ingest_spec(l, m, a)->Ok_0).0;
    law_ingest_reads_stream_order(l, m, a);
    law_ingest_reads_stream_order(l, m1, b);
    law_ingest_reads_stream_order(l, m, a + b);
    lemma_run_bytes_append(l, m, a, b);
}

/// Frames are numbered consecutively after the frames emitted before.
pub proof fn law_frames_are_numbered_consecutively(l: LimitsModel, m: FramerModel, input: Seq<u8>)
    requires
        run_bytes(l, m, input) is Ok,
    ensures
        ({
            let (m2, frames) = run_bytes(l, m, input)->Ok_0;
            &&& m2.frames_emitted == m.frames_emitted + frames.len()
            &&& forall|i: int|
                0 <= i < frames.len() ==> #[trigger] frames[i].0 == m.frames_emitted + 1 + i
        }),
    decreases input.len(),
{
    if input.len() > 0 {
        let (m1, out) = step(l, m, input[0])->Ok_0;
        law_frames_are_numbered_consecutively(l, m1, input.drop_first());
        let (m2, rest) = run_bytes(l, m1, input.drop_first())->Ok_0;
        if let Some(body) = out {
            let frames = seq![(m1.frames_emitted, body)] + rest;
            assert forall|i: int| 0 <= i < frames.len() implies #[trigger] frames[i].0
                == m.frames_emitted + 1 + i by {
                if i > 0 {
                    assert(frames[i] == rest[i - 1]);
                }
            }
        }
    }
}

proof fn lemma_ingest_from_bounds(
    l: LimitsModel,
    m: FramerModel,
    input: Seq<u8>,
    pos: int,
    frames: Seq<(u64, Seq<u8>)>,
    body_bytes: int,
)
    requires
        0 <= pos <= input.len(),
        frames.len() <= l.batch_frames,
        0 <= body_bytes <= l.batch_bytes,
        limits_valid(l),
        phase_wf(l, m.phase),
        forall|i: int| 0 <= i < frames.len() ==> 0 < (#[trigger] frames[i]).1.len() <= l.message_bytes,
        ingest_from(l, m, input, pos, frames, body_bytes) is Ok,
    ensures
        ({
            let (m2, c, f2, b2) = ingest_from(l, m, input, pos, frames, body_bytes)->Ok_0;
            &&& f2.len() <= l.batch_frames
            &&& forall|i: int| 0 <= i < f2.len() ==> 0 < (#[trigger] f2[i]).1.len() <= l.message_bytes
            &&& b2 <= l.batch_bytes
            &&& c < input.len() ==> f2.len() >= l.batch_frames || (m2.phase is Body && f2.len() > 0 && b2
                + m2.phase->expected > l.batch_bytes)
        }),
    decreases input.len() - pos,
{
    if pos >= input.len() || frames.len() >= l.batch_frames {
    } else {
        let projected = match m.phase {
            PhaseModel::Body { expected, .. } => body_bytes + expected,
            _ => 0,
        };
        if m.phase is Body && projected > usize::MAX {
        } else if m.phase is Body && frames.len() > 0 && projected > l.batch_bytes {
        } else {
            if let PhaseModel::Header { bytes, matched } = m.phase {
                let nb = bytes.push(input[pos]);
                crate::lsp_header::lemma_parse_header_bounds(nb, l.message_bytes);
            }
            match step(l, m, input[pos]) {
                Err(e) => {},
                Ok((m1, None)) => {
                    lemma_ingest_from_bounds(l, m1, input, pos + 1, frames, body_bytes);
                },
                Ok((m1, Some(body))) => {
                    let next = frames.push((m1.frames_emitted, body));
                    assert forall|i: int| 0 <= i < next.len() implies 0 < (#[trigger] next[i]).1.len()
                        <= l.message_bytes by {
                        if i < frames.len() {
                            assert(next[i] == frames[i]);
                        }
                    }
                    if body_bytes + body.len() <= l.batch_bytes {
                        lemma_ingest_from_bounds(
                            l,
                            m1,
                            input,
                            pos + 1,
                            frames.push((m1.frames_emitted, body)),
                            body_bytes + body.len(),
                        );
                    }
                },
            }
        }
    }
}

/// One `ingest` call stays within its batch: it reads at most its input,
/// returns at most `batch_frames` frames, each of one to `message_bytes`
/// bytes, whose bodies total its body bytes,
/// at most `batch_bytes`, numbered on from the frames emitted before; and it
/// stops short of its input only at the frame bound, or when the body in
/// progress would take the batch past its byte bound.
pub proof fn law_ingest_stays_within_its_batch(l: LimitsModel, m: FramerModel, input: Seq<u8>)
    requires
        limits_valid(l),
        phase_wf(l, m.phase),
        ingest_spec(l, m, input) is Ok,
    ensures
        ({
            let (m2, c, f, b) = ingest_spec(l, m, input)->Ok_0;
            &&& 0 <= c <= input.len()
            &&& f.len() <= l.batch_frames
            &&& forall|i: int| 0 <= i < f.len() ==> 0 < (#[trigger] f[i]).1.len() <= l.message_bytes
            &&& b == frame_body_bytes(f)
            &&& b <= l.batch_bytes
            &&& m2.frames_emitted == m.frames_emitted + f.len()
            &&& forall|i: int| 0 <= i < f.len() ==> #[trigger] f[i].0 == m.frames_emitted + 1 + i
            &&& c < input.len() ==> f.len() >= l.batch_frames || (m2.phase is Body && f.len() > 0 && b
                + m2.phase->expected > l.batch_bytes)
        }),
{
    let (m2, c, f, b) = ingest_spec(l, m, input)->Ok_0;
    lemma_ingest_reads_its_consumed_bytes(l, m, input, 0, Seq::empty(), 0);
    lemma_ingest_from_bounds(l, m, input, 0, Seq::empty(), 0);
    assert(f.subrange(0, f.len() as int) =~= f);
    law_frames_are_numbered_consecutively(l, m, input.subrange(0, c));
}

} // verus!
