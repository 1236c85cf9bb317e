//! The failures of the composed language-server client: process, framing
//! and protocol, each kept with its structure.
use crate::lsp_framing::{
    frame_body_bytes, frames_view, ingest_spec, lemma_frame_body_bytes_append,
    lemma_ingest_reads_its_consumed_bytes, lemma_run_bytes_append, run_bytes, FramerModel, LimitsModel, LspFrame,
    LspFrameError, LspFramePhase, LspFramer,
};
use crate::std_calls::slice_from;
use crate::lsp_json::{protocol_error_name, OutboundMessage, PeerLifecycle, ProtocolError};
use crate::lsp_process::{failure_debug, submit_error_name, ProcessFailure, StopReason, SubmitError, SupervisorStopped};
use crate::text::{decimal, usize_to_decimal};
use vstd::prelude::*;
use vstd::std_specs::convert::FromSpecImpl;
use vstd::string::StringExecFns;

verus! {

/// Why the language-server client failed.
#[derive(Clone, Copy, Debug, Eq, PartialEq)]
pub enum LspClientError {
    ProcessNotStarted,
    StaleCancellation,
    ProtocolWriteBudget,
    Process(ProcessFailure),
    Submit(SubmitError),
    SupervisorStopped,
    Frame(LspFrameError),
    Protocol(ProtocolError),
}

impl From<SubmitError> for LspClientError {
    fn from(error: SubmitError) -> (r: Self) {
        LspClientError::Submit(error)
    }
}

impl FromSpecImpl<SubmitError> for LspClientError {
    open spec fn obeys_from_spec() -> bool {
        true
    }

    open spec fn from_spec(error: SubmitError) -> Self {
        LspClientError::Submit(error)
    }
}

impl From<SupervisorStopped> for LspClientError {
    fn from(error: SupervisorStopped) -> (r: Self) {
        LspClientError::SupervisorStopped
    }
}

impl FromSpecImpl<SupervisorStopped> for LspClientError {
    open spec fn obeys_from_spec() -> bool {
        true
    }

    open spec fn from_spec(error: SupervisorStopped) -> Self {
        LspClientError::SupervisorStopped
    }
}

impl From<LspFrameError> for LspClientError {
    fn from(error: LspFrameError) -> (r: Self) {
        LspClientError::Frame(error)
    }
}

impl FromSpecImpl<LspFrameError> for LspClientError {
    open spec fn obeys_from_spec() -> bool {
        true
    }

    open spec fn from_spec(error: LspFrameError) -> Self {
        LspClientError::Frame(error)
    }
}

impl From<ProtocolError> for LspClientError {
    fn from(error: ProtocolError) -> (r: Self) {
        LspClientError::Protocol(error)
    }
}

impl FromSpecImpl<ProtocolError> for LspClientError {
    open spec fn obeys_from_spec() -> bool {
        true
    }

    open spec fn from_spec(error: ProtocolError) -> Self {
        LspClientError::Protocol(error)
    }
}

/// The name of a framing phase, as `Debug` writes it.
pub open spec fn phase_name(p: LspFramePhase) -> Seq<char> {
    match p {
        LspFramePhase::Header => "Header"@,
        LspFramePhase::Body => "Body"@,
    }
}

fn phase_text(p: LspFramePhase) -> (s: &'static str)
    ensures
        s@ == phase_name(p),
{
    match p {
        LspFramePhase::Header => "Header",
        LspFramePhase::Body => "Body",
    }
}

/// A framing error, as `Debug` writes it.
pub open spec fn frame_error_debug(e: LspFrameError) -> Seq<char> {
    match e {
        LspFrameError::InvalidLimits => "InvalidLimits"@,
        LspFrameError::Poisoned => "Poisoned"@,
        LspFrameError::NonAsciiHeader => "NonAsciiHeader"@,
        LspFrameError::HeaderTooLarge { limit } => "HeaderTooLarge { limit: "@ + decimal(limit as nat)
            + " }"@,
        LspFrameError::MalformedHeader => "MalformedHeader"@,
        LspFrameError::UnsupportedHeader => "UnsupportedHeader"@,
        LspFrameError::MissingContentLength => "MissingContentLength"@,
        LspFrameError::DuplicateContentLength => "DuplicateContentLength"@,
        LspFrameError::InvalidContentLength => "InvalidContentLength"@,
        LspFrameError::EmptyBody => "EmptyBody"@,
        LspFrameError::BodyTooLarge { declared, limit } => "BodyTooLarge { declared: "@ + decimal(
            declared as nat,
        ) + ", limit: "@ + decimal(limit as nat) + " }"@,
        LspFrameError::UnsupportedContentType => "UnsupportedContentType"@,
        LspFrameError::AllocationFailed(phase) => "AllocationFailed("@ + phase_name(phase) + ")"@,
        LspFrameError::SequenceExhausted => "SequenceExhausted"@,
        LspFrameError::CounterOverflow => "CounterOverflow"@,
        LspFrameError::InvalidState => "InvalidState"@,
        LspFrameError::UnexpectedEof { phase, buffered, expected } => "UnexpectedEof { phase: "@
            + phase_name(phase) + ", buffered: "@ + decimal(buffered as nat) + ", expected: "@
            + match expected {
            Some(n) => "Some("@ + decimal(n as nat) + ")"@,
            None => "None"@,
        } + " }"@,
    }
}

/// A framing error, as `Debug` writes it.
pub fn frame_error_text(e: LspFrameError) -> (s: String)
    ensures
        s@ == frame_error_debug(e),
{
    match e {
        LspFrameError::InvalidLimits => String::from_str("InvalidLimits"),
        LspFrameError::Poisoned => String::from_str("Poisoned"),
        LspFrameError::NonAsciiHeader => String::from_str("NonAsciiHeader"),
        LspFrameError::HeaderTooLarge { limit } => {
            let mut s = String::from_str("HeaderTooLarge { limit: ");
            s.append(usize_to_decimal(limit).as_str());
            s.append(" }");
            s
        },
        LspFrameError::MalformedHeader => String::from_str("MalformedHeader"),
        LspFrameError::UnsupportedHeader => String::from_str("UnsupportedHeader"),
        LspFrameError::MissingContentLength => String::from_str("MissingContentLength"),
        LspFrameError::DuplicateContentLength => String::from_str("DuplicateContentLength"),
        LspFrameError::InvalidContentLength => String::from_str("InvalidContentLength"),
        LspFrameError::EmptyBody => String::from_str("EmptyBody"),
        LspFrameError::BodyTooLarge { declared, limit } => {
            let mut s = String::from_str("BodyTooLarge { declared: ");
            s.append(usize_to_decimal(declared).as_str());
            s.append(", limit: ");
            s.append(usize_to_decimal(limit).as_str());
            s.append(" }");
            s
        },
        LspFrameError::UnsupportedContentType => String::from_str("UnsupportedContentType"),
        LspFrameError::AllocationFailed(phase) => {
            let mut s = String::from_str("AllocationFailed(");
            s.append(phase_text(phase));
            s.append(")");
            s
        },
        LspFrameError::SequenceExhausted => String::from_str("SequenceExhausted"),
        LspFrameError::CounterOverflow => String::from_str("CounterOverflow"),
        LspFrameError::InvalidState => String::from_str("InvalidState"),
        LspFrameError::UnexpectedEof { phase, buffered, expected } => {
            let mut s = String::from_str("UnexpectedEof { phase: ");
            s.append(phase_text(phase));
            s.append(", buffered: ");
            s.append(usize_to_decimal(buffered).as_str());
            s.append(", expected: ");
            match expected {
                Some(n) => {
                    s.append("Some(");
                    s.append(usize_to_decimal(n).as_str());
                    s.append(")");
                },
                None => s.append("None"),
            }
            s.append(" }");
            s
        },
    }
}

/// A client error, as `Debug` writes it, given the text of the I/O error
/// kind a process failure may hold.
pub open spec fn client_error_debug(e: LspClientError) -> Seq<char> {
    match e {
        LspClientError::ProcessNotStarted => "ProcessNotStarted"@,
        LspClientError::StaleCancellation => "StaleCancellation"@,
        LspClientError::ProtocolWriteBudget => "ProtocolWriteBudget"@,
        LspClientError::Process(f) => "Process("@ + failure_debug(f) + ")"@,
        LspClientError::Submit(s) => "Submit("@ + submit_error_name(s) + ")"@,
        LspClientError::SupervisorStopped => "SupervisorStopped"@,
        LspClientError::Frame(f) => "Frame("@ + frame_error_debug(f) + ")"@,
        LspClientError::Protocol(p) => "Protocol("@ + protocol_error_name(p) + ")"@,
    }
}

fn wrapped(prefix: &str, inner: &str) -> (s: String)
    ensures
        s@ == prefix@ + inner@ + ")"@,
{
    let mut s = String::from_str(prefix);
    s.append(inner);
    s.append(")");
    s
}

impl LspClientError {
    /// A human-readable description holding the error's structure.
    pub fn message(&self) -> (m: String)
        ensures
            m@ == "local LSP client failed: "@ + client_error_debug(*self),
    {
        let mut m = String::from_str("local LSP client failed: ");
        let inner = match self {
            LspClientError::ProcessNotStarted => String::from_str("ProcessNotStarted"),
            LspClientError::StaleCancellation => String::from_str("StaleCancellation"),
            LspClientError::ProtocolWriteBudget => String::from_str("ProtocolWriteBudget"),
            LspClientError::Process(f) => {
                let text = f.debug_text();
                wrapped("Process(", text.as_str())
            },
            LspClientError::Submit(s) => wrapped("Submit(", s.name()),
            LspClientError::SupervisorStopped => String::from_str("SupervisorStopped"),
            LspClientError::Frame(f) => {
                let text = frame_error_text(*f);
                wrapped("Frame(", text.as_str())
            },
            LspClientError::Protocol(p) => wrapped("Protocol(", p.name()),
        };
        m.append(inner.as_str());
        proof {
            assert(m@ =~= "local LSP client failed: "@ + client_error_debug(*self));
        }
        m
    }
}

/// What the transport reported since the last poll, as the client sees it:
/// its process started, output on standard output or standard error, an
/// input written or rejected, or the process exited, was stopped or failed.
#[derive(Clone, Copy, Debug, Eq, PartialEq)]
pub enum TransportEvent {
    Started,
    Stdout,
    Stderr,
    InputWritten,
    InputRejected,
    Exited,
    Stopped,
    Failed,
}

/// The client's own state between polls: whether its process has started,
/// and the failure that froze its protocol ingress, if any.
#[derive(Clone, Copy, Debug, Eq, PartialEq)]
pub struct ClientFlags {
    pub started: bool,
    pub protocol_failure: Option<LspClientError>,
}

/// What one poll does with a transport event: report a failure that froze
/// ingress earlier, frame the output and hand its messages to the peer,
/// report the event as it is, or report an exit once the framer holds no
/// partial frame.
#[derive(Clone, Copy, Debug, Eq, PartialEq)]
pub enum PollStep {
    Frozen(LspClientError),
    Ingest,
    Report,
    FinishFraming,
}

/// Whether the event ends the transport.
pub open spec fn ends_transport(e: TransportEvent) -> bool {
    e == TransportEvent::Exited || e == TransportEvent::Stopped || e == TransportEvent::Failed
}

/// A poll's decision for `event` under `flags`: the next flags, whether the
/// queued protocol writes are retired, and the step. Once ingress failed,
/// the failure is reported for every event, and an event that ends the
/// transport still clears `started` and retires the writes, keeping the
/// failure. Otherwise a start sets `started`; standard output is ingested;
/// an end clears `started` and retires the writes, an exit also finishing
/// the framing; anything else is reported.
pub open spec fn poll_decision(flags: ClientFlags, event: TransportEvent) -> (ClientFlags, bool, PollStep) {
    match flags.protocol_failure {
        Some(error) => if ends_transport(event) {
            (ClientFlags { started: false, protocol_failure: Some(error) }, true, PollStep::Frozen(error))
        } else {
            (flags, false, PollStep::Frozen(error))
        },
        None => match event {
            TransportEvent::Started => (ClientFlags { started: true, ..flags }, false, PollStep::Report),
            TransportEvent::Stdout => (flags, false, PollStep::Ingest),
            TransportEvent::Exited => (ClientFlags { started: false, ..flags }, true, PollStep::FinishFraming),
            TransportEvent::Stopped | TransportEvent::Failed => (
                ClientFlags { started: false, ..flags },
                true,
                PollStep::Report,
            ),
            _ => (flags, false, PollStep::Report),
        },
    }
}

/// Decides what a poll does with `event`.
pub fn poll_step(flags: ClientFlags, event: TransportEvent) -> (r: (ClientFlags, bool, PollStep))
    ensures
        r == poll_decision(flags, event),
{
    match flags.protocol_failure {
        Some(error) => match event {
            TransportEvent::Exited | TransportEvent::Stopped | TransportEvent::Failed => (
                ClientFlags { started: false, protocol_failure: Some(error) },
                true,
                PollStep::Frozen(error),
            ),
            _ => (flags, false, PollStep::Frozen(error)),
        },
        None => match event {
            TransportEvent::Started => (ClientFlags { started: true, protocol_failure: None }, false, PollStep::Report),
            TransportEvent::Stdout => (flags, false, PollStep::Ingest),
            TransportEvent::Exited => (
                ClientFlags { started: false, protocol_failure: None },
                true,
                PollStep::FinishFraming,
            ),
            TransportEvent::Stopped | TransportEvent::Failed => (
                ClientFlags { started: false, protocol_failure: None },
                true,
                PollStep::Report,
            ),
            _ => (flags, false, PollStep::Report),
        },
    }
}

/// The flags after a step's outcome: a failed step freezes ingress with its
/// error; a successful one leaves them.
pub fn settle_step(flags: ClientFlags, outcome: Result<(), LspClientError>) -> (r: ClientFlags)
    ensures
        r == match outcome {
            Ok(()) => flags,
            Err(e) => ClientFlags { protocol_failure: Some(e), ..flags },
        },
{
    match outcome {
        Ok(()) => flags,
        Err(e) => ClientFlags { started: flags.started, protocol_failure: Some(e) },
    }
}

/// Once ingress failed, every later poll reports that same failure,
/// whatever the transport reports.
pub proof fn law_frozen_ingress_stays_frozen(flags: ClientFlags, event: TransportEvent)
    requires
        flags.protocol_failure is Some,
    ensures
        poll_decision(flags, event).2 == PollStep::Frozen(flags.protocol_failure->0),
        poll_decision(flags, event).0.protocol_failure == flags.protocol_failure,
{
}

/// Protocol writes a client holds at most while the transport cannot take them.
pub const MAX_PROTOCOL_WRITES: usize = 256;

/// Payload bytes those writes hold at most.
pub const MAX_PROTOCOL_PAYLOAD_BYTES: usize = 16384;

/// What a protocol write completes once sent: a response to the server,
/// the `initialized` notification, or `exit`.
#[derive(Clone, Copy, Debug, Eq, PartialEq, Structural)]
pub enum ProtocolWriteKind {
    Response,
    Initialized,
    Exit,
}

/// One protocol write the client owes the server.
pub struct ProtocolWrite {
    pub outbound: OutboundMessage,
    pub kind: ProtocolWriteKind,
}

/// The protocol writes waiting for the transport, oldest first, and the
/// payload bytes they hold.
pub struct ProtocolWrites {
    writes: Vec<ProtocolWrite>,
    payload_bytes: usize,
}

/// Waiting writes, as values: each one's bytes and kind, oldest first.
pub struct WritesModel {
    pub queue: Seq<(Seq<u8>, ProtocolWriteKind)>,
    pub payload_bytes: usize,
}

/// The model of a write.
pub open spec fn write_model(w: ProtocolWrite) -> (Seq<u8>, ProtocolWriteKind) {
    (w.outbound@.bytes, w.kind)
}

impl View for ProtocolWrites {
    type V = WritesModel;

    closed spec fn view(&self) -> WritesModel {
        WritesModel { queue: self.writes@.map_values(|w: ProtocolWrite| write_model(w)), payload_bytes: self.payload_bytes }
    }
}

/// Total bytes of the queued writes.
pub open spec fn queue_bytes(q: Seq<(Seq<u8>, ProtocolWriteKind)>) -> int
    decreases q.len(),
{
    if q.len() == 0 {
        0
    } else {
        q[0].0.len() + queue_bytes(q.drop_first())
    }
}

proof fn lemma_queue_bytes_push(q: Seq<(Seq<u8>, ProtocolWriteKind)>, w: (Seq<u8>, ProtocolWriteKind))
    ensures
        queue_bytes(q.push(w)) == queue_bytes(q) + w.0.len(),
    decreases q.len(),
{
    if q.len() > 0 {
        assert(q.push(w).drop_first() =~= q.drop_first().push(w));
        assert(q.push(w)[0] == q[0]);
        lemma_queue_bytes_push(q.drop_first(), w);
    } else {
        let e = Seq::<(Seq<u8>, ProtocolWriteKind)>::empty();
        assert(q.push(w).drop_first() =~= e);
        assert(queue_bytes(e) == 0);
        assert(q.push(w)[0] == w);
    }
}

proof fn lemma_queue_bytes_nonneg(q: Seq<(Seq<u8>, ProtocolWriteKind)>)
    ensures
        queue_bytes(q) >= 0,
    decreases q.len(),
{
    if q.len() > 0 {
        lemma_queue_bytes_nonneg(q.drop_first());
    }
}

/// What waiting writes keep: their payload bytes are their total, within
/// the byte ceiling, and there are at most as many as the write ceiling.
pub open spec fn writes_wf(m: WritesModel) -> bool {
    &&& m.payload_bytes == queue_bytes(m.queue)
    &&& m.payload_bytes <= MAX_PROTOCOL_PAYLOAD_BYTES
    &&& m.queue.len() <= MAX_PROTOCOL_WRITES
}

/// Whether the client may write: its ingress has not failed and its
/// process has started.
pub fn require_started(flags: ClientFlags) -> (r: Result<(), LspClientError>)
    ensures
        r == match flags.protocol_failure {
            Some(e) => Err::<(), LspClientError>(e),
            None => if flags.started {
                Ok::<(), LspClientError>(())
            } else {
                Err(LspClientError::ProcessNotStarted)
            },
        },
{
    if let Some(e) = flags.protocol_failure {
        return Err(e);
    }
    if !flags.started {
        return Err(LspClientError::ProcessNotStarted);
    }
    Ok(())
}

impl ProtocolWrites {
    /// Whether the writes keep their invariant.
    pub open spec fn wf(&self) -> bool {
        writes_wf(self@)
    }

    /// No waiting writes.
    pub fn new() -> (w: Self)
        ensures
            w.wf(),
            w@.queue.len() == 0,
            w@.payload_bytes == 0,
    {
        let w = ProtocolWrites { writes: Vec::new(), payload_bytes: 0 };
        assert(w@.queue =~= Seq::<(Seq<u8>, ProtocolWriteKind)>::empty());
        w
    }

    /// How many writes wait.
    pub fn len(&self) -> (n: usize)
        ensures
            n == self@.queue.len(),
    {
        self.writes.len()
    }

    /// The payload bytes the waiting writes hold.
    pub fn payload_bytes(&self) -> (n: usize)
        ensures
            n == self@.payload_bytes,
    {
        self.payload_bytes
    }

    /// Whether a new message may be written in order: the client may write
    /// and no protocol write is still waiting ahead of it.
    pub fn require_write_order(&self, flags: ClientFlags) -> (r: Result<(), LspClientError>)
        ensures
            r == match flags.protocol_failure {
                Some(e) => Err::<(), LspClientError>(e),
                None => if !flags.started {
                    Err(LspClientError::ProcessNotStarted)
                } else if self@.queue.len() > 0 {
                    Err(LspClientError::Submit(SubmitError::Saturated))
                } else {
                    Ok::<(), LspClientError>(())
                },
            },
    {
        require_started(flags)?;
        if self.writes.len() > 0 {
            return Err(LspClientError::Submit(SubmitError::Saturated));
        }
        Ok(())
    }

    /// Keeps `write` behind the waiting ones, when the transport could not
    /// take it. Refused with the earlier failure once ingress failed; past
    /// the byte or write ceiling, or when its storage cannot be had, the
    /// refusal also freezes ingress with that error.
    pub fn retain(&mut self, flags: &mut ClientFlags, write: ProtocolWrite) -> (r: Result<(), LspClientError>)
        requires
            old(self).wf(),
        ensures
            final(self).wf(),
            ({
                let m = old(self)@;
                let n = write.outbound@.bytes.len();
                match old(flags).protocol_failure {
                    Some(e) => r == Err::<(), LspClientError>(e) && final(self)@ == m && *final(flags)
                        == *old(flags),
                    None => if m.payload_bytes + n > MAX_PROTOCOL_PAYLOAD_BYTES || m.queue.len()
                        == MAX_PROTOCOL_WRITES {
                        r == Err::<(), LspClientError>(LspClientError::ProtocolWriteBudget) && final(self)@ == m
                            && *final(flags) == (ClientFlags {
                            protocol_failure: Some(LspClientError::ProtocolWriteBudget),
                            ..*old(flags)
                        })
                    } else {
                        ||| r is Ok && final(self)@ == (WritesModel {
                            queue: m.queue.push(write_model(write)),
                            payload_bytes: (m.payload_bytes + n) as usize,
                        }) && *final(flags) == *old(flags)
                        ||| r == Err::<(), LspClientError>(LspClientError::Protocol(ProtocolError::AllocationFailed))
                            && final(self)@ == m && *final(flags) == (ClientFlags {
                            protocol_failure: Some(LspClientError::Protocol(ProtocolError::AllocationFailed)),
                            ..*old(flags)
                        })
                    },
                }
            }),
    {
        if let Some(e) = flags.protocol_failure {
            return Err(e);
        }
        let n = write.outbound.bytes().len();
        if n > MAX_PROTOCOL_PAYLOAD_BYTES - self.payload_bytes || self.writes.len() == MAX_PROTOCOL_WRITES {
            flags.protocol_failure = Some(LspClientError::ProtocolWriteBudget);
            return Err(LspClientError::ProtocolWriteBudget);
        }
        if self.writes.try_reserve(1).is_err() {
            flags.protocol_failure = Some(LspClientError::Protocol(ProtocolError::AllocationFailed));
            return Err(LspClientError::Protocol(ProtocolError::AllocationFailed));
        }
        let ghost q = self@.queue;
        let ghost w = write_model(write);
        self.writes.push(write);
        self.payload_bytes = self.payload_bytes + n;
        proof {
            assert(self@.queue =~= q.push(w));
            lemma_queue_bytes_push(q, w);
        }
        Ok(())
    }

    /// The bytes of the oldest waiting write, the next to send.
    pub fn front_bytes(&self) -> (r: Option<&[u8]>)
        ensures
            match r {
                Some(b) => self@.queue.len() > 0 && b@ == self@.queue[0].0,
                None => self@.queue.len() == 0,
            },
    {
        if self.writes.len() == 0 {
            None
        } else {
            proof {
                assert(self@.queue[0] == write_model(self.writes@[0]));
            }
            Some(self.writes[0].outbound.bytes())
        }
    }

    /// Takes the oldest waiting write once the transport took it, releasing
    /// its bytes.
    pub fn complete_front(&mut self) -> (w: ProtocolWrite)
        requires
            old(self).wf(),
            old(self)@.queue.len() > 0,
        ensures
            final(self).wf(),
            write_model(w) == old(self)@.queue[0],
            final(self)@ == (WritesModel {
                queue: old(self)@.queue.drop_first(),
                payload_bytes: (old(self)@.payload_bytes - old(self)@.queue[0].0.len()) as usize,
            }),
    {
        let ghost q = self@.queue;
        let w = self.writes.remove(0);
        let n = w.outbound.bytes().len();
        proof {
            assert(self@.queue =~= q.drop_first());
            assert(q[0] == write_model(w));
            lemma_queue_bytes_nonneg(q.drop_first());
        }
        self.payload_bytes = self.payload_bytes - n;
        w
    }

    /// Drops every waiting write with its bytes and clears the failure that
    /// froze ingress, as when the transport ends or restarts.
    pub fn retire(&mut self, flags: &mut ClientFlags)
        requires
            old(self).wf(),
        ensures
            final(self).wf(),
            final(self)@.queue.len() == 0,
            final(self)@.payload_bytes == 0,
            *final(flags) == (ClientFlags { protocol_failure: None, ..*old(flags) }),
    {
        self.writes = Vec::new();
        self.payload_bytes = 0;
        flags.protocol_failure = None;
        assert(self@.queue =~= Seq::<(Seq<u8>, ProtocolWriteKind)>::empty());
    }
}

/// How a graceful shutdown's protocol part ended: acknowledged and exited,
/// never ready, out of time, or ended by an exit, a rejected input, a stop or
/// a failure first.
#[derive(Clone, Copy, Debug, Eq, PartialEq)]
pub enum LspShutdownProtocol {
    AcknowledgedAndExited,
    NotReady(PeerLifecycle),
    Deadline,
    UnexpectedExit { success: bool, code: Option<i32> },
    RejectedInput(ProcessFailure),
    Stopped(StopReason),
    Failed(LspClientError),
}

/// What one poll during shutdown reported: the process exited, an input was
/// rejected, the process was stopped or failed, the poll failed, nothing
/// happened, or something else happened.
#[derive(Clone, Copy, Debug, Eq, PartialEq)]
pub enum ShutdownPoll {
    Exited { success: bool, code: Option<i32> },
    InputRejected(ProcessFailure),
    Stopped(StopReason),
    Failed(ProcessFailure),
    Error(LspClientError),
    Idle,
    Progress,
}

/// Whether a shutdown cannot speak the protocol at all: the process has
/// not started, or the peer never finished initializing or failed.
pub fn shutdown_not_ready(started: bool, lifecycle: PeerLifecycle) -> (r: Option<LspShutdownProtocol>)
    ensures
        r == if !started || lifecycle == PeerLifecycle::Created || lifecycle == PeerLifecycle::Initializing
            || lifecycle == PeerLifecycle::Failed {
            Some(LspShutdownProtocol::NotReady(lifecycle))
        } else {
            None::<LspShutdownProtocol>
        },
{
    let unready = match lifecycle {
        PeerLifecycle::Created | PeerLifecycle::Initializing | PeerLifecycle::Failed => true,
        _ => false,
    };
    if !started || unready {
        Some(LspShutdownProtocol::NotReady(lifecycle))
    } else {
        None
    }
}

/// Whether a refused shutdown request ends the shutdown: only a transport
/// that is merely full lets it try again.
pub fn shutdown_request_refused(error: LspClientError) -> (r: Option<LspShutdownProtocol>)
    ensures
        r == if error == LspClientError::Submit(SubmitError::Saturated) || error == LspClientError::Submit(
            SubmitError::RetainedBudget,
        ) {
            None::<LspShutdownProtocol>
        } else {
            Some(LspShutdownProtocol::Failed(error))
        },
{
    match error {
        LspClientError::Submit(SubmitError::Saturated) | LspClientError::Submit(SubmitError::RetainedBudget) => None,
        _ => Some(LspShutdownProtocol::Failed(error)),
    }
}

/// What a poll during shutdown settles, `acknowledged` telling whether the
/// server acknowledged the shutdown: an exit is clean only when
/// acknowledged and successful; a rejected input, a stop, a failure or a
/// failed poll end it as such; anything else lets it go on.
pub fn shutdown_verdict(poll: ShutdownPoll, acknowledged: bool) -> (r: Option<LspShutdownProtocol>)
    ensures
        r == match poll {
            ShutdownPoll::Exited { success, code } => Some(
                if acknowledged && success {
                    LspShutdownProtocol::AcknowledgedAndExited
                } else {
                    LspShutdownProtocol::UnexpectedExit { success, code }
                },
            ),
            ShutdownPoll::InputRejected(f) => Some(LspShutdownProtocol::RejectedInput(f)),
            ShutdownPoll::Stopped(reason) => Some(LspShutdownProtocol::Stopped(reason)),
            ShutdownPoll::Failed(f) => Some(LspShutdownProtocol::Failed(LspClientError::Process(f))),
            ShutdownPoll::Error(e) => Some(LspShutdownProtocol::Failed(e)),
            ShutdownPoll::Idle | ShutdownPoll::Progress => None,
        },
{
    match poll {
        ShutdownPoll::Exited { success, code } => Some(
            if acknowledged && success {
                LspShutdownProtocol::AcknowledgedAndExited
            } else {
                LspShutdownProtocol::UnexpectedExit { success, code }
            },
        ),
        ShutdownPoll::InputRejected(f) => Some(LspShutdownProtocol::RejectedInput(f)),
        ShutdownPoll::Stopped(reason) => Some(LspShutdownProtocol::Stopped(reason)),
        ShutdownPoll::Failed(f) => Some(LspShutdownProtocol::Failed(LspClientError::Process(f))),
        ShutdownPoll::Error(e) => Some(LspShutdownProtocol::Failed(e)),
        ShutdownPoll::Idle | ShutdownPoll::Progress => None,
    }
}

/// Reading `input` byte by byte from state `m` succeeds with `frames`.
pub open spec fn reads_frames(l: LimitsModel, m: FramerModel, input: Seq<u8>, frames: Seq<(u64, Seq<u8>)>) -> bool {
    run_bytes(l, m, input) is Ok && (run_bytes(l, m, input)->Ok_0).1 == frames
}

/// The frames read from one standard-output chunk: every frame of the
/// batches read before a failure, their count and body bytes, and the
/// failure that stopped the reading, if one did.
pub struct StdoutFrames {
    pub frames: Vec<LspFrame>,
    pub frame_count: usize,
    pub body_bytes: usize,
    pub failure: Option<LspClientError>,
}

/// Frames all of standard-output chunk `bytes`, one `ingest` call after
/// another until every byte is read. The frames are those of reading a
/// prefix of `bytes` byte by byte, in order; with no failure, that prefix is
/// the whole chunk. A poisoned framer reads nothing.
pub fn frame_stdout(framer: &mut LspFramer, bytes: &[u8]) -> (r: StdoutFrames)
    requires
        old(framer).wf(),
    ensures
        final(framer).wf(),
        final(framer)@.limits == old(framer)@.limits,
        r.frame_count == r.frames@.len(),
        r.body_bytes == frame_body_bytes(frames_view(r.frames@)),
        exists|k: int|
            0 <= k <= bytes@.len() && #[trigger] reads_frames(
                old(framer)@.limits,
                old(framer)@.model,
                bytes@.subrange(0, k),
                frames_view(r.frames@),
            ),
        r.failure is None ==> !old(framer)@.poisoned && run_bytes(old(framer)@.limits, old(framer)@.model, bytes@)
            == Ok::<(FramerModel, Seq<(u64, Seq<u8>)>), LspFrameError>(
            (final(framer)@.model, frames_view(r.frames@)),
        ),
        old(framer)@.poisoned ==> r.failure == Some(LspClientError::Frame(LspFrameError::Poisoned))
            && r.frames@.len() == 0,
        r.failure matches Some(e) ==> e is Frame,
{
    let ghost l = framer@.limits;
    let ghost m0 = framer@.model;
    let mut frames: Vec<LspFrame> = Vec::new();
    let mut frame_count: usize = 0;
    let mut body_bytes: usize = 0;
    let mut consumed: usize = 0;
    proof {
        assert(bytes@.subrange(0, 0) =~= Seq::<u8>::empty());
        assert(frames_view(frames@) =~= Seq::<(u64, Seq<u8>)>::empty());
    }
    if framer.snapshot().poisoned() {
        assert(reads_frames(l, m0, bytes@.subrange(0, 0), frames_view(frames@)));
        return StdoutFrames {
            frames,
            frame_count,
            body_bytes,
            failure: Some(LspClientError::Frame(LspFrameError::Poisoned)),
        };
    }
    while consumed < bytes.len()
        invariant
            framer.wf(),
            framer@.limits == l,
            l == old(framer)@.limits,
            m0 == old(framer)@.model,
            !old(framer)@.poisoned,
            !framer@.poisoned,
            consumed <= bytes@.len(),
            run_bytes(l, m0, bytes@.subrange(0, consumed as int)) == Ok::<
                (FramerModel, Seq<(u64, Seq<u8>)>),
                LspFrameError,
            >((framer@.model, frames_view(frames@))),
            frame_count == frames@.len(),
            body_bytes == frame_body_bytes(frames_view(frames@)),
        decreases bytes@.len() - consumed,
    {
        let ghost m = framer@.model;
        let ghost before = frames_view(frames@);
        assert(reads_frames(l, m0, bytes@.subrange(0, consumed as int), before));
        let rest = slice_from(bytes, consumed);
        let batch = match framer.ingest(rest) {
            Ok(batch) => batch,
            Err(e) => {
                return StdoutFrames { frames, frame_count, body_bytes, failure: Some(LspClientError::Frame(e)) };
            },
        };
        let taken = batch.consumed();
        let count = batch.frames().len();
        let bytes_in_batch = batch.body_bytes();
        proof {
            lemma_ingest_reads_its_consumed_bytes(l, m, rest@, 0, Seq::empty(), 0);
            let fresh = batch@.2;
            assert(fresh.subrange(0, fresh.len() as int) =~= fresh);
            assert(fresh.subrange(0, 0) =~= Seq::<(u64, Seq<u8>)>::empty());
            let read = rest@.subrange(0, taken as int);
            lemma_run_bytes_append(l, m0, bytes@.subrange(0, consumed as int), read);
            assert(bytes@.subrange(0, consumed as int) + read =~= bytes@.subrange(0, consumed + taken));
            lemma_frame_body_bytes_append(before, fresh);
            assert(bytes_in_batch == frame_body_bytes(fresh));
            assert(body_bytes + bytes_in_batch == frame_body_bytes(before + fresh));
        }
        if taken == 0 {
            return StdoutFrames {
                frames,
                frame_count,
                body_bytes,
                failure: Some(LspClientError::Frame(LspFrameError::InvalidState)),
            };
        }
        if count > usize::MAX - frame_count || bytes_in_batch > usize::MAX - body_bytes {
            return StdoutFrames {
                frames,
                frame_count,
                body_bytes,
                failure: Some(LspClientError::Frame(LspFrameError::CounterOverflow)),
            };
        }
        let ghost fresh_view = batch@.2;
        let mut fresh = batch.into_frames();
        let ghost old_frames = frames@;
        let ghost fresh_frames = fresh@;
        frames.append(&mut fresh);
        assert(frames@ =~= old_frames + fresh_frames);
        assert(frames_view(frames@) =~= before + fresh_view);
        frame_count = frame_count + count;
        body_bytes = body_bytes + bytes_in_batch;
        consumed = consumed + taken;
    }
    proof {
        assert(bytes@.subrange(0, consumed as int) =~= bytes@);
        assert(reads_frames(l, m0, bytes@.subrange(0, consumed as int), frames_view(frames@)));
    }
    StdoutFrames { frames, frame_count, body_bytes, failure: None }
}

} // verus!
