//! Runtime contract for one owned native surface: lifecycle transitions,
//! demand-driven frame admission, input batching and presentation outcomes.
use std::collections::VecDeque;
use vstd::prelude::*;

verus! {

/// Identifier for an owned native surface.
#[derive(Clone, Copy, Debug, PartialEq, Eq, Structural)]
pub struct SurfaceId {
    value: u64,
}

impl View for SurfaceId {
    type V = u64;

    closed spec fn view(&self) -> u64 {
        self.value
    }
}

impl SurfaceId {
    /// Creates a deterministic identity for a surface.
    pub fn new(value: u64) -> (id: Self)
        ensures
            id@ == value,
    {
        Self { value }
    }

    /// Returns the raw identifier value.
    pub fn value(self) -> (v: u64)
        ensures
            v == self@,
    {
        self.value
    }
}

/// Two identifiers are equal exactly when their values are equal.
pub proof fn law_ids_are_their_values(a: SurfaceId, b: SurfaceId)
    ensures
        (a == b) <==> (a@ == b@),
{
}

/// Publicly visible lifecycle for the run contract.
#[derive(Clone, Copy, Debug, PartialEq, Eq, Structural)]
pub enum SurfaceState {
    /// Surface exists but has not yet entered an active run loop.
    Created,
    /// Surface is running.
    Running,
    /// Surface is paused by visibility or workload policy.
    Paused,
    /// Shutdown requested; the loop unwinds after the in-flight frame.
    Closing,
    /// Surface has fully drained and is closed.
    Closed,
}

impl Default for SurfaceState {
    fn default() -> (s: Self)
        ensures
            s == SurfaceState::Created,
    {
        SurfaceState::Created
    }
}

/// Surface visibility and power-policy hints.
#[derive(Clone, Copy, Debug, PartialEq, Eq, Structural)]
pub enum Visibility {
    /// Surface is visible and can schedule frames.
    Visible,
    /// Surface exists but is hidden and should not render.
    Hidden,
    /// Surface is present but not visually relevant.
    Occluded,
}

impl Default for Visibility {
    fn default() -> (v: Self)
        ensures
            v == Visibility::Visible,
    {
        Visibility::Visible
    }
}

/// Failure modes that keep runtime behavior deterministic and avoid panics.
#[derive(Clone, Copy, Debug, PartialEq, Eq, Structural)]
pub enum NativeSurfaceError {
    /// Host does not support the requested surface operation.
    Unsupported,
    /// `run` was called while another run is active.
    AlreadyRunning,
    /// The surface is already closed.
    AlreadyClosed,
    /// Input queue exceeded configured capacity.
    InputOverflow,
    /// No dirty frame exists to process.
    NoFrameRequested,
}

/// A recoverable presentation status for frame submission.
#[derive(Clone, Copy, Debug, PartialEq, Eq, Structural)]
pub enum PresentationResult {
    /// Frame was presented.
    Presented,
    /// Surface was not eligible for presentation but state remained healthy.
    SkippedByPause,
    /// Device was interrupted and must be recovered.
    DeviceLost,
    /// Capability was not available on this host.
    UnsupportedCapability,
}

/// Reasons a frame can be considered dirty.
#[derive(Clone, Copy, Debug, PartialEq, Eq, Structural)]
pub enum FrameDemandReason {
    /// First frame after startup, launch, or restore.
    Initial,
    /// Scene graph changed.
    SceneDirty,
    /// Input requires a coalesced redraw.
    Input,
    /// Accessibility state or announcement changed.
    Accessibility,
    /// Visibility/power change required a reconciliation frame.
    Recovery,
}

impl Default for FrameDemandReason {
    fn default() -> (r: Self)
        ensures
            r == FrameDemandReason::Initial,
    {
        FrameDemandReason::Initial
    }
}

/// One most-recent frame request per run loop turn.
#[derive(Clone, Copy, Debug, PartialEq, Eq, Structural)]
pub struct FrameRequest {
    /// Monotonic revision from the caller.
    pub revision: u64,
    /// Why this revision is considered render-relevant.
    pub reason: FrameDemandReason,
    /// Whether any input is associated with this revision.
    pub has_input: bool,
}

/// The request that survives coalescing a new request into `latest`:
/// a request replaces the retained one unless its revision is older.
pub open spec fn coalesce(latest: Option<FrameRequest>, incoming: FrameRequest) -> Option<FrameRequest> {
    match latest {
        Some(existing) => if incoming.revision >= existing.revision {
            Some(incoming)
        } else {
            Some(existing)
        },
        None => Some(incoming),
    }
}

/// Demand-driven coalescing policy: one latest frame per run turn.
#[derive(Debug)]
pub struct FrameDemandQueue {
    latest: Option<FrameRequest>,
}

impl View for FrameDemandQueue {
    type V = Option<FrameRequest>;

    closed spec fn view(&self) -> Option<FrameRequest> {
        self.latest
    }
}

impl Default for FrameDemandQueue {
    fn default() -> (q: Self)
        ensures
            q@ is None,
    {
        Self::new()
    }
}

impl FrameDemandQueue {
    /// Creates a clean queue.
    pub fn new() -> (q: Self)
        ensures
            q@ is None,
    {
        Self { latest: None }
    }

    /// Enqueues or coalesces a request, keeping only the latest revision.
    pub fn request(&mut self, revision: u64, reason: FrameDemandReason, has_input: bool)
        ensures
            final(self)@ == coalesce(
                old(self)@,
                FrameRequest { revision, reason, has_input },
            ),
    {
        let replace = match self.latest {
            Some(existing) => revision >= existing.revision,
            None => true,
        };
        if replace {
            self.latest = Some(FrameRequest { revision, reason, has_input });
        }
    }

    /// Clears and returns the latest coalesced frame request if any.
    pub fn take_latest(&mut self) -> (taken: Option<FrameRequest>)
        ensures
            taken == old(self)@,
            final(self)@ is None,
    {
        let taken = self.latest;
        self.latest = None;
        taken
    }

    /// Returns whether there is any pending frame work.
    pub fn has_pending(&self) -> (pending: bool)
        ensures
            pending == self@ is Some,
    {
        self.latest.is_some()
    }
}

/// Input event payload accepted by the run loop.
#[derive(Clone, Debug, PartialEq)]
pub enum NativeInputEvent {
    /// Keyboard event.
    Keyboard(KeyboardEvent),
    /// Pointer event.
    Pointer(PointerEvent),
    /// Clipboard transfer event.
    Clipboard(ClipboardEvent),
    /// IME composition lifecycle.
    Ime(ImeEvent),
    /// Accessibility-focused announcement.
    Accessibility(AccessibilityEvent),
    /// Lifecycle and scheduler events.
    Lifecycle(LifecycleEvent),
}

/// Modifier mask for keyboard input.
#[derive(Clone, Debug, PartialEq, Eq)]
pub struct Modifiers {
    /// Command / meta key state.
    pub command: bool,
    /// Control key state.
    pub control: bool,
    /// Option / alt key state.
    pub option: bool,
    /// Shift key state.
    pub shift: bool,
}

impl Default for Modifiers {
    fn default() -> (m: Self)
        ensures
            !m.command && !m.control && !m.option && !m.shift,
    {
        Self { command: false, control: false, option: false, shift: false }
    }
}

/// Keyboard event with lifecycle-safe phases.
#[derive(Clone, Debug, PartialEq)]
pub struct KeyboardEvent {
    /// Raw key string used by app-specific mapping.
    pub key: String,
    /// Logical key state.
    pub phase: KeyPhase,
    /// Modifier mask.
    pub modifiers: Modifiers,
    /// Internal sequence for coalescing or replay.
    pub sequence: u64,
}

/// Pointer event state.
#[derive(Clone, Debug, PartialEq)]
pub struct PointerEvent {
    /// Pointer x position in logical surface coordinates.
    pub x: u32,
    /// Pointer y position in logical surface coordinates.
    pub y: u32,
    /// Button identifier or wheel axis marker.
    pub element: u16,
    /// Event kind and action.
    pub kind: PointerKind,
    /// Modifier mask.
    pub modifiers: Modifiers,
}

/// Clipboard event.
#[derive(Clone, Debug, PartialEq, Eq)]
pub struct ClipboardEvent {
    /// Clipboard action.
    pub action: ClipboardAction,
    /// Text payload for non-empty clipboard actions.
    pub text: Option<String>,
}

/// IME lifecycle event.
#[derive(Clone, Debug, PartialEq)]
pub struct ImeEvent {
    /// Session identifier for composition tracking.
    pub session_id: u64,
    /// Composition operation.
    pub phase: ImePhase,
    /// Optional UTF-8 composition payload.
    pub text: Option<String>,
}

/// Accessibility announcement event.
#[derive(Clone, Debug, PartialEq)]
pub struct AccessibilityEvent {
    /// Announcement text for assistive technologies.
    pub announcement: String,
    /// Priority label for ordering.
    pub level: AccessibilityLevel,
}

/// Lifecycle / scheduler event.
#[derive(Clone, Debug, PartialEq, Eq)]
pub enum LifecycleEvent {
    /// Surface became visible.
    Visible,
    /// Surface became hidden.
    Hidden,
    /// Surface became occluded.
    Occluded,
    /// Close requested by the platform or user.
    CloseRequested,
    /// Surface woke from system suspension.
    Wake,
    /// Surface is now suspended.
    Sleep,
    /// Surface resized; zeros pause rendering.
    Resize { width: u32, height: u32 },
}

/// Key transition phase.
#[derive(Clone, Copy, Debug, PartialEq, Eq)]
pub enum KeyPhase {
    /// Press event.
    Pressed,
    /// Release event.
    Released,
    /// Repeat event.
    Repeat,
}

/// Pointer action.
#[derive(Clone, Debug, PartialEq, Eq)]
pub enum PointerKind {
    /// Pointer moved with no button change.
    Move,
    /// Down event.
    Down,
    /// Up event.
    Up,
    /// Wheel or trackpad scroll.
    Scroll,
}

/// Clipboard operation.
#[derive(Clone, Debug, PartialEq, Eq)]
pub enum ClipboardAction {
    /// Copy selection to clipboard.
    Copy,
    /// Paste from clipboard.
    Paste,
    /// Cut selection to clipboard.
    Cut,
}

/// IME composition phase.
#[derive(Clone, Debug, PartialEq, Eq)]
pub enum ImePhase {
    /// Composition started.
    Start,
    /// Composition updated.
    Update,
    /// Composition committed.
    Commit,
    /// Composition cancelled.
    Cancel,
}

/// Accessibility importance channel.
#[derive(Clone, Debug, PartialEq, Eq)]
pub enum AccessibilityLevel {
    /// No priority hint.
    Info,
    /// Soft preference for announcement ordering.
    Moderate,
    /// Assertive announcement requirement.
    Assertive,
}

/// Run turn data fed into host integration.
#[derive(Debug)]
pub struct RunTurn {
    /// Surface identity.
    pub surface_id: SurfaceId,
    /// Current visibility at turn start.
    pub visibility: Visibility,
    /// Frame request that won coalescing.
    pub frame: FrameRequest,
    /// Input events available at this run turn.
    pub events: Vec<NativeInputEvent>,
}

/// Callbacks decide whether to continue, yield, or close.
#[derive(Clone, Copy, Debug, PartialEq, Eq, Structural)]
pub enum RunDecision {
    /// Continue with this turn and keep the surface paused after drain.
    Continue,
    /// Continue and immediately re-run if a new frame is pending.
    ContinueAndDrill,
    /// Begin close and transition through shutdown.
    RequestShutdown,
}

/// `run` return shape separates shutdown from no-frame states.
#[derive(Clone, Copy, Debug, PartialEq, Eq, Structural)]
pub enum RunOutcome {
    /// No frame requested so run exits cleanly.
    NoFrame {
        /// Pending queue was empty.
        reason: NativeSurfaceError,
        /// Pending event count at clean exit.
        queued_inputs: usize,
    },
    /// A frame was processed.
    FrameProcessed {
        /// Revision consumed by the callback.
        revision: u64,
        /// Reason carried on the processed frame.
        reason: FrameDemandReason,
        /// Input events processed in this turn.
        event_count: usize,
        /// Final surface state after the callback.
        post_state: SurfaceState,
    },
    /// Surface is closed and fully drained.
    Closed {
        /// Last processed revision before closure.
        last_revision: u64,
        /// Events still queued at closure time.
        queued_inputs: usize,
    },
}

/// Configuration for safe first-mile behavior.
#[derive(Clone, Debug)]
pub struct NativeSurfaceConfig {
    /// Maximum queued input events.
    pub max_input_events: usize,
}

/// Default bound on queued input events.
pub const DEFAULT_MAX_INPUT_EVENTS: usize = 1024;

impl Default for NativeSurfaceConfig {
    fn default() -> (c: Self)
        ensures
            c.max_input_events == DEFAULT_MAX_INPUT_EVENTS,
    {
        Self { max_input_events: DEFAULT_MAX_INPUT_EVENTS }
    }
}

/// The mathematical state of a surface.
pub struct SurfaceModel {
    pub id: SurfaceId,
    pub state: SurfaceState,
    pub visibility: Visibility,
    pub width: u32,
    pub height: u32,
    pub pending: Option<FrameRequest>,
    pub queued: Seq<NativeInputEvent>,
    pub max_input_events: usize,
    pub shutdown_requested: bool,
    pub last_revision: u64,
}

/// Owned runtime contract for one native surface.
#[derive(Debug)]
pub struct NativeSurface {
    id: SurfaceId,
    state: SurfaceState,
    visibility: Visibility,
    width: u32,
    height: u32,
    /// Latest-wins frame demand.
    pub frame_queue: FrameDemandQueue,
    input_events: VecDeque<NativeInputEvent>,
    /// Input admission configuration.
    pub config: NativeSurfaceConfig,
    shutdown_requested: bool,
    last_revision: u64,
}

impl View for NativeSurface {
    type V = SurfaceModel;

    closed spec fn view(&self) -> SurfaceModel {
        SurfaceModel {
            id: self.id,
            state: self.state,
            visibility: self.visibility,
            width: self.width,
            height: self.height,
            pending: self.frame_queue@,
            queued: self.input_events@,
            max_input_events: self.config.max_input_events,
            shutdown_requested: self.shutdown_requested,
            last_revision: self.last_revision,
        }
    }
}

/// Whether a surface with these attributes must not render.
pub open spec fn suppresses_rendering(m: SurfaceModel) -> bool {
    m.visibility != Visibility::Visible || m.width == 0 || m.height == 0
}

/// The lifecycle state after a visibility change.
/// A closed surface stays closed.
pub open spec fn state_after_visibility(m: SurfaceModel, visibility: Visibility) -> SurfaceState {
    if m.state == SurfaceState::Closed {
        SurfaceState::Closed
    } else {
        match visibility {
            Visibility::Visible => if m.shutdown_requested {
                m.state
            } else {
                SurfaceState::Paused
            },
            _ => SurfaceState::Paused,
        }
    }
}

/// Outcome of a run that finds the surface unable to render or without a frame.
pub open spec fn idle_outcome(m: SurfaceModel) -> RunOutcome {
    if suppresses_rendering(m) && m.shutdown_requested {
        RunOutcome::Closed { last_revision: m.last_revision, queued_inputs: m.queued.len() as usize }
    } else {
        RunOutcome::NoFrame {
            reason: NativeSurfaceError::NoFrameRequested,
            queued_inputs: m.queued.len() as usize,
        }
    }
}

/// State of a run that finds the surface unable to render or without a frame.
pub open spec fn idle_state(m: SurfaceModel) -> SurfaceState {
    if suppresses_rendering(m) && m.shutdown_requested {
        SurfaceState::Closed
    } else {
        SurfaceState::Paused
    }
}

/// Outcome of a processed turn, given the callback's decision.
pub open spec fn turn_outcome(
    shutdown_requested: bool,
    frame: FrameRequest,
    event_count: usize,
    decision: RunDecision,
) -> RunOutcome {
    if shutdown_requested || decision == RunDecision::RequestShutdown {
        RunOutcome::Closed { last_revision: frame.revision, queued_inputs: 0 }
    } else {
        RunOutcome::FrameProcessed {
            revision: frame.revision,
            reason: frame.reason,
            event_count,
            post_state: SurfaceState::Paused,
        }
    }
}

/// Lifecycle state once a turn's decision is applied.
pub open spec fn finish_state(m: SurfaceModel, d: RunDecision) -> SurfaceState {
    if m.shutdown_requested || d == RunDecision::RequestShutdown {
        SurfaceState::Closed
    } else if d == RunDecision::ContinueAndDrill && m.pending is Some {
        SurfaceState::Running
    } else {
        SurfaceState::Paused
    }
}

/// Outcome once a turn's decision is applied.
pub open spec fn finish_outcome(
    m: SurfaceModel,
    frame: FrameRequest,
    event_count: usize,
    d: RunDecision,
) -> RunOutcome {
    if m.shutdown_requested || d == RunDecision::RequestShutdown {
        RunOutcome::Closed { last_revision: frame.revision, queued_inputs: m.queued.len() as usize }
    } else {
        RunOutcome::FrameProcessed {
            revision: frame.revision,
            reason: frame.reason,
            event_count,
            post_state: finish_state(m, d),
        }
    }
}

/// The turn handed to the callback: every queued event, in order.
pub open spec fn turn_matches(turn: RunTurn, m: SurfaceModel, frame: FrameRequest) -> bool {
    &&& turn.surface_id == m.id
    &&& turn.visibility == m.visibility
    &&& turn.frame == frame
    &&& turn.events@ == m.queued
}

/// A run that processed the pending frame, with `d` the callback's decision.
pub open spec fn turn_applied(
    before: SurfaceModel,
    after: SurfaceModel,
    r: Result<RunOutcome, NativeSurfaceError>,
    d: RunDecision,
) -> bool {
    let frame = before.pending->0;
    &&& r == Ok::<RunOutcome, NativeSurfaceError>(
        turn_outcome(before.shutdown_requested, frame, before.queued.len() as usize, d),
    )
    &&& after == (SurfaceModel {
        queued: Seq::empty(),
        pending: None,
        last_revision: frame.revision,
        shutdown_requested: before.shutdown_requested || d == RunDecision::RequestShutdown,
        state: if before.shutdown_requested || d == RunDecision::RequestShutdown {
            SurfaceState::Closed
        } else {
            SurfaceState::Paused
        },
        ..before
    })
}

/// What `begin_run` hands back: a finished run, or a turn for the callback.
pub enum RunStart {
    /// The run ended without a turn.
    Finished(RunOutcome),
    /// A frame won coalescing; its turn must be handed to the callback.
    Turn(RunTurn),
}

impl NativeSurface {
    /// Creates a default surface contract with deterministic configuration.
    pub fn new(id: SurfaceId) -> (s: Self)
        ensures
            s@.id == id,
            s@.state == SurfaceState::Created,
            s@.visibility == Visibility::Visible,
            s@.width == 0,
            s@.height == 0,
            s@.pending is None,
            s@.queued.len() == 0,
            s@.max_input_events == DEFAULT_MAX_INPUT_EVENTS,
            !s@.shutdown_requested,
            s@.last_revision == 0,
    {
        Self {
            id,
            state: SurfaceState::default(),
            visibility: Visibility::default(),
            width: 0,
            height: 0,
            frame_queue: FrameDemandQueue::default(),
            input_events: VecDeque::new(),
            config: NativeSurfaceConfig::default(),
            shutdown_requested: false,
            last_revision: 0,
        }
    }

    /// Returns the current lifecycle state.
    pub fn state(&self) -> (s: SurfaceState)
        ensures
            s == self@.state,
    {
        self.state
    }

    /// Returns whether the surface has been closed.
    pub fn is_closed(&self) -> (closed: bool)
        ensures
            closed == (self@.state == SurfaceState::Closed),
    {
        self.state == SurfaceState::Closed
    }

    /// Returns the current visibility hint.
    pub fn visibility(&self) -> (v: Visibility)
        ensures
            v == self@.visibility,
    {
        self.visibility
    }

    /// Returns the native size in logical pixels.
    pub fn size(&self) -> (size: (u32, u32))
        ensures
            size == (self@.width, self@.height),
    {
        (self.width, self.height)
    }

    /// Updates visibility and emits deterministic pause/continue transitions.
    pub fn set_visibility(&mut self, visibility: Visibility)
        ensures
            final(self)@ == (SurfaceModel {
                visibility,
                state: state_after_visibility(old(self)@, visibility),
                ..old(self)@
            }),
    {
        let next = if self.state == SurfaceState::Closed {
            SurfaceState::Closed
        } else {
            match visibility {
                Visibility::Visible => {
                    if self.shutdown_requested {
                        self.state
                    } else {
                        SurfaceState::Paused
                    }
                },
                Visibility::Hidden | Visibility::Occluded => SurfaceState::Paused,
            }
        };
        self.visibility = visibility;
        self.state = next;
    }

    /// Updates logical size. A zero-size surface is paused; a closed one
    /// stays closed.
    pub fn resize(&mut self, width: u32, height: u32)
        ensures
            final(self)@ == (SurfaceModel {
                width,
                height,
                state: if (width == 0 || height == 0) && old(self)@.state != SurfaceState::Closed {
                    SurfaceState::Paused
                } else {
                    old(self)@.state
                },
                ..old(self)@
            }),
    {
        self.width = width;
        self.height = height;
        if (width == 0 || height == 0) && self.state != SurfaceState::Closed {
            self.state = SurfaceState::Paused;
        }
    }

    /// Requests a frame with latest-wins coalescing.
    pub fn request_frame(&mut self, revision: u64, reason: FrameDemandReason, has_input: bool)
        ensures
            final(self)@ == (SurfaceModel {
                pending: coalesce(old(self)@.pending, FrameRequest { revision, reason, has_input }),
                ..old(self)@
            }),
    {
        self.frame_queue.request(revision, reason, has_input);
    }

    /// Enqueues an input event for the next frame drain.
    pub fn post_event(&mut self, event: NativeInputEvent) -> (r: Result<(), NativeSurfaceError>)
        ensures
            old(self)@.queued.len() >= old(self)@.max_input_events ==> {
                &&& r == Err::<(), NativeSurfaceError>(NativeSurfaceError::InputOverflow)
                &&& final(self)@ == old(self)@
            },
            old(self)@.queued.len() < old(self)@.max_input_events ==> {
                &&& r is Ok
                &&& final(self)@ == (SurfaceModel { queued: old(self)@.queued.push(event), ..old(self)@ })
            },
    {
        if self.input_events.len() >= self.config.max_input_events {
            return Err(NativeSurfaceError::InputOverflow);
        }
        self.input_events.push_back(event);
        Ok(())
    }

    /// Triggers close with a clean shutdown sequence.
    pub fn request_shutdown(&mut self)
        ensures
            final(self)@ == (SurfaceModel { shutdown_requested: true, ..old(self)@ }),
    {
        self.shutdown_requested = true;
    }

    /// Signals platform-level unsupported state without panicking.
    pub fn unsupported_state_error() -> (e: NativeSurfaceError)
        ensures
            e == NativeSurfaceError::Unsupported,
    {
        NativeSurfaceError::Unsupported
    }

    /// First half of a run turn: admits the run, and either finishes it or
    /// takes the winning frame and drains every queued event into a turn.
    pub fn begin_run(&mut self) -> (r: Result<RunStart, NativeSurfaceError>)
        ensures
            old(self)@.state == SurfaceState::Closed ==> {
                &&& r == Err::<RunStart, NativeSurfaceError>(NativeSurfaceError::AlreadyClosed)
                &&& final(self)@ == old(self)@
            },
            old(self)@.state == SurfaceState::Running ==> {
                &&& r == Err::<RunStart, NativeSurfaceError>(NativeSurfaceError::AlreadyRunning)
                &&& final(self)@ == old(self)@
            },
            old(self)@.state != SurfaceState::Closed && old(self)@.state != SurfaceState::Running
                && (suppresses_rendering(old(self)@) || old(self)@.pending is None) ==> {
                &&& r matches Ok(RunStart::Finished(o)) && o == idle_outcome(old(self)@)
                &&& final(self)@ == (SurfaceModel { state: idle_state(old(self)@), ..old(self)@ })
            },
            old(self)@.state != SurfaceState::Closed && old(self)@.state != SurfaceState::Running
                && old(self)@.visibility != Visibility::Visible ==> (r matches Ok(RunStart::Finished(_)))
                && final(self)@.pending == old(self)@.pending && final(self)@.queued == old(self)@.queued,
            old(self)@.state != SurfaceState::Closed && old(self)@.state != SurfaceState::Running
                && !suppresses_rendering(old(self)@) && old(self)@.pending is Some ==> {
                &&& r matches Ok(RunStart::Turn(turn))
                    && turn_matches(turn, old(self)@, old(self)@.pending->0)
                &&& final(self)@ == (SurfaceModel {
                    state: if old(self)@.shutdown_requested {
                        SurfaceState::Closing
                    } else {
                        SurfaceState::Running
                    },
                    pending: None,
                    queued: Seq::empty(),
                    ..old(self)@
                })
            },
    {
        if self.state == SurfaceState::Closed {
            return Err(NativeSurfaceError::AlreadyClosed);
        }
        if self.state == SurfaceState::Running {
            return Err(NativeSurfaceError::AlreadyRunning);
        }
        let hidden = match self.visibility {
            Visibility::Visible => false,
            _ => true,
        };
        if hidden || self.width == 0 || self.height == 0 {
            let queued_inputs = self.input_events.len();
            if self.shutdown_requested {
                self.state = SurfaceState::Closed;
                return Ok(
                    RunStart::Finished(
                        RunOutcome::Closed { last_revision: self.last_revision, queued_inputs },
                    ),
                );
            }
            self.state = SurfaceState::Paused;
            return Ok(
                RunStart::Finished(
                    RunOutcome::NoFrame {
                        reason: NativeSurfaceError::NoFrameRequested,
                        queued_inputs,
                    },
                ),
            );
        }
        let frame = match self.frame_queue.take_latest() {
            Some(frame) => frame,
            None => {
                self.state = SurfaceState::Paused;
                return Ok(
                    RunStart::Finished(
                        RunOutcome::NoFrame {
                            reason: NativeSurfaceError::NoFrameRequested,
                            queued_inputs: self.input_events.len(),
                        },
                    ),
                );
            },
        };
        self.state = if self.shutdown_requested {
            SurfaceState::Closing
        } else {
            SurfaceState::Running
        };
        let mut queue: VecDeque<NativeInputEvent> = VecDeque::new();
        std::mem::swap(&mut queue, &mut self.input_events);
        let mut events: Vec<NativeInputEvent> = Vec::new();
        let ghost queued = queue@;
        while queue.len() > 0
            invariant
                events@ + queue@ == queued,
            decreases queue@.len(),
        {
            match queue.pop_front() {
                Some(event) => {
                    events.push(event);
                    assert(events@ + queue@ =~= queued);
                },
                None => {},
            }
        }
        assert(events@ =~= queued);
        Ok(RunStart::Turn(RunTurn { surface_id: self.id, visibility: self.visibility, frame, events }))
    }

    /// Second half of a run turn: applies the callback's decision.
    pub fn finish_run(&mut self, frame: FrameRequest, event_count: usize, decision: RunDecision) -> (o:
        RunOutcome)
        ensures
            o == finish_outcome(old(self)@, frame, event_count, decision),
            final(self)@ == (SurfaceModel {
                last_revision: frame.revision,
                shutdown_requested: old(self)@.shutdown_requested || decision
                    == RunDecision::RequestShutdown,
                state: finish_state(old(self)@, decision),
                ..old(self)@
            }),
    {
        self.last_revision = frame.revision;
        match decision {
            RunDecision::Continue => {
                self.state = SurfaceState::Paused;
            },
            RunDecision::ContinueAndDrill => {
                if self.frame_queue.has_pending() {
                    self.state = SurfaceState::Running;
                } else {
                    self.state = SurfaceState::Paused;
                }
            },
            RunDecision::RequestShutdown => {
                self.shutdown_requested = true;
                self.state = SurfaceState::Closing;
            },
        }
        if self.shutdown_requested {
            self.state = SurfaceState::Closed;
            return RunOutcome::Closed {
                last_revision: self.last_revision,
                queued_inputs: self.input_events.len(),
            };
        }
        RunOutcome::FrameProcessed {
            revision: self.last_revision,
            reason: frame.reason,
            event_count,
            post_state: self.state,
        }
    }

    /// Runs one turn: admits the run, hands the latest frame and every queued
    /// input to `on_turn`, and applies its decision.
    pub fn run<F>(&mut self, on_turn: F) -> (r: Result<RunOutcome, NativeSurfaceError>) where
        F: FnMut(RunTurn) -> RunDecision,
        requires
            forall|turn: RunTurn| call_requires(on_turn, (turn,)),
        ensures
            old(self)@.state == SurfaceState::Closed ==> r == Err::<RunOutcome, NativeSurfaceError>(
                NativeSurfaceError::AlreadyClosed,
            ) && final(self)@ == old(self)@,
            old(self)@.state == SurfaceState::Running ==> r == Err::<RunOutcome, NativeSurfaceError>(
                NativeSurfaceError::AlreadyRunning,
            ) && final(self)@ == old(self)@,
            old(self)@.state != SurfaceState::Closed && old(self)@.state != SurfaceState::Running
                && (suppresses_rendering(old(self)@) || old(self)@.pending is None) ==> {
                &&& r == Ok::<RunOutcome, NativeSurfaceError>(idle_outcome(old(self)@))
                &&& final(self)@ == (SurfaceModel { state: idle_state(old(self)@), ..old(self)@ })
            },
            old(self)@.state != SurfaceState::Closed && old(self)@.state != SurfaceState::Running
                && old(self)@.visibility != Visibility::Visible ==> (r matches Ok(
                RunOutcome::NoFrame { .. },
            ) || r matches Ok(RunOutcome::Closed { .. })) && final(self)@.pending == old(self)@.pending
                && final(self)@.queued == old(self)@.queued,
            old(self)@.state != SurfaceState::Closed && old(self)@.state != SurfaceState::Running
                && !suppresses_rendering(old(self)@) && old(self)@.pending is Some ==> exists|
                turn: RunTurn,
                d: RunDecision,
            |
                turn_matches(turn, old(self)@, old(self)@.pending->0) && #[trigger] call_ensures(
                    on_turn,
                    (turn,),
                    d,
                ) && turn_applied(old(self)@, final(self)@, r, d),
    {
        let mut on_turn = on_turn;
        match self.begin_run() {
            Err(e) => Err(e),
            Ok(RunStart::Finished(outcome)) => Ok(outcome),
            Ok(RunStart::Turn(turn)) => {
                let frame = turn.frame;
                let event_count = turn.events.len();
                let ghost handed = turn;
                let decision = on_turn(turn);
                let outcome = self.finish_run(frame, event_count, decision);
                assert(turn_applied(old(self)@, self@, Ok(outcome), decision));
                assert(turn_matches(handed, old(self)@, old(self)@.pending->0) && call_ensures(
                    on_turn,
                    (handed,),
                    decision,
                ));
                Ok(outcome)
            },
        }
    }

    /// Presentation classification for recovery and adaptation gates.
    pub fn present_result(&self, status: PresentationResult) -> (r: Result<(), NativeSurfaceError>)
        ensures
            r == (match status {
                PresentationResult::Presented | PresentationResult::SkippedByPause => Ok(()),
                _ => Err(NativeSurfaceError::Unsupported),
            }),
    {
        match status {
            PresentationResult::Presented | PresentationResult::SkippedByPause => Ok(()),
            PresentationResult::DeviceLost | PresentationResult::UnsupportedCapability => Err(
                NativeSurfaceError::Unsupported,
            ),
        }
    }
}

/// A surface that is hidden or occluded does not render: a run finishes
/// without a turn, reporting no frame or, after a shutdown request, the
/// close; the pending frame and the queued input stay for a later run.
pub proof fn law_surface_out_of_view_does_not_render(m: SurfaceModel)
    requires
        m.visibility == Visibility::Hidden || m.visibility == Visibility::Occluded,
    ensures
        suppresses_rendering(m),
        m.shutdown_requested ==> idle_outcome(m) is Closed && idle_state(m) == SurfaceState::Closed,
        !m.shutdown_requested ==> idle_outcome(m) is NoFrame && idle_state(m) == SurfaceState::Paused,
{
}

} // verus!
