use alpine_studio::surface::{
    FrameDemandQueue, FrameDemandReason, FrameRequest, KeyPhase, KeyboardEvent, Modifiers,
    NativeInputEvent, NativeSurface, NativeSurfaceError, PresentationResult, RunDecision,
    RunOutcome, SurfaceId, SurfaceState, Visibility,
};

fn press_b_key(sequence: u64) -> NativeInputEvent {
    NativeInputEvent::Keyboard(KeyboardEvent {
        key: "B".to_string(),
        phase: KeyPhase::Pressed,
        modifiers: Modifiers::default(),
        sequence,
    })
}

#[test]
fn keeps_only_latest_frame_request() {
    let mut surface = NativeSurface::new(SurfaceId::new(1));
    surface.request_frame(1, FrameDemandReason::Initial, false);
    surface.request_frame(7, FrameDemandReason::Input, true);
    surface.request_frame(3, FrameDemandReason::SceneDirty, true);
    assert_eq!(
        surface.frame_queue.take_latest(),
        Some(FrameRequest {
            revision: 7,
            reason: FrameDemandReason::Input,
            has_input: true,
        })
    );
}

#[test]
fn run_drains_events_and_closes_cleanly() {
    let mut surface = NativeSurface::new(SurfaceId::new(2));
    surface.resize(1440, 1024);
    surface.request_frame(11, FrameDemandReason::SceneDirty, true);
    assert_eq!(surface.post_event(press_b_key(1)), Ok(()));

    let outcome = surface.run(|turn| {
        assert_eq!(turn.frame.revision, 11);
        assert_eq!(turn.events.len(), 1);
        assert_eq!(turn.surface_id, SurfaceId::new(2));
        RunDecision::RequestShutdown
    });

    assert_eq!(
        outcome,
        Ok(RunOutcome::Closed {
            last_revision: 11,
            queued_inputs: 0,
        })
    );
}

#[test]
fn hidden_state_pauses_without_render() {
    let mut surface = NativeSurface::new(SurfaceId::new(3));
    surface.resize(800, 600);
    surface.set_visibility(Visibility::Hidden);
    surface.request_frame(1, FrameDemandReason::Accessibility, false);

    let outcome = surface.run(|_| RunDecision::Continue);
    assert_eq!(
        outcome,
        Ok(RunOutcome::NoFrame {
            reason: NativeSurfaceError::NoFrameRequested,
            queued_inputs: 0,
        })
    );
    assert_eq!(surface.state(), SurfaceState::Paused);
}

#[test]
fn input_queue_rejects_when_full() {
    let mut surface = NativeSurface::new(SurfaceId::new(4));
    surface.config.max_input_events = 1;
    assert_eq!(surface.post_event(press_b_key(1)), Ok(()));
    assert_eq!(
        surface.post_event(press_b_key(2)),
        Err(NativeSurfaceError::InputOverflow)
    );
}

#[test]
fn older_request_never_replaces_newer_and_equal_revision_replaces() {
    let mut queue = FrameDemandQueue::new();
    assert!(!queue.has_pending());
    queue.request(5, FrameDemandReason::Input, true);
    queue.request(4, FrameDemandReason::Recovery, false);
    queue.request(5, FrameDemandReason::SceneDirty, false);
    assert!(queue.has_pending());
    assert_eq!(
        queue.take_latest(),
        Some(FrameRequest {
            revision: 5,
            reason: FrameDemandReason::SceneDirty,
            has_input: false,
        })
    );
    assert_eq!(queue.take_latest(), None);
}

#[test]
fn run_errors_and_presentation_classification_are_exact() {
    let mut surface = NativeSurface::new(SurfaceId::new(5));
    surface.resize(10, 10);
    surface.request_frame(2, FrameDemandReason::Initial, false);
    assert_eq!(surface.post_event(press_b_key(1)), Ok(()));
    assert_eq!(surface.post_event(press_b_key(2)), Ok(()));
    let outcome = surface.run(|turn| {
        assert_eq!(turn.events.len(), 2);
        RunDecision::ContinueAndDrill
    });
    assert_eq!(
        outcome,
        Ok(RunOutcome::FrameProcessed {
            revision: 2,
            reason: FrameDemandReason::Initial,
            event_count: 2,
            post_state: SurfaceState::Paused,
        })
    );
    assert_eq!(
        surface.run(|_| RunDecision::Continue),
        Ok(RunOutcome::NoFrame {
            reason: NativeSurfaceError::NoFrameRequested,
            queued_inputs: 0,
        })
    );
    surface.request_shutdown();
    surface.resize(0, 10);
    assert_eq!(
        surface.run(|_| RunDecision::Continue),
        Ok(RunOutcome::Closed {
            last_revision: 2,
            queued_inputs: 0,
        })
    );
    assert!(surface.is_closed());
    assert_eq!(
        surface.run(|_| RunDecision::Continue),
        Err(NativeSurfaceError::AlreadyClosed)
    );
    assert_eq!(surface.size(), (0, 10));
    assert_eq!(surface.visibility(), Visibility::Visible);
    assert_eq!(SurfaceId::new(9).value(), 9);
    assert_eq!(NativeSurface::unsupported_state_error(), NativeSurfaceError::Unsupported);
    assert_eq!(surface.present_result(PresentationResult::Presented), Ok(()));
    assert_eq!(surface.present_result(PresentationResult::SkippedByPause), Ok(()));
    assert_eq!(
        surface.present_result(PresentationResult::DeviceLost),
        Err(NativeSurfaceError::Unsupported)
    );
    assert_eq!(
        surface.present_result(PresentationResult::UnsupportedCapability),
        Err(NativeSurfaceError::Unsupported)
    );
}

#[test]
fn closed_surface_stays_closed_when_hidden_or_resized() {
    let mut surface = NativeSurface::new(SurfaceId::new(4));
    surface.resize(800, 600);
    surface.request_frame(1, FrameDemandReason::Initial, false);
    surface.request_shutdown();
    assert!(matches!(
        surface.run(|_| RunDecision::Continue),
        Ok(RunOutcome::Closed { last_revision: 1, queued_inputs: 0 })
    ));
    for visibility in [Visibility::Hidden, Visibility::Occluded, Visibility::Visible] {
        surface.set_visibility(visibility);
        assert_eq!(surface.visibility(), visibility);
        assert!(surface.is_closed());
    }
    surface.resize(0, 0);
    assert!(surface.is_closed());
    let mut called = false;
    assert_eq!(
        surface.run(|_| {
            called = true;
            RunDecision::Continue
        }),
        Err(NativeSurfaceError::AlreadyClosed)
    );
    assert!(!called);
    assert_eq!(surface.size(), (0, 0));
}

#[test]
fn frame_requested_while_hidden_waits_for_visibility() {
    let mut surface = NativeSurface::new(SurfaceId::new(3));
    surface.resize(800, 600);
    surface.set_visibility(Visibility::Hidden);
    surface.request_frame(1, FrameDemandReason::Accessibility, false);
    assert!(matches!(
        surface.run(|_| RunDecision::Continue),
        Ok(RunOutcome::NoFrame { .. })
    ));
    surface.set_visibility(Visibility::Visible);
    let mut calls = 0;
    let outcome = surface.run(|turn| {
        calls += 1;
        assert_eq!(turn.frame.revision, 1);
        assert_eq!(turn.surface_id, SurfaceId::new(3));
        RunDecision::Continue
    });
    assert_eq!(calls, 1);
    assert!(matches!(
        outcome,
        Ok(RunOutcome::FrameProcessed {
            revision: 1,
            reason: FrameDemandReason::Accessibility,
            event_count: 0,
            post_state: SurfaceState::Paused,
        })
    ));
}

#[test]
fn identifiers_are_equal_exactly_when_their_values_are() {
    assert_eq!(SurfaceId::new(5), SurfaceId::new(5));
    assert_ne!(SurfaceId::new(5), SurfaceId::new(6));
    assert_eq!(SurfaceId::new(5).value(), 5);
}
