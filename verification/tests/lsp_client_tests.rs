use alpine_studio::lsp_client::{
    poll_step, require_started, settle_step, ClientFlags, LspClientError, PollStep, ProtocolWrite, ProtocolWriteKind,
    ProtocolWrites, TransportEvent, MAX_PROTOCOL_PAYLOAD_BYTES, MAX_PROTOCOL_WRITES,
};
use alpine_studio::lsp_json::{build_call, PeerLifecycle};
use alpine_studio::lsp_process::{
    admit_restart, admit_submission, event_has_room, event_is_current, reserve_payload, take_input_permit,
    EVENT_CAPACITY, INPUT_CAPACITY, MAX_MESSAGE_BYTES, MAX_RETAINED_PAYLOAD_BYTES, TERMINAL_EVENT_RESERVE,
};
use alpine_studio::lsp_client::{shutdown_not_ready, shutdown_request_refused, shutdown_verdict, LspShutdownProtocol, ShutdownPoll};
use alpine_studio::lsp_framing::LspFrameError;
use alpine_studio::lsp_json::ProtocolError;
use alpine_studio::lsp_process::{
    interpret_wait, merge_stop_reason, validate_configuration, validate_path, ConfigError,
    FailureKind, ProcessFailure, ProcessIdentity, ProcessStage, StopReason, SubmitError,
    SupervisorStopped, WaitDecision, MAX_ARGUMENTS, MAX_ARGUMENT_BYTES, MAX_CONFIGURATION_BYTES,
    MAX_PATH_BYTES,
};

#[test]
fn client_errors_preserve_structured_process_and_protocol_boundaries() {
    assert_eq!(
        LspClientError::from(SubmitError::Closed),
        LspClientError::Submit(SubmitError::Closed)
    );
    assert_eq!(
        LspClientError::from(SupervisorStopped),
        LspClientError::SupervisorStopped
    );
    assert_eq!(
        LspClientError::from(LspFrameError::Poisoned),
        LspClientError::Frame(LspFrameError::Poisoned)
    );
    assert_eq!(
        LspClientError::from(ProtocolError::InvalidEnvelope),
        LspClientError::Protocol(ProtocolError::InvalidEnvelope)
    );
    let errors = [
        LspClientError::ProcessNotStarted,
        LspClientError::Process(ProcessFailure {
            stage: ProcessStage::Input,
            kind: FailureKind::Io(std::io::ErrorKind::BrokenPipe),
            raw_os_error: None,
        }),
        LspClientError::Submit(SubmitError::Closed),
        LspClientError::SupervisorStopped,
        LspClientError::Frame(LspFrameError::Poisoned),
        LspClientError::Protocol(ProtocolError::InvalidEnvelope),
    ];
    for error in errors {
        assert!(!error.message().is_empty());
    }
}

#[test]
fn client_messages_write_the_error_structure() {
    for error in [
        LspClientError::ProcessNotStarted,
        LspClientError::Process(ProcessFailure {
            stage: ProcessStage::Input,
            kind: FailureKind::Io(std::io::ErrorKind::BrokenPipe),
            raw_os_error: Some(-32),
        }),
        LspClientError::Submit(SubmitError::Closed),
        LspClientError::Frame(LspFrameError::BodyTooLarge {
            declared: 9,
            limit: 8,
        }),
        LspClientError::Frame(LspFrameError::UnexpectedEof {
            phase: alpine_studio::lsp_framing::LspFramePhase::Body,
            buffered: 2,
            expected: Some(4),
        }),
        LspClientError::Protocol(ProtocolError::InvalidEnvelope),
    ] {
        assert_eq!(
            error.message(),
            format!("local LSP client failed: {error:?}")
        );
    }
    let failure = ProcessFailure::saturated(ProcessStage::Output);
    assert_eq!(
        failure.message(),
        "language-server process failed at Output: QueueSaturated"
    );
    assert_eq!(
        SubmitError::StaleRestart.message(),
        "language-server submission failed: StaleRestart"
    );
}

#[test]
fn process_configuration_is_bounded() {
    assert_eq!(ProcessIdentity::new(0, 1), None);
    assert_eq!(
        ProcessIdentity::new(3, 4),
        Some(ProcessIdentity {
            workspace_revision: 3,
            generation: 4
        })
    );
    assert_eq!(validate_path(b"/usr/bin/server"), Ok(()));
    assert_eq!(validate_path(b"/usr/\0bin"), Err(ConfigError::ContainsNul));
    assert_eq!(
        validate_path(&vec![b'x'; MAX_PATH_BYTES + 1]),
        Err(ConfigError::PathTooLong)
    );
    let arguments = vec![b"--stdio".to_vec(); MAX_ARGUMENTS];
    assert_eq!(validate_configuration(10, &arguments), Ok(10 + 7 * MAX_ARGUMENTS));
    let too_many = vec![b"x".to_vec(); MAX_ARGUMENTS + 1];
    assert_eq!(
        validate_configuration(0, &too_many),
        Err(ConfigError::TooManyArguments)
    );
    assert_eq!(
        validate_configuration(0, &vec![vec![b'x'; MAX_ARGUMENT_BYTES + 1]]),
        Err(ConfigError::ArgumentTooLong)
    );
    assert_eq!(
        validate_configuration(MAX_CONFIGURATION_BYTES, &vec![b"x".to_vec()]),
        Err(ConfigError::ConfigurationTooLarge)
    );
    assert_eq!(
        merge_stop_reason(Some(StopReason::Restart), None),
        Some(StopReason::Restart)
    );
    assert_eq!(
        merge_stop_reason(Some(StopReason::Restart), Some(StopReason::EventOverflow)),
        Some(StopReason::EventOverflow)
    );
    assert_eq!(
        interpret_wait(WaitDecision::Terminate),
        (false, Some(StopReason::OutputOverflow))
    );
    assert_eq!(
        ConfigError::ContainsNul.message(),
        "language-server configuration contains NUL"
    );
}

#[test]
fn poll_steps_follow_the_transport() {
    let idle = ClientFlags { started: false, protocol_failure: None };
    let (started, retire, step) = poll_step(idle, TransportEvent::Started);
    assert!(started.started && !retire);
    assert_eq!(step, PollStep::Report);
    assert_eq!(poll_step(started, TransportEvent::Stdout), (started, false, PollStep::Ingest));
    assert_eq!(poll_step(started, TransportEvent::Stderr), (started, false, PollStep::Report));
    assert_eq!(poll_step(started, TransportEvent::Exited), (idle, true, PollStep::FinishFraming));
    assert_eq!(poll_step(started, TransportEvent::Stopped), (idle, true, PollStep::Report));
    assert_eq!(poll_step(started, TransportEvent::Failed), (idle, true, PollStep::Report));
    assert_eq!(poll_step(started, TransportEvent::InputRejected), (started, false, PollStep::Report));
}

#[test]
fn frozen_ingress_reports_its_failure_and_still_releases_teardown() {
    let started = ClientFlags { started: true, protocol_failure: None };
    let frozen = settle_step(started, Err(LspClientError::ProtocolWriteBudget));
    assert_eq!(frozen.protocol_failure, Some(LspClientError::ProtocolWriteBudget));
    assert!(frozen.started);
    assert_eq!(settle_step(started, Ok(())), started);
    let failure = PollStep::Frozen(LspClientError::ProtocolWriteBudget);
    assert_eq!(poll_step(frozen, TransportEvent::Stdout), (frozen, false, failure));
    let (after, retire, step) = poll_step(frozen, TransportEvent::Exited);
    assert!(!after.started && retire);
    assert_eq!(after.protocol_failure, Some(LspClientError::ProtocolWriteBudget));
    assert_eq!(step, failure);
}

fn write(method: &str, kind: ProtocolWriteKind) -> ProtocolWrite {
    ProtocolWrite { outbound: build_call(method, None, None).unwrap(), kind }
}

#[test]
fn protocol_writes_wait_in_order_and_release_their_bytes() {
    let mut flags = ClientFlags { started: true, protocol_failure: None };
    let mut writes = ProtocolWrites::new();
    assert_eq!(writes.require_write_order(flags), Ok(()));
    let first = write("initialized", ProtocolWriteKind::Initialized);
    let first_bytes = first.outbound.bytes().to_vec();
    let second = write("exit", ProtocolWriteKind::Exit);
    let second_len = second.outbound.bytes().len();
    writes.retain(&mut flags, first).unwrap();
    writes.retain(&mut flags, second).unwrap();
    assert_eq!(writes.len(), 2);
    assert_eq!(writes.payload_bytes(), first_bytes.len() + second_len);
    assert_eq!(
        writes.require_write_order(flags),
        Err(LspClientError::Submit(SubmitError::Saturated))
    );
    assert_eq!(writes.front_bytes(), Some(first_bytes.as_slice()));
    let sent = writes.complete_front();
    assert_eq!(sent.kind, ProtocolWriteKind::Initialized);
    assert_eq!(writes.payload_bytes(), second_len);
    assert_eq!(writes.complete_front().kind, ProtocolWriteKind::Exit);
    assert_eq!(writes.front_bytes(), None);
    assert_eq!(writes.payload_bytes(), 0);
}

#[test]
fn protocol_write_budget_freezes_ingress_until_retired() {
    let mut flags = ClientFlags { started: true, protocol_failure: None };
    let mut writes = ProtocolWrites::new();
    let params = format!("\"{}\"", "x".repeat(MAX_PROTOCOL_PAYLOAD_BYTES));
    let large = ProtocolWrite {
        outbound: build_call("window/logMessage", None, Some(&params)).unwrap(),
        kind: ProtocolWriteKind::Response,
    };
    assert_eq!(writes.retain(&mut flags, large), Err(LspClientError::ProtocolWriteBudget));
    assert_eq!(flags.protocol_failure, Some(LspClientError::ProtocolWriteBudget));
    assert_eq!(writes.len(), 0);
    assert_eq!(
        writes.retain(&mut flags, write("exit", ProtocolWriteKind::Exit)),
        Err(LspClientError::ProtocolWriteBudget)
    );
    assert_eq!(require_started(flags), Err(LspClientError::ProtocolWriteBudget));
    writes.retire(&mut flags);
    assert_eq!(flags.protocol_failure, None);
    assert_eq!(require_started(flags), Ok(()));
    for _ in 0..MAX_PROTOCOL_WRITES {
        writes.retain(&mut flags, write("$/p", ProtocolWriteKind::Response)).unwrap();
    }
    assert_eq!(
        writes.retain(&mut flags, write("$/p", ProtocolWriteKind::Response)),
        Err(LspClientError::ProtocolWriteBudget)
    );
    assert_eq!(
        require_started(ClientFlags { started: false, protocol_failure: None }),
        Err(LspClientError::ProcessNotStarted)
    );
}

#[test]
fn shutdown_speaks_the_protocol_only_to_an_initialized_started_peer() {
    assert_eq!(
        shutdown_not_ready(false, PeerLifecycle::Running),
        Some(LspShutdownProtocol::NotReady(PeerLifecycle::Running))
    );
    for lifecycle in [PeerLifecycle::Created, PeerLifecycle::Initializing, PeerLifecycle::Failed] {
        assert_eq!(shutdown_not_ready(true, lifecycle), Some(LspShutdownProtocol::NotReady(lifecycle)));
    }
    for lifecycle in [
        PeerLifecycle::Running,
        PeerLifecycle::ShuttingDown,
        PeerLifecycle::ShutdownAcknowledged,
        PeerLifecycle::Exited,
    ] {
        assert_eq!(shutdown_not_ready(true, lifecycle), None);
    }
}

#[test]
fn shutdown_verdicts_distinguish_clean_and_unexpected_ends() {
    let exited = ShutdownPoll::Exited { success: true, code: Some(0) };
    assert_eq!(shutdown_verdict(exited, true), Some(LspShutdownProtocol::AcknowledgedAndExited));
    assert_eq!(
        shutdown_verdict(exited, false),
        Some(LspShutdownProtocol::UnexpectedExit { success: true, code: Some(0) })
    );
    assert_eq!(
        shutdown_verdict(ShutdownPoll::Exited { success: false, code: Some(7) }, true),
        Some(LspShutdownProtocol::UnexpectedExit { success: false, code: Some(7) })
    );
    let failure = ProcessFailure::retained(ProcessStage::Input);
    assert_eq!(
        shutdown_verdict(ShutdownPoll::InputRejected(failure), true),
        Some(LspShutdownProtocol::RejectedInput(failure))
    );
    assert_eq!(
        shutdown_verdict(ShutdownPoll::Stopped(StopReason::Restart), false),
        Some(LspShutdownProtocol::Stopped(StopReason::Restart))
    );
    assert_eq!(
        shutdown_verdict(ShutdownPoll::Failed(failure), false),
        Some(LspShutdownProtocol::Failed(LspClientError::Process(failure)))
    );
    assert_eq!(
        shutdown_verdict(ShutdownPoll::Error(LspClientError::ProcessNotStarted), false),
        Some(LspShutdownProtocol::Failed(LspClientError::ProcessNotStarted))
    );
    assert_eq!(shutdown_verdict(ShutdownPoll::Idle, true), None);
    assert_eq!(shutdown_verdict(ShutdownPoll::Progress, false), None);
    assert_eq!(shutdown_request_refused(LspClientError::Submit(SubmitError::Saturated)), None);
    assert_eq!(shutdown_request_refused(LspClientError::Submit(SubmitError::RetainedBudget)), None);
    assert_eq!(
        shutdown_request_refused(LspClientError::Submit(SubmitError::Closed)),
        Some(LspShutdownProtocol::Failed(LspClientError::Submit(SubmitError::Closed)))
    );
}

#[test]
fn submissions_are_numbered_and_bounded() {
    assert_eq!(admit_submission(10, 0, true), Ok(1));
    assert_eq!(admit_submission(MAX_MESSAGE_BYTES, 41, true), Ok(42));
    assert_eq!(admit_submission(MAX_MESSAGE_BYTES + 1, 0, true), Err(SubmitError::MessageTooLarge));
    assert_eq!(admit_submission(10, u64::MAX, true), Err(SubmitError::SequenceExhausted));
    assert_eq!(admit_submission(10, 3, false), Err(SubmitError::Closed));
    assert_eq!(take_input_permit(0), Some(1));
    assert_eq!(take_input_permit(INPUT_CAPACITY - 1), Some(INPUT_CAPACITY));
    assert_eq!(take_input_permit(INPUT_CAPACITY), None);
    assert_eq!(reserve_payload(0, MAX_RETAINED_PAYLOAD_BYTES), Some(MAX_RETAINED_PAYLOAD_BYTES));
    assert_eq!(reserve_payload(1, MAX_RETAINED_PAYLOAD_BYTES), None);
    assert_eq!(reserve_payload(usize::MAX, 1), None);
}

#[test]
fn restarts_need_a_later_generation_and_events_keep_a_terminal_reserve() {
    let first = ProcessIdentity::new(1, 1).unwrap();
    let second = ProcessIdentity::new(1, 2).unwrap();
    assert_eq!(admit_restart(first, second, 1, true), Ok(2));
    assert_eq!(admit_restart(second, first, 1, true), Err(SubmitError::StaleRestart));
    assert_eq!(admit_restart(first, first, 1, true), Err(SubmitError::StaleRestart));
    assert_eq!(admit_restart(first, second, u64::MAX, true), Err(SubmitError::EpochExhausted));
    assert_eq!(admit_restart(first, second, 1, false), Err(SubmitError::Closed));
    let ordinary_limit = EVENT_CAPACITY - TERMINAL_EVENT_RESERVE;
    assert!(event_has_room(ordinary_limit - 1, false));
    assert!(!event_has_room(ordinary_limit, false));
    assert!(event_has_room(ordinary_limit, true));
    assert!(event_is_current(first, 3, first, 3));
    assert!(!event_is_current(first, 3, second, 3));
    assert!(!event_is_current(first, 2, first, 3));
}
