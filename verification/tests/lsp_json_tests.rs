use alpine_studio::lsp_framing::{LspFrameLimits, LspFramer};
use alpine_studio::lsp_json::{
    build_call, build_call_with_limit, parse_message, scan_json, JsonLimits, LspPeer, ParsedMessage,
    PeerEvent, PeerLifecycle, ProtocolError, RemoteError, RequestStamp, ResponseValue,
    WireEnvelope, MAX_ERROR_MESSAGE_BYTES, MAX_JSON_BYTES, MAX_METHOD_BYTES,
    MAX_PENDING_REQUESTS,
};
use serde_json::Value;

fn remote(value: &Value) -> Option<RemoteError> {
    let object = value.as_object()?;
    Some(RemoteError {
        code: i32::try_from(object.get("code")?.as_i64()?).ok()?,
        message: object.get("message")?.as_str()?.to_owned(),
        data: object.get("data").map(Value::to_string),
    })
}

fn envelope(body: &[u8]) -> Option<WireEnvelope> {
    let value: Value = serde_json::from_slice(body).ok()?;
    let object = value.as_object()?;
    let jsonrpc = object.get("jsonrpc")?.as_str()?.to_owned();
    let id = match object.get("id") {
        None => None,
        Some(raw) => Some(u32::try_from(raw.as_u64()?).ok().filter(|id| *id != 0)?),
    };
    let method = match object.get("method") {
        None => None,
        Some(raw) => Some(raw.as_str()?.to_owned()),
    };
    Some(WireEnvelope {
        jsonrpc,
        id,
        method,
        params: object.get("params").map(Value::to_string),
        result: object.get("result").map(Value::to_string),
        error: object.get("error").map(remote),
    })
}

fn parse(body: &[u8]) -> Result<ParsedMessage, ProtocolError> {
    parse_message(body, envelope(body))
}

fn receive(
    peer: &mut LspPeer,
    body: &[u8],
    current: Option<RequestStamp>,
) -> Result<PeerEvent, ProtocolError> {
    peer.receive(body, envelope(body), current)
}

fn stamp(revision: u64) -> RequestStamp {
    RequestStamp::new(1, revision, 2, revision).unwrap()
}

fn contains(haystack: &[u8], needle: &[u8]) -> bool {
    haystack.windows(needle.len()).any(|window| window == needle)
}

fn initialize(peer: &mut LspPeer) {
    let initialize = peer.begin_initialize().unwrap();
    assert_eq!(initialize.request_id(), Some(1));
    let event = receive(
        peer,
        br#"{"jsonrpc":"2.0","id":1,"result":{"capabilities":{}}}"#,
        None,
    )
    .unwrap();
    assert!(matches!(
        event,
        PeerEvent::Initialized(initialized)
            if initialized.request_id().is_none()
                && contains(initialized.body(), b"initialized")
    ));
}

#[test]
fn parser_classifies_all_json_rpc_envelopes() {
    assert!(matches!(
        parse(br#"{"jsonrpc":"2.0","id":7,"method":"workspace/configuration","params":{}}"#)
            .unwrap(),
        ParsedMessage::Request { id: 7, .. }
    ));
    assert!(matches!(
        parse(br#"{"jsonrpc":"2.0","method":"window/logMessage","params":{"type":3}}"#).unwrap(),
        ParsedMessage::Notification { .. }
    ));
    assert!(matches!(
        parse(br#"{"jsonrpc":"2.0","id":7,"result":null}"#).unwrap(),
        ParsedMessage::Response {
            value: ResponseValue::Result(_),
            ..
        }
    ));
    match parse(br#"{"jsonrpc":"2.0","id":7,"error":{"code":-32601,"message":"missing"}}"#)
        .unwrap()
    {
        ParsedMessage::Response {
            value: ResponseValue::Error(error),
            ..
        } => {
            assert_eq!(error.code, -32601);
            assert_eq!(error.message, "missing");
            assert!(error.data.is_none());
        }
        _ => panic!("expected an error response"),
    }
}

#[test]
fn parser_rejects_ambiguous_or_unsupported_envelopes() {
    for body in [
        br"[]".as_slice(),
        br#"{"jsonrpc":"1.0","id":1,"result":null}"#,
        br#"{"jsonrpc":"2.0","id":0,"result":null}"#,
        br#"{"jsonrpc":"2.0","id":"one","result":null}"#,
        br#"{"jsonrpc":"2.0","id":1,"result":null,"error":{"code":1,"message":"x"}}"#,
        br#"{"jsonrpc":"2.0","method":"x","result":null}"#,
    ] {
        assert!(parse(body).is_err());
    }
    assert_eq!(
        parse(br"[]").err(),
        Some(ProtocolError::UnsupportedBatch)
    );
    assert_eq!(
        parse(br#"{"jsonrpc":"1.0","id":1,"result":null}"#).err(),
        Some(ProtocolError::InvalidVersion)
    );
    assert_eq!(parse(b"   ").err(), Some(ProtocolError::EmptyMessage));
}

#[test]
fn scanner_enforces_independent_resource_limits() {
    let limits = JsonLimits {
        bytes: 64,
        depth: 2,
        items: 2,
        string_bytes: 4,
    };
    assert_eq!(
        scan_json(br#"{"a":{"b":{}}}"#, limits),
        Err(ProtocolError::ExcessDepth)
    );
    assert_eq!(
        scan_json(br#"{"a":1,"b":2,"c":3}"#, limits),
        Err(ProtocolError::ExcessItems)
    );
    assert_eq!(
        scan_json(br#"{"abcde":1}"#, limits),
        Err(ProtocolError::ExcessString)
    );
    assert_eq!(
        scan_json(&[b' '; 65], limits),
        Err(ProtocolError::MessageTooLarge)
    );
    assert_eq!(
        scan_json(
            br#"{"a\"b":[1]}"#,
            JsonLimits {
                string_bytes: 5,
                ..limits
            }
        ),
        Ok(())
    );
}

#[test]
fn lifecycle_is_initialize_then_running_then_shutdown_exit() {
    let mut peer = LspPeer::new();
    assert_eq!(
        peer.begin_shutdown().err(),
        Some(ProtocolError::InvalidLifecycle)
    );
    initialize(&mut peer);
    assert_eq!(peer.snapshot().lifecycle, PeerLifecycle::Running);
    let shutdown = peer.begin_shutdown().unwrap();
    assert_eq!(shutdown.request_id(), Some(2));
    assert!(matches!(
        receive(&mut peer, br#"{"jsonrpc":"2.0","id":2,"result":null}"#, None).unwrap(),
        PeerEvent::ShutdownAcknowledged
    ));
    let exit = peer.exit().unwrap();
    assert!(contains(exit.body(), b"\"exit\""));
    assert_eq!(peer.snapshot().lifecycle, PeerLifecycle::Exited);
}

#[test]
fn response_requires_complete_current_revision_identity() {
    let mut peer = LspPeer::new();
    initialize(&mut peer);
    let request = peer
        .begin_request("textDocument/hover", Some("{}"), stamp(4))
        .unwrap();
    let id = request.request_id().unwrap();
    let body = format!(r#"{{"jsonrpc":"2.0","id":{id},"result":{{"contents":"ok"}}}}"#);
    assert!(matches!(
        receive(&mut peer, body.as_bytes(), Some(stamp(5))).unwrap(),
        PeerEvent::StaleResponse { id: event_id } if event_id == id
    ));
    assert_eq!(peer.snapshot().stale_responses, 1);
    assert_eq!(peer.snapshot().pending_requests, 0);
}

#[test]
fn cancellation_removes_admission_and_late_response_fails_closed() {
    let mut peer = LspPeer::new();
    initialize(&mut peer);
    let request = peer
        .begin_request("textDocument/completion", None, stamp(7))
        .unwrap();
    let id = request.request_id().unwrap();
    let cancel = peer.cancel(id).unwrap();
    assert!(contains(cancel.body(), b"$/cancelRequest"));
    assert!(contains(cancel.body(), format!(r#""params":{{"id":{id}}}"#).as_bytes()));
    assert_eq!(peer.snapshot().cancelled_requests, 1);
    let response = format!(r#"{{"jsonrpc":"2.0","id":{id},"result":[]}}"#);
    assert_eq!(
        receive(&mut peer, response.as_bytes(), Some(stamp(7))).err(),
        Some(ProtocolError::UnknownResponseId)
    );
}

#[test]
fn unsent_rollback_removes_the_exact_request_and_restores_lifecycle() {
    let mut initializing = LspPeer::new();
    let initialize_message = initializing.begin_initialize().unwrap();
    let initialize_id = initialize_message.request_id().unwrap();
    assert_eq!(initializing.snapshot().pending_requests(), 1);
    initializing.rollback_unsent(initialize_id).unwrap();
    assert_eq!(initializing.snapshot().pending_requests(), 0);
    assert_eq!(initializing.snapshot().lifecycle(), PeerLifecycle::Created);

    let mut peer = LspPeer::new();
    initialize(&mut peer);
    let first = peer.begin_request("textDocument/hover", None, stamp(1)).unwrap();
    let second = peer
        .begin_request("textDocument/definition", None, stamp(2))
        .unwrap();
    let first_id = first.request_id().unwrap();
    let second_id = second.request_id().unwrap();
    assert_eq!(peer.snapshot().pending_requests(), 2);

    peer.rollback_unsent(first_id).unwrap();
    assert_eq!(peer.snapshot().pending_requests(), 1);
    let second_response = format!(r#"{{"jsonrpc":"2.0","id":{second_id},"result":null}}"#);
    assert!(matches!(
        receive(&mut peer, second_response.as_bytes(), Some(stamp(2))).unwrap(),
        PeerEvent::Response {
            id,
            method,
            stamp: response_stamp,
            ..
        } if id == second_id
            && method == "textDocument/definition"
            && response_stamp == stamp(2)
    ));
    let first_response = format!(r#"{{"jsonrpc":"2.0","id":{first_id},"result":null}}"#);
    assert_eq!(
        receive(&mut peer, first_response.as_bytes(), Some(stamp(1))).err(),
        Some(ProtocolError::UnknownResponseId)
    );

    let shutdown = peer.begin_shutdown().unwrap();
    let shutdown_id = shutdown.request_id().unwrap();
    peer.rollback_unsent(shutdown_id).unwrap();
    assert_eq!(peer.snapshot().pending_requests(), 0);
    assert_eq!(peer.snapshot().lifecycle(), PeerLifecycle::Running);
    assert_eq!(
        peer.rollback_unsent(shutdown_id),
        Err(ProtocolError::UnknownResponseId)
    );
}

#[test]
fn pending_storage_is_bounded_and_accounted() {
    let mut peer = LspPeer::new();
    initialize(&mut peer);
    for revision in 1..=MAX_PENDING_REQUESTS {
        peer.begin_request("textDocument/hover", None, stamp(revision as u64))
            .unwrap();
    }
    let snapshot = peer.snapshot();
    assert_eq!(snapshot.pending_requests, MAX_PENDING_REQUESTS);
    assert_eq!(snapshot.retained_bytes, snapshot.peak_retained_bytes);
    assert_eq!(
        peer.begin_request("textDocument/hover", None, stamp(99)).err(),
        Some(ProtocolError::PendingCapacity)
    );
    assert_eq!(
        peer.begin_shutdown().err(),
        Some(ProtocolError::PendingRequestsRemain)
    );
}

#[test]
fn outbound_bytes_round_trip_through_production_framer() {
    let mut peer = LspPeer::new();
    let initialize = peer.begin_initialize().unwrap();
    let limits = LspFrameLimits::new(8_192, MAX_JSON_BYTES, 4, MAX_JSON_BYTES).unwrap();
    let mut framer = LspFramer::new(limits);
    let batch = framer.ingest(initialize.bytes()).unwrap();
    assert_eq!(batch.frames().len(), 1);
    assert_eq!(batch.frames()[0].body(), initialize.body());
    assert!(matches!(
        parse(batch.frames()[0].body()).unwrap(),
        ParsedMessage::Request { id: 1, method, .. } if method == "initialize"
    ));
}

#[test]
fn admitted_and_server_originated_messages_preserve_typed_identity() {
    let mut peer = LspPeer::new();
    initialize(&mut peer);
    let expected_stamp = stamp(8);
    let request = peer
        .begin_request("textDocument/hover", None, expected_stamp)
        .unwrap();
    let id = request.request_id().unwrap();
    let response = format!(r#"{{"jsonrpc":"2.0","id":{id},"result":{{"contents":"ok"}}}}"#);
    assert!(matches!(
        receive(&mut peer, response.as_bytes(), Some(expected_stamp)).unwrap(),
        PeerEvent::Response {
            id: response_id,
            method,
            stamp: response_stamp,
            value: ResponseValue::Result(result),
        } if response_id == id
            && method == "textDocument/hover"
            && response_stamp == expected_stamp
            && result == r#"{"contents":"ok"}"#
    ));
    assert!(matches!(
        receive(
            &mut peer,
            br#"{"jsonrpc":"2.0","id":91,"method":"workspace/configuration","params":{"items":[]}}"#,
            None,
        )
        .unwrap(),
        PeerEvent::InboundRequest { id: 91, method, params }
            if method == "workspace/configuration" && params.as_deref() == Some(r#"{"items":[]}"#)
    ));
}

#[test]
fn lifecycle_error_is_terminal_and_does_not_admit_running_state() {
    let mut peer = LspPeer::new();
    peer.begin_initialize().unwrap();
    assert_eq!(
        receive(
            &mut peer,
            br#"{"jsonrpc":"2.0","id":1,"error":{"code":-32603,"message":"failed"}}"#,
            None,
        )
        .err(),
        Some(ProtocolError::InvalidLifecycle)
    );
    assert_eq!(peer.snapshot().lifecycle, PeerLifecycle::Failed);
    assert_eq!(peer.snapshot().pending_requests, 0);
}

#[test]
fn calls_are_framed_exactly() {
    let call = build_call_with_limit("exit", Some(3), Some("{}"), MAX_JSON_BYTES).unwrap();
    let body = br#"{"jsonrpc":"2.0","id":3,"method":"exit","params":{}}"#;
    assert_eq!(call.body(), body);
    let mut expected = format!("Content-Length: {}\r\n\r\n", body.len()).into_bytes();
    expected.extend_from_slice(body);
    assert_eq!(call.bytes(), expected.as_slice());
    assert_eq!(
        build_call_with_limit("exit", None, Some("{}"), 10).err(),
        Some(ProtocolError::MessageTooLarge)
    );
    assert_eq!(
        build_call_with_limit("", None, None, MAX_JSON_BYTES).err(),
        Some(ProtocolError::MethodTooLong)
    );
    assert_eq!(
        ProtocolError::PendingCapacity.message(),
        "local JSON-RPC peer rejected input: PendingCapacity"
    );
}

fn running_peer() -> LspPeer {
    let mut peer = LspPeer::new();
    initialize(&mut peer);
    peer
}

#[test]
fn envelope_and_remote_error_visitors_reject_and_ignore_exact_fields() {
    assert_eq!(parse(b"").err(), Some(ProtocolError::EmptyMessage));
    assert_eq!(parse(b"null").err(), Some(ProtocolError::MalformedJson));
    assert_eq!(
        parse(br#"{"jsonrpc":"2.0","id":1,"error":"bad"}"#).err(),
        Some(ProtocolError::InvalidEnvelope)
    );
    assert!(matches!(
        parse(
            br#"{"jsonrpc":"2.0","method":"window/logMessage","params":{"message":"a\\\"b"},"ignored":true}"#,
        )
        .unwrap(),
        ParsedMessage::Notification { method, .. } if method == "window/logMessage"
    ));
    assert!(matches!(
        parse(
            br#"{"jsonrpc":"2.0","id":3,"error":{"code":-32001,"message":"failed","data":{"retry":false},"ignored":1}}"#,
        )
        .unwrap(),
        ParsedMessage::Response {
            value: ResponseValue::Error(RemoteError {
                code: -32001,
                message,
                data: Some(data),
            }),
            ..
        } if message == "failed" && data == r#"{"retry":false}"#
    ));

    let long_message = "x".repeat(MAX_ERROR_MESSAGE_BYTES + 1);
    let response = format!(
        r#"{{"jsonrpc":"2.0","id":4,"error":{{"code":-32002,"message":"{long_message}"}}}}"#
    );
    assert_eq!(
        parse(response.as_bytes()).err(),
        Some(ProtocolError::InvalidEnvelope)
    );

    let method = "m".repeat(MAX_METHOD_BYTES + 1);
    let notification = format!(r#"{{"jsonrpc":"2.0","method":"{method}"}}"#);
    assert_eq!(
        parse(notification.as_bytes()).err(),
        Some(ProtocolError::MethodTooLong)
    );
}

#[test]
fn lifecycle_rejections_and_internal_admission_invariants_are_discriminating() {
    let mut created = LspPeer::new();
    assert_eq!(
        created
            .begin_request("textDocument/hover", None, RequestStamp::new(1, 1, 1, 1).unwrap())
            .err(),
        Some(ProtocolError::InvalidLifecycle)
    );
    let initialize = created.begin_initialize().unwrap();
    assert_eq!(
        created.begin_initialize().err(),
        Some(ProtocolError::InvalidLifecycle)
    );
    assert_eq!(
        created.cancel(initialize.request_id().unwrap()).err(),
        Some(ProtocolError::CannotCancelLifecycle)
    );
    assert_eq!(created.exit().err(), Some(ProtocolError::InvalidLifecycle));

    let mut peer = running_peer();
    let stamp = RequestStamp::new(1, 1, 1, 1).unwrap();
    assert_eq!(
        peer.begin_request("initialize", None, stamp).err(),
        Some(ProtocolError::InvalidLifecycle)
    );
    assert_eq!(
        peer.begin_request("", None, stamp).err(),
        Some(ProtocolError::MethodTooLong)
    );
    let shutdown = peer.begin_shutdown().unwrap();
    let shutdown_id = shutdown.request_id().unwrap();
    let response = format!(
        r#"{{"jsonrpc":"2.0","id":{shutdown_id},"error":{{"code":-32603,"message":"failed"}}}}"#
    );
    assert_eq!(
        receive(&mut peer, response.as_bytes(), None).err(),
        Some(ProtocolError::InvalidLifecycle)
    );
    assert_eq!(peer.snapshot().lifecycle, PeerLifecycle::Failed);
}

#[test]
fn storage_and_outbound_limits_fail_before_growth() {
    assert_eq!(
        build_call("", None, None).err(),
        Some(ProtocolError::MethodTooLong)
    );
    let long_method = "m".repeat(MAX_METHOD_BYTES + 1);
    assert_eq!(
        build_call(&long_method, None, None).err(),
        Some(ProtocolError::MethodTooLong)
    );
    assert_eq!(
        build_call_with_limit("method", None, Some("{}"), 1).err(),
        Some(ProtocolError::MessageTooLarge)
    );
}

#[test]
fn rolled_back_call_leaves_the_peer_as_before_but_for_its_id() {
    let mut peer = running_peer();
    let before = peer.snapshot();
    let first = peer
        .begin_request("textDocument/hover", None, stamp(1))
        .unwrap();
    let id = first.request_id().unwrap();
    assert_eq!(peer.snapshot().pending_requests, 1);
    peer.rollback_unsent(id).unwrap();
    let after = peer.snapshot();
    assert_eq!(after.lifecycle, before.lifecycle);
    assert_eq!(after.pending_requests, before.pending_requests);
    assert_eq!(after.cancelled_requests, before.cancelled_requests);
    assert_eq!(after.stale_responses, before.stale_responses);
    let second = peer
        .begin_request("textDocument/hover", None, stamp(1))
        .unwrap();
    assert_eq!(second.request_id(), Some(id + 1));
}

#[test]
fn retained_bytes_count_records_and_method_text() {
    let fresh = LspPeer::new().snapshot();
    assert_eq!(fresh.peak_retained_bytes, 0);
    let mut peer = running_peer();
    peer.begin_request("textDocument/hover", None, stamp(1))
        .unwrap();
    let snapshot = peer.snapshot();
    assert!(snapshot.retained_bytes >= "textDocument/hover".len());
    assert!(snapshot.peak_retained_bytes >= snapshot.retained_bytes);
}
