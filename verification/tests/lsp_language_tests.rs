use alpine_studio::lsp_language::{
    diagnostic_record_size, file_uri, initialize_params, pinned_server_version, DiagnosticBatch, JsonNumber,
    JsonValue, LanguageProtocolError, LspDocument, LspPosition, MAX_DIAGNOSTICS,
    MAX_DIAGNOSTIC_MESSAGE_BYTES, MAX_DIAGNOSTIC_RETAINED_BYTES, MAX_DIAGNOSTIC_WIRE_BYTES,
    MAX_DOCUMENT_TEXT_BYTES, MAX_POSITION_LINE, MAX_URI_BYTES,
};
use serde_json::Value;
use std::path::{Path, PathBuf};

fn convert(value: &Value) -> JsonValue {
    match value {
        Value::Null => JsonValue::Null,
        Value::Bool(flag) => JsonValue::Bool(*flag),
        Value::Number(number) => JsonValue::Number(JsonNumber {
            unsigned: number.as_u64(),
            signed: number.as_i64(),
        }),
        Value::String(text) => JsonValue::Str(text.clone()),
        Value::Array(items) => JsonValue::Array(items.iter().map(convert).collect()),
        Value::Object(members) => JsonValue::Object(
            members.keys().cloned().collect(),
            members.values().map(convert).collect(),
        ),
    }
}

fn receive(text: &str, document: &LspDocument) -> Result<DiagnosticBatch, LanguageProtocolError> {
    let parsed = if text.len() > MAX_DIAGNOSTIC_WIRE_BYTES {
        None
    } else {
        serde_json::from_str::<Value>(text)
            .ok()
            .map(|value| convert(&value))
    };
    DiagnosticBatch::receive(text.len(), parsed.as_ref(), document)
}

fn uri_of(path: &Path) -> Result<String, LanguageProtocolError> {
    file_uri(path.is_absolute(), path.to_str())
}

fn absolute_path(name: &str) -> PathBuf {
    PathBuf::from(format!("/tmp/{name}"))
}

fn diagnostic_params(range: &str, suffix: &str) -> String {
    format!(
        r#"{{"uri":"file:///tmp/main.rs","diagnostics":[{{"range":{range},"message":"x"{suffix}}}]}}"#
    )
}

#[test]
fn diagnostic_shape_position_and_retention_rejections_are_independent() {
    let document =
        LspDocument::new("file:///tmp/main.rs", "rust", 1).unwrap_or_else(|_| unreachable!());
    for (params, expected) in [
        (
            diagnostic_params(r"{}", ""),
            LanguageProtocolError::MalformedDiagnostics,
        ),
        (
            diagnostic_params(r#"{"start":{"line":0,"character":0}}"#, ""),
            LanguageProtocolError::MalformedDiagnostics,
        ),
        (
            diagnostic_params(r#"{"start":{"line":0,"character":0},"end":{"line":0}}"#, ""),
            LanguageProtocolError::InvalidPosition,
        ),
        (
            diagnostic_params(
                r#"{"start":{"line":0,"character":0},"end":{"line":0,"character":0}}"#,
                r#","severity":256"#,
            ),
            LanguageProtocolError::MalformedDiagnostics,
        ),
    ] {
        assert_eq!(receive(&params, &document).err(), Some(expected));
    }

    let message = "x".repeat(1_024);
    let item = format!(
        r#"{{"range":{{"start":{{"line":0,"character":0}},"end":{{"line":0,"character":1}}}},"message":"{message}"}}"#
    );
    let retained = format!(
        r#"{{"uri":"file:///tmp/main.rs","diagnostics":[{}]}}"#,
        std::iter::repeat_n(item.as_str(), MAX_DIAGNOSTICS)
            .collect::<Vec<_>>()
            .join(",")
    );
    assert_eq!(
        receive(&retained, &document).err(),
        Some(LanguageProtocolError::DiagnosticRetentionExceeded)
    );
}

#[test]
fn file_uri_encoding_and_length_are_bounded() {
    let encoded = uri_of(&absolute_path("a b#é.rs")).unwrap_or_else(|_| unreachable!());
    assert!(encoded.contains("a%20b%23%C3%A9.rs"));

    let exact_prefix = "/";
    let exact = format!(
        "{exact_prefix}{}",
        "x".repeat(MAX_URI_BYTES - "file://".len() - exact_prefix.len())
    );
    let exact_uri = uri_of(Path::new(&exact)).unwrap_or_else(|_| unreachable!());
    assert_eq!(exact_uri.len(), MAX_URI_BYTES);

    let mut oversized = String::from("/");
    oversized.push_str(&"x".repeat(MAX_URI_BYTES));
    assert_eq!(
        uri_of(Path::new(&oversized)).err(),
        Some(LanguageProtocolError::UriTooLong)
    );
}

#[test]
fn non_utf8_file_path_is_rejected_before_uri_allocation() {
    // An absolute path such as `/tmp/\xff.rs` has no Unicode text.
    assert_eq!(
        file_uri(true, None).err(),
        Some(LanguageProtocolError::InvalidPath)
    );
}

#[test]
fn document_identity_checks_every_field() {
    let document = LspDocument::new("file:///tmp/a%20b.rs", "rust", 7).unwrap();
    assert_eq!(document.version(), 7);
    assert_eq!(document.language_id(), "rust");
    assert!(document.check_document_text("fn main() {}").is_ok());
    assert_eq!(LspPosition::new(3, 11).unwrap().utf16_character, 11);
    assert_eq!(
        LspPosition::new(MAX_POSITION_LINE + 1, 0),
        Err(LanguageProtocolError::InvalidPosition)
    );
    assert_eq!(
        LspDocument::new("", "rust", 0).err(),
        Some(LanguageProtocolError::UriTooLong)
    );
    assert_eq!(
        LspDocument::new("file:///a", "", 0).err(),
        Some(LanguageProtocolError::LanguageIdTooLong)
    );
    assert_eq!(
        LspDocument::new("file:///a", "rust", -1).err(),
        Some(LanguageProtocolError::InvalidVersion)
    );
    assert_eq!(
        document
            .check_document_text(&"x".repeat(MAX_DOCUMENT_TEXT_BYTES + 1))
            .err(),
        Some(LanguageProtocolError::DocumentTooLarge)
    );
    let from_path =
        LspDocument::from_file_path(true, Some("/tmp/a b.rs"), "rust", 9).unwrap();
    assert_eq!(from_path.uri(), "file:///tmp/a%20b.rs");
    assert_eq!(
        LspDocument::from_file_path(false, Some("relative.rs"), "rust", 9).err(),
        Some(LanguageProtocolError::InvalidPath)
    );
}

#[test]
fn diagnostics_are_revision_checked_and_byte_accounted() {
    let document = LspDocument::new("file:///tmp/main.rs", "rust", 3).unwrap();
    let params = r#"{"uri":"file:///tmp/main.rs","version":3,"diagnostics":[{"range":{"start":{"line":1,"character":2},"end":{"line":1,"character":4}},"severity":1,"message":"broken"}]}"#;
    let batch = receive(params, &document).unwrap();
    assert_eq!(batch.uri(), "file:///tmp/main.rs");
    assert_eq!(batch.document_version(), Some(3));
    assert_eq!(batch.len(), 1);
    let first = batch.diagnostic(0).unwrap();
    assert_eq!(first.severity, Some(1));
    assert_eq!(first.message, "broken");
    assert_eq!(first.range.start, LspPosition::new(1, 2).unwrap());
    assert_eq!(
        batch.retained_bytes(),
        "file:///tmp/main.rs".len() + diagnostic_record_size() + 6
    );
    let stale = r#"{"uri":"file:///tmp/main.rs","version":2,"diagnostics":[]}"#;
    assert_eq!(
        receive(stale, &document).err(),
        Some(LanguageProtocolError::StaleDiagnostics)
    );
    let wrong = r#"{"uri":"file:///tmp/other.rs","diagnostics":[]}"#;
    assert_eq!(
        receive(wrong, &document).err(),
        Some(LanguageProtocolError::DocumentMismatch)
    );
}

#[test]
fn diagnostics_fail_closed_at_every_independent_bound() {
    let document = LspDocument::new("file:///tmp/main.rs", "rust", 1).unwrap();
    let malformed = r#"{"uri":"file:///tmp/main.rs","diagnostics":[{"message":"missing range"}]}"#;
    assert_eq!(
        receive(malformed, &document).err(),
        Some(LanguageProtocolError::MalformedDiagnostics)
    );
    let reversed = r#"{"uri":"file:///tmp/main.rs","diagnostics":[{"range":{"start":{"line":2,"character":0},"end":{"line":1,"character":0}},"message":"bad"}]}"#;
    assert_eq!(
        receive(reversed, &document).err(),
        Some(LanguageProtocolError::InvalidRange)
    );
    let long_message = "x".repeat(MAX_DIAGNOSTIC_MESSAGE_BYTES + 1);
    let long = format!(
        r#"{{"uri":"file:///tmp/main.rs","diagnostics":[{{"range":{{"start":{{"line":0,"character":0}},"end":{{"line":0,"character":1}}}},"message":"{long_message}"}}]}}"#
    );
    assert_eq!(
        receive(&long, &document).err(),
        Some(LanguageProtocolError::DiagnosticMessageTooLong)
    );
    let item = r#"{"range":{"start":{"line":0,"character":0},"end":{"line":0,"character":1}},"message":"x"}"#;
    let too_many = format!(
        r#"{{"uri":"file:///tmp/main.rs","diagnostics":[{}]}}"#,
        std::iter::repeat_n(item, MAX_DIAGNOSTICS + 1)
            .collect::<Vec<_>>()
            .join(",")
    );
    assert_eq!(
        receive(&too_many, &document).err(),
        Some(LanguageProtocolError::TooManyDiagnostics)
    );
    let too_large = format!(
        r#"{{"padding":"{}"}}"#,
        "x".repeat(MAX_DIAGNOSTIC_WIRE_BYTES)
    );
    assert_eq!(
        receive(&too_large, &document).err(),
        Some(LanguageProtocolError::DiagnosticWireTooLarge)
    );
    assert_eq!(
        uri_of(Path::new("relative.rs")).err(),
        Some(LanguageProtocolError::InvalidPath)
    );
    assert!(!pinned_server_version().is_empty());
}

#[test]
fn diagnostic_wire_message_and_retention_limits_accept_exact_boundaries() {
    let document = LspDocument::new("file:///tmp/main.rs", "rust", 1).unwrap();
    let wire_prefix = r#"{"uri":"file:///tmp/main.rs","diagnostics":[],"padding":""#;
    let wire_suffix = r#""}"#;
    let wire_padding = MAX_DIAGNOSTIC_WIRE_BYTES - wire_prefix.len() - wire_suffix.len();
    let wire = format!("{wire_prefix}{}{wire_suffix}", "x".repeat(wire_padding));
    assert_eq!(wire.len(), MAX_DIAGNOSTIC_WIRE_BYTES);
    assert!(receive(&wire, &document).unwrap().is_empty());

    let exact_message = "x".repeat(MAX_DIAGNOSTIC_MESSAGE_BYTES);
    let message = format!(
        r#"{{"uri":"file:///tmp/main.rs","diagnostics":[{{"range":{{"start":{{"line":0,"character":0}},"end":{{"line":0,"character":1}}}},"message":"{exact_message}"}}]}}"#
    );
    let message_batch = receive(&message, &document).unwrap();
    assert!(!message_batch.is_empty());
    assert_eq!(
        message_batch.diagnostic(0).unwrap().message.len(),
        MAX_DIAGNOSTIC_MESSAGE_BYTES
    );

    let fixed_bytes = document.uri().len() + MAX_DIAGNOSTICS * diagnostic_record_size();
    let message_bytes = MAX_DIAGNOSTIC_RETAINED_BYTES - fixed_bytes;
    let base_message_bytes = message_bytes / MAX_DIAGNOSTICS;
    let remainder = message_bytes % MAX_DIAGNOSTICS;
    let items = (0..MAX_DIAGNOSTICS)
        .map(|index| {
            let length = base_message_bytes + usize::from(index < remainder);
            let text = "x".repeat(length);
            format!(
                r#"{{"range":{{"start":{{"line":0,"character":0}},"end":{{"line":0,"character":1}}}},"message":"{text}"}}"#
            )
        })
        .collect::<Vec<_>>();
    let retained = format!(
        r#"{{"uri":"file:///tmp/main.rs","diagnostics":[{}]}}"#,
        items.join(",")
    );
    let batch = receive(&retained, &document).unwrap();
    assert!(!batch.is_empty());
    assert_eq!(batch.retained_bytes(), MAX_DIAGNOSTIC_RETAINED_BYTES);
}

#[test]
fn document_identity_serializes_utf16_lsp_contracts() {
    let document = LspDocument::new("file:///tmp/a%20b.rs", "rust", 7).unwrap();
    let open = String::from_utf8(document.did_open_params("fn main() {}").unwrap()).unwrap();
    assert!(open.contains(r#""languageId":"rust""#));
    assert!(open.contains(r#""version":7"#));
    let positioned = String::from_utf8(
        document
            .position_params(LspPosition::new(3, 11).unwrap())
            .unwrap(),
    )
    .unwrap();
    assert!(positioned.contains(r#""character":11"#));
    assert_eq!(
        LspPosition::new(MAX_POSITION_LINE + 1, 0),
        Err(LanguageProtocolError::InvalidPosition)
    );
    assert_eq!(
        LspDocument::new("", "rust", 0).err(),
        Some(LanguageProtocolError::UriTooLong)
    );
    assert_eq!(
        LspDocument::new("file:///a", "", 0).err(),
        Some(LanguageProtocolError::LanguageIdTooLong)
    );
    assert_eq!(
        LspDocument::new("file:///a", "rust", -1).err(),
        Some(LanguageProtocolError::InvalidVersion)
    );
    assert_eq!(
        document
            .did_open_params(&"x".repeat(MAX_DOCUMENT_TEXT_BYTES + 1))
            .err(),
        Some(LanguageProtocolError::DocumentTooLarge)
    );
}

#[test]
fn errors_documents_and_initialization_preserve_exact_contracts() {
    for error in [
        LanguageProtocolError::InvalidPath,
        LanguageProtocolError::UriTooLong,
        LanguageProtocolError::LanguageIdTooLong,
        LanguageProtocolError::DocumentTooLarge,
        LanguageProtocolError::InvalidVersion,
        LanguageProtocolError::InvalidPosition,
        LanguageProtocolError::InvalidRange,
        LanguageProtocolError::MalformedDiagnostics,
        LanguageProtocolError::DiagnosticWireTooLarge,
        LanguageProtocolError::TooManyDiagnostics,
        LanguageProtocolError::DiagnosticMessageTooLong,
        LanguageProtocolError::DiagnosticRetentionExceeded,
        LanguageProtocolError::DocumentMismatch,
        LanguageProtocolError::StaleDiagnostics,
        LanguageProtocolError::AllocationFailed,
    ] {
        assert!(error.message().contains(&format!("{error:?}")));
    }

    let path = absolute_path("a b.rs");
    let document = LspDocument::from_file_path(true, path.to_str(), "rust", 9).unwrap();
    assert!(document.uri().contains("a%20b.rs"));
    let opened = document
        .did_open_params(&"x".repeat(MAX_DOCUMENT_TEXT_BYTES))
        .unwrap();
    assert!(String::from_utf8(opened).unwrap().contains(r#""version":9"#));
    assert_eq!(
        String::from_utf8(document.text_document_params().unwrap()).unwrap(),
        format!(r#"{{"textDocument":{{"uri":"{}"}}}}"#, document.uri())
    );

    let workspace = absolute_path("alpine workspace");
    let initialize = String::from_utf8(
        initialize_params(true, workspace.to_str(), Some("alpine workspace")).unwrap(),
    )
    .unwrap();
    assert!(initialize.contains(r#""positionEncodings":["utf-16"]"#));
    assert!(initialize.contains(r#""name":"alpine workspace""#));
    assert!(initialize.contains("alpine%20workspace"));
    assert_eq!(
        initialize_params(true, Some("/"), None).err(),
        Some(LanguageProtocolError::InvalidPath)
    );

    let empty = format!(
        r#"{{"uri":"{}","version":null,"diagnostics":[]}}"#,
        document.uri()
    );
    let batch = receive(&empty, &document).unwrap();
    assert!(batch.is_empty());
    assert_eq!(batch.document_version(), None);
    assert_eq!(batch.retained_bytes(), document.uri().len());
    assert_eq!(
        pinned_server_version(),
        "rust-analyzer 0.3.3016-standalone (bb3bbbd9e4 2026-08-16)"
    );
}

#[test]
fn errors_name_their_variant() {
    let error = LanguageProtocolError::StaleDiagnostics;
    assert_eq!(
        error.message(),
        format!("local language protocol rejected input: {error:?}")
    );
    let empty = r#"{"uri":"file:///tmp/main.rs","version":null,"diagnostics":[]}"#;
    let document = LspDocument::new("file:///tmp/main.rs", "rust", 1).unwrap();
    let batch = receive(empty, &document).unwrap();
    assert!(batch.is_empty());
    assert_eq!(batch.document_version(), None);
    assert_eq!(batch.retained_bytes(), document.uri().len());
    assert_eq!(
        pinned_server_version(),
        "rust-analyzer 0.3.3016-standalone (bb3bbbd9e4 2026-08-16)"
    );
}

#[test]
fn document_parameters_are_written_as_sorted_json() {
    let document = LspDocument::new("file:///tmp/a.rs", "rust", 3).unwrap();
    let opened = document.did_open_params("fn main() {}\n\"quoted\"").unwrap();
    assert_eq!(
        String::from_utf8(opened).unwrap(),
        r#"{"textDocument":{"languageId":"rust","text":"fn main() {}\n\"quoted\"","uri":"file:///tmp/a.rs","version":3}}"#
    );
    let position = document.position_params(LspPosition::new(2, 4).unwrap()).unwrap();
    assert_eq!(
        String::from_utf8(position).unwrap(),
        r#"{"position":{"character":4,"line":2},"textDocument":{"uri":"file:///tmp/a.rs"}}"#
    );
    let named = document.text_document_params().unwrap();
    assert_eq!(String::from_utf8(named).unwrap(), r#"{"textDocument":{"uri":"file:///tmp/a.rs"}}"#);
    let too_large = "x".repeat(MAX_DOCUMENT_TEXT_BYTES + 1);
    assert_eq!(document.did_open_params(&too_large), Err(LanguageProtocolError::DocumentTooLarge));
}

#[test]
fn initialize_parameters_name_the_workspace_folder() {
    let params = initialize_params(true, Some("/work/alpine"), Some("alpine")).unwrap();
    assert_eq!(
        String::from_utf8(params).unwrap(),
        r#"{"capabilities":{"general":{"positionEncodings":["utf-16"]},"textDocument":{"publishDiagnostics":{"versionSupport":true}}},"clientInfo":{"name":"Alpine Studio","version":"0.0.0"},"processId":null,"rootUri":"file:///work/alpine","workspaceFolders":[{"name":"alpine","uri":"file:///work/alpine"}]}"#
    );
    assert_eq!(initialize_params(false, Some("work"), Some("work")), Err(LanguageProtocolError::InvalidPath));
    assert_eq!(initialize_params(true, None, Some("work")), Err(LanguageProtocolError::InvalidPath));
    assert_eq!(initialize_params(true, Some("/work"), None), Err(LanguageProtocolError::InvalidPath));
}

#[test]
fn document_text_escapes_quotes_backslashes_and_control_bytes() {
    let document = LspDocument::new("file:///tmp/a.rs", "rust", 1).unwrap();
    let opened = document.did_open_params("a\u{1}\"\\\t\u{1f}é").unwrap();
    let text = String::from_utf8(opened).unwrap();
    assert!(text.contains(r#""text":"a\u0001\"\\\t\u001fé""#));
}
