use alpine_studio::lsp_framing::{
    LspFrameError, LspFrameLimits, LspFramePhase, LspFramer, DEFAULT_LSP_HEADER_BYTES,
    DEFAULT_LSP_MESSAGE_BYTES,
};


fn limits(
    header: usize,
    message: usize,
    frames: usize,
    batch: usize,
) -> Result<LspFrameLimits, LspFrameError> {
    LspFrameLimits::new(header, message, frames, batch)
}

fn frame(body: &[u8]) -> Vec<u8> {
    let mut frame = format!("Content-Length: {}\r\n\r\n", body.len()).into_bytes();
    frame.extend_from_slice(body);
    frame
}

#[test]
fn fragmented_and_pipelined_frames_preserve_exact_bytes_and_accounting()
-> Result<(), LspFrameError> {
    let first_body = br#"{"jsonrpc":"2.0","id":1,"result":null}"#;
    let second_body = "{\"jsonrpc\":\"2.0\",\"method\":\"window/logMessage\",\"params\":{\"message\":\"雪\"}}".as_bytes();
    let mut stream = format!(
        "content-length: {}\r\nCONTENT-TYPE: application/vscode-jsonrpc; charset=utf8\r\n\r\n",
        first_body.len()
    )
    .into_bytes();
    stream.extend_from_slice(first_body);
    stream.extend_from_slice(&frame(second_body));

    let mut framer = LspFramer::new(LspFrameLimits::default());
    let mut bodies = Vec::new();
    for byte in &stream {
        let batch = framer.ingest(std::slice::from_ref(byte))?;
        assert_eq!(batch.consumed(), 1);
        bodies.extend(batch.frames().iter().map(|frame| frame.body().to_vec()));
    }
    assert_eq!(bodies, [first_body.to_vec(), second_body.to_vec()]);
    let snapshot = framer.snapshot();
    assert_eq!(snapshot.phase(), LspFramePhase::Header);
    assert_eq!(snapshot.buffered_bytes(), 0);
    assert_eq!(snapshot.retained_bytes(), 0);
    assert_eq!(snapshot.frames_emitted(), 2);
    assert_eq!(
        snapshot.body_bytes_emitted(),
        (first_body.len() + second_body.len()) as u64
    );
    assert!(snapshot.peak_buffered_bytes() <= DEFAULT_LSP_HEADER_BYTES);
    assert!(snapshot.peak_retained_bytes() <= DEFAULT_LSP_MESSAGE_BYTES);
    assert!(!snapshot.poisoned());
    framer.finish()
}

#[test]
fn every_two_chunk_split_reconstructs_one_exact_frame() -> Result<(), LspFrameError> {
    let body = br#"{"jsonrpc":"2.0","id":"bounded","result":[1,2,3]}"#;
    let encoded = frame(body);
    for split in 0..=encoded.len() {
        let mut framer = LspFramer::new(LspFrameLimits::default());
        let first = framer.ingest(&encoded[..split])?;
        assert_eq!(first.consumed(), split);
        let second = framer.ingest(&encoded[split..])?;
        let decoded = first
            .frames()
            .iter()
            .chain(second.frames())
            .collect::<Vec<_>>();
        assert_eq!(decoded.len(), 1);
        assert_eq!(decoded[0].sequence(), 1);
        assert_eq!(decoded[0].body(), body);
        framer.finish()?;
    }
    Ok(())
}

#[test]
fn frame_and_byte_batch_limits_apply_backpressure_without_losing_state()
-> Result<(), LspFrameError> {
    let first = frame(b"one");
    let second = frame(b"two");
    let mut stream = first.clone();
    stream.extend_from_slice(&second);

    let mut by_frame = LspFramer::new(limits(128, 8, 1, 8)?);
    let first_batch = by_frame.ingest(&stream)?;
    assert_eq!(first_batch.consumed(), first.len());
    assert_eq!(first_batch.frames()[0].body(), b"one");
    let second_batch = by_frame.ingest(&stream[first_batch.consumed()..])?;
    assert_eq!(second_batch.frames()[0].body(), b"two");

    let mut by_bytes = LspFramer::new(limits(128, 4, 4, 4)?);
    let first_batch = by_bytes.ingest(&stream)?;
    assert_eq!(first_batch.body_bytes(), 3);
    assert_eq!(first_batch.frames().len(), 1);
    assert!(first_batch.consumed() > first.len());
    assert!(first_batch.consumed() < stream.len());
    assert_eq!(by_bytes.snapshot().phase(), LspFramePhase::Body);
    let second_batch = by_bytes.ingest(&stream[first_batch.consumed()..])?;
    assert_eq!(second_batch.frames()[0].body(), b"two");
    by_bytes.finish()
}

#[test]
fn malformed_headers_fail_closed_and_poison_the_stream() {
    let cases: &[(&[u8], LspFrameError)] = &[
        (b"Content-Type: application/vscode-jsonrpc\r\n\r\n", LspFrameError::MissingContentLength),
        (b"Content-Length: 1\r\nContent-Length: 1\r\n\r\nx", LspFrameError::DuplicateContentLength),
        (b"Content-Length: -1\r\n\r\n", LspFrameError::InvalidContentLength),
        (b"Content-Length: 0\r\n\r\n", LspFrameError::EmptyBody),
        (b"X-Alpine: 1\r\nContent-Length: 1\r\n\r\nx", LspFrameError::UnsupportedHeader),
        (b"Content-Length: 1\r\nContent-Type: application/json; charset=utf-8\r\n\r\nx", LspFrameError::UnsupportedContentType),
        (b"Content-Length: 1\r\nContent-Type: application/vscode-jsonrpc; charset=latin1\r\n\r\nx", LspFrameError::UnsupportedContentType),
        (b"Content-Length 1\r\n\r\nx", LspFrameError::MalformedHeader),
        (b"Content-Length:\r\n\r\n", LspFrameError::MalformedHeader),
    ];
    for (input, expected) in cases {
        let mut framer = LspFramer::new(LspFrameLimits::default());
        assert_eq!(framer.ingest(input), Err(*expected));
        assert!(framer.snapshot().poisoned());
        assert_eq!(framer.ingest(b"ignored"), Err(LspFrameError::Poisoned));
        assert_eq!(framer.finish(), Err(LspFrameError::Poisoned));
    }

    let mut non_ascii = b"Content-Length: 1\r\nX: ".to_vec();
    non_ascii.push(0xff);
    let mut framer = LspFramer::new(LspFrameLimits::default());
    assert_eq!(
        framer.ingest(&non_ascii),
        Err(LspFrameError::NonAsciiHeader)
    );
}

#[test]
fn declared_and_retained_memory_are_independently_bounded() -> Result<(), LspFrameError> {
    let mut oversized = LspFramer::new(limits(128, 4, 1, 4)?);
    assert_eq!(
        oversized.ingest(b"Content-Length: 5\r\n\r\n"),
        Err(LspFrameError::BodyTooLarge {
            declared: 5,
            limit: 4
        })
    );

    let mut header = LspFramer::new(limits(8, 16, 1, 16)?);
    assert_eq!(
        header.ingest(b"Content-"),
        Err(LspFrameError::HeaderTooLarge { limit: 8 })
    );

    let declared = 1_048_576;
    let mut partial = format!("Content-Length: {declared}\r\n\r\n").into_bytes();
    partial.push(b'x');
    let mut framer = LspFramer::new(limits(128, declared, 1, declared)?);
    let batch = framer.ingest(&partial)?;
    assert!(batch.frames().is_empty());
    let snapshot = framer.snapshot();
    assert_eq!(snapshot.buffered_bytes(), 1);
    assert!(snapshot.retained_bytes() <= 64);
    assert!(snapshot.retained_bytes() < declared);
    Ok(())
}

#[test]
fn clean_and_truncated_eof_have_deterministic_terminal_results() -> Result<(), LspFrameError> {
    let mut clean = LspFramer::new(LspFrameLimits::default());
    clean.finish()?;

    let mut header = LspFramer::new(LspFrameLimits::default());
    assert!(header.ingest(b"Content-Len")?.frames().is_empty());
    assert_eq!(
        header.finish(),
        Err(LspFrameError::UnexpectedEof {
            phase: LspFramePhase::Header,
            buffered: 11,
            expected: None
        })
    );

    let mut body = LspFramer::new(LspFrameLimits::default());
    assert!(
        body.ingest(b"Content-Length: 4\r\n\r\nab")?
            .frames()
            .is_empty()
    );
    assert_eq!(
        body.finish(),
        Err(LspFrameError::UnexpectedEof {
            phase: LspFramePhase::Body,
            buffered: 2,
            expected: Some(4)
        })
    );
    Ok(())
}

#[test]
fn invalid_limits_content_length_overflow_and_counters_are_structured() {
    assert_eq!(limits(3, 1, 1, 1), Err(LspFrameError::InvalidLimits));
    assert_eq!(limits(4, 0, 1, 1), Err(LspFrameError::InvalidLimits));
    assert_eq!(limits(4, 2, 0, 2), Err(LspFrameError::InvalidLimits));
    assert_eq!(limits(4, 2, 1, 1), Err(LspFrameError::InvalidLimits));

    let mut overflow = LspFramer::new(LspFrameLimits::default());
    assert_eq!(
        overflow.ingest(b"Content-Length: 999999999999999999999999999999999\r\n\r\n"),
        Err(LspFrameError::InvalidContentLength)
    );

    let encoded = frame(b"x");
    let mut sequence = LspFramer::new(LspFrameLimits::default());
    sequence.frames_emitted = u64::MAX;
    assert_eq!(
        sequence.ingest(&encoded),
        Err(LspFrameError::SequenceExhausted)
    );

    let mut bytes = LspFramer::new(LspFrameLimits::default());
    bytes.body_bytes_emitted = u64::MAX;
    assert_eq!(bytes.ingest(&encoded), Err(LspFrameError::CounterOverflow));
}

#[test]
fn content_type_accepts_spec_and_backward_compatible_utf8_spellings()
-> Result<(), LspFrameError> {
    for value in [
        "application/vscode-jsonrpc",
        "application/vscode-jsonrpc; charset=utf-8",
        "APPLICATION/VSCODE-JSONRPC ; CHARSET = UTF8",
    ] {
        let input = format!("Content-Length: 1\r\nContent-Type: {value}\r\n\r\nx");
        let mut framer = LspFramer::new(LspFrameLimits::default());
        let batch = framer.ingest(input.as_bytes())?;
        assert_eq!(batch.frames()[0].body(), b"x");
        framer.finish()?;
    }
    Ok(())
}

#[test]
fn empty_input_succeeds_and_first_header_byte_errors_are_exact() {
    let mut framer = LspFramer::new(LspFrameLimits::default());
    let batch = framer.ingest(&[]).unwrap();
    assert_eq!(batch.consumed(), 0);
    assert!(batch.frames().is_empty());
    assert!(!framer.snapshot().poisoned());

    let mut non_ascii = LspFramer::new(LspFrameLimits::default());
    assert_eq!(
        non_ascii.ingest(&[0xff, b'C']).err(),
        Some(LspFrameError::NonAsciiHeader)
    );
    assert!(non_ascii.snapshot().poisoned());
}
