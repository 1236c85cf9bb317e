//! Bounded JSON-RPC state for one local language-server peer: the checks on
//! inbound bodies, the framing of outbound calls, and the request lifecycle.
use crate::std_calls::vec_try_reserve_exact;
use crate::text::{decimal, str_eq, usize_saturated, usize_to_decimal, utf8_len};
use vstd::prelude::*;
use vstd::string::{StrSliceExecFns, StringExecFns};
use vstd::utf8::encode_utf8;

verus! {

/// Bound on the bytes of one JSON body.
pub const MAX_JSON_BYTES: usize = 16777216;

/// Bound on the nesting of one JSON body.
pub const MAX_JSON_DEPTH: usize = 64;

/// Bound on the containers and separators of one JSON body.
pub const MAX_JSON_ITEMS: usize = 65536;

/// Bound on the bytes of one JSON string.
pub const MAX_JSON_STRING_BYTES: usize = 1048576;

/// Bound on the bytes of a method name.
pub const MAX_METHOD_BYTES: usize = 256;

/// Bound on the bytes of a remote error message.
pub const MAX_ERROR_MESSAGE_BYTES: usize = 4096;

/// Bound on requests awaiting a response.
pub const MAX_PENDING_REQUESTS: usize = 64;

/// Why the peer refused a message or an operation.
#[derive(Clone, Copy, Debug, Eq, PartialEq, Structural)]
pub enum ProtocolError {
    EmptyMessage,
    MessageTooLarge,
    UnsupportedBatch,
    ExcessDepth,
    ExcessItems,
    ExcessString,
    MalformedJson,
    InvalidEnvelope,
    InvalidVersion,
    InvalidId,
    MethodTooLong,
    InvalidLifecycle,
    PendingCapacity,
    AllocationFailed,
    IdExhausted,
    UnknownResponseId,
    CannotCancelLifecycle,
    PendingRequestsRemain,
}

/// The variant name of a protocol error, as `Debug` writes it.
pub open spec fn protocol_error_name(e: ProtocolError) -> Seq<char> {
    match e {
        ProtocolError::EmptyMessage => "EmptyMessage"@,
        ProtocolError::MessageTooLarge => "MessageTooLarge"@,
        ProtocolError::UnsupportedBatch => "UnsupportedBatch"@,
        ProtocolError::ExcessDepth => "ExcessDepth"@,
        ProtocolError::ExcessItems => "ExcessItems"@,
        ProtocolError::ExcessString => "ExcessString"@,
        ProtocolError::MalformedJson => "MalformedJson"@,
        ProtocolError::InvalidEnvelope => "InvalidEnvelope"@,
        ProtocolError::InvalidVersion => "InvalidVersion"@,
        ProtocolError::InvalidId => "InvalidId"@,
        ProtocolError::MethodTooLong => "MethodTooLong"@,
        ProtocolError::InvalidLifecycle => "InvalidLifecycle"@,
        ProtocolError::PendingCapacity => "PendingCapacity"@,
        ProtocolError::AllocationFailed => "AllocationFailed"@,
        ProtocolError::IdExhausted => "IdExhausted"@,
        ProtocolError::UnknownResponseId => "UnknownResponseId"@,
        ProtocolError::CannotCancelLifecycle => "CannotCancelLifecycle"@,
        ProtocolError::PendingRequestsRemain => "PendingRequestsRemain"@,
    }
}

impl ProtocolError {
    /// The variant name, as `Debug` writes it.
    pub fn name(&self) -> (n: &'static str)
        ensures
            n@ == protocol_error_name(*self),
    {
        match self {
            ProtocolError::EmptyMessage => "EmptyMessage",
            ProtocolError::MessageTooLarge => "MessageTooLarge",
            ProtocolError::UnsupportedBatch => "UnsupportedBatch",
            ProtocolError::ExcessDepth => "ExcessDepth",
            ProtocolError::ExcessItems => "ExcessItems",
            ProtocolError::ExcessString => "ExcessString",
            ProtocolError::MalformedJson => "MalformedJson",
            ProtocolError::InvalidEnvelope => "InvalidEnvelope",
            ProtocolError::InvalidVersion => "InvalidVersion",
            ProtocolError::InvalidId => "InvalidId",
            ProtocolError::MethodTooLong => "MethodTooLong",
            ProtocolError::InvalidLifecycle => "InvalidLifecycle",
            ProtocolError::PendingCapacity => "PendingCapacity",
            ProtocolError::AllocationFailed => "AllocationFailed",
            ProtocolError::IdExhausted => "IdExhausted",
            ProtocolError::UnknownResponseId => "UnknownResponseId",
            ProtocolError::CannotCancelLifecycle => "CannotCancelLifecycle",
            ProtocolError::PendingRequestsRemain => "PendingRequestsRemain",
        }
    }

    /// A human-readable description that names the variant.
    pub fn message(&self) -> (m: String)
        ensures
            m@ == "local JSON-RPC peer rejected input: "@ + protocol_error_name(*self),
    {
        let mut m = String::from_str("local JSON-RPC peer rejected input: ");
        m.append(self.name());
        m
    }
}

/// The workspace and document revisions a request was made for; every part
/// is non-zero.
#[derive(Clone, Copy, Debug, Eq, PartialEq, Structural)]
pub struct RequestStamp {
    pub workspace_id: u64,
    pub workspace_revision: u64,
    pub document_id: u64,
    pub document_revision: u64,
}

impl RequestStamp {
    /// The stamp of the given revisions; none when any part is zero.
    pub fn new(workspace_id: u64, workspace_revision: u64, document_id: u64, document_revision: u64) -> (r:
        Option<RequestStamp>)
        ensures
            (workspace_id == 0 || workspace_revision == 0 || document_id == 0 || document_revision == 0)
                ==> r is None,
            !(workspace_id == 0 || workspace_revision == 0 || document_id == 0 || document_revision
                == 0) ==> r == Some(
                RequestStamp { workspace_id, workspace_revision, document_id, document_revision },
            ),
    {
        if workspace_id == 0 || workspace_revision == 0 || document_id == 0 || document_revision == 0 {
            return None;
        }
        Some(RequestStamp { workspace_id, workspace_revision, document_id, document_revision })
    }
}

/// The ceilings of one JSON body.
#[derive(Clone, Copy, Debug, Eq, PartialEq, Structural)]
pub struct JsonLimits {
    pub bytes: usize,
    pub depth: usize,
    pub items: usize,
    pub string_bytes: usize,
}

impl Default for JsonLimits {
    fn default() -> (l: Self)
        ensures
            l == default_json_limits(),
    {
        JsonLimits {
            bytes: MAX_JSON_BYTES,
            depth: MAX_JSON_DEPTH,
            items: MAX_JSON_ITEMS,
            string_bytes: MAX_JSON_STRING_BYTES,
        }
    }
}

/// The ceilings the peer applies.
pub open spec fn default_json_limits() -> JsonLimits {
    JsonLimits {
        bytes: MAX_JSON_BYTES,
        depth: MAX_JSON_DEPTH,
        items: MAX_JSON_ITEMS,
        string_bytes: MAX_JSON_STRING_BYTES,
    }
}

/// Where the scan of a JSON body stands.
#[derive(Clone, Copy, Debug, Eq, PartialEq, Structural)]
pub struct ScanState {
    pub depth: usize,
    pub items: usize,
    pub string_bytes: usize,
    pub in_string: bool,
    pub escaped: bool,
}

/// The state of a scan before its first byte.
pub open spec fn scan_start() -> ScanState {
    ScanState { depth: 0, items: 0, string_bytes: 0, in_string: false, escaped: false }
}

/// One byte of the scan: strings are counted against the string ceiling,
/// containers against the depth and item ceilings, separators against the
/// item ceiling.
pub open spec fn scan_byte(s: ScanState, b: u8, limits: JsonLimits) -> Result<ScanState, ProtocolError> {
    if s.in_string {
        if s.string_bytes == usize::MAX || s.string_bytes + 1 > limits.string_bytes {
            Err(ProtocolError::ExcessString)
        } else {
            let counted = ScanState { string_bytes: (s.string_bytes + 1) as usize, ..s };
            if s.escaped {
                Ok(ScanState { escaped: false, ..counted })
            } else if b == 92 {
                Ok(ScanState { escaped: true, ..counted })
            } else if b == 34 {
                Ok(ScanState { in_string: false, ..counted })
            } else {
                Ok(counted)
            }
        }
    } else {
        let next = if b == 34 {
            Ok(ScanState { in_string: true, string_bytes: 0, ..s })
        } else if b == 123 || b == 91 {
            if s.depth == usize::MAX || s.depth + 1 > limits.depth {
                Err(ProtocolError::ExcessDepth)
            } else if s.items == usize::MAX {
                Err(ProtocolError::ExcessItems)
            } else {
                Ok(ScanState { depth: (s.depth + 1) as usize, items: (s.items + 1) as usize, ..s })
            }
        } else if b == 125 || b == 93 {
            Ok(ScanState { depth: if s.depth == 0 { 0 } else { (s.depth - 1) as usize }, ..s })
        } else if b == 44 {
            if s.items == usize::MAX {
                Err(ProtocolError::ExcessItems)
            } else {
                Ok(ScanState { items: (s.items + 1) as usize, ..s })
            }
        } else {
            Ok(s)
        };
        match next {
            Ok(n) => if n.items > limits.items {
                Err(ProtocolError::ExcessItems)
            } else {
                Ok(n)
            },
            Err(e) => Err(e),
        }
    }
}

/// The scan of `body[i..]` from state `s`.
pub open spec fn scan_from(body: Seq<u8>, i: int, s: ScanState, limits: JsonLimits) -> Result<(), ProtocolError>
    decreases body.len() - i,
{
    if i < 0 || i >= body.len() {
        Ok(())
    } else {
        match scan_byte(s, body[i], limits) {
            Err(e) => Err(e),
            Ok(n) => scan_from(body, i + 1, n, limits),
        }
    }
}

/// ASCII white space as `u8::is_ascii_whitespace` defines it.
pub open spec fn json_ws(b: u8) -> bool {
    b == 32 || b == 9 || b == 10 || b == 12 || b == 13
}

/// The first byte of `body[i..]` that is not white space.
pub open spec fn first_non_ws(body: Seq<u8>, i: int) -> Option<u8>
    decreases body.len() - i,
{
    if i < 0 || i >= body.len() {
        None
    } else if json_ws(body[i]) {
        first_non_ws(body, i + 1)
    } else {
        Some(body[i])
    }
}

/// The checks on a JSON body before it is parsed: not empty, within the
/// byte ceiling, not a batch, and within the depth, item and string
/// ceilings.
pub open spec fn scan_json_spec(body: Seq<u8>, limits: JsonLimits) -> Result<(), ProtocolError> {
    if body.len() == 0 {
        Err(ProtocolError::EmptyMessage)
    } else if body.len() > limits.bytes {
        Err(ProtocolError::MessageTooLarge)
    } else {
        match first_non_ws(body, 0) {
            None => Err(ProtocolError::EmptyMessage),
            Some(first) => if first == 91 {
                Err(ProtocolError::UnsupportedBatch)
            } else {
                scan_from(body, 0, scan_start(), limits)
            },
        }
    }
}

fn scan_byte_exec(s: ScanState, b: u8, limits: JsonLimits) -> (r: Result<ScanState, ProtocolError>)
    ensures
        r == scan_byte(s, b, limits),
{
    if s.in_string {
        if s.string_bytes == usize::MAX || s.string_bytes + 1 > limits.string_bytes {
            return Err(ProtocolError::ExcessString);
        }
        let counted = ScanState { string_bytes: s.string_bytes + 1, ..s };
        if s.escaped {
            Ok(ScanState { escaped: false, ..counted })
        } else if b == 92 {
            Ok(ScanState { escaped: true, ..counted })
        } else if b == 34 {
            Ok(ScanState { in_string: false, ..counted })
        } else {
            Ok(counted)
        }
    } else {
        let n = if b == 34 {
            ScanState { in_string: true, string_bytes: 0, ..s }
        } else if b == 123 || b == 91 {
            if s.depth == usize::MAX || s.depth + 1 > limits.depth {
                return Err(ProtocolError::ExcessDepth);
            }
            if s.items == usize::MAX {
                return Err(ProtocolError::ExcessItems);
            }
            ScanState { depth: s.depth + 1, items: s.items + 1, ..s }
        } else if b == 125 || b == 93 {
            ScanState { depth: if s.depth == 0 { 0 } else { s.depth - 1 }, ..s }
        } else if b == 44 {
            if s.items == usize::MAX {
                return Err(ProtocolError::ExcessItems);
            }
            ScanState { items: s.items + 1, ..s }
        } else {
            s
        };
        if n.items > limits.items {
            Err(ProtocolError::ExcessItems)
        } else {
            Ok(n)
        }
    }
}

/// Checks a JSON body before it is parsed.
pub fn scan_json(body: &[u8], limits: JsonLimits) -> (r: Result<(), ProtocolError>)
    ensures
        r == scan_json_spec(body@, limits),
{
    let n = body.len();
    if n == 0 {
        return Err(ProtocolError::EmptyMessage);
    }
    if n > limits.bytes {
        return Err(ProtocolError::MessageTooLarge);
    }
    let mut i: usize = 0;
    while i < n && (body[i] == 32 || body[i] == 9 || body[i] == 10 || body[i] == 12 || body[i] == 13)
        invariant
            n == body@.len(),
            i <= n,
            first_non_ws(body@, 0) == first_non_ws(body@, i as int),
        decreases n - i,
    {
        i += 1;
    }
    if i == n {
        return Err(ProtocolError::EmptyMessage);
    }
    if body[i] == 91 {
        return Err(ProtocolError::UnsupportedBatch);
    }
    let mut state = ScanState { depth: 0, items: 0, string_bytes: 0, in_string: false, escaped: false };
    let mut k: usize = 0;
    assert(scan_json_spec(body@, limits) == scan_from(body@, 0, scan_start(), limits));
    while k < n
        invariant
            n == body@.len(),
            k <= n,
            scan_json_spec(body@, limits) == scan_from(body@, 0, scan_start(), limits),
            scan_from(body@, 0, scan_start(), limits) == scan_from(body@, k as int, state, limits),
        decreases n - k,
    {
        state = match scan_byte_exec(state, body[k], limits) {
            Ok(next) => next,
            Err(e) => {
                return Err(e);
            },
        };
        k += 1;
    }
    Ok(())
}

/// An error a server returned for a request.
pub struct RemoteError {
    pub code: i32,
    pub message: String,
    /// The raw JSON of the error's data, when it has some.
    pub data: Option<String>,
}

/// What a remote error holds, as values.
pub struct RemoteErrorModel {
    pub code: i32,
    pub message: Seq<char>,
    pub data: Option<Seq<char>>,
}

/// The characters of an optional string.
pub open spec fn opt_chars(s: Option<String>) -> Option<Seq<char>> {
    match s {
        Some(t) => Some(t@),
        None => None,
    }
}

impl View for RemoteError {
    type V = RemoteErrorModel;

    open spec fn view(&self) -> RemoteErrorModel {
        RemoteErrorModel { code: self.code, message: self.message@, data: opt_chars(self.data) }
    }
}

/// The top-level fields of a parsed JSON-RPC object. Raw JSON values are
/// kept as text.
pub struct WireEnvelope {
    pub jsonrpc: String,
    /// The request ID, a non-zero 32-bit integer.
    pub id: Option<u32>,
    pub method: Option<String>,
    pub params: Option<String>,
    pub result: Option<String>,
    /// The error member: absent, present but not an error object (`None`
    /// inside), or the error it holds.
    pub error: Option<Option<RemoteError>>,
}

/// A response's outcome.
pub enum ResponseValue {
    Result(String),
    Error(RemoteError),
}

/// A classified inbound message.
pub enum ParsedMessage {
    Request { id: u32, method: String, params: Option<String> },
    Notification { method: String, params: Option<String> },
    Response { id: u32, value: ResponseValue },
}

/// What a response's outcome holds, as values.
pub enum ResponseModel {
    Result(Seq<char>),
    Error(RemoteErrorModel),
}

/// What a classified message holds, as values.
pub enum MessageModel {
    Request { id: u32, method: Seq<char>, params: Option<Seq<char>> },
    Notification { method: Seq<char>, params: Option<Seq<char>> },
    Response { id: u32, value: ResponseModel },
}

impl View for ResponseValue {
    type V = ResponseModel;

    open spec fn view(&self) -> ResponseModel {
        match self {
            ResponseValue::Result(r) => ResponseModel::Result(r@),
            ResponseValue::Error(e) => ResponseModel::Error(e@),
        }
    }
}

impl View for ParsedMessage {
    type V = MessageModel;

    open spec fn view(&self) -> MessageModel {
        match self {
            ParsedMessage::Request { id, method, params } => MessageModel::Request {
                id: *id,
                method: method@,
                params: opt_chars(*params),
            },
            ParsedMessage::Notification { method, params } => MessageModel::Notification {
                method: method@,
                params: opt_chars(*params),
            },
            ParsedMessage::Response { id, value } => MessageModel::Response { id: *id, value: value@ },
        }
    }
}

/// The classification of an envelope: the version must be "2.0", a method
/// short enough, and the members those of exactly one message shape.
pub open spec fn classify_spec(e: WireEnvelope) -> Result<MessageModel, ProtocolError> {
    if e.jsonrpc@ != "2.0"@ {
        Err(ProtocolError::InvalidVersion)
    } else if e.method matches Some(m) && utf8_len(m@) > MAX_METHOD_BYTES {
        Err(ProtocolError::MethodTooLong)
    } else {
        match (e.id, e.method, e.result, e.error) {
            (Some(id), Some(method), None, None) => Ok(
                MessageModel::Request { id, method: method@, params: opt_chars(e.params) },
            ),
            (None, Some(method), None, None) => Ok(
                MessageModel::Notification { method: method@, params: opt_chars(e.params) },
            ),
            (Some(id), None, Some(result), None) => if e.params is None {
                Ok(MessageModel::Response { id, value: ResponseModel::Result(result@) })
            } else {
                Err(ProtocolError::InvalidEnvelope)
            },
            (Some(id), None, None, Some(error)) => if e.params is None {
                match error {
                    Some(remote) => if utf8_len(remote.message@) <= MAX_ERROR_MESSAGE_BYTES {
                        Ok(MessageModel::Response { id, value: ResponseModel::Error(remote@) })
                    } else {
                        Err(ProtocolError::InvalidEnvelope)
                    },
                    None => Err(ProtocolError::InvalidEnvelope),
                }
            } else {
                Err(ProtocolError::InvalidEnvelope)
            },
            _ => Err(ProtocolError::InvalidEnvelope),
        }
    }
}

/// Classifies a parsed envelope as a request, notification or response.
pub fn classify(e: WireEnvelope) -> (r: Result<ParsedMessage, ProtocolError>)
    ensures
        match r {
            Ok(m) => classify_spec(e) == Ok::<MessageModel, ProtocolError>(m@),
            Err(x) => classify_spec(e) == Err::<MessageModel, ProtocolError>(x),
        },
{
    let ghost original = e;
    if !str_eq(e.jsonrpc.as_str(), "2.0") {
        return Err(ProtocolError::InvalidVersion);
    }
    match &e.method {
        Some(m) => {
            if m.as_str().as_bytes().len() > MAX_METHOD_BYTES {
                return Err(ProtocolError::MethodTooLong);
            }
        },
        None => {},
    }
    let WireEnvelope { jsonrpc: _, id, method, params, result, error } = e;
    match (id, method, result, error) {
        (Some(id), Some(method), None, None) => Ok(ParsedMessage::Request { id, method, params }),
        (None, Some(method), None, None) => Ok(ParsedMessage::Notification { method, params }),
        (Some(id), None, Some(result), None) => {
            if params.is_some() {
                return Err(ProtocolError::InvalidEnvelope);
            }
            Ok(ParsedMessage::Response { id, value: ResponseValue::Result(result) })
        },
        (Some(id), None, None, Some(error)) => {
            if params.is_some() {
                return Err(ProtocolError::InvalidEnvelope);
            }
            match error {
                Some(remote) => {
                    if remote.message.as_str().as_bytes().len() > MAX_ERROR_MESSAGE_BYTES {
                        return Err(ProtocolError::InvalidEnvelope);
                    }
                    Ok(ParsedMessage::Response { id, value: ResponseValue::Error(remote) })
                },
                None => Err(ProtocolError::InvalidEnvelope),
            }
        },
        _ => Err(ProtocolError::InvalidEnvelope),
    }
}

/// The outcome of an inbound body: its scan first, then its parse (none
/// when it is not one JSON-RPC object), then its classification.
pub open spec fn message_outcome(body: Seq<u8>, envelope: Option<WireEnvelope>) -> Result<MessageModel, ProtocolError> {
    match scan_json_spec(body, default_json_limits()) {
        Err(e) => Err(e),
        Ok(()) => match envelope {
            None => Err(ProtocolError::MalformedJson),
            Some(env) => classify_spec(env),
        },
    }
}

/// Checks an inbound body and classifies its parse, `envelope`, which is
/// none when the body is not one JSON-RPC object.
pub fn parse_message(body: &[u8], envelope: Option<WireEnvelope>) -> (r: Result<ParsedMessage, ProtocolError>)
    ensures
        match r {
            Ok(m) => message_outcome(body@, envelope) == Ok::<MessageModel, ProtocolError>(m@),
            Err(x) => message_outcome(body@, envelope) == Err::<MessageModel, ProtocolError>(x),
        },
{
    scan_json(body, JsonLimits::default())?;
    match envelope {
        None => Err(ProtocolError::MalformedJson),
        Some(env) => classify(env),
    }
}

/// A lowercase hexadecimal digit of `n`, below sixteen.
pub open spec fn hex_digit(n: u8) -> u8 {
    if n < 10 {
        (48 + n) as u8
    } else {
        (87 + n) as u8
    }
}

/// How a JSON string writes byte `b` of its text: a quote and a backslash
/// behind a backslash; backspace, tab, line feed, form feed and carriage
/// return by their letters; other control bytes as `\u00` and two lowercase
/// hex digits; every other byte as itself.
pub open spec fn json_escape_byte(b: u8) -> Seq<u8> {
    if b == 0x22 {
        seq![0x5Cu8, 0x22u8]
    } else if b == 0x5C {
        seq![0x5Cu8, 0x5Cu8]
    } else if b == 0x08 {
        seq![0x5Cu8, 0x62u8]
    } else if b == 0x09 {
        seq![0x5Cu8, 0x74u8]
    } else if b == 0x0A {
        seq![0x5Cu8, 0x6Eu8]
    } else if b == 0x0C {
        seq![0x5Cu8, 0x66u8]
    } else if b == 0x0D {
        seq![0x5Cu8, 0x72u8]
    } else if b < 0x20 {
        seq![0x5Cu8, 0x75u8, 0x30u8, 0x30u8, hex_digit(b / 16), hex_digit(b % 16)]
    } else {
        seq![b]
    }
}

/// The bytes of a JSON string's contents, each written as `json_escape_byte`.
pub open spec fn json_escape_bytes(bytes: Seq<u8>) -> Seq<u8>
    decreases bytes.len(),
{
    if bytes.len() == 0 {
        Seq::empty()
    } else {
        json_escape_bytes(bytes.drop_last()) + json_escape_byte(bytes.last())
    }
}

/// The JSON string that `serde_json` writes for `text`, as bytes: the UTF-8
/// text, escaped, between quotes.
pub open spec fn json_string_encoding(text: Seq<char>) -> Seq<u8> {
    seq![0x22u8] + json_escape_bytes(encode_utf8(text)) + seq![0x22u8]
}

/// `serde_json::to_vec` on a string: the text's UTF-8 bytes between quotes,
/// with a quote, a backslash and each control byte escaped. Serializing a
/// string fails only when the writer fails, and writing to a `Vec` does not
/// fail, so there is always a result.
#[verifier::external_body]
pub(crate) fn encode_json_string(text: &str) -> (r: Option<Vec<u8>>)
    ensures
        r is Some,
        r matches Some(bytes) ==> bytes@ == json_string_encoding(text@),
{
    serde_json::to_vec(text).ok()
}

/// A framed outbound message.
pub struct OutboundMessage {
    bytes: Vec<u8>,
    body_start: usize,
    id: Option<u32>,
}

/// What an outbound message holds, as values.
pub struct OutboundModel {
    pub bytes: Seq<u8>,
    pub body_start: usize,
    pub id: Option<u32>,
}

impl View for OutboundMessage {
    type V = OutboundModel;

    closed spec fn view(&self) -> OutboundModel {
        OutboundModel { bytes: self.bytes@, body_start: self.body_start, id: self.id }
    }
}

impl OutboundMessage {
    /// The framed bytes.
    pub fn bytes(&self) -> (b: &[u8])
        ensures
            b@ == self@.bytes,
    {
        self.bytes.as_slice()
    }

    /// The body, after the header.
    pub fn body(&self) -> (b: &[u8])
        requires
            self@.body_start <= self@.bytes.len(),
        ensures
            b@ == self@.bytes.subrange(self@.body_start as int, self@.bytes.len() as int),
    {
        vstd::slice::slice_subrange(self.bytes.as_slice(), self.body_start, self.bytes.len())
    }

    /// The request ID the message carries, when it is a request.
    pub fn request_id(&self) -> (i: Option<u32>)
        ensures
            i == self@.id,
    {
        self.id
    }
}

/// The ASCII bytes of `n` in decimal.
pub open spec fn decimal_bytes(n: nat) -> Seq<u8> {
    encode_utf8(decimal(n))
}

/// The body of a call: version, then the ID when there is one, the method,
/// and the parameters when there are some.
pub open spec fn call_body(method_json: Seq<u8>, id: Option<u32>, params: Option<Seq<u8>>) -> Seq<u8> {
    encode_utf8("{\"jsonrpc\":\"2.0\","@) + match id {
        Some(i) => encode_utf8("\"id\":"@) + decimal_bytes(i as nat) + encode_utf8(","@),
        None => Seq::empty(),
    } + encode_utf8("\"method\":"@) + method_json + match params {
        Some(p) => encode_utf8(",\"params\":"@) + p,
        None => Seq::empty(),
    } + encode_utf8("}"@)
}

/// A body framed with its `Content-Length` header.
pub open spec fn framed(body: Seq<u8>) -> Seq<u8> {
    encode_utf8("Content-Length: "@) + decimal_bytes(body.len()) + encode_utf8("\r\n\r\n"@) + body
}

pub(crate) fn push_all(out: &mut Vec<u8>, bytes: &[u8])
    ensures
        final(out)@ == old(out)@ + bytes@,
{
    let mut i: usize = 0;
    while i < bytes.len()
        invariant
            i <= bytes@.len(),
            out@ == old(out)@ + bytes@.subrange(0, i as int),
        decreases bytes@.len() - i,
    {
        out.push(bytes[i]);
        i += 1;
        assert(out@ =~= old(out)@ + bytes@.subrange(0, i as int));
    }
    assert(bytes@.subrange(0, bytes@.len() as int) =~= bytes@);
}

/// The outcome of framing a body: refused when the frame would not fit a
/// `usize`, else the frame, unless allocation failed.
pub open spec fn frame_outcome(body: Seq<u8>, id: Option<u32>, r: Result<OutboundModel, ProtocolError>) -> bool {
    let start = encode_utf8("Content-Length: \r\n\r\n"@).len() + decimal_bytes(body.len()).len();
    if start + body.len() > usize::MAX {
        r == Err::<OutboundModel, ProtocolError>(ProtocolError::MessageTooLarge)
    } else {
        r == Err::<OutboundModel, ProtocolError>(ProtocolError::AllocationFailed) || r == Ok::<
            OutboundModel,
            ProtocolError,
        >(OutboundModel { bytes: framed(body), body_start: start as usize, id })
    }
}

/// Frames `body` with its `Content-Length` header.
pub fn frame_body(body: &[u8], id: Option<u32>) -> (r: Result<OutboundMessage, ProtocolError>)
    ensures
        frame_outcome(
            body@,
            id,
            match r {
                Ok(m) => Ok(m@),
                Err(e) => Err(e),
            },
        ),
{
    let length = usize_to_decimal(body.len());
    let digits = length.as_str().as_bytes();
    let header = "Content-Length: \r\n\r\n".as_bytes().len();
    if digits.len() > usize::MAX - header {
        return Err(ProtocolError::MessageTooLarge);
    }
    let body_start = header + digits.len();
    if body_start > usize::MAX - body.len() {
        return Err(ProtocolError::MessageTooLarge);
    }
    let total = body_start + body.len();
    let mut out: Vec<u8> = Vec::new();
    if vec_try_reserve_exact(&mut out, total).is_err() {
        return Err(ProtocolError::AllocationFailed);
    }
    push_all(&mut out, "Content-Length: ".as_bytes());
    push_all(&mut out, digits);
    push_all(&mut out, "\r\n\r\n".as_bytes());
    push_all(&mut out, body);
    proof {
        assert(out@ =~= framed(body@));
    }
    Ok(OutboundMessage { bytes: out, body_start, id })
}

/// Whether a method name has an admissible length.
pub open spec fn method_valid(method: Seq<char>) -> bool {
    0 < utf8_len(method) <= MAX_METHOD_BYTES
}

fn validate_method(method: &str) -> (r: Result<(), ProtocolError>)
    ensures
        r is Ok <==> method_valid(method@),
        r matches Err(e) ==> e == ProtocolError::MethodTooLong,
{
    let n = method.as_bytes().len();
    if n == 0 || n > MAX_METHOD_BYTES {
        Err(ProtocolError::MethodTooLong)
    } else {
        Ok(())
    }
}

/// The outcome of building a call of `method` with `id` and `params`, whose
/// size may not exceed `max_bytes`: each refusal in the order the checks
/// run, else the framed call; once the size is admitted, an allocation may
/// fail instead.
pub open spec fn call_outcome(
    method: Seq<char>,
    id: Option<u32>,
    params: Option<Seq<char>>,
    max_bytes: usize,
    r: Result<OutboundModel, ProtocolError>,
) -> bool {
    if !method_valid(method) {
        r == Err::<OutboundModel, ProtocolError>(ProtocolError::MethodTooLong)
    } else {
        let mj = json_string_encoding(method);
        let params_bytes = match params {
            Some(p) => encode_utf8(p),
            None => Seq::empty(),
        };
        let capacity = 48 + mj.len() + params_bytes.len();
        if capacity > max_bytes {
            r == Err::<OutboundModel, ProtocolError>(ProtocolError::MessageTooLarge)
        } else if r == Err::<OutboundModel, ProtocolError>(ProtocolError::AllocationFailed) {
            true
        } else if params matches Some(p) && scan_json_spec(encode_utf8(p), default_json_limits()) is Err {
            r == Err::<OutboundModel, ProtocolError>(
                scan_json_spec(encode_utf8(params->0), default_json_limits())->Err_0,
            )
        } else {
            frame_outcome(
                call_body(
                    mj,
                    id,
                    match params {
                        Some(p) => Some(encode_utf8(p)),
                        None => None,
                    },
                ),
                id,
                r,
            )
        }
    }
}

/// Builds and frames a call of `method` with `id` and `params`.
pub fn build_call_with_limit(method: &str, id: Option<u32>, params: Option<&str>, max_bytes: usize) -> (r:
    Result<OutboundMessage, ProtocolError>)
    ensures
        call_outcome(
            method@,
            id,
            match params {
                Some(p) => Some(p@),
                None => None,
            },
            max_bytes,
            match r {
                Ok(m) => Ok(m@),
                Err(e) => Err(e),
            },
        ),
{
    validate_method(method)?;
    let mj = match encode_json_string(method) {
        Some(bytes) => bytes,
        None => {
            return Err(ProtocolError::MalformedJson);
        },
    };
    let params_len = match params {
        Some(p) => p.as_bytes().len(),
        None => 0,
    };
    if mj.len() > usize::MAX - 48 || params_len > usize::MAX - 48 - mj.len() {
        return Err(ProtocolError::MessageTooLarge);
    }
    let capacity = 48 + mj.len() + params_len;
    if capacity > max_bytes {
        return Err(ProtocolError::MessageTooLarge);
    }
    let mut body: Vec<u8> = Vec::new();
    if vec_try_reserve_exact(&mut body, capacity).is_err() {
        return Err(ProtocolError::AllocationFailed);
    }
    push_all(&mut body, "{\"jsonrpc\":\"2.0\",".as_bytes());
    let ghost after_version = body@;
    match id {
        Some(i) => {
            push_all(&mut body, "\"id\":".as_bytes());
            let digits = usize_to_decimal(i as usize);
            push_all(&mut body, digits.as_str().as_bytes());
            push_all(&mut body, ",".as_bytes());
        },
        None => {},
    }
    let ghost after_id = body@;
    push_all(&mut body, "\"method\":".as_bytes());
    push_all(&mut body, mj.as_slice());
    let ghost after_method = body@;
    match params {
        Some(p) => {
            scan_json(p.as_bytes(), JsonLimits::default())?;
            push_all(&mut body, ",\"params\":".as_bytes());
            push_all(&mut body, p.as_bytes());
        },
        None => {},
    }
    let ghost after_params = body@;
    push_all(&mut body, "}".as_bytes());
    proof {
        let idpart = match id {
            Some(i) => encode_utf8("\"id\":"@) + decimal_bytes(i as nat) + encode_utf8(","@),
            None => Seq::<u8>::empty(),
        };
        let ppart = match params {
            Some(p) => encode_utf8(",\"params\":"@) + encode_utf8(p@),
            None => Seq::<u8>::empty(),
        };
        assert(after_id =~= after_version + idpart);
        assert(after_method =~= after_id + encode_utf8("\"method\":"@) + mj@);
        assert(after_params =~= after_method + ppart);
        assert(body@ =~= call_body(
            mj@,
            id,
            match params {
                Some(p) => Some(encode_utf8(p@)),
                None => None,
            },
        ));
    }
    frame_body(body.as_slice(), id)
}

/// Builds and frames a call within the body ceiling.
pub fn build_call(method: &str, id: Option<u32>, params: Option<&str>) -> (r: Result<OutboundMessage, ProtocolError>)
    ensures
        call_outcome(
            method@,
            id,
            match params {
                Some(p) => Some(p@),
                None => None,
            },
            MAX_JSON_BYTES,
            match r {
                Ok(m) => Ok(m@),
                Err(e) => Err(e),
            },
        ),
{
    build_call_with_limit(method, id, params, MAX_JSON_BYTES)
}

/// Where the peer is in the protocol's lifecycle.
#[derive(Clone, Copy, Debug, Eq, PartialEq, Structural)]
pub enum PeerLifecycle {
    Created,
    Initializing,
    Running,
    ShuttingDown,
    ShutdownAcknowledged,
    Exited,
    Failed,
}

/// What a pending request is for.
#[derive(Clone, Copy, Debug, Eq, PartialEq, Structural)]
pub enum PendingKind {
    Initialize,
    Request,
    Shutdown,
}

struct PendingRequest {
    id: u32,
    kind: PendingKind,
    method: String,
    stamp: Option<RequestStamp>,
}

/// What a pending request holds, as values.
pub struct PendingModel {
    pub id: u32,
    pub kind: PendingKind,
    pub method: Seq<char>,
    pub stamp: Option<RequestStamp>,
}

impl View for PendingRequest {
    type V = PendingModel;

    closed spec fn view(&self) -> PendingModel {
        PendingModel { id: self.id, kind: self.kind, method: self.method@, stamp: self.stamp }
    }
}

/// The peer's state, as values.
#[verifier::ext_equal]
pub struct PeerModel {
    pub lifecycle: PeerLifecycle,
    pub next_id: u32,
    pub pending: Seq<PendingModel>,
    pub cancelled_requests: u64,
    pub stale_responses: u64,
}

/// Accounting of the peer.
#[derive(Clone, Copy, Debug, Eq, PartialEq, Structural)]
pub struct PeerSnapshot {
    pub lifecycle: PeerLifecycle,
    pub pending_requests: usize,
    pub retained_bytes: usize,
    pub peak_retained_bytes: usize,
    pub cancelled_requests: u64,
    pub stale_responses: u64,
}

impl PeerSnapshot {
    /// The lifecycle.
    pub fn lifecycle(self) -> (l: PeerLifecycle)
        ensures
            l == self.lifecycle,
    {
        self.lifecycle
    }

    /// Requests awaiting a response.
    pub fn pending_requests(self) -> (n: usize)
        ensures
            n == self.pending_requests,
    {
        self.pending_requests
    }
}

/// What the peer reports for an inbound message.
pub enum PeerEvent {
    Initialized(OutboundMessage),
    Response { id: u32, method: String, stamp: RequestStamp, value: ResponseValue },
    StaleResponse { id: u32 },
    ShutdownAcknowledged,
    InboundRequest { id: u32, method: String, params: Option<String> },
    InboundNotification { method: String, params: Option<String> },
}

/// The JSON-RPC peer of one language server.
pub struct LspPeer {
    lifecycle: PeerLifecycle,
    next_id: u32,
    pending: Vec<PendingRequest>,
    peak_retained_bytes: usize,
    cancelled_requests: u64,
    stale_responses: u64,
}

impl View for LspPeer {
    type V = PeerModel;

    closed spec fn view(&self) -> PeerModel {
        PeerModel {
            lifecycle: self.lifecycle,
            next_id: self.next_id,
            pending: self.pending@.map_values(|p: PendingRequest| p@),
            cancelled_requests: self.cancelled_requests,
            stale_responses: self.stale_responses,
        }
    }
}

/// Index of the first pending request with `id`.
pub open spec fn pending_index(pending: Seq<PendingModel>, id: u32) -> Option<int>
    decreases pending.len(),
{
    if pending.len() == 0 {
        None
    } else if pending.last().id == id {
        match pending_index(pending.drop_last(), id) {
            Some(i) => Some(i),
            None => Some(pending.len() - 1),
        }
    } else {
        pending_index(pending.drop_last(), id)
    }
}

/// `pending` without the entry at `i`, the last entry taking its place.
pub open spec fn swap_removed(pending: Seq<PendingModel>, i: int) -> Seq<PendingModel> {
    pending.update(i, pending.last()).drop_last()
}

/// Every pending request has a distinct non-zero ID no greater than the
/// last one allocated, and there are at most `MAX_PENDING_REQUESTS` of
/// them.
pub open spec fn peer_ids_fresh(m: PeerModel) -> bool {
    &&& m.pending.len() <= MAX_PENDING_REQUESTS
    &&& forall|i: int| 0 <= i < m.pending.len() ==> 0 < (#[trigger] m.pending[i]).id <= m.next_id
    &&& forall|i: int, j: int|
        0 <= i < j < m.pending.len() ==> (#[trigger] m.pending[i]).id != (#[trigger] m.pending[j]).id
}

fn find_pending(pending: &Vec<PendingRequest>, id: u32) -> (r: Option<usize>)
    ensures
        r matches Some(i) ==> i < pending@.len() && pending@[i as int].id == id,
        match r {
            Some(i) => pending_index(pending@.map_values(|p: PendingRequest| p@), id) == Some(i as int),
            None => pending_index(pending@.map_values(|p: PendingRequest| p@), id) is None,
        },
{
    let ghost all = pending@.map_values(|p: PendingRequest| p@);
    let mut i: usize = 0;
    while i < pending.len()
        invariant
            i <= pending@.len(),
            all == pending@.map_values(|p: PendingRequest| p@),
            pending_index(all.subrange(0, i as int), id) is None,
        decreases pending@.len() - i,
    {
        proof {
            assert(all.subrange(0, i + 1).drop_last() =~= all.subrange(0, i as int));
        }
        if pending[i].id == id {
            proof {
                lemma_pending_index_prefix(all, id, i as int);
            }
            return Some(i);
        }
        i += 1;
    }
    assert(all.subrange(0, i as int) =~= all);
    None
}

/// A found pending index names a request with that ID.
pub proof fn lemma_pending_index_bounds(pending: Seq<PendingModel>, id: u32)
    ensures
        pending_index(pending, id) matches Some(i) ==> 0 <= i < pending.len() && pending[i].id == id,
    decreases pending.len(),
{
    if pending.len() > 0 {
        lemma_pending_index_bounds(pending.drop_last(), id);
    }
}

proof fn lemma_pending_index_prefix(all: Seq<PendingModel>, id: u32, i: int)
    requires
        0 <= i < all.len(),
        all[i].id == id,
        pending_index(all.subrange(0, i), id) is None,
    ensures
        pending_index(all, id) == Some(i),
    decreases all.len(),
{
    if all.len() == i + 1 {
        assert(all.drop_last() =~= all.subrange(0, i));
    } else {
        assert(all.drop_last().subrange(0, i) =~= all.subrange(0, i));
        lemma_pending_index_prefix(all.drop_last(), id, i);
    }
}

/// The message the initialize request carries as its parameters.
pub open spec fn initialize_params_text() -> Seq<char> {
    "{\"processId\":null,\"clientInfo\":{\"name\":\"Alpine Studio\",\"version\":\"0.0.0\"},\"capabilities\":{}}"@
}

/// The peer after a call of `kind` for `method` took the next ID and moved
/// the lifecycle to `lifecycle`.
pub open spec fn begun(
    m: PeerModel,
    kind: PendingKind,
    method: Seq<char>,
    stamp: Option<RequestStamp>,
    lifecycle: PeerLifecycle,
) -> PeerModel {
    PeerModel {
        lifecycle,
        next_id: (m.next_id + 1) as u32,
        pending: m.pending.push(PendingModel { id: (m.next_id + 1) as u32, kind, method, stamp }),
        ..m
    }
}

/// Why a call of `method` cannot take an ID in `m`, checked in this order;
/// none when it can.
pub open spec fn admission_error(m: PeerModel, method: Seq<char>) -> Option<ProtocolError> {
    if !method_valid(method) {
        Some(ProtocolError::MethodTooLong)
    } else if m.pending.len() >= MAX_PENDING_REQUESTS {
        Some(ProtocolError::PendingCapacity)
    } else if m.next_id == u32::MAX {
        Some(ProtocolError::IdExhausted)
    } else {
        None
    }
}

/// What beginning a call of `kind` for `method` with `params` does to `before`
/// when admission checks pass: on success the peer is `begun` with
/// `lifecycle` and the message is the framed call under the new ID; on
/// failure (allocation, or the call does not fit in a message) nothing changes.
pub open spec fn begin_effect(
    before: PeerModel,
    kind: PendingKind,
    method: Seq<char>,
    params: Option<Seq<char>>,
    stamp: Option<RequestStamp>,
    lifecycle: PeerLifecycle,
    after: PeerModel,
    r: Result<OutboundModel, ProtocolError>,
) -> bool {
    match admission_error(before, method) {
        Some(e) => r == Err::<OutboundModel, ProtocolError>(e) && after == before,
        None => match r {
            Ok(m) => after == begun(before, kind, method, stamp, lifecycle) && m.id == Some(after.next_id)
                && call_outcome(method, Some(after.next_id), params, MAX_JSON_BYTES, Ok(m)),
            Err(e) => after == before && (e == ProtocolError::AllocationFailed || call_outcome(
                method,
                Some((before.next_id + 1) as u32),
                params,
                MAX_JSON_BYTES,
                Err(e),
            )),
        },
    }
}

/// The peer without pending call `id`, which was never sent, with the
/// lifecycle step that began it undone.
pub open spec fn unsent_rolled_back(m: PeerModel, id: u32) -> Result<PeerModel, ProtocolError> {
    match pending_index(m.pending, id) {
        None => Err(ProtocolError::UnknownResponseId),
        Some(i) => Ok(
            PeerModel {
                pending: swap_removed(m.pending, i),
                lifecycle: match m.pending[i].kind {
                    PendingKind::Initialize => PeerLifecycle::Created,
                    PendingKind::Shutdown => PeerLifecycle::Running,
                    PendingKind::Request => m.lifecycle,
                },
                ..m
            },
        ),
    }
}

/// The outbound message of a call result, as values.
pub open spec fn outbound_view(r: Result<OutboundMessage, ProtocolError>) -> Result<OutboundModel, ProtocolError> {
    match r {
        Ok(m) => Ok(m@),
        Err(e) => Err(e),
    }
}

/// Bytes of the UTF-8 method names of `pending`.
pub open spec fn method_bytes(pending: Seq<PendingModel>) -> nat
    decreases pending.len(),
{
    if pending.len() == 0 {
        0
    } else {
        method_bytes(pending.drop_last()) + utf8_len(pending.last().method)
    }
}

/// What a peer retains when room for `capacity` pending records was
/// allocated: the records and the text of each pending method, saturating.
pub closed spec fn peer_retained(capacity: nat, pending: Seq<PendingModel>) -> int {
    usize_saturated((capacity * vstd::layout::size_of::<PendingRequest>() + method_bytes(pending)) as int)
}

/// The larger of `a` and `b`.
pub open spec fn at_least(a: int, b: int) -> int {
    if a >= b {
        a
    } else {
        b
    }
}

impl LspPeer {
    /// The most bytes the peer was seen to retain.
    pub closed spec fn peak_retained(&self) -> usize {
        self.peak_retained_bytes
    }

    /// A peer that has not begun initialization.
    pub fn new() -> (p: LspPeer)
        ensures
            p@ == (PeerModel {
                lifecycle: PeerLifecycle::Created,
                next_id: 0,
                pending: Seq::empty(),
                cancelled_requests: 0,
                stale_responses: 0,
            }),
            p.peak_retained() == 0,
    {
        let p = LspPeer {
            lifecycle: PeerLifecycle::Created,
            next_id: 0,
            pending: Vec::new(),
            peak_retained_bytes: 0,
            cancelled_requests: 0,
            stale_responses: 0,
        };
        assert(p@.pending =~= Seq::<PendingModel>::empty());
        p
    }

    /// Accounting of the peer.
    pub fn snapshot(&self) -> (s: PeerSnapshot)
        ensures
            s.lifecycle == self@.lifecycle,
            s.pending_requests == self@.pending.len(),
            s.cancelled_requests == self@.cancelled_requests,
            s.stale_responses == self@.stale_responses,
            exists|capacity: nat|
                capacity >= self@.pending.len() && #[trigger] peer_retained(capacity, self@.pending)
                    == s.retained_bytes,
            s.peak_retained_bytes == at_least(self.peak_retained() as int, s.retained_bytes as int),
            s.peak_retained_bytes >= s.retained_bytes,
    {
        let retained = self.retained_bytes();
        PeerSnapshot {
            lifecycle: self.lifecycle,
            pending_requests: self.pending.len(),
            retained_bytes: retained,
            peak_retained_bytes: if retained > self.peak_retained_bytes {
                retained
            } else {
                self.peak_retained_bytes
            },
            cancelled_requests: self.cancelled_requests,
            stale_responses: self.stale_responses,
        }
    }

    fn retained_bytes(&self) -> (n: usize)
        ensures
            exists|capacity: nat|
                capacity >= self@.pending.len() && #[trigger] peer_retained(capacity, self@.pending) == n,
    {
        let record = core::mem::size_of::<PendingRequest>();
        let capacity = crate::std_calls::vec_capacity(&self.pending);
        let ghost all = self@.pending;
        let mut total: usize = match capacity.checked_mul(record) {
            Some(n) => n,
            None => usize::MAX,
        };
        proof {
            assert(all.subrange(0, 0) =~= Seq::<PendingModel>::empty());
            assert(capacity as nat * record as nat >= 0) by (nonlinear_arith);
        }
        let mut i: usize = 0;
        while i < self.pending.len()
            invariant
                i <= self.pending@.len(),
                all == self@.pending,
                record as nat == vstd::layout::size_of::<PendingRequest>(),
                capacity as nat * record as nat >= 0,
                total == usize_saturated((capacity as nat * record as nat + method_bytes(all.subrange(0, i as int))) as int),
            decreases self.pending@.len() - i,
        {
            let n = self.pending[i].method.as_str().as_bytes().len();
            proof {
                assert(all.subrange(0, i + 1).drop_last() =~= all.subrange(0, i as int));
                assert(all[i as int] == self.pending@[i as int]@);
            }
            total = if total > usize::MAX - n {
                usize::MAX
            } else {
                total + n
            };
            i += 1;
        }
        proof {
            assert(all.subrange(0, i as int) =~= all);
            assert(peer_retained(capacity as nat, all) == total);
        }
        total
    }

    fn observe_peak(&mut self)
        ensures
            final(self)@ == old(self)@,
            exists|capacity: nat|
                capacity >= old(self)@.pending.len() && final(self).peak_retained_bytes == at_least(
                    old(self).peak_retained_bytes as int,
                    #[trigger] peer_retained(capacity, old(self)@.pending),
                ),
    {
        let retained = self.retained_bytes();
        if retained > self.peak_retained_bytes {
            self.peak_retained_bytes = retained;
        }
    }

    fn begin_pending(&mut self, method: &str, params: Option<&str>, stamp: Option<RequestStamp>, kind: PendingKind) -> (r:
        Result<OutboundMessage, ProtocolError>)
        ensures
            begin_effect(
                old(self)@,
                kind,
                method@,
                match params {
                    Some(p) => Some(p@),
                    None => None,
                },
                stamp,
                old(self)@.lifecycle,
                final(self)@,
                outbound_view(r),
            ),
    {
        validate_method(method)?;
        if self.pending.len() >= MAX_PENDING_REQUESTS {
            return Err(ProtocolError::PendingCapacity);
        }
        if self.next_id == u32::MAX {
            return Err(ProtocolError::IdExhausted);
        }
        let id = self.next_id + 1;
        let message = build_call(method, Some(id), params)?;
        if vec_try_reserve_exact(&mut self.pending, 1).is_err() {
            return Err(ProtocolError::AllocationFailed);
        }
        let ghost before = self.pending@;
        self.pending.push(PendingRequest { id, kind, method: String::from_str(method), stamp });
        proof {
            assert(self.pending@.map_values(|p: PendingRequest| p@) =~= before.map_values(
                |p: PendingRequest| p@,
            ).push(PendingModel { id, kind, method: method@, stamp }));
        }
        self.next_id = id;
        self.observe_peak();
        Ok(message)
    }

    /// Begins initialization.
    pub fn begin_initialize(&mut self) -> (r: Result<OutboundMessage, ProtocolError>)
        ensures
            old(self)@.lifecycle != PeerLifecycle::Created ==> r == Err::<OutboundMessage, ProtocolError>(
                ProtocolError::InvalidLifecycle,
            ) && final(self)@ == old(self)@,
            old(self)@.lifecycle == PeerLifecycle::Created ==> begin_effect(
                old(self)@,
                PendingKind::Initialize,
                "initialize"@,
                Some(initialize_params_text()),
                None,
                PeerLifecycle::Initializing,
                final(self)@,
                outbound_view(r),
            ),
    {
        if self.lifecycle != PeerLifecycle::Created {
            return Err(ProtocolError::InvalidLifecycle);
        }
        proof {
            reveal_strlit(
                "{\"processId\":null,\"clientInfo\":{\"name\":\"Alpine Studio\",\"version\":\"0.0.0\"},\"capabilities\":{}}",
            );
        }
        let message = self.begin_pending(
            "initialize",
            Some(
                "{\"processId\":null,\"clientInfo\":{\"name\":\"Alpine Studio\",\"version\":\"0.0.0\"},\"capabilities\":{}}",
            ),
            None,
            PendingKind::Initialize,
        )?;
        self.lifecycle = PeerLifecycle::Initializing;
        Ok(message)
    }

    /// Begins a request of `method` for `stamp`; only a running peer sends
    /// requests, and never initialize or shutdown this way.
    pub fn begin_request(&mut self, method: &str, params: Option<&str>, stamp: RequestStamp) -> (r: Result<
        OutboundMessage,
        ProtocolError,
    >)
        ensures
            (old(self)@.lifecycle != PeerLifecycle::Running || method@ == "initialize"@ || method@
                == "shutdown"@) ==> r == Err::<OutboundMessage, ProtocolError>(
                ProtocolError::InvalidLifecycle,
            ) && final(self)@ == old(self)@,
            !(old(self)@.lifecycle != PeerLifecycle::Running || method@ == "initialize"@ || method@
                == "shutdown"@) ==> begin_effect(
                old(self)@,
                PendingKind::Request,
                method@,
                match params {
                    Some(p) => Some(p@),
                    None => None,
                },
                Some(stamp),
                old(self)@.lifecycle,
                final(self)@,
                outbound_view(r),
            ),
    {
        if self.lifecycle != PeerLifecycle::Running || str_eq(method, "initialize") || str_eq(method, "shutdown") {
            return Err(ProtocolError::InvalidLifecycle);
        }
        self.begin_pending(method, params, Some(stamp), PendingKind::Request)
    }

    /// Withdraws pending request `id` and builds its cancellation.
    pub fn cancel(&mut self, id: u32) -> (r: Result<OutboundMessage, ProtocolError>)
        ensures
            match pending_index(old(self)@.pending, id) {
                None => r == Err::<OutboundMessage, ProtocolError>(ProtocolError::UnknownResponseId)
                    && final(self)@ == old(self)@,
                Some(i) => if old(self)@.pending[i].kind != PendingKind::Request {
                    r == Err::<OutboundMessage, ProtocolError>(ProtocolError::CannotCancelLifecycle)
                        && final(self)@ == old(self)@
                } else if old(self)@.cancelled_requests == u64::MAX {
                    r == Err::<OutboundMessage, ProtocolError>(ProtocolError::IdExhausted) && final(self)@ == (PeerModel { pending: swap_removed(old(self)@.pending, i), ..old(self)@ })
                } else {
                    let after = PeerModel {
                        pending: swap_removed(old(self)@.pending, i),
                        cancelled_requests: (old(self)@.cancelled_requests + 1) as u64,
                        ..old(self)@
                    };
                    final(self)@ == after && match r {
                        Ok(m) => call_outcome(
                            "$/cancelRequest"@,
                            None,
                            Some("{\"id\":"@ + decimal(id as nat) + "}"@),
                            MAX_JSON_BYTES,
                            Ok(m@),
                        ),
                        Err(e) => call_outcome(
                            "$/cancelRequest"@,
                            None,
                            Some("{\"id\":"@ + decimal(id as nat) + "}"@),
                            MAX_JSON_BYTES,
                            Err(e),
                        ),
                    }
                },
            },
    {
        let index = match find_pending(&self.pending, id) {
            Some(i) => i,
            None => {
                return Err(ProtocolError::UnknownResponseId);
            },
        };
        if self.pending[index].kind != PendingKind::Request {
            return Err(ProtocolError::CannotCancelLifecycle);
        }
        let ghost before = self.pending@;
        let _ = self.pending.swap_remove(index);
        proof {
            assert(self.pending@.map_values(|p: PendingRequest| p@) =~= swap_removed(
                before.map_values(|p: PendingRequest| p@),
                index as int,
            ));
        }
        if self.cancelled_requests == u64::MAX {
            return Err(ProtocolError::IdExhausted);
        }
        self.cancelled_requests = self.cancelled_requests + 1;
        let mut params = String::from_str("{\"id\":");
        params.append(usize_to_decimal(id as usize).as_str());
        params.append("}");
        build_call("$/cancelRequest", None, Some(params.as_str()))
    }

    /// Begins shutdown of a running peer with nothing pending.
    pub fn begin_shutdown(&mut self) -> (r: Result<OutboundMessage, ProtocolError>)
        ensures
            old(self)@.lifecycle != PeerLifecycle::Running ==> r == Err::<OutboundMessage, ProtocolError>(
                ProtocolError::InvalidLifecycle,
            ) && final(self)@ == old(self)@,
            old(self)@.lifecycle == PeerLifecycle::Running && old(self)@.pending.len() > 0 ==> r == Err::<
                OutboundMessage,
                ProtocolError,
            >(ProtocolError::PendingRequestsRemain) && final(self)@ == old(self)@,
            old(self)@.lifecycle == PeerLifecycle::Running && old(self)@.pending.len() == 0 ==> begin_effect(
                old(self)@,
                PendingKind::Shutdown,
                "shutdown"@,
                Some("null"@),
                None,
                PeerLifecycle::ShuttingDown,
                final(self)@,
                outbound_view(r),
            ),
    {
        if self.lifecycle != PeerLifecycle::Running {
            return Err(ProtocolError::InvalidLifecycle);
        }
        if self.pending.len() != 0 {
            return Err(ProtocolError::PendingRequestsRemain);
        }
        let message = self.begin_pending("shutdown", Some("null"), None, PendingKind::Shutdown)?;
        self.lifecycle = PeerLifecycle::ShuttingDown;
        Ok(message)
    }

    /// Sends exit after the server acknowledged shutdown.
    pub fn exit(&mut self) -> (r: Result<OutboundMessage, ProtocolError>)
        ensures
            old(self)@.lifecycle != PeerLifecycle::ShutdownAcknowledged ==> r == Err::<
                OutboundMessage,
                ProtocolError,
            >(ProtocolError::InvalidLifecycle) && final(self)@ == old(self)@,
            old(self)@.lifecycle == PeerLifecycle::ShutdownAcknowledged ==> match r {
                Ok(m) => call_outcome("exit"@, None, None, MAX_JSON_BYTES, Ok(m@)) && final(self)@ == (
                PeerModel { lifecycle: PeerLifecycle::Exited, ..old(self)@ }),
                Err(e) => call_outcome("exit"@, None, None, MAX_JSON_BYTES, Err(e)) && final(self)@
                    == old(self)@,
            },
    {
        if self.lifecycle != PeerLifecycle::ShutdownAcknowledged {
            return Err(ProtocolError::InvalidLifecycle);
        }
        let message = build_call("exit", None, None)?;
        self.lifecycle = PeerLifecycle::Exited;
        Ok(message)
    }

    /// Forgets pending request `id`, which was never sent, undoing the
    /// lifecycle step that began it.
    pub fn rollback_unsent(&mut self, id: u32) -> (r: Result<(), ProtocolError>)
        ensures
            match unsent_rolled_back(old(self)@, id) {
                Ok(after) => r is Ok && final(self)@ == after,
                Err(e) => r == Err::<(), ProtocolError>(e) && final(self)@ == old(self)@,
            },
    {
        let index = match find_pending(&self.pending, id) {
            Some(i) => i,
            None => {
                return Err(ProtocolError::UnknownResponseId);
            },
        };
        let ghost before = self.pending@;
        let pending = self.pending.swap_remove(index);
        proof {
            assert(self.pending@.map_values(|p: PendingRequest| p@) =~= swap_removed(
                before.map_values(|p: PendingRequest| p@),
                index as int,
            ));
        }
        match pending.kind {
            PendingKind::Initialize => self.lifecycle = PeerLifecycle::Created,
            PendingKind::Shutdown => self.lifecycle = PeerLifecycle::Running,
            PendingKind::Request => {},
        }
        Ok(())
    }
}

/// What a peer event holds, as values.
pub enum EventModel {
    Initialized(OutboundModel),
    Response { id: u32, method: Seq<char>, stamp: RequestStamp, value: ResponseModel },
    StaleResponse { id: u32 },
    ShutdownAcknowledged,
    InboundRequest { id: u32, method: Seq<char>, params: Option<Seq<char>> },
    InboundNotification { method: Seq<char>, params: Option<Seq<char>> },
}

impl View for PeerEvent {
    type V = EventModel;

    closed spec fn view(&self) -> EventModel {
        match self {
            PeerEvent::Initialized(m) => EventModel::Initialized(m@),
            PeerEvent::Response { id, method, stamp, value } => EventModel::Response {
                id: *id,
                method: method@,
                stamp: *stamp,
                value: value@,
            },
            PeerEvent::StaleResponse { id } => EventModel::StaleResponse { id: *id },
            PeerEvent::ShutdownAcknowledged => EventModel::ShutdownAcknowledged,
            PeerEvent::InboundRequest { id, method, params } => EventModel::InboundRequest {
                id: *id,
                method: method@,
                params: opt_chars(*params),
            },
            PeerEvent::InboundNotification { method, params } => EventModel::InboundNotification {
                method: method@,
                params: opt_chars(*params),
            },
        }
    }
}

/// The view of a peer's answer.
pub open spec fn event_view(r: Result<PeerEvent, ProtocolError>) -> Result<EventModel, ProtocolError> {
    match r {
        Ok(e) => Ok(e@),
        Err(x) => Err(x),
    }
}

/// The effect of a response `value` to request `id` arriving at peer state
/// `before`, when `current` is the stamp of the current revisions.
pub open spec fn response_effect(
    before: PeerModel,
    id: u32,
    value: ResponseModel,
    current: Option<RequestStamp>,
    after: PeerModel,
    r: Result<EventModel, ProtocolError>,
) -> bool {
    match pending_index(before.pending, id) {
        None => r == Err::<EventModel, ProtocolError>(ProtocolError::UnknownResponseId) && after == before,
        Some(i) => {
            let p = before.pending[i];
            let removed = PeerModel { pending: swap_removed(before.pending, i), ..before };
            let failed = value is Error && p.kind != PendingKind::Request;
            match p.kind {
                PendingKind::Initialize => if failed {
                    r == Err::<EventModel, ProtocolError>(ProtocolError::InvalidLifecycle) && after == (
                    PeerModel { lifecycle: PeerLifecycle::Failed, ..removed })
                } else {
                    after == (PeerModel { lifecycle: PeerLifecycle::Running, ..removed }) && match r {
                        Ok(EventModel::Initialized(m)) => call_outcome(
                            "initialized"@,
                            None,
                            Some("{}"@),
                            MAX_JSON_BYTES,
                            Ok(m),
                        ),
                        Ok(_) => false,
                        Err(e) => call_outcome("initialized"@, None, Some("{}"@), MAX_JSON_BYTES, Err(e)),
                    }
                },
                PendingKind::Shutdown => if failed {
                    r == Err::<EventModel, ProtocolError>(ProtocolError::InvalidLifecycle) && after == (
                    PeerModel { lifecycle: PeerLifecycle::Failed, ..removed })
                } else {
                    r == Ok::<EventModel, ProtocolError>(EventModel::ShutdownAcknowledged) && after == (
                    PeerModel { lifecycle: PeerLifecycle::ShutdownAcknowledged, ..removed })
                },
                PendingKind::Request => match p.stamp {
                    None => r == Err::<EventModel, ProtocolError>(ProtocolError::InvalidEnvelope) && after
                        == removed,
                    Some(stamp) => if current != Some(stamp) {
                        if before.stale_responses == u64::MAX {
                            r == Err::<EventModel, ProtocolError>(ProtocolError::IdExhausted) && after
                                == removed
                        } else {
                            r == Ok::<EventModel, ProtocolError>(EventModel::StaleResponse { id })
                                && after == (PeerModel {
                                stale_responses: (before.stale_responses + 1) as u64,
                                ..removed
                            })
                        }
                    } else {
                        r == Ok::<EventModel, ProtocolError>(
                            EventModel::Response { id, method: p.method, stamp, value },
                        ) && after == removed
                    },
                },
            }
        },
    }
}

impl LspPeer {
    fn receive_response(&mut self, id: u32, value: ResponseValue, current: Option<RequestStamp>) -> (r:
        Result<PeerEvent, ProtocolError>)
        ensures
            response_effect(old(self)@, id, value@, current, final(self)@, event_view(r)),
    {
        let index = match find_pending(&self.pending, id) {
            Some(i) => i,
            None => {
                return Err(ProtocolError::UnknownResponseId);
            },
        };
        let ghost before = self.pending@;
        let pending = self.pending.swap_remove(index);
        proof {
            assert(self.pending@.map_values(|p: PendingRequest| p@) =~= swap_removed(
                before.map_values(|p: PendingRequest| p@),
                index as int,
            ));
        }
        let is_error = match &value {
            ResponseValue::Error(_) => true,
            ResponseValue::Result(_) => false,
        };
        if is_error && pending.kind != PendingKind::Request {
            self.lifecycle = PeerLifecycle::Failed;
        }
        match pending.kind {
            PendingKind::Initialize => {
                if is_error {
                    return Err(ProtocolError::InvalidLifecycle);
                }
                self.lifecycle = PeerLifecycle::Running;
                let initialized = build_call("initialized", None, Some("{}"))?;
                Ok(PeerEvent::Initialized(initialized))
            },
            PendingKind::Shutdown => {
                if is_error {
                    return Err(ProtocolError::InvalidLifecycle);
                }
                self.lifecycle = PeerLifecycle::ShutdownAcknowledged;
                Ok(PeerEvent::ShutdownAcknowledged)
            },
            PendingKind::Request => {
                let stamp = match pending.stamp {
                    Some(s) => s,
                    None => {
                        return Err(ProtocolError::InvalidEnvelope);
                    },
                };
                let same = match current {
                    Some(c) => c == stamp,
                    None => false,
                };
                if !same {
                    if self.stale_responses == u64::MAX {
                        return Err(ProtocolError::IdExhausted);
                    }
                    self.stale_responses = self.stale_responses + 1;
                    return Ok(PeerEvent::StaleResponse { id });
                }
                Ok(PeerEvent::Response { id, method: pending.method, stamp, value })
            },
        }
    }

    /// Receives an inbound body, parsed to `envelope` (none when it is not
    /// one JSON-RPC object); responses are matched to pending requests and
    /// checked against `current`, the stamp of the current revisions.
    pub fn receive(&mut self, body: &[u8], envelope: Option<WireEnvelope>, current: Option<RequestStamp>) -> (r:
        Result<PeerEvent, ProtocolError>)
        ensures
            match message_outcome(body@, envelope) {
                Err(e) => r == Err::<PeerEvent, ProtocolError>(e) && final(self)@ == old(self)@,
                Ok(MessageModel::Request { id, method, params }) => event_view(r) == Ok::<
                    EventModel,
                    ProtocolError,
                >(EventModel::InboundRequest { id, method, params }) && final(self)@ == old(self)@,
                Ok(MessageModel::Notification { method, params }) => event_view(r) == Ok::<
                    EventModel,
                    ProtocolError,
                >(EventModel::InboundNotification { method, params }) && final(self)@ == old(self)@,
                Ok(MessageModel::Response { id, value }) => response_effect(
                    old(self)@,
                    id,
                    value,
                    current,
                    final(self)@,
                    event_view(r),
                ),
            },
    {
        match parse_message(body, envelope)? {
            ParsedMessage::Request { id, method, params } => Ok(PeerEvent::InboundRequest { id, method, params }),
            ParsedMessage::Notification { method, params } => Ok(PeerEvent::InboundNotification { method, params }),
            ParsedMessage::Response { id, value } => self.receive_response(id, value, current),
        }
    }
}

/// Requests are answered at most once: after a response to `id` is taken,
/// no request with that ID remains pending, when IDs were distinct.
pub proof fn law_response_retires_its_request(
    before: PeerModel,
    id: u32,
    value: ResponseModel,
    current: Option<RequestStamp>,
    after: PeerModel,
    r: Result<EventModel, ProtocolError>,
)
    requires
        peer_ids_fresh(before),
        response_effect(before, id, value, current, after, r),
    ensures
        pending_index(after.pending, id) is None,
        peer_ids_fresh(after),
{
    lemma_pending_index_bounds(before.pending, id);
    lemma_pending_index_bounds(after.pending, id);
    match pending_index(before.pending, id) {
        None => {},
        Some(i) => {
            let rest = swap_removed(before.pending, i);
            assert(after.pending == rest);
            assert forall|k: int| 0 <= k < rest.len() implies (#[trigger] rest[k]).id != id by {
                if k == i {
                    assert(rest[k] == before.pending[before.pending.len() - 1]);
                } else {
                    assert(rest[k] == before.pending[k]);
                }
            }
            assert forall|a: int, b: int| 0 <= a < b < rest.len() implies (#[trigger] rest[a]).id
                != (#[trigger] rest[b]).id by {
                let last = before.pending.len() - 1;
                let ia = if a == i { last } else { a };
                let ib = if b == i { last } else { b };
                assert(rest[a] == before.pending[ia]);
                assert(rest[b] == before.pending[ib]);
                if ia < ib {
                    assert(before.pending[ia].id != before.pending[ib].id);
                } else {
                    assert(before.pending[ib].id != before.pending[ia].id);
                }
            }
            assert forall|k: int| 0 <= k < rest.len() implies 0 < (#[trigger] rest[k]).id <= after.next_id by {
                if k == i {
                    assert(rest[k] == before.pending[before.pending.len() - 1]);
                } else {
                    assert(rest[k] == before.pending[k]);
                }
            }
        },
    }
}

/// A newly begun request takes an ID that no pending request holds: the
/// IDs stay distinct and within those allocated.
pub proof fn law_new_request_id_is_fresh(before: PeerModel, kind: PendingKind, method: Seq<char>, stamp: Option<RequestStamp>)
    requires
        peer_ids_fresh(before),
        before.pending.len() < MAX_PENDING_REQUESTS,
        before.next_id < u32::MAX,
    ensures
        peer_ids_fresh(
            PeerModel {
                next_id: (before.next_id + 1) as u32,
                pending: before.pending.push(
                    PendingModel { id: (before.next_id + 1) as u32, kind, method, stamp },
                ),
                ..before
            },
        ),
{
    let next = (before.next_id + 1) as u32;
    let pending = before.pending.push(PendingModel { id: next, kind, method, stamp });
    assert forall|a: int, b: int| 0 <= a < b < pending.len() implies (#[trigger] pending[a]).id
        != (#[trigger] pending[b]).id by {
        assert(pending[a] == before.pending[a]);
        if b < before.pending.len() {
            assert(pending[b] == before.pending[b]);
        }
    }
    assert forall|k: int| 0 <= k < pending.len() implies 0 < (#[trigger] pending[k]).id <= next by {
        if k < before.pending.len() {
            assert(pending[k] == before.pending[k]);
        }
    }
}

/// No pending request of `pending` holds `id`, so none is found for it.
proof fn lemma_pending_index_absent(pending: Seq<PendingModel>, id: u32)
    requires
        forall|k: int| 0 <= k < pending.len() ==> (#[trigger] pending[k]).id != id,
    ensures
        pending_index(pending, id) is None,
    decreases pending.len(),
{
    if pending.len() > 0 {
        let rest = pending.drop_last();
        assert forall|k: int| 0 <= k < rest.len() implies (#[trigger] rest[k]).id != id by {
            assert(rest[k] == pending[k]);
        }
        lemma_pending_index_absent(rest, id);
    }
}

/// Rolling back a call that was begun and never sent leaves the peer as it
/// was before the call, but for the ID the call took, which is not handed
/// out again.
pub proof fn law_rollback_restores_the_peer(
    before: PeerModel,
    kind: PendingKind,
    method: Seq<char>,
    stamp: Option<RequestStamp>,
    lifecycle: PeerLifecycle,
)
    requires
        peer_ids_fresh(before),
        before.next_id < u32::MAX,
        kind == PendingKind::Initialize ==> before.lifecycle == PeerLifecycle::Created,
        kind == PendingKind::Shutdown ==> before.lifecycle == PeerLifecycle::Running,
        kind == PendingKind::Request ==> lifecycle == before.lifecycle,
    ensures
        unsent_rolled_back(begun(before, kind, method, stamp, lifecycle), (before.next_id + 1) as u32)
            == Ok::<PeerModel, ProtocolError>(PeerModel { next_id: (before.next_id + 1) as u32, ..before }),
{
    let id = (before.next_id + 1) as u32;
    let after = begun(before, kind, method, stamp, lifecycle);
    assert forall|k: int| 0 <= k < before.pending.len() implies (#[trigger] before.pending[k]).id != id by {}
    lemma_pending_index_absent(before.pending, id);
    assert(after.pending.drop_last() =~= before.pending);
    assert(pending_index(after.pending, id) == Some(before.pending.len() as int));
    assert(swap_removed(after.pending, before.pending.len() as int) =~= before.pending);
}

/// A response is delivered only against the revisions its request was made
/// for: when any of the workspace, its revision, the document or its
/// revision moved on (or nothing is current), the response is reported as
/// stale and counted, and its request is dropped; when all four are the
/// same, the response is delivered with the request's method and stamp.
pub proof fn law_response_is_delivered_only_for_its_revisions(
    before: PeerModel,
    id: u32,
    value: ResponseModel,
    current: Option<RequestStamp>,
    after: PeerModel,
    r: Result<EventModel, ProtocolError>,
    i: int,
    stamp: RequestStamp,
)
    requires
        response_effect(before, id, value, current, after, r),
        pending_index(before.pending, id) == Some(i),
        before.pending[i].kind == PendingKind::Request,
        before.pending[i].stamp == Some(stamp),
    ensures
        (match current {
            Some(c) => c.workspace_id != stamp.workspace_id || c.workspace_revision != stamp.workspace_revision
                || c.document_id != stamp.document_id || c.document_revision != stamp.document_revision,
            None => true,
        }) && before.stale_responses < u64::MAX ==> r == Ok::<EventModel, ProtocolError>(
            EventModel::StaleResponse { id },
        ) && after.stale_responses == before.stale_responses + 1 && after.pending.len() + 1
            == before.pending.len(),
        (match current {
            Some(c) => c.workspace_id == stamp.workspace_id && c.workspace_revision == stamp.workspace_revision
                && c.document_id == stamp.document_id && c.document_revision == stamp.document_revision,
            None => false,
        }) ==> r == Ok::<EventModel, ProtocolError>(
            EventModel::Response { id, method: before.pending[i].method, stamp, value },
        ) && after.stale_responses == before.stale_responses,
{
    lemma_pending_index_bounds(before.pending, id);
}

} // verus!
