//! Document identity for the language server and admission of the
//! diagnostics it publishes.
use crate::std_calls::{string_try_reserve_exact, vec_try_reserve_exact};
use crate::text::{decimal, str_eq, usize_to_decimal, utf8_len};
use crate::lsp_json::{decimal_bytes, encode_json_string, json_string_encoding, push_all};
use vstd::prelude::*;
use vstd::string::{StrSliceExecFns, StringExecFns};
use vstd::utf8::encode_utf8;

verus! {

/// Bound on the bytes of a document URI.
pub const MAX_URI_BYTES: usize = 4096;

/// Bound on the bytes of a language identifier.
pub const MAX_LANGUAGE_ID_BYTES: usize = 64;

/// Bound on the bytes of a document sent to the server.
pub const MAX_DOCUMENT_TEXT_BYTES: usize = 8388608;

/// Bound on the wire bytes of one diagnostics notification.
pub const MAX_DIAGNOSTIC_WIRE_BYTES: usize = 1048576;

/// Bound on the diagnostics of one notification.
pub const MAX_DIAGNOSTICS: usize = 256;

/// Bound on the bytes of one diagnostic message.
pub const MAX_DIAGNOSTIC_MESSAGE_BYTES: usize = 4096;

/// Bound on the bytes one notification retains.
pub const MAX_DIAGNOSTIC_RETAINED_BYTES: usize = 262144;

/// Largest line a position may name.
pub const MAX_POSITION_LINE: u32 = 10000000;

/// Largest UTF-16 column a position may name.
pub const MAX_POSITION_UTF16: u32 = 1000000;

/// Why language-protocol input was refused.
#[derive(Clone, Copy, Debug, Eq, PartialEq, Structural)]
pub enum LanguageProtocolError {
    InvalidPath,
    UriTooLong,
    LanguageIdTooLong,
    DocumentTooLarge,
    InvalidVersion,
    InvalidPosition,
    InvalidRange,
    MalformedDiagnostics,
    DiagnosticWireTooLarge,
    TooManyDiagnostics,
    DiagnosticMessageTooLong,
    DiagnosticRetentionExceeded,
    DocumentMismatch,
    StaleDiagnostics,
    AllocationFailed,
}

/// The variant name of an error, as `Debug` writes it.
pub open spec fn protocol_error_name(e: LanguageProtocolError) -> Seq<char> {
    match e {
        LanguageProtocolError::InvalidPath => "InvalidPath"@,
        LanguageProtocolError::UriTooLong => "UriTooLong"@,
        LanguageProtocolError::LanguageIdTooLong => "LanguageIdTooLong"@,
        LanguageProtocolError::DocumentTooLarge => "DocumentTooLarge"@,
        LanguageProtocolError::InvalidVersion => "InvalidVersion"@,
        LanguageProtocolError::InvalidPosition => "InvalidPosition"@,
        LanguageProtocolError::InvalidRange => "InvalidRange"@,
        LanguageProtocolError::MalformedDiagnostics => "MalformedDiagnostics"@,
        LanguageProtocolError::DiagnosticWireTooLarge => "DiagnosticWireTooLarge"@,
        LanguageProtocolError::TooManyDiagnostics => "TooManyDiagnostics"@,
        LanguageProtocolError::DiagnosticMessageTooLong => "DiagnosticMessageTooLong"@,
        LanguageProtocolError::DiagnosticRetentionExceeded => "DiagnosticRetentionExceeded"@,
        LanguageProtocolError::DocumentMismatch => "DocumentMismatch"@,
        LanguageProtocolError::StaleDiagnostics => "StaleDiagnostics"@,
        LanguageProtocolError::AllocationFailed => "AllocationFailed"@,
    }
}

impl LanguageProtocolError {
    /// The variant name, as `Debug` writes it.
    pub fn name(&self) -> (n: &'static str)
        ensures
            n@ == protocol_error_name(*self),
    {
        match self {
            LanguageProtocolError::InvalidPath => "InvalidPath",
            LanguageProtocolError::UriTooLong => "UriTooLong",
            LanguageProtocolError::LanguageIdTooLong => "LanguageIdTooLong",
            LanguageProtocolError::DocumentTooLarge => "DocumentTooLarge",
            LanguageProtocolError::InvalidVersion => "InvalidVersion",
            LanguageProtocolError::InvalidPosition => "InvalidPosition",
            LanguageProtocolError::InvalidRange => "InvalidRange",
            LanguageProtocolError::MalformedDiagnostics => "MalformedDiagnostics",
            LanguageProtocolError::DiagnosticWireTooLarge => "DiagnosticWireTooLarge",
            LanguageProtocolError::TooManyDiagnostics => "TooManyDiagnostics",
            LanguageProtocolError::DiagnosticMessageTooLong => "DiagnosticMessageTooLong",
            LanguageProtocolError::DiagnosticRetentionExceeded => "DiagnosticRetentionExceeded",
            LanguageProtocolError::DocumentMismatch => "DocumentMismatch",
            LanguageProtocolError::StaleDiagnostics => "StaleDiagnostics",
            LanguageProtocolError::AllocationFailed => "AllocationFailed",
        }
    }

    /// A human-readable description that names the variant.
    pub fn message(&self) -> (m: String)
        ensures
            m@ == "local language protocol rejected input: "@ + protocol_error_name(*self),
    {
        let mut m = String::from_str("local language protocol rejected input: ");
        m.append(self.name());
        m
    }
}

/// A zero-based line and UTF-16 column in a document.
#[derive(Clone, Copy, Debug, Eq, PartialEq, Structural)]
pub struct LspPosition {
    pub line: u32,
    pub utf16_character: u32,
}

/// Whether a position is within the protocol's bounds.
pub open spec fn position_valid(line: u32, utf16_character: u32) -> bool {
    line <= MAX_POSITION_LINE && utf16_character <= MAX_POSITION_UTF16
}

impl LspPosition {
    /// The position at `line` and `utf16_character`, refused beyond the
    /// bounds.
    pub fn new(line: u32, utf16_character: u32) -> (r: Result<LspPosition, LanguageProtocolError>)
        ensures
            position_valid(line, utf16_character) ==> r == Ok::<LspPosition, LanguageProtocolError>(
                LspPosition { line, utf16_character },
            ),
            !position_valid(line, utf16_character) ==> r == Err::<LspPosition, LanguageProtocolError>(
                LanguageProtocolError::InvalidPosition,
            ),
    {
        if line > MAX_POSITION_LINE || utf16_character > MAX_POSITION_UTF16 {
            return Err(LanguageProtocolError::InvalidPosition);
        }
        Ok(LspPosition { line, utf16_character })
    }
}

/// Whether `b` stands for itself in a file URI.
pub open spec fn uri_unreserved(b: u8) -> bool {
    (48 <= b <= 57) || (65 <= b <= 90) || (97 <= b <= 122) || b == 45 || b == 46 || b == 95 || b == 126
        || b == 47 || b == 58
}

/// The upper-case hexadecimal digit of `d`.
pub open spec fn hex_digit(d: u8) -> char {
    if d < 10 {
        (48 + d) as char
    } else {
        (55 + d) as char
    }
}

/// The characters that stand for byte `b` in a file URI.
pub open spec fn uri_escape(b: u8) -> Seq<char> {
    if uri_unreserved(b) {
        seq![b as char]
    } else {
        seq!['%', hex_digit(b / 16), hex_digit(b % 16)]
    }
}

/// The percent-encoding of `bytes`.
pub open spec fn uri_encode(bytes: Seq<u8>) -> Seq<char>
    decreases bytes.len(),
{
    if bytes.len() == 0 {
        Seq::empty()
    } else {
        uri_encode(bytes.drop_last()) + uri_escape(bytes.last())
    }
}

/// The `file` URI of an absolute path.
pub open spec fn file_uri_spec(path: Seq<char>) -> Seq<char> {
    "file://"@ + uri_encode(encode_utf8(path))
}

/// The outcome of naming a path, given whether it is absolute and its text
/// when it has one.
pub open spec fn file_uri_outcome(
    absolute: bool,
    path: Option<Seq<char>>,
    r: Result<Seq<char>, LanguageProtocolError>,
) -> bool {
    if !absolute {
        r == Err::<Seq<char>, LanguageProtocolError>(LanguageProtocolError::InvalidPath)
    } else {
        match path {
            None => r == Err::<Seq<char>, LanguageProtocolError>(LanguageProtocolError::InvalidPath),
            Some(text) => if utf8_len(file_uri_spec(text)) > MAX_URI_BYTES {
                r == Err::<Seq<char>, LanguageProtocolError>(LanguageProtocolError::UriTooLong)
            } else {
                r == Ok::<Seq<char>, LanguageProtocolError>(file_uri_spec(text))
            },
        }
    }
}

fn hex_str(d: u8) -> (s: &'static str)
    requires
        d < 16,
    ensures
        s@ == seq![hex_digit(d)],
{
    proof {
        reveal_strlit("0");
        reveal_strlit("1");
        reveal_strlit("2");
        reveal_strlit("3");
        reveal_strlit("4");
        reveal_strlit("5");
        reveal_strlit("6");
        reveal_strlit("7");
        reveal_strlit("8");
        reveal_strlit("9");
        reveal_strlit("A");
        reveal_strlit("B");
        reveal_strlit("C");
        reveal_strlit("D");
        reveal_strlit("E");
        reveal_strlit("F");
    }
    match d {
        0 => "0",
        1 => "1",
        2 => "2",
        3 => "3",
        4 => "4",
        5 => "5",
        6 => "6",
        7 => "7",
        8 => "8",
        9 => "9",
        10 => "A",
        11 => "B",
        12 => "C",
        13 => "D",
        14 => "E",
        _ => "F",
    }
}

fn ascii_str(b: u8) -> (s: String)
    requires
        uri_unreserved(b),
    ensures
        s@ == seq![b as char],
{
    let digits = "0123456789";
    let upper = "ABCDEFGHIJKLMNOPQRSTUVWXYZ";
    let lower = "abcdefghijklmnopqrstuvwxyz";
    proof {
        reveal_strlit("0123456789");
        reveal_strlit("ABCDEFGHIJKLMNOPQRSTUVWXYZ");
        reveal_strlit("abcdefghijklmnopqrstuvwxyz");
        reveal_strlit("-");
        reveal_strlit(".");
        reveal_strlit("_");
        reveal_strlit("~");
        reveal_strlit("/");
        reveal_strlit(":");
    }
    if 48 <= b && b <= 57 {
        let i = (b - 48) as usize;
        String::from_str(digits.substring_char(i, i + 1))
    } else if 65 <= b && b <= 90 {
        let i = (b - 65) as usize;
        String::from_str(upper.substring_char(i, i + 1))
    } else if 97 <= b && b <= 122 {
        let i = (b - 97) as usize;
        String::from_str(lower.substring_char(i, i + 1))
    } else if b == 45 {
        String::from_str("-")
    } else if b == 46 {
        String::from_str(".")
    } else if b == 95 {
        String::from_str("_")
    } else if b == 126 {
        String::from_str("~")
    } else if b == 47 {
        String::from_str("/")
    } else {
        String::from_str(":")
    }
}

/// The `file` URI of a path, given whether the path is absolute and its
/// text when it is valid Unicode; refused for a relative or non-Unicode path
/// and for a URI beyond the bound.
pub fn file_uri(absolute: bool, path: Option<&str>) -> (r: Result<String, LanguageProtocolError>)
    ensures
        file_uri_outcome(
            absolute,
            match path {
                Some(p) => Some(p@),
                None => None,
            },
            match r {
                Ok(u) => Ok(u@),
                Err(e) => Err(e),
            },
        ),
{
    if !absolute {
        return Err(LanguageProtocolError::InvalidPath);
    }
    let text = match path {
        Some(p) => p,
        None => {
            return Err(LanguageProtocolError::InvalidPath);
        },
    };
    let bytes = text.as_bytes();
    let mut uri = String::from_str("file://");
    let mut length: usize = 7;
    proof {
        reveal_strlit("file://");
        reveal_strlit("%");
        assert(bytes@.subrange(0, 0) =~= Seq::<u8>::empty());
        assert(uri@ =~= "file://"@ + uri_encode(bytes@.subrange(0, 0)));
    }
    let mut i: usize = 0;
    while i < bytes.len()
        invariant
            bytes@ == encode_utf8(text@),
            absolute,
            path == Some(text),
            i <= bytes@.len(),
            uri@ == "file://"@ + uri_encode(bytes@.subrange(0, i as int)),
            length == uri@.len(),
            length <= MAX_URI_BYTES,
        decreases bytes@.len() - i,
    {
        proof {
            reveal_strlit("file://");
            reveal_strlit("%");
        }
        let b = bytes[i];
        let ghost before = uri@;
        if 48 <= b && b <= 57 || 65 <= b && b <= 90 || 97 <= b && b <= 122 || b == 45 || b == 46 || b
            == 95 || b == 126 || b == 47 || b == 58 {
            let c = ascii_str(b);
            uri.append(c.as_str());
            length = length + 1;
        } else {
            uri.append("%");
            uri.append(hex_str(b / 16));
            uri.append(hex_str(b % 16));
            length = length + 3;
        }
        assert(bytes@.subrange(0, i + 1).drop_last() =~= bytes@.subrange(0, i as int));
        assert(uri@ =~= before + uri_escape(b));
        assert(uri_encode(bytes@.subrange(0, i + 1)) == uri_encode(bytes@.subrange(0, i as int))
            + uri_escape(b));
        assert(uri@ =~= "file://"@ + uri_encode(bytes@.subrange(0, i + 1)));
        i += 1;
        if length > MAX_URI_BYTES {
            proof {
                lemma_uri_encode_prefix_len(bytes@, i as int);
                lemma_file_uri_len(text@);
                assert(uri@.len() == 7 + uri_encode(bytes@.subrange(0, i as int)).len());
                assert(utf8_len(file_uri_spec(text@)) >= length);
                assert(utf8_len(file_uri_spec(text@)) > MAX_URI_BYTES);
            }
            return Err(LanguageProtocolError::UriTooLong);
        }
    }
    proof {
        assert(bytes@.subrange(0, bytes@.len() as int) =~= bytes@);
        lemma_file_uri_len(text@);
    }
    Ok(uri)
}

proof fn lemma_uri_encode_ascii(bytes: Seq<u8>)
    ensures
        vstd::utf8::is_ascii_chars(uri_encode(bytes)),
    decreases bytes.len(),
{
    if bytes.len() > 0 {
        lemma_uri_encode_ascii(bytes.drop_last());
        let head = uri_encode(bytes.drop_last());
        let tail = uri_escape(bytes.last());
        assert(vstd::utf8::is_ascii_chars(tail));
        assert forall|i: int| 0 <= i < (head + tail).len() implies '\0' <= #[trigger] (head + tail)[i]
            <= '\u{7f}' by {
            if i < head.len() {
                assert((head + tail)[i] == head[i]);
            } else {
                assert((head + tail)[i] == tail[i - head.len()]);
            }
        }
    }
}

proof fn lemma_file_uri_len(path: Seq<char>)
    ensures
        utf8_len(file_uri_spec(path)) == 7 + uri_encode(encode_utf8(path)).len(),
{
    reveal_strlit("file://");
    let x = uri_encode(encode_utf8(path));
    lemma_uri_encode_ascii(encode_utf8(path));
    let s = file_uri_spec(path);
    assert forall|i: int| 0 <= i < s.len() implies '\0' <= #[trigger] s[i] <= '\u{7f}' by {
        if i >= 7 {
            assert(s[i] == x[i - 7]);
        }
    }
    vstd::utf8::is_ascii_chars_encode_utf8(s);
}

proof fn lemma_uri_encode_prefix_len(bytes: Seq<u8>, i: int)
    requires
        0 <= i <= bytes.len(),
    ensures
        uri_encode(bytes).len() >= uri_encode(bytes.subrange(0, i)).len(),
    decreases bytes.len() - i,
{
    if i < bytes.len() {
        lemma_uri_encode_prefix_len(bytes, i + 1);
        assert(bytes.subrange(0, i + 1).drop_last() =~= bytes.subrange(0, i));
    } else {
        assert(bytes.subrange(0, i) =~= bytes);
    }
}

/// A document the language server knows: its URI, language and version.
pub struct LspDocument {
    uri: String,
    language_id: String,
    version: i32,
}

/// What a document identity holds, as values.
pub struct DocumentModel {
    pub uri: Seq<char>,
    pub language_id: Seq<char>,
    pub version: i32,
}

impl View for LspDocument {
    type V = DocumentModel;

    closed spec fn view(&self) -> DocumentModel {
        DocumentModel { uri: self.uri@, language_id: self.language_id@, version: self.version }
    }
}

/// The outcome of naming a document: refused for an empty or oversized URI
/// or language, or a negative version.
pub open spec fn document_outcome(
    uri: Seq<char>,
    language_id: Seq<char>,
    version: i32,
    r: Result<DocumentModel, LanguageProtocolError>,
) -> bool {
    if uri.len() == 0 || utf8_len(uri) > MAX_URI_BYTES {
        r == Err::<DocumentModel, LanguageProtocolError>(LanguageProtocolError::UriTooLong)
    } else if language_id.len() == 0 || utf8_len(language_id) > MAX_LANGUAGE_ID_BYTES {
        r == Err::<DocumentModel, LanguageProtocolError>(LanguageProtocolError::LanguageIdTooLong)
    } else if version < 0 {
        r == Err::<DocumentModel, LanguageProtocolError>(LanguageProtocolError::InvalidVersion)
    } else {
        r == Ok::<DocumentModel, LanguageProtocolError>(DocumentModel { uri, language_id, version })
    }
}

/// The view of a named document.
pub open spec fn document_view(r: Result<LspDocument, LanguageProtocolError>) -> Result<
    DocumentModel,
    LanguageProtocolError,
> {
    match r {
        Ok(d) => Ok(d@),
        Err(e) => Err(e),
    }
}

proof fn lemma_utf8_len_zero(s: Seq<char>)
    ensures
        (s.len() == 0) == (utf8_len(s) == 0),
{
    if s.len() > 0 {
        assert(s =~= seq![s[0]] + s.drop_first());
        crate::text::lemma_encode_concat(seq![s[0]], s.drop_first());
        vstd::utf8::encode_utf8_first_scalar(s);
    }
}

/// The parameters of `textDocument/didOpen` for document `d` with `text`,
/// as `serde_json` writes them: members in name order, strings encoded as
/// JSON strings.
pub open spec fn did_open_json(d: DocumentModel, text: Seq<char>) -> Seq<u8> {
    encode_utf8("{\"textDocument\":{\"languageId\":"@) + json_string_encoding(d.language_id) + encode_utf8(
        ",\"text\":"@,
    ) + json_string_encoding(text) + encode_utf8(",\"uri\":"@) + json_string_encoding(d.uri) + encode_utf8(
        ",\"version\":"@,
    ) + decimal_bytes(d.version as nat) + encode_utf8("}}"@)
}

/// The parameters naming document `d` at `position`.
pub open spec fn position_json(d: DocumentModel, position: LspPosition) -> Seq<u8> {
    encode_utf8("{\"position\":{\"character\":"@) + decimal_bytes(position.utf16_character as nat) + encode_utf8(
        ",\"line\":"@,
    ) + decimal_bytes(position.line as nat) + encode_utf8("},\"textDocument\":{\"uri\":"@)
        + json_string_encoding(d.uri) + encode_utf8("}}"@)
}

/// The parameters naming document `d`.
pub open spec fn text_document_json(d: DocumentModel) -> Seq<u8> {
    encode_utf8("{\"textDocument\":{\"uri\":"@) + json_string_encoding(d.uri) + encode_utf8("}}"@)
}

/// The parameters of `initialize` for a workspace at `uri` named `name`:
/// the client, its UTF-16 positions and versioned diagnostics, the root
/// and the one workspace folder.
pub open spec fn initialize_json(uri: Seq<char>, name: Seq<char>) -> Seq<u8> {
    encode_utf8(
        "{\"capabilities\":{\"general\":{\"positionEncodings\":[\"utf-16\"]},\"textDocument\":{\"publishDiagnostics\":{\"versionSupport\":true}}},\"clientInfo\":{\"name\":\"Alpine Studio\",\"version\":\"0.0.0\"},\"processId\":null,\"rootUri\":"@,
    ) + json_string_encoding(uri) + encode_utf8(",\"workspaceFolders\":[{\"name\":"@) + json_string_encoding(name)
        + encode_utf8(",\"uri\":"@) + json_string_encoding(uri) + encode_utf8("}]}"@)
}

/// The parameters of `initialize` for a workspace, given whether its path
/// is absolute, the path's text and its last component's text when they
/// are valid Unicode: refused as `file_uri` refuses the path, for a
/// workspace without a named last component.
pub fn initialize_params(absolute: bool, path: Option<&str>, name: Option<&str>) -> (r: Result<
    Vec<u8>,
    LanguageProtocolError,
>)
    ensures
        ({
            let text = match path {
                Some(p) => Some(p@),
                None => None,
            };
            if !absolute || text is None {
                r == Err::<Vec<u8>, LanguageProtocolError>(LanguageProtocolError::InvalidPath)
            } else if utf8_len(file_uri_spec(text->0)) > MAX_URI_BYTES {
                r == Err::<Vec<u8>, LanguageProtocolError>(LanguageProtocolError::UriTooLong)
            } else if name is None {
                r == Err::<Vec<u8>, LanguageProtocolError>(LanguageProtocolError::InvalidPath)
            } else {
                r matches Ok(b) && b@ == initialize_json(file_uri_spec(text->0), name->0@)
            }
        }),
{
    let uri = file_uri(absolute, path)?;
    let name = match name {
        Some(n) => n,
        None => return Err(LanguageProtocolError::InvalidPath),
    };
    let mut out: Vec<u8> = Vec::new();
    push_all(
        &mut out,
        "{\"capabilities\":{\"general\":{\"positionEncodings\":[\"utf-16\"]},\"textDocument\":{\"publishDiagnostics\":{\"versionSupport\":true}}},\"clientInfo\":{\"name\":\"Alpine Studio\",\"version\":\"0.0.0\"},\"processId\":null,\"rootUri\":".as_bytes(),
    );
    push_json_string(&mut out, uri.as_str())?;
    push_all(&mut out, ",\"workspaceFolders\":[{\"name\":".as_bytes());
    push_json_string(&mut out, name)?;
    push_all(&mut out, ",\"uri\":".as_bytes());
    push_json_string(&mut out, uri.as_str())?;
    push_all(&mut out, "}]}".as_bytes());
    proof {
        assert(out@ =~= initialize_json(uri@, name@));
    }
    Ok(out)
}

/// Appends `text` as a JSON string.
fn push_json_string(out: &mut Vec<u8>, text: &str) -> (r: Result<(), LanguageProtocolError>)
    ensures
        r is Ok,
        final(out)@ == old(out)@ + json_string_encoding(text@),
{
    match encode_json_string(text) {
        Some(bytes) => {
            push_all(out, bytes.as_slice());
            Ok(())
        },
        None => Err(LanguageProtocolError::AllocationFailed),
    }
}

fn push_decimal(out: &mut Vec<u8>, n: usize)
    ensures
        final(out)@ == old(out)@ + decimal_bytes(n as nat),
{
    let digits = usize_to_decimal(n);
    push_all(out, digits.as_str().as_bytes());
}

impl LspDocument {
    #[verifier::type_invariant]
    spec fn version_not_negative(self) -> bool {
        self.version >= 0
    }

    /// The document at `uri` in `language_id` at `version`.
    pub fn new(uri: &str, language_id: &str, version: i32) -> (r: Result<LspDocument, LanguageProtocolError>)
        ensures
            document_outcome(uri@, language_id@, version, document_view(r)),
    {
        proof {
            lemma_utf8_len_zero(uri@);
            lemma_utf8_len_zero(language_id@);
        }
        let uri_bytes = uri.as_bytes().len();
        if uri_bytes == 0 || uri_bytes > MAX_URI_BYTES {
            return Err(LanguageProtocolError::UriTooLong);
        }
        let language_bytes = language_id.as_bytes().len();
        if language_bytes == 0 || language_bytes > MAX_LANGUAGE_ID_BYTES {
            return Err(LanguageProtocolError::LanguageIdTooLong);
        }
        if version < 0 {
            return Err(LanguageProtocolError::InvalidVersion);
        }
        Ok(LspDocument { uri: String::from_str(uri), language_id: String::from_str(language_id), version })
    }

    /// The document of a file, given whether its path is absolute and its
    /// text when it is valid Unicode.
    pub fn from_file_path(absolute: bool, path: Option<&str>, language_id: &str, version: i32) -> (r:
        Result<LspDocument, LanguageProtocolError>)
        ensures
            ({
                let text = match path {
                    Some(p) => Some(p@),
                    None => None,
                };
                if !absolute || text is None {
                    r matches Err(e) && e == LanguageProtocolError::InvalidPath
                } else if utf8_len(file_uri_spec(text->0)) > MAX_URI_BYTES {
                    r matches Err(e) && e == LanguageProtocolError::UriTooLong
                } else {
                    document_outcome(file_uri_spec(text->0), language_id@, version, document_view(r))
                }
            }),
    {
        let uri = file_uri(absolute, path)?;
        Self::new(uri.as_str(), language_id, version)
    }

    /// The URI.
    pub fn uri(&self) -> (u: &str)
        ensures
            u@ == self@.uri,
    {
        self.uri.as_str()
    }

    /// The language identifier.
    pub fn language_id(&self) -> (l: &str)
        ensures
            l@ == self@.language_id,
    {
        self.language_id.as_str()
    }

    /// The version.
    pub fn version(&self) -> (v: i32)
        ensures
            v == self@.version,
    {
        self.version
    }

    /// The parameters of `textDocument/didOpen` with `text`, as JSON bytes;
    /// refused for text past the document ceiling.
    pub fn did_open_params(&self, text: &str) -> (r: Result<Vec<u8>, LanguageProtocolError>)
        ensures
            utf8_len(text@) > MAX_DOCUMENT_TEXT_BYTES <==> r == Err::<Vec<u8>, LanguageProtocolError>(
                LanguageProtocolError::DocumentTooLarge,
            ),
            utf8_len(text@) <= MAX_DOCUMENT_TEXT_BYTES ==> (r matches Ok(b) && b@ == did_open_json(
                self@,
                text@,
            )),
    {
        proof {
            use_type_invariant(self);
        }
        if text.as_bytes().len() > MAX_DOCUMENT_TEXT_BYTES {
            return Err(LanguageProtocolError::DocumentTooLarge);
        }
        let mut out: Vec<u8> = Vec::new();
        push_all(&mut out, "{\"textDocument\":{\"languageId\":".as_bytes());
        push_json_string(&mut out, self.language_id.as_str())?;
        push_all(&mut out, ",\"text\":".as_bytes());
        push_json_string(&mut out, text)?;
        push_all(&mut out, ",\"uri\":".as_bytes());
        push_json_string(&mut out, self.uri.as_str())?;
        push_all(&mut out, ",\"version\":".as_bytes());
        push_decimal(&mut out, self.version as usize);
        push_all(&mut out, "}}".as_bytes());
        proof {
            assert(out@ =~= did_open_json(self@, text@));
        }
        Ok(out)
    }

    /// The parameters naming this document at `position`, as JSON bytes.
    pub fn position_params(&self, position: LspPosition) -> (r: Result<Vec<u8>, LanguageProtocolError>)
        ensures
            r matches Ok(b) && b@ == position_json(self@, position),
    {
        let mut out: Vec<u8> = Vec::new();
        push_all(&mut out, "{\"position\":{\"character\":".as_bytes());
        push_decimal(&mut out, position.utf16_character as usize);
        push_all(&mut out, ",\"line\":".as_bytes());
        push_decimal(&mut out, position.line as usize);
        push_all(&mut out, "},\"textDocument\":{\"uri\":".as_bytes());
        push_json_string(&mut out, self.uri.as_str())?;
        push_all(&mut out, "}}".as_bytes());
        proof {
            assert(out@ =~= position_json(self@, position));
        }
        Ok(out)
    }

    /// The parameters naming this document, as JSON bytes.
    pub fn text_document_params(&self) -> (r: Result<Vec<u8>, LanguageProtocolError>)
        ensures
            r matches Ok(b) && b@ == text_document_json(self@),
    {
        let mut out: Vec<u8> = Vec::new();
        push_all(&mut out, "{\"textDocument\":{\"uri\":".as_bytes());
        push_json_string(&mut out, self.uri.as_str())?;
        push_all(&mut out, "}}".as_bytes());
        proof {
            assert(out@ =~= text_document_json(self@));
        }
        Ok(out)
    }

    /// Checks that `text` may be sent to the server as this document's
    /// contents.
    pub fn check_document_text(&self, text: &str) -> (r: Result<(), LanguageProtocolError>)
        ensures
            r is Ok <==> utf8_len(text@) <= MAX_DOCUMENT_TEXT_BYTES,
            r matches Err(e) ==> e == LanguageProtocolError::DocumentTooLarge,
    {
        if text.as_bytes().len() > MAX_DOCUMENT_TEXT_BYTES {
            Err(LanguageProtocolError::DocumentTooLarge)
        } else {
            Ok(())
        }
    }
}

/// A JSON number, by the integers it can be read as.
#[derive(Clone, Copy, Debug, Eq, PartialEq, Structural)]
pub struct JsonNumber {
    /// The number as an unsigned 64-bit integer, when it is one.
    pub unsigned: Option<u64>,
    /// The number as a signed 64-bit integer, when it is one.
    pub signed: Option<i64>,
}

/// A parsed JSON value.
#[derive(Debug)]
pub enum JsonValue {
    Null,
    Bool(bool),
    Number(JsonNumber),
    Str(String),
    Array(Vec<JsonValue>),
    /// An object: its members' keys and, at the same positions, their
    /// values, in order.
    Object(Vec<String>, Vec<JsonValue>),
}

/// The value of the first member of `members` named `key`.
pub open spec fn member(keys: Seq<String>, values: Seq<JsonValue>, key: Seq<char>) -> Option<JsonValue>
    decreases keys.len(),
{
    if keys.len() == 0 || values.len() == 0 {
        None
    } else if keys[0]@ == key {
        Some(values[0])
    } else {
        member(keys.drop_first(), values.drop_first(), key)
    }
}

fn get_member<'a>(keys: &'a Vec<String>, values: &'a Vec<JsonValue>, key: &str) -> (r: Option<
    &'a JsonValue,
>)
    ensures
        match r {
            Some(v) => member(keys@, values@, key@) == Some(*v),
            None => member(keys@, values@, key@) is None,
        },
{
    let mut i: usize = 0;
    assert(keys@.subrange(0, keys@.len() as int) =~= keys@);
    assert(values@.subrange(0, values@.len() as int) =~= values@);
    while i < keys.len() && i < values.len()
        invariant
            i <= keys@.len(),
            i <= values@.len(),
            member(keys@, values@, key@) == member(
                keys@.subrange(i as int, keys@.len() as int),
                values@.subrange(i as int, values@.len() as int),
                key@,
            ),
        decreases keys@.len() - i,
    {
        let ghost ks = keys@.subrange(i as int, keys@.len() as int);
        let ghost vs = values@.subrange(i as int, values@.len() as int);
        if str_eq(keys[i].as_str(), key) {
            assert(ks[0] == keys@[i as int]);
            assert(vs[0] == values@[i as int]);
            return Some(&values[i]);
        }
        assert(ks.drop_first() =~= keys@.subrange(i + 1, keys@.len() as int));
        assert(vs.drop_first() =~= values@.subrange(i + 1, values@.len() as int));
        i += 1;
    }
    proof {
        let ks = keys@.subrange(i as int, keys@.len() as int);
        let vs = values@.subrange(i as int, values@.len() as int);
        assert(ks.len() == 0 || vs.len() == 0);
    }
    None
}

/// The unsigned integer `v` holds, when it holds one.
pub open spec fn as_u64(v: Option<JsonValue>) -> Option<u64> {
    match v {
        Some(JsonValue::Number(n)) => n.unsigned,
        _ => None,
    }
}

fn as_u64_exec(v: Option<&JsonValue>) -> (r: Option<u64>)
    ensures
        r == as_u64(
            match v {
                Some(x) => Some(*x),
                None => None,
            },
        ),
{
    match v {
        Some(JsonValue::Number(n)) => n.unsigned,
        _ => None,
    }
}

/// The position `v` describes.
pub open spec fn position_of(v: JsonValue) -> Result<LspPosition, LanguageProtocolError> {
    match v {
        JsonValue::Object(k, v) => {
            let line = as_u64(member(k@, v@, "line"@));
            let character = as_u64(member(k@, v@, "character"@));
            if line is None || line->0 > u32::MAX {
                Err(LanguageProtocolError::InvalidPosition)
            } else if character is None || character->0 > u32::MAX {
                Err(LanguageProtocolError::InvalidPosition)
            } else if position_valid(line->0 as u32, character->0 as u32) {
                Ok(LspPosition { line: line->0 as u32, utf16_character: character->0 as u32 })
            } else {
                Err(LanguageProtocolError::InvalidPosition)
            }
        },
        _ => Err(LanguageProtocolError::MalformedDiagnostics),
    }
}

fn parse_position(v: &JsonValue) -> (r: Result<LspPosition, LanguageProtocolError>)
    ensures
        r == position_of(*v),
{
    let (k, m) = match v {
        JsonValue::Object(k, m) => (k, m),
        _ => {
            return Err(LanguageProtocolError::MalformedDiagnostics);
        },
    };
    let line = match as_u64_exec(get_member(k, m, "line")) {
        Some(n) => n,
        None => {
            return Err(LanguageProtocolError::InvalidPosition);
        },
    };
    if line > 4294967295 {
        return Err(LanguageProtocolError::InvalidPosition);
    }
    let character = match as_u64_exec(get_member(k, m, "character")) {
        Some(n) => n,
        None => {
            return Err(LanguageProtocolError::InvalidPosition);
        },
    };
    if character > 4294967295 {
        return Err(LanguageProtocolError::InvalidPosition);
    }
    LspPosition::new(line as u32, character as u32)
}

/// The span a diagnostic covers.
#[derive(Clone, Copy, Debug, Eq, PartialEq, Structural)]
pub struct DiagnosticRange {
    pub start: LspPosition,
    pub end: LspPosition,
}

/// Whether position `a` comes before `b`.
pub open spec fn position_before(a: LspPosition, b: LspPosition) -> bool {
    a.line < b.line || (a.line == b.line && a.utf16_character < b.utf16_character)
}

/// The range `v` describes.
pub open spec fn range_of(v: JsonValue) -> Result<DiagnosticRange, LanguageProtocolError> {
    match v {
        JsonValue::Object(k, v) => match member(k@, v@, "start"@) {
            None => Err(LanguageProtocolError::MalformedDiagnostics),
            Some(sv) => match position_of(sv) {
                Err(e) => Err(e),
                Ok(start) => match member(k@, v@, "end"@) {
                    None => Err(LanguageProtocolError::MalformedDiagnostics),
                    Some(ev) => match position_of(ev) {
                        Err(e) => Err(e),
                        Ok(end) => if position_before(end, start) {
                            Err(LanguageProtocolError::InvalidRange)
                        } else {
                            Ok(DiagnosticRange { start, end })
                        },
                    },
                },
            },
        },
        _ => Err(LanguageProtocolError::MalformedDiagnostics),
    }
}

fn parse_range(v: &JsonValue) -> (r: Result<DiagnosticRange, LanguageProtocolError>)
    ensures
        r == range_of(*v),
{
    let (k, m) = match v {
        JsonValue::Object(k, m) => (k, m),
        _ => {
            return Err(LanguageProtocolError::MalformedDiagnostics);
        },
    };
    let start_value = match get_member(k, m, "start") {
        Some(x) => x,
        None => {
            return Err(LanguageProtocolError::MalformedDiagnostics);
        },
    };
    let start = parse_position(start_value)?;
    let end_value = match get_member(k, m, "end") {
        Some(x) => x,
        None => {
            return Err(LanguageProtocolError::MalformedDiagnostics);
        },
    };
    let end = parse_position(end_value)?;
    if end.line < start.line || (end.line == start.line && end.utf16_character < start.utf16_character) {
        return Err(LanguageProtocolError::InvalidRange);
    }
    Ok(DiagnosticRange { start, end })
}

/// One admitted diagnostic.
pub struct Diagnostic {
    pub range: DiagnosticRange,
    pub severity: Option<u8>,
    pub message: String,
}

/// What a diagnostic holds, as values.
pub struct DiagnosticModel {
    pub range: DiagnosticRange,
    pub severity: Option<u8>,
    pub message: Seq<char>,
}

impl View for Diagnostic {
    type V = DiagnosticModel;

    open spec fn view(&self) -> DiagnosticModel {
        DiagnosticModel { range: self.range, severity: self.severity, message: self.message@ }
    }
}

/// Bytes that one retained diagnostic record occupies.
pub open spec fn diagnostic_record_bytes() -> nat {
    vstd::layout::size_of::<Diagnostic>()
}

/// Bytes that one retained diagnostic record occupies.
pub fn diagnostic_record_size() -> (n: usize)
    ensures
        n == diagnostic_record_bytes(),
{
    core::mem::size_of::<Diagnostic>()
}

/// The string `v` holds, when it is one.
pub open spec fn as_text(v: Option<JsonValue>) -> Option<Seq<char>> {
    match v {
        Some(JsonValue::Str(s)) => Some(s@),
        _ => None,
    }
}

/// The severity `v` gives, when it is absent or a small enough integer.
pub open spec fn severity_of(v: Option<JsonValue>) -> Result<Option<u8>, LanguageProtocolError> {
    match v {
        None => Ok(None),
        Some(x) => match as_u64(Some(x)) {
            Some(n) => if n <= 255 {
                Ok(Some(n as u8))
            } else {
                Err(LanguageProtocolError::MalformedDiagnostics)
            },
            None => Err(LanguageProtocolError::MalformedDiagnostics),
        },
    }
}

/// The diagnostic `item` describes and the bytes retained after it, given
/// `retained` bytes before it.
pub open spec fn item_outcome(item: JsonValue, retained: int) -> Result<(DiagnosticModel, int), LanguageProtocolError> {
    match item {
        JsonValue::Object(k, v) => match member(k@, v@, "range"@) {
            None => Err(LanguageProtocolError::MalformedDiagnostics),
            Some(rv) => match range_of(rv) {
                Err(e) => Err(e),
                Ok(range) => match as_text(member(k@, v@, "message"@)) {
                    None => Err(LanguageProtocolError::MalformedDiagnostics),
                    Some(message) => if utf8_len(message) > MAX_DIAGNOSTIC_MESSAGE_BYTES {
                        Err(LanguageProtocolError::DiagnosticMessageTooLong)
                    } else if retained + utf8_len(message) > MAX_DIAGNOSTIC_RETAINED_BYTES {
                        Err(LanguageProtocolError::DiagnosticRetentionExceeded)
                    } else {
                        match severity_of(member(k@, v@, "severity"@)) {
                            Err(e) => Err(e),
                            Ok(severity) => Ok(
                                (
                                    DiagnosticModel { range, severity, message },
                                    retained + utf8_len(message),
                                ),
                            ),
                        }
                    },
                },
            },
        },
        _ => Err(LanguageProtocolError::MalformedDiagnostics),
    }
}

/// The diagnostics `items[i..]` describe and the bytes retained after them.
pub open spec fn items_from(items: Seq<JsonValue>, i: int, retained: int) -> Result<
    (Seq<DiagnosticModel>, int),
    LanguageProtocolError,
>
    decreases items.len() - i,
{
    if i < 0 || i >= items.len() {
        Ok((Seq::empty(), retained))
    } else {
        match item_outcome(items[i], retained) {
            Err(e) => Err(e),
            Ok((d, next)) => match items_from(items, i + 1, next) {
                Err(e) => Err(e),
                Ok((ds, last)) => Ok((seq![d] + ds, last)),
            },
        }
    }
}

/// `done` put in front of the diagnostics of `rest`.
pub open spec fn prepend(
    done: Seq<DiagnosticModel>,
    rest: Result<(Seq<DiagnosticModel>, int), LanguageProtocolError>,
) -> Result<(Seq<DiagnosticModel>, int), LanguageProtocolError> {
    match rest {
        Err(e) => Err(e),
        Ok((ds, last)) => Ok((done + ds, last)),
    }
}

/// A batch of diagnostics for one document version.
pub struct DiagnosticBatch {
    uri: String,
    document_version: Option<i32>,
    diagnostics: Vec<Diagnostic>,
    retained_bytes: usize,
}

/// What a batch holds, as values.
#[verifier::ext_equal]
pub struct BatchModel {
    pub uri: Seq<char>,
    pub document_version: Option<i32>,
    pub diagnostics: Seq<DiagnosticModel>,
    pub retained_bytes: usize,
}

impl View for DiagnosticBatch {
    type V = BatchModel;

    closed spec fn view(&self) -> BatchModel {
        BatchModel {
            uri: self.uri@,
            document_version: self.document_version,
            diagnostics: self.diagnostics@.map_values(|d: Diagnostic| d@),
            retained_bytes: self.retained_bytes,
        }
    }
}

/// The version a notification names: absent or null for none.
pub open spec fn version_of(v: Option<JsonValue>) -> Result<Option<i32>, LanguageProtocolError> {
    match v {
        None => Ok(None),
        Some(JsonValue::Null) => Ok(None),
        Some(JsonValue::Number(n)) => match n.signed {
            Some(x) => if i32::MIN <= x <= i32::MAX {
                Ok(Some(x as i32))
            } else {
                Err(LanguageProtocolError::InvalidVersion)
            },
            None => Err(LanguageProtocolError::InvalidVersion),
        },
        Some(_) => Err(LanguageProtocolError::InvalidVersion),
    }
}

/// The outcome of receiving a diagnostics notification of `wire` bytes,
/// parsed to `params` (none when it is not JSON), for `expected`: each
/// refusal in the order the checks run, else the batch, unless allocation
/// failed.
pub open spec fn batch_outcome(
    wire: usize,
    params: Option<JsonValue>,
    expected: DocumentModel,
    r: Result<BatchModel, LanguageProtocolError>,
) -> bool {
    if wire > MAX_DIAGNOSTIC_WIRE_BYTES {
        r == Err::<BatchModel, LanguageProtocolError>(LanguageProtocolError::DiagnosticWireTooLarge)
    } else {
        match params {
            Some(JsonValue::Object(k, v)) => match as_text(member(k@, v@, "uri"@)) {
                None => r == Err::<BatchModel, LanguageProtocolError>(
                    LanguageProtocolError::MalformedDiagnostics,
                ),
                Some(uri) => if uri != expected.uri {
                    r == Err::<BatchModel, LanguageProtocolError>(LanguageProtocolError::DocumentMismatch)
                } else {
                    match version_of(member(k@, v@, "version"@)) {
                        Err(e) => r == Err::<BatchModel, LanguageProtocolError>(e),
                        Ok(version) => if version matches Some(x) && x != expected.version {
                            r == Err::<BatchModel, LanguageProtocolError>(
                                LanguageProtocolError::StaleDiagnostics,
                            )
                        } else {
                            match member(k@, v@, "diagnostics"@) {
                                Some(JsonValue::Array(items)) => if items@.len() > MAX_DIAGNOSTICS {
                                    r == Err::<BatchModel, LanguageProtocolError>(
                                        LanguageProtocolError::TooManyDiagnostics,
                                    )
                                } else {
                                    let fixed = utf8_len(uri) + items@.len() * diagnostic_record_bytes();
                                    ||| r == Err::<BatchModel, LanguageProtocolError>(
                                        LanguageProtocolError::AllocationFailed,
                                    )
                                    ||| if fixed > usize::MAX {
                                        r == Err::<BatchModel, LanguageProtocolError>(
                                            LanguageProtocolError::DiagnosticRetentionExceeded,
                                        )
                                    } else {
                                        match items_from(items@, 0, fixed as int) {
                                            Err(e) => r == Err::<BatchModel, LanguageProtocolError>(e),
                                            Ok((ds, last)) => r == Ok::<
                                                BatchModel,
                                                LanguageProtocolError,
                                            >(
                                                BatchModel {
                                                    uri,
                                                    document_version: version,
                                                    diagnostics: ds,
                                                    retained_bytes: last as usize,
                                                },
                                            ),
                                        }
                                    }
                                },
                                _ => r == Err::<BatchModel, LanguageProtocolError>(
                                    LanguageProtocolError::MalformedDiagnostics,
                                ),
                            }
                        },
                    }
                },
            },
            _ => r == Err::<BatchModel, LanguageProtocolError>(
                LanguageProtocolError::MalformedDiagnostics,
            ),
        }
    }
}

fn as_text_exec(v: Option<&JsonValue>) -> (r: Option<&str>)
    ensures
        match r {
            Some(t) => as_text(
                match v {
                    Some(x) => Some(*x),
                    None => None,
                },
            ) == Some(t@),
            None => as_text(
                match v {
                    Some(x) => Some(*x),
                    None => None,
                },
            ) is None,
        },
{
    match v {
        Some(JsonValue::Str(s)) => Some(s.as_str()),
        _ => None,
    }
}

fn version_exec(v: Option<&JsonValue>) -> (r: Result<Option<i32>, LanguageProtocolError>)
    ensures
        r == version_of(
            match v {
                Some(x) => Some(*x),
                None => None,
            },
        ),
{
    match v {
        None => Ok(None),
        Some(JsonValue::Null) => Ok(None),
        Some(JsonValue::Number(n)) => match n.signed {
            Some(x) => if -2147483648 <= x && x <= 2147483647 {
                Ok(Some(x as i32))
            } else {
                Err(LanguageProtocolError::InvalidVersion)
            },
            None => Err(LanguageProtocolError::InvalidVersion),
        },
        Some(_) => Err(LanguageProtocolError::InvalidVersion),
    }
}

fn parse_item(item: &JsonValue, retained: usize) -> (r: Result<(Diagnostic, usize), LanguageProtocolError>)
    ensures
        match r {
            Ok((d, next)) => item_outcome(*item, retained as int) == Ok::<
                (DiagnosticModel, int),
                LanguageProtocolError,
            >((d@, next as int)),
            Err(e) => item_outcome(*item, retained as int) == Err::<
                (DiagnosticModel, int),
                LanguageProtocolError,
            >(e),
        },
{
    let (k, m) = match item {
        JsonValue::Object(k, m) => (k, m),
        _ => {
            return Err(LanguageProtocolError::MalformedDiagnostics);
        },
    };
    let range_value = match get_member(k, m, "range") {
        Some(x) => x,
        None => {
            return Err(LanguageProtocolError::MalformedDiagnostics);
        },
    };
    let range = parse_range(range_value)?;
    let message = match as_text_exec(get_member(k, m, "message")) {
        Some(t) => t,
        None => {
            return Err(LanguageProtocolError::MalformedDiagnostics);
        },
    };
    let length = message.as_bytes().len();
    if length > MAX_DIAGNOSTIC_MESSAGE_BYTES {
        return Err(LanguageProtocolError::DiagnosticMessageTooLong);
    }
    if retained > MAX_DIAGNOSTIC_RETAINED_BYTES - length {
        return Err(LanguageProtocolError::DiagnosticRetentionExceeded);
    }
    let next = retained + length;
    let severity = match get_member(k, m, "severity") {
        None => None,
        Some(x) => match as_u64_exec(Some(x)) {
            Some(n) => if n <= 255 {
                Some(n as u8)
            } else {
                return Err(LanguageProtocolError::MalformedDiagnostics);
            },
            None => {
                return Err(LanguageProtocolError::MalformedDiagnostics);
            },
        },
    };
    Ok((Diagnostic { range, severity, message: String::from_str(message) }, next))
}

impl DiagnosticBatch {
    /// Receives a diagnostics notification of `wire_bytes` bytes, parsed to
    /// `params` (none when it was not JSON), for document `expected`.
    pub fn receive(wire_bytes: usize, params: Option<&JsonValue>, expected: &LspDocument) -> (r: Result<
        DiagnosticBatch,
        LanguageProtocolError,
    >)
        ensures
            batch_outcome(
                wire_bytes,
                match params {
                    Some(p) => Some(*p),
                    None => None,
                },
                expected@,
                match r {
                    Ok(b) => Ok(b@),
                    Err(e) => Err(e),
                },
            ),
    {
        if wire_bytes > MAX_DIAGNOSTIC_WIRE_BYTES {
            return Err(LanguageProtocolError::DiagnosticWireTooLarge);
        }
        let (k, m) = match params {
            Some(JsonValue::Object(k, m)) => (k, m),
            _ => {
                return Err(LanguageProtocolError::MalformedDiagnostics);
            },
        };
        let uri = match as_text_exec(get_member(k, m, "uri")) {
            Some(t) => t,
            None => {
                return Err(LanguageProtocolError::MalformedDiagnostics);
            },
        };
        if !str_eq(uri, expected.uri.as_str()) {
            return Err(LanguageProtocolError::DocumentMismatch);
        }
        let document_version = version_exec(get_member(k, m, "version"))?;
        match document_version {
            Some(x) => {
                if x != expected.version {
                    return Err(LanguageProtocolError::StaleDiagnostics);
                }
            },
            None => {},
        }
        let items = match get_member(k, m, "diagnostics") {
            Some(JsonValue::Array(items)) => items,
            _ => {
                return Err(LanguageProtocolError::MalformedDiagnostics);
            },
        };
        if items.len() > MAX_DIAGNOSTICS {
            return Err(LanguageProtocolError::TooManyDiagnostics);
        }
        let mut diagnostics: Vec<Diagnostic> = Vec::new();
        if vec_try_reserve_exact(&mut diagnostics, items.len()).is_err() {
            return Err(LanguageProtocolError::AllocationFailed);
        }
        let records = match items.len().checked_mul(diagnostic_record_size()) {
            Some(n) => n,
            None => {
                return Err(LanguageProtocolError::DiagnosticRetentionExceeded);
            },
        };
        let uri_bytes = uri.as_bytes().len();
        if uri_bytes > usize::MAX - records {
            return Err(LanguageProtocolError::DiagnosticRetentionExceeded);
        }
        let mut retained = uri_bytes + records;
        let ghost fixed = retained as int;
        let ghost pv = match params {
            Some(p) => Some(*p),
            None => None,
        };
        assert forall|e: LanguageProtocolError| items_from(items@, 0, fixed) == Err::<
            (Seq<DiagnosticModel>, int),
            LanguageProtocolError,
        >(e) implies batch_outcome(
            wire_bytes,
            pv,
            expected@,
            Err::<BatchModel, LanguageProtocolError>(e),
        ) by {}
        let mut i: usize = 0;
        while i < items.len()
            invariant
                forall|e: LanguageProtocolError| items_from(items@, 0, fixed) == Err::<
                    (Seq<DiagnosticModel>, int),
                    LanguageProtocolError,
                >(e) ==> batch_outcome(
                    wire_bytes,
                    pv,
                    expected@,
                    Err::<BatchModel, LanguageProtocolError>(e),
                ),
                pv == match params {
                    Some(p) => Some(*p),
                    None => None,
                },
                i <= items@.len(),
                items_from(items@, 0, fixed) == prepend(
                    diagnostics@.map_values(|d: Diagnostic| d@),
                    items_from(items@, i as int, retained as int),
                ),
            decreases items@.len() - i,
        {
            let (d, next) = parse_item(&items[i], retained)?;
            let ghost before = diagnostics@.map_values(|d: Diagnostic| d@);
            diagnostics.push(d);
            assert(diagnostics@.map_values(|d: Diagnostic| d@) =~= before.push(d@));
            proof {
                let rest = items_from(items@, i + 1, next as int);
                match rest {
                    Ok((ds, last)) => {
                        assert(before + (seq![d@] + ds) =~= before.push(d@) + ds);
                    },
                    Err(_) => {},
                }
            }
            retained = next;
            i += 1;
        }
        proof {
            assert(diagnostics@.map_values(|d: Diagnostic| d@) + Seq::<DiagnosticModel>::empty()
                =~= diagnostics@.map_values(|d: Diagnostic| d@));
        }
        Ok(DiagnosticBatch { uri: String::from_str(uri), document_version, diagnostics, retained_bytes: retained })
    }

    /// The document version the batch is for, when it names one.
    pub fn document_version(&self) -> (v: Option<i32>)
        ensures
            v == self@.document_version,
    {
        self.document_version
    }

    /// Whether the batch holds no diagnostic.
    pub fn is_empty(&self) -> (r: bool)
        ensures
            r == (self@.diagnostics.len() == 0),
    {
        self.diagnostics.len() == 0
    }

    /// Number of diagnostics.
    pub fn len(&self) -> (n: usize)
        ensures
            n == self@.diagnostics.len(),
    {
        self.diagnostics.len()
    }

    /// The diagnostic at `index`.
    pub fn diagnostic(&self, index: usize) -> (d: Option<&Diagnostic>)
        ensures
            match d {
                Some(x) => index < self@.diagnostics.len() && x@ == self@.diagnostics[index as int],
                None => index >= self@.diagnostics.len(),
            },
    {
        if index < self.diagnostics.len() {
            Some(&self.diagnostics[index])
        } else {
            None
        }
    }

    /// The document URI.
    pub fn uri(&self) -> (u: &str)
        ensures
            u@ == self@.uri,
    {
        self.uri.as_str()
    }

    /// Bytes the batch retains.
    pub fn retained_bytes(&self) -> (n: usize)
        ensures
            n == self@.retained_bytes,
    {
        self.retained_bytes
    }
}

/// The language server version this editor is pinned to.
pub fn pinned_server_version() -> (v: &'static str)
    ensures
        v@ == "rust-analyzer 0.3.3016-standalone (bb3bbbd9e4 2026-08-16)"@,
{
    "rust-analyzer 0.3.3016-standalone (bb3bbbd9e4 2026-08-16)"
}

/// A diagnostic range is refused exactly when its end comes before its
/// start: an end on a later line is accepted whatever the characters, an
/// end on an earlier line is refused, and on the same line the end's
/// character decides. An accepted range is the two positions as given.
pub proof fn law_range_is_refused_only_when_it_ends_before_it_starts(
    v: JsonValue,
    start_value: JsonValue,
    end_value: JsonValue,
    start: LspPosition,
    end: LspPosition,
)
    requires
        v matches JsonValue::Object(k, m) && member(k@, m@, "start"@) == Some(start_value) && member(
            k@,
            m@,
            "end"@,
        ) == Some(end_value),
        position_of(start_value) == Ok::<LspPosition, LanguageProtocolError>(start),
        position_of(end_value) == Ok::<LspPosition, LanguageProtocolError>(end),
    ensures
        end.line > start.line ==> range_of(v) == Ok::<DiagnosticRange, LanguageProtocolError>(
            DiagnosticRange { start, end },
        ),
        end.line < start.line ==> range_of(v) == Err::<DiagnosticRange, LanguageProtocolError>(
            LanguageProtocolError::InvalidRange,
        ),
        end.line == start.line ==> (range_of(v) == Err::<DiagnosticRange, LanguageProtocolError>(
            LanguageProtocolError::InvalidRange,
        ) <==> end.utf16_character < start.utf16_character),
        range_of(v) is Ok ==> range_of(v) == Ok::<DiagnosticRange, LanguageProtocolError>(
            DiagnosticRange { start, end },
        ),
{
}

} // verus!
