//! The header grammar of a Language Server Protocol frame:
//! `Name: value` lines separated by CRLF and closed by an empty line.
use crate::lsp_framing::LspFrameError;
use vstd::prelude::*;

verus! {

/// `\r`
pub const CR: u8 = 13;

/// `\n`
pub const LF: u8 = 10;

/// The header field that declares the body length.
pub open spec fn content_length_name() -> Seq<u8> {
    seq![67u8, 111u8, 110u8, 116u8, 101u8, 110u8, 116u8, 45u8, 76u8, 101u8, 110u8, 103u8, 116u8, 104u8]
}

/// The header field that declares the body type.
pub open spec fn content_media_field() -> Seq<u8> {
    seq![67u8, 111u8, 110u8, 116u8, 101u8, 110u8, 116u8, 45u8, 84u8, 121u8, 112u8, 101u8]
}

/// The only accepted media type, `application/vscode-jsonrpc`.
pub open spec fn jsonrpc_mime() -> Seq<u8> {
    seq![
        97u8, 112u8, 112u8, 108u8, 105u8, 99u8, 97u8, 116u8, 105u8, 111u8, 110u8, 47u8, 118u8,
        115u8, 99u8, 111u8, 100u8, 101u8, 45u8, 106u8, 115u8, 111u8, 110u8, 114u8, 112u8, 99u8,
    ]
}

/// The only accepted media-type parameter name, `charset`.
pub open spec fn charset_name() -> Seq<u8> {
    seq![99u8, 104u8, 97u8, 114u8, 115u8, 101u8, 116u8]
}

/// `utf-8`
pub open spec fn utf8_dashed() -> Seq<u8> {
    seq![117u8, 116u8, 102u8, 45u8, 56u8]
}

/// `utf8`
pub open spec fn utf8_plain() -> Seq<u8> {
    seq![117u8, 116u8, 102u8, 56u8]
}

fn content_length_bytes() -> (v: Vec<u8>)
    ensures
        v@ == content_length_name(),
{
    vec![67u8, 111, 110, 116, 101, 110, 116, 45, 76, 101, 110, 103, 116, 104]
}

fn content_type_bytes() -> (v: Vec<u8>)
    ensures
        v@ == content_media_field(),
{
    vec![67u8, 111, 110, 116, 101, 110, 116, 45, 84, 121, 112, 101]
}

fn jsonrpc_mime_bytes() -> (v: Vec<u8>)
    ensures
        v@ == jsonrpc_mime(),
{
    vec![
        97u8, 112, 112, 108, 105, 99, 97, 116, 105, 111, 110, 47, 118, 115, 99, 111, 100, 101, 45,
        106, 115, 111, 110, 114, 112, 99,
    ]
}

fn charset_bytes() -> (v: Vec<u8>)
    ensures
        v@ == charset_name(),
{
    vec![99u8, 104, 97, 114, 115, 101, 116]
}

fn utf8_dashed_bytes() -> (v: Vec<u8>)
    ensures
        v@ == utf8_dashed(),
{
    vec![117u8, 116, 102, 45, 56]
}

fn utf8_plain_bytes() -> (v: Vec<u8>)
    ensures
        v@ == utf8_plain(),
{
    vec![117u8, 116, 102, 56]
}

/// ASCII space or horizontal tab.
pub open spec fn is_space(b: u8) -> bool {
    b == 32 || b == 9
}

/// ASCII lower-casing of one byte.
pub open spec fn ascii_lower(b: u8) -> u8 {
    if 65 <= b <= 90 {
        (b + 32) as u8
    } else {
        b
    }
}

/// First index in `[lo, hi)` of `s` whose byte is `x`.
pub open spec fn find_in(s: Seq<u8>, x: u8, lo: int, hi: int) -> Option<int>
    decreases hi - lo,
{
    if lo >= hi {
        None
    } else if s[lo] == x {
        Some(lo)
    } else {
        find_in(s, x, lo + 1, hi)
    }
}

/// First index `i` in `[lo, hi - 1)` with `s[i] s[i + 1]` equal to CRLF.
pub open spec fn find_crlf(s: Seq<u8>, lo: int, hi: int) -> Option<int>
    decreases hi - lo,
{
    if lo + 1 >= hi {
        None
    } else if s[lo] == CR && s[lo + 1] == LF {
        Some(lo)
    } else {
        find_crlf(s, lo + 1, hi)
    }
}

/// Start of `[lo, hi)` after leading spaces and tabs.
pub open spec fn trim_lo(s: Seq<u8>, lo: int, hi: int) -> int
    decreases hi - lo,
{
    if lo < hi && is_space(s[lo]) {
        trim_lo(s, lo + 1, hi)
    } else {
        lo
    }
}

/// End of `[lo, hi)` before trailing spaces and tabs.
pub open spec fn trim_hi(s: Seq<u8>, lo: int, hi: int) -> int
    decreases hi - lo,
{
    if lo < hi && is_space(s[hi - 1]) {
        trim_hi(s, lo, hi - 1)
    } else {
        hi
    }
}

/// Whether `s[lo..hi]` equals `lit` ignoring ASCII case.
pub open spec fn eq_ignore_case(s: Seq<u8>, lo: int, hi: int, lit: Seq<u8>) -> bool {
    &&& hi - lo == lit.len()
    &&& forall|i: int| 0 <= i < lit.len() ==> ascii_lower(#[trigger] s[lo + i]) == ascii_lower(lit[i])
}

/// Whether `s[lo..hi]`, trimmed, equals `lit` ignoring ASCII case.
pub open spec fn trimmed_eq(s: Seq<u8>, lo: int, hi: int, lit: Seq<u8>) -> bool {
    let tlo = trim_lo(s, lo, hi);
    eq_ignore_case(s, tlo, trim_hi(s, tlo, hi), lit)
}

/// Every byte of `s[lo..hi]` is an ASCII digit.
pub open spec fn all_digits(s: Seq<u8>, lo: int, hi: int) -> bool {
    forall|i: int| lo <= i < hi ==> 48 <= #[trigger] s[i] <= 57
}

/// The decimal number written by the digits `s[lo..hi]`.
pub open spec fn decimal_value(s: Seq<u8>, lo: int, hi: int) -> nat
    decreases hi - lo,
{
    if hi <= lo {
        0
    } else {
        decimal_value(s, lo, hi - 1) * 10 + (s[hi - 1] - 48) as nat
    }
}

/// A `Content-Length` value: a nonempty run of digits that fits in `usize`.
pub open spec fn decimal_result(s: Seq<u8>, lo: int, hi: int) -> Result<usize, LspFrameError> {
    if all_digits(s, lo, hi) && decimal_value(s, lo, hi) <= usize::MAX {
        Ok(decimal_value(s, lo, hi) as usize)
    } else {
        Err(LspFrameError::InvalidContentLength)
    }
}

/// `charset=utf-8` or `charset=utf8`, with optional spaces and in any case.
pub open spec fn charset_parameter_ok(s: Seq<u8>, lo: int, hi: int) -> bool {
    let plo = trim_lo(s, lo, hi);
    let phi = trim_hi(s, plo, hi);
    match find_in(s, 61, plo, phi) {
        None => false,
        Some(e) => trimmed_eq(s, plo, e, charset_name()) && (trimmed_eq(s, e + 1, phi, utf8_dashed())
            || trimmed_eq(s, e + 1, phi, utf8_plain())),
    }
}

/// The accepted `Content-Type` values: the JSON-RPC media type, optionally
/// followed by exactly one UTF-8 `charset` parameter.
pub open spec fn supported_content_type_spec(s: Seq<u8>, lo: int, hi: int) -> bool {
    match find_in(s, 59, lo, hi) {
        None => trimmed_eq(s, lo, hi, jsonrpc_mime()),
        Some(semi) => trimmed_eq(s, lo, semi, jsonrpc_mime()) && find_in(s, 59, semi + 1, hi) is None
            && charset_parameter_ok(s, semi + 1, hi),
    }
}

/// One header line `s[lo..hi]`, given the fields seen so far.
pub open spec fn parse_line_spec(
    s: Seq<u8>,
    lo: int,
    hi: int,
    content_length: Option<usize>,
    content_type: bool,
    limit: usize,
) -> Result<(Option<usize>, bool), LspFrameError> {
    match find_in(s, 58, lo, hi) {
        None => Err(LspFrameError::MalformedHeader),
        Some(colon) => {
            let vlo = trim_lo(s, colon + 1, hi);
            let vhi = trim_hi(s, vlo, hi);
            if colon == lo || vlo == vhi {
                Err(LspFrameError::MalformedHeader)
            } else if eq_ignore_case(s, lo, colon, content_length_name()) {
                if content_length is Some {
                    Err(LspFrameError::DuplicateContentLength)
                } else {
                    match decimal_result(s, vlo, vhi) {
                        Err(e) => Err(e),
                        Ok(declared) => if declared == 0 {
                            Err(LspFrameError::EmptyBody)
                        } else if declared > limit {
                            Err(LspFrameError::BodyTooLarge { declared, limit })
                        } else {
                            Ok((Some(declared), content_type))
                        },
                    }
                }
            } else if eq_ignore_case(s, lo, colon, content_media_field()) {
                if content_type || !supported_content_type_spec(s, vlo, vhi) {
                    Err(LspFrameError::UnsupportedContentType)
                } else {
                    Ok((content_length, true))
                }
            } else {
                Err(LspFrameError::UnsupportedHeader)
            }
        },
    }
}

pub proof fn lemma_find_crlf_bounds(s: Seq<u8>, lo: int, hi: int)
    ensures
        find_crlf(s, lo, hi) matches Some(i) ==> lo <= i && i + 1 < hi && s[i] == CR && s[i + 1] == LF,
    decreases hi - lo,
{
    if lo + 1 < hi && !(s[lo] == CR && s[lo + 1] == LF) {
        lemma_find_crlf_bounds(s, lo + 1, hi);
    }
}

/// The header lines of the payload `s[start..payload_end]`, from `start` on.
pub open spec fn parse_lines_spec(
    s: Seq<u8>,
    start: int,
    payload_end: int,
    content_length: Option<usize>,
    content_type: bool,
    limit: usize,
) -> Result<usize, LspFrameError>
    decreases payload_end - start,
{
    let separator = find_crlf(s, start, payload_end);
    let end = match separator {
        Some(i) => i,
        None => payload_end,
    };
    if end <= start || find_in(s, CR, start, end) is Some || find_in(s, LF, start, end) is Some {
        Err(LspFrameError::MalformedHeader)
    } else {
        match parse_line_spec(s, start, end, content_length, content_type, limit) {
            Err(e) => Err(e),
            Ok((cl, ct)) => match separator {
                None => match cl {
                    Some(n) => Ok(n),
                    None => Err(LspFrameError::MissingContentLength),
                },
                Some(i) => if i + 2 >= payload_end {
                    Err(LspFrameError::MalformedHeader)
                } else {
                    proof {
                        lemma_find_crlf_bounds(s, start, payload_end);
                    }
                    parse_lines_spec(s, i + 2, payload_end, cl, ct, limit)
                },
            },
        }
    }
}

proof fn lemma_parse_lines_bounds(
    s: Seq<u8>,
    start: int,
    payload_end: int,
    content_length: Option<usize>,
    content_type: bool,
    limit: usize,
)
    requires
        content_length matches Some(n) ==> 0 < n <= limit,
    ensures
        parse_lines_spec(s, start, payload_end, content_length, content_type, limit) matches Ok(n)
            ==> 0 < n <= limit,
    decreases payload_end - start,
{
    lemma_find_crlf_bounds(s, start, payload_end);
    let separator = find_crlf(s, start, payload_end);
    let end = match separator {
        Some(i) => i,
        None => payload_end,
    };
    if !(end <= start || find_in(s, CR, start, end) is Some || find_in(s, LF, start, end) is Some) {
        if let Ok((cl, ct)) = parse_line_spec(s, start, end, content_length, content_type, limit) {
            if let Some(i) = separator {
                if i + 2 < payload_end {
                    lemma_parse_lines_bounds(s, i + 2, payload_end, cl, ct, limit);
                }
            }
        }
    }
}

/// A declared body length is never zero and never above the limit.
pub proof fn lemma_parse_header_bounds(s: Seq<u8>, limit: usize)
    ensures
        parse_header_spec(s, limit) matches Ok(n) ==> 0 < n <= limit,
{
    if s.len() > 4 {
        lemma_parse_lines_bounds(s, 0, s.len() - 4, None, false, limit);
    }
}

/// The body length declared by a complete header `s` (terminator included).
pub open spec fn parse_header_spec(s: Seq<u8>, limit: usize) -> Result<usize, LspFrameError> {
    if s.len() < 4 {
        Err(LspFrameError::MalformedHeader)
    } else if s.len() == 4 {
        Err(LspFrameError::MissingContentLength)
    } else {
        parse_lines_spec(s, 0, s.len() - 4, None, false, limit)
    }
}

fn is_space_byte(b: u8) -> (r: bool)
    ensures
        r == is_space(b),
{
    b == 32 || b == 9
}

fn lower_byte(b: u8) -> (r: u8)
    ensures
        r == ascii_lower(b),
{
    if 65 <= b && b <= 90 {
        b + 32
    } else {
        b
    }
}

/// First index in `[lo, hi)` of `s` whose byte is `x`.
pub fn find_byte(s: &[u8], x: u8, lo: usize, hi: usize) -> (r: Option<usize>)
    requires
        lo <= hi <= s@.len(),
    ensures
        r matches Some(i) ==> find_in(s@, x, lo as int, hi as int) == Some(i as int) && lo <= i < hi
            && s@[i as int] == x,
        r is None ==> find_in(s@, x, lo as int, hi as int) is None,
    decreases hi - lo,
{
    if lo >= hi {
        None
    } else if s[lo] == x {
        Some(lo)
    } else {
        find_byte(s, x, lo + 1, hi)
    }
}

fn find_crlf_exec(s: &[u8], lo: usize, hi: usize) -> (r: Option<usize>)
    requires
        lo <= hi <= s@.len(),
    ensures
        r matches Some(i) ==> find_crlf(s@, lo as int, hi as int) == Some(i as int),
        r is None ==> find_crlf(s@, lo as int, hi as int) is None,
    decreases hi - lo,
{
    if hi - lo <= 1 {
        None
    } else if s[lo] == CR && s[lo + 1] == LF {
        Some(lo)
    } else {
        find_crlf_exec(s, lo + 1, hi)
    }
}

fn trim_start(s: &[u8], lo: usize, hi: usize) -> (r: usize)
    requires
        lo <= hi <= s@.len(),
    ensures
        r == trim_lo(s@, lo as int, hi as int),
        lo <= r <= hi,
    decreases hi - lo,
{
    if lo < hi && is_space_byte(s[lo]) {
        trim_start(s, lo + 1, hi)
    } else {
        lo
    }
}

fn trim_end(s: &[u8], lo: usize, hi: usize) -> (r: usize)
    requires
        lo <= hi <= s@.len(),
    ensures
        r == trim_hi(s@, lo as int, hi as int),
        lo <= r <= hi,
    decreases hi - lo,
{
    if lo < hi && is_space_byte(s[hi - 1]) {
        trim_end(s, lo, hi - 1)
    } else {
        hi
    }
}

/// Bounds of `s[lo..hi]` without leading and trailing spaces and tabs.
pub fn trim_ascii_space(s: &[u8], lo: usize, hi: usize) -> (r: (usize, usize))
    requires
        lo <= hi <= s@.len(),
    ensures
        r.0 == trim_lo(s@, lo as int, hi as int),
        r.1 == trim_hi(s@, r.0 as int, hi as int),
        lo <= r.0 <= r.1 <= hi,
{
    let start = trim_start(s, lo, hi);
    let end = trim_end(s, start, hi);
    (start, end)
}

/// Whether `s[lo..hi]` equals `lit` ignoring ASCII case.
pub fn eq_ignore_ascii_case(s: &[u8], lo: usize, hi: usize, lit: &[u8]) -> (r: bool)
    requires
        lo <= hi <= s@.len(),
    ensures
        r == eq_ignore_case(s@, lo as int, hi as int, lit@),
{
    if hi - lo != lit.len() {
        return false;
    }
    let mut i: usize = 0;
    while i < lit.len()
        invariant
            hi - lo == lit@.len(),
            lo <= hi <= s@.len(),
            i <= lit@.len(),
            forall|j: int| 0 <= j < i ==> ascii_lower(#[trigger] s@[lo + j]) == ascii_lower(lit@[j]),
        decreases lit@.len() - i,
    {
        if lower_byte(s[lo + i]) != lower_byte(lit[i]) {
            return false;
        }
        i += 1;
    }
    true
}

fn trimmed_eq_exec(s: &[u8], lo: usize, hi: usize, lit: &[u8]) -> (r: bool)
    requires
        lo <= hi <= s@.len(),
    ensures
        r == trimmed_eq(s@, lo as int, hi as int, lit@),
{
    let (a, b) = trim_ascii_space(s, lo, hi);
    eq_ignore_ascii_case(s, a, b, lit)
}

proof fn lemma_decimal_monotone(s: Seq<u8>, lo: int, mid: int, hi: int)
    requires
        lo <= mid <= hi,
        all_digits(s, lo, hi),
    ensures
        decimal_value(s, lo, mid) <= decimal_value(s, lo, hi),
    decreases hi - mid,
{
    if mid < hi {
        lemma_decimal_monotone(s, lo, mid, hi - 1);
    }
}

/// Parses `s[lo..hi]` as an unsigned decimal byte count.
pub fn parse_decimal(s: &[u8], lo: usize, hi: usize) -> (r: Result<usize, LspFrameError>)
    requires
        lo <= hi <= s@.len(),
    ensures
        r == decimal_result(s@, lo as int, hi as int),
{
    let mut parsed: usize = 0;
    let mut i = lo;
    while i < hi
        invariant
            lo <= i <= hi <= s@.len(),
            all_digits(s@, lo as int, i as int),
            parsed == decimal_value(s@, lo as int, i as int),
        decreases hi - i,
    {
        let byte = s[i];
        if !(48 <= byte && byte <= 57) {
            assert(!all_digits(s@, lo as int, hi as int));
            return Err(LspFrameError::InvalidContentLength);
        }
        let digit = (byte - 48) as usize;
        if parsed > (usize::MAX - digit) / 10 {
            proof {
                if all_digits(s@, lo as int, hi as int) {
                    lemma_decimal_monotone(s@, lo as int, i + 1, hi as int);
                }
            }
            return Err(LspFrameError::InvalidContentLength);
        }
        parsed = parsed * 10 + digit;
        i += 1;
    }
    Ok(parsed)
}

/// Whether a `Content-Type` value names UTF-8 JSON-RPC.
pub fn supported_content_type(s: &[u8], lo: usize, hi: usize) -> (r: bool)
    requires
        lo <= hi <= s@.len(),
    ensures
        r == supported_content_type_spec(s@, lo as int, hi as int),
{
    let mime = jsonrpc_mime_bytes();
    match find_byte(s, 59, lo, hi) {
        None => trimmed_eq_exec(s, lo, hi, mime.as_slice()),
        Some(semi) => {
            if !trimmed_eq_exec(s, lo, semi, mime.as_slice()) {
                return false;
            }
            if find_byte(s, 59, semi + 1, hi).is_some() {
                return false;
            }
            let (plo, phi) = trim_ascii_space(s, semi + 1, hi);
            match find_byte(s, 61, plo, phi) {
                None => false,
                Some(e) => {
                    let charset = charset_bytes();
                    let dashed = utf8_dashed_bytes();
                    let plain = utf8_plain_bytes();
                    trimmed_eq_exec(s, plo, e, charset.as_slice()) && (trimmed_eq_exec(
                        s,
                        e + 1,
                        phi,
                        dashed.as_slice(),
                    ) || trimmed_eq_exec(s, e + 1, phi, plain.as_slice()))
                },
            }
        },
    }
}

/// Applies one header line `s[lo..hi]` to the fields seen so far.
pub fn parse_header_line(
    s: &[u8],
    lo: usize,
    hi: usize,
    content_length: &mut Option<usize>,
    content_type: &mut bool,
    limit: usize,
) -> (r: Result<(), LspFrameError>)
    requires
        lo <= hi <= s@.len(),
    ensures
        match parse_line_spec(s@, lo as int, hi as int, *old(content_length), *old(content_type), limit) {
            Ok((cl, ct)) => r is Ok && *final(content_length) == cl && *final(content_type) == ct,
            Err(e) => r == Err::<(), LspFrameError>(e),
        },
{
    let colon = match find_byte(s, 58, lo, hi) {
        Some(c) => c,
        None => return Err(LspFrameError::MalformedHeader),
    };
    let (vlo, vhi) = trim_ascii_space(s, colon + 1, hi);
    if colon == lo || vlo == vhi {
        return Err(LspFrameError::MalformedHeader);
    }
    let length_name = content_length_bytes();
    if eq_ignore_ascii_case(s, lo, colon, length_name.as_slice()) {
        if content_length.is_some() {
            return Err(LspFrameError::DuplicateContentLength);
        }
        let declared = parse_decimal(s, vlo, vhi)?;
        if declared == 0 {
            return Err(LspFrameError::EmptyBody);
        }
        if declared > limit {
            return Err(LspFrameError::BodyTooLarge { declared, limit });
        }
        *content_length = Some(declared);
        return Ok(());
    }
    let media_field = content_type_bytes();
    if eq_ignore_ascii_case(s, lo, colon, media_field.as_slice()) {
        if *content_type || !supported_content_type(s, vlo, vhi) {
            return Err(LspFrameError::UnsupportedContentType);
        }
        *content_type = true;
        return Ok(());
    }
    Err(LspFrameError::UnsupportedHeader)
}

/// The body length declared by a complete header (terminator included).
pub fn parse_header(s: &[u8], limit: usize) -> (r: Result<usize, LspFrameError>)
    ensures
        r == parse_header_spec(s@, limit),
{
    if s.len() < 4 {
        return Err(LspFrameError::MalformedHeader);
    }
    let payload_end = s.len() - 4;
    if payload_end == 0 {
        return Err(LspFrameError::MissingContentLength);
    }
    let mut content_length: Option<usize> = None;
    let mut content_type = false;
    let mut start: usize = 0;
    loop
        invariant
            start < payload_end,
            payload_end == s@.len() - 4,
            parse_header_spec(s@, limit) == parse_lines_spec(
                s@,
                start as int,
                payload_end as int,
                content_length,
                content_type,
                limit,
            ),
        decreases payload_end - start,
    {
        let separator = find_crlf_exec(s, start, payload_end);
        proof {
            lemma_find_crlf_bounds(s@, start as int, payload_end as int);
        }
        let end = match separator {
            Some(i) => i,
            None => payload_end,
        };
        if end <= start || find_byte(s, CR, start, end).is_some() || find_byte(
            s,
            LF,
            start,
            end,
        ).is_some() {
            return Err(LspFrameError::MalformedHeader);
        }
        parse_header_line(s, start, end, &mut content_length, &mut content_type, limit)?;
        match separator {
            None => {
                return match content_length {
                    Some(n) => Ok(n),
                    None => Err(LspFrameError::MissingContentLength),
                };
            },
            Some(i) => {
                if i + 2 >= payload_end {
                    return Err(LspFrameError::MalformedHeader);
                }
                start = i + 2;
            },
        }
    }
}

/// Length of the longest suffix of the bytes seen so far that is a prefix of
/// the header terminator, after one more byte.
pub open spec fn advance_delimiter_spec(current: usize, byte: u8) -> usize {
    let expected: u8 = if current % 2 == 0 {
        CR
    } else {
        LF
    };
    if byte == expected {
        (current + 1) as usize
    } else if byte == CR {
        1
    } else {
        0
    }
}

/// Advances the header-terminator match by one byte.
pub fn advance_delimiter(current: usize, byte: u8) -> (r: usize)
    requires
        current < 4,
    ensures
        r == advance_delimiter_spec(current, byte),
        r <= 4,
{
    let expected = if current % 2 == 0 {
        CR
    } else {
        LF
    };
    if byte == expected {
        current + 1
    } else if byte == CR {
        1
    } else {
        0
    }
}

} // verus!
