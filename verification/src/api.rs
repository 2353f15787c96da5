//! Normalization of one HTTP exchange.
//!
//! The blocking network call itself runs outside this crate; what comes back
//! from the wire (status code and reason, response headers, raw body text,
//! elapsed time, transport-reported length) is turned here into the one
//! normalized value the rest of the application consumes.

use vstd::prelude::*;
use crate::headers::HeaderSeq;
use crate::strings::{dec_digit, dec_str, digit_char, push_char, u64_to_string};

verus! {

/// A successfully completed exchange, normalized for display and storage.
#[derive(Debug, Clone)]
pub struct ApiResponse {
    pub body: String,
    pub headers: String,
    pub status: String,
    pub status_code: u16,
    pub time: String,
    pub size: String,
}

/// A failed exchange: the transport-level error message.
#[derive(Debug, Clone)]
pub enum ApiError {
    RequestFailed(String),
}

/// Mathematical image of an `ApiResponse`.
#[verifier::ext_equal]
pub ghost struct ApiResponseModel {
    pub body: Seq<char>,
    pub headers: Seq<char>,
    pub status: Seq<char>,
    pub status_code: u16,
    pub time: Seq<char>,
    pub size: Seq<char>,
}

impl View for ApiResponse {
    type V = ApiResponseModel;

    open spec fn view(&self) -> ApiResponseModel {
        ApiResponseModel {
            body: self.body@,
            headers: self.headers@,
            status: self.status@,
            status_code: self.status_code,
            time: self.time@,
            size: self.size@,
        }
    }
}

/// What `serde_json` pretty-prints a string to, when the string is valid
/// JSON; `None` when it is not. The result depends on the input alone.
pub uninterp spec fn pretty_json_of(s: Seq<char>) -> Option<Seq<char>>;

/// Relies on serde_json's `from_str` and `to_string_pretty`: whether text
/// parses as JSON, and the pretty-printed form of what it parses to, are
/// functions of the text alone.
#[verifier::external_body]
fn pretty_json(s: &str) -> (r: Option<String>)
    ensures
        (r is Some) == (pretty_json_of(s@) is Some),
        r matches Some(p) ==> pretty_json_of(s@) == Some(p@),
{
    match serde_json::from_str::<serde_json::Value>(s) {
        Ok(v) => Some(serde_json::to_string_pretty(&v).unwrap_or_default()),
        Err(_) => None,
    }
}

/// Display form of a response body: the pretty-printed JSON when the body
/// parses as JSON, a fixed placeholder otherwise.
pub open spec fn formatted_body(s: Seq<char>) -> Seq<char> {
    match pretty_json_of(s) {
        Some(p) => p,
        None => "Error: Could not parse JSON"@,
    }
}

/// Renders a raw response body for display: pretty-printed JSON, or a fixed
/// placeholder when the body is not valid JSON.
pub fn format_body(raw: &str) -> (r: String)
    ensures
        r@ == formatted_body(raw@),
{
    match pretty_json(raw) {
        Some(p) => p,
        None => {
            let mut out = String::new();
            out.append("Error: Could not parse JSON");
            out
        },
    }
}

/// The status line shown for an exchange: decimal code, a space, and the
/// reason phrase.
pub open spec fn status_line(code: u16, reason: Seq<char>) -> Seq<char> {
    dec_str(code as nat) + seq![' '] + reason
}

/// Formats a status code and reason phrase into one status line.
pub fn format_status(code: u16, reason: &str) -> (r: String)
    ensures
        r@ == status_line(code, reason@),
{
    let mut out = u64_to_string(code as u64);
    push_char(&mut out, ' ');
    out.append(reason);
    proof {
        assert(out@ =~= status_line(code, reason@));
    }
    out
}

/// Two-digit zero-padded decimal for a value below one hundred.
pub open spec fn dec2(v: nat) -> Seq<char>
    recommends
        v < 100,
{
    seq![dec_digit(v as int / 10), dec_digit(v as int % 10)]
}

/// Human-readable duration: seconds or milliseconds with two decimal places,
/// plain microseconds below one millisecond.
pub open spec fn elapsed_str(micros: nat) -> Seq<char> {
    if micros >= 1000000 {
        dec_str(micros / 1000000) + seq!['.'] + dec2((micros % 1000000) / 10000) + "s"@
    } else if micros >= 1000 {
        dec_str(micros / 1000) + seq!['.'] + dec2((micros % 1000) / 10) + "ms"@
    } else {
        dec_str(micros) + "us"@
    }
}

fn push_dec2(out: &mut String, v: u64)
    requires
        v < 100,
    ensures
        final(out)@ == old(out)@ + dec2(v as nat),
{
    push_char(out, digit_char(v / 10));
    push_char(out, digit_char(v % 10));
    proof {
        assert(out@ =~= old(out)@ + dec2(v as nat));
    }
}

/// Renders an elapsed wall-clock time, given in microseconds, as a short
/// human-readable string.
pub fn format_elapsed(micros: u64) -> (r: String)
    ensures
        r@ == elapsed_str(micros as nat),
{
    if micros >= 1000000 {
        let mut out = u64_to_string(micros / 1000000);
        push_char(&mut out, '.');
        push_dec2(&mut out, (micros % 1000000) / 10000);
        out.append("s");
        proof {
            assert(out@ =~= elapsed_str(micros as nat));
        }
        out
    } else if micros >= 1000 {
        let mut out = u64_to_string(micros / 1000);
        push_char(&mut out, '.');
        push_dec2(&mut out, (micros % 1000) / 10);
        out.append("ms");
        proof {
            assert(out@ =~= elapsed_str(micros as nat));
        }
        out
    } else {
        let mut out = u64_to_string(micros);
        out.append("us");
        proof {
            assert(out@ =~= elapsed_str(micros as nat));
        }
        out
    }
}

/// Display form of a transport-reported content length.
pub open spec fn size_str(n: nat) -> Seq<char> {
    dec_str(n) + " bytes"@
}

/// Renders a content length for display.
pub fn format_size(n: u64) -> (r: String)
    ensures
        r@ == size_str(n as nat),
{
    let mut out = u64_to_string(n);
    out.append(" bytes");
    out
}

/// One line per header, `name: value`, each terminated by a newline.
pub open spec fn header_lines(hs: HeaderSeq) -> Seq<char>
    decreases hs.len(),
{
    if hs.len() == 0 {
        Seq::empty()
    } else {
        hs[0].0 + ": "@ + hs[0].1 + "\n"@ + header_lines(hs.drop_first())
    }
}

proof fn lemma_header_lines_snoc(hs: HeaderSeq, p: (Seq<char>, Seq<char>))
    ensures
        header_lines(hs.push(p)) == header_lines(hs) + (p.0 + ": "@ + p.1 + "\n"@),
    decreases hs.len(),
{
    assert(hs.push(p).len() == hs.len() + 1);
    if hs.len() == 0 {
        assert(hs.push(p)[0] == p);
        assert(hs.push(p).drop_first() =~= Seq::<(Seq<char>, Seq<char>)>::empty());
        assert(header_lines(Seq::<(Seq<char>, Seq<char>)>::empty()) == Seq::<char>::empty());
        assert(header_lines(hs.push(p)) =~= header_lines(hs) + (p.0 + ": "@ + p.1 + "\n"@));
    } else {
        assert(hs.push(p)[0] == hs[0]);
        assert(hs.push(p).drop_first() =~= hs.drop_first().push(p));
        lemma_header_lines_snoc(hs.drop_first(), p);
        assert(header_lines(hs.push(p)) =~= header_lines(hs) + (p.0 + ": "@ + p.1 + "\n"@));
    }
}

/// Renders response headers as display text, one `name: value` line each.
pub fn build_header_text(headers: &Vec<(String, String)>) -> (r: String)
    ensures
        r@ == header_lines(headers.deep_view()),
{
    let ghost hv: HeaderSeq = headers.deep_view();
    let mut out = String::new();
    let mut i: usize = 0;
    proof {
        assert(hv.take(0) =~= Seq::<(Seq<char>, Seq<char>)>::empty());
        assert(out@ =~= header_lines(hv.take(0)));
    }
    while i < headers.len()
        invariant
            i <= headers.len(),
            hv == headers.deep_view(),
            hv.len() == headers.len(),
            forall|j: int| 0 <= j < headers.len() ==> hv[j] == (headers[j].0@, headers[j].1@),
            out@ == header_lines(hv.take(i as int)),
        decreases headers.len() - i,
    {
        out.append(headers[i].0.as_str());
        out.append(": ");
        out.append(headers[i].1.as_str());
        out.append("\n");
        proof {
            lemma_header_lines_snoc(hv.take(i as int), hv[i as int]);
            assert(hv.take(i + 1) =~= hv.take(i as int).push(hv[i as int]));
            assert(out@ =~= header_lines(hv.take(i + 1)));
        }
        i = i + 1;
    }
    proof {
        assert(hv.take(headers.len() as int) =~= hv);
    }
    out
}

/// Whether a character may appear in an HTTP header field name: the token
/// characters of the HTTP grammar (letters, digits, and a fixed set of
/// punctuation).
pub open spec fn is_token_char(c: char) -> bool {
    let u = c as u32;
    (48 <= u && u <= 57) || (65 <= u && u <= 90) || (97 <= u && u <= 122) || c == '!' || c == '#'
        || c == '$' || c == '%' || c == '&' || c == '\'' || c == '*' || c == '+' || c == '-' || c
        == '.' || c == '^' || c == '_' || c == '`' || c == '|' || c == '~'
}

/// Whether text is a well-formed header field name: non-empty and made of
/// token characters only.
pub open spec fn valid_header_name(s: Seq<char>) -> bool {
    s.len() > 0 && (forall|i: int| 0 <= i < s.len() ==> is_token_char(#[trigger] s[i]))
}

/// Whether a character may appear in a header field value: horizontal tab or
/// anything at or above the space character except delete.
pub open spec fn is_value_char(c: char) -> bool {
    c == '\t' || (32 <= (c as u32) && (c as u32) != 127)
}

/// Whether text is a well-formed header field value.
pub open spec fn valid_header_value(s: Seq<char>) -> bool {
    forall|i: int| 0 <= i < s.len() ==> is_value_char(#[trigger] s[i])
}

fn is_token_char_exec(c: char) -> (r: bool)
    ensures
        r == is_token_char(c),
{
    let u = c as u32;
    (48 <= u && u <= 57) || (65 <= u && u <= 90) || (97 <= u && u <= 122) || c == '!' || c == '#'
        || c == '$' || c == '%' || c == '&' || c == '\'' || c == '*' || c == '+' || c == '-' || c
        == '.' || c == '^' || c == '_' || c == '`' || c == '|' || c == '~'
}

fn check_header_name(s: &str) -> (r: bool)
    ensures
        r == valid_header_name(s@),
{
    let n = s.unicode_len();
    if n == 0 {
        return false;
    }
    let mut i: usize = 0;
    while i < n
        invariant
            i <= n,
            n == s@.len(),
            n > 0,
            forall|j: int| 0 <= j < i ==> is_token_char(#[trigger] s@[j]),
        decreases n - i,
    {
        if !is_token_char_exec(s.get_char(i)) {
            return false;
        }
        i = i + 1;
    }
    true
}

fn check_header_value(s: &str) -> (r: bool)
    ensures
        r == valid_header_value(s@),
{
    let n = s.unicode_len();
    let mut i: usize = 0;
    while i < n
        invariant
            i <= n,
            n == s@.len(),
            forall|j: int| 0 <= j < i ==> is_value_char(#[trigger] s@[j]),
        decreases n - i,
    {
        let c = s.get_char(i);
        if !(c == '\t' || (32 <= (c as u32) && (c as u32) != 127)) {
            return false;
        }
        i = i + 1;
    }
    true
}

/// The pairs of a header set that are well-formed enough to go on the wire,
/// in their original order.
pub open spec fn sendable_headers(hs: HeaderSeq) -> HeaderSeq
    decreases hs.len(),
{
    if hs.len() == 0 {
        Seq::empty()
    } else {
        (if valid_header_name(hs[0].0) && valid_header_value(hs[0].1) {
            seq![hs[0]]
        } else {
            Seq::empty()
        }) + sendable_headers(hs.drop_first())
    }
}

proof fn lemma_sendable_headers_snoc(hs: HeaderSeq, p: (Seq<char>, Seq<char>))
    ensures
        sendable_headers(hs.push(p)) == sendable_headers(hs) + (if valid_header_name(p.0)
            && valid_header_value(p.1) {
            seq![p]
        } else {
            Seq::<(Seq<char>, Seq<char>)>::empty()
        }),
    decreases hs.len(),
{
    let tail: HeaderSeq = if valid_header_name(p.0) && valid_header_value(p.1) {
        seq![p]
    } else {
        Seq::empty()
    };
    assert(hs.push(p).len() == hs.len() + 1);
    if hs.len() == 0 {
        assert(hs.push(p)[0] == p);
        assert(hs.push(p).drop_first() =~= Seq::<(Seq<char>, Seq<char>)>::empty());
        assert(sendable_headers(Seq::<(Seq<char>, Seq<char>)>::empty())
            == Seq::<(Seq<char>, Seq<char>)>::empty());
        assert(sendable_headers(hs.push(p)) =~= sendable_headers(hs) + tail);
    } else {
        assert(hs.push(p)[0] == hs[0]);
        assert(hs.push(p).drop_first() =~= hs.drop_first().push(p));
        lemma_sendable_headers_snoc(hs.drop_first(), p);
        assert(sendable_headers(hs.push(p)) =~= sendable_headers(hs) + tail);
    }
}

/// Drops header pairs whose name or value could not go on the wire; the
/// request is sent with the remaining pairs rather than failing whole.
pub fn filter_valid_headers(headers: &Vec<(String, String)>) -> (r: Vec<(String, String)>)
    ensures
        r.deep_view() == sendable_headers(headers.deep_view()),
{
    let ghost hv: HeaderSeq = headers.deep_view();
    let mut out: Vec<(String, String)> = Vec::new();
    let mut i: usize = 0;
    proof {
        assert(hv.take(0) =~= Seq::<(Seq<char>, Seq<char>)>::empty());
        assert(out.deep_view() =~= sendable_headers(hv.take(0)));
    }
    while i < headers.len()
        invariant
            i <= headers.len(),
            hv == headers.deep_view(),
            hv.len() == headers.len(),
            forall|j: int| 0 <= j < headers.len() ==> hv[j] == (headers[j].0@, headers[j].1@),
            out.deep_view() == sendable_headers(hv.take(i as int)),
        decreases headers.len() - i,
    {
        let ghost prev = out.deep_view();
        let name_ok = check_header_name(headers[i].0.as_str());
        let value_ok = check_header_value(headers[i].1.as_str());
        if name_ok && value_ok {
            let pair = (headers[i].0.clone(), headers[i].1.clone());
            out.push(pair);
            proof {
                assert(out.deep_view() =~= prev.push(hv[i as int]));
                assert(prev.push(hv[i as int]) =~= prev + seq![hv[i as int]]);
            }
        }
        proof {
            lemma_sendable_headers_snoc(hv.take(i as int), hv[i as int]);
            assert(hv.take(i + 1) =~= hv.take(i as int).push(hv[i as int]));
            assert(out.deep_view() =~= sendable_headers(hv.take(i + 1)));
        }
        i = i + 1;
    }
    proof {
        assert(hv.take(headers.len() as int) =~= hv);
    }
    out
}

/// Whether a status code counts as a success for display styling.
pub open spec fn is_success_code(code: u16) -> bool {
    200 <= code && code < 300
}

/// Success classification of a status code: true exactly for `200..=299`.
pub fn classify_status(code: u16) -> (r: bool)
    ensures
        r == is_success_code(code),
{
    200 <= code && code < 300
}

/// The normalized exchange built from what came back on the wire.
pub open spec fn normalized_response(
    status_code: u16,
    reason: Seq<char>,
    headers: HeaderSeq,
    raw_body: Seq<char>,
    elapsed_micros: nat,
    content_length: Option<u64>,
) -> ApiResponseModel {
    ApiResponseModel {
        body: formatted_body(raw_body),
        headers: header_lines(headers),
        status: status_line(status_code, reason),
        status_code: status_code,
        time: elapsed_str(elapsed_micros),
        size: size_str(
            match content_length {
                Some(n) => n as nat,
                None => 0,
            },
        ),
    }
}

/// Turns the raw outcome of one network exchange into the normalized value
/// the application displays and stores: the body pretty-printed or replaced
/// by a placeholder, headers flattened to lines, the status line assembled,
/// and timing and size rendered as text. A missing transport length counts
/// as zero.
pub fn normalize_response(
    status_code: u16,
    reason: &str,
    headers: &Vec<(String, String)>,
    raw_body: &str,
    elapsed_micros: u64,
    content_length: Option<u64>,
) -> (r: ApiResponse)
    ensures
        r@ == normalized_response(
            status_code,
            reason@,
            headers.deep_view(),
            raw_body@,
            elapsed_micros as nat,
            content_length,
        ),
{
    let size_value: u64 = match content_length {
        Some(n) => n,
        None => 0,
    };
    ApiResponse {
        body: format_body(raw_body),
        headers: build_header_text(headers),
        status: format_status(status_code, reason),
        status_code: status_code,
        time: format_elapsed(elapsed_micros),
        size: format_size(size_value),
    }
}

} // verus!
