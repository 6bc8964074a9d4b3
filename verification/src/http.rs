//! Requests as they come in, responses as they go out, and the health check.

use vstd::prelude::*;
use crate::escape;
use crate::escape::escape_json;
use crate::form;
use crate::form::from_utf8_lossy;
use crate::json;
use crate::number;
use crate::number::{parse_number, push_decimal};
use crate::text;
use crate::text::{strip_text, text_before, text_begins_with, trim, trim_end, two_words};

verus! {

// ---------------------------------------------------------------------------
// Requests
// ---------------------------------------------------------------------------

/// The most bytes of a body that are read.
pub const MAX_BODY: usize = 16_384;

/// A request that has been read.
#[derive(Debug)]
pub struct Request {
    pub method: String,
    pub path: String,
    pub body: String,
}

/// The model of a request.
#[verifier::ext_equal]
pub struct RequestView {
    pub method: Seq<char>,
    pub path: Seq<char>,
    pub body: Seq<char>,
}

impl View for Request {
    type V = RequestView;

    open spec fn view(&self) -> RequestView {
        RequestView { method: self.method@, path: self.path@, body: self.body@ }
    }
}

/// A request of which the body is still to come.
#[derive(Debug)]
pub struct RequestHead {
    pub method: String,
    pub path: String,
    pub content_length: usize,
}

/// The model of a request of which the body is still to come.
#[verifier::ext_equal]
pub struct HeadView {
    pub method: Seq<char>,
    pub path: Seq<char>,
    pub content_length: nat,
}

impl View for RequestHead {
    type V = HeadView;

    open spec fn view(&self) -> HeadView {
        HeadView {
            method: self.method@,
            path: self.path@,
            content_length: self.content_length as nat,
        }
    }
}

/// The path that the second word of a request line asks for: without the query,
/// and the root where the word is missing.
pub open spec fn target_path(target: Seq<char>) -> Seq<char> {
    if target.len() == 0 {
        "/"@
    } else {
        text::before(target, '?')
    }
}

/// What the first line of a request tells: its method and its path.
pub open spec fn head_of(first_line: Seq<char>) -> HeadView {
    HeadView {
        method: text::first_word(first_line),
        path: target_path(text::first_word(text::after_first_word(first_line))),
        content_length: 0,
    }
}

/// Reads the first line of a request. An empty one means that the connection
/// was closed without a request.
pub fn read_request_line(first_line: &str) -> (r: Option<RequestHead>)
    ensures
        match r {
            Some(head) => first_line@.len() > 0 && head@ == head_of(first_line@),
            None => first_line@.len() == 0,
        },
{
    if first_line.is_empty() {
        return None;
    }
    let (method, target): (String, String) = two_words(first_line);
    let path: String = if target.as_str().is_empty() {
        "/".to_string()
    } else {
        text_before(target.as_str(), '?')
    };
    Some(RequestHead { method, path, content_length: 0 })
}

/// The length that a header gives as its value: zero if it is not a number that
/// fits, and never more than `MAX_BODY`.
pub open spec fn length_value(value: Seq<char>) -> nat {
    match number::parsed(text::trimmed(value), usize::MAX as nat) {
        Some(n) => if n <= MAX_BODY {
            n
        } else {
            MAX_BODY as nat
        },
        None => 0,
    }
}

/// The length of the body that a header line gives, if it gives one.
pub open spec fn header_length(line: Seq<char>) -> Option<nat> {
    let trimmed = text::trimmed_end(line);
    if text::begins_with(trimmed, "Content-Length:"@) {
        Some(length_value(trimmed.skip("Content-Length:"@.len() as int)))
    } else if text::begins_with(trimmed, "content-length:"@) {
        Some(length_value(trimmed.skip("content-length:"@.len() as int)))
    } else {
        None
    }
}

/// Tells whether a line ends the headers: nothing but white space.
pub open spec fn ends_headers(line: Seq<char>) -> bool {
    text::trimmed_end(line).len() == 0
}

/// What is known of a request once a header line has been read.
pub open spec fn with_header(head: HeadView, line: Seq<char>) -> HeadView {
    match header_length(line) {
        Some(n) => HeadView { content_length: n, ..head },
        None => head,
    }
}

/// Reads the value of a length header.
fn read_length(value: &str) -> (r: usize)
    ensures
        r == length_value(value@),
{
    match parse_number(trim(value).as_str(), usize::MAX as u64) {
        Some(n) => if n <= MAX_BODY as u64 {
            n as usize
        } else {
            MAX_BODY
        },
        None => 0,
    }
}

/// Reads one header line. Returns whether it ended the headers.
pub fn read_header(head: &mut RequestHead, line: &str) -> (done: bool)
    ensures
        done == ends_headers(line@),
        done ==> *final(head) == *old(head),
        !done ==> final(head)@ == with_header(old(head)@, line@),
{
    let trimmed: String = trim_end(line);
    if trimmed.as_str().is_empty() {
        return true;
    }
    match strip_text(trimmed.as_str(), "Content-Length:") {
        Some(value) => {
            head.content_length = read_length(value.as_str());
        },
        None => {
            if let Some(value) = strip_text(trimmed.as_str(), "content-length:") {
                head.content_length = read_length(value.as_str());
            }
        },
    }
    false
}

/// The request, once its body has been read. The body has no more characters
/// than there were bytes.
pub fn finish_request(head: RequestHead, body: &[u8]) -> (r: Request)
    ensures
        r@ == (RequestView {
            method: head.method@,
            path: head.path@,
            body: form::utf8_text(body@),
        }),
        r@.body.len() <= body@.len(),
{
    Request { method: head.method, path: head.path, body: from_utf8_lossy(body) }
}

/// What is known of a request once all the header lines up to the one that
/// ends the headers have been read.
pub open spec fn head_after(head: HeadView, lines: Seq<Seq<char>>) -> HeadView
    decreases lines.len(),
{
    if lines.len() == 0 || ends_headers(lines[0]) {
        head
    } else {
        head_after(with_header(head, lines[0]), lines.drop_first())
    }
}

/// However long the body is said to be, no more than `MAX_BODY` bytes of it are
/// read, and the method and the path are those of the first line.
pub proof fn law_body_is_bounded(first_line: Seq<char>, lines: Seq<Seq<char>>)
    ensures
        head_after(head_of(first_line), lines).content_length <= MAX_BODY,
        MAX_BODY == 16_384,
        head_after(head_of(first_line), lines).method == head_of(first_line).method,
        head_after(head_of(first_line), lines).path == head_of(first_line).path,
{
    lemma_head_after(head_of(first_line), lines);
}

proof fn lemma_head_after(head: HeadView, lines: Seq<Seq<char>>)
    requires
        head.content_length <= MAX_BODY,
    ensures
        head_after(head, lines).content_length <= MAX_BODY,
        head_after(head, lines).method == head.method,
        head_after(head, lines).path == head.path,
    decreases lines.len(),
{
    if lines.len() > 0 && !ends_headers(lines[0]) {
        lemma_head_after(with_header(head, lines[0]), lines.drop_first());
    }
}

/// The last header that gives the length of the body counts.
pub proof fn law_last_length_counts(head: HeadView, lines: Seq<Seq<char>>, last: Seq<char>)
    requires
        forall|i: int| 0 <= i < lines.len() ==> !ends_headers(#[trigger] lines[i]),
        header_length(last) is Some,
    ensures
        head_after(head, lines.push(last)).content_length == header_length(last).unwrap(),
    decreases lines.len(),
{
    let all = lines.push(last);
    if lines.len() == 0 {
        assert(all.drop_first() =~= Seq::<Seq<char>>::empty());
        reveal_strlit("Content-Length:");
        reveal_strlit("content-length:");
        assert(!ends_headers(last));
        assert(head_after(with_header(head, last), all.drop_first()) == with_header(head, last));
    } else {
        let rest = lines.drop_first();
        assert forall|i: int| 0 <= i < rest.len() implies !ends_headers(#[trigger] rest[i]) by {
            assert(rest[i] == lines[i + 1]);
        }
        assert(!ends_headers(lines[0]));
        assert(all.drop_first() =~= rest.push(last));
        law_last_length_counts(with_header(head, lines[0]), rest, last);
    }
}

// ---------------------------------------------------------------------------
// Responses
// ---------------------------------------------------------------------------

/// What stands before the body of a response.
pub open spec fn response_head(
    status: Seq<char>,
    content_type: Seq<char>,
    length: nat,
) -> Seq<char> {
    "HTTP/1.1 "@ + status + "\r\nContent-Type: "@ + content_type + "\r\nContent-Length: "@
        + number::decimal(length) + "\r\nConnection: close\r\n\r\n"@
}

/// A response.
pub open spec fn response_text(
    status: Seq<char>,
    content_type: Seq<char>,
    body: Seq<char>,
) -> Seq<char> {
    response_head(status, content_type, vstd::utf8::encode_utf8(body).len()) + body
}

/// The response with the given status, type and body.
pub fn response(status: &str, content_type: &str, body: &str) -> (r: String)
    ensures
        r@ == response_text(status@, content_type@, body@),
{
    let mut out: String = "HTTP/1.1 ".to_string();
    out.append(status);
    out.append("\r\nContent-Type: ");
    out.append(content_type);
    out.append("\r\nContent-Length: ");
    push_decimal(&mut out, body.as_bytes().len() as u64);
    out.append("\r\nConnection: close\r\n\r\n");
    out.append(body);
    out
}

/// A page.
pub open spec fn html_text(body: Seq<char>) -> Seq<char> {
    response_text("200 OK"@, "text/html; charset=utf-8"@, body)
}

/// The response that carries a page.
pub fn html_response(body: &str) -> (r: String)
    ensures
        r@ == html_text(body@),
{
    response("200 OK", "text/html; charset=utf-8", body)
}

/// A style sheet.
pub open spec fn css_text(body: Seq<char>) -> Seq<char> {
    response_text("200 OK"@, "text/css; charset=utf-8"@, body)
}

/// The response that carries a style sheet.
pub fn css_response(body: &str) -> (r: String)
    ensures
        r@ == css_text(body@),
{
    response("200 OK", "text/css; charset=utf-8", body)
}

/// A script.
pub open spec fn js_text(body: Seq<char>) -> Seq<char> {
    response_text("200 OK"@, "text/javascript; charset=utf-8"@, body)
}

/// The response that carries a script.
pub fn js_response(body: &str) -> (r: String)
    ensures
        r@ == js_text(body@),
{
    response("200 OK", "text/javascript; charset=utf-8", body)
}

/// A JSON value.
pub open spec fn json_text(body: Seq<char>) -> Seq<char> {
    response_text("200 OK"@, "application/json; charset=utf-8"@, body)
}

/// The response that carries a JSON value.
pub fn json_response(body: &str) -> (r: String)
    ensures
        r@ == json_text(body@),
{
    response("200 OK", "application/json; charset=utf-8", body)
}

/// The JSON object that carries an error message.
pub open spec fn error_body(message: Seq<char>) -> Seq<char> {
    "{\"error\":\""@ + escape::json_escaped(message) + "\"}"@
}

/// Renders the JSON object that carries an error message.
pub fn error_json(message: &str) -> (r: String)
    ensures
        r@ == error_body(message@),
{
    let mut out: String = "{\"error\":\"".to_string();
    out.append(escape_json(message).as_str());
    out.append("\"}");
    out
}

/// The refusal of what was submitted.
pub open spec fn error_text(message: Seq<char>) -> Seq<char> {
    response_text(
        "422 Unprocessable Entity"@,
        "application/json; charset=utf-8"@,
        error_body(message),
    )
}

/// The response that refuses what was submitted.
pub fn error_response(message: &str) -> (r: String)
    ensures
        r@ == error_text(message@),
{
    response(
        "422 Unprocessable Entity",
        "application/json; charset=utf-8",
        error_json(message).as_str(),
    )
}

/// The report of a failure of the server.
pub open spec fn server_error_text(message: Seq<char>) -> Seq<char> {
    response_text(
        "500 Internal Server Error"@,
        "application/json; charset=utf-8"@,
        error_body(message),
    )
}

/// The response that reports a failure of the server.
pub fn server_error_response(message: &str) -> (r: String)
    ensures
        r@ == server_error_text(message@),
{
    response(
        "500 Internal Server Error",
        "application/json; charset=utf-8",
        error_json(message).as_str(),
    )
}

/// The answer to a request for something that is not there.
pub open spec fn not_found_text() -> Seq<char> {
    response_text("404 Not Found"@, "text/plain; charset=utf-8"@, "Not found"@)
}

/// The response to a request for something that is not there.
pub fn not_found_response() -> (r: String)
    ensures
        r@ == not_found_text(),
{
    response("404 Not Found", "text/plain; charset=utf-8", "Not found")
}

/// A response gives the length of its body in bytes: reading the number in its
/// header gives that length back, and what follows the header has it.
pub proof fn law_response_length(
    status: Seq<char>,
    content_type: Seq<char>,
    body: Seq<char>,
    max: nat,
)
    requires
        vstd::utf8::encode_utf8(body).len() <= max,
    ensures
        ({
            let length = vstd::utf8::encode_utf8(body).len();
            let head = response_head(status, content_type, length);
            let text = response_text(status, content_type, body);
            &&& number::parsed(number::decimal(length), max) == Some(length)
            &&& text == head + body
            &&& vstd::utf8::encode_utf8(text).len() == vstd::utf8::encode_utf8(head).len() + length
        }),
{
    let length = vstd::utf8::encode_utf8(body).len();
    number::law_decimal_read_back(length, max);
    lemma_encode_concat(response_head(status, content_type, length), body);
}

proof fn lemma_encode_concat(a: Seq<char>, b: Seq<char>)
    ensures
        vstd::utf8::encode_utf8(a + b) == vstd::utf8::encode_utf8(a) + vstd::utf8::encode_utf8(b),
    decreases a.len(),
{
    if a.len() == 0 {
        assert(a + b =~= b);
        assert(vstd::utf8::encode_utf8(a) + vstd::utf8::encode_utf8(b)
            =~= vstd::utf8::encode_utf8(b));
    } else {
        lemma_encode_concat(a.drop_first(), b);
        assert((a + b).drop_first() =~= a.drop_first() + b);
        assert(vstd::utf8::encode_utf8(a + b) =~= vstd::utf8::encode_utf8(a)
            + vstd::utf8::encode_utf8(b));
    }
}

/// An error response carries its message: read as JSON, the text between the
/// quotes is the message, without control characters.
pub proof fn law_error_carries_message(message: Seq<char>)
    ensures
        error_body(message) == "{\"error\":\""@ + escape::json_escaped(message) + "\"}"@,
        escape::json_string_value(escape::json_escaped(message)) == Some(
            escape::without_controls(message),
        ),
{
    escape::law_json_escaped_read_back(message);
}

// ---------------------------------------------------------------------------
// The health check
// ---------------------------------------------------------------------------

/// The request that the health check sends.
pub const HEALTH_REQUEST: &'static str =
    "GET /health HTTP/1.1\r\nHost: localhost\r\nConnection: close\r\n\r\n";

/// The address that the health check connects to: that of the server, or the
/// local one where the server listens on all.
pub open spec fn health_address(address: Seq<char>) -> Seq<char> {
    if text::begins_with(address, "0.0.0.0:"@) {
        "127.0.0.1:"@ + address.skip("0.0.0.0:"@.len() as int)
    } else {
        address
    }
}

/// The address that the health check connects to.
pub fn health_target(address: &str) -> (r: String)
    ensures
        r@ == health_address(address@),
{
    match strip_text(address, "0.0.0.0:") {
        Some(port) => {
            let mut target: String = "127.0.0.1:".to_string();
            target.append(port.as_str());
            target
        },
        None => address.to_string(),
    }
}

/// Tells whether a response is that of a healthy server.
pub open spec fn healthy(response: Seq<char>) -> bool {
    text::begins_with(response, "HTTP/1.1 200 OK"@)
}

/// Tells whether a response is that of a healthy server.
pub fn is_healthy(response: &str) -> (r: bool)
    ensures
        r == healthy(response@),
        r == text::begins_with(response@, "HTTP/1.1 200 OK"@),
{
    text_begins_with(response, "HTTP/1.1 200 OK")
}

// ---------------------------------------------------------------------------
// Reading responses
// ---------------------------------------------------------------------------

/// The head of a message: what stands before the first blank line.
pub open spec fn message_head(message: Seq<char>) -> Seq<char> {
    text::before_text(message, "\r\n\r\n"@)
}

/// The body of a message: what follows the first blank line.
pub open spec fn message_body(message: Seq<char>) -> Seq<char> {
    text::after_text(message, "\r\n\r\n"@)
}

/// The first line of a message.
pub open spec fn message_start(message: Seq<char>) -> Seq<char> {
    text::before(message_head(message), '\r')
}

/// The value of the first header of a message with the given name.
pub open spec fn message_header(message: Seq<char>, name: Seq<char>) -> Seq<char> {
    text::before(
        text::after_text(message_head(message), "\r\n"@ + name + ": "@),
        '\r',
    )
}

/// A response is read as it was meant: its first line carries the status, its
/// headers carry the type, the number of UTF-8 bytes that follow the blank line,
/// in decimal, and that the connection is closed; and what follows the blank
/// line is the body.
pub proof fn law_response_is_read(
    status: Seq<char>,
    content_type: Seq<char>,
    body: Seq<char>,
    max: nat,
)
    requires
        !status.contains('\r'),
        !content_type.contains('\r'),
    ensures
        ({
            let message = response_text(status, content_type, body);
            let length = vstd::utf8::encode_utf8(message_body(message)).len();
            &&& message_body(message) == body
            &&& message_start(message) == "HTTP/1.1 "@ + status
            &&& message_header(message, "Content-Type"@) == content_type
            &&& message_header(message, "Connection"@) == "close"@
            &&& number::number(message_header(message, "Content-Length"@)) == length
            &&& length <= max ==> number::parsed(
                message_header(message, "Content-Length"@),
                max,
            ) == Some(length)
        }),
{
    let message = response_text(status, content_type, body);
    let length = vstd::utf8::encode_utf8(body).len();
    let digits = number::decimal(length);
    let blank = "\r\n\r\n"@;
    let start = "HTTP/1.1 "@ + status;
    let type_mark = "\r\n"@ + "Content-Type"@ + ": "@;
    let length_mark = "\r\n"@ + "Content-Length"@ + ": "@;
    let connection_mark = "\r\n"@ + "Connection"@ + ": "@;
    lemma_marks();
    number::law_decimal_is_plain(length);
    lemma_no_cr(status);
    lemma_no_cr(content_type);
    assert forall|i: int| 0 <= i < digits.len() implies #[trigger] digits[i] != '\r' by {
        assert(number::is_digit(digits[i]));
    }
    let a = start + type_mark + content_type;
    let b = a + length_mark + digits;
    let head = b + connection_mark + "close"@;
    assert(b + (connection_mark + "close"@ + blank) + body =~= head + blank + body);
    assert(message == head + blank + body);
    lemma_plain(start, blank, 2);
    lemma_marked(start, type_mark, content_type, blank, 2);
    lemma_marked(a, length_mark, digits, blank, 2);
    lemma_marked(b, connection_mark, "close"@, blank, 2);
    text::lemma_find_text(head, blank, body, 2);
    let after_length = connection_mark + "close"@;
    let after_type = length_mark + digits + after_length;
    assert(head =~= a + length_mark + digits + after_length);
    assert(head =~= start + type_mark + content_type + after_type);
    let none = Seq::<char>::empty();
    assert(head =~= head + none);
    lemma_line(start, type_mark + content_type + after_type);
    assert(head =~= start + (type_mark + content_type + after_type));
    lemma_plain(start, type_mark, 2);
    lemma_header(start, type_mark, content_type, after_type, 2);
    lemma_plain(start, length_mark, 10);
    lemma_marked(start, type_mark, content_type, length_mark, 10);
    lemma_header(a, length_mark, digits, after_length, 10);
    lemma_plain(start, connection_mark, 5);
    lemma_marked(start, type_mark, content_type, connection_mark, 5);
    lemma_marked(a, length_mark, digits, connection_mark, 5);
    lemma_header(b, connection_mark, "close"@, none, 5);
    if length <= max {
        number::law_decimal_read_back(length, max);
    }
}

/// The marks of the headers begin with a carriage return and are told apart.
proof fn lemma_marks()
    ensures
        ({
            let blank = "\r\n\r\n"@;
            let type_mark = "\r\n"@ + "Content-Type"@ + ": "@;
            let length_mark = "\r\n"@ + "Content-Length"@ + ": "@;
            let connection_mark = "\r\n"@ + "Connection"@ + ": "@;
            &&& "\r\nContent-Type: "@ == type_mark
            &&& "\r\nContent-Length: "@ == length_mark
            &&& "\r\nConnection: close\r\n\r\n"@ == connection_mark + "close"@ + blank
            &&& blank.len() == 4 && blank[0] == '\r'
            &&& type_mark.len() == 16 && type_mark[0] == '\r'
            &&& length_mark.len() == 18 && length_mark[0] == '\r'
            &&& connection_mark.len() == 14 && connection_mark[0] == '\r'
            &&& text::apart(type_mark, blank, 2)
            &&& text::apart(length_mark, blank, 2)
            &&& text::apart(connection_mark, blank, 2)
            &&& text::apart(type_mark, length_mark, 10)
            &&& text::apart(type_mark, connection_mark, 5)
            &&& text::apart(length_mark, connection_mark, 5)
        }),
        forall|i: int| 0 <= i < "close"@.len() ==> #[trigger] "close"@[i] != '\r',
        forall|i: int| 0 <= i < "HTTP/1.1 "@.len() ==> #[trigger] "HTTP/1.1 "@[i] != '\r',
{
    reveal_strlit("HTTP/1.1 ");
    reveal_strlit("\r\n");
    reveal_strlit(": ");
    reveal_strlit("close");
    reveal_strlit("Content-Type");
    reveal_strlit("Content-Length");
    reveal_strlit("Connection");
    reveal_strlit("\r\n\r\n");
    reveal_strlit("\r\nContent-Type: ");
    reveal_strlit("\r\nContent-Length: ");
    reveal_strlit("\r\nConnection: close\r\n\r\n");
    assert("\r\n"@ + "Content-Type"@ + ": "@ =~= "\r\nContent-Type: "@);
    assert("\r\n"@ + "Content-Length"@ + ": "@ =~= "\r\nContent-Length: "@);
    let connection_mark = "\r\n"@ + "Connection"@ + ": "@;
    assert("\r\nConnection: close\r\n\r\n"@ =~= connection_mark + "close"@ + "\r\n\r\n"@);
}

/// A line ends at the carriage return that follows it, or at the end.
proof fn lemma_line(line: Seq<char>, tail: Seq<char>)
    requires
        forall|i: int| 0 <= i < line.len() ==> #[trigger] line[i] != '\r',
        tail.len() > 0 ==> tail[0] == '\r',
    ensures
        text::before(line + tail, '\r') == line,
{
    lemma_no_cr(line);
    if tail.len() > 0 {
        assert(line + tail =~= line + seq!['\r'] + tail.drop_first());
        text::law_first_parts(line, '\r', tail.drop_first());
    } else {
        assert(line + tail =~= line);
        text::law_first_parts(line, '\r', tail);
    }
}

proof fn lemma_header(
    a: Seq<char>,
    mark: Seq<char>,
    value: Seq<char>,
    tail: Seq<char>,
    d: int,
)
    requires
        mark.len() > 2,
        0 <= d < mark.len(),
        text::apart(a, mark, d),
        forall|i: int| 0 <= i < value.len() ==> #[trigger] value[i] != '\r',
        tail.len() > 0 ==> tail[0] == '\r',
    ensures
        text::before(text::after_text(a + mark + value + tail, mark), '\r') == value,
{
    assert(a + mark + value + tail =~= a + mark + (value + tail));
    text::lemma_find_text(a, mark, value + tail, d);
    lemma_line(value, tail);
}

/// A text without carriage returns is apart from any mark that begins with one.
proof fn lemma_plain(s: Seq<char>, mark: Seq<char>, d: int)
    requires
        forall|i: int| 0 <= i < s.len() ==> #[trigger] s[i] != '\r',
        mark[0] == '\r',
    ensures
        text::apart(s, mark, d),
{
}

proof fn lemma_marked(a: Seq<char>, own: Seq<char>, value: Seq<char>, mark: Seq<char>, d: int)
    requires
        text::apart(a, mark, d),
        text::apart(own, mark, d),
        forall|i: int| 0 <= i < value.len() ==> #[trigger] value[i] != '\r',
        mark[0] == '\r',
        d >= 0,
    ensures
        text::apart(a + own + value, mark, d),
{
    text::lemma_apart_concat(a, own, mark, d);
    lemma_plain(value, mark, d);
    text::lemma_apart_concat(a + own, value, mark, d);
}

proof fn lemma_no_cr(s: Seq<char>)
    ensures
        !s.contains('\r') <==> forall|i: int| 0 <= i < s.len() ==> #[trigger] s[i] != '\r',
{
    if !s.contains('\r') {
        assert forall|i: int| 0 <= i < s.len() implies #[trigger] s[i] != '\r' by {
            assert(s.contains(s[i]));
        }
    }
}

/// Pages, style sheets, scripts and JSON values are sent with success, each
/// with its type, and their text is what follows the blank line.
pub proof fn law_contents_are_read(body: Seq<char>)
    ensures
        message_start(html_text(body)) == "HTTP/1.1 200 OK"@,
        message_header(html_text(body), "Content-Type"@) == "text/html; charset=utf-8"@,
        message_body(html_text(body)) == body,
        message_start(css_text(body)) == "HTTP/1.1 200 OK"@,
        message_header(css_text(body), "Content-Type"@) == "text/css; charset=utf-8"@,
        message_body(css_text(body)) == body,
        message_start(js_text(body)) == "HTTP/1.1 200 OK"@,
        message_header(js_text(body), "Content-Type"@) == "text/javascript; charset=utf-8"@,
        message_body(js_text(body)) == body,
        message_start(json_text(body)) == "HTTP/1.1 200 OK"@,
        message_header(json_text(body), "Content-Type"@) == "application/json; charset=utf-8"@,
        message_body(json_text(body)) == body,
{
    lemma_types_are_plain();
    reveal_strlit("HTTP/1.1 200 OK");
    reveal_strlit("HTTP/1.1 ");
    reveal_strlit("200 OK");
    assert("HTTP/1.1 "@ + "200 OK"@ =~= "HTTP/1.1 200 OK"@);
    assert(!"200 OK"@.contains('\r'));
    law_response_is_read("200 OK"@, "text/html; charset=utf-8"@, body, 0);
    law_response_is_read("200 OK"@, "text/css; charset=utf-8"@, body, 0);
    law_response_is_read("200 OK"@, "text/javascript; charset=utf-8"@, body, 0);
    law_response_is_read("200 OK"@, "application/json; charset=utf-8"@, body, 0);
}

proof fn lemma_types_are_plain()
    ensures
        !"text/html; charset=utf-8"@.contains('\r'),
        !"text/css; charset=utf-8"@.contains('\r'),
        !"text/javascript; charset=utf-8"@.contains('\r'),
        !"application/json; charset=utf-8"@.contains('\r'),
        !"text/plain; charset=utf-8"@.contains('\r'),
{
    reveal_strlit("text/html; charset=utf-8");
    reveal_strlit("text/css; charset=utf-8");
    reveal_strlit("text/javascript; charset=utf-8");
    reveal_strlit("application/json; charset=utf-8");
    reveal_strlit("text/plain; charset=utf-8");
}

/// The JSON object of an error has one member, `error`: the message, of which
/// all is there but stray control characters.
pub proof fn law_error_body_is_read(message: Seq<char>)
    ensures
        json::object(error_body(message)) == Some(
            Map::<Seq<char>, json::Value>::empty().insert(
                "error"@,
                json::Value::Text(json::kept(message)),
            ),
        ),
{
    reveal_strlit("error");
    reveal_strlit("{\"error\":\"");
    reveal_strlit("\"}");
    let member = json::text_member("error"@, message);
    let end = seq!['}'];
    assert("{\"error\":\""@ =~= seq!['{'] + (seq!['"'] + "error"@ + seq!['"', ':', '"']));
    assert("\"}"@ =~= seq!['"'] + end);
    assert(error_body(message) =~= seq!['{'] + (member + end));
    assert((seq!['{'] + (member + end)).drop_first() =~= member + end);
    json::law_text_member_is_read("error"@, message, end);
}

/// Refusals and failures tell so in their first line, and why in their body; so
/// does the answer to a request for something that is not there.
pub proof fn law_errors_are_read(message: Seq<char>)
    ensures
        ({
            let told = Some(
                Map::<Seq<char>, json::Value>::empty().insert(
                    "error"@,
                    json::Value::Text(json::kept(message)),
                ),
            );
            &&& message_start(error_text(message)) == "HTTP/1.1 422 Unprocessable Entity"@
            &&& message_header(error_text(message), "Content-Type"@)
                == "application/json; charset=utf-8"@
            &&& json::object(message_body(error_text(message))) == told
            &&& message_start(server_error_text(message)) == "HTTP/1.1 500 Internal Server Error"@
            &&& message_header(server_error_text(message), "Content-Type"@)
                == "application/json; charset=utf-8"@
            &&& json::object(message_body(server_error_text(message))) == told
            &&& message_start(not_found_text()) == "HTTP/1.1 404 Not Found"@
            &&& message_body(not_found_text()) == "Not found"@
        }),
{
    lemma_types_are_plain();
    law_error_body_is_read(message);
    reveal_strlit("HTTP/1.1 ");
    reveal_strlit("422 Unprocessable Entity");
    reveal_strlit("HTTP/1.1 422 Unprocessable Entity");
    reveal_strlit("500 Internal Server Error");
    reveal_strlit("HTTP/1.1 500 Internal Server Error");
    reveal_strlit("404 Not Found");
    reveal_strlit("HTTP/1.1 404 Not Found");
    assert("HTTP/1.1 "@ + "422 Unprocessable Entity"@ =~= "HTTP/1.1 422 Unprocessable Entity"@);
    assert("HTTP/1.1 "@ + "500 Internal Server Error"@ =~= "HTTP/1.1 500 Internal Server Error"@);
    assert("HTTP/1.1 "@ + "404 Not Found"@ =~= "HTTP/1.1 404 Not Found"@);
    assert(!"422 Unprocessable Entity"@.contains('\r'));
    assert(!"500 Internal Server Error"@.contains('\r'));
    assert(!"404 Not Found"@.contains('\r'));
    law_response_is_read(
        "422 Unprocessable Entity"@,
        "application/json; charset=utf-8"@,
        error_body(message),
        0,
    );
    law_response_is_read(
        "500 Internal Server Error"@,
        "application/json; charset=utf-8"@,
        error_body(message),
        0,
    );
    law_response_is_read("404 Not Found"@, "text/plain; charset=utf-8"@, "Not found"@, 0);
}

/// A server is taken to be well exactly if it answers with the status `200 OK`.
pub proof fn law_healthy(status: Seq<char>, content_type: Seq<char>, body: Seq<char>)
    ensures
        healthy(response_text(status, content_type, body)) <==> text::begins_with(
            status,
            "200 OK"@,
        ),
{
    reveal_strlit("HTTP/1.1 ");
    reveal_strlit("200 OK");
    reveal_strlit("HTTP/1.1 200 OK");
    reveal_strlit("\r\nContent-Type: ");
    let s = response_text(status, content_type, body);
    let head = "HTTP/1.1 "@ + status + "\r\nContent-Type: "@;
    let rest = s.skip(head.len() as int);
    assert(s =~= head + rest);
    assert forall|i: int| 0 <= i < status.len() implies s[9 + i] == status[i] by {}
    assert(s[9 + status.len() as int] == '\r');
    if text::begins_with(status, "200 OK"@) {
        assert(status.take(6) == "200 OK"@);
        assert forall|i: int| 0 <= i < 6 implies status[i] == "200 OK"@[i] by {
            assert(status.take(6)[i] == status[i]);
        }
        assert(s.take(15) =~= "HTTP/1.1 200 OK"@);
    }
    if healthy(s) {
        let t = s.take(15);
        assert forall|i: int| 0 <= i < 6 implies s[9 + i] == "200 OK"@[i] by {
            assert(t[9 + i] == s[9 + i]);
            assert("HTTP/1.1 200 OK"@[9 + i] == "200 OK"@[i]);
        }
        if status.len() < 6 {
            let k = status.len() as int;
            assert(s[9 + k] == "200 OK"@[k]);
            assert(false);
        }
        assert(status.take(6) =~= "200 OK"@);
    }
}

/// The health check connects to the same port on this machine where the server
/// listens on all addresses, else to where the server listens.
pub proof fn law_health_address(port: Seq<char>, address: Seq<char>)
    ensures
        health_address("0.0.0.0:"@ + port) == "127.0.0.1:"@ + port,
        !text::begins_with(address, "0.0.0.0:"@) ==> health_address(address) == address,
{
    text::law_begins_with("0.0.0.0:"@, port, address);
    assert(("0.0.0.0:"@ + port).skip("0.0.0.0:"@.len() as int) =~= port);
}

// ---------------------------------------------------------------------------
// Reading requests
// ---------------------------------------------------------------------------

/// A request asks with its first word for its second, up to a question mark. If
/// there is no second word, it asks for the root.
pub proof fn law_request_line_is_read(
    a: Seq<char>,
    method: Seq<char>,
    b: Seq<char>,
    path: Seq<char>,
    query: Seq<char>,
    rest: Seq<char>,
)
    requires
        text::all_space(a),
        text::all_space(b),
        b.len() > 0,
        text::no_space(method),
        method.len() > 0,
        text::no_space(path),
        !path.contains('?'),
        path.len() > 0,
        text::no_space(query),
        rest.len() > 0 ==> text::is_space(rest[0]),
    ensures
        head_of(a + method + (b + path + rest)) == (HeadView { method, path, content_length: 0 }),
        head_of(a + method + (b + (path + seq!['?'] + query) + rest)) == (HeadView {
            method,
            path,
            content_length: 0,
        }),
        head_of(a + method + b) == (HeadView { method, path: "/"@, content_length: 0 }),
{
    let target = path + seq!['?'] + query;
    assert forall|i: int| 0 <= i < target.len() implies !text::is_space(#[trigger] target[i]) by {
        if i < path.len() {
            assert(target[i] == path[i]);
        } else if i > path.len() {
            assert(target[i] == query[i - path.len() - 1]);
        }
    }
    assert(text::is_space(b[0]));
    text::law_first_word(a, method, b + path + rest);
    text::law_first_word(b, path, rest);
    text::law_first_word(a, method, b + target + rest);
    text::law_first_word(b, target, rest);
    text::law_first_word(a, method, b);
    text::law_first_parts(path, '?', query);
}

/// A line ends the headers exactly if it holds nothing but white space.
pub proof fn law_blank_line_ends_headers(line: Seq<char>)
    ensures
        ends_headers(line) <==> text::all_space(line),
    decreases line.len(),
{
    if text::all_space(line) {
        let none = Seq::<char>::empty();
        text::law_trimmed_end(none, line);
        assert(none + line =~= line);
    } else if text::is_space(line.last()) {
        let init = line.drop_last();
        if text::all_space(init) {
            assert forall|i: int| 0 <= i < line.len() implies text::is_space(#[trigger] line[i]) by {
                if i < init.len() {
                    assert(line[i] == init[i]);
                }
            }
        }
        law_blank_line_ends_headers(init);
    }
}

/// A header gives the length of the body by its name, in one of two spellings,
/// and the number after it, whatever white space stands around the number. More
/// than 16384 counts as 16384, and what is no number as zero. Under any other
/// name, nothing is given.
pub proof fn law_length_is_read(a: Seq<char>, value: Seq<char>, b: Seq<char>, line: Seq<char>)
    requires
        text::all_space(a),
        text::all_space(b),
        value.len() > 0 ==> !text::is_space(value[0]) && !text::is_space(value.last()),
    ensures
        ({
            let length = match number::parsed(value, usize::MAX as nat) {
                Some(n) => if n < 16_384 {
                    n
                } else {
                    16_384
                },
                None => 0,
            };
            &&& header_length("Content-Length:"@ + (a + value + b)) == Some(length)
            &&& header_length("content-length:"@ + (a + value + b)) == Some(length)
        }),
        !text::begins_with(line, "Content-Length:"@) && !text::begins_with(
            line,
            "content-length:"@,
        ) ==> header_length(line) is None,
{
    lemma_length_value("Content-Length:"@, a, value, b);
    lemma_length_value("content-length:"@, a, value, b);
    lemma_trimmed_end_is_prefix(line);
    let t = text::trimmed_end(line);
    reveal_strlit("Content-Length:");
    reveal_strlit("content-length:");
    if text::begins_with(t, "Content-Length:"@) {
        assert(line.take(15) =~= t.take(15));
    }
    if text::begins_with(t, "content-length:"@) {
        assert(line.take(15) =~= t.take(15));
    }
    let lower = text::trimmed_end("content-length:"@ + (a + value + b));
    assert(lower.take(15)[0] == 'c');
    assert("Content-Length:"@[0] == 'C');
}

proof fn lemma_trimmed_end_is_prefix(s: Seq<char>)
    ensures
        text::trimmed_end(s).len() <= s.len(),
        text::trimmed_end(s) == s.take(text::trimmed_end(s).len() as int),
    decreases s.len(),
{
    if s.len() > 0 && text::is_space(s.last()) {
        lemma_trimmed_end_is_prefix(s.drop_last());
        let t = text::trimmed_end(s);
        assert(s.drop_last().take(t.len() as int) =~= s.take(t.len() as int));
    } else {
        assert(s.take(s.len() as int) =~= s);
    }
}

proof fn lemma_length_value(name: Seq<char>, a: Seq<char>, value: Seq<char>, b: Seq<char>)
    requires
        name == "Content-Length:"@ || name == "content-length:"@,
        text::all_space(a),
        text::all_space(b),
        value.len() > 0 ==> !text::is_space(value[0]) && !text::is_space(value.last()),
    ensures
        ({
            let t = text::trimmed_end(name + (a + value + b));
            &&& text::begins_with(t, name)
            &&& text::trimmed(t.skip(name.len() as int)) == value
        }),
{
    reveal_strlit("Content-Length:");
    reveal_strlit("content-length:");
    let none = Seq::<char>::empty();
    if value.len() == 0 {
        let pad = a + value + b;
        assert forall|i: int| 0 <= i < pad.len() implies text::is_space(#[trigger] pad[i]) by {
            if i < a.len() {
                assert(pad[i] == a[i]);
            } else {
                assert(pad[i] == b[i - a.len()]);
            }
        }
        text::law_trimmed_end(name, pad);
        assert(name.take(name.len() as int) =~= name);
        assert(name.skip(name.len() as int) =~= none + none + none);
        text::law_trimmed(none, none, none);
        assert(value =~= none);
    } else {
        let most = name + a + value;
        assert(name + (a + value + b) =~= most + b);
        text::law_trimmed_end(most, b);
        assert(most =~= name + (a + value));
        text::law_begins_with(name, a + value, most);
        assert(most.skip(name.len() as int) =~= a + value + none);
        text::law_trimmed(a, value, none);
    }
}

/// The length of the body is the one that the last header gives which gives one;
/// what stands behind the blank line does not count, and without such a header
/// the length stays as it was.
pub proof fn law_headers_are_read(
    head: HeadView,
    before: Seq<Seq<char>>,
    line: Seq<char>,
    after: Seq<Seq<char>>,
    blank: Seq<char>,
    more: Seq<Seq<char>>,
)
    requires
        forall|i: int| 0 <= i < before.len() ==> !ends_headers(#[trigger] before[i]),
        forall|i: int|
            0 <= i < after.len() ==> !ends_headers(#[trigger] after[i]) && header_length(
                after[i],
            ) is None,
        header_length(line) is Some,
        ends_headers(blank),
    ensures
        head_after(head, before.push(line) + after + (seq![blank] + more)) == (HeadView {
            method: head.method,
            path: head.path,
            content_length: header_length(line).unwrap(),
        }),
        head_after(head, after + (seq![blank] + more)) == head,
    decreases before.len(),
{
    lemma_quiet_headers(head, after, blank, more);
    let all = before.push(line) + after + (seq![blank] + more);
    if before.len() == 0 {
        let known = with_header(head, line);
        lemma_quiet_headers(known, after, blank, more);
        assert(!ends_headers(line)) by {
            reveal_strlit("Content-Length:");
            reveal_strlit("content-length:");
        }
        assert(all.drop_first() =~= after + (seq![blank] + more));
        assert(all[0] == line);
    } else {
        let rest = before.drop_first();
        assert forall|i: int| 0 <= i < rest.len() implies !ends_headers(#[trigger] rest[i]) by {
            assert(rest[i] == before[i + 1]);
        }
        assert(!ends_headers(before[0]));
        assert(all[0] == before[0]);
        assert(all.drop_first() =~= rest.push(line) + after + (seq![blank] + more));
        law_headers_are_read(with_header(head, before[0]), rest, line, after, blank, more);
    }
}

proof fn lemma_quiet_headers(
    head: HeadView,
    lines: Seq<Seq<char>>,
    blank: Seq<char>,
    more: Seq<Seq<char>>,
)
    requires
        forall|i: int|
            0 <= i < lines.len() ==> !ends_headers(#[trigger] lines[i]) && header_length(
                lines[i],
            ) is None,
        ends_headers(blank),
    ensures
        head_after(head, lines + (seq![blank] + more)) == head,
    decreases lines.len(),
{
    let all = lines + (seq![blank] + more);
    if lines.len() == 0 {
        assert(all[0] == blank);
    } else {
        let rest = lines.drop_first();
        assert forall|i: int| 0 <= i < rest.len() implies !ends_headers(#[trigger] rest[i])
            && header_length(rest[i]) is None by {
            assert(rest[i] == lines[i + 1]);
        }
        assert(!ends_headers(lines[0]) && header_length(lines[0]) is None);
        assert(all[0] == lines[0]);
        assert(all.drop_first() =~= rest + (seq![blank] + more));
        lemma_quiet_headers(head, rest, blank, more);
    }
}

/// The body of a request is the text that its bytes encode.
pub proof fn law_body_is_read(body: Seq<char>)
    ensures
        form::utf8_text(vstd::utf8::encode_utf8(body)) == body,
{
    vstd::utf8::encode_utf8_valid_utf8(body);
    vstd::utf8::encode_utf8_decode_utf8(body);
}

} // verus!
