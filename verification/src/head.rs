//! The heads of HTTP/1.x messages: request line or status line, and headers.

use crate::bytes::{
    bytes_contain, bytes_eq_ignore_ascii_case, contains_bytes, declared_length,
    eq_ignore_ascii_case, read_declared_length,
};
use crate::text::{decimal_text, lossy_text, push_decimal, utf8_lossy};
use vstd::prelude::*;
use vstd::string::StringSliceAdditionalSpecFns;

verus! {

/// How many headers a message head may carry; a head with more is invalid.
pub const HEADER_CAPACITY: usize = 64;

/// One header line: its name and its value, as the bytes on the wire
/// without the separating colon and the surrounding blanks.
pub struct Header {
    pub name: Vec<u8>,
    pub value: Vec<u8>,
}

pub struct HeaderView {
    pub name: Seq<u8>,
    pub value: Seq<u8>,
}

impl View for Header {
    type V = HeaderView;

    open spec fn view(&self) -> HeaderView {
        HeaderView { name: self.name@, value: self.value@ }
    }
}

pub open spec fn header_views(headers: Seq<Header>) -> Seq<HeaderView> {
    headers.map_values(|h: Header| h@)
}

pub open spec fn text_view(text: Option<String>) -> Option<Seq<char>> {
    match text {
        Some(t) => Some(t@),
        None => None,
    }
}

/// A complete request head.
pub struct RequestHead {
    /// The offset at which the body starts.
    pub consumed: usize,
    pub method: Option<String>,
    pub path: Option<String>,
    pub headers: Vec<Header>,
}

pub struct RequestHeadView {
    pub consumed: nat,
    pub method: Option<Seq<char>>,
    pub path: Option<Seq<char>>,
    pub headers: Seq<HeaderView>,
}

impl View for RequestHead {
    type V = RequestHeadView;

    open spec fn view(&self) -> RequestHeadView {
        RequestHeadView {
            consumed: self.consumed as nat,
            method: text_view(self.method),
            path: text_view(self.path),
            headers: header_views(self.headers@),
        }
    }
}

/// What the start of a buffer holds when it is read as a request head.
pub enum RequestParse {
    /// A whole head, up to and including the blank line that ends it.
    Complete(RequestHead),
    /// The start of a head; more bytes are needed.
    Partial,
    /// Bytes that no request head starts with.
    Invalid,
}

pub enum RequestParseView {
    Complete(RequestHeadView),
    Partial,
    Invalid,
}

impl View for RequestParse {
    type V = RequestParseView;

    open spec fn view(&self) -> RequestParseView {
        match self {
            RequestParse::Complete(head) => RequestParseView::Complete(head@),
            RequestParse::Partial => RequestParseView::Partial,
            RequestParse::Invalid => RequestParseView::Invalid,
        }
    }
}

/// A complete response head.
pub struct ResponseHead {
    /// The offset at which the body starts.
    pub consumed: usize,
    pub code: Option<u16>,
    pub reason: Option<String>,
    pub headers: Vec<Header>,
}

pub struct ResponseHeadView {
    pub consumed: nat,
    pub code: Option<u16>,
    pub reason: Option<Seq<char>>,
    pub headers: Seq<HeaderView>,
}

impl View for ResponseHead {
    type V = ResponseHeadView;

    open spec fn view(&self) -> ResponseHeadView {
        ResponseHeadView {
            consumed: self.consumed as nat,
            code: self.code,
            reason: text_view(self.reason),
            headers: header_views(self.headers@),
        }
    }
}

/// What the start of a buffer holds when it is read as a response head.
pub enum ResponseParse {
    Complete(ResponseHead),
    Partial,
    Invalid,
}

pub enum ResponseParseView {
    Complete(ResponseHeadView),
    Partial,
    Invalid,
}

impl View for ResponseParse {
    type V = ResponseParseView;

    open spec fn view(&self) -> ResponseParseView {
        match self {
            ResponseParse::Complete(head) => ResponseParseView::Complete(head@),
            ResponseParse::Partial => ResponseParseView::Partial,
            ResponseParse::Invalid => ResponseParseView::Invalid,
        }
    }
}

/// The verdict of the HTTP/1.x parser on `data` read as a request head with
/// room for `capacity` headers.
pub uninterp spec fn request_head(data: Seq<u8>, capacity: nat) -> RequestParseView;

/// The verdict of the HTTP/1.x parser on `data` read as a response head
/// with room for `capacity` headers.
pub uninterp spec fn response_head(data: Seq<u8>, capacity: nat) -> ResponseParseView;

/// Reads a request head with `httparse::Request::parse`, into `capacity`
/// header slots. The verdict depends on the bytes and the capacity alone;
/// the contract names it and claims nothing else. A complete head is copied
/// out field by field, an error of any kind becomes `Invalid`.
#[verifier::external_body]
pub(crate) fn parse_request_head(data: &[u8], capacity: usize) -> (parse: RequestParse)
    requires
        capacity <= HEADER_CAPACITY,
    ensures
        parse@ == request_head(data@, capacity as nat),
{
    let mut slots = vec![httparse::EMPTY_HEADER; capacity];
    let mut request = httparse::Request::new(&mut slots);
    match request.parse(data) {
        Ok(httparse::Status::Complete(consumed)) => RequestParse::Complete(RequestHead {
            consumed,
            method: request.method.map(String::from),
            path: request.path.map(String::from),
            headers: request.headers.iter().map(|h| Header { name: h.name.as_bytes().to_vec(), value: h.value.to_vec() }).collect(),
        }),
        Ok(httparse::Status::Partial) => RequestParse::Partial,
        Err(_) => RequestParse::Invalid,
    }
}

/// Reads a response head with `httparse::Response::parse`, into `capacity`
/// header slots. The verdict depends on the bytes and the capacity alone;
/// the contract names it and claims nothing else. A complete head is copied
/// out field by field, an error of any kind becomes `Invalid`.
#[verifier::external_body]
pub(crate) fn parse_response_head(data: &[u8], capacity: usize) -> (parse: ResponseParse)
    requires
        capacity <= HEADER_CAPACITY,
    ensures
        parse@ == response_head(data@, capacity as nat),
{
    let mut slots = vec![httparse::EMPTY_HEADER; capacity];
    let mut response = httparse::Response::new(&mut slots);
    match response.parse(data) {
        Ok(httparse::Status::Complete(consumed)) => ResponseParse::Complete(ResponseHead {
            consumed,
            code: response.code,
            reason: response.reason.map(String::from),
            headers: response.headers.iter().map(|h| Header { name: h.name.as_bytes().to_vec(), value: h.value.to_vec() }).collect(),
        }),
        Ok(httparse::Status::Partial) => ResponseParse::Partial,
        Err(_) => ResponseParse::Invalid,
    }
}

/// The value of the first header called `name`, whatever the case of its
/// letters.
pub open spec fn header_value(headers: Seq<HeaderView>, name: Seq<u8>) -> Option<Seq<u8>>
    decreases headers.len(),
{
    if headers.len() == 0 {
        None
    } else if eq_ignore_ascii_case(headers.first().name, name) {
        Some(headers.first().value)
    } else {
        header_value(headers.drop_first(), name)
    }
}

/// The body length that a head declares: the value of its first
/// `Content-Length` header, and 0 where it has none or one that is no
/// number.
pub open spec fn content_length(headers: Seq<HeaderView>) -> nat {
    match header_value(headers, "content-length".spec_bytes()) {
        Some(value) => declared_length(value),
        None => 0,
    }
}

/// Whether a head announces an event stream: its first `Content-Type`
/// header holds `text/event-stream`.
pub open spec fn announces_event_stream(headers: Seq<HeaderView>) -> bool {
    match header_value(headers, "content-type".spec_bytes()) {
        Some(value) => contains_bytes(value, "text/event-stream".spec_bytes()),
        None => false,
    }
}

/// One header as it is shown: indented by two blanks, on a line of its own.
pub open spec fn header_line(header: HeaderView) -> Seq<char> {
    "  "@ + utf8_lossy(header.name) + ": "@ + utf8_lossy(header.value) + "\n"@
}

/// All headers as they are shown, in their order on the wire.
pub open spec fn header_lines(headers: Seq<HeaderView>) -> Seq<char>
    decreases headers.len(),
{
    if headers.len() == 0 {
        Seq::empty()
    } else {
        header_lines(headers.drop_last()) + header_line(headers.last())
    }
}

pub open spec fn text_or_empty(text: Option<Seq<char>>) -> Seq<char> {
    match text {
        Some(t) => t,
        None => Seq::empty(),
    }
}

pub open spec fn code_or_zero(code: Option<u16>) -> nat {
    match code {
        Some(c) => c as nat,
        None => 0,
    }
}

/// A request head as it is shown: the request line in bright green, then
/// the headers.
pub open spec fn request_text(head: RequestHeadView) -> Seq<char> {
    "\x1b[1;32m▶ REQUEST: "@ + text_or_empty(head.method) + " "@ + text_or_empty(head.path)
        + "\x1b[0m\n"@ + header_lines(head.headers)
}

/// A response head as it is shown: the status line in bright blue, then the
/// headers.
pub open spec fn response_text(head: ResponseHeadView) -> Seq<char> {
    "\x1b[1;34m◀ RESPONSE: "@ + decimal_text(code_or_zero(head.code)) + " "@ + text_or_empty(
        head.reason,
    ) + "\x1b[0m\n"@ + header_lines(head.headers)
}

/// Finds the first header called `name`, whatever the case of its letters.
pub fn find_header(headers: &[Header], name: &[u8]) -> (found: Option<usize>)
    ensures
        match found {
            Some(i) => i < headers@.len() && header_value(header_views(headers@), name@) == Some(
                headers@[i as int].value@,
            ),
            None => header_value(header_views(headers@), name@) is None,
        },
{
    let ghost all = header_views(headers@);
    let mut i: usize = 0;
    assert(all.skip(0) =~= all);
    while i < headers.len()
        invariant
            i <= headers@.len(),
            all == header_views(headers@),
            header_value(all, name@) == header_value(all.skip(i as int), name@),
        decreases headers@.len() - i,
    {
        if bytes_eq_ignore_ascii_case(headers[i].name.as_slice(), name) {
            return Some(i);
        }
        assert(all.skip(i as int).drop_first() =~= all.skip(i + 1));
        i += 1;
    }
    None
}

/// Reads the body length that the headers declare.
pub fn read_content_length(headers: &[Header]) -> (length: usize)
    ensures
        length == content_length(header_views(headers@)),
{
    match find_header(headers, "content-length".as_bytes()) {
        Some(i) => read_declared_length(headers[i].value.as_slice()),
        None => 0,
    }
}

/// Tells whether the headers announce an event stream.
pub fn is_event_stream(headers: &[Header]) -> (sse: bool)
    ensures
        sse == announces_event_stream(header_views(headers@)),
{
    match find_header(headers, "content-type".as_bytes()) {
        Some(i) => bytes_contain(headers[i].value.as_slice(), "text/event-stream".as_bytes()),
        None => false,
    }
}

fn push_header_lines(out: &mut String, headers: &[Header])
    ensures
        final(out)@ == old(out)@ + header_lines(header_views(headers@)),
{
    let ghost all = header_views(headers@);
    let mut i: usize = 0;
    assert(all.take(0) =~= Seq::<HeaderView>::empty());
    assert(out@ =~= old(out)@ + header_lines(all.take(0)));
    while i < headers.len()
        invariant
            i <= headers@.len(),
            all == header_views(headers@),
            out@ == old(out)@ + header_lines(all.take(i as int)),
        decreases headers@.len() - i,
    {
        let ghost before = out@;
        let name = lossy_text(headers[i].name.as_slice());
        let value = lossy_text(headers[i].value.as_slice());
        out.append("  ");
        out.append(name.as_str());
        out.append(": ");
        out.append(value.as_str());
        out.append("\n");
        proof {
            assert(all.take(i + 1).drop_last() =~= all.take(i as int));
            assert(all.take(i + 1).last() == headers@[i as int]@);
            assert(out@ =~= before + header_line(headers@[i as int]@));
            assert(out@ =~= old(out)@ + header_lines(all.take(i + 1)));
        }
        i += 1;
    }
    assert(all.take(i as int) =~= all);
}

fn push_text_or_empty(out: &mut String, text: &Option<String>)
    ensures
        final(out)@ == old(out)@ + text_or_empty(text_view(*text)),
{
    match text {
        Some(t) => {
            out.append(t.as_str());
        },
        None => {
            assert(out@ =~= old(out)@ + Seq::<char>::empty());
        },
    }
}

/// Renders a request head for display.
pub fn render_request_head(head: &RequestHead) -> (text: String)
    ensures
        text@ == request_text(head@),
{
    let mut text = String::new();
    text.append("\x1b[1;32m▶ REQUEST: ");
    push_text_or_empty(&mut text, &head.method);
    text.append(" ");
    push_text_or_empty(&mut text, &head.path);
    text.append("\x1b[0m\n");
    push_header_lines(&mut text, head.headers.as_slice());
    assert(text@ =~= request_text(head@));
    text
}

/// Renders a response head for display.
pub fn render_response_head(head: &ResponseHead) -> (text: String)
    ensures
        text@ == response_text(head@),
{
    let mut text = String::new();
    text.append("\x1b[1;34m◀ RESPONSE: ");
    let code: usize = match head.code {
        Some(c) => c as usize,
        None => 0,
    };
    push_decimal(&mut text, code);
    text.append(" ");
    push_text_or_empty(&mut text, &head.reason);
    text.append("\x1b[0m\n");
    push_header_lines(&mut text, head.headers.as_slice());
    assert(text@ =~= response_text(head@));
    text
}

} // verus!
