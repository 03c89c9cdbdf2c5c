//! The greeting service: one route, answered from the request alone.

use crate::percent::{
    decode, decoded_bytes, is_escaped_byte, lemma_ascii_byte_of_text, lemma_bytes_of_concat,
    lemma_decode_encode, lemma_encoded_bytes, lemma_escape_bytes, percent_decoded,
    percent_encoded,
};
use vstd::prelude::*;
use vstd::string::*;
use vstd::utf8::*;

verus! {

/// The byte `&`, which parts the segments of a query.
pub const AMPERSAND: u8 = 0x26;

/// The byte `=`, which parts a segment's key from its value.
pub const EQUALS: u8 = 0x3d;

/// Status of a greeting that was given.
pub const STATUS_OK: u16 = 200;

/// Status of a request to the greeting route that names nobody.
pub const STATUS_BAD_REQUEST: u16 = 400;

/// Status of a request to anything but the greeting route.
pub const STATUS_NOT_FOUND: u16 = 404;

/// How the service is started.
#[derive(Debug)]
pub struct CommandLineArgs {
    /// The address to bind for listening.
    pub binding_address: String,
    /// Worker threads of the runtime.
    pub tokio_worker_threads: usize,
}

impl Default for CommandLineArgs {
    fn default() -> (args: CommandLineArgs)
        ensures
            args.binding_address@ == "0.0.0.0:3000"@,
            args.tokio_worker_threads == 16,
    {
        CommandLineArgs {
            binding_address: String::from_str("0.0.0.0:3000"),
            tokio_worker_threads: 16,
        }
    }
}

/// The method of a request.
#[derive(Clone, Copy, Debug, PartialEq, Eq, Structural)]
pub enum Method {
    Get,
    Head,
    Post,
    Put,
    Delete,
    Connect,
    Options,
    Trace,
    Patch,
    /// Any method that has no variant of its own.
    Other,
}

/// What the service reads of a request.
#[derive(Clone, Debug)]
pub struct Request {
    pub method: Method,
    /// The path of the request's URI.
    pub path: String,
    /// The query of the request's URI, without the `?`, if it has one.
    pub query: Option<String>,
}

/// What the service answers.
#[derive(Clone, Debug)]
pub struct Response {
    pub status: u16,
    /// The value of the `Content-Type` header, if the response has one.
    pub content_type: Option<String>,
    pub body: String,
}

/// The text that an optional string holds.
pub open spec fn text_of(s: Option<String>) -> Option<Seq<char>> {
    match s {
        Some(text) => Some(text@),
        None => None,
    }
}

/// A response, with its texts as sequences of characters.
pub struct ResponseView {
    pub status: u16,
    pub content_type: Option<Seq<char>>,
    pub body: Seq<char>,
}

impl View for Response {
    type V = ResponseView;

    open spec fn view(&self) -> ResponseView {
        ResponseView {
            status: self.status,
            content_type: text_of(self.content_type),
            body: self.body@,
        }
    }
}

/// The greeting for `name`, as a sequence of characters.
pub open spec fn greeting_text(name: Seq<char>) -> Seq<char> {
    "Hello "@ + name + "\n"@
}

/// The greeting for `name`: `Hello`, a space, the name, a line feed.
pub fn greeting(name: &str) -> (text: String)
    ensures
        text@ == greeting_text(name@),
{
    let mut text = String::from_str("Hello ");
    text.append(name);
    text.append("\n");
    text
}

/// Where the first `b` stands in `bytes`; the length of `bytes` if there is none.
pub open spec fn first_index_of(bytes: Seq<u8>, b: u8) -> nat
    decreases bytes.len(),
{
    if bytes.len() == 0 || bytes[0] == b {
        0
    } else {
        1 + first_index_of(bytes.drop_first(), b)
    }
}

/// `first_index_of` is the one index before which no `b` stands and at which
/// `bytes` ends or holds `b`.
pub proof fn lemma_first_index_of(bytes: Seq<u8>, b: u8, i: int)
    requires
        0 <= i <= bytes.len(),
        forall|j: int| 0 <= j < i ==> bytes[j] != b,
        i < bytes.len() ==> bytes[i] == b,
    ensures
        first_index_of(bytes, b) == i,
    decreases bytes.len(),
{
    if i > 0 {
        let rest = bytes.drop_first();
        assert forall|j: int| 0 <= j < i - 1 implies rest[j] != b by {
            assert(rest[j] == bytes[j + 1]);
        }
        lemma_first_index_of(rest, b, i - 1);
    }
}

/// Finds the first `b` in `bytes`.
fn find_byte(bytes: &[u8], b: u8) -> (i: usize)
    ensures
        i == first_index_of(bytes@, b),
        i <= bytes@.len(),
        i < bytes@.len() ==> bytes@[i as int] == b,
{
    let mut i: usize = 0;
    while i < bytes.len() && bytes[i] != b
        invariant
            i <= bytes@.len(),
            forall|j: int| 0 <= j < i ==> bytes@[j] != b,
        decreases bytes@.len() - i,
    {
        i += 1;
    }
    proof {
        lemma_first_index_of(bytes@, b, i as int);
    }
    i
}

/// Tells whether two strings hold the same text.
fn same_text(a: &str, b: &str) -> (same: bool)
    ensures
        same == (a@ == b@),
{
    let x = a.as_bytes();
    let y = b.as_bytes();
    if x.len() != y.len() {
        return false;
    }
    let mut i: usize = 0;
    while i < x.len()
        invariant
            i <= x@.len(),
            x@.len() == y@.len(),
            x@ == encode_utf8(a@),
            y@ == encode_utf8(b@),
            forall|j: int| 0 <= j < i ==> x@[j] == y@[j],
        decreases x@.len() - i,
    {
        if x[i] != y[i] {
            return false;
        }
        i += 1;
    }
    proof {
        assert(x@ =~= y@);
        encode_utf8_decode_utf8(a@);
        encode_utf8_decode_utf8(b@);
    }
    true
}

/// The name that one segment of a query gives: the decoded value behind the
/// segment's first `=`, if the key before it is `name` and the value decodes.
pub open spec fn name_in_segment(segment: Seq<u8>) -> Option<Seq<char>> {
    let eq = first_index_of(segment, EQUALS) as int;
    if eq < segment.len() && segment.take(eq) == encode_utf8("name"@) {
        decoded_bytes(segment.skip(eq + 1))
    } else {
        None
    }
}

/// The name that a query gives: that of the last of its segments, parted by
/// `&`, that gives one.
pub open spec fn name_in_query(query: Seq<u8>) -> Option<Seq<char>>
    decreases query.len(),
{
    let amp = first_index_of(query, AMPERSAND) as int;
    if amp >= query.len() {
        name_in_segment(query)
    } else {
        match name_in_query(query.skip(amp + 1)) {
            Some(name) => Some(name),
            None => name_in_segment(query.take(amp)),
        }
    }
}

/// In UTF-8 a character starts at every byte below 128.
proof fn lemma_boundary_at_ascii(bytes: Seq<u8>, i: int)
    requires
        valid_utf8(bytes),
        0 <= i < bytes.len(),
        bytes[i] < 0x80,
    ensures
        is_char_boundary(bytes, i),
{
    is_char_boundary_iff_not_is_continuation_byte(bytes, i);
}

/// In UTF-8 a character starts behind a first byte below 128.
proof fn lemma_boundary_after_ascii(bytes: Seq<u8>)
    requires
        valid_utf8(bytes),
        bytes.len() > 0,
        bytes[0] < 0x80,
    ensures
        is_char_boundary(bytes, 1),
{
    reveal_with_fuel(is_char_boundary, 2);
}

/// Reads the name out of one segment of a query.
fn segment_name(segment: &str) -> (name: Option<String>)
    ensures
        text_of(name) == name_in_segment(encode_utf8(segment@)),
{
    let bytes = segment.as_bytes();
    let eq = find_byte(bytes, EQUALS);
    if eq == bytes.len() {
        return None;
    }
    proof {
        encode_utf8_valid_utf8(segment@);
        lemma_boundary_at_ascii(encode_utf8(segment@), eq as int);
    }
    let (key, tail) = segment.split_at(eq);
    proof {
        encode_utf8_valid_utf8(tail@);
        lemma_boundary_after_ascii(encode_utf8(tail@));
    }
    let (_, value) = tail.split_at(1);
    proof {
        encode_utf8_decode_utf8(key@);
        assert(encode_utf8(key@) =~= encode_utf8(segment@).take(eq as int));
        assert(encode_utf8(value@) =~= encode_utf8(segment@).skip(eq + 1));
    }
    if same_text(key, "name") {
        decode(value)
    } else {
        proof {
            encode_utf8_decode_utf8("name"@);
        }
        None
    }
}

/// Reads the name out of a query: the value of its last `name=..` segment
/// that decodes.
pub fn query_name(query: &str) -> (name: Option<String>)
    ensures
        text_of(name) == name_in_query(encode_utf8(query@)),
{
    let mut rest: &str = query;
    let mut found: Option<String> = None;
    loop
        invariant
            name_in_query(encode_utf8(query@)) == match name_in_query(encode_utf8(rest@)) {
                Some(name) => Some(name),
                None => text_of(found),
            },
        decreases encode_utf8(rest@).len(),
    {
        let bytes = rest.as_bytes();
        let amp = find_byte(bytes, AMPERSAND);
        if amp == bytes.len() {
            let last = segment_name(rest);
            return if last.is_some() {
                last
            } else {
                found
            };
        }
        proof {
            encode_utf8_valid_utf8(rest@);
            lemma_boundary_at_ascii(encode_utf8(rest@), amp as int);
        }
        let (segment, tail) = rest.split_at(amp);
        proof {
            encode_utf8_valid_utf8(tail@);
            lemma_boundary_after_ascii(encode_utf8(tail@));
        }
        let (_, next) = tail.split_at(1);
        proof {
            assert(encode_utf8(segment@) =~= encode_utf8(rest@).take(amp as int));
            assert(encode_utf8(next@) =~= encode_utf8(rest@).skip(amp + 1));
        }
        let here = segment_name(segment);
        if here.is_some() {
            found = here;
        }
        rest = next;
    }
}

/// The name that a request's query gives, if the request has a query and
/// the query gives one.
pub open spec fn requested_name(query: Option<Seq<char>>) -> Option<Seq<char>> {
    match query {
        Some(text) => name_in_query(encode_utf8(text)),
        None => None,
    }
}

/// The response that greets `name`.
pub open spec fn greeted(name: Seq<char>) -> ResponseView {
    ResponseView {
        status: STATUS_OK,
        content_type: Some("text/html; charset=utf-8"@),
        body: greeting_text(name),
    }
}

/// The response that refuses a request: a status, no header, no body.
pub open spec fn refused(status: u16) -> ResponseView {
    ResponseView { status, content_type: None, body: Seq::empty() }
}

/// The response that the service owes to a request: not found unless the
/// request is a `GET` of `/greeting`; then the greeting for the name that the
/// query gives, or bad request if it gives none.
pub open spec fn response_to(
    method: Method,
    path: Seq<char>,
    query: Option<Seq<char>>,
) -> ResponseView {
    if method != Method::Get || path != "/greeting"@ {
        refused(STATUS_NOT_FOUND)
    } else {
        match requested_name(query) {
            Some(name) => greeted(name),
            None => refused(STATUS_BAD_REQUEST),
        }
    }
}

/// A response with the given status, no header and no body.
fn refuse(status: u16) -> (res: Response)
    ensures
        res@ == refused(status),
{
    Response { status, content_type: None, body: String::new() }
}

/// Answers one request. Nothing is kept from one request to the next.
pub fn greeting_service(req: &Request) -> (res: Response)
    ensures
        res@ == response_to(req.method, req.path@, text_of(req.query)),
{
    if req.method != Method::Get || !same_text(req.path.as_str(), "/greeting") {
        return refuse(STATUS_NOT_FOUND);
    }
    let name = match &req.query {
        Some(query) => query_name(query.as_str()),
        None => None,
    };
    match name {
        Some(name) => Response {
            status: STATUS_OK,
            content_type: Some(String::from_str("text/html; charset=utf-8")),
            body: greeting(name.as_str()),
        },
        None => refuse(STATUS_BAD_REQUEST),
    }
}

/// A query that is `name=` and a value without `&` gives the name that the
/// value decodes to.
pub proof fn lemma_single_name(value: Seq<u8>)
    requires
        !value.contains(AMPERSAND),
    ensures
        name_in_query(encode_utf8("name="@) + value) == decoded_bytes(value),
{
    reveal_strlit("name=");
    reveal_strlit("name");
    let key = encode_utf8("name="@);
    let query = key + value;
    is_ascii_chars_encode_utf8("name="@);
    is_ascii_chars_encode_utf8("name"@);
    assert forall|j: int| 0 <= j < query.len() implies query[j] != AMPERSAND by {
        if j >= key.len() {
            assert(value.contains(query[j]));
        }
    }
    lemma_first_index_of(query, AMPERSAND, query.len() as int);
    lemma_first_index_of(query, EQUALS, 4);
    assert(query.take(4) =~= encode_utf8("name"@));
    assert(query.skip(5) =~= value);
}

/// A `GET` of `/greeting?name=n`, where `n` holds no `&` and decodes to
/// `name`, is answered with the greeting for `name`.
pub proof fn lemma_greets_decoded_name(n: Seq<char>, name: Seq<char>)
    requires
        !n.contains('&'),
        percent_decoded(n) == Some(name),
    ensures
        response_to(Method::Get, "/greeting"@, Some("name="@ + n)) == greeted(name),
{
    let value = encode_utf8(n);
    if value.contains(AMPERSAND) {
        let i = choose|i: int| 0 <= i < value.len() && value[i] == AMPERSAND;
        let k = lemma_ascii_byte_of_text(n, i);
        char_u32_cast(n[k], AMPERSAND as u32);
        char_u32_cast('&', AMPERSAND as u32);
        assert(n.contains(n[k]));
    }
    lemma_single_name(value);
    lemma_bytes_of_concat("name="@, n);
}

/// A `GET` of `/greeting?name=` and the percent-encoding of any name is
/// answered with the greeting for that name.
pub proof fn lemma_greets_encoded_name(name: Seq<char>)
    ensures
        response_to(Method::Get, "/greeting"@, Some("name="@ + percent_encoded(name)))
            == greeted(name),
{
    let value = encode_utf8(percent_encoded(name));
    lemma_encoded_bytes(name);
    lemma_escape_bytes(encode_utf8(name));
    assert(!value.contains(AMPERSAND)) by {
        if value.contains(AMPERSAND) {
            let i = choose|i: int| 0 <= i < value.len() && value[i] == AMPERSAND;
            assert(is_escaped_byte(value[i]));
        }
    }
    lemma_single_name(value);
    lemma_bytes_of_concat("name="@, percent_encoded(name));
    lemma_decode_encode(name);
}

} // verus!
