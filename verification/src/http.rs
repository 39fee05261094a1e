//! The wire format: which page a request asks for, and the bytes of the
//! response that carries it.
//!
//! Only the first line of a request is looked at, and only as a fixed byte
//! pattern at the very start of what was read.

use crate::decimal::{decimal, decimal_value, lemma_decimal_round_trip, render_decimal};
use vstd::prelude::*;
use vstd::string::{is_ascii, is_ascii_spec_bytes, StringSliceAdditionalSpecFns};

verus! {

/// How many bytes of a request are read, at most, before it is answered.
pub const REQUEST_BUFFER_LEN: usize = 1024;

/// How long, in seconds, the `/sleep` page holds its worker before answering.
pub const SLEEP_SECONDS: u64 = 5;

/// What a request asks for.
#[derive(Clone, Copy, Debug, PartialEq, Eq, Structural)]
pub enum Route {
    /// `GET /`: the greeting page.
    Index,
    /// `GET /sleep`: the greeting page, after a pause.
    Sleep,
    /// Anything else.
    NotFound,
}

/// The first line of a request for the greeting page.
pub open spec fn index_request_line() -> Seq<u8> {
    "GET / HTTP/1.1\r\n".spec_bytes()
}

/// The first line of a request for the slow page.
pub open spec fn sleep_request_line() -> Seq<u8> {
    "GET /sleep HTTP/1.1\r\n".spec_bytes()
}

/// The route of a request: decided by which of the two known first lines, if
/// any, the request starts with.
pub open spec fn route_of(request: Seq<u8>) -> Route {
    if index_request_line().is_prefix_of(request) {
        Route::Index
    } else if sleep_request_line().is_prefix_of(request) {
        Route::Sleep
    } else {
        Route::NotFound
    }
}

/// What separates the status line from the length of the body.
pub open spec fn length_header() -> Seq<u8> {
    "\r\nContent-Length: ".spec_bytes()
}

/// What separates the head of a response from its body.
pub open spec fn head_end() -> Seq<u8> {
    "\r\n\r\n".spec_bytes()
}

/// Everything of a response that precedes the body.
pub open spec fn response_head(route: Route, body_len: nat) -> Seq<u8> {
    route.status_bytes() + length_header() + decimal(body_len) + head_end()
}

/// The response to a request with the given route, carrying `body`.
pub open spec fn response_bytes(route: Route, body: Seq<u8>) -> Seq<u8> {
    response_head(route, body.len()) + body
}

impl Route {
    /// The status line of the response, as text.
    pub open spec fn status_text(self) -> Seq<char> {
        match self {
            Route::Index | Route::Sleep => "HTTP/1.1 200 OK"@,
            Route::NotFound => "HTTP/1.1 404 NOT FOUND"@,
        }
    }

    /// The status line of the response, as the bytes sent.
    pub open spec fn status_bytes(self) -> Seq<u8> {
        match self {
            Route::Index | Route::Sleep => "HTTP/1.1 200 OK".spec_bytes(),
            Route::NotFound => "HTTP/1.1 404 NOT FOUND".spec_bytes(),
        }
    }

    /// The name of the page whose content is the body of the response.
    pub open spec fn page_text(self) -> Seq<char> {
        match self {
            Route::Index | Route::Sleep => "hello.html"@,
            Route::NotFound => "404.html"@,
        }
    }

    /// The pause, in seconds, before the response is built.
    pub open spec fn pause(self) -> u64 {
        match self {
            Route::Sleep => SLEEP_SECONDS,
            Route::Index | Route::NotFound => 0,
        }
    }

    /// The status line of the response.
    pub fn status_line(self) -> (line: &'static str)
        ensures
            line@ == self.status_text(),
            line.spec_bytes() == self.status_bytes(),
    {
        match self {
            Route::Index | Route::Sleep => "HTTP/1.1 200 OK",
            Route::NotFound => "HTTP/1.1 404 NOT FOUND",
        }
    }

    /// The name of the page to load as the body of the response.
    pub fn page_name(self) -> (name: &'static str)
        ensures
            name@ == self.page_text(),
    {
        match self {
            Route::Index | Route::Sleep => "hello.html",
            Route::NotFound => "404.html",
        }
    }

    /// How many seconds the handler pauses before it answers.
    pub fn delay_seconds(self) -> (seconds: u64)
        ensures
            seconds == self.pause(),
    {
        match self {
            Route::Sleep => SLEEP_SECONDS,
            Route::Index | Route::NotFound => 0,
        }
    }
}

/// Tells whether `bytes` starts with `prefix`.
pub fn starts_with(bytes: &[u8], prefix: &[u8]) -> (found: bool)
    ensures
        found == prefix@.is_prefix_of(bytes@),
{
    if prefix.len() > bytes.len() {
        return false;
    }
    let mut i: usize = 0;
    while i < prefix.len()
        invariant
            i <= prefix.len() <= bytes.len(),
            forall|k: int| 0 <= k < i ==> prefix[k] == bytes[k],
        decreases prefix.len() - i,
    {
        if prefix[i] != bytes[i] {
            assert(bytes@.subrange(0, prefix@.len() as int)[i as int] != prefix@[i as int]);
            return false;
        }
        i += 1;
    }
    assert(prefix@ =~= bytes@.subrange(0, prefix@.len() as int));
    true
}

/// Decides the route of a request from the bytes that were read of it.
pub fn classify(request: &[u8]) -> (route: Route)
    ensures
        route == route_of(request@),
{
    if starts_with(request, "GET / HTTP/1.1\r\n".as_bytes()) {
        Route::Index
    } else if starts_with(request, "GET /sleep HTTP/1.1\r\n".as_bytes()) {
        Route::Sleep
    } else {
        Route::NotFound
    }
}

/// Builds the response to a request with the given route: the status line,
/// the length of the body in decimal, an empty line, and the body.
pub fn build_response(route: Route, body: &[u8]) -> (response: Vec<u8>)
    ensures
        response@ == response_bytes(route, body@),
{
    let mut response: Vec<u8> = Vec::new();
    response.extend_from_slice(route.status_line().as_bytes());
    response.extend_from_slice("\r\nContent-Length: ".as_bytes());
    let digits = render_decimal(body.len());
    response.extend_from_slice(digits.as_slice());
    response.extend_from_slice("\r\n\r\n".as_bytes());
    response.extend_from_slice(body);
    assert(response@ =~= response_bytes(route, body@));
    response
}

/// The two known first lines are sixteen and twenty-one bytes long, and no
/// request starts with both: each route is taken exactly when the request
/// starts with its line, and a request that starts with neither is not
/// found.
pub proof fn lemma_routes(request: Seq<u8>)
    ensures
        index_request_line().len() == 16,
        sleep_request_line().len() == 21,
        !(index_request_line().is_prefix_of(request) && sleep_request_line().is_prefix_of(request)),
        route_of(request) == Route::Index <==> index_request_line().is_prefix_of(request),
        route_of(request) == Route::Sleep <==> sleep_request_line().is_prefix_of(request),
        route_of(request) == Route::NotFound <==> !index_request_line().is_prefix_of(request)
            && !sleep_request_line().is_prefix_of(request),
{
    reveal_strlit("GET / HTTP/1.1\r\n");
    reveal_strlit("GET /sleep HTTP/1.1\r\n");
    assert(is_ascii("GET / HTTP/1.1\r\n"));
    assert(is_ascii("GET /sleep HTTP/1.1\r\n"));
    is_ascii_spec_bytes("GET / HTTP/1.1\r\n");
    is_ascii_spec_bytes("GET /sleep HTTP/1.1\r\n");
    let index = index_request_line();
    let sleep = sleep_request_line();
    if index.is_prefix_of(request) && sleep.is_prefix_of(request) {
        assert(index[5] == request.subrange(0, 16)[5]);
        assert(sleep[5] == request.subrange(0, 21)[5]);
    }
}

/// A response starts with the status line of its route and ends with the
/// body, and the number written in its head is the length of that body.
pub proof fn lemma_response_frame(route: Route, body: Seq<u8>)
    ensures
        route.status_bytes().is_prefix_of(response_bytes(route, body)),
        response_bytes(route, body).len() == response_head(route, body.len()).len() + body.len(),
        response_bytes(route, body).subrange(
            response_head(route, body.len()).len() as int,
            response_bytes(route, body).len() as int,
        ) == body,
        decimal_value(decimal(body.len())) == body.len(),
{
    let head = response_head(route, body.len());
    let whole = response_bytes(route, body);
    lemma_decimal_round_trip(body.len());
    assert(whole.subrange(head.len() as int, whole.len() as int) =~= body);
    assert(whole.subrange(0, route.status_bytes().len() as int) =~= route.status_bytes());
}

/// The slow page is answered exactly as the greeting page is: the same page
/// is loaded and the same bytes are sent. Only the pause differs.
pub proof fn lemma_sleep_answers_as_index(body: Seq<u8>)
    ensures
        Route::Sleep.page_text() == Route::Index.page_text(),
        response_bytes(Route::Sleep, body) == response_bytes(Route::Index, body),
        Route::Index.pause() == 0,
        Route::Sleep.pause() == SLEEP_SECONDS,
{
}

} // verus!
