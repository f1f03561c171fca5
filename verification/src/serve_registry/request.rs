//! Requests to the registry.
use vstd::prelude::*;
use vstd::utf8::{decode_utf8, valid_utf8};

use crate::bytes;
use crate::docker::chunked::raw_headers;
use crate::error::{concat2, DockerPullError, ErrorView, Result};
use crate::text::{self, opt_string};

verus! {

/// How long the head of a request may be.
pub const MAX_REQUEST_HEAD_BYTES: usize = 65536;

/// How long a client may take to send the head of a request, in seconds.
pub const REQUEST_HEAD_TIMEOUT_SECONDS: u64 = 120;

/// How many header fields a request may have.
pub const MAX_REQUEST_HEADERS: usize = 64;

/// A request: its method, its path, and the range of bytes that it asks for.
#[derive(Debug)]
pub struct Request {
    pub method: String,
    pub path: String,
    pub range: Option<String>,
}

/// A request, as text.
pub struct RequestView {
    pub method: Seq<char>,
    pub path: Seq<char>,
    pub range: Option<Seq<char>>,
}

impl View for Request {
    type V = RequestView;

    open spec fn view(&self) -> RequestView {
        RequestView {
            method: self.method@,
            path: self.path@,
            range: opt_string(self.range),
        }
    }
}

/// The head of a request as it was sent.
pub struct RawRequest {
    pub method: Option<String>,
    pub path: Option<String>,
    pub headers: Vec<(String, Vec<u8>)>,
}

/// The head of a request: nothing where it is not complete, its method, its path and its header
/// fields where it is, and otherwise the message that says what is wrong with it.
pub type RawRequestHead = std::result::Result<
    Option<(Option<Seq<char>>, Option<Seq<char>>, Seq<(Seq<char>, Seq<u8>)>)>,
    Seq<char>,
>;

/// The outcome of parsing bytes as the head of a request with at most `limit` header fields.
pub uninterp spec fn http_request(bytes: Seq<u8>, limit: nat) -> RawRequestHead;

/// The outcome of a parse, as text.
pub open spec fn raw_request(
    parsed: std::result::Result<Option<RawRequest>, String>,
) -> RawRequestHead {
    match parsed {
        Ok(Some(raw)) => Ok(
            Some((opt_string(raw.method), opt_string(raw.path), raw_headers(raw.headers@))),
        ),
        Ok(None) => Ok(None),
        Err(message) => Err(message@),
    }
}

/// Parses bytes with `httparse::Request::parse`, with room for `limit` header fields. The outcome
/// depends on the bytes and on the limit alone.
#[verifier::external_body]
fn parse_http_request(bytes: &[u8], limit: usize) -> (r: std::result::Result<
    Option<RawRequest>,
    String,
>)
    requires
        limit <= 1024,
    ensures
        raw_request(r) == http_request(bytes@, limit as nat),
{
    let mut headers = vec![httparse::EMPTY_HEADER; limit];
    let mut request = httparse::Request::new(&mut headers);
    match request.parse(bytes) {
        Err(error) => Err(error.to_string()),
        Ok(httparse::Status::Partial) => Ok(None),
        Ok(httparse::Status::Complete(_)) => Ok(Some(RawRequest {
            method: request.method.map(|m| m.to_owned()),
            path: request.path.map(|p| p.to_owned()),
            headers: request.headers.iter().map(|h| (h.name.to_owned(), h.value.to_vec())).collect(),
        })),
    }
}

/// The range that header fields ask for: the value of the first range field.
pub open spec fn range_field(headers: Seq<(Seq<char>, Seq<u8>)>) -> std::result::Result<
    Option<Seq<char>>,
    ErrorView,
>
    decreases headers.len(),
{
    if headers.len() == 0 {
        Ok(None)
    } else if text::lower_view(headers[0].0) == "range"@ {
        if valid_utf8(headers[0].1) {
            Ok(Some(text::trim_view(decode_utf8(headers[0].1))))
        } else {
            Err(
                ErrorView::BadResponse(
                    "invalid HTTP header value: "@ + bytes::utf8_error(headers[0].1),
                ),
            )
        }
    } else {
        range_field(headers.skip(1))
    }
}

/// Finds the range that header fields ask for.
fn find_range(headers: &Vec<(String, Vec<u8>)>) -> (r: Result<Option<String>>)
    ensures
        range_field(raw_headers(headers@)) == match r {
            Ok(range) => Ok(opt_string(range)),
            Err(e) => Err(e@),
        },
{
    let ghost all = raw_headers(headers@);
    assert(all.skip(0) =~= all);
    let mut i: usize = 0;
    while i < headers.len()
        invariant
            i <= headers@.len(),
            all == raw_headers(headers@),
            range_field(all) == range_field(all.skip(i as int)),
        decreases headers@.len() - i,
    {
        assert(all.skip(i as int).skip(1) =~= all.skip(i + 1));
        assert(all.skip(i as int)[0] == (headers@[i as int].0@, headers@[i as int].1@));
        if text::same(text::to_lower(headers[i].0.as_str()).as_str(), "range") {
            return match bytes::read_utf8(headers[i].1.as_slice()) {
                Ok(value) => Ok(Some(text::trim(value.as_str()).to_owned())),
                Err(message) => Err(
                    DockerPullError::BadResponse(
                        concat2("invalid HTTP header value: ", message.as_str()),
                    ),
                ),
            };
        }
        i += 1;
    }
    Ok(None)
}

/// What a parsed head says.
pub open spec fn request_head_view(parsed: RawRequestHead) -> std::result::Result<
    Option<RequestView>,
    ErrorView,
> {
    match parsed {
        Err(message) => Err(ErrorView::BadResponse("invalid HTTP request: "@ + message)),
        Ok(None) => Ok(None),
        Ok(Some((None, _, _))) => Err(ErrorView::BadResponse("missing HTTP method"@)),
        Ok(Some((Some(_), None, _))) => Err(ErrorView::BadResponse("missing HTTP path"@)),
        Ok(Some((Some(method), Some(path), headers))) => match range_field(headers) {
            Ok(range) => Ok(Some(RequestView { method, path, range })),
            Err(e) => Err(e),
        },
    }
}

/// The contents of a request that may not be complete.
pub open spec fn head_result(r: Result<Option<Request>>) -> std::result::Result<
    Option<RequestView>,
    ErrorView,
> {
    match r {
        Ok(Some(request)) => Ok(Some(request@)),
        Ok(None) => Ok(None),
        Err(e) => Err(e@),
    }
}

/// Decides what a parsed head says.
pub fn request_head(parsed: std::result::Result<Option<RawRequest>, String>) -> (r: Result<
    Option<Request>,
>)
    ensures
        head_result(r) == request_head_view(raw_request(parsed)),
{
    match parsed {
        Err(message) => Err(
            DockerPullError::BadResponse(concat2("invalid HTTP request: ", message.as_str())),
        ),
        Ok(None) => Ok(None),
        Ok(Some(raw)) => {
            let method = match raw.method {
                None => {
                    return Err(DockerPullError::BadResponse("missing HTTP method".to_owned()));
                },
                Some(method) => method,
            };
            let path = match raw.path {
                None => {
                    return Err(DockerPullError::BadResponse("missing HTTP path".to_owned()));
                },
                Some(path) => path,
            };
            match find_range(&raw.headers) {
                Ok(range) => Ok(Some(Request { method, path, range })),
                Err(e) => Err(e),
            }
        },
    }
}

/// Reads the head of a request; nothing where more bytes are needed.
pub fn parse_request_head(bytes: &[u8]) -> (r: Result<Option<Request>>)
    ensures
        head_result(r) == request_head_view(http_request(bytes@, MAX_REQUEST_HEADERS as nat)),
{
    request_head(parse_http_request(bytes, MAX_REQUEST_HEADERS))
}

/// What to do after a read from a client.
#[derive(Debug)]
pub enum ReadStep {
    /// The request is complete.
    Done(Request),
    /// More has to be read.
    More,
    /// The request cannot be read.
    Fail(DockerPullError),
}

/// What to do after a read, as text.
pub enum ReadStepView {
    Done(RequestView),
    More,
    Fail(ErrorView),
}

impl View for ReadStep {
    type V = ReadStepView;

    open spec fn view(&self) -> ReadStepView {
        match self {
            ReadStep::Done(request) => ReadStepView::Done(request@),
            ReadStep::More => ReadStepView::More,
            ReadStep::Fail(e) => ReadStepView::Fail(e@),
        }
    }
}

/// What to do after a read: the connection may have ended, the head may be complete or wrong, and
/// there may be too much of it.
pub open spec fn read_step_view(
    head: std::result::Result<Option<RequestView>, ErrorView>,
    len: nat,
    ended: bool,
) -> ReadStepView {
    if ended {
        ReadStepView::Fail(ErrorView::BadResponse("cache registry request ended before headers"@))
    } else {
        match head {
            Err(e) => ReadStepView::Fail(e),
            Ok(Some(request)) => ReadStepView::Done(request),
            Ok(None) => if len > MAX_REQUEST_HEAD_BYTES {
                ReadStepView::Fail(
                    ErrorView::InvalidInput("cache registry request headers are too large"@),
                )
            } else {
                ReadStepView::More
            },
        }
    }
}

/// Decides what to do after a read, given what the bytes so far say.
pub fn after_head(head: Result<Option<Request>>, len: usize, ended: bool) -> (step: ReadStep)
    ensures
        step@ == read_step_view(head_result(head), len as nat, ended),
{
    if ended {
        return ReadStep::Fail(
            DockerPullError::BadResponse(
                "cache registry request ended before headers".to_owned(),
            ),
        );
    }
    match head {
        Err(e) => ReadStep::Fail(e),
        Ok(Some(request)) => ReadStep::Done(request),
        Ok(None) => {
            if len > MAX_REQUEST_HEAD_BYTES {
                ReadStep::Fail(
                    DockerPullError::InvalidInput(
                        "cache registry request headers are too large".to_owned(),
                    ),
                )
            } else {
                ReadStep::More
            }
        },
    }
}

/// Decides what to do after a read from a client. `bytes` is everything that was read so far, and
/// `ended` tells that the last read gave nothing.
pub fn read_request(bytes: &[u8], ended: bool) -> (step: ReadStep)
    ensures
        step@ == read_step_view(
            request_head_view(http_request(bytes@, MAX_REQUEST_HEADERS as nat)),
            bytes@.len(),
            ended,
        ),
{
    after_head(parse_request_head(bytes), bytes.len(), ended)
}

} // verus!
