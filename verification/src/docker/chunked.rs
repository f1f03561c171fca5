//! Reading the daemon's answers from a raw connection: the head, and a body that comes in chunks.
use vstd::prelude::*;
use vstd::utf8::{decode_utf8, valid_utf8};

use crate::bytes::{self, find_bytes, find_bytes_view, lemma_find_bytes};
use crate::error::{concat2, DockerPullError, ErrorView, Result};
use crate::text;

verus! {

/// How long the head of an answer may be.
pub const MAX_RESPONSE_HEAD_BYTES: usize = 65536;

/// How many header fields an answer may have.
pub const MAX_RESPONSE_HEADERS: usize = 128;

/// The end of a line.
pub open spec fn crlf() -> Seq<u8> {
    seq![0x0d, 0x0a]
}

/// The end of a head.
pub open spec fn head_end() -> Seq<u8> {
    seq![0x0d, 0x0a, 0x0d, 0x0a]
}

/// How far the head of an answer has been read.
#[derive(Debug, Clone, Copy, PartialEq, Eq, Structural)]
pub enum HeadProgress {
    /// The head ends before this place.
    Complete(usize),
    /// More has to be read.
    Incomplete,
    /// The head is too long.
    TooLarge,
}

/// Finds the end of the head in what was read so far.
pub fn find_head(buffer: &[u8]) -> (progress: HeadProgress)
    ensures
        match find_bytes_view(buffer@, head_end()) {
            Some(at) => progress matches HeadProgress::Complete(end) && end == at + 4 && end
                <= buffer@.len(),
            None => if buffer@.len() > MAX_RESPONSE_HEAD_BYTES {
                progress == HeadProgress::TooLarge
            } else {
                progress == HeadProgress::Incomplete
            },
        },
{
    let end: [u8; 4] = [0x0d, 0x0a, 0x0d, 0x0a];
    assert(end@ =~= head_end());
    let n = buffer.len();
    match find_bytes(buffer, end.as_slice()) {
        Some(at) => HeadProgress::Complete(at + 4),
        None => {
            if n > MAX_RESPONSE_HEAD_BYTES {
                HeadProgress::TooLarge
            } else {
                HeadProgress::Incomplete
            }
        },
    }
}

/// The head of an answer as it was sent: its code, and the names and values of its header fields.
pub struct RawResponse {
    pub code: Option<u16>,
    pub headers: Vec<(String, Vec<u8>)>,
}

/// Header fields as they were sent.
pub open spec fn raw_headers(headers: Seq<(String, Vec<u8>)>) -> Seq<(Seq<char>, Seq<u8>)> {
    headers.map_values(|h: (String, Vec<u8>)| (h.0@, h.1@))
}

/// The head of an answer: nothing where it is not complete, its code and its header fields where
/// it is, and otherwise the message that says what is wrong with it.
pub type RawHead = std::result::Result<
    Option<(Option<u16>, Seq<(Seq<char>, Seq<u8>)>)>,
    Seq<char>,
>;

/// The outcome of parsing bytes as the head of an answer with at most `limit` header fields.
pub uninterp spec fn http_response(bytes: Seq<u8>, limit: nat) -> RawHead;

/// The outcome of a parse, as text.
pub open spec fn raw_head(parsed: std::result::Result<Option<RawResponse>, String>) -> RawHead {
    match parsed {
        Ok(Some(raw)) => Ok(Some((raw.code, raw_headers(raw.headers@)))),
        Ok(None) => Ok(None),
        Err(message) => Err(message@),
    }
}

/// Parses bytes with `httparse::Response::parse`, with room for `limit` header fields. The outcome
/// depends on the bytes and on the limit alone.
#[verifier::external_body]
fn parse_http_response(bytes: &[u8], limit: usize) -> (r: std::result::Result<
    Option<RawResponse>,
    String,
>)
    requires
        limit <= 1024,
    ensures
        raw_head(r) == http_response(bytes@, limit as nat),
{
    let mut headers = vec![httparse::EMPTY_HEADER; limit];
    let mut response = httparse::Response::new(&mut headers);
    match response.parse(bytes) {
        Err(error) => Err(error.to_string()),
        Ok(httparse::Status::Partial) => Ok(None),
        Ok(httparse::Status::Complete(_)) => Ok(Some(RawResponse {
            code: response.code,
            headers: response.headers.iter().map(|h| (h.name.to_owned(), h.value.to_vec())).collect(),
        })),
    }
}

/// The header fields in their usual form: names in lower case, and values as text without the
/// whitespace around them.
pub open spec fn header_fields(raw: Seq<(Seq<char>, Seq<u8>)>) -> std::result::Result<
    Seq<(Seq<char>, Seq<char>)>,
    ErrorView,
>
    decreases raw.len(),
{
    if raw.len() == 0 {
        Ok(seq![])
    } else if !valid_utf8(raw[0].1) {
        Err(
            ErrorView::BadResponse(
                "invalid docker API header value: "@ + bytes::utf8_error(raw[0].1),
            ),
        )
    } else {
        match header_fields(raw.skip(1)) {
            Err(e) => Err(e),
            Ok(rest) => Ok(
                seq![(text::lower_view(raw[0].0), text::trim_view(decode_utf8(raw[0].1)))] + rest,
            ),
        }
    }
}

/// The code and the header fields of an answer, or what is wrong with them.
pub open spec fn response_head_view(parsed: RawHead) -> std::result::Result<
    (u16, Seq<(Seq<char>, Seq<char>)>),
    ErrorView,
> {
    match parsed {
        Err(message) => Err(ErrorView::BadResponse("invalid docker API headers: "@ + message)),
        Ok(None) => Err(ErrorView::BadResponse("docker API response headers are incomplete"@)),
        Ok(Some((None, _))) => Err(
            ErrorView::BadResponse("docker API response is missing status"@),
        ),
        Ok(Some((Some(code), raw))) => if code < 100 || code > 999 {
            Err(ErrorView::BadResponse("invalid docker API status: invalid status code"@))
        } else {
            match header_fields(raw) {
                Ok(fields) => Ok((code, fields)),
                Err(e) => Err(e),
            }
        },
    }
}

/// Pairs of texts.
pub open spec fn fields_view(fields: Seq<(String, String)>) -> Seq<(Seq<char>, Seq<char>)> {
    fields.map_values(|f: (String, String)| (f.0@, f.1@))
}

/// Reads the header fields, as many as can be read.
fn read_fields(raw: &Vec<(String, Vec<u8>)>) -> (r: Result<Vec<(String, String)>>)
    ensures
        header_fields(raw_headers(raw@)) == match r {
            Ok(fields) => Ok(fields_view(fields@)),
            Err(e) => Err(e@),
        },
{
    let ghost all = raw_headers(raw@);
    let ghost goal = header_fields(all);
    let mut fields: Vec<(String, String)> = Vec::new();
    assert(all.skip(0) =~= all);
    proof {
        match goal {
            Ok(f) => assert(fields_view(fields@) + f =~= f),
            Err(_) => {},
        }
    }
    let mut i: usize = 0;
    while i < raw.len()
        invariant
            i <= raw@.len(),
            all == raw_headers(raw@),
            goal == header_fields(all),
            goal == match header_fields(all.skip(i as int)) {
                Ok(rest) => Ok::<_, ErrorView>(fields_view(fields@) + rest),
                Err(e) => Err(e),
            },
        decreases raw@.len() - i,
    {
        assert(all.skip(i as int).skip(1) =~= all.skip(i + 1));
        assert(all.skip(i as int)[0] == (raw@[i as int].0@, raw@[i as int].1@));
        match bytes::read_utf8(raw[i].1.as_slice()) {
            Err(message) => {
                return Err(
                    DockerPullError::BadResponse(
                        concat2("invalid docker API header value: ", message.as_str()),
                    ),
                );
            },
            Ok(value) => {
                let ghost before = fields@;
                let name = text::to_lower(raw[i].0.as_str());
                let shown = text::trim(value.as_str()).to_owned();
                fields.push((name, shown));
                proof {
                    assert(fields_view(fields@) =~= fields_view(before).push((name@, shown@)));
                    match header_fields(all.skip(i + 1)) {
                        Ok(rest) => assert(fields_view(fields@) + rest =~= fields_view(before) + (
                        seq![(name@, shown@)] + rest)),
                        Err(_) => {},
                    }
                }
            },
        }
        i += 1;
    }
    assert(fields_view(fields@) + Seq::<(Seq<char>, Seq<char>)>::empty() =~= fields_view(
        fields@,
    ));
    Ok(fields)
}

/// Decides what a parsed head says.
pub fn response_head(parsed: std::result::Result<Option<RawResponse>, String>) -> (r: Result<
    (u16, Vec<(String, String)>),
>)
    ensures
        response_head_view(raw_head(parsed)) == match r {
            Ok(head) => Ok((head.0, fields_view(head.1@))),
            Err(e) => Err(e@),
        },
{
    match parsed {
        Err(message) => Err(
            DockerPullError::BadResponse(
                concat2("invalid docker API headers: ", message.as_str()),
            ),
        ),
        Ok(None) => Err(
            DockerPullError::BadResponse("docker API response headers are incomplete".to_owned()),
        ),
        Ok(Some(raw)) => match raw.code {
            None => Err(
                DockerPullError::BadResponse("docker API response is missing status".to_owned()),
            ),
            Some(code) => {
                if code < 100 || code > 999 {
                    return Err(
                        DockerPullError::BadResponse(
                            "invalid docker API status: invalid status code".to_owned(),
                        ),
                    );
                }
                match read_fields(&raw.headers) {
                    Ok(fields) => Ok((code, fields)),
                    Err(e) => Err(e),
                }
            },
        },
    }
}

/// Reads the head of an answer.
pub fn parse_response_head(bytes: &[u8]) -> (r: Result<(u16, Vec<(String, String)>)>)
    ensures
        response_head_view(http_response(bytes@, MAX_RESPONSE_HEADERS as nat)) == match r {
            Ok(head) => Ok((head.0, fields_view(head.1@))),
            Err(e) => Err(e@),
        },
{
    response_head(parse_http_response(bytes, MAX_RESPONSE_HEADERS))
}

/// The value of the first field of a name.
pub open spec fn field_value(fields: Seq<(Seq<char>, Seq<char>)>, name: Seq<char>) -> Option<
    Seq<char>,
>
    decreases fields.len(),
{
    if fields.len() == 0 {
        None
    } else if fields[0].0 == name {
        Some(fields[0].1)
    } else {
        field_value(fields.skip(1), name)
    }
}

/// Looks up the value of the first field of a name.
pub fn header_value<'a>(headers: &'a [(String, String)], name: &str) -> (r: Option<&'a str>)
    ensures
        text::opt_view(r) == field_value(fields_view(headers@), name@),
{
    let ghost all = fields_view(headers@);
    assert(all.skip(0) =~= all);
    let mut i: usize = 0;
    while i < headers.len()
        invariant
            i <= headers@.len(),
            all == fields_view(headers@),
            field_value(all, name@) == field_value(all.skip(i as int), name@),
        decreases headers@.len() - i,
    {
        assert(all.skip(i as int).skip(1) =~= all.skip(i + 1));
        assert(all.skip(i as int)[0] == (headers@[i as int].0@, headers@[i as int].1@));
        if text::same(headers[i].0.as_str(), name) {
            return Some(headers[i].1.as_str());
        }
        i += 1;
    }
    None
}

/// The value of a hexadecimal digit.
pub open spec fn hex_digit_value(c: char) -> Option<nat> {
    if '0' <= c && c <= '9' {
        Some((c as int - '0' as int) as nat)
    } else if 'a' <= c && c <= 'f' {
        Some((c as int - 'a' as int + 10) as nat)
    } else if 'A' <= c && c <= 'F' {
        Some((c as int - 'A' as int + 10) as nat)
    } else {
        None
    }
}

/// The number that hexadecimal digits denote.
pub open spec fn hex_number(s: Seq<char>) -> Option<nat>
    decreases s.len(),
{
    if s.len() == 0 {
        Some(0)
    } else {
        match (hex_number(s.drop_last()), hex_digit_value(s.last())) {
            (Some(high), Some(low)) => Some(high * 16 + low),
            _ => None,
        }
    }
}

/// The number that a text denotes: digits, and maybe a plus sign before them.
pub open spec fn parse_hex_view(s: Seq<char>, max: nat) -> Option<nat> {
    let digits = if s.len() > 0 && s[0] == '+' {
        s.skip(1)
    } else {
        s
    };
    if digits.len() == 0 {
        None
    } else {
        match hex_number(digits) {
            Some(n) if n <= max => Some(n),
            _ => None,
        }
    }
}

/// Why a text is no hexadecimal number up to a greatest one.
pub uninterp spec fn hex_error(value: Seq<char>, max: nat) -> Seq<char>;

/// Calls `usize::from_str_radix` with the base 16: an optional plus sign and hexadecimal digits of
/// either case, within the range of the type. The message of a failure depends on the text and on
/// that range.
#[verifier::external_body]
fn parse_hex(value: &str) -> (r: std::result::Result<usize, String>)
    ensures
        match r {
            Ok(n) => parse_hex_view(value@, usize::MAX as nat) == Some(n as nat),
            Err(message) => parse_hex_view(value@, usize::MAX as nat) is None && message@
                == hex_error(value@, usize::MAX as nat),
        },
{
    usize::from_str_radix(value, 16).map_err(|error| error.to_string())
}

/// The part of a line before a semicolon.
pub open spec fn before_semicolon(line: Seq<char>) -> Seq<char> {
    match text::split_once_view(line, ';') {
        Some((size, _)) => size,
        None => line,
    }
}

/// The size of a chunk that a line states.
pub open spec fn chunk_size_view(line: Seq<u8>) -> std::result::Result<nat, ErrorView> {
    if !valid_utf8(line) {
        Err(ErrorView::BadResponse("invalid chunk size: "@ + bytes::utf8_error(line)))
    } else {
        let size = text::trim_view(before_semicolon(decode_utf8(line)));
        match parse_hex_view(size, usize::MAX as nat) {
            Some(n) => Ok(n),
            None => Err(
                ErrorView::BadResponse(
                    "invalid chunk size: "@ + hex_error(size, usize::MAX as nat),
                ),
            ),
        }
    }
}

/// Reads the size of a chunk from its line.
pub fn chunk_size(line: &[u8]) -> (r: Result<usize>)
    ensures
        chunk_size_view(line@) == match r {
            Ok(n) => Ok(n as nat),
            Err(e) => Err(e@),
        },
{
    match bytes::read_utf8(line) {
        Err(message) => Err(
            DockerPullError::BadResponse(concat2("invalid chunk size: ", message.as_str())),
        ),
        Ok(shown) => {
            let size = match text::split_once(shown.as_str(), ';') {
                Some((size, _)) => text::trim(size),
                None => text::trim(shown.as_str()),
            };
            match parse_hex(size) {
                Ok(n) => Ok(n),
                Err(message) => Err(
                    DockerPullError::BadResponse(
                        concat2("invalid chunk size: ", message.as_str()),
                    ),
                ),
            }
        },
    }
}

/// The body that chunks hold: each is a line with its size, its bytes and a line end; a chunk
/// without bytes is the last, and what comes behind it is not read.
pub open spec fn chunked_body(bytes: Seq<u8>) -> std::result::Result<Seq<u8>, ErrorView>
    decreases bytes.len(),
    via chunked_body_decreases
{
    match find_bytes_view(bytes, crlf()) {
        None => Err(
            ErrorView::BadResponse("chunked docker API response is missing chunk size"@),
        ),
        Some(end) => match chunk_size_view(bytes.take(end)) {
            Err(e) => Err(e),
            Ok(size) => {
                let rest = bytes.skip(end + 2);
                if size == 0 {
                    Ok(seq![])
                } else if rest.len() < size + 2
                    || rest.subrange(size as int, size as int + 2) != crlf() {
                    Err(ErrorView::BadResponse("chunked docker API response is truncated"@))
                } else {
                    match chunked_body(rest.skip(size as int + 2)) {
                        Ok(tail) => Ok(rest.take(size as int) + tail),
                        Err(e) => Err(e),
                    }
                }
            },
        },
    }
}

#[via_fn]
proof fn chunked_body_decreases(bytes: Seq<u8>) {
    lemma_find_bytes(bytes, crlf());
}

/// Reads the body from its chunks.
pub fn decode_chunked_body(bytes: &[u8]) -> (r: Result<Vec<u8>>)
    ensures
        chunked_body(bytes@) == match r {
            Ok(body) => Ok(body@),
            Err(e) => Err(e@),
        },
{
    let line_end: [u8; 2] = [0x0d, 0x0a];
    assert(line_end@ =~= crlf());
    let mut decoded: Vec<u8> = Vec::new();
    let mut index: usize = 0;
    let ghost goal = chunked_body(bytes@);
    assert(bytes@.skip(0) =~= bytes@);
    proof {
        match goal {
            Ok(body) => assert(decoded@ + body =~= body),
            Err(_) => {},
        }
    }
    loop
        invariant
            index <= bytes@.len(),
            line_end@ == crlf(),
            goal == chunked_body(bytes@),
            goal == match chunked_body(bytes@.skip(index as int)) {
                Ok(tail) => Ok::<_, ErrorView>(decoded@ + tail),
                Err(e) => Err(e),
            },
        decreases bytes@.len() - index,
    {
        let n = bytes.len();
        let ghost here = bytes@.skip(index as int);
        let rest = vstd::slice::slice_subrange(bytes, index, n);
        assert(rest@ =~= here);
        proof {
            lemma_find_bytes(here, crlf());
        }
        let end = match find_bytes(rest, line_end.as_slice()) {
            None => {
                return Err(
                    DockerPullError::BadResponse("chunked docker API response is missing chunk size".to_owned()),
                );
            },
            Some(end) => end,
        };
        let line = vstd::slice::slice_subrange(rest, 0, end);
        assert(line@ =~= here.take(end as int));
        let size = match chunk_size(line) {
            Err(e) => {
                return Err(e);
            },
            Ok(size) => size,
        };
        index = index + end + 2;
        let ghost data = here.skip(end + 2);
        assert(data =~= bytes@.skip(index as int));
        if size == 0 {
            assert(decoded@ + Seq::<u8>::empty() =~= decoded@);
            return Ok(decoded);
        }
        if n - index < 2 || size > n - index - 2 {
            return Err(DockerPullError::BadResponse("chunked docker API response is truncated".to_owned()));
        }
        let chunk_end = index + size;
        let terminator = vstd::slice::slice_subrange(bytes, chunk_end, chunk_end + 2);
        assert(terminator@ =~= data.subrange(size as int, size + 2));
        if !bytes::same_bytes(terminator, line_end.as_slice()) {
            return Err(DockerPullError::BadResponse("chunked docker API response is truncated".to_owned()));
        }
        let chunk = vstd::slice::slice_subrange(bytes, index, chunk_end);
        assert(chunk@ =~= data.take(size as int));
        let ghost before = decoded@;
        decoded.extend_from_slice(chunk);
        index = chunk_end + 2;
        proof {
            assert(bytes@.skip(index as int) =~= data.skip(size + 2));
            assert(decoded@ =~= before + chunk@);
            match chunked_body(data.skip(size + 2)) {
                Ok(tail) => assert(decoded@ + tail =~= before + (data.take(size as int) + tail)),
                Err(_) => {},
            }
        }
    }
}

/// Where a reader of chunks stands.
#[derive(Debug, Clone, Copy, PartialEq, Eq, Structural)]
pub enum ChunkState {
    /// Before the line with a size.
    AtSize,
    /// Inside a chunk with so many bytes left.
    InData(usize),
    /// Before the line end of a chunk.
    AtEnd,
    /// Behind the last chunk.
    Finished,
}

/// What a reader of chunks makes of the bytes it has: the bytes of the body, where it then stands,
/// and the bytes that it still holds.
pub struct Drained {
    pub out: Seq<u8>,
    pub state: ChunkState,
    pub rest: Seq<u8>,
}

/// Puts bytes before those that were drained.
pub open spec fn prepended(
    out: Seq<u8>,
    r: std::result::Result<Drained, ErrorView>,
) -> std::result::Result<Drained, ErrorView> {
    match r {
        Ok(d) => Ok(Drained { out: out + d.out, state: d.state, rest: d.rest }),
        Err(e) => Err(e),
    }
}

/// What a reader of chunks makes of the bytes it has.
pub open spec fn drained(state: ChunkState, buffer: Seq<u8>) -> std::result::Result<
    Drained,
    ErrorView,
>
    decreases
            buffer.len(),
            match state {
                ChunkState::InData(_) => 0int,
                _ => 1int,
            },
    via drained_decreases
{
    match state {
        ChunkState::Finished => Ok(Drained { out: seq![], state, rest: buffer }),
        ChunkState::AtSize => match find_bytes_view(buffer, crlf()) {
            None => Ok(Drained { out: seq![], state, rest: buffer }),
            Some(end) => match chunk_size_view(buffer.take(end)) {
                Err(e) => Err(e),
                Ok(size) => if size == 0 {
                    Ok(
                        Drained {
                            out: seq![],
                            state: ChunkState::Finished,
                            rest: buffer.skip(end + 2),
                        },
                    )
                } else {
                    drained(ChunkState::InData(size as usize), buffer.skip(end + 2))
                },
            },
        },
        ChunkState::InData(left) => if left == 0 {
            Ok(Drained { out: seq![], state: ChunkState::AtEnd, rest: buffer })
        } else if left <= buffer.len() {
            prepended(
                buffer.take(left as int),
                drained(ChunkState::AtEnd, buffer.skip(left as int)),
            )
        } else {
            Ok(
                Drained {
                    out: buffer,
                    state: ChunkState::InData((left - buffer.len()) as usize),
                    rest: seq![],
                },
            )
        },
        ChunkState::AtEnd => if buffer.len() < 2 {
            Ok(Drained { out: seq![], state, rest: buffer })
        } else if buffer.take(2) != crlf() {
            Err(
                ErrorView::BadResponse(
                    "chunked docker API response is missing chunk terminator"@,
                ),
            )
        } else {
            drained(ChunkState::AtSize, buffer.skip(2))
        },
    }
}

#[via_fn]
proof fn drained_decreases(state: ChunkState, buffer: Seq<u8>) {
    lemma_find_bytes(buffer, crlf());
}

/// A needle found in the first part of bytes is found at the same place in the whole.
proof fn lemma_find_in_first_part(a: Seq<u8>, b: Seq<u8>, needle: Seq<u8>)
    ensures
        find_bytes_view(a, needle) is Some ==> find_bytes_view(a + b, needle)
            == find_bytes_view(a, needle),
    decreases a.len(),
{
    if a.len() < needle.len() {
    } else {
        assert((a + b).take(needle.len() as int) =~= a.take(needle.len() as int));
        if a.take(needle.len() as int) != needle && a.len() > 0 {
            lemma_find_in_first_part(a.skip(1), b, needle);
            assert((a + b).skip(1) =~= a.skip(1) + b);
        }
    }
}

/// How the bytes of a body are cut does not matter: to read them in two parts gives what reading
/// them at once gives.
#[verifier::rlimit(60)]
pub proof fn law_chunks_can_arrive_in_parts(state: ChunkState, a: Seq<u8>, b: Seq<u8>)
    requires
        state != ChunkState::InData(0),
    ensures
        drained(state, a + b) == match drained(state, a) {
            Ok(d) => prepended(d.out, drained(d.state, d.rest + b)),
            Err(e) => Err(e),
        },
    decreases
            a.len(),
            match state {
                ChunkState::InData(_) => 0int,
                _ => 1int,
            },
{
    let whole = drained(state, a + b);
    let nothing = Seq::<u8>::empty();
    match state {
        ChunkState::Finished => {
            assert(nothing + nothing =~= nothing);
        },
        ChunkState::AtSize => {
            match find_bytes_view(a, crlf()) {
                None => {
                    lemma_prepend_nothing(drained(state, a + b));
                },
                Some(end) => {
                    lemma_find_bytes(a, crlf());
                    lemma_find_in_first_part(a, b, crlf());
                    assert((a + b).take(end) =~= a.take(end));
                    assert((a + b).skip(end + 2) =~= a.skip(end + 2) + b);
                    match chunk_size_view(a.take(end)) {
                        Err(_) => {},
                        Ok(size) => {
                            if size != 0 {
                                law_chunks_can_arrive_in_parts(
                                    ChunkState::InData(size as usize),
                                    a.skip(end + 2),
                                    b,
                                );
                            } else {
                                assert(nothing + nothing =~= nothing);
                            }
                        },
                    }
                },
            }
        },
        ChunkState::InData(left) => {
            if left <= a.len() {
                assert((a + b).take(left as int) =~= a.take(left as int));
                assert((a + b).skip(left as int) =~= a.skip(left as int) + b);
                law_chunks_can_arrive_in_parts(ChunkState::AtEnd, a.skip(left as int), b);
                match drained(ChunkState::AtEnd, a.skip(left as int)) {
                    Ok(d) => {
                        match drained(d.state, d.rest + b) {
                            Ok(e) => {
                                assert(a.take(left as int) + (d.out + e.out) =~= (a.take(
                                    left as int,
                                ) + d.out) + e.out);
                            },
                            Err(_) => {},
                        }
                    },
                    Err(_) => {},
                }
            } else {
                let d = drained(state, a)->Ok_0;
                assert(d.rest + b =~= b);
                let remaining = (left - a.len()) as usize;
                if left <= (a + b).len() {
                    assert((a + b).take(left as int) =~= a + b.take(remaining as int));
                    assert((a + b).skip(left as int) =~= b.skip(remaining as int));
                    match drained(ChunkState::AtEnd, b.skip(remaining as int)) {
                        Ok(e) => {
                            assert((a + b.take(remaining as int)) + e.out =~= a + (b.take(
                                remaining as int,
                            ) + e.out));
                        },
                        Err(_) => {},
                    }
                } else {
                    assert(nothing + b =~= b);
                }
            }
        },
        ChunkState::AtEnd => {
            if a.len() < 2 {
                lemma_prepend_nothing(drained(state, a + b));
            } else {
                assert((a + b).take(2) =~= a.take(2));
                assert((a + b).skip(2) =~= a.skip(2) + b);
                if a.take(2) == crlf() {
                    law_chunks_can_arrive_in_parts(ChunkState::AtSize, a.skip(2), b);
                }
            }
        },
    }
}

/// To put nothing before what was drained changes nothing.
proof fn lemma_prepend_nothing(r: std::result::Result<Drained, ErrorView>)
    ensures
        prepended(Seq::<u8>::empty(), r) == r,
{
    match r {
        Ok(d) => {
            assert(Seq::<u8>::empty() + d.out =~= d.out);
        },
        Err(_) => {},
    }
}

/// Reads a body that comes in chunks, as its bytes arrive.
pub struct ChunkReader {
    buffer: Vec<u8>,
    state: ChunkState,
}

impl ChunkReader {
    /// Where the reader stands.
    pub closed spec fn at(self) -> ChunkState {
        self.state
    }

    /// The bytes that the reader holds.
    pub closed spec fn held(self) -> Seq<u8> {
        self.buffer@
    }

    /// A reader before the first chunk, with the bytes that are there already.
    pub fn new(buffer: Vec<u8>) -> (r: ChunkReader)
        ensures
            r.at() == ChunkState::AtSize,
            r.held() == buffer@,
    {
        ChunkReader { buffer, state: ChunkState::AtSize }
    }

    /// Whether the last chunk was read.
    pub fn is_finished(&self) -> (r: bool)
        ensures
            r == (self.at() == ChunkState::Finished),
    {
        matches!(self.state, ChunkState::Finished)
    }

    /// Takes more bytes.
    pub fn feed(&mut self, input: &[u8])
        ensures
            final(self).at() == old(self).at(),
            final(self).held() == old(self).held() + input@,
    {
        self.buffer.extend_from_slice(input);
        assert(self.buffer@ =~= old(self).buffer@ + input@);
    }

    /// Hands out the bytes of the body that can be read from those that are there.
    pub fn drain(&mut self) -> (r: Result<Vec<u8>>)
        requires
            old(self).at() != ChunkState::InData(0),
        ensures
            final(self).at() != ChunkState::InData(0),
            match drained(old(self).at(), old(self).held()) {
                Ok(d) => r matches Ok(out) && out@ == d.out && final(self).at() == d.state
                    && final(self).held() == d.rest,
                Err(error) => r matches Err(e) && e@ == error && final(self).at() == old(
                    self,
                ).at() && final(self).held() == old(self).held(),
            },
    {
        let line_end: [u8; 2] = [0x0d, 0x0a];
        assert(line_end@ =~= crlf());
        let ghost goal = drained(self.state, self.buffer@);
        let n = self.buffer.len();
        let mut out: Vec<u8> = Vec::new();
        let mut index: usize = 0;
        let mut state = self.state;
        assert(self.buffer@.skip(0) =~= self.buffer@);
        proof {
            lemma_prepend_nothing(goal);
            assert(out@ =~= Seq::<u8>::empty());
        }
        let mut more = true;
        while more
            invariant
                n == self.buffer@.len(),
                *self == *old(self),
                index <= n,
                line_end@ == crlf(),
                state != ChunkState::InData(0),
                goal == drained(old(self).at(), old(self).held()),
                more ==> goal == prepended(out@, drained(state, self.buffer@.skip(index as int))),
                !more ==> goal == Ok::<_, ErrorView>(
                    Drained { out: out@, state, rest: self.buffer@.skip(index as int) },
                ),
            decreases
                    n - index,
                    if more {
                        match state {
                            ChunkState::InData(_) => 1int,
                            _ => 2int,
                        }
                    } else {
                        0int
                    },
        {
            let ghost here = self.buffer@.skip(index as int);
            let rest = vstd::slice::slice_subrange(self.buffer.as_slice(), index, n);
            assert(rest@ =~= here);
            assert(out@ + Seq::<u8>::empty() =~= out@);
            match state {
                ChunkState::Finished => {
                    more = false;
                },
                ChunkState::AtSize => {
                    proof {
                        lemma_find_bytes(here, crlf());
                    }
                    match find_bytes(rest, line_end.as_slice()) {
                        None => {
                            more = false;
                        },
                        Some(end) => {
                            let line = vstd::slice::slice_subrange(rest, 0, end);
                            assert(line@ =~= here.take(end as int));
                            match chunk_size(line) {
                                Err(e) => {
                                    return Err(e);
                                },
                                Ok(size) => {
                                    index = index + end + 2;
                                    assert(self.buffer@.skip(index as int) =~= here.skip(end + 2));
                                    if size == 0 {
                                        state = ChunkState::Finished;
                                        more = false;
                                    } else {
                                        state = ChunkState::InData(size);
                                    }
                                },
                            }
                        },
                    }
                },
                ChunkState::InData(left) => {
                    if left <= n - index {
                        let part = vstd::slice::slice_subrange(rest, 0, left);
                        assert(part@ =~= here.take(left as int));
                        let ghost before = out@;
                        out.extend_from_slice(part);
                        index = index + left;
                        state = ChunkState::AtEnd;
                        proof {
                            assert(out@ =~= before + part@);
                            assert(self.buffer@.skip(index as int) =~= here.skip(left as int));
                            match drained(ChunkState::AtEnd, here.skip(left as int)) {
                                Ok(d) => assert(before + (here.take(left as int) + d.out) =~= out@
                                    + d.out),
                                Err(_) => {},
                            }
                        }
                    } else {
                        let taken = n - index;
                        let ghost before = out@;
                        out.extend_from_slice(rest);
                        index = n;
                        state = ChunkState::InData(left - taken);
                        more = false;
                        assert(out@ =~= before + here);
                        assert(self.buffer@.skip(index as int) =~= Seq::<u8>::empty());
                    }
                },
                ChunkState::AtEnd => {
                    if n - index < 2 {
                        more = false;
                    } else {
                        let terminator = vstd::slice::slice_subrange(rest, 0, 2);
                        assert(terminator@ =~= here.take(2));
                        if !bytes::same_bytes(terminator, line_end.as_slice()) {
                            return Err(
                                DockerPullError::BadResponse("chunked docker API response is missing chunk terminator".to_owned()),
                            );
                        }
                        index = index + 2;
                        state = ChunkState::AtSize;
                        assert(self.buffer@.skip(index as int) =~= here.skip(2));
                    }
                },
            }
        }
        let tail = vstd::slice::slice_subrange(self.buffer.as_slice(), index, n);
        let kept = vstd::slice::slice_to_vec(tail);
        assert(kept@ =~= self.buffer@.skip(index as int));
        self.buffer = kept;
        self.state = state;
        Ok(out)
    }
}

/// How the end of a body is told.
#[derive(Debug, Clone, Copy, PartialEq, Eq, Structural)]
pub enum Framing {
    /// The body comes in chunks.
    Chunked,
    /// The body has so many bytes.
    Length(usize),
    /// The body goes to the end of the connection.
    ToEnd,
}

/// Why a text is no number up to a greatest one.
pub uninterp spec fn length_error(value: Seq<char>, max: nat) -> Seq<char>;

/// Calls `str::parse::<usize>`: an optional plus sign and decimal digits, within the range of the
/// type. The message of a failure depends on the text and on that range.
#[verifier::external_body]
fn parse_length(value: &str) -> (r: std::result::Result<usize, String>)
    ensures
        match r {
            Ok(n) => text::parse_unsigned_view(value@, usize::MAX as nat) == Some(n as nat),
            Err(message) => text::parse_unsigned_view(value@, usize::MAX as nat) is None
                && message@ == length_error(value@, usize::MAX as nat),
        },
{
    value.parse::<usize>().map_err(|error| error.to_string())
}

/// How header fields tell the end of a body.
pub open spec fn framing_view(fields: Seq<(Seq<char>, Seq<char>)>) -> std::result::Result<
    Framing,
    ErrorView,
> {
    match field_value(fields, "transfer-encoding"@) {
        Some(value) if text::contains_text(text::lower_view(value), "chunked"@) => Ok(
            Framing::Chunked,
        ),
        _ => match field_value(fields, "content-length"@) {
            None => Ok(Framing::ToEnd),
            Some(value) => match text::parse_unsigned_view(value, usize::MAX as nat) {
                Some(n) => Ok(Framing::Length(n as usize)),
                None => Err(
                    ErrorView::BadResponse(
                        "invalid docker API content length: "@ + length_error(
                            value,
                            usize::MAX as nat,
                        ),
                    ),
                ),
            },
        },
    }
}

/// Reads from header fields how the end of a body is told.
pub fn body_framing(headers: &[(String, String)]) -> (r: Result<Framing>)
    ensures
        framing_view(fields_view(headers@)) == match r {
            Ok(framing) => Ok(framing),
            Err(e) => Err(e@),
        },
{
    if let Some(value) = header_value(headers, "transfer-encoding") {
        if text::contains_str(text::to_lower(value).as_str(), "chunked") {
            return Ok(Framing::Chunked);
        }
    }
    match header_value(headers, "content-length") {
        None => Ok(Framing::ToEnd),
        Some(value) => match parse_length(value) {
            Ok(n) => Ok(Framing::Length(n)),
            Err(message) => Err(
                DockerPullError::BadResponse(
                    concat2("invalid docker API content length: ", message.as_str()),
                ),
            ),
        },
    }
}

/// The body in the bytes that were read to the end of the connection.
pub fn whole_body(headers: &[(String, String)], body: Vec<u8>) -> (r: Result<Vec<u8>>)
    ensures
        match framing_view(fields_view(headers@)) {
            Err(error) => r matches Err(e) && e@ == error,
            Ok(Framing::Chunked) => chunked_body(body@) == match r {
                Ok(decoded) => Ok(decoded@),
                Err(e) => Err(e@),
            },
            Ok(Framing::Length(n)) => r matches Ok(b) && b@ == if n < body@.len() {
                body@.take(n as int)
            } else {
                body@
            },
            Ok(Framing::ToEnd) => r matches Ok(b) && b@ == body@,
        },
{
    match body_framing(headers) {
        Err(e) => Err(e),
        Ok(Framing::Chunked) => decode_chunked_body(body.as_slice()),
        Ok(Framing::Length(n)) => {
            let mut body = body;
            let ghost all = body@;
            body.truncate(n);
            assert(n < all.len() ==> body@ =~= all.take(n as int));
            Ok(body)
        },
        Ok(Framing::ToEnd) => Ok(body),
    }
}

/// The first field with a name tells its value.
pub proof fn law_the_first_field_counts(
    fields: Seq<(Seq<char>, Seq<char>)>,
    name: Seq<char>,
    value: Seq<char>,
    more: Seq<(Seq<char>, Seq<char>)>,
)
    requires
        forall|i: int| 0 <= i < fields.len() ==> (#[trigger] fields[i]).0 != name,
    ensures
        field_value(fields + seq![(name, value)] + more, name) == Some(value),
        field_value(fields, name) is None,
    decreases fields.len(),
{
    let all = fields + seq![(name, value)] + more;
    if fields.len() == 0 {
        assert(all[0] == (name, value));
    } else {
        let rest = fields.skip(1);
        assert forall|i: int| 0 <= i < rest.len() implies (#[trigger] rest[i]).0 != name by {
            assert(rest[i] == fields[i + 1]);
        }
        law_the_first_field_counts(rest, name, value, more);
        assert(all.skip(1) =~= rest + seq![(name, value)] + more);
        assert(all[0] == fields[0]);
    }
}

/// A body that comes in chunks is read in chunks whatever length is stated; one with a stated
/// length has that length; and one with neither goes to the end of the connection.
pub proof fn law_the_end_of_a_body_is_told(fields: Seq<(Seq<char>, Seq<char>)>, n: nat)
    requires
        n <= usize::MAX,
    ensures
        field_value(fields, "transfer-encoding"@) == Some("chunked"@) ==> framing_view(fields)
            == Ok::<Framing, ErrorView>(Framing::Chunked),
        field_value(fields, "transfer-encoding"@) == Some("gzip, Chunked"@) ==> framing_view(fields)
            == Ok::<Framing, ErrorView>(Framing::Chunked),
        field_value(fields, "transfer-encoding"@) is None && field_value(
            fields,
            "content-length"@,
        ) == Some(text::decimal_view(n)) ==> framing_view(fields) == Ok::<Framing, ErrorView>(
            Framing::Length(n as usize),
        ),
        field_value(fields, "transfer-encoding"@) is None && field_value(
            fields,
            "content-length"@,
        ) == Some(Seq::<char>::empty()) ==> framing_view(fields) is Err,
        field_value(fields, "transfer-encoding"@) is None && field_value(
            fields,
            "content-length"@,
        ) is None ==> framing_view(fields) == Ok::<Framing, ErrorView>(Framing::ToEnd),
{
    text::law_a_number_reads_back(n, usize::MAX as nat);
    reveal_strlit("chunked");
    reveal_strlit("gzip, Chunked");
    let plain = text::lower_view("chunked"@);
    assert(plain =~= "chunked"@);
    assert(text::occurs_at(plain, "chunked"@, 0)) by {
        assert(plain.subrange(0, 7) =~= "chunked"@);
    }
    text::lemma_find_text(plain, "chunked"@);
    let listed = text::lower_view("gzip, Chunked"@);
    assert(listed.subrange(6, 13) =~= "chunked"@);
    assert(text::occurs_at(listed, "chunked"@, 6));
    text::lemma_find_text(listed, "chunked"@);
}

/// Each field of a head has its name in small letters and its value without the space around it;
/// a value that is no text spoils the head.
pub proof fn law_fields_are_read_in_order(
    raw: Seq<(Seq<char>, Seq<u8>)>,
    name: Seq<char>,
    value: Seq<u8>,
)
    requires
        header_fields(raw) is Ok,
    ensures
        header_fields(Seq::<(Seq<char>, Seq<u8>)>::empty()) == Ok::<
            Seq<(Seq<char>, Seq<char>)>,
            ErrorView,
        >(seq![]),
        valid_utf8(value) ==> header_fields(raw.push((name, value))) == Ok::<
            Seq<(Seq<char>, Seq<char>)>,
            ErrorView,
        >(
            header_fields(raw)->Ok_0.push(
                (text::lower_view(name), text::trim_view(decode_utf8(value))),
            ),
        ),
        !valid_utf8(value) ==> header_fields(raw.push((name, value))) is Err,
    decreases raw.len(),
{
    let all = raw.push((name, value));
    if raw.len() == 0 {
        assert(all.skip(1) =~= raw);
        assert(all[0] == (name, value));
        if valid_utf8(value) {
            assert(header_fields(all)->Ok_0 =~= header_fields(raw)->Ok_0.push(
                (text::lower_view(name), text::trim_view(decode_utf8(value))),
            ));
        }
    } else {
        law_fields_are_read_in_order(raw.skip(1), name, value);
        assert(all.skip(1) =~= raw.skip(1).push((name, value)));
        assert(all[0] == raw[0]);
        if valid_utf8(value) {
            assert(header_fields(all)->Ok_0 =~= header_fields(raw)->Ok_0.push(
                (text::lower_view(name), text::trim_view(decode_utf8(value))),
            ));
        }
    }
}

/// A head is usable where it was read whole and has a status of three digits.
pub proof fn law_a_head_has_a_status(code: u16, raw: Seq<(Seq<char>, Seq<u8>)>)
    requires
        header_fields(raw) is Ok,
    ensures
        100 <= code <= 999 ==> response_head_view(Ok(Some((Some(code), raw)))) == Ok::<
            (u16, Seq<(Seq<char>, Seq<char>)>),
            ErrorView,
        >((code, header_fields(raw)->Ok_0)),
        code < 100 || code > 999 ==> response_head_view(Ok(Some((Some(code), raw)))) is Err,
        response_head_view(Ok(Some((None, raw)))) is Err,
        response_head_view(Ok(None)) is Err,
        forall|message: Seq<char>| #[trigger] response_head_view(Err(message)) is Err,
{
}

/// A chunk that is shorter than its size, or that no line end follows, makes a body unreadable.
pub proof fn law_a_broken_chunk_is_refused(line: Seq<u8>, data: Seq<u8>, behind: Seq<u8>)
    requires
        find_bytes_view(line + crlf() + data + behind, crlf()) == Some(line.len() as int),
        chunk_size_view(line) == Ok::<nat, ErrorView>(data.len()),
        data.len() > 0,
    ensures
        behind.len() < 2 || behind.take(2) != crlf() ==> chunked_body(
            line + crlf() + data + behind,
        ) is Err,
        behind.len() >= 2 && behind.take(2) != crlf() ==> drained(ChunkState::AtEnd, behind) is Err,
{
    let whole = line + crlf() + data + behind;
    assert(whole.take(line.len() as int) =~= line);
    assert(whole.skip(line.len() as int + 2) =~= data + behind);
    let rest = data + behind;
    let size = data.len() as int;
    if behind.len() >= 2 {
        assert(rest.subrange(size, size + 2) =~= behind.take(2));
    }
}

} // verus!
