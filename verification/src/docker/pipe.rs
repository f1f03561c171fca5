//! Requests to a daemon that listens on a named pipe.
use vstd::prelude::*;
use vstd::utf8::{
    encode_utf8_decode_utf8, encode_utf8_valid_utf8, is_ascii_chars, is_ascii_chars_encode_utf8,
};

use crate::bytes::find_bytes_view;
use crate::docker::api::bytes_of;
use crate::docker::chunked::{
    chunk_size_view, chunked_body, crlf, drained, find_head, head_end, hex_digit_value, hex_number,
    parse_hex_view, ChunkState, Drained, HeadProgress, MAX_RESPONSE_HEAD_BYTES,
};
use crate::error::{DockerPullError, ErrorView, Result};
use crate::text;

verus! {

/// How often a pipe that is busy is tried again.
pub const PIPE_OPEN_RETRIES: usize = 20;

/// The pause before a pipe that is busy is tried again.
pub const PIPE_OPEN_RETRY_MS: u64 = 50;

/// Whether a pipe that could not be opened is tried again.
pub fn tries_again(attempt: usize, busy: bool) -> (r: bool)
    ensures
        r == (busy && attempt < PIPE_OPEN_RETRIES),
{
    busy && attempt < PIPE_OPEN_RETRIES
}

/// The head of a request. A body of an unknown length is sent in chunks.
pub open spec fn request_head_view(
    method: Seq<char>,
    path: Seq<char>,
    agent: Seq<char>,
    content_type: Option<Seq<char>>,
    length: Option<u64>,
) -> Seq<char> {
    method + " "@ + path + " HTTP/1.1\r\nHost: docker\r\nUser-Agent: "@ + agent
        + "\r\nConnection: close\r\n"@ + (match content_type {
        Some(kind) => "Content-Type: "@ + kind + "\r\n"@,
        None => seq![],
    }) + (match length {
        Some(n) => "Content-Length: "@ + text::decimal_view(n as nat) + "\r\n"@,
        None => "Transfer-Encoding: chunked\r\n"@,
    }) + "\r\n"@
}

/// Writes the head of a request.
pub fn request_head(
    method: &str,
    path: &str,
    agent: &str,
    content_type: Option<&str>,
    length: Option<u64>,
) -> (s: String)
    ensures
        s@ == request_head_view(method@, path@, agent@, text::opt_view(content_type), length),
{
    let mut s = method.to_owned();
    s.append(" ");
    s.append(path);
    s.append(" HTTP/1.1\r\nHost: docker\r\nUser-Agent: ");
    s.append(agent);
    s.append("\r\nConnection: close\r\n");
    let ghost start = s@;
    match content_type {
        Some(kind) => {
            s.append("Content-Type: ");
            s.append(kind);
            s.append("\r\n");
            assert(s@ =~= start + ("Content-Type: "@ + kind@ + "\r\n"@));
        },
        None => {
            assert(s@ =~= start + Seq::<char>::empty());
        },
    }
    let ghost typed = s@;
    match length {
        Some(n) => {
            s.append("Content-Length: ");
            s.append(text::decimal(n).as_str());
            s.append("\r\n");
            assert(s@ =~= typed + ("Content-Length: "@ + text::decimal_view(n as nat) + "\r\n"@));
        },
        None => {
            s.append("Transfer-Encoding: chunked\r\n");
        },
    }
    s.append("\r\n");
    s
}

/// The lower-case hexadecimal digit of a number below 16.
pub open spec fn lower_hex_digit(n: nat) -> char {
    if n < 10 {
        ('0' as int + n) as char
    } else {
        ('a' as int + (n - 10)) as char
    }
}

/// A number in hexadecimal digits.
pub open spec fn hex_text(n: nat) -> Seq<char>
    decreases n,
{
    if n < 16 {
        seq![lower_hex_digit(n)]
    } else {
        hex_text(n / 16).push(lower_hex_digit(n % 16))
    }
}

/// The lower-case hexadecimal digit of a number below 16.
fn hex_lower(n: u8) -> (c: char)
    requires
        n < 16,
    ensures
        c == lower_hex_digit(n as nat),
{
    if n < 10 {
        (0x30 + n) as char
    } else {
        (0x61 + (n - 10)) as char
    }
}

/// Writes a number in hexadecimal digits.
fn hex_of(n: usize) -> (s: String)
    ensures
        s@ == hex_text(n as nat),
    decreases n,
{
    if n < 16 {
        let mut s = String::new();
        s.push(hex_lower(n as u8));
        assert(s@ =~= hex_text(n as nat));
        s
    } else {
        let mut s = hex_of(n / 16);
        s.push(hex_lower((n % 16) as u8));
        s
    }
}

/// A chunk of a body: a line with its length, its bytes, and the end of a line.
pub open spec fn chunk_view(bytes: Seq<u8>) -> Seq<u8> {
    bytes_of(hex_text(bytes.len())) + crlf() + bytes + crlf()
}

/// Writes a chunk of a body.
pub fn encode_chunk(bytes: &[u8]) -> (out: Vec<u8>)
    ensures
        out@ == chunk_view(bytes@),
{
    let size = hex_of(bytes.len());
    let line_end: [u8; 2] = [0x0d, 0x0a];
    assert(line_end@ =~= crlf());
    let mut out: Vec<u8> = Vec::new();
    out.extend_from_slice(size.as_str().as_bytes());
    out.extend_from_slice(line_end.as_slice());
    out.extend_from_slice(bytes);
    out.extend_from_slice(line_end.as_slice());
    assert(out@ =~= chunk_view(bytes@));
    out
}

/// The chunk that ends a body.
pub open spec fn last_chunk_view() -> Seq<u8> {
    seq![0x30] + crlf() + crlf()
}

/// Writes the chunk that ends a body.
pub fn last_chunk() -> (out: Vec<u8>)
    ensures
        out@ == last_chunk_view(),
{
    let bytes: [u8; 5] = [0x30, 0x0d, 0x0a, 0x0d, 0x0a];
    let mut out: Vec<u8> = Vec::new();
    out.extend_from_slice(bytes.as_slice());
    assert(out@ =~= last_chunk_view());
    out
}

/// A body as it is sent in chunks.
pub open spec fn sent_body(chunks: Seq<Seq<u8>>) -> Seq<u8>
    decreases chunks.len(),
{
    if chunks.len() == 0 {
        last_chunk_view()
    } else {
        chunk_view(chunks[0]) + sent_body(chunks.skip(1))
    }
}

/// The bytes of chunks, one after the other.
pub open spec fn joined(chunks: Seq<Seq<u8>>) -> Seq<u8>
    decreases chunks.len(),
{
    if chunks.len() == 0 {
        seq![]
    } else {
        chunks[0] + joined(chunks.skip(1))
    }
}

/// A digit has the value that it was written for.
proof fn lemma_digit(n: nat)
    requires
        n < 16,
    ensures
        hex_digit_value(lower_hex_digit(n)) == Some(n),
        '0' <= lower_hex_digit(n) <= '9' || 'a' <= lower_hex_digit(n) <= 'f',
{
}

/// A number in hexadecimal digits has at least one digit, only digits, and its own value.
proof fn lemma_hex_text(n: nat)
    ensures
        hex_text(n).len() > 0,
        hex_number(hex_text(n)) == Some(n),
        forall|i: int|
            0 <= i < hex_text(n).len() ==> ('0' <= #[trigger] hex_text(n)[i] <= '9' || 'a'
                <= hex_text(n)[i] <= 'f'),
    decreases n,
{
    let s = hex_text(n);
    if n < 16 {
        lemma_digit(n);
        assert(s.drop_last() =~= Seq::<char>::empty());
        assert(hex_number(s.drop_last()) == Some(0nat));
    } else {
        lemma_hex_text(n / 16);
        lemma_digit(n % 16);
        assert(s.drop_last() =~= hex_text(n / 16));
        assert(s.last() == lower_hex_digit(n % 16));
        assert(n == (n / 16) * 16 + n % 16);
    }
}

/// A line without a carriage return ends where the first line end begins.
proof fn lemma_line_end(line: Seq<u8>, rest: Seq<u8>)
    requires
        forall|i: int| 0 <= i < line.len() ==> line[i] != 0x0d,
    ensures
        find_bytes_view(line + crlf() + rest, crlf()) == Some(line.len() as int),
    decreases line.len(),
{
    let whole = line + crlf() + rest;
    if line.len() == 0 {
        assert(whole.take(2) =~= crlf());
    } else {
        assert(whole.take(2)[0] == line[0]);
        assert(crlf()[0] == 0x0d);
        assert(whole.take(2) != crlf());
        assert(whole.skip(1) =~= line.skip(1) + crlf() + rest);
        lemma_line_end(line.skip(1), rest);
    }
}

/// A text without whitespace at its ends is trimmed to itself, and one without a semicolon is not
/// cut.
proof fn lemma_plain_size(s: Seq<char>)
    requires
        s.len() > 0,
        forall|i: int|
            0 <= i < s.len() ==> ('0' <= #[trigger] s[i] <= '9' || 'a' <= s[i] <= 'f'),
    ensures
        text::trim_view(s) == s,
        text::split_once_view(s, ';') is None,
{
    assert('0' <= s[0] <= '9' || 'a' <= s[0] <= 'f');
    assert('0' <= s.last() <= '9' || 'a' <= s.last() <= 'f');
    text::lemma_find_char(s, ';');
}

/// The line of a chunk states its size.
proof fn lemma_size_line(n: nat)
    requires
        n <= usize::MAX,
    ensures
        chunk_size_view(bytes_of(hex_text(n))) == Ok::<nat, ErrorView>(n),
        forall|i: int|
            0 <= i < bytes_of(hex_text(n)).len() ==> #[trigger] bytes_of(hex_text(n))[i] != 0x0d,
{
    let s = hex_text(n);
    lemma_hex_text(n);
    assert(is_ascii_chars(s));
    encode_utf8_valid_utf8(s);
    encode_utf8_decode_utf8(s);
    is_ascii_chars_encode_utf8(s);
    lemma_plain_size(s);
    assert('0' <= s[0] <= '9' || 'a' <= s[0] <= 'f');
    assert(parse_hex_view(s, usize::MAX as nat) == Some(n));
    assert forall|i: int| 0 <= i < bytes_of(s).len() implies #[trigger] bytes_of(s)[i] != 0x0d by {
        assert('0' <= s[i] <= '9' || 'a' <= s[i] <= 'f');
        assert(s[i] as u8 == bytes_of(s)[i]);
    }
}

/// A body that is sent in chunks is read as it was sent, whatever its chunks are; a chunk holds at
/// least one byte.
pub proof fn law_a_sent_body_is_read_back(chunks: Seq<Seq<u8>>)
    requires
        forall|i: int| 0 <= i < chunks.len() ==> 0 < (#[trigger] chunks[i]).len() <= usize::MAX,
    ensures
        chunked_body(sent_body(chunks)) == Ok::<Seq<u8>, ErrorView>(joined(chunks)),
    decreases chunks.len(),
{
    let sent = sent_body(chunks);
    if chunks.len() == 0 {
        lemma_size_line(0);
        let line = bytes_of(hex_text(0));
        is_ascii_chars_encode_utf8(hex_text(0));
        assert(hex_text(0)[0] == '0');
        assert(line =~= seq![0x30u8]);
        lemma_line_end(line, crlf());
        assert(sent =~= line + crlf() + crlf());
        assert(sent.take(1) =~= line);
    } else {
        let size = chunks[0].len();
        let line = bytes_of(hex_text(size));
        let others = sent_body(chunks.skip(1));
        let behind = chunks[0] + crlf() + others;
        lemma_size_line(size);
        lemma_line_end(line, behind);
        assert(sent =~= line + crlf() + behind);
        assert(sent.take(line.len() as int) =~= line);
        assert(sent.skip(line.len() as int + 2) =~= behind);
        assert(behind.subrange(size as int, size as int + 2) =~= crlf());
        assert(behind.skip(size as int + 2) =~= others);
        assert(behind.take(size as int) =~= chunks[0]);
        assert forall|i: int| 0 <= i < chunks.skip(1).len() implies 0 < (
        #[trigger] chunks.skip(1)[i]).len() <= usize::MAX by {
            assert(chunks.skip(1)[i] == chunks[i + 1]);
        }
        law_a_sent_body_is_read_back(chunks.skip(1));
    }
}

/// How much of what arrived belongs to a body of which so much is still to come.
pub fn take_from_body(remaining: usize, arrived: usize) -> (n: usize)
    ensures
        n == if arrived < remaining {
            arrived
        } else {
            remaining
        },
{
    if arrived < remaining {
        arrived
    } else {
        remaining
    }
}

/// How much of a body is still to come after a read. A read that gives nothing ends the
/// connection, and a body that is not complete with it.
pub fn after_body_read(remaining: usize, read: usize) -> (r: Result<usize>)
    ensures
        if read == 0 && remaining > 0 {
            r matches Err(e) && e@ == ErrorView::BadResponse(
                "docker API response ended before content length"@,
            )
        } else {
            r matches Ok(n) && n == if read < remaining {
                (remaining - read) as usize
            } else {
                0
            }
        },
{
    if read == 0 && remaining > 0 {
        return Err(
            DockerPullError::BadResponse(
                "docker API response ended before content length".to_owned(),
            ),
        );
    }
    if read < remaining {
        Ok(remaining - read)
    } else {
        Ok(0)
    }
}

/// What follows from a read of the head of a response.
#[derive(Debug)]
pub enum HeadRead {
    /// The head ends before so many bytes.
    Done(usize),
    /// More has to be read.
    More,
    /// The response cannot be used.
    Fail(DockerPullError),
}

/// Decides what follows from what was read of a response so far. `read` is how much the last read
/// gave; one that gives nothing ends the connection.
pub fn after_head_read(buffer: &[u8], read: usize) -> (r: HeadRead)
    ensures
        if read == 0 {
            r matches HeadRead::Fail(e) && e@ == ErrorView::BadResponse(
                "docker API response ended before headers"@,
            )
        } else {
            match find_bytes_view(buffer@, head_end()) {
                Some(at) => r matches HeadRead::Done(end) && end == at + 4 && end <= buffer@.len(),
                None => if buffer@.len() > MAX_RESPONSE_HEAD_BYTES {
                    r matches HeadRead::Fail(e) && e@ == ErrorView::BadResponse(
                        "docker API response headers are too large"@,
                    )
                } else {
                    r is More
                },
            }
        },
{
    if read == 0 {
        return HeadRead::Fail(
            DockerPullError::BadResponse("docker API response ended before headers".to_owned()),
        );
    }
    match find_head(buffer) {
        HeadProgress::Complete(end) => HeadRead::Done(end),
        HeadProgress::Incomplete => HeadRead::More,
        HeadProgress::TooLarge => HeadRead::Fail(
            DockerPullError::BadResponse("docker API response headers are too large".to_owned()),
        ),
    }
}

/// Checks a read of a body that comes in chunks and is not complete. A read that gives nothing ends
/// the connection.
pub fn after_chunk_read(read: usize) -> (r: Result<()>)
    ensures
        if read == 0 {
            r matches Err(e) && e@ == ErrorView::BadResponse(
                "chunked docker API response is truncated"@,
            )
        } else {
            r is Ok
        },
{
    if read == 0 {
        Err(DockerPullError::BadResponse("chunked docker API response is truncated".to_owned()))
    } else {
        Ok(())
    }
}

/// A body that is sent in chunks is read as it was sent also where it is taken as it arrives; with
/// the last chunk it is complete.
pub proof fn law_a_sent_body_is_drained(chunks: Seq<Seq<u8>>)
    requires
        forall|i: int| 0 <= i < chunks.len() ==> 0 < (#[trigger] chunks[i]).len() <= usize::MAX,
    ensures
        drained(ChunkState::AtSize, sent_body(chunks)) == Ok::<Drained, ErrorView>(
            Drained { out: joined(chunks), state: ChunkState::Finished, rest: crlf() },
        ),
    decreases chunks.len(),
{
    let sent = sent_body(chunks);
    if chunks.len() == 0 {
        lemma_size_line(0);
        let line = bytes_of(hex_text(0));
        is_ascii_chars_encode_utf8(hex_text(0));
        assert(line =~= seq![0x30u8]);
        assert(sent =~= line + crlf() + crlf());
        lemma_line_end(line, crlf());
        assert(sent.take(line.len() as int) =~= line);
        assert(sent.skip(line.len() as int + 2) =~= crlf());
    } else {
        let size = chunks[0].len();
        let line = bytes_of(hex_text(size));
        let others = sent_body(chunks.skip(1));
        let behind = chunks[0] + crlf() + others;
        lemma_size_line(size);
        assert(sent =~= line + crlf() + behind);
        lemma_line_end(line, behind);
        assert(sent.take(line.len() as int) =~= line);
        assert(sent.skip(line.len() as int + 2) =~= behind);
        assert forall|i: int| 0 <= i < chunks.skip(1).len() implies 0 < (
        #[trigger] chunks.skip(1)[i]).len() <= usize::MAX by {
            assert(chunks.skip(1)[i] == chunks[i + 1]);
        }
        law_a_sent_body_is_drained(chunks.skip(1));
        assert(behind.take(size as int) =~= chunks[0]);
        assert(behind.skip(size as int) =~= crlf() + others);
        assert((crlf() + others).take(2) =~= crlf());
        assert((crlf() + others).skip(2) =~= others);
        assert(drained(ChunkState::AtEnd, crlf() + others) == drained(ChunkState::AtSize, others));
        assert(drained(ChunkState::InData(size as usize), behind) == Ok::<Drained, ErrorView>(
            Drained {
                out: chunks[0] + joined(chunks.skip(1)),
                state: ChunkState::Finished,
                rest: crlf(),
            },
        ));
    }
}

/// What follows a semicolon in the line of a chunk does not change its size.
pub proof fn law_a_chunk_may_be_extended(n: nat, extension: Seq<char>)
    requires
        n <= usize::MAX,
    ensures
        chunk_size_view(bytes_of(hex_text(n) + ";"@ + extension)) == Ok::<nat, ErrorView>(n),
{
    let s = hex_text(n);
    let line = s + ";"@ + extension;
    reveal_strlit(";");
    lemma_hex_text(n);
    encode_utf8_valid_utf8(line);
    encode_utf8_decode_utf8(line);
    assert(!s.contains(';'));
    text::lemma_split_once_at(s, ';', extension);
    assert(line =~= s + seq![';'] + extension);
    lemma_plain_size(s);
    assert(!(s[0] == '+'));
}

/// A request starts with its line and ends its head with an empty one. Its body has the length
/// that is told, and comes in chunks where none is told.
pub proof fn law_a_request_says_how_long_it_is(
    method: Seq<char>,
    path: Seq<char>,
    agent: Seq<char>,
    kind: Seq<char>,
    n: u64,
)
    ensures
        ({
            let start = method + " "@ + path + " HTTP/1.1\r\nHost: docker\r\nUser-Agent: "@ + agent;
            &&& request_head_view(method, path, agent, None, None) == start
                + "\r\nConnection: close\r\nTransfer-Encoding: chunked\r\n\r\n"@
            &&& request_head_view(method, path, agent, None, Some(n)) == start
                + "\r\nConnection: close\r\nContent-Length: "@ + text::decimal_view(n as nat)
                + "\r\n\r\n"@
            &&& request_head_view(method, path, agent, Some(kind), None) == start
                + "\r\nConnection: close\r\nContent-Type: "@ + kind
                + "\r\nTransfer-Encoding: chunked\r\n\r\n"@
            &&& request_head_view(method, path, agent, Some(kind), Some(n)) == start
                + "\r\nConnection: close\r\nContent-Type: "@ + kind + "\r\nContent-Length: "@
                + text::decimal_view(n as nat) + "\r\n\r\n"@
        }),
{
    reveal_strlit("\r\nConnection: close\r\nTransfer-Encoding: chunked\r\n\r\n");
    reveal_strlit("\r\nConnection: close\r\nContent-Length: ");
    reveal_strlit("\r\nConnection: close\r\nContent-Type: ");
    reveal_strlit("\r\nTransfer-Encoding: chunked\r\n\r\n");
    reveal_strlit("\r\nContent-Length: ");
    reveal_strlit("\r\n\r\n");
    reveal_strlit("\r\n");
    reveal_strlit("\r\nConnection: close\r\n");
    reveal_strlit("Transfer-Encoding: chunked\r\n");
    reveal_strlit("Content-Length: ");
    reveal_strlit("Content-Type: ");
    let start = method + " "@ + path + " HTTP/1.1\r\nHost: docker\r\nUser-Agent: "@ + agent;
    let close = "\r\nConnection: close\r\n"@;
    let digits = text::decimal_view(n as nat);
    let end = "\r\n"@;
    let chunked = "Transfer-Encoding: chunked\r\n"@;
    let length = "Content-Length: "@;
    let typed = "Content-Type: "@;
    assert(close + chunked + end
        =~= "\r\nConnection: close\r\nTransfer-Encoding: chunked\r\n\r\n"@);
    assert(close + length =~= "\r\nConnection: close\r\nContent-Length: "@);
    assert(close + typed =~= "\r\nConnection: close\r\nContent-Type: "@);
    assert(end + chunked + end =~= "\r\nTransfer-Encoding: chunked\r\n\r\n"@);
    assert(end + length =~= "\r\nContent-Length: "@);
    assert(end + end =~= "\r\n\r\n"@);
    assert(start + close + Seq::<char>::empty() + chunked + end =~= start + (close + chunked
        + end));
    assert(start + close + Seq::<char>::empty() + (length + digits + end) + end =~= start + (close
        + length) + digits + (end + end));
    assert(start + close + (typed + kind + end) + chunked + end =~= start + (close + typed) + kind
        + (end + chunked + end));
    assert(start + close + (typed + kind + end) + (length + digits + end) + end =~= start + (close
        + typed) + kind + (end + length) + digits + (end + end));
}

} // verus!
