//! Responses of the registry.
use vstd::prelude::*;

use crate::docker::api::bytes_of;
use crate::error::{concat2, concat3};
use crate::text::{self, opt_string};

verus! {

/// What a response carries.
#[derive(Debug)]
pub enum RegistryBody {
    Empty,
    Text(Vec<u8>),
    File(String),
}

/// What a response carries, as text.
pub enum BodyView {
    Empty,
    Text(Seq<u8>),
    File(Seq<char>),
}

impl View for RegistryBody {
    type V = BodyView;

    open spec fn view(&self) -> BodyView {
        match self {
            RegistryBody::Empty => BodyView::Empty,
            RegistryBody::Text(bytes) => BodyView::Text(bytes@),
            RegistryBody::File(path) => BodyView::File(path@),
        }
    }
}

/// The first and the last byte of a part of a content, and the size of the whole.
#[derive(Debug, Clone, Copy, PartialEq, Eq, Structural)]
pub struct ResponseRange {
    pub start: u64,
    pub end: u64,
    pub total: u64,
}

/// A response.
#[derive(Debug)]
pub struct RegistryResponse {
    pub status: u16,
    pub reason: &'static str,
    pub content_type: String,
    pub body: RegistryBody,
    pub content_length: u64,
    pub digest: Option<String>,
    pub range: Option<ResponseRange>,
}

/// A response, as text.
pub struct ResponseView {
    pub status: u16,
    pub reason: Seq<char>,
    pub content_type: Seq<char>,
    pub body: BodyView,
    pub content_length: int,
    pub digest: Option<Seq<char>>,
    pub range: Option<ResponseRange>,
}

impl View for RegistryResponse {
    type V = ResponseView;

    open spec fn view(&self) -> ResponseView {
        ResponseView {
            status: self.status,
            reason: self.reason@,
            content_type: self.content_type@,
            body: self.body@,
            content_length: self.content_length as int,
            digest: opt_string(self.digest),
            range: self.range,
        }
    }
}

/// A response without a body.
pub open spec fn empty_response(status: u16, reason: Seq<char>) -> ResponseView {
    ResponseView {
        status,
        reason,
        content_type: "text/plain"@,
        body: BodyView::Empty,
        content_length: 0,
        digest: None,
        range: None,
    }
}

/// A response that carries a text.
pub open spec fn text_response(status: u16, reason: Seq<char>, message: Seq<char>) -> ResponseView {
    ResponseView {
        status,
        reason,
        content_type: "text/plain"@,
        body: BodyView::Text(bytes_of(message)),
        content_length: bytes_of(message).len() as int,
        digest: None,
        range: None,
    }
}

/// A response that carries a file, or only tells of it.
pub open spec fn file_response(
    content_type: Seq<char>,
    path: Seq<char>,
    size: u64,
    headers_only: bool,
    digest: Seq<char>,
) -> ResponseView {
    ResponseView {
        status: 200,
        reason: "OK"@,
        content_type,
        body: if headers_only {
            BodyView::Empty
        } else {
            BodyView::File(path)
        },
        content_length: size as int,
        digest: Some(digest),
        range: None,
    }
}

/// The range of bytes that a text asks for of a content of so many bytes: a first byte and a last
/// one, or a first byte and everything behind it. Other ranges are not supported, and a range has
/// to lie within the content.
pub open spec fn byte_range(value: Seq<char>, total: u64) -> Option<ResponseRange> {
    match text::strip_prefix_view(value, "bytes="@) {
        None => None,
        Some(range) => match text::split_once_view(range, '-') {
            None => None,
            Some((first, last)) => {
                let start = text::parse_unsigned_view(first, u64::MAX as nat);
                let end = if last.len() == 0 {
                    if total == 0 {
                        None
                    } else {
                        Some((total - 1) as nat)
                    }
                } else {
                    text::parse_unsigned_view(last, u64::MAX as nat)
                };
                match (start, end) {
                    (Some(s), Some(e)) => if s <= e && e < total {
                        Some(ResponseRange { start: s as u64, end: e as u64, total })
                    } else {
                        None
                    },
                    _ => None,
                }
            },
        },
    }
}

/// Reads a range of bytes of a content of so many bytes.
pub fn parse_byte_range(value: &str, total: u64) -> (r: Option<ResponseRange>)
    ensures
        r == byte_range(value@, total),
{
    let range = match text::strip_prefix(value, "bytes=") {
        None => {
            return None;
        },
        Some(range) => range,
    };
    let (first, last) = match text::split_once(range, '-') {
        None => {
            return None;
        },
        Some(parts) => parts,
    };
    let start = match text::parse_unsigned(first, u64::MAX) {
        None => {
            return None;
        },
        Some(start) => start,
    };
    let end: u64 = if last.unicode_len() == 0 {
        if total == 0 {
            return None;
        }
        total - 1
    } else {
        match text::parse_unsigned(last, u64::MAX) {
            None => {
                return None;
            },
            Some(end) => end,
        }
    };
    if start > end || end >= total {
        return None;
    }
    Some(ResponseRange { start, end, total })
}

/// A range lies within the content and holds at least one byte.
pub proof fn law_a_range_lies_within_the_content(value: Seq<char>, total: u64)
    ensures
        byte_range(value, total) matches Some(r) ==> r.start <= r.end < r.total && r.total == total,
{
}

/// The response for a part of what a response carries.
pub open spec fn ranged(response: ResponseView, range: Option<Seq<char>>) -> ResponseView {
    match range {
        None => response,
        Some(value) => match byte_range(value, response.content_length as u64) {
            None => empty_response(416, "Range Not Satisfiable"@),
            Some(r) => ResponseView {
                status: 206,
                reason: "Partial Content"@,
                content_type: response.content_type,
                body: response.body,
                content_length: r.end - r.start + 1,
                digest: response.digest,
                range: Some(r),
            },
        },
    }
}

/// A part of a content is never longer than the content, and its length is that of its range.
pub proof fn law_a_part_is_as_long_as_its_range(response: ResponseView, value: Seq<char>)
    requires
        0 <= response.content_length <= u64::MAX,
        ranged(response, Some(value)).status == 206,
        response.status != 206,
    ensures
        ({
            let part = ranged(response, Some(value));
            &&& part.range matches Some(r) && part.content_length == r.end - r.start + 1 && r.total
                == response.content_length
            &&& 1 <= part.content_length <= response.content_length
            &&& part.body == response.body
        }),
{
    law_a_range_lies_within_the_content(value, response.content_length as u64);
}

impl RegistryResponse {
    /// A response without a body.
    pub fn empty(status: u16, reason: &'static str) -> (r: RegistryResponse)
        ensures
            r@ == empty_response(status, reason@),
    {
        RegistryResponse {
            status,
            reason,
            content_type: "text/plain".to_owned(),
            body: RegistryBody::Empty,
            content_length: 0,
            digest: None,
            range: None,
        }
    }

    /// A response that carries a text.
    pub fn text(status: u16, reason: &'static str, message: &str) -> (r: RegistryResponse)
        ensures
            r@ == text_response(status, reason@, message@),
    {
        let bytes = vstd::slice::slice_to_vec(message.as_bytes());
        RegistryResponse {
            status,
            reason,
            content_type: "text/plain".to_owned(),
            content_length: bytes.len() as u64,
            body: RegistryBody::Text(bytes),
            digest: None,
            range: None,
        }
    }

    /// A response that carries a file, or only tells of it.
    pub fn file(
        content_type: &str,
        path: &str,
        size: u64,
        headers_only: bool,
        digest: &str,
    ) -> (r: RegistryResponse)
        ensures
            r@ == file_response(content_type@, path@, size, headers_only, digest@),
    {
        RegistryResponse {
            status: 200,
            reason: "OK",
            content_type: content_type.to_owned(),
            content_length: size,
            body: if headers_only {
                RegistryBody::Empty
            } else {
                RegistryBody::File(path.to_owned())
            },
            digest: Some(digest.to_owned()),
            range: None,
        }
    }

    /// The response for a part of what this response carries.
    pub fn with_range(self, range: Option<&str>) -> (r: RegistryResponse)
        ensures
            r@ == ranged(self@, text::opt_view(range)),
    {
        match range {
            None => self,
            Some(value) => match parse_byte_range(value, self.content_length) {
                None => RegistryResponse::empty(416, "Range Not Satisfiable"),
                Some(range) => RegistryResponse {
                    status: 206,
                    reason: "Partial Content",
                    content_type: self.content_type,
                    body: self.body,
                    content_length: range.end - range.start + 1,
                    digest: self.digest,
                    range: Some(range),
                },
            },
        }
    }
}

/// Whether a text can be the value of a header field: it has no line end.
pub open spec fn is_header_value(value: Seq<char>) -> bool {
    !value.contains('\r') && !value.contains('\n')
}

/// A text that can be the value of a header field.
pub fn safe_header_value(value: &str) -> (r: Option<&str>)
    ensures
        match r {
            Some(v) => is_header_value(value@) && v@ == value@,
            None => !is_header_value(value@),
        },
{
    if text::has_char(value, '\r') || text::has_char(value, '\n') {
        None
    } else {
        Some(value)
    }
}

/// The content type that is sent.
pub open spec fn sent_type(content_type: Seq<char>) -> Seq<char> {
    if is_header_value(content_type) {
        content_type
    } else {
        "application/octet-stream"@
    }
}

/// The head of a response as it is sent.
pub open spec fn head_view(response: ResponseView) -> Seq<char> {
    "HTTP/1.1 "@ + text::decimal_view(response.status as nat) + " "@ + response.reason
        + "\r\nContent-Type: "@ + sent_type(response.content_type) + "\r\nContent-Length: "@
        + text::decimal_view(response.content_length as nat) + "\r\nConnection: close\r\n"@
        + "Docker-Distribution-API-Version: registry/2.0\r\n"@ + (match response.digest {
        Some(digest) => "Docker-Content-Digest: "@ + digest + "\r\n"@,
        None => seq![],
    }) + (match response.range {
        Some(r) => "Content-Range: bytes "@ + text::decimal_view(r.start as nat) + "-"@
            + text::decimal_view(r.end as nat) + "/"@ + text::decimal_view(r.total as nat)
            + "\r\n"@,
        None => seq![],
    }) + "\r\n"@
}

/// Writes the head of a response. A content type with a line end in it is not sent.
pub fn response_head(response: &RegistryResponse) -> (s: String)
    ensures
        s@ == head_view(response@),
{
    let content_type = match safe_header_value(response.content_type.as_str()) {
        Some(value) => value,
        None => "application/octet-stream",
    };
    let mut s = concat3("HTTP/1.1 ", text::decimal(response.status as u64).as_str(), " ");
    s.append(response.reason);
    s.append("\r\nContent-Type: ");
    s.append(content_type);
    s.append("\r\nContent-Length: ");
    s.append(text::decimal(response.content_length).as_str());
    s.append("\r\nConnection: close\r\n");
    s.append("Docker-Distribution-API-Version: registry/2.0\r\n");
    if let Some(digest) = &response.digest {
        let line = concat3("Docker-Content-Digest: ", digest.as_str(), "\r\n");
        s.append(line.as_str());
    } else {
        assert(s@ + Seq::<char>::empty() =~= s@);
    }
    if let Some(range) = response.range {
        let mut line = concat2("Content-Range: bytes ", text::decimal(range.start).as_str());
        line.append("-");
        line.append(text::decimal(range.end).as_str());
        line.append("/");
        line.append(text::decimal(range.total).as_str());
        line.append("\r\n");
        s.append(line.as_str());
    } else {
        assert(s@ + Seq::<char>::empty() =~= s@);
    }
    s.append("\r\n");
    s
}

/// What follows the head of a response.
#[derive(Debug)]
pub enum BodyPlan {
    /// Nothing.
    Nothing,
    /// Bytes.
    Bytes(Vec<u8>),
    /// A file from its start to its end.
    WholeFile(String),
    /// So many bytes of a file from an offset on.
    PartOfFile { path: String, start: u64, len: u64 },
}

/// Decides what follows the head of a response.
pub fn body_plan(response: RegistryResponse) -> (plan: BodyPlan)
    ensures
        match (response@.body, response@.range) {
            (BodyView::Empty, _) => plan == BodyPlan::Nothing,
            (BodyView::Text(bytes), _) => plan matches BodyPlan::Bytes(b) && b@ == bytes,
            (BodyView::File(file), None) => plan matches BodyPlan::WholeFile(p) && p@ == file,
            (BodyView::File(file), Some(range)) => plan matches BodyPlan::PartOfFile {
                path,
                start,
                len,
            } && path@ == file && start == range.start && len == response.content_length,
        },
{
    match response.body {
        RegistryBody::Empty => BodyPlan::Nothing,
        RegistryBody::Text(bytes) => BodyPlan::Bytes(bytes),
        RegistryBody::File(path) => match response.range {
            Some(range) => BodyPlan::PartOfFile {
                path,
                start: range.start,
                len: response.content_length,
            },
            None => BodyPlan::WholeFile(path),
        },
    }
}

/// A range from one byte to another is read as these two bytes where it lies within the content,
/// and is refused where it does not.
pub proof fn law_a_range_is_read(first: u64, last: u64, total: u64)
    ensures
        byte_range(
            "bytes="@ + text::decimal_view(first as nat) + "-"@ + text::decimal_view(last as nat),
            total,
        ) == if first <= last && last < total {
            Some(ResponseRange { start: first, end: last, total })
        } else {
            None
        },
{
    let a = text::decimal_view(first as nat);
    let b = text::decimal_view(last as nat);
    let value = "bytes="@ + a + "-"@ + b;
    reveal_strlit("-");
    assert(value.skip("bytes="@.len() as int) =~= a + seq!['-'] + b);
    assert(value.take("bytes="@.len() as int) =~= "bytes="@);
    text::lemma_decimal(last as nat);
    text::lemma_decimal_lacks(first as nat, '-');
    text::lemma_split_once_at(a, '-', b);
    text::law_a_number_reads_back(first as nat, u64::MAX as nat);
    text::law_a_number_reads_back(last as nat, u64::MAX as nat);
}

/// A range without a last byte reaches to the end of the content, and is refused where it begins
/// behind it.
pub proof fn law_an_open_range_reaches_the_end(first: u64, total: u64)
    ensures
        byte_range("bytes="@ + text::decimal_view(first as nat) + "-"@, total) == if first < total {
            Some(ResponseRange { start: first, end: (total - 1) as u64, total })
        } else {
            None
        },
{
    let a = text::decimal_view(first as nat);
    let b = Seq::<char>::empty();
    let value = "bytes="@ + a + "-"@;
    reveal_strlit("-");
    assert(value.skip("bytes="@.len() as int) =~= a + seq!['-'] + b);
    assert(value.take("bytes="@.len() as int) =~= "bytes="@);
    text::lemma_decimal_lacks(first as nat, '-');
    text::lemma_split_once_at(a, '-', b);
    text::law_a_number_reads_back(first as nat, u64::MAX as nat);
}

/// A part of a file is sent as that part: its status, its bytes and its length are those of the
/// range, and the file and its digest are those of the whole.
pub proof fn law_a_part_is_answered_as_such(
    content_type: Seq<char>,
    path: Seq<char>,
    size: u64,
    headers_only: bool,
    digest: Seq<char>,
    first: u64,
    last: u64,
)
    requires
        first <= last < size,
    ensures
        ({
            let whole = file_response(content_type, path, size, headers_only, digest);
            let part = ranged(
                whole,
                Some(
                    "bytes="@ + text::decimal_view(first as nat) + "-"@ + text::decimal_view(
                        last as nat,
                    ),
                ),
            );
            &&& part.status == 206
            &&& part.content_length == last - first + 1
            &&& part.range == Some(ResponseRange { start: first, end: last, total: size })
            &&& part.body == whole.body
            &&& part.digest == Some(digest)
            &&& part.content_type == content_type
        }),
{
    law_a_range_is_read(first, last, size);
}

/// An answer that carries a text says how long it is, and one that carries nothing says so.
pub proof fn law_a_text_is_sent_with_its_length(
    status: u16,
    reason: Seq<char>,
    message: Seq<char>,
)
    ensures
        text_response(status, reason, message).status == status,
        text_response(status, reason, message).body == BodyView::Text(bytes_of(message)),
        text_response(status, reason, message).content_length == bytes_of(message).len(),
        empty_response(status, reason).status == status,
        empty_response(status, reason).body is Empty,
        empty_response(status, reason).content_length == 0,
        empty_response(status, reason).range is None,
        text_response(status, reason, message).range is None,
{
}

} // verus!
