//! What the docker daemon is asked, and what its answers mean.
use vstd::prelude::*;

use crate::bytes;
use crate::error::{concat2, concat3, invalid_input, DockerPullError, ErrorView, Result};
use crate::json::{self, Json, JsonView};
use crate::reference::{ImageReference, ReferenceTarget, TargetView};
use crate::registry::types::{is_success_code, Status};
use crate::text::{self, str_texts};

verus! {

/// What is known of an image of the daemon.
#[derive(Debug)]
pub struct ImageSummary {
    pub created: Option<i64>,
    pub id: String,
    pub repo_tags: Vec<String>,
    pub size: Option<u64>,
}

/// Whether a byte is written as an escape in a segment of a path, or in the value of a query.
pub open spec fn is_escaped(b: u8, query: bool) -> bool {
    ||| b < 0x20
    ||| b >= 0x7f
    ||| b == 0x20 || b == 0x22 || b == 0x23 || b == 0x25 || b == 0x2f || b == 0x3a
    ||| b == 0x3c || b == 0x3e || b == 0x3f || b == 0x40 || b == 0x5b || b == 0x5c
    ||| b == 0x5d || b == 0x5e || b == 0x60 || b == 0x7b || b == 0x7c || b == 0x7d
    ||| query && (b == 0x26 || b == 0x3d || b == 0x2b)
}

/// The upper-case hexadecimal digit of a number below 16.
pub open spec fn upper_hex_digit(n: int) -> char {
    if n < 10 {
        ('0' as int + n) as char
    } else {
        ('A' as int + (n - 10)) as char
    }
}

/// How a byte is written.
pub open spec fn encoded_byte(b: u8, query: bool) -> Seq<char> {
    if is_escaped(b, query) {
        seq!['%', upper_hex_digit(b as int / 16), upper_hex_digit(b as int % 16)]
    } else {
        seq![b as char]
    }
}

/// How bytes are written.
pub open spec fn percent_encoded(bytes: Seq<u8>, query: bool) -> Seq<char>
    decreases bytes.len(),
{
    if bytes.len() == 0 {
        seq![]
    } else {
        percent_encoded(bytes.drop_last(), query) + encoded_byte(bytes.last(), query)
    }
}

/// The upper-case hexadecimal digit of a number below 16.
fn hex_upper(n: u8) -> (c: char)
    requires
        n < 16,
    ensures
        c == upper_hex_digit(n as int),
{
    if n < 10 {
        (0x30 + n) as char
    } else {
        (0x41 + (n - 10)) as char
    }
}

/// Writes a text with escapes for the bytes that have a meaning of their own.
fn percent_encode(value: &str, query: bool) -> (s: String)
    ensures
        s@ == percent_encoded(bytes_of(value@), query),
{
    let bytes = value.as_bytes();
    let mut s = "".to_owned();
    proof {
        reveal_strlit("");
    }
    assert(s@ =~= percent_encoded(bytes@.take(0), query));
    let mut i: usize = 0;
    while i < bytes.len()
        invariant
            i <= bytes@.len(),
            s@ == percent_encoded(bytes@.take(i as int), query),
        decreases bytes@.len() - i,
    {
        let b = bytes[i];
        assert(bytes@.take(i + 1).drop_last() =~= bytes@.take(i as int));
        if b < 0x20 || b >= 0x7f || b == 0x20 || b == 0x22 || b == 0x23 || b == 0x25 || b == 0x2f
            || b == 0x3a || b == 0x3c || b == 0x3e || b == 0x3f || b == 0x40 || b == 0x5b || b
            == 0x5c || b == 0x5d || b == 0x5e || b == 0x60 || b == 0x7b || b == 0x7c || b == 0x7d
            || (query && (b == 0x26 || b == 0x3d || b == 0x2b)) {
            let ghost before = s@;
            s.push('%');
            s.push(hex_upper(b / 16));
            s.push(hex_upper(b % 16));
            assert(s@ =~= before + encoded_byte(b, query));
        } else {
            let ghost before = s@;
            s.push(b as char);
            assert(s@ =~= before + encoded_byte(b, query));
        }
        i += 1;
    }
    assert(bytes@.take(i as int) =~= bytes@);
    s
}

/// Writes a text as one segment of a path.
pub fn encode_path_segment(value: &str) -> (s: String)
    ensures
        s@ == percent_encoded(bytes_of(value@), false),
{
    percent_encode(value, false)
}

/// Writes a text as the value of a query.
pub fn encode_query_value(value: &str) -> (s: String)
    ensures
        s@ == percent_encoded(bytes_of(value@), true),
{
    percent_encode(value, true)
}

/// An encoded text is one segment of a path: it holds no slash, and nothing that starts a query or
/// a fragment. An encoded value of a query does not end it either.
pub proof fn law_encoded_text_stays_in_its_place(bytes: Seq<u8>, query: bool)
    ensures
        forall|i: int|
            0 <= i < percent_encoded(bytes, query).len() ==> {
                let c = #[trigger] percent_encoded(bytes, query)[i];
                c != '/' && c != '?' && c != '#' && (query ==> c != '&' && c != '=' && c != '+')
            },
    decreases bytes.len(),
{
    if bytes.len() > 0 {
        law_encoded_text_stays_in_its_place(bytes.drop_last(), query);
        let head = percent_encoded(bytes.drop_last(), query);
        let all = percent_encoded(bytes, query);
        assert forall|i: int| 0 <= i < all.len() implies {
            let c = #[trigger] all[i];
            c != '/' && c != '?' && c != '#' && (query ==> c != '&' && c != '=' && c != '+')
        } by {
            if i < head.len() {
                assert(all[i] == head[i]);
            } else {
                let k = i - head.len();
                assert(all[i] == encoded_byte(bytes.last(), query)[k]);
            }
        }
    }
}

/// Different bytes are written differently.
pub proof fn law_encoding_loses_nothing(a: Seq<u8>, b: Seq<u8>, query: bool)
    requires
        percent_encoded(a, query) == percent_encoded(b, query),
    ensures
        a == b,
    decreases a.len(),
{
    if a.len() == 0 {
        if b.len() > 0 {
            assert(percent_encoded(b, query).len() > 0);
        }
        assert(a =~= b);
    } else if b.len() == 0 {
        assert(percent_encoded(a, query).len() > 0);
    } else {
        let pa = percent_encoded(a.drop_last(), query);
        let pb = percent_encoded(b.drop_last(), query);
        let ea = encoded_byte(a.last(), query);
        let eb = encoded_byte(b.last(), query);
        let all = percent_encoded(a, query);
        assert(all == pa + ea);
        assert(all == pb + eb);
        lemma_escape_lengths(a.drop_last(), query);
        lemma_escape_lengths(b.drop_last(), query);
        lemma_last_byte(pa, a.last(), pb, b.last(), query);
        assert(pa =~= all.take(all.len() - ea.len()));
        assert(pb =~= all.take(all.len() - eb.len()));
        law_encoding_loses_nothing(a.drop_last(), b.drop_last(), query);
        assert(a =~= a.drop_last().push(a.last()));
        assert(b =~= b.drop_last().push(b.last()));
    }
}

/// An escape sign in encoded text has two characters behind it.
proof fn lemma_escape_lengths(bytes: Seq<u8>, query: bool)
    ensures
        forall|i: int|
            0 <= i < percent_encoded(bytes, query).len() && #[trigger] percent_encoded(
                bytes,
                query,
            )[i] == '%' ==> i + 2 < percent_encoded(bytes, query).len(),
    decreases bytes.len(),
{
    if bytes.len() > 0 {
        lemma_escape_lengths(bytes.drop_last(), query);
        let head = percent_encoded(bytes.drop_last(), query);
        let e = encoded_byte(bytes.last(), query);
        let all = percent_encoded(bytes, query);
        assert forall|i: int| 0 <= i < all.len() && #[trigger] all[i] == '%' implies i + 2
            < all.len() by {
            if i < head.len() {
                assert(head[i] == '%');
            } else {
                assert(e[i - head.len()] == '%');
            }
        }
    }
}

/// The last byte can be told from the end of encoded text.
proof fn lemma_last_byte(pa: Seq<char>, a: u8, pb: Seq<char>, b: u8, query: bool)
    requires
        pa + encoded_byte(a, query) == pb + encoded_byte(b, query),
        forall|i: int| 0 <= i < pa.len() && #[trigger] pa[i] == '%' ==> i + 2 < pa.len(),
        forall|i: int| 0 <= i < pb.len() && #[trigger] pb[i] == '%' ==> i + 2 < pb.len(),
    ensures
        a == b,
{
    let all = pa + encoded_byte(a, query);
    let ea = encoded_byte(a, query);
    let eb = encoded_byte(b, query);
    let n = all.len() as int;
    if is_escaped(a, query) && is_escaped(b, query) {
        assert(all[n - 1] == ea[2] && all[n - 1] == eb[2]);
        assert(all[n - 2] == ea[1] && all[n - 2] == eb[1]);
        assert(a as int / 16 == b as int / 16);
        assert(a as int % 16 == b as int % 16);
    } else if is_escaped(a, query) {
        assert(all[n - 3] == '%');
        assert(pb[n - 3] == '%');
        assert(pb.len() == n - 1);
    } else if is_escaped(b, query) {
        assert(all[n - 3] == eb[0]);
        assert(pa[n - 3] == '%');
        assert(pa.len() == n - 1);
    } else {
        assert(all[n - 1] == ea[0] && all[n - 1] == eb[0]);
    }
}

/// The request that describes an image.
pub fn inspect_path(image: &str) -> (path: String)
    ensures
        path@ == "/images/"@ + percent_encoded(bytes_of(image@), false) + "/json"@,
{
    concat3("/images/", encode_path_segment(image).as_str(), "/json")
}

/// The request that saves an image.
pub fn save_path(image: &str) -> (path: String)
    ensures
        path@ == "/images/"@ + percent_encoded(bytes_of(image@), false) + "/get"@,
{
    concat3("/images/", encode_path_segment(image).as_str(), "/get")
}

/// The request that removes the tag of an image.
pub fn remove_path(reference: &str) -> (path: String)
    ensures
        path@ == "/images/"@ + percent_encoded(bytes_of(reference@), false)
            + "?force=1&noprune=1"@,
{
    concat3("/images/", encode_path_segment(reference).as_str(), "?force=1&noprune=1")
}

/// The request that lists every image.
pub const LIST_PATH: &'static str = "/images/json?all=1";

/// The request that loads an archive.
pub const LOAD_PATH: &'static str = "/images/load?quiet=1";

/// The bytes of a text.
pub open spec fn bytes_of(s: Seq<char>) -> Seq<u8> {
    vstd::utf8::encode_utf8(s)
}

/// The repository and the tag of a reference that has both.
pub open spec fn tagged_parts(reference: Seq<char>) -> std::result::Result<
    (Seq<char>, Seq<char>),
    ErrorView,
> {
    if text::find_char(reference, '@') is Some {
        Err(
            ErrorView::InvalidInput(
                "image reference `"@ + reference + "` is not a tagged reference"@,
            ),
        )
    } else {
        match text::rfind_char(reference, ':') {
            None => Err(
                ErrorView::InvalidInput("image reference `"@ + reference + "` is missing a tag"@),
            ),
            Some(colon) => match text::rfind_char(reference, '/') {
                Some(slash) if colon < slash => Err(
                    ErrorView::InvalidInput(
                        "image reference `"@ + reference + "` is missing a tag"@,
                    ),
                ),
                _ => Ok((reference.take(colon), reference.skip(colon + 1))),
            },
        }
    }
}

/// Splits a reference into its repository and its tag.
pub fn split_tagged_reference(reference: &str) -> (r: Result<(&str, &str)>)
    ensures
        tagged_parts(reference@) == match r {
            Ok(parts) => Ok((parts.0@, parts.1@)),
            Err(e) => Err(e@),
        },
{
    if text::has_char(reference, '@') {
        proof {
            text::lemma_find_char(reference@, '@');
        }
        return Err(invalid_input("image reference `", reference, "` is not a tagged reference"));
    }
    proof {
        text::lemma_find_char(reference@, '@');
        text::lemma_rfind_char(reference@, ':');
        text::lemma_rfind_char(reference@, '/');
    }
    let slash = text::rfind(reference, '/');
    match text::rfind(reference, ':') {
        None => Err(invalid_input("image reference `", reference, "` is missing a tag")),
        Some(colon) => {
            if let Some(at) = slash {
                if colon < at {
                    return Err(
                        invalid_input("image reference `", reference, "` is missing a tag"),
                    );
                }
            }
            let n = reference.unicode_len();
            assert(reference@.subrange(0, colon as int) =~= reference@.take(colon as int));
            assert(reference@.subrange(colon + 1, n as int) =~= reference@.skip(colon + 1));
            Ok((reference.substring_char(0, colon), reference.substring_char(colon + 1, n)))
        },
    }
}

/// The request that pulls an image.
pub fn create_path(reference: &str) -> (r: Result<String>)
    ensures
        match tagged_parts(reference@) {
            Ok((repository, tag)) => r matches Ok(path) && path@ == "/images/create?fromImage="@
                + percent_encoded(bytes_of(repository), true) + "&tag="@ + percent_encoded(
                bytes_of(tag),
                true,
            ),
            Err(error) => r matches Err(e) && e@ == error,
        },
{
    match split_tagged_reference(reference) {
        Err(e) => Err(e),
        Ok((repository, tag)) => {
            let mut path = concat3(
                "/images/create?fromImage=",
                encode_query_value(repository).as_str(),
                "&tag=",
            );
            path.append(encode_query_value(tag).as_str());
            Ok(path)
        },
    }
}

/// The request that gives an image another tag.
pub fn tag_path(source: &str, target: &str) -> (r: Result<String>)
    ensures
        match tagged_parts(target@) {
            Ok((repository, tag)) => r matches Ok(path) && path@ == "/images/"@ + percent_encoded(
                bytes_of(source@),
                false,
            ) + "/tag?repo="@ + percent_encoded(bytes_of(repository), true) + "&tag="@
                + percent_encoded(bytes_of(tag), true),
            Err(error) => r matches Err(e) && e@ == error,
        },
{
    match split_tagged_reference(target) {
        Err(e) => Err(e),
        Ok((repository, tag)) => {
            let mut path = concat3(
                "/images/",
                encode_path_segment(source).as_str(),
                "/tag?repo=",
            );
            path.append(encode_query_value(repository).as_str());
            path.append("&tag=");
            path.append(encode_query_value(tag).as_str());
            Ok(path)
        },
    }
}

/// The name by which the daemon is asked for an image: its display name where it has a tag, and
/// the digest of its configuration otherwise.
pub fn daemon_inspect_target(reference: &ImageReference, config_digest: &str) -> (target: String)
    ensures
        target@ == match reference@.target {
            TargetView::Tag(_) => reference@.display(),
            TargetView::Digest(_) => config_digest@,
        },
{
    match reference.target {
        ReferenceTarget::Tag(_) => reference.display_name(),
        ReferenceTarget::Digest(_) => config_digest.to_owned(),
    }
}

/// The identifier of an image without the name of its algorithm.
pub open spec fn image_id_view(image_id: Seq<char>) -> Seq<char> {
    text::trim_view(
        match text::strip_prefix_view(image_id, "sha256:"@) {
            Some(rest) => rest,
            None => image_id,
        },
    )
}

/// The identifier of an image without the name of its algorithm.
pub fn normalize_image_id(image_id: &str) -> (r: &str)
    ensures
        r@ == image_id_view(image_id@),
{
    match text::strip_prefix(image_id, "sha256:") {
        Some(rest) => text::trim(rest),
        None => text::trim(image_id),
    }
}

/// Whether the daemon's image is the one with the given configuration.
pub fn is_same_image(image_id: Option<&str>, config_digest: &str) -> (r: bool)
    ensures
        r == match image_id {
            Some(id) => image_id_view(id@) == image_id_view(config_digest@),
            None => false,
        },
{
    match image_id {
        Some(id) => text::same(normalize_image_id(id), normalize_image_id(config_digest)),
        None => false,
    }
}

/// What a failed request came to.
pub open spec fn failure_view(status: Seq<char>, body: Seq<u8>, action: Seq<char>) -> ErrorView {
    let said = text::trim_view(bytes::lossy_text(body));
    ErrorView::CommandFailed(
        action + " failed: "@ + if said.len() == 0 {
            "status "@ + status
        } else {
            "status "@ + status + ": "@ + said
        },
    )
}

/// Says what a failed request came to.
pub fn build_failure_error(status: &Status, body: &[u8], action: &str) -> (e: DockerPullError)
    ensures
        e@ == failure_view(status.text@, body@, action@),
{
    let lossy = bytes::read_lossy(body);
    let said = text::trim(lossy.as_str());
    let mut detail = concat2("status ", status.text.as_str());
    if said.unicode_len() != 0 {
        detail.append(": ");
        detail.append(said);
    }
    DockerPullError::CommandFailed(concat3(action, " failed: ", detail.as_str()))
}

/// Checks that a request succeeded.
pub fn ensure_success_status(status: &Status, body: &[u8], action: &str) -> (r: Result<()>)
    ensures
        match r {
            Ok(()) => is_success_code(status.code),
            Err(e) => !is_success_code(status.code) && e@ == failure_view(
                status.text@,
                body@,
                action@,
            ),
        },
{
    if status.is_success() {
        Ok(())
    } else {
        Err(build_failure_error(status, body, action))
    }
}

/// Decides what the answer to a request for a description means: there is no such image, or here
/// is its description.
pub fn inspect_answer(status: &Status, body: Vec<u8>) -> (r: Result<Option<Vec<u8>>>)
    ensures
        if status.code == 404 {
            r matches Ok(None)
        } else if is_success_code(status.code) {
            r == Ok::<Option<Vec<u8>>, DockerPullError>(Some(body))
        } else {
            r matches Err(e) && e@ == failure_view(
                status.text@,
                body@,
                "docker image inspect"@,
            )
        },
{
    if status.code == 404 {
        return Ok(None);
    }
    match ensure_success_status(status, body.as_slice(), "docker image inspect") {
        Ok(()) => Ok(Some(body)),
        Err(e) => Err(e),
    }
}

/// The failure that a line of a progress report tells of.
pub open spec fn reported_failure(value: JsonView) -> Option<Seq<char>> {
    match value.get_text("error"@) {
        Some(error) => Some(error),
        None => match value.get("errorDetail"@) {
            Some(detail) => detail.get_text("message"@),
            None => None,
        },
    }
}

/// Reads the failure that a line of a progress report tells of.
pub fn line_failure(value: &Json) -> (r: Option<&str>)
    ensures
        text::opt_view(r) == reported_failure(value@),
{
    match value.get_str("error") {
        Some(error) => Some(error),
        None => match value.get("errorDetail") {
            Some(detail) => detail.get_str("message"),
            None => None,
        },
    }
}

/// The first failure that the lines of a progress report tell of. Lines that are blank or no JSON
/// tell of none.
pub open spec fn stream_failure(lines: Seq<Seq<char>>) -> Option<Seq<char>>
    decreases lines.len(),
{
    if lines.len() == 0 {
        None
    } else {
        let line = text::trim_view(lines[0]);
        let here = if line.len() == 0 {
            None
        } else {
            match json::json_document(bytes_of(line)) {
                Ok(value) => reported_failure(value),
                Err(_) => None,
            }
        };
        match here {
            Some(error) => Some(error),
            None => stream_failure(lines.skip(1)),
        }
    }
}

/// Checks that a progress report tells of no failure.
pub fn ensure_json_stream_success(body: &str, action: &str) -> (r: Result<()>)
    ensures
        match stream_failure(text::lines_view(body@)) {
            None => r is Ok,
            Some(error) => r matches Err(e) && e@ == ErrorView::CommandFailed(
                action@ + " failed: "@ + error,
            ),
        },
{
    let lines = text::lines(body);
    let ghost all = str_texts(lines@);
    assert(all.skip(0) =~= all);
    let mut i: usize = 0;
    while i < lines.len()
        invariant
            i <= lines@.len(),
            all == str_texts(lines@),
            all == text::lines_view(body@),
            stream_failure(all) == stream_failure(all.skip(i as int)),
        decreases lines@.len() - i,
    {
        assert(all.skip(i as int).skip(1) =~= all.skip(i + 1));
        assert(all.skip(i as int)[0] == lines@[i as int]@);
        let line = text::trim(lines[i]);
        if line.unicode_len() != 0 {
            if let Ok(value) = json::parse_json(line.as_bytes()) {
                if let Some(error) = line_failure(&value) {
                    return Err(DockerPullError::CommandFailed(concat3(action, " failed: ", error)));
                }
            }
        }
        i += 1;
    }
    Ok(())
}

/// The number that an upper-case hexadecimal digit stands for.
pub open spec fn upper_hex_value(c: char) -> int {
    if '0' <= c <= '9' {
        c as int - '0' as int
    } else {
        c as int - 'A' as int + 10
    }
}

/// Whether a byte is a letter, a digit or a mark that a segment of a path may hold.
pub open spec fn stands_for_itself(b: u8, query: bool) -> bool {
    ||| 'a' as int <= b as int <= 'z' as int
    ||| 'A' as int <= b as int <= 'Z' as int
    ||| '0' as int <= b as int <= '9' as int
    ||| "!$'()*,-.;_~"@.contains(b as char)
    ||| !query && "&+="@.contains(b as char)
}

/// Letters, digits and the marks that a path may hold stand for themselves. In the value of a
/// query `&`, `+` and `=` are no such marks. Every other byte is a percent sign and the two
/// hexadecimal digits of its number.
pub proof fn law_a_byte_is_written_plainly_or_as_its_number(b: u8, query: bool)
    ensures
        stands_for_itself(b, query) ==> encoded_byte(b, query) == seq![b as char],
        !stands_for_itself(b, query) ==> {
            let e = encoded_byte(b, query);
            &&& e.len() == 3
            &&& e[0] == '%'
            &&& upper_hex_value(e[1]) * 16 + upper_hex_value(e[2]) == b
        },
{
    reveal_strlit("!$'()*,-.;_~");
    reveal_strlit("&+=");
    let plain = "!$'()*,-.;_~"@;
    let marks = "&+="@;
    assert(plain[0] == '!' && plain[1] == '$' && plain[2] == '\'' && plain[3] == '(' && plain[4]
        == ')' && plain[5] == '*' && plain[6] == ',' && plain[7] == '-' && plain[8] == '.'
        && plain[9] == ';' && plain[10] == '_' && plain[11] == '~');
    assert(marks[0] == '&' && marks[1] == '+' && marks[2] == '=');
    assert(0 <= b as int / 16 < 16 && 0 <= b as int % 16 < 16);
}

/// Bytes are written one after the other.
pub proof fn law_bytes_are_written_in_order(a: Seq<u8>, b: Seq<u8>, query: bool)
    ensures
        percent_encoded(a + b, query) == percent_encoded(a, query) + percent_encoded(b, query),
        forall|x: u8| #[trigger] percent_encoded(seq![x], query) == encoded_byte(x, query),
    decreases b.len(),
{
    if b.len() == 0 {
        assert(a + b =~= a);
    } else {
        law_bytes_are_written_in_order(a, b.drop_last(), query);
        assert((a + b).drop_last() =~= a + b.drop_last());
        assert((a + b).last() == b.last());
    }
    assert forall|x: u8| #[trigger] percent_encoded(seq![x], query) == encoded_byte(x, query) by {
        assert(seq![x].drop_last() =~= Seq::<u8>::empty());
        assert(percent_encoded(Seq::<u8>::empty(), query) == Seq::<char>::empty());
        assert(seq![x].last() == x);
    }
}

/// A repository, a colon and a tag are a tagged reference of the two, also where the registry has
/// a port.
pub proof fn law_a_tagged_reference_has_its_parts(repository: Seq<char>, tag: Seq<char>)
    requires
        !repository.contains('@'),
        !tag.contains('@'),
        !tag.contains(':'),
        !tag.contains('/'),
    ensures
        tagged_parts(repository + ":"@ + tag) == Ok::<(Seq<char>, Seq<char>), ErrorView>(
            (repository, tag),
        ),
{
    reveal_strlit(":");
    let s = repository + ":"@ + tag;
    let n = repository.len() as int;
    text::lemma_find_char(s, '@');
    text::lemma_rfind_char(s, ':');
    text::lemma_rfind_char(s, '/');
    assert(s[n] == ':');
    assert forall|j: int| 0 <= j < s.len() implies s[j] != '@' by {
        if j < n {
            assert(repository[j] == s[j]);
        } else if j > n {
            assert(tag[j - n - 1] == s[j]);
        }
    }
    assert forall|j: int| n < j < s.len() implies s[j] != ':' && s[j] != '/' by {
        assert(tag[j - n - 1] == s[j]);
    }
    assert(s.take(n) =~= repository);
    assert(s.skip(n + 1) =~= tag);
}

/// A reference without a colon behind its last slash, or with a digest, is no tagged one.
pub proof fn law_an_untagged_reference_has_no_parts(reference: Seq<char>)
    ensures
        reference.contains('@') ==> tagged_parts(reference) is Err,
        !reference.contains(':') ==> tagged_parts(reference) is Err,
        forall|i: int|
            0 <= i < reference.len() && reference[i] == '/' && !reference.skip(i).contains(':')
                ==> #[trigger] tagged_parts(reference.take(i) + reference.skip(i)) is Err,
{
    text::lemma_find_char(reference, '@');
    text::lemma_rfind_char(reference, ':');
    text::lemma_rfind_char(reference, '/');
    if !reference.contains('@') && reference.contains(':') {
        assert forall|i: int|
            0 <= i < reference.len() && reference[i] == '/' && !reference.skip(i).contains(
                ':',
            ) implies #[trigger] tagged_parts(reference.take(i) + reference.skip(i)) is Err by {
            assert(reference.take(i) + reference.skip(i) =~= reference);
            let colon = text::rfind_char(reference, ':')->0;
            if colon >= i {
                assert(reference.skip(i)[colon - i] == ':');
            }
        }
    } else {
        assert forall|i: int| 0 <= i < reference.len() implies reference.take(i) + reference.skip(i)
            == reference by {
            assert(reference.take(i) + reference.skip(i) =~= reference);
        }
    }
}

/// The identifier of an image is the same with and without the name of its algorithm.
pub proof fn law_an_image_is_known_by_its_number(value: Seq<char>)
    requires
        value.len() > 0,
        crate::digest::all_lower_hex(value),
    ensures
        image_id_view("sha256:"@ + value) == value,
        image_id_view(value) == value,
{
    reveal_strlit("sha256:");
    let p = "sha256:"@;
    let s = p + value;
    assert(p[0] == 's');
    assert(value[0] != 's');
    assert(s.skip(p.len() as int) =~= value);
    assert(crate::digest::is_lower_hex(value[0]) && crate::digest::is_lower_hex(
        value[value.len() - 1],
    ));
    text::lemma_trim_nothing(value);
    assert(p.is_prefix_of(s)) by {
        assert(s.subrange(0, p.len() as int) =~= p);
    }
}

/// A failed request is told with what was done, the status and what the daemon said.
pub proof fn law_a_failure_tells_what_was_said(
    status: Seq<char>,
    body: Seq<u8>,
    action: Seq<char>,
)
    ensures
        failure_view(status, body, action) matches ErrorView::CommandFailed(message) && {
            let said = text::trim_view(bytes::lossy_text(body));
            let start = action + " failed: status "@ + status;
            &&& said.len() == 0 ==> message == start
            &&& said.len() > 0 ==> message == start + ": "@ + said
        },
{
    reveal_strlit(" failed: status ");
    reveal_strlit(" failed: ");
    reveal_strlit("status ");
    let said = text::trim_view(bytes::lossy_text(body));
    assert(" failed: "@ + "status "@ =~= " failed: status "@);
    assert(action + " failed: "@ + ("status "@ + status) =~= action + " failed: status "@
        + status);
    assert(action + " failed: "@ + ("status "@ + status + ": "@ + said) =~= action
        + " failed: status "@ + status + ": "@ + said);
}

/// A report fails where one of its lines is an object with an error, be it as text or with a
/// message in its details; the first such line tells the failure. Other lines tell of none.
pub proof fn law_the_first_failure_is_reported(
    before: Seq<Seq<char>>,
    line: Seq<char>,
    after: Seq<Seq<char>>,
)
    requires
        stream_failure(before) is None,
    ensures
        text::trim_view(line).len() == 0 || json::json_document(bytes_of(text::trim_view(line))) is Err
            ==> stream_failure(before + seq![line] + after) == stream_failure(after),
        text::trim_view(line).len() > 0 ==> (json::json_document(
            bytes_of(text::trim_view(line)),
        ) matches Ok(value) ==> {
            let told = stream_failure(before + seq![line] + after);
            let details = value.get("errorDetail"@);
            &&& value.get("error"@) matches Some(JsonView::Text(t)) ==> told == Some(t)
            &&& value.get("error"@) is None ==> (details matches Some(d) ==> (d.get(
                "message"@,
            ) matches Some(JsonView::Text(t)) ==> told == Some(t)))
            &&& value.get("error"@) is None && details is None ==> told == stream_failure(after)
        }),
    decreases before.len(),
{
    let all = before + seq![line] + after;
    if before.len() == 0 {
        assert(all.skip(1) =~= after);
        assert(all[0] == line);
    } else {
        law_the_first_failure_is_reported(before.skip(1), line, after);
        assert(all.skip(1) =~= before.skip(1) + seq![line] + after);
        assert(all[0] == before[0]);
    }
}

} // verus!
