//! A registry that serves one stored image to the docker daemon of the same machine.
use vstd::prelude::*;
use vstd::utf8::{decode_utf8, valid_utf8};

use crate::bytes::{self, find_bytes, find_bytes_view};
use crate::docker::chunked::head_end;
use crate::error::{concat2, concat3, invalid_input, DockerPullError, ErrorView, Result};
use crate::registry::types::Descriptor;
use crate::serve_registry::response::{
    empty_response, text_response, BodyView, RegistryBody, RegistryResponse, ResponseView,
};
use crate::serve_registry::server::{OCI_IMAGE_MANIFEST_MEDIA_TYPE, OCTET_STREAM_MEDIA_TYPE};
use crate::text;

verus! {

/// How long the head of a request may be.
pub const MAX_REQUEST_HEAD_BYTES: usize = 65536;

/// The repository under which an image with a manifest is served.
pub fn synthetic_repository(digest: &str) -> (r: Result<String>)
    ensures
        match text::split_once_view(digest@, ':') {
            Some((algorithm, value)) => r matches Ok(s) && s@ == "pocker-cache/"@ + algorithm
                + "-"@ + value,
            None => r matches Err(e) && e@ == ErrorView::InvalidInput(
                "invalid digest `"@ + digest@ + "`"@,
            ),
        },
{
    match text::split_once(digest, ':') {
        None => Err(invalid_input("invalid digest `", digest, "`")),
        Some((algorithm, value)) => {
            let mut s = concat3("pocker-cache/", algorithm, "-");
            s.append(value);
            Ok(s)
        },
    }
}

/// The name by which the image is pulled from the registry at an address.
pub fn synthetic_reference(address: &str, repository: &str) -> (s: String)
    ensures
        s@ == address@ + "/"@ + repository@ + ":latest"@,
{
    let mut s = concat3(address, "/", repository);
    s.append(":latest");
    s
}

/// Whether bytes begin like a method, or are the beginning of one.
pub open spec fn begins_like(bytes: Seq<u8>, method: Seq<u8>) -> bool {
    method.is_prefix_of(bytes) || bytes.is_prefix_of(method)
}

/// Whether bytes can be the beginning of a request.
pub open spec fn looks_like_view(bytes: Seq<u8>) -> bool {
    ||| begins_like(bytes, seq![0x47, 0x45, 0x54])
    ||| begins_like(bytes, seq![0x48, 0x45, 0x41, 0x44])
    ||| begins_like(bytes, seq![0x50, 0x4f, 0x53, 0x54])
}

/// Whether bytes begin like a method, or are the beginning of one.
fn begins(bytes: &[u8], method: &[u8]) -> (r: bool)
    ensures
        r == begins_like(bytes@, method@),
{
    let n = if bytes.len() < method.len() {
        bytes.len()
    } else {
        method.len()
    };
    let mut i: usize = 0;
    while i < n
        invariant
            i <= n,
            n <= bytes@.len(),
            n <= method@.len(),
            n == bytes@.len() || n == method@.len(),
            forall|j: int| 0 <= j < i ==> bytes@[j] == method@[j],
        decreases n - i,
    {
        if bytes[i] != method[i] {
            assert(bytes@[i as int] != method@[i as int]);
            return false;
        }
        i += 1;
    }
    proof {
        if n == bytes@.len() {
            assert(bytes@ =~= method@.take(n as int));
        } else {
            assert(method@ =~= bytes@.take(n as int));
        }
    }
    true
}

/// Whether bytes can be the beginning of a request.
pub fn looks_like_http_request(bytes: &[u8]) -> (r: bool)
    ensures
        r == looks_like_view(bytes@),
{
    let get: [u8; 3] = [0x47, 0x45, 0x54];
    let head: [u8; 4] = [0x48, 0x45, 0x41, 0x44];
    let post: [u8; 4] = [0x50, 0x4f, 0x53, 0x54];
    assert(get@ =~= seq![0x47u8, 0x45, 0x54]);
    assert(head@ =~= seq![0x48u8, 0x45, 0x41, 0x44]);
    assert(post@ =~= seq![0x50u8, 0x4f, 0x53, 0x54]);
    begins(bytes, get.as_slice()) || begins(bytes, head.as_slice()) || begins(
        bytes,
        post.as_slice(),
    )
}

/// A request: its method and its path.
#[derive(Debug)]
pub struct LocalRequest {
    pub method: String,
    pub path: String,
}

/// The method and the path in the first line of a request.
pub open spec fn request_line(head: Seq<char>) -> std::result::Result<
    (Seq<char>, Seq<char>),
    ErrorView,
> {
    let lines = text::lines_view(head);
    if lines.len() == 0 {
        Err(ErrorView::BadResponse("empty HTTP request"@))
    } else {
        let words = text::words_view(lines[0]);
        if words.len() == 0 {
            Err(ErrorView::BadResponse("missing HTTP method"@))
        } else if words.len() == 1 {
            Err(ErrorView::BadResponse("missing HTTP path"@))
        } else {
            Ok((words[0], words[1]))
        }
    }
}

/// What a request says.
pub open spec fn local_request(bytes: Seq<u8>) -> std::result::Result<
    (Seq<char>, Seq<char>),
    ErrorView,
> {
    if !valid_utf8(bytes) {
        Err(ErrorView::BadResponse("invalid HTTP request: "@ + bytes::utf8_error(bytes)))
    } else {
        request_line(decode_utf8(bytes))
    }
}

/// Reads the method and the path of a request.
pub fn parse_request(bytes: &[u8]) -> (r: Result<LocalRequest>)
    ensures
        local_request(bytes@) == match r {
            Ok(request) => Ok((request.method@, request.path@)),
            Err(e) => Err(e@),
        },
{
    let head = match bytes::read_utf8(bytes) {
        Err(message) => {
            return Err(
                DockerPullError::BadResponse(concat2("invalid HTTP request: ", message.as_str())),
            );
        },
        Ok(head) => head,
    };
    let lines = text::lines(head.as_str());
    if lines.len() == 0 {
        return Err(DockerPullError::BadResponse("empty HTTP request".to_owned()));
    }
    assert(text::str_texts(lines@)[0] == lines@[0]@);
    let words = text::split_whitespace(lines[0]);
    if words.len() == 0 {
        return Err(DockerPullError::BadResponse("missing HTTP method".to_owned()));
    }
    if words.len() == 1 {
        return Err(DockerPullError::BadResponse("missing HTTP path".to_owned()));
    }
    assert(text::str_texts(words@)[0] == words@[0]@);
    assert(text::str_texts(words@)[1] == words@[1]@);
    Ok(LocalRequest { method: words[0].to_owned(), path: words[1].to_owned() })
}

/// What follows from the bytes of a request that were read so far.
#[derive(Debug)]
pub enum LocalRead {
    /// The head is complete, or the connection ended.
    Parse,
    /// More has to be read.
    More,
    /// The request cannot be read.
    Fail(DockerPullError),
}

/// Decides what follows from the bytes of a request that were read so far; `ended` tells that the
/// last read gave nothing.
pub fn next_read(bytes: &[u8], ended: bool) -> (r: LocalRead)
    ensures
        if ended {
            r == LocalRead::Parse
        } else if !looks_like_view(bytes@) {
            r matches LocalRead::Fail(e) && e@ == ErrorView::BadResponse(
                "local registry received non-HTTP request"@,
            )
        } else if find_bytes_view(bytes@, head_end()) is Some {
            r == LocalRead::Parse
        } else if bytes@.len() > MAX_REQUEST_HEAD_BYTES {
            r matches LocalRead::Fail(e) && e@ == ErrorView::InvalidInput(
                "local registry request headers are too large"@,
            )
        } else {
            r == LocalRead::More
        },
{
    if ended {
        return LocalRead::Parse;
    }
    if !looks_like_http_request(bytes) {
        return LocalRead::Fail(
            DockerPullError::BadResponse("local registry received non-HTTP request".to_owned()),
        );
    }
    let end: [u8; 4] = [0x0d, 0x0a, 0x0d, 0x0a];
    assert(end@ =~= head_end());
    if find_bytes(bytes, end.as_slice()).is_some() {
        return LocalRead::Parse;
    }
    if bytes.len() > MAX_REQUEST_HEAD_BYTES {
        return LocalRead::Fail(
            DockerPullError::InvalidInput(
                "local registry request headers are too large".to_owned(),
            ),
        );
    }
    LocalRead::More
}

/// What a path asks for in a repository: what follows the repository and a separator.
pub open spec fn suffix_view(
    path: Seq<char>,
    repository: Seq<char>,
    separator: Seq<char>,
) -> Option<Seq<char>> {
    match text::split_once_text(path, separator) {
        Some((candidate, suffix)) => if candidate == repository {
            Some(suffix)
        } else {
            None
        },
        None => None,
    }
}

/// What a path asks for in a repository.
pub fn route_suffix<'a>(path: &'a str, repository: &str, separator: &str) -> (r: Option<&'a str>)
    ensures
        text::opt_view(r) == suffix_view(path@, repository@, separator@),
{
    match text::split_once_str(path, separator) {
        Some((candidate, suffix)) => {
            if text::same(candidate, repository) {
                Some(suffix)
            } else {
                None
            }
        },
        None => None,
    }
}

/// The text that a segment of a path stands for.
pub uninterp spec fn percent_decoded(value: Seq<char>) -> Seq<char>;

/// Decodes a segment of a path with `percent_encoding::percent_decode_str` and
/// `PercentDecode::decode_utf8_lossy`. The outcome depends on the text alone.
#[verifier::external_body]
fn percent_decode(value: &str) -> (s: String)
    ensures
        s@ == percent_decoded(value@),
{
    percent_encoding::percent_decode_str(value).decode_utf8_lossy().into_owned()
}

/// What a request asks for.
#[derive(Debug)]
pub enum LocalRoute {
    Ping,
    NotFound,
    Manifest,
    Blob(String),
}

/// What a request asks for, as text.
pub enum LocalRouteView {
    Ping,
    NotFound,
    Manifest,
    Blob(Seq<char>),
}

impl View for LocalRoute {
    type V = LocalRouteView;

    open spec fn view(&self) -> LocalRouteView {
        match self {
            LocalRoute::Ping => LocalRouteView::Ping,
            LocalRoute::NotFound => LocalRouteView::NotFound,
            LocalRoute::Manifest => LocalRouteView::Manifest,
            LocalRoute::Blob(digest) => LocalRouteView::Blob(digest@),
        }
    }
}

/// What a request asks for. The manifest goes by its digest and by the name `latest`.
pub open spec fn local_route(
    path: Seq<char>,
    repository: Seq<char>,
    manifest_digest: Seq<char>,
) -> LocalRouteView {
    if path == "/v2/"@ {
        LocalRouteView::Ping
    } else {
        match text::strip_prefix_view(path, "/v2/"@) {
            None => LocalRouteView::NotFound,
            Some(rest) => match suffix_view(rest, repository, "/manifests/"@) {
                Some(suffix) => named_manifest(percent_decoded(suffix), manifest_digest),
                None => match suffix_view(rest, repository, "/blobs/"@) {
                    Some(suffix) => LocalRouteView::Blob(percent_decoded(suffix)),
                    None => LocalRouteView::NotFound,
                },
            },
        }
    }
}

/// Whether a name stands for the manifest.
pub open spec fn named_manifest(name: Seq<char>, manifest_digest: Seq<char>) -> LocalRouteView {
    if name == "latest"@ || name == manifest_digest {
        LocalRouteView::Manifest
    } else {
        LocalRouteView::NotFound
    }
}

/// Decides whether a name stands for the manifest.
pub fn manifest_route(name: &str, manifest_digest: &str) -> (r: LocalRoute)
    ensures
        r@ == named_manifest(name@, manifest_digest@),
{
    if text::same(name, "latest") || text::same(name, manifest_digest) {
        LocalRoute::Manifest
    } else {
        LocalRoute::NotFound
    }
}

/// Decides what a request asks for.
pub fn route_request(path: &str, repository: &str, manifest_digest: &str) -> (r: LocalRoute)
    ensures
        r@ == local_route(path@, repository@, manifest_digest@),
{
    if text::same(path, "/v2/") {
        return LocalRoute::Ping;
    }
    let rest = match text::strip_prefix(path, "/v2/") {
        None => {
            return LocalRoute::NotFound;
        },
        Some(rest) => rest,
    };
    if let Some(suffix) = route_suffix(rest, repository, "/manifests/") {
        let name = percent_decode(suffix);
        return manifest_route(name.as_str(), manifest_digest);
    }
    match route_suffix(rest, repository, "/blobs/") {
        Some(suffix) => LocalRoute::Blob(percent_decode(suffix)),
        None => LocalRoute::NotFound,
    }
}

/// A response that carries bytes, or only tells of them.
pub open spec fn bytes_response(
    content_type: Seq<char>,
    bytes: Seq<u8>,
    headers_only: bool,
    digest: Seq<char>,
) -> ResponseView {
    ResponseView {
        status: 200,
        reason: "OK"@,
        content_type,
        body: if headers_only {
            BodyView::Empty
        } else {
            BodyView::Text(bytes)
        },
        content_length: bytes.len() as int,
        digest: Some(digest),
        range: None,
    }
}

/// A response that carries bytes, or only tells of them.
fn respond_with(content_type: &str, bytes: Vec<u8>, headers_only: bool, digest: &str) -> (r:
    RegistryResponse)
    ensures
        r@ == bytes_response(content_type@, bytes@, headers_only, digest@),
{
    RegistryResponse {
        status: 200,
        reason: "OK",
        content_type: content_type.to_owned(),
        content_length: bytes.len() as u64,
        body: if headers_only {
            RegistryBody::Empty
        } else {
            RegistryBody::Text(bytes)
        },
        digest: Some(digest.to_owned()),
        range: None,
    }
}

/// Answers a request for the manifest, whose bytes were read.
pub fn manifest_response(manifest: &Descriptor, read: Result<Vec<u8>>, headers_only: bool) -> (r:
    RegistryResponse)
    ensures
        r@ == match read {
            Ok(bytes) => bytes_response(
                if manifest@.media_type.len() == 0 {
                    OCI_IMAGE_MANIFEST_MEDIA_TYPE@
                } else {
                    manifest@.media_type
                },
                bytes@,
                headers_only,
                manifest@.digest,
            ),
            Err(e) => text_response(500, "Internal Server Error"@, e@.message()),
        },
{
    match read {
        Err(e) => RegistryResponse::text(500, "Internal Server Error", e.message().as_str()),
        Ok(bytes) => {
            let content_type = if manifest.media_type.as_str().unicode_len() == 0 {
                OCI_IMAGE_MANIFEST_MEDIA_TYPE
            } else {
                manifest.media_type.as_str()
            };
            respond_with(content_type, bytes, headers_only, manifest.digest.as_str())
        },
    }
}

/// Answers a request for a blob, whose bytes were read.
pub fn blob_response(digest: &str, read: Result<Vec<u8>>, headers_only: bool) -> (r:
    RegistryResponse)
    ensures
        r@ == match read {
            Ok(bytes) => bytes_response(
                OCTET_STREAM_MEDIA_TYPE@,
                bytes@,
                headers_only,
                digest@,
            ),
            Err(e) => if e@ is MissingBlobFile {
                empty_response(404, "Not Found"@)
            } else {
                text_response(500, "Internal Server Error"@, e@.message())
            },
        },
{
    match read {
        Ok(bytes) => respond_with(OCTET_STREAM_MEDIA_TYPE, bytes, headers_only, digest),
        Err(e) => {
            let missing = match &e {
                DockerPullError::MissingBlobFile(_, _) => true,
                _ => false,
            };
            if missing {
                RegistryResponse::empty(404, "Not Found")
            } else {
                RegistryResponse::text(500, "Internal Server Error", e.message().as_str())
            }
        },
    }
}

/// The daemon finds the image under its repository: the manifest by its digest and by `latest`, and
/// each blob by its digest. Nothing else is a manifest.
pub proof fn law_the_image_is_found_under_its_repository(
    repository: Seq<char>,
    name: Seq<char>,
    manifest_digest: Seq<char>,
)
    requires
        forall|j: int|
            0 <= j < repository.len() ==> !text::occurs_at(
                repository + "/manifests/"@ + name,
                "/manifests/"@,
                j,
            ),
        forall|j: int|
            0 <= j < repository.len() ==> !text::occurs_at(
                repository + "/blobs/"@ + name,
                "/blobs/"@,
                j,
            ),
        !text::contains_text(repository + "/blobs/"@ + name, "/manifests/"@),
    ensures
        ({
            let decoded = percent_decoded(name);
            let route = local_route(
                "/v2/"@ + repository + "/manifests/"@ + name,
                repository,
                manifest_digest,
            );
            &&& decoded == "latest"@ || decoded == manifest_digest ==> route is Manifest
            &&& decoded != "latest"@ && decoded != manifest_digest ==> route is NotFound
            &&& local_route(
                "/v2/"@ + repository + "/blobs/"@ + name,
                repository,
                manifest_digest,
            ) == LocalRouteView::Blob(decoded)
            &&& local_route("/v2/"@, repository, manifest_digest) is Ping
        }),
{
    reveal_strlit("/v2/");
    reveal_strlit("/manifests/");
    reveal_strlit("/blobs/");
    lemma_suffix(repository, "/manifests/"@, name);
    lemma_suffix(repository, "/blobs/"@, name);
    let blob = repository + "/blobs/"@ + name;
    text::lemma_find_text(blob, "/manifests/"@);
    let manifest_path = "/v2/"@ + repository + "/manifests/"@ + name;
    let blob_path = "/v2/"@ + repository + "/blobs/"@ + name;
    assert(manifest_path.skip(4) =~= repository + "/manifests/"@ + name);
    assert(manifest_path.take(4) =~= "/v2/"@);
    assert(blob_path.skip(4) =~= blob);
    assert(blob_path.take(4) =~= "/v2/"@);
    assert(manifest_path.len() > 4 && blob_path.len() > 4);
}

proof fn lemma_suffix(repository: Seq<char>, separator: Seq<char>, name: Seq<char>)
    requires
        forall|j: int|
            0 <= j < repository.len() ==> !text::occurs_at(
                repository + separator + name,
                separator,
                j,
            ),
    ensures
        suffix_view(repository + separator + name, repository, separator) == Some(name),
{
    let s = repository + separator + name;
    let n = repository.len() as int;
    text::lemma_find_text(s, separator);
    assert(s.subrange(n, n + separator.len()) =~= separator);
    assert(text::occurs_at(s, separator, n));
    assert(s.take(n) =~= repository);
    assert(s.skip(n + separator.len()) =~= name);
}

/// What is asked for in another repository is not there.
pub proof fn law_other_repositories_are_not_there(
    path: Seq<char>,
    repository: Seq<char>,
    manifest_digest: Seq<char>,
)
    requires
        !("/v2/"@ + repository + "/"@).is_prefix_of(path),
    ensures
        local_route(path, repository, manifest_digest) is Ping || local_route(
            path,
            repository,
            manifest_digest,
        ) is NotFound,
{
    reveal_strlit("/v2/");
    reveal_strlit("/");
    reveal_strlit("/manifests/");
    reveal_strlit("/blobs/");
    if "/v2/"@.is_prefix_of(path) {
        let rest = path.skip(4);
        if suffix_view(rest, repository, "/manifests/"@) is Some {
            lemma_below(path, rest, repository, "/manifests/"@);
        }
        if suffix_view(rest, repository, "/blobs/"@) is Some {
            lemma_below(path, rest, repository, "/blobs/"@);
        }
    }
}

proof fn lemma_below(
    path: Seq<char>,
    rest: Seq<char>,
    repository: Seq<char>,
    separator: Seq<char>,
)
    requires
        "/v2/"@.is_prefix_of(path),
        rest == path.skip(4),
        separator.len() > 0,
        separator[0] == '/',
        suffix_view(rest, repository, separator) is Some,
    ensures
        ("/v2/"@ + repository + "/"@).is_prefix_of(path),
{
    reveal_strlit("/v2/");
    reveal_strlit("/");
    text::lemma_find_text(rest, separator);
    let i = text::find_text(rest, separator)->0;
    assert(rest.take(i) == repository);
    assert(rest.subrange(i, i + separator.len())[0] == '/');
    assert(rest[i] == '/');
    let front = "/v2/"@ + repository + "/"@;
    assert forall|k: int| 0 <= k < front.len() implies front[k] == path[k] by {
        if k < 4 {
            assert(path.take(4)[k] == "/v2/"@[k]);
        } else if k < 4 + i {
            assert(rest.take(i)[k - 4] == repository[k - 4]);
        } else {
            assert(rest[i] == path[k]);
        }
    }
    assert(path.take(front.len() as int) =~= front);
}

/// Bytes are sent whole and with their length, and whoever asks for the head alone gets the same
/// head and no content.
pub proof fn law_bytes_are_sent_whole(
    content_type: Seq<char>,
    bytes: Seq<u8>,
    digest: Seq<char>,
)
    ensures
        ({
            let whole = bytes_response(content_type, bytes, false, digest);
            let head = bytes_response(content_type, bytes, true, digest);
            &&& whole.status == 200
            &&& whole.body == BodyView::Text(bytes)
            &&& whole.content_length == bytes.len()
            &&& whole.content_type == content_type
            &&& whole.digest == Some(digest)
            &&& head == ResponseView { body: BodyView::Empty, ..whole }
        }),
{
}

} // verus!
