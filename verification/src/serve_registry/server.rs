//! What the registry answers.
use vstd::prelude::*;

use crate::digest::{self, parse_digest};
use crate::error::{concat3, DockerPullError, ErrorView, Result};
use crate::json::{self, Json, JsonView};
use crate::platform::Platform;
use crate::reference::{self, ImageReference, ReferenceView};
use crate::registry::cache::{decode_cache_repository, decoded_name};
use crate::registry::types::{Descriptor, DescriptorView, RawManifest};
use crate::serve_registry::request::{Request, RequestView};
use crate::serve_registry::response::{
    empty_response, file_response, ranged, text_response, BodyView, RegistryResponse,
    ResponseView,
};
use crate::store::{Store, StoredReference};
use crate::text::{self, opt_string};

verus! {

/// The type of content of which nothing else is known.
pub const OCTET_STREAM_MEDIA_TYPE: &'static str = "application/octet-stream";

/// The type of a manifest of an image.
pub const OCI_IMAGE_MANIFEST_MEDIA_TYPE: &'static str =
    "application/vnd.oci.image.manifest.v1+json";

/// How many connections are served at a time.
pub const MAX_CONNECTIONS: usize = 1024;

/// What a request asks for.
#[derive(Debug)]
pub enum Route {
    /// Whether this is a registry.
    Ping,
    /// Something that is not supported.
    MethodNotAllowed,
    /// Something that is not there.
    NotFound,
    /// A manifest of a repository.
    Manifest { repository: String, reference: String },
    /// A blob of a repository.
    Blob { repository: String, digest: String },
}

/// What a request asks for, as text.
pub enum RouteView {
    Ping,
    MethodNotAllowed,
    NotFound,
    Manifest { repository: Seq<char>, reference: Seq<char> },
    Blob { repository: Seq<char>, digest: Seq<char> },
}

impl View for Route {
    type V = RouteView;

    open spec fn view(&self) -> RouteView {
        match self {
            Route::Ping => RouteView::Ping,
            Route::MethodNotAllowed => RouteView::MethodNotAllowed,
            Route::NotFound => RouteView::NotFound,
            Route::Manifest { repository, reference } => RouteView::Manifest {
                repository: repository@,
                reference: reference@,
            },
            Route::Blob { repository, digest } => RouteView::Blob {
                repository: repository@,
                digest: digest@,
            },
        }
    }
}

/// Splits a path at the last occurrence of a separator.
pub fn split_route<'a>(path: &'a str, separator: &str) -> (r: Option<(&'a str, &'a str)>)
    ensures
        text::pair_view(r) == text::rsplit_once_text(path@, separator@),
{
    text::rsplit_once_str(path, separator)
}

/// What a request asks for.
pub open spec fn route_view(request: RequestView) -> RouteView {
    if request.path == "/v2/"@ {
        RouteView::Ping
    } else if request.method != "GET"@ && request.method != "HEAD"@ {
        RouteView::MethodNotAllowed
    } else {
        match text::strip_prefix_view(request.path, "/v2/"@) {
            None => RouteView::NotFound,
            Some(rest) => match text::rsplit_once_text(rest, "/manifests/"@) {
                Some((repository, reference)) => RouteView::Manifest { repository, reference },
                None => match text::rsplit_once_text(rest, "/blobs/"@) {
                    Some((repository, digest)) => RouteView::Blob { repository, digest },
                    None => RouteView::NotFound,
                },
            },
        }
    }
}

/// Decides what a request asks for.
pub fn route_request(request: &Request) -> (route: Route)
    ensures
        route@ == route_view(request@),
{
    if text::same(request.path.as_str(), "/v2/") {
        return Route::Ping;
    }
    if !text::same(request.method.as_str(), "GET") && !text::same(
        request.method.as_str(),
        "HEAD",
    ) {
        return Route::MethodNotAllowed;
    }
    let rest = match text::strip_prefix(request.path.as_str(), "/v2/") {
        None => {
            return Route::NotFound;
        },
        Some(rest) => rest,
    };
    if let Some((repository, reference)) = split_route(rest, "/manifests/") {
        return Route::Manifest {
            repository: repository.to_owned(),
            reference: reference.to_owned(),
        };
    }
    match split_route(rest, "/blobs/") {
        Some((repository, digest)) => Route::Blob {
            repository: repository.to_owned(),
            digest: digest.to_owned(),
        },
        None => Route::NotFound,
    }
}

/// The answer to a request for which nothing has to be looked up.
pub fn plain_answer(route: &Route) -> (r: Option<RegistryResponse>)
    ensures
        match route@ {
            RouteView::Ping => r matches Some(x) && x@ == empty_response(200, "OK"@),
            RouteView::MethodNotAllowed => r matches Some(x) && x@ == empty_response(
                405,
                "Method Not Allowed"@,
            ),
            RouteView::NotFound => r matches Some(x) && x@ == empty_response(404, "Not Found"@),
            _ => r is None,
        },
{
    match route {
        Route::Ping => Some(RegistryResponse::empty(200, "OK")),
        Route::MethodNotAllowed => Some(RegistryResponse::empty(405, "Method Not Allowed")),
        Route::NotFound => Some(RegistryResponse::empty(404, "Not Found")),
        _ => None,
    }
}

/// Whether a text is a digest of a supported algorithm.
pub fn is_supported_digest_reference(reference: &str) -> (r: bool)
    ensures
        r == digest::is_digest(reference@),
{
    parse_digest(reference).is_ok()
}

/// Whether a text begins with a supported algorithm and a colon, and goes on after it.
pub open spec fn named_algorithm(reference: Seq<char>) -> bool {
    match text::split_once_view(reference, ':') {
        Some((algorithm, value)) => value.len() > 0 && (algorithm == "sha256"@ || algorithm
            == "sha384"@ || algorithm == "sha512"@),
        None => false,
    }
}

/// Whether a text has the shape of a digest of a supported algorithm, whatever its value.
pub fn names_supported_algorithm(reference: &str) -> (r: bool)
    ensures
        r == named_algorithm(reference@),
{
    match text::split_once(reference, ':') {
        Some((algorithm, value)) => value.unicode_len() > 0 && (text::same(algorithm, "sha256")
            || text::same(algorithm, "sha384") || text::same(algorithm, "sha512")),
        None => false,
    }
}

/// The image that a repository of the cache and a tag or a digest stand for.
pub open spec fn upstream_view(repository: Seq<char>, reference: Seq<char>) -> std::result::Result<
    ReferenceView,
    ErrorView,
> {
    match decoded_name(repository) {
        None => Err(
            ErrorView::InvalidInput("invalid pocker cache repository `"@ + repository + "`"@),
        ),
        Some((registry, upstream)) => reference::parsed(
            registry + "/"@ + upstream + (if digest::is_digest(reference) {
                "@"@
            } else {
                ":"@
            }) + reference,
        ),
    }
}

/// Finds the image that a repository of the cache and a tag or a digest stand for.
pub fn upstream_reference(repository: &str, reference: &str) -> (r: Result<ImageReference>)
    ensures
        upstream_view(repository@, reference@) == match r {
            Ok(image) => Ok(image@),
            Err(e) => Err(e@),
        },
{
    match decode_cache_repository(repository) {
        Err(e) => Err(e),
        Ok((registry, upstream)) => {
            let mut name = concat3(registry.as_str(), "/", upstream.as_str());
            if is_supported_digest_reference(reference) {
                name.append("@");
            } else {
                name.append(":");
            }
            name.append(reference);
            ImageReference::parse(name.as_str())
        },
    }
}

/// The answer to a request for an image whose name cannot be read.
pub fn bad_request(error: &DockerPullError) -> (r: RegistryResponse)
    ensures
        r@ == text_response(400, "Bad Request"@, error@.message()),
{
    RegistryResponse::text(400, "Bad Request", error.message().as_str())
}

/// What was found in the cache.
pub type Found = Result<Option<RegistryResponse>>;

/// What follows from what was found in the cache.
#[derive(Debug)]
pub enum CacheOutcome {
    /// The request is answered.
    Respond(RegistryResponse),
    /// What is asked for is fetched from its registry.
    Fetch,
}

/// Decides what follows from what was found in the cache: what is there is sent, and what is not
/// is fetched only where that is asked for.
pub fn after_cache(cached: Found, pull_missing: bool) -> (r: CacheOutcome)
    ensures
        match cached {
            Ok(Some(response)) => r matches CacheOutcome::Respond(x) && x == response,
            Ok(None) => if pull_missing {
                r == CacheOutcome::Fetch
            } else {
                r matches CacheOutcome::Respond(x) && x@ == empty_response(404, "Not Found"@)
            },
            Err(e) => r matches CacheOutcome::Respond(x) && x@ == text_response(
                500,
                "Internal Server Error"@,
                e@.message(),
            ),
        },
{
    match cached {
        Ok(Some(response)) => CacheOutcome::Respond(response),
        Ok(None) => {
            if pull_missing {
                CacheOutcome::Fetch
            } else {
                CacheOutcome::Respond(RegistryResponse::empty(404, "Not Found"))
            }
        },
        Err(e) => CacheOutcome::Respond(
            RegistryResponse::text(500, "Internal Server Error", e.message().as_str()),
        ),
    }
}

/// Decides how a request is answered after a fetch. `manifest` tells whether it asked for a
/// manifest; for a manifest only a missing manifest counts as not there, and for a blob only a
/// missing blob.
pub fn after_fetch(fetched: Result<RegistryResponse>, manifest: bool) -> (r: RegistryResponse)
    ensures
        match fetched {
            Ok(response) => r == response,
            Err(e) => if (manifest && e@ is ManifestNotFound) || (!manifest && e@ is BlobNotFound) {
                r@ == empty_response(404, "Not Found"@)
            } else {
                r@ == text_response(502, "Bad Gateway"@, e@.message())
            },
        },
{
    match fetched {
        Ok(response) => response,
        Err(e) => {
            let missing = match &e {
                DockerPullError::ManifestNotFound => manifest,
                DockerPullError::BlobNotFound(_) => !manifest,
                _ => false,
            };
            if missing {
                RegistryResponse::empty(404, "Not Found")
            } else {
                RegistryResponse::text(502, "Bad Gateway", e.message().as_str())
            }
        },
    }
}

/// The response that serves a stored manifest.
pub open spec fn manifest_view(
    store: Store,
    descriptor: DescriptorView,
    headers_only: bool,
) -> ResponseView {
    match store.blob_file(descriptor.digest) {
        Err(e) => text_response(500, "Internal Server Error"@, e.message()),
        Ok(path) => if descriptor.size < 0 {
            text_response(500, "Internal Server Error"@, descriptor.size_error().message())
        } else {
            file_response(
                if descriptor.media_type.len() == 0 {
                    OCI_IMAGE_MANIFEST_MEDIA_TYPE@
                } else {
                    descriptor.media_type
                },
                path,
                descriptor.size as u64,
                headers_only,
                descriptor.digest,
            )
        },
    }
}

/// Serves a stored manifest.
pub fn serve_manifest_blob(store: &Store, descriptor: &Descriptor, headers_only: bool) -> (r:
    RegistryResponse)
    ensures
        r@ == manifest_view(*store, descriptor@, headers_only),
{
    let path = match store.blob_path(descriptor.digest.as_str()) {
        Err(e) => {
            return RegistryResponse::text(500, "Internal Server Error", e.message().as_str());
        },
        Ok(path) => path,
    };
    let size = match descriptor.expected_size() {
        Err(e) => {
            return RegistryResponse::text(500, "Internal Server Error", e.message().as_str());
        },
        Ok(size) => size,
    };
    let content_type = if descriptor.media_type.as_str().unicode_len() == 0 {
        OCI_IMAGE_MANIFEST_MEDIA_TYPE
    } else {
        descriptor.media_type.as_str()
    };
    RegistryResponse::file(
        content_type,
        path.as_str(),
        size,
        headers_only,
        descriptor.digest.as_str(),
    )
}

/// Serves a stored blob, or the part of it that is asked for.
pub fn blob_file_response(path: &str, size: u64, digest: &str, request: &Request) -> (r:
    RegistryResponse)
    ensures
        r@ == ranged(
            file_response(
                OCTET_STREAM_MEDIA_TYPE@,
                path@,
                size,
                request@.method == "HEAD"@,
                digest@,
            ),
            request@.range,
        ),
{
    let response = RegistryResponse::file(
        OCTET_STREAM_MEDIA_TYPE,
        path,
        size,
        text::same(request.method.as_str(), "HEAD"),
        digest,
    );
    let range = match &request.range {
        Some(value) => Some(value.as_str()),
        None => None,
    };
    response.with_range(range)
}

/// What a manifest says of itself.
#[derive(Debug, PartialEq, Eq)]
pub struct ManifestSummary {
    pub media_type: Option<String>,
    pub config_digest: Option<String>,
}

/// What a manifest says of itself, as text.
pub struct SummaryView {
    pub media_type: Option<Seq<char>>,
    pub config_digest: Option<Seq<char>>,
}

impl View for ManifestSummary {
    type V = SummaryView;

    open spec fn view(&self) -> SummaryView {
        SummaryView {
            media_type: opt_string(self.media_type),
            config_digest: opt_string(self.config_digest),
        }
    }
}

/// What the value of a manifest says; what is no value says nothing.
pub open spec fn summary_view(value: std::result::Result<JsonView, Seq<char>>) -> SummaryView {
    match value {
        Err(_) => SummaryView { media_type: None, config_digest: None },
        Ok(v) => SummaryView {
            media_type: v.get_text("mediaType"@),
            config_digest: match v.get("config"@) {
                Some(config) => config.get_text("digest"@),
                None => None,
            },
        },
    }
}

/// Reads what the value of a manifest says.
pub fn summarize(value: &std::result::Result<Json, String>) -> (s: ManifestSummary)
    ensures
        s@ == summary_view(
            match *value {
                Ok(v) => Ok(v@),
                Err(message) => Err(message@),
            },
        ),
{
    match value {
        Err(_) => ManifestSummary { media_type: None, config_digest: None },
        Ok(v) => ManifestSummary {
            media_type: match v.get_str("mediaType") {
                Some(t) => Some(t.to_owned()),
                None => None,
            },
            config_digest: match v.get("config") {
                Some(config) => match config.get_str("digest") {
                    Some(d) => Some(d.to_owned()),
                    None => None,
                },
                None => None,
            },
        },
    }
}

/// Reads what a manifest says of itself.
pub fn manifest_summary(bytes: &[u8]) -> (s: ManifestSummary)
    ensures
        s@ == summary_view(json::json_document(bytes@)),
{
    summarize(&json::parse_json(bytes))
}

/// A text that may be missing, and then is empty.
pub open spec fn or_empty(s: Option<Seq<char>>) -> Seq<char> {
    match s {
        Some(t) => t,
        None => seq![],
    }
}

/// A text that may be missing, and then is empty.
fn text_or_empty(s: Option<String>) -> (r: String)
    ensures
        r@ == or_empty(opt_string(s)),
{
    match s {
        Some(t) => t,
        None => {
            proof {
                reveal_strlit("");
            }
            let r = "".to_owned();
            assert(r@ =~= Seq::<char>::empty());
            r
        },
    }
}

/// Describes a manifest that is stored under its digest.
pub fn manifest_descriptor(digest: &str, bytes: &[u8], host: &Platform) -> (d: Descriptor)
    ensures
        d@ == (DescriptorView {
            media_type: or_empty(summary_view(json::json_document(bytes@)).media_type),
            digest: digest@,
            size: bytes@.len() as i64,
            platform: Some(host@),
            annotations: None,
        }),
{
    let summary = manifest_summary(bytes);
    Descriptor {
        media_type: text_or_empty(summary.media_type),
        digest: digest.to_owned(),
        size: bytes.len() as i64,
        platform: Some(host.copy()),
        annotations: None,
    }
}

/// Describes a blob by its digest and its size.
pub fn blob_descriptor(digest: &str, size: u64) -> (d: Descriptor)
    ensures
        d@ == (DescriptorView {
            media_type: OCTET_STREAM_MEDIA_TYPE@,
            digest: digest@,
            size: size as i64,
            platform: None,
            annotations: None,
        }),
{
    Descriptor {
        media_type: OCTET_STREAM_MEDIA_TYPE.to_owned(),
        digest: digest.to_owned(),
        size: size as i64,
        platform: None,
        annotations: None,
    }
}

/// What is kept of an image whose manifest was fetched.
pub fn fetched_reference(reference: &ImageReference, raw: &RawManifest) -> (s: StoredReference)
    ensures
        s@ == (crate::store::StoredReferenceView {
            reference: reference@.normalized(),
            manifest: raw.descriptor@,
            config_digest: or_empty(summary_view(json::json_document(raw.bytes@)).config_digest),
        }),
{
    let summary = manifest_summary(raw.bytes.as_slice());
    StoredReference {
        reference: reference.normalized(),
        manifest: raw.descriptor.copy(),
        config_digest: text_or_empty(summary.config_digest),
    }
}

/// A stored manifest is served as the file of its digest, whole and with its size. Whoever asks for
/// the head alone gets the same head, and no content.
pub proof fn law_a_stored_manifest_is_served(store: Store, descriptor: DescriptorView)
    requires
        digest::is_digest(descriptor.digest),
        descriptor.size >= 0,
    ensures
        ({
            let whole = manifest_view(store, descriptor, false);
            let head = manifest_view(store, descriptor, true);
            &&& whole.status == 200
            &&& store.blob_file(descriptor.digest) is Ok
            &&& whole.body == BodyView::File(store.blob_file(descriptor.digest)->Ok_0)
            &&& whole.content_length == descriptor.size
            &&& whole.digest == Some(descriptor.digest)
            &&& whole.range is None
            &&& descriptor.media_type.len() > 0 ==> whole.content_type == descriptor.media_type
            &&& head.body is Empty
            &&& head == ResponseView { body: BodyView::Empty, ..whole }
        }),
{
}

/// A manifest that cannot be stored, for its digest or its size, is not served: the answer is an
/// error, which holds nothing of any file.
pub proof fn law_a_bad_manifest_is_not_served(
    store: Store,
    descriptor: DescriptorView,
    headers_only: bool,
)
    requires
        !digest::is_digest(descriptor.digest) || descriptor.size < 0,
    ensures
        ({
            let answer = manifest_view(store, descriptor, headers_only);
            answer.status == 500 && answer.body is Text && answer.digest is None
        }),
{
}

/// A stored blob is served as its file, whole and with its size, or its head alone.
pub proof fn law_a_stored_blob_is_served(path: Seq<char>, size: u64, digest: Seq<char>)
    ensures
        ({
            let whole = ranged(
                file_response(OCTET_STREAM_MEDIA_TYPE@, path, size, false, digest),
                None,
            );
            let head = ranged(
                file_response(OCTET_STREAM_MEDIA_TYPE@, path, size, true, digest),
                None,
            );
            &&& whole.status == 200
            &&& whole.body == BodyView::File(path)
            &&& whole.content_length == size
            &&& whole.digest == Some(digest)
            &&& whole.range is None
            &&& head == ResponseView { body: BodyView::Empty, ..whole }
        }),
{
}

/// A range that does not lie within a blob is answered as such, and nothing of the blob is sent.
pub proof fn law_a_bad_range_is_refused(
    path: Seq<char>,
    size: u64,
    headers_only: bool,
    digest: Seq<char>,
    value: Seq<char>,
)
    requires
        crate::serve_registry::response::byte_range(value, size) is None,
    ensures
        ranged(
            file_response(OCTET_STREAM_MEDIA_TYPE@, path, size, headers_only, digest),
            Some(value),
        ) == empty_response(416, "Range Not Satisfiable"@),
{
}

/// A registry and a repository are reached in the cache under one name: the route to a manifest of
/// the repository leads back to them.
pub proof fn law_cache_routes_lead_upstream(
    registry: Seq<char>,
    repository: Seq<char>,
    tag: Seq<char>,
)
    requires
        registry.len() > 0,
        repository.len() > 0,
        !registry.contains('/'),
        !digest::is_digest(tag),
    ensures
        upstream_view(crate::registry::cache::cached_name(registry, repository), tag)
            == reference::parsed(registry + "/"@ + repository + ":"@ + tag),
{
    crate::registry::cache::law_cached_name_decodes(registry, repository);
}

/// The last place where a text that ends with a slash occurs is before a name without slashes.
proof fn lemma_last_separator(a: Seq<char>, p: Seq<char>, b: Seq<char>)
    requires
        p.len() > 0,
        p.last() == '/',
        !b.contains('/'),
    ensures
        text::rsplit_once_text(a + p + b, p) == Some((a, b)),
{
    let s = a + p + b;
    let n = a.len() as int;
    text::lemma_rfind_text(s, p);
    assert(s.subrange(n, n + p.len()) =~= p);
    assert(text::occurs_at(s, p, n));
    let i = text::rfind_text(s, p)->0;
    assert(i <= n) by {
        if i > n {
            let k = i + p.len() - 1;
            assert(s.subrange(i, i + p.len()).last() == s[k]);
            assert(s[k] == b[k - n - p.len()]);
            assert(b.contains(s[k]));
        }
    }
    assert(s.take(n) =~= a);
    assert(s.skip(n + p.len()) =~= b);
}

/// The path of a manifest leads to it: to its repository, which may have slashes in its name, and
/// to its tag or digest.
pub proof fn law_the_path_of_a_manifest_leads_to_it(
    request: RequestView,
    repository: Seq<char>,
    reference: Seq<char>,
)
    requires
        request.method == "GET"@ || request.method == "HEAD"@,
        request.path == "/v2/"@ + repository + "/manifests/"@ + reference,
        !reference.contains('/'),
    ensures
        route_view(request) == (RouteView::Manifest { repository, reference }),
{
    reveal_strlit("/v2/");
    reveal_strlit("/manifests/");
    lemma_last_separator(repository, "/manifests/"@, reference);
    let rest = repository + "/manifests/"@ + reference;
    assert(request.path.len() > 4);
    assert(request.path.skip(4) =~= rest);
    assert(request.path.take(4) =~= "/v2/"@);
}

/// The path of a blob leads to it, where it is not also that of a manifest.
pub proof fn law_the_path_of_a_blob_leads_to_it(
    request: RequestView,
    repository: Seq<char>,
    digest: Seq<char>,
)
    requires
        request.method == "GET"@ || request.method == "HEAD"@,
        request.path == "/v2/"@ + repository + "/blobs/"@ + digest,
        !digest.contains('/'),
        !text::contains_text(repository + "/blobs/"@ + digest, "/manifests/"@),
    ensures
        route_view(request) == (RouteView::Blob { repository, digest }),
{
    reveal_strlit("/v2/");
    reveal_strlit("/blobs/");
    lemma_last_separator(repository, "/blobs/"@, digest);
    let rest = repository + "/blobs/"@ + digest;
    text::lemma_rfind_text(rest, "/manifests/"@);
    assert(request.path.len() > 4);
    assert(request.path.skip(4) =~= rest);
    assert(request.path.take(4) =~= "/v2/"@);
}

/// The registry is recognised by its root whatever the method, and otherwise is only read from.
pub proof fn law_the_registry_is_only_read_from(request: RequestView)
    ensures
        request.path == "/v2/"@ ==> route_view(request) is Ping,
        request.path != "/v2/"@ && request.method != "GET"@ && request.method != "HEAD"@
            ==> route_view(request) is MethodNotAllowed,
        request.path != "/v2/"@ && (request.method == "GET"@ || request.method == "HEAD"@)
            && !"/v2/"@.is_prefix_of(request.path) ==> route_view(request) is NotFound,
        route_view(request) is Manifest || route_view(request) is Blob ==> request.method == "GET"@
            || request.method == "HEAD"@,
{
}

/// A repository of the cache and a digest stand for the image of that digest upstream.
pub proof fn law_cache_routes_lead_to_digests(
    registry: Seq<char>,
    repository: Seq<char>,
    digest: Seq<char>,
)
    requires
        registry.len() > 0,
        repository.len() > 0,
        !registry.contains('/'),
        digest::is_digest(digest),
    ensures
        upstream_view(crate::registry::cache::cached_name(registry, repository), digest)
            == reference::parsed(registry + "/"@ + repository + "@"@ + digest),
{
    crate::registry::cache::law_cached_name_decodes(registry, repository);
}

} // verus!
