//! Resolving a reference to the image for a platform.
//!
//! The manifest of a reference is either that of an image or a list of manifests by platform. In
//! the second case the one for the wanted platform is fetched as well. Fetching and decoding are
//! done by the caller; the functions here say what to fetch and to decode, and what follows from
//! the outcome.
use vstd::prelude::*;

use crate::digest::{self, canonical_digest_bytes};
use crate::error::{concat2, DockerPullError, ErrorView};
use crate::platform::{self, Platform, PlatformView};
use crate::registry::client::{self, content_media_type, ensure_manifest_status};
use crate::registry::types::{
    self, Descriptor, DescriptorView, ImageIndex, ImageManifest, ManifestEnvelope, ResolvedImage,
    ResolvedView, Status,
};
use crate::text;

verus! {

/// The media types of the manifest of one image.
pub open spec fn is_manifest_type(media_type: Seq<char>) -> bool {
    media_type == "application/vnd.oci.image.manifest.v1+json"@ || media_type
        == "application/vnd.docker.distribution.manifest.v2+json"@
}

/// The media types of a list of manifests.
pub open spec fn is_index_type(media_type: Seq<char>) -> bool {
    media_type == "application/vnd.oci.image.index.v1+json"@ || media_type
        == "application/vnd.docker.distribution.manifest.list.v2+json"@
}

/// Whether a media type is that of the manifest of one image.
pub fn is_image_manifest(media_type: &str) -> (r: bool)
    ensures
        r == is_manifest_type(media_type@),
{
    text::same(media_type, "application/vnd.oci.image.manifest.v1+json") || text::same(
        media_type,
        "application/vnd.docker.distribution.manifest.v2+json",
    )
}

/// Whether a media type is that of a list of manifests.
pub fn is_image_index(media_type: &str) -> (r: bool)
    ensures
        r == is_index_type(media_type@),
{
    text::same(media_type, "application/vnd.oci.image.index.v1+json") || text::same(
        media_type,
        "application/vnd.docker.distribution.manifest.list.v2+json",
    )
}

/// The position of the first descriptor for the platform.
pub open spec fn platform_index(
    manifests: Seq<DescriptorView>,
    wanted: PlatformView,
) -> Option<int>
    decreases manifests.len(),
{
    if manifests.len() == 0 {
        None
    } else if manifests[0].platform matches Some(p) && wanted.accepts(p) {
        Some(0)
    } else {
        match platform_index(manifests.skip(1), wanted) {
            Some(i) => Some(i + 1),
            None => None,
        }
    }
}

/// The descriptor that is found is one for the platform, and none before it is; where none is
/// found, none is for the platform.
pub proof fn law_first_matching_platform_is_chosen(
    manifests: Seq<DescriptorView>,
    wanted: PlatformView,
)
    ensures
        match platform_index(manifests, wanted) {
            Some(i) => 0 <= i < manifests.len() && (manifests[i].platform matches Some(p)
                && wanted.accepts(p)) && forall|j: int|
                0 <= j < i ==> !((#[trigger] manifests[j]).platform matches Some(p)
                    && wanted.accepts(p)),
            None => forall|j: int|
                0 <= j < manifests.len() ==> !((#[trigger] manifests[j]).platform matches Some(p)
                    && wanted.accepts(p)),
        },
    decreases manifests.len(),
{
    if manifests.len() > 0 && !(manifests[0].platform matches Some(p) && wanted.accepts(p)) {
        let rest = manifests.skip(1);
        law_first_matching_platform_is_chosen(rest, wanted);
        assert forall|j: int| 0 < j < manifests.len() implies manifests[j] == rest[j - 1] by {}
    }
}

fn find_platform(manifests: &Vec<Descriptor>, wanted: &Platform) -> (r: Option<usize>)
    ensures
        match r {
            Some(i) => i < manifests@.len() && platform_index(
                types::descriptors_view(manifests@),
                wanted@,
            ) == Some(i as int),
            None => platform_index(types::descriptors_view(manifests@), wanted@) is None,
        },
{
    let ghost all = types::descriptors_view(manifests@);
    let mut i: usize = 0;
    assert(all.skip(0) =~= all);
    while i < manifests.len()
        invariant
            i <= manifests@.len(),
            all == types::descriptors_view(manifests@),
            platform_index(all, wanted@) == match platform_index(all.skip(i as int), wanted@) {
                Some(k) => Some(k + i),
                None => None::<int>,
            },
        decreases manifests@.len() - i,
    {
        assert(all.skip(i as int)[0] == all[i as int]);
        assert(all.skip(i as int).skip(1) =~= all.skip(i + 1));
        if let Some(candidate) = &manifests[i].platform {
            if wanted.matches(candidate) {
                return Some(i);
            }
        }
        i += 1;
    }
    None
}

/// How far resolving has come.
#[derive(Debug)]
pub enum ResolveState {
    /// The manifest of the reference is being fetched.
    Fetching,
    /// A manifest was fetched; its kind is being found out. The digest and the media type are
    /// those of its headers.
    Examining { digest: Option<String>, media_type: String },
    /// The manifest is that of an image and is being decoded.
    DecodingManifest { digest: Option<String> },
    /// The manifest is a list and is being decoded.
    DecodingIndex,
    /// The manifest for the platform is being fetched.
    FetchingChild { descriptor: Descriptor },
    /// The manifest for the platform is being decoded.
    DecodingChild { descriptor: Descriptor },
    /// The image is resolved, or resolving failed.
    Ended,
}

/// How far resolving has come, as text.
pub enum ResolveStateView {
    Fetching,
    Examining { digest: Option<Seq<char>>, media_type: Seq<char> },
    DecodingManifest { digest: Option<Seq<char>> },
    DecodingIndex,
    FetchingChild { descriptor: DescriptorView },
    DecodingChild { descriptor: DescriptorView },
    Ended,
}

impl View for ResolveState {
    type V = ResolveStateView;

    open spec fn view(&self) -> ResolveStateView {
        match self {
            ResolveState::Fetching => ResolveStateView::Fetching,
            ResolveState::Examining { digest, media_type } => ResolveStateView::Examining {
                digest: text::opt_string(*digest),
                media_type: media_type@,
            },
            ResolveState::DecodingManifest { digest } => ResolveStateView::DecodingManifest {
                digest: text::opt_string(*digest),
            },
            ResolveState::DecodingIndex => ResolveStateView::DecodingIndex,
            ResolveState::FetchingChild { descriptor } => ResolveStateView::FetchingChild {
                descriptor: descriptor@,
            },
            ResolveState::DecodingChild { descriptor } => ResolveStateView::DecodingChild {
                descriptor: descriptor@,
            },
            ResolveState::Ended => ResolveStateView::Ended,
        }
    }
}

/// What resolving does next.
#[derive(Debug)]
pub enum ResolveAction {
    /// Decode the envelope of the manifest.
    DecodeEnvelope,
    /// Decode the manifest as that of an image.
    DecodeManifest,
    /// Decode the manifest as a list.
    DecodeIndex,
    /// Fetch the manifest with the digest.
    FetchDigest(String),
    /// The image is resolved.
    Done(ResolvedImage),
    /// Resolving failed.
    Fail(DockerPullError),
}

/// What resolving does next, as text.
pub enum ResolveActionView {
    DecodeEnvelope,
    DecodeManifest,
    DecodeIndex,
    FetchDigest(Seq<char>),
    Done(ResolvedView),
    Fail(ErrorView),
}

impl View for ResolveAction {
    type V = ResolveActionView;

    open spec fn view(&self) -> ResolveActionView {
        match self {
            ResolveAction::DecodeEnvelope => ResolveActionView::DecodeEnvelope,
            ResolveAction::DecodeManifest => ResolveActionView::DecodeManifest,
            ResolveAction::DecodeIndex => ResolveActionView::DecodeIndex,
            ResolveAction::FetchDigest(digest) => ResolveActionView::FetchDigest(digest@),
            ResolveAction::Done(image) => ResolveActionView::Done(image@),
            ResolveAction::Fail(e) => ResolveActionView::Fail(e@),
        }
    }
}

/// The next state and action of resolving.
pub type ResolveStep = (ResolveStateView, ResolveActionView);

/// Resolving that failed.
pub open spec fn failed(e: ErrorView) -> ResolveStep {
    (ResolveStateView::Ended, ResolveActionView::Fail(e))
}

/// A header, where there is one: its text, or why it is none.
pub type Header = Option<std::result::Result<String, String>>;

/// A header, where there is one, as text.
pub open spec fn header_view(
    header: Header,
) -> Option<std::result::Result<Seq<char>, Seq<char>>> {
    match header {
        None => None,
        Some(Ok(value)) => Some(Ok(value@)),
        Some(Err(message)) => Some(Err(message@)),
    }
}

/// The step after a manifest was fetched. Only the first manifest is known by the digest in its
/// header.
pub open spec fn response_step(
    state: ResolveStateView,
    code: u16,
    status: Seq<char>,
    digest: Option<std::result::Result<Seq<char>, Seq<char>>>,
    content_type: Option<Seq<char>>,
) -> ResolveStep {
    match state {
        ResolveStateView::Fetching => match client::manifest_status_error(
            code,
            status,
            "manifest"@,
        ) {
            Some(e) => failed(e),
            None => match digest {
                Some(Err(message)) => failed(ErrorView::Header(message)),
                _ => (
                    ResolveStateView::Examining {
                        digest: match digest {
                            Some(Ok(value)) => Some(value),
                            _ => None,
                        },
                        media_type: client::media_type_view(content_type),
                    },
                    ResolveActionView::DecodeEnvelope,
                ),
            },
        },
        ResolveStateView::FetchingChild { descriptor } => match client::manifest_status_error(
            code,
            status,
            "manifest "@ + descriptor.digest,
        ) {
            Some(e) => failed(e),
            None => (
                ResolveStateView::DecodingChild { descriptor },
                ResolveActionView::DecodeManifest,
            ),
        },
        _ => failed(ErrorView::BadResponse("unexpected manifest response"@)),
    }
}

/// The step after the envelope of a manifest was decoded: a header that names a media type wins
/// over the manifest, and the media type says how to go on.
pub open spec fn envelope_step(
    state: ResolveStateView,
    schema_version: u32,
    own_type: Seq<char>,
) -> ResolveStep {
    match state {
        ResolveStateView::Examining { digest, media_type } => {
            let kind = if media_type.len() == 0 {
                own_type
            } else {
                media_type
            };
            if schema_version != 2 {
                failed(
                    ErrorView::BadResponse(
                        "unsupported schemaVersion "@ + text::decimal_view(schema_version as nat),
                    ),
                )
            } else if is_manifest_type(kind) {
                (
                    ResolveStateView::DecodingManifest { digest },
                    ResolveActionView::DecodeManifest,
                )
            } else if is_index_type(kind) {
                (ResolveStateView::DecodingIndex, ResolveActionView::DecodeIndex)
            } else {
                failed(ErrorView::UnsupportedMediaType(kind))
            }
        },
        _ => failed(ErrorView::BadResponse("unexpected manifest response"@)),
    }
}

/// The descriptor of the manifest of a reference.
pub open spec fn own_descriptor(
    digest: Option<Seq<char>>,
    own_type: Seq<char>,
    body: Seq<u8>,
    wanted: PlatformView,
) -> DescriptorView {
    DescriptorView {
        media_type: own_type,
        digest: match digest {
            Some(d) => d,
            None => digest::canonical_digest(body),
        },
        size: body.len() as i64,
        platform: Some(wanted),
        annotations: None,
    }
}

/// The descriptor of a manifest that a list names: what the list leaves open is filled in.
pub open spec fn child_descriptor(
    listed: DescriptorView,
    own_type: Seq<char>,
    body: Seq<u8>,
) -> DescriptorView {
    DescriptorView {
        media_type: if listed.media_type.len() == 0 {
            own_type
        } else {
            listed.media_type
        },
        digest: listed.digest,
        size: if listed.size == 0 {
            body.len() as i64
        } else {
            listed.size
        },
        platform: listed.platform,
        annotations: listed.annotations,
    }
}

/// The step after the manifest of an image was decoded.
pub open spec fn manifest_step(
    state: ResolveStateView,
    own_type: Seq<char>,
    config: DescriptorView,
    layers: Seq<DescriptorView>,
    body: Seq<u8>,
    wanted: PlatformView,
) -> ResolveStep {
    match state {
        ResolveStateView::DecodingManifest { digest } => (
            ResolveStateView::Ended,
            ResolveActionView::Done(
                ResolvedView {
                    manifest: own_descriptor(digest, own_type, body, wanted),
                    manifest_bytes: body,
                    config,
                    layers,
                },
            ),
        ),
        ResolveStateView::DecodingChild { descriptor } => (
            ResolveStateView::Ended,
            ResolveActionView::Done(
                ResolvedView {
                    manifest: child_descriptor(descriptor, own_type, body),
                    manifest_bytes: body,
                    config,
                    layers,
                },
            ),
        ),
        _ => failed(ErrorView::BadResponse("unexpected manifest response"@)),
    }
}

/// The image that a decoded manifest resolves to is the one that the manifest describes, whether it
/// is that of the reference or was named by a list: its configuration and its layers are those of
/// the manifest, in their order, and its bytes are those that were fetched.
pub proof fn law_a_resolved_image_is_that_of_its_manifest(
    state: ResolveStateView,
    own_type: Seq<char>,
    config: DescriptorView,
    layers: Seq<DescriptorView>,
    body: Seq<u8>,
    wanted: PlatformView,
)
    ensures
        ({
            let (next, action) = manifest_step(state, own_type, config, layers, body, wanted);
            &&& next is Ended
            &&& action is Done <==> state is DecodingManifest || state is DecodingChild
            &&& !(action is Done) ==> action is Fail
            &&& action matches ResolveActionView::Done(image) ==> {
                &&& image.config == config
                &&& image.layers == layers
                &&& image.manifest_bytes == body
            }
        }),
{
}

/// The step after a list of manifests was decoded: the first one for the platform is fetched.
pub open spec fn index_step(
    state: ResolveStateView,
    manifests: Seq<DescriptorView>,
    wanted: PlatformView,
) -> ResolveStep {
    match state {
        ResolveStateView::DecodingIndex => match platform_index(manifests, wanted) {
            Some(i) => (
                ResolveStateView::FetchingChild { descriptor: manifests[i] },
                ResolveActionView::FetchDigest(manifests[i].digest),
            ),
            None => failed(ErrorView::PlatformNotFound(wanted.text())),
        },
        _ => failed(ErrorView::BadResponse("unexpected manifest response"@)),
    }
}

fn fail(state: &mut ResolveState, e: DockerPullError) -> (action: ResolveAction)
    ensures
        (final(state)@, action@) == failed(e@),
{
    *state = ResolveState::Ended;
    ResolveAction::Fail(e)
}

fn unexpected(state: &mut ResolveState) -> (action: ResolveAction)
    ensures
        (final(state)@, action@) == failed(ErrorView::BadResponse("unexpected manifest response"@)),
{
    fail(state, DockerPullError::BadResponse("unexpected manifest response".to_owned()))
}

/// Takes the state out, and leaves the end in its place.
fn take_state(state: &mut ResolveState) -> (taken: ResolveState)
    ensures
        taken@ == old(state)@,
        final(state)@ == ResolveStateView::Ended,
{
    let mut taken = ResolveState::Ended;
    std::mem::swap(state, &mut taken);
    taken
}

/// The state in which the manifest of the reference is to be fetched.
pub fn start_resolving() -> (state: ResolveState)
    ensures
        state@ == ResolveStateView::Fetching,
{
    ResolveState::Fetching
}

/// Goes on after a manifest was fetched.
pub fn on_manifest_response(
    state: &mut ResolveState,
    status: &Status,
    digest: Header,
    content_type: Option<&str>,
) -> (action: ResolveAction)
    ensures
        (final(state)@, action@) == response_step(
            old(state)@,
            status.code,
            status.text@,
            header_view(digest),
            text::opt_view(content_type),
        ),
{
    match take_state(state) {
        ResolveState::Fetching => match ensure_manifest_status(status, "manifest") {
            Err(e) => fail(state, e),
            Ok(_) => {
                let media_type = content_media_type(content_type);
                let digest = match digest {
                    None => None,
                    Some(Ok(value)) => Some(value),
                    Some(Err(message)) => return fail(state, DockerPullError::Header(message)),
                };
                *state = ResolveState::Examining { digest, media_type };
                ResolveAction::DecodeEnvelope
            },
        },
        ResolveState::FetchingChild { descriptor } => {
            let resource = concat2("manifest ", descriptor.digest.as_str());
            match ensure_manifest_status(status, resource.as_str()) {
                Err(e) => fail(state, e),
                Ok(_) => {
                    *state = ResolveState::DecodingChild { descriptor };
                    ResolveAction::DecodeManifest
                },
            }
        },
        _ => unexpected(state),
    }
}

/// Goes on after the envelope of a manifest was decoded.
pub fn on_envelope(state: &mut ResolveState, envelope: ManifestEnvelope) -> (action: ResolveAction)
    ensures
        (final(state)@, action@) == envelope_step(
            old(state)@,
            envelope.schema_version,
            envelope.media_type@,
        ),
{
    match take_state(state) {
        ResolveState::Examining { digest, media_type } => {
            if envelope.schema_version != 2 {
                return fail(
                    state,
                    DockerPullError::BadResponse(
                        concat2(
                            "unsupported schemaVersion ",
                            text::decimal(envelope.schema_version as u64).as_str(),
                        ),
                    ),
                );
            }
            let kind = if media_type.as_str().is_empty() {
                envelope.media_type
            } else {
                media_type
            };
            if is_image_manifest(kind.as_str()) {
                *state = ResolveState::DecodingManifest { digest };
                ResolveAction::DecodeManifest
            } else if is_image_index(kind.as_str()) {
                *state = ResolveState::DecodingIndex;
                ResolveAction::DecodeIndex
            } else {
                fail(state, DockerPullError::UnsupportedMediaType(kind))
            }
        },
        _ => unexpected(state),
    }
}

/// Goes on after the manifest of an image was decoded.
pub fn on_manifest(
    state: &mut ResolveState,
    manifest: ImageManifest,
    body: Vec<u8>,
    wanted: &Platform,
) -> (action: ResolveAction)
    ensures
        (final(state)@, action@) == manifest_step(
            old(state)@,
            manifest.media_type@,
            manifest.config@,
            types::descriptors_view(manifest.layers@),
            body@,
            wanted@,
        ),
{
    let size: i64 = body.len() as i64;
    match take_state(state) {
        ResolveState::DecodingManifest { digest } => {
            let digest = match digest {
                Some(d) => d,
                None => canonical_digest_bytes(body.as_slice()),
            };
            let descriptor = Descriptor {
                media_type: manifest.media_type,
                digest,
                size,
                platform: Some(wanted.copy()),
                annotations: None,
            };
            ResolveAction::Done(
                ResolvedImage {
                    manifest: descriptor,
                    manifest_bytes: body,
                    config: manifest.config,
                    layers: manifest.layers,
                },
            )
        },
        ResolveState::DecodingChild { descriptor: listed } => {
            let media_type = if listed.media_type.as_str().is_empty() {
                manifest.media_type
            } else {
                listed.media_type
            };
            let descriptor = Descriptor {
                media_type,
                digest: listed.digest,
                size: if listed.size == 0 {
                    size
                } else {
                    listed.size
                },
                platform: listed.platform,
                annotations: listed.annotations,
            };
            ResolveAction::Done(
                ResolvedImage {
                    manifest: descriptor,
                    manifest_bytes: body,
                    config: manifest.config,
                    layers: manifest.layers,
                },
            )
        },
        _ => unexpected(state),
    }
}

/// Goes on after a list of manifests was decoded.
pub fn on_index(state: &mut ResolveState, index: ImageIndex, wanted: &Platform) -> (action:
    ResolveAction)
    ensures
        (final(state)@, action@) == index_step(
            old(state)@,
            types::descriptors_view(index.manifests@),
            wanted@,
        ),
{
    match take_state(state) {
        ResolveState::DecodingIndex => match find_platform(&index.manifests, wanted) {
            Some(i) => {
                let descriptor = index.manifests[i].copy();
                let digest = descriptor.digest.clone();
                *state = ResolveState::FetchingChild { descriptor };
                ResolveAction::FetchDigest(digest)
            },
            None => fail(state, DockerPullError::PlatformNotFound(wanted.as_string())),
        },
        _ => unexpected(state),
    }
}

/// The manifest of an image resolves to the image: it goes by the digest in its header, and without
/// one by the hash of its bytes, and its size is theirs.
pub proof fn law_an_image_manifest_is_resolved(
    code: u16,
    status: Seq<char>,
    digest: Option<Seq<char>>,
    content_type: Seq<char>,
    envelope_type: Seq<char>,
    own_type: Seq<char>,
    config: DescriptorView,
    layers: Seq<DescriptorView>,
    body: Seq<u8>,
    wanted: PlatformView,
)
    requires
        200 <= code < 300,
        body.len() <= i64::MAX,
        ({
            let sent = client::media_type_view(Some(content_type));
            let kind = if sent.len() == 0 {
                envelope_type
            } else {
                sent
            };
            kind == "application/vnd.oci.image.manifest.v1+json"@ || kind
                == "application/vnd.docker.distribution.manifest.v2+json"@
        }),
    ensures
        ({
            let header = match digest {
                Some(d) => Some(Ok(d)),
                None => None,
            };
            let fetched = response_step(
                ResolveStateView::Fetching,
                code,
                status,
                header,
                Some(content_type),
            );
            let examined = envelope_step(fetched.0, 2, envelope_type);
            let done = manifest_step(examined.0, own_type, config, layers, body, wanted);
            &&& fetched.1 is DecodeEnvelope
            &&& examined.1 is DecodeManifest
            &&& done.1 is Done
            &&& done.1->Done_0.manifest.digest == match digest {
                Some(d) => d,
                None => digest::canonical_digest(body),
            }
            &&& done.1->Done_0.manifest.size == body.len()
            &&& done.1->Done_0.manifest.media_type == own_type
            &&& done.1->Done_0.manifest.platform == Some(wanted)
            &&& done.1->Done_0.manifest.annotations is None
            &&& done.1->Done_0.config == config
            &&& done.1->Done_0.layers == layers
            &&& done.1->Done_0.manifest_bytes == body
        }),
{
}

/// A list of manifests resolves to the image of the first manifest for the platform, which is
/// fetched by its digest and goes by it. Where no manifest is for the platform, resolving fails.
pub proof fn law_a_list_is_resolved_by_platform(
    manifests: Seq<DescriptorView>,
    wanted: PlatformView,
    i: int,
    code: u16,
    status: Seq<char>,
    header: Option<std::result::Result<Seq<char>, Seq<char>>>,
    content_type: Option<Seq<char>>,
    own_type: Seq<char>,
    config: DescriptorView,
    layers: Seq<DescriptorView>,
    body: Seq<u8>,
)
    requires
        200 <= code < 300,
        body.len() <= i64::MAX,
        0 <= i <= manifests.len(),
        forall|j: int|
            0 <= j < i ==> !((#[trigger] manifests[j]).platform matches Some(p) && wanted.accepts(
                p,
            )),
        i < manifests.len() ==> (manifests[i].platform matches Some(p) && wanted.accepts(p)),
    ensures
        ({
            let chosen = index_step(ResolveStateView::DecodingIndex, manifests, wanted);
            let fetched = response_step(chosen.0, code, status, header, content_type);
            let done = manifest_step(fetched.0, own_type, config, layers, body, wanted);
            if i == manifests.len() {
                chosen.1 == ResolveActionView::Fail(ErrorView::PlatformNotFound(wanted.text()))
            } else {
                &&& chosen.1 == ResolveActionView::FetchDigest(manifests[i].digest)
                &&& fetched.1 is DecodeManifest
                &&& done.1 is Done
                &&& done.1->Done_0.manifest.digest == manifests[i].digest
                &&& done.1->Done_0.manifest.platform == manifests[i].platform
                &&& done.1->Done_0.manifest.annotations == manifests[i].annotations
                &&& done.1->Done_0.manifest.size == if manifests[i].size == 0 {
                    body.len() as int
                } else {
                    manifests[i].size as int
                }
                &&& done.1->Done_0.manifest.media_type == if manifests[i].media_type.len() == 0 {
                    own_type
                } else {
                    manifests[i].media_type
                }
                &&& done.1->Done_0.config == config
                &&& done.1->Done_0.layers == layers
                &&& done.1->Done_0.manifest_bytes == body
            }
        }),
{
    law_first_matching_platform_is_chosen(manifests, wanted);
}

/// A manifest that is not there, that the registry refuses, whose digest cannot be read, whose
/// version is another or whose type is unknown is not resolved.
pub proof fn law_what_is_no_manifest_is_not_resolved(
    code: u16,
    status: Seq<char>,
    header: Option<std::result::Result<Seq<char>, Seq<char>>>,
    content_type: Option<Seq<char>>,
    digest: Option<Seq<char>>,
    media_type: Seq<char>,
    schema_version: u32,
    own_type: Seq<char>,
)
    ensures
        ({
            let fetched = response_step(
                ResolveStateView::Fetching,
                code,
                status,
                header,
                content_type,
            ).1;
            let examined = envelope_step(
                ResolveStateView::Examining { digest, media_type },
                schema_version,
                own_type,
            );
            &&& code == 404 ==> fetched == ResolveActionView::Fail(ErrorView::ManifestNotFound)
            &&& !(200 <= code < 300) ==> fetched is Fail
            &&& 200 <= code < 300 && !(header matches Some(Err(_))) ==> fetched is DecodeEnvelope
            &&& 200 <= code < 300 ==> (header matches Some(Err(message)) ==> fetched
                == ResolveActionView::Fail(ErrorView::Header(message)))
            &&& schema_version != 2 ==> examined.1 is Fail
            &&& examined.1 is Fail ==> examined.0 is Ended
            &&& schema_version == 2 && media_type.len() > 0 && (media_type
                == "application/vnd.oci.image.index.v1+json"@ || media_type
                == "application/vnd.docker.distribution.manifest.list.v2+json"@) && media_type
                != "application/vnd.oci.image.manifest.v1+json"@ && media_type
                != "application/vnd.docker.distribution.manifest.v2+json"@ ==> examined == (
                ResolveStateView::DecodingIndex,
                ResolveActionView::DecodeIndex,
            )
            &&& examined.1 is DecodeManifest || examined.1 is DecodeIndex || examined.1 is Fail
        }),
{
}

} // verus!
