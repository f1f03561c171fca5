//! Exporting an image as an archive: which files it holds, under which names.
use vstd::prelude::*;

use crate::digest::{self, canonical_digest, canonical_digest_bytes, digest_hex, parse_digest};
use crate::error::{concat3, invalid_input, DockerPullError, ErrorView, Result};
use crate::reference::{self, ImageReference, ReferenceTarget, ReferenceView, TargetView};
use crate::registry::types::{
    descriptors_view, insert_pair, pairs_view, with_pair, Descriptor,
    DescriptorView,
};
use crate::serve_registry::server::OCI_IMAGE_MANIFEST_MEDIA_TYPE;
use crate::store::{Store, StoredReference, StoredReferenceView};
use crate::text::{self, texts};

verus! {

/// The type of a layer that is not compressed.
pub const OCI_LAYER_TAR_MEDIA_TYPE: &'static str = "application/vnd.oci.image.layer.v1.tar";

/// The version of the layout of an archive.
pub const IMAGE_LAYOUT_VERSION: &'static str = "1.0.0";

/// The annotation that holds the tag of an image.
pub const REF_NAME_ANNOTATION: &'static str = "org.opencontainers.image.ref.name";

/// The manifest of an image in an archive.
#[derive(Debug)]
pub struct OciManifest {
    pub schema_version: u32,
    pub media_type: String,
    pub config: Descriptor,
    pub layers: Vec<Descriptor>,
}

/// The manifest of an image in an archive, as text.
pub struct OciManifestView {
    pub schema_version: u32,
    pub media_type: Seq<char>,
    pub config: DescriptorView,
    pub layers: Seq<DescriptorView>,
}

impl View for OciManifest {
    type V = OciManifestView;

    open spec fn view(&self) -> OciManifestView {
        OciManifestView {
            schema_version: self.schema_version,
            media_type: self.media_type@,
            config: self.config@,
            layers: descriptors_view(self.layers@),
        }
    }
}

/// The path of a blob in an archive.
pub open spec fn blob_member(digest: Seq<char>) -> std::result::Result<Seq<char>, ErrorView> {
    match digest::parsed(digest) {
        Err(e) => Err(e),
        Ok((algorithm, value)) => Ok("blobs/"@ + algorithm.name_view() + "/"@ + value),
    }
}

/// The path of a blob in an archive.
pub fn blob_tar_path(digest: &str) -> (r: Result<String>)
    ensures
        blob_member(digest@) == match r {
            Ok(path) => Ok(path@),
            Err(e) => Err(e@),
        },
{
    match parse_digest(digest) {
        Err(e) => Err(e),
        Ok(parsed) => {
            let mut path = concat3("blobs/", parsed.algorithm.name(), "/");
            path.append(parsed.value);
            Ok(path)
        },
    }
}

/// The names under which docker knows an image: its display name where it has a tag.
pub fn docker_repo_tags(reference: &ImageReference) -> (tags: Vec<String>)
    ensures
        texts(tags@) == repo_tags_view(reference@),
{
    let mut tags: Vec<String> = Vec::new();
    match &reference.target {
        ReferenceTarget::Tag(_) => {
            tags.push(reference.display_name());
        },
        ReferenceTarget::Digest(_) => {},
    }
    assert(texts(tags@) =~= repo_tags_view(reference@));
    tags
}

/// The names under which docker knows an image.
pub open spec fn repo_tags_view(reference: ReferenceView) -> Seq<Seq<char>> {
    match reference.target {
        TargetView::Tag(_) => seq![reference.display()],
        TargetView::Digest(_) => seq![],
    }
}

/// The tag of an image, where it has one.
pub open spec fn ref_name(reference: ReferenceView) -> Option<Seq<char>> {
    match reference.target {
        TargetView::Tag(tag) => Some(tag),
        TargetView::Digest(_) => None,
    }
}

/// The tag of an image, where it has one.
pub fn oci_ref_name(reference: &ImageReference) -> (r: Option<String>)
    ensures
        text::opt_string(r) == ref_name(reference@),
{
    match &reference.target {
        ReferenceTarget::Tag(tag) => Some(tag.clone()),
        ReferenceTarget::Digest(_) => None,
    }
}

/// The name, the tag and the identifier of an image.
#[derive(Debug)]
pub struct RepositoryEntry {
    pub image: String,
    pub tag: String,
    pub image_id: String,
}

/// The name, the tag and the identifier of an image, as text.
pub struct RepositoryEntryView {
    pub image: Seq<char>,
    pub tag: Seq<char>,
    pub image_id: Seq<char>,
}

impl View for RepositoryEntry {
    type V = RepositoryEntryView;

    open spec fn view(&self) -> RepositoryEntryView {
        RepositoryEntryView { image: self.image@, tag: self.tag@, image_id: self.image_id@ }
    }
}

/// What docker is told of the repository of an image: nothing where the image has no tag.
pub open spec fn repositories_view(
    reference: ReferenceView,
    config_digest: Seq<char>,
) -> std::result::Result<Option<RepositoryEntryView>, ErrorView> {
    match reference.target {
        TargetView::Digest(_) => Ok(None),
        TargetView::Tag(_) => match text::rsplit_once_view(reference.display(), ':') {
            None => Err(
                ErrorView::InvalidInput(
                    "invalid display reference `"@ + reference.display() + "`"@,
                ),
            ),
            Some((image, tag)) => match digest::parsed(config_digest) {
                Err(e) => Err(e),
                Ok((_, value)) => Ok(Some(RepositoryEntryView { image, tag, image_id: value })),
            },
        },
    }
}

/// Says what docker is told of the repository of an image.
pub fn docker_repositories(reference: &ImageReference, config_digest: &str) -> (r: Result<
    Option<RepositoryEntry>,
>)
    ensures
        repositories_view(reference@, config_digest@) == match r {
            Ok(Some(entry)) => Ok(Some(entry@)),
            Ok(None) => Ok(None),
            Err(e) => Err(e@),
        },
{
    match &reference.target {
        ReferenceTarget::Digest(_) => Ok(None),
        ReferenceTarget::Tag(_) => {
            let shown = reference.display_name();
            match text::rsplit_once(shown.as_str(), ':') {
                None => Err(invalid_input("invalid display reference `", shown.as_str(), "`")),
                Some((image, tag)) => match digest_hex(config_digest) {
                    Err(e) => Err(e),
                    Ok(value) => Ok(
                        Some(
                            RepositoryEntry {
                                image: image.to_owned(),
                                tag: tag.to_owned(),
                                image_id: value.to_owned(),
                            },
                        ),
                    ),
                },
            }
        },
    }
}

/// What is there of a layer.
#[derive(Debug)]
pub struct LayerFile {
    /// Whether the layer is stored.
    pub stored: bool,
    /// The file of the unpacked layer and its size, where the daemon gave one.
    pub fallback: Option<(String, i64)>,
}

/// What is there of a layer, as text.
pub struct LayerFileView {
    pub stored: bool,
    pub fallback: Option<(Seq<char>, i64)>,
}

impl View for LayerFile {
    type V = LayerFileView;

    open spec fn view(&self) -> LayerFileView {
        LayerFileView {
            stored: self.stored,
            fallback: match self.fallback {
                Some((path, size)) => Some((path@, size)),
                None => None,
            },
        }
    }
}

/// The files of layers, as text.
pub open spec fn layer_files_view(files: Seq<LayerFile>) -> Seq<LayerFileView> {
    files.map_values(|f: LayerFile| f@)
}

/// A layer in an archive: what the manifest says of it, the file that it is read from, and its
/// path in the archive.
#[derive(Debug)]
pub struct LayerArchiveSource {
    pub descriptor: Descriptor,
    pub source_path: String,
    pub archive_path: String,
}

/// A layer in an archive, as text.
pub struct LayerSourceView {
    pub descriptor: DescriptorView,
    pub source_path: Seq<char>,
    pub archive_path: Seq<char>,
}

impl View for LayerArchiveSource {
    type V = LayerSourceView;

    open spec fn view(&self) -> LayerSourceView {
        LayerSourceView {
            descriptor: self.descriptor@,
            source_path: self.source_path@,
            archive_path: self.archive_path@,
        }
    }
}

/// The layers in an archive, as text.
pub open spec fn sources_view(sources: Seq<LayerArchiveSource>) -> Seq<LayerSourceView> {
    sources.map_values(|s: LayerArchiveSource| s@)
}

/// A layer in an archive: the stored one where there is one, and otherwise the unpacked one, which
/// goes by its unpacked digest.
pub open spec fn layer_source_view(
    store: Store,
    descriptor: DescriptorView,
    diff_id: Seq<char>,
    file: LayerFileView,
) -> std::result::Result<LayerSourceView, ErrorView> {
    match store.blob_file(descriptor.digest) {
        Err(e) => Err(e),
        Ok(blob) => if file.stored {
            match blob_member(descriptor.digest) {
                Err(e) => Err(e),
                Ok(archive_path) => Ok(
                    LayerSourceView { descriptor, source_path: blob, archive_path },
                ),
            }
        } else {
            match file.fallback {
                None => Err(ErrorView::MissingBlobFile(descriptor.digest, blob)),
                Some((path, size)) => match blob_member(diff_id) {
                    Err(e) => Err(e),
                    Ok(archive_path) => Ok(
                        LayerSourceView {
                            descriptor: DescriptorView {
                                media_type: OCI_LAYER_TAR_MEDIA_TYPE@,
                                digest: diff_id,
                                size,
                                platform: None,
                                annotations: None,
                            },
                            source_path: path,
                            archive_path,
                        },
                    ),
                },
            }
        },
    }
}

/// Decides where a layer of an archive comes from.
pub fn layer_archive_source(
    store: &Store,
    descriptor: &Descriptor,
    diff_id: &str,
    file: &LayerFile,
) -> (r: Result<LayerArchiveSource>)
    ensures
        layer_source_view(*store, descriptor@, diff_id@, file@) == match r {
            Ok(source) => Ok(source@),
            Err(e) => Err(e@),
        },
{
    let blob = match store.blob_path(descriptor.digest.as_str()) {
        Err(e) => {
            return Err(e);
        },
        Ok(blob) => blob,
    };
    if file.stored {
        return match blob_tar_path(descriptor.digest.as_str()) {
            Err(e) => Err(e),
            Ok(archive_path) => Ok(
                LayerArchiveSource {
                    descriptor: descriptor.copy(),
                    source_path: blob,
                    archive_path,
                },
            ),
        };
    }
    match &file.fallback {
        None => Err(DockerPullError::MissingBlobFile(descriptor.digest.clone(), blob)),
        Some((path, size)) => match blob_tar_path(diff_id) {
            Err(e) => Err(e),
            Ok(archive_path) => Ok(
                LayerArchiveSource {
                    descriptor: Descriptor {
                        media_type: OCI_LAYER_TAR_MEDIA_TYPE.to_owned(),
                        digest: diff_id.to_owned(),
                        size: *size,
                        platform: None,
                        annotations: None,
                    },
                    source_path: path.clone(),
                    archive_path,
                },
            ),
        },
    }
}

/// The layers of an archive from place `from` on, or the first error.
pub open spec fn layer_sources_view(
    store: Store,
    layers: Seq<DescriptorView>,
    diff_ids: Seq<Seq<char>>,
    files: Seq<LayerFileView>,
    from: int,
) -> std::result::Result<Seq<LayerSourceView>, ErrorView>
    decreases layers.len() - from,
{
    if from < 0 || from >= layers.len() {
        Ok(seq![])
    } else {
        match layer_source_view(store, layers[from], diff_ids[from], files[from]) {
            Err(e) => Err(e),
            Ok(source) => match layer_sources_view(store, layers, diff_ids, files, from + 1) {
                Err(e) => Err(e),
                Ok(rest) => Ok(seq![source] + rest),
            },
        }
    }
}

/// Decides where the layers of an archive come from.
pub fn layer_sources(
    store: &Store,
    layers: &Vec<Descriptor>,
    diff_ids: &Vec<String>,
    files: &Vec<LayerFile>,
) -> (r: Result<Vec<LayerArchiveSource>>)
    requires
        layers@.len() == diff_ids@.len(),
        layers@.len() == files@.len(),
    ensures
        layer_sources_view(
            *store,
            descriptors_view(layers@),
            texts(diff_ids@),
            layer_files_view(files@),
            0,
        ) == match r {
            Ok(sources) => Ok(sources_view(sources@)),
            Err(e) => Err(e@),
        },
{
    let ghost ds = descriptors_view(layers@);
    let ghost ids = texts(diff_ids@);
    let ghost fs = layer_files_view(files@);
    let ghost goal = layer_sources_view(*store, ds, ids, fs, 0);
    let mut out: Vec<LayerArchiveSource> = Vec::new();
    proof {
        match goal {
            Ok(all) => assert(sources_view(out@) + all =~= all),
            Err(_) => {},
        }
    }
    let mut i: usize = 0;
    while i < layers.len()
        invariant
            i <= layers@.len(),
            layers@.len() == diff_ids@.len(),
            layers@.len() == files@.len(),
            ds == descriptors_view(layers@),
            ids == texts(diff_ids@),
            fs == layer_files_view(files@),
            goal == layer_sources_view(*store, ds, ids, fs, 0),
            goal == match layer_sources_view(*store, ds, ids, fs, i as int) {
                Ok(rest) => Ok::<_, ErrorView>(sources_view(out@) + rest),
                Err(e) => Err(e),
            },
        decreases layers@.len() - i,
    {
        assert(ds[i as int] == layers@[i as int]@);
        assert(ids[i as int] == diff_ids@[i as int]@);
        assert(fs[i as int] == files@[i as int]@);
        match layer_archive_source(store, &layers[i], diff_ids[i].as_str(), &files[i]) {
            Err(e) => {
                return Err(e);
            },
            Ok(source) => {
                let ghost before = out@;
                out.push(source);
                proof {
                    assert(sources_view(out@) =~= sources_view(before).push(source@));
                    match layer_sources_view(*store, ds, ids, fs, i + 1) {
                        Ok(rest) => assert(sources_view(out@) + rest =~= sources_view(before) + (
                        seq![source@] + rest)),
                        Err(_) => {},
                    }
                }
            },
        }
        i += 1;
    }
    assert(sources_view(out@) + Seq::<LayerSourceView>::empty() =~= sources_view(out@));
    Ok(out)
}

/// The unpacked digests of the layers from place `from` on that are not stored, or the first
/// digest that cannot be read.
pub open spec fn missing_view(
    store: Store,
    layers: Seq<DescriptorView>,
    diff_ids: Seq<Seq<char>>,
    stored: Seq<bool>,
    from: int,
) -> std::result::Result<Seq<Seq<char>>, ErrorView>
    decreases layers.len() - from,
{
    if from < 0 || from >= layers.len() {
        Ok(seq![])
    } else {
        match store.blob_file(layers[from].digest) {
            Err(e) => Err(e),
            Ok(_) => match missing_view(store, layers, diff_ids, stored, from + 1) {
                Err(e) => Err(e),
                Ok(rest) => Ok(
                    if stored[from] {
                        rest
                    } else {
                        seq![diff_ids[from]] + rest
                    },
                ),
            },
        }
    }
}

/// Lists the unpacked digests of the layers that are not stored. There must be as many unpacked
/// digests as layers. `stored` tells for each layer whether it is.
pub fn missing_layers(
    store: &Store,
    layers: &Vec<Descriptor>,
    diff_ids: &Vec<String>,
    stored: &Vec<bool>,
) -> (r: Result<Vec<String>>)
    requires
        stored@.len() == layers@.len(),
    ensures
        if layers@.len() != diff_ids@.len() {
            r matches Err(e) && e@ == ErrorView::BadResponse(
                "config diff_ids count "@ + text::decimal_view(diff_ids@.len())
                    + " does not match manifest layers count "@ + text::decimal_view(
                    layers@.len(),
                ),
            )
        } else {
            missing_view(*store, descriptors_view(layers@), texts(diff_ids@), stored@, 0)
                == match r {
                Ok(missing) => Ok(texts(missing@)),
                Err(e) => Err(e@),
            }
        },
{
    if diff_ids.len() != layers.len() {
        let mut m = "config diff_ids count ".to_owned();
        m.append(text::decimal(diff_ids.len() as u64).as_str());
        m.append(" does not match manifest layers count ");
        m.append(text::decimal(layers.len() as u64).as_str());
        return Err(DockerPullError::BadResponse(m));
    }
    let ghost ds = descriptors_view(layers@);
    let ghost ids = texts(diff_ids@);
    let ghost goal = missing_view(*store, ds, ids, stored@, 0);
    let mut missing: Vec<String> = Vec::new();
    proof {
        match goal {
            Ok(all) => assert(texts(missing@) + all =~= all),
            Err(_) => {},
        }
    }
    let mut i: usize = 0;
    while i < layers.len()
        invariant
            i <= layers@.len(),
            layers@.len() == diff_ids@.len(),
            stored@.len() == layers@.len(),
            ds == descriptors_view(layers@),
            ids == texts(diff_ids@),
            goal == missing_view(*store, ds, ids, stored@, 0),
            goal == match missing_view(*store, ds, ids, stored@, i as int) {
                Ok(rest) => Ok::<_, ErrorView>(texts(missing@) + rest),
                Err(e) => Err(e),
            },
        decreases layers@.len() - i,
    {
        assert(ds[i as int] == layers@[i as int]@);
        assert(ids[i as int] == diff_ids@[i as int]@);
        match store.blob_path(layers[i].digest.as_str()) {
            Err(e) => {
                return Err(e);
            },
            Ok(_) => {
                if !stored[i] {
                    let ghost before = missing@;
                    missing.push(diff_ids[i].clone());
                    proof {
                        assert(texts(missing@) =~= texts(before).push(ids[i as int]));
                        match missing_view(*store, ds, ids, stored@, i + 1) {
                            Ok(rest) => assert(texts(missing@) + rest =~= texts(before) + (
                            seq![ids[i as int]] + rest)),
                            Err(_) => {},
                        }
                    }
                }
            },
        }
        i += 1;
    }
    assert(texts(missing@) + Seq::<Seq<char>>::empty() =~= texts(missing@));
    Ok(missing)
}

/// The type of a manifest in an archive: what the manifest says, else what its descriptor says,
/// else the usual one.
pub open spec fn manifest_type(manifest: Seq<char>, descriptor: Seq<char>) -> Seq<char> {
    if manifest.len() != 0 {
        manifest
    } else if descriptor.len() != 0 {
        descriptor
    } else {
        OCI_IMAGE_MANIFEST_MEDIA_TYPE@
    }
}

/// The type of a manifest in an archive.
pub fn resolved_manifest_media_type(
    manifest: &OciManifest,
    manifest_descriptor: &Descriptor,
) -> (s: String)
    ensures
        s@ == manifest_type(manifest@.media_type, manifest_descriptor@.media_type),
{
    if manifest.media_type.as_str().unicode_len() != 0 {
        manifest.media_type.clone()
    } else if manifest_descriptor.media_type.as_str().unicode_len() != 0 {
        manifest_descriptor.media_type.clone()
    } else {
        OCI_IMAGE_MANIFEST_MEDIA_TYPE.to_owned()
    }
}

/// The manifest that is written to an archive: that of the image, with the layers as they are in
/// the archive.
pub open spec fn archive_manifest_view(
    manifest: OciManifestView,
    sources: Seq<LayerSourceView>,
    descriptor: DescriptorView,
) -> OciManifestView {
    OciManifestView {
        schema_version: manifest.schema_version,
        media_type: manifest_type(manifest.media_type, descriptor.media_type),
        config: manifest.config,
        layers: sources.map_values(|s: LayerSourceView| s.descriptor),
    }
}

/// Makes the manifest that is written to an archive.
pub fn archive_manifest(
    manifest: &OciManifest,
    sources: &Vec<LayerArchiveSource>,
    manifest_descriptor: &Descriptor,
) -> (m: OciManifest)
    ensures
        m@ == archive_manifest_view(manifest@, sources_view(sources@), manifest_descriptor@),
{
    let ghost goal = sources_view(sources@).map_values(|s: LayerSourceView| s.descriptor);
    let mut layers: Vec<Descriptor> = Vec::new();
    let mut i: usize = 0;
    while i < sources.len()
        invariant
            i <= sources@.len(),
            goal == sources_view(sources@).map_values(|s: LayerSourceView| s.descriptor),
            descriptors_view(layers@) == goal.take(i as int),
        decreases sources@.len() - i,
    {
        let ghost before = layers@;
        let descriptor = sources[i].descriptor.copy();
        layers.push(descriptor);
        assert(descriptors_view(layers@) =~= descriptors_view(before).push(descriptor@));
        assert(goal.take(i + 1) =~= goal.take(i as int).push(descriptor@));
        i += 1;
    }
    assert(goal.take(i as int) =~= goal);
    OciManifest {
        schema_version: manifest.schema_version,
        media_type: resolved_manifest_media_type(manifest, manifest_descriptor),
        config: manifest.config.copy(),
        layers,
    }
}

/// The description of the manifest of an archive: its digest and its size are those of its bytes,
/// and its tag stands in an annotation.
pub open spec fn index_descriptor(
    descriptor: DescriptorView,
    media_type: Seq<char>,
    bytes: Seq<u8>,
    reference: ReferenceView,
) -> DescriptorView {
    DescriptorView {
        media_type: if descriptor.media_type.len() == 0 {
            media_type
        } else {
            descriptor.media_type
        },
        digest: canonical_digest(bytes),
        size: bytes.len() as i64,
        platform: descriptor.platform,
        annotations: match ref_name(reference) {
            None => descriptor.annotations,
            Some(tag) => Some(
                with_pair(
                    match descriptor.annotations {
                        Some(pairs) => pairs,
                        None => seq![],
                    },
                    REF_NAME_ANNOTATION@,
                    tag,
                ),
            ),
        },
    }
}

/// Describes the manifest of an archive.
pub fn archive_descriptor(
    descriptor: &Descriptor,
    media_type: &str,
    bytes: &[u8],
    reference: &ImageReference,
) -> (d: Descriptor)
    ensures
        d@ == index_descriptor(descriptor@, media_type@, bytes@, reference@),
{
    let mut d = descriptor.copy();
    d.digest = canonical_digest_bytes(bytes);
    d.size = bytes.len() as i64;
    if d.media_type.as_str().unicode_len() == 0 {
        d.media_type = media_type.to_owned();
    }
    if let Some(tag) = oci_ref_name(reference) {
        let ghost annotations = descriptor@.annotations;
        let pairs = match &descriptor.annotations {
            Some(pairs) => insert_pair(pairs, REF_NAME_ANNOTATION, tag.as_str()),
            None => {
                let none: Vec<(String, String)> = Vec::new();
                assert(pairs_view(none@) =~= seq![]);
                insert_pair(&none, REF_NAME_ANNOTATION, tag.as_str())
            },
        };
        d.annotations = Some(pairs);
    }
    d
}

/// A member of an archive.
#[derive(Debug)]
pub enum ArchiveEntry {
    /// The version of the layout.
    Layout,
    /// The list of manifests, with the one of the image.
    Index(Descriptor),
    /// Bytes under a path.
    Bytes { path: String, bytes: Vec<u8> },
    /// A file under a path.
    File { source: String, path: String },
    /// What docker reads of the image.
    DockerManifest { config: String, repo_tags: Vec<String>, layers: Vec<String> },
    /// What docker reads of the repository.
    Repositories(RepositoryEntry),
}

/// A member of an archive, as text.
pub enum EntryView {
    Layout,
    Index(DescriptorView),
    Bytes { path: Seq<char>, bytes: Seq<u8> },
    File { source: Seq<char>, path: Seq<char> },
    DockerManifest { config: Seq<char>, repo_tags: Seq<Seq<char>>, layers: Seq<Seq<char>> },
    Repositories(RepositoryEntryView),
}

impl View for ArchiveEntry {
    type V = EntryView;

    open spec fn view(&self) -> EntryView {
        match self {
            ArchiveEntry::Layout => EntryView::Layout,
            ArchiveEntry::Index(descriptor) => EntryView::Index(descriptor@),
            ArchiveEntry::Bytes { path, bytes } => EntryView::Bytes { path: path@, bytes: bytes@ },
            ArchiveEntry::File { source, path } => EntryView::File {
                source: source@,
                path: path@,
            },
            ArchiveEntry::DockerManifest { config, repo_tags, layers } =>
                EntryView::DockerManifest {
                    config: config@,
                    repo_tags: texts(repo_tags@),
                    layers: texts(layers@),
                },
            ArchiveEntry::Repositories(entry) => EntryView::Repositories(entry@),
        }
    }
}

/// The members of an archive, as text.
pub open spec fn entries_view(entries: Seq<ArchiveEntry>) -> Seq<EntryView> {
    entries.map_values(|e: ArchiveEntry| e@)
}

/// The member that tells docker of a repository, where there is one.
pub open spec fn repository_members(entry: Option<RepositoryEntry>) -> Seq<EntryView> {
    match entry {
        Some(e) => seq![EntryView::Repositories(e@)],
        None => seq![],
    }
}

/// The files of the layers.
pub open spec fn layer_entries(sources: Seq<LayerSourceView>) -> Seq<EntryView> {
    sources.map_values(
        |s: LayerSourceView| EntryView::File { source: s.source_path, path: s.archive_path },
    )
}

/// The paths of the layers.
pub open spec fn layer_paths(sources: Seq<LayerSourceView>) -> Seq<Seq<char>> {
    sources.map_values(|s: LayerSourceView| s.archive_path)
}

/// The members of an archive in the order in which they are written, or why there is none.
pub open spec fn archive_view(
    store: Store,
    stored: StoredReferenceView,
    media_type: Seq<char>,
    bytes: Seq<u8>,
    sources: Seq<LayerSourceView>,
    config_stored: bool,
) -> std::result::Result<Seq<EntryView>, ErrorView> {
    match blob_member(stored.config_digest) {
        Err(e) => Err(e),
        Ok(config) => match reference::parsed(stored.reference) {
            Err(e) => Err(e),
            Ok(image) => match (
                blob_member(canonical_digest(bytes)),
                store.blob_file(stored.config_digest),
            ) {
                (Err(e), _) => Err(e),
                (Ok(_), Err(e)) => Err(e),
                (Ok(manifest_path), Ok(config_file)) => if !config_stored {
                    Err(ErrorView::MissingBlobFile(stored.config_digest, config_file))
                } else {
                    match repositories_view(image, stored.config_digest) {
                        Err(e) => Err(e),
                        Ok(repositories) => Ok(
                            seq![
                                EntryView::Layout,
                                EntryView::Index(
                                    index_descriptor(stored.manifest, media_type, bytes, image),
                                ),
                                EntryView::Bytes { path: manifest_path, bytes },
                                EntryView::File { source: config_file, path: config },
                                EntryView::DockerManifest {
                                    config,
                                    repo_tags: repo_tags_view(image),
                                    layers: layer_paths(sources),
                                },
                            ] + (match repositories {
                                Some(entry) => seq![EntryView::Repositories(entry)],
                                None => seq![],
                            }) + layer_entries(sources),
                        ),
                    }
                },
            },
        },
    }
}

/// Lists the members of an archive in the order in which they are written. `bytes` are those of
/// the manifest, whose type is `media_type`, and `config_stored` tells whether the configuration
/// is stored.
pub fn archive_entries(
    store: &Store,
    stored: &StoredReference,
    media_type: &str,
    bytes: &[u8],
    sources: &Vec<LayerArchiveSource>,
    config_stored: bool,
) -> (r: Result<Vec<ArchiveEntry>>)
    ensures
        archive_view(
            *store,
            stored@,
            media_type@,
            bytes@,
            sources_view(sources@),
            config_stored,
        ) == match r {
            Ok(entries) => Ok(entries_view(entries@)),
            Err(e) => Err(e@),
        },
{
    let config = match blob_tar_path(stored.config_digest.as_str()) {
        Err(e) => {
            return Err(e);
        },
        Ok(config) => config,
    };
    let image = match ImageReference::parse(stored.reference.as_str()) {
        Err(e) => {
            return Err(e);
        },
        Ok(image) => image,
    };
    let descriptor = archive_descriptor(&stored.manifest, media_type, bytes, &image);
    let manifest_path = match blob_tar_path(descriptor.digest.as_str()) {
        Err(e) => {
            return Err(e);
        },
        Ok(path) => path,
    };
    let config_file = match store.blob_path(stored.config_digest.as_str()) {
        Err(e) => {
            return Err(e);
        },
        Ok(file) => file,
    };
    if !config_stored {
        return Err(DockerPullError::MissingBlobFile(stored.config_digest.clone(), config_file));
    }
    let repositories = match docker_repositories(&image, stored.config_digest.as_str()) {
        Err(e) => {
            return Err(e);
        },
        Ok(repositories) => repositories,
    };
    let ghost all = sources_view(sources@);
    let ghost paths = layer_paths(all);
    let ghost members = layer_entries(all);
    let mut layers: Vec<String> = Vec::new();
    let mut i: usize = 0;
    while i < sources.len()
        invariant
            i <= sources@.len(),
            all == sources_view(sources@),
            paths == layer_paths(all),
            texts(layers@) == paths.take(i as int),
        decreases sources@.len() - i,
    {
        let ghost before = layers@;
        layers.push(sources[i].archive_path.clone());
        assert(texts(layers@) =~= texts(before).push(sources@[i as int].archive_path@));
        assert(paths.take(i + 1) =~= paths.take(i as int).push(
            sources@[i as int].archive_path@,
        ));
        i += 1;
    }
    assert(paths.take(i as int) =~= paths);
    let mut entries: Vec<ArchiveEntry> = Vec::new();
    entries.push(ArchiveEntry::Layout);
    entries.push(ArchiveEntry::Index(descriptor));
    let manifest_bytes = vstd::slice::slice_to_vec(bytes);
    entries.push(ArchiveEntry::Bytes { path: manifest_path, bytes: manifest_bytes });
    entries.push(ArchiveEntry::File { source: config_file, path: config.clone() });
    entries.push(
        ArchiveEntry::DockerManifest { config, repo_tags: docker_repo_tags(&image), layers },
    );
    let ghost first = seq![
        EntryView::Layout,
        EntryView::Index(index_descriptor(stored.manifest@, media_type@, bytes@, image@)),
        EntryView::Bytes { path: manifest_path@, bytes: bytes@ },
        EntryView::File { source: config_file@, path: config@ },
        EntryView::DockerManifest {
            config: config@,
            repo_tags: repo_tags_view(image@),
            layers: paths,
        },
    ];
    assert(entries_view(entries@) =~= first);
    let ghost second = repository_members(repositories);
    if let Some(entry) = repositories {
        entries.push(ArchiveEntry::Repositories(entry));
    }
    assert(entries_view(entries@) =~= first + second + members.take(0));
    let mut j: usize = 0;
    while j < sources.len()
        invariant
            j <= sources@.len(),
            all == sources_view(sources@),
            members == layer_entries(all),
            entries_view(entries@) == first + second + members.take(j as int),
        decreases sources@.len() - j,
    {
        let ghost before = entries@;
        let entry = ArchiveEntry::File {
            source: sources[j].source_path.clone(),
            path: sources[j].archive_path.clone(),
        };
        entries.push(entry);
        assert(members[j as int] == entry@);
        assert(entries_view(entries@) =~= entries_view(before).push(entry@));
        assert(members.take(j + 1) =~= members.take(j as int).push(entry@));
        assert(entries_view(entries@) =~= first + second + members.take(j + 1));
        j += 1;
    }
    assert(members.take(j as int) =~= members);
    Ok(entries)
}

/// An archive is whole: it holds the manifest that its index names, under the digest of its bytes,
/// the configuration, and every layer that its manifest names, under the digest by which it names
/// it.
pub proof fn law_an_archive_is_whole(
    store: Store,
    stored: StoredReferenceView,
    manifest: OciManifestView,
    layers: Seq<DescriptorView>,
    diff_ids: Seq<Seq<char>>,
    files: Seq<LayerFileView>,
    bytes: Seq<u8>,
    i: int,
)
    requires
        layers.len() == diff_ids.len(),
        layers.len() == files.len(),
        layer_sources_view(store, layers, diff_ids, files, 0) is Ok,
        ({
            let sources = layer_sources_view(store, layers, diff_ids, files, 0)->Ok_0;
            archive_view(
                store,
                stored,
                archive_manifest_view(manifest, sources, stored.manifest).media_type,
                bytes,
                sources,
                true,
            ) is Ok
        }),
        0 <= i < layers.len(),
    ensures
        ({
            let sources = layer_sources_view(store, layers, diff_ids, files, 0)->Ok_0;
            let written = archive_manifest_view(manifest, sources, stored.manifest);
            let entries = archive_view(
                store,
                stored,
                written.media_type,
                bytes,
                sources,
                true,
            )->Ok_0;
            &&& written.layers.len() == layers.len()
            &&& blob_member(written.layers[i].digest) is Ok
            &&& entries.contains(
                EntryView::File {
                    source: sources[i].source_path,
                    path: blob_member(written.layers[i].digest)->Ok_0,
                },
            )
            &&& entries[1] is Index
            &&& entries[1]->Index_0.digest == canonical_digest(bytes)
            &&& blob_member(canonical_digest(bytes)) is Ok
            &&& entries.contains(
                EntryView::Bytes { path: blob_member(canonical_digest(bytes))->Ok_0, bytes },
            )
        }),
{
    let sources = layer_sources_view(store, layers, diff_ids, files, 0)->Ok_0;
    let written = archive_manifest_view(manifest, sources, stored.manifest);
    let entries = archive_view(store, stored, written.media_type, bytes, sources, true)->Ok_0;
    lemma_sources(store, layers, diff_ids, files, 0, i);
    let members = layer_entries(sources);
    let at = entries.len() - members.len() + i;
    assert(entries[at] == members[i]);
    assert(entries[2] is Bytes);
}

/// Docker finds in an archive what it is told of: it is told of the image once, of as many layers
/// as the image has, in their order, and of its configuration, each by the path of a member of the
/// archive that is read from the file of just that layer or configuration.
pub proof fn law_docker_finds_what_it_is_told_of(
    store: Store,
    stored: StoredReferenceView,
    manifest: OciManifestView,
    layers: Seq<DescriptorView>,
    diff_ids: Seq<Seq<char>>,
    files: Seq<LayerFileView>,
    bytes: Seq<u8>,
    told: int,
    i: int,
)
    requires
        layers.len() == diff_ids.len(),
        layers.len() == files.len(),
        layer_sources_view(store, layers, diff_ids, files, 0) is Ok,
        ({
            let sources = layer_sources_view(store, layers, diff_ids, files, 0)->Ok_0;
            let written = archive_manifest_view(manifest, sources, stored.manifest);
            let entries = archive_view(store, stored, written.media_type, bytes, sources, true);
            entries is Ok && 0 <= told < entries->Ok_0.len() && entries->Ok_0[told]
                is DockerManifest
        }),
    ensures
        ({
            let sources = layer_sources_view(store, layers, diff_ids, files, 0)->Ok_0;
            let written = archive_manifest_view(manifest, sources, stored.manifest);
            let entries = archive_view(
                store,
                stored,
                written.media_type,
                bytes,
                sources,
                true,
            )->Ok_0;
            let paths = entries[told]->layers;
            let config = entries[told]->config;
            &&& paths.len() == layers.len()
            &&& 0 <= i < layers.len() ==> {
                &&& blob_member(written.layers[i].digest) == Ok::<_, ErrorView>(paths[i])
                &&& written.layers[i].digest == if files[i].stored {
                    layers[i].digest
                } else {
                    diff_ids[i]
                }
                &&& files[i].stored ==> written.layers[i] == layers[i] && store.blob_file(
                    layers[i].digest,
                ) is Ok && entries.contains(
                    EntryView::File {
                        source: store.blob_file(layers[i].digest)->Ok_0,
                        path: paths[i],
                    },
                )
                &&& !files[i].stored ==> files[i].fallback is Some && written.layers[i].size
                    == files[i].fallback->Some_0.1 && entries.contains(
                    EntryView::File { source: files[i].fallback->Some_0.0, path: paths[i] },
                )
            }
            &&& written.config == manifest.config
            &&& blob_member(stored.config_digest) == Ok::<_, ErrorView>(config)
            &&& store.blob_file(stored.config_digest) is Ok
            &&& entries.contains(
                EntryView::File {
                    source: store.blob_file(stored.config_digest)->Ok_0,
                    path: config,
                },
            )
            &&& forall|k: int|
                0 <= k < entries.len() && k != told ==> !(#[trigger] entries[k] is DockerManifest)
        }),
{
    let sources = layer_sources_view(store, layers, diff_ids, files, 0)->Ok_0;
    let written = archive_manifest_view(manifest, sources, stored.manifest);
    let entries = archive_view(store, stored, written.media_type, bytes, sources, true)->Ok_0;
    let members = layer_entries(sources);
    let start = entries.len() - members.len();
    assert forall|k: int| start <= k < entries.len() implies #[trigger] entries[k] == members[k
        - start] by {}
    assert(entries[4] is DockerManifest);
    lemma_source_count(store, layers, diff_ids, files, 0);
    assert(entries[3] is File);
    if 0 <= i < layers.len() {
        lemma_sources(store, layers, diff_ids, files, 0, i);
        lemma_source_of(store, layers, diff_ids, files, 0, i);
        assert(entries[start + i] == members[i]);
    }
}

/// Docker is told of an image for every archive, and of its name where it has a tag; the annotation
/// of the index names the tag, and its platform is that of the image.
pub proof fn law_docker_is_told_the_name_of_an_image(
    store: Store,
    stored: StoredReferenceView,
    media_type: Seq<char>,
    bytes: Seq<u8>,
    sources: Seq<LayerSourceView>,
    config_stored: bool,
)
    ensures
        ({
            let entries = archive_view(store, stored, media_type, bytes, sources, config_stored);
            let image = reference::parsed(stored.reference);
            &&& entries is Ok ==> config_stored && image is Ok
            &&& entries matches Ok(list) ==> list.len() >= 5 + sources.len()
            &&& entries matches Ok(list) ==> exists|told: int|
                0 <= told < list.len() && #[trigger] list[told] is DockerManifest && (
                match image->Ok_0.target {
                    TargetView::Tag(_) => list[told]->repo_tags == seq![image->Ok_0.display()],
                    TargetView::Digest(_) => list[told]->repo_tags.len() == 0,
                })
            &&& entries matches Ok(list) ==> list.contains(EntryView::Layout)
        }),
{
    let entries = archive_view(store, stored, media_type, bytes, sources, config_stored);
    if let Ok(list) = entries {
        assert(list[0] is Layout);
        assert(list[4] is DockerManifest);
    }
}

/// An archive is refused only for its digests, its reference, a configuration that is not stored
/// or a name that docker cannot be told.
pub proof fn law_a_readable_image_has_an_archive(
    store: Store,
    stored: StoredReferenceView,
    media_type: Seq<char>,
    bytes: Seq<u8>,
    sources: Seq<LayerSourceView>,
)
    requires
        digest::is_digest(stored.config_digest),
        digest::is_digest(canonical_digest(bytes)),
        reference::parsed(stored.reference) is Ok,
        repositories_view(
            reference::parsed(stored.reference)->Ok_0,
            stored.config_digest,
        ) is Ok,
    ensures
        archive_view(store, stored, media_type, bytes, sources, true) is Ok,
        archive_view(store, stored, media_type, bytes, sources, false) is Err,
{
}

/// The source of a layer is the stored file where there is one, and otherwise the unpacked file.
proof fn lemma_source_of(
    store: Store,
    layers: Seq<DescriptorView>,
    diff_ids: Seq<Seq<char>>,
    files: Seq<LayerFileView>,
    from: int,
    i: int,
)
    requires
        0 <= from <= i < layers.len(),
        layer_sources_view(store, layers, diff_ids, files, from) is Ok,
    ensures
        layer_source_view(store, layers[i], diff_ids[i], files[i]) == Ok::<_, ErrorView>(
            layer_sources_view(store, layers, diff_ids, files, from)->Ok_0[i - from],
        ),
    decreases i - from,
{
    if from < i {
        lemma_source_of(store, layers, diff_ids, files, from + 1, i);
        lemma_source_count(store, layers, diff_ids, files, from + 1);
        let rest = layer_sources_view(store, layers, diff_ids, files, from + 1)->Ok_0;
        let sources = layer_sources_view(store, layers, diff_ids, files, from)->Ok_0;
        assert(sources[i - from] == rest[i - (from + 1)]);
    }
}

/// Each layer has a source, whose path in the archive is that of its digest.
proof fn lemma_sources(
    store: Store,
    layers: Seq<DescriptorView>,
    diff_ids: Seq<Seq<char>>,
    files: Seq<LayerFileView>,
    from: int,
    i: int,
)
    requires
        0 <= from <= i < layers.len(),
        layer_sources_view(store, layers, diff_ids, files, from) is Ok,
    ensures
        ({
            let sources = layer_sources_view(store, layers, diff_ids, files, from)->Ok_0;
            &&& sources.len() == layers.len() - from
            &&& blob_member(sources[i - from].descriptor.digest) == Ok::<_, ErrorView>(
                sources[i - from].archive_path,
            )
        }),
    decreases layers.len() - from,
{
    let sources = layer_sources_view(store, layers, diff_ids, files, from)->Ok_0;
    if from < i {
        lemma_sources(store, layers, diff_ids, files, from + 1, i);
        let rest = layer_sources_view(store, layers, diff_ids, files, from + 1)->Ok_0;
        assert(sources[i - from] == rest[i - (from + 1)]);
    } else {
        lemma_source_count(store, layers, diff_ids, files, from);
    }
}

/// There are as many sources as layers.
proof fn lemma_source_count(
    store: Store,
    layers: Seq<DescriptorView>,
    diff_ids: Seq<Seq<char>>,
    files: Seq<LayerFileView>,
    from: int,
)
    requires
        0 <= from <= layers.len(),
        layer_sources_view(store, layers, diff_ids, files, from) is Ok,
    ensures
        layer_sources_view(store, layers, diff_ids, files, from)->Ok_0.len() == layers.len() - from,
    decreases layers.len() - from,
{
    if from < layers.len() {
        lemma_source_count(store, layers, diff_ids, files, from + 1);
    }
}

} // verus!
