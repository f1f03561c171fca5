//! The cache on disk: where things lie in it, and when they are complete.
use vstd::prelude::*;

use crate::digest::{self, DigestRun};
use crate::docker::api::bytes_of;
use crate::error::{concat2, concat3, DockerPullError, ErrorView, Result};
use crate::json::{self, Json, JsonView};
use crate::path::{self, HostFamily};
use crate::registry::types::{Descriptor, DescriptorView};
use crate::text::{self, texts};

verus! {

/// An image in the cache: the name that it was pulled by, its manifest and its configuration.
#[derive(Debug)]
pub struct StoredReference {
    pub reference: String,
    pub manifest: Descriptor,
    pub config_digest: String,
}

/// An image in the cache, as text.
pub struct StoredReferenceView {
    pub reference: Seq<char>,
    pub manifest: DescriptorView,
    pub config_digest: Seq<char>,
}

impl View for StoredReference {
    type V = StoredReferenceView;

    open spec fn view(&self) -> StoredReferenceView {
        StoredReferenceView {
            reference: self.reference@,
            manifest: self.manifest@,
            config_digest: self.config_digest@,
        }
    }
}

/// Where a download goes on.
#[derive(Debug)]
pub struct DownloadPlan {
    pub durable_offset: u64,
    pub partial_path: String,
}

/// What was deleted from the cache.
#[derive(Debug)]
pub struct ClearedCache {
    pub files: Vec<ClearedCacheFile>,
    pub reclaimed_bytes: u64,
}

/// A file that was deleted from the cache.
#[derive(Debug, PartialEq, Eq)]
pub struct ClearedCacheFile {
    pub path: String,
    pub size: u64,
}

/// A file that was deleted from the cache, as text.
pub struct ClearedFileView {
    pub path: Seq<char>,
    pub size: u64,
}

impl View for ClearedCacheFile {
    type V = ClearedFileView;

    open spec fn view(&self) -> ClearedFileView {
        ClearedFileView { path: self.path@, size: self.size }
    }
}

/// The files of a list, as text.
pub open spec fn files_view(files: Seq<ClearedCacheFile>) -> Seq<ClearedFileView> {
    files.map_values(|f: ClearedCacheFile| f@)
}

/// The place of a digest below a directory: a directory for its algorithm, and its value.
pub open spec fn digest_file(
    family: HostFamily,
    root: Seq<char>,
    digest: Seq<char>,
) -> std::result::Result<Seq<char>, ErrorView> {
    match digest::parsed(digest) {
        Err(e) => Err(e),
        Ok((algorithm, value)) => Ok(
            path::join_view(
                family,
                path::join_view(family, root, algorithm.name_view()),
                value,
            ),
        ),
    }
}

/// A place with an ending, or why there is no such place.
pub open spec fn with_ending(
    place: std::result::Result<Seq<char>, ErrorView>,
    ending: Seq<char>,
) -> std::result::Result<Seq<char>, ErrorView> {
    match place {
        Ok(p) => Ok(p + ending),
        Err(e) => Err(e),
    }
}

/// Finds the place of a digest below a directory.
fn digest_path(family: HostFamily, root: &str, digest: &str) -> (r: Result<String>)
    ensures
        digest_file(family, root@, digest@) == match r {
            Ok(p) => Ok(p@),
            Err(e) => Err(e@),
        },
{
    match digest::parse_digest(digest) {
        Err(e) => Err(e),
        Ok(parsed) => {
            let directory = path::join(family, root, parsed.algorithm.name());
            Ok(path::join(family, directory.as_str(), parsed.value))
        },
    }
}

/// The name under which a reference is kept: the hash of its text.
pub fn reference_key(reference: &str) -> (key: String)
    ensures
        key@ == digest::hex_view(digest::sha256_of(bytes_of(reference@))),
{
    digest::sha256_hex(reference.as_bytes())
}

/// The names of references are fit for a file system: hexadecimal digits and nothing else.
pub proof fn law_reference_keys_are_plain(reference: Seq<char>)
    ensures
        digest::all_lower_hex(digest::hex_view(digest::sha256_of(bytes_of(reference)))),
{
    digest::lemma_hex_is_lower(digest::sha256_of(bytes_of(reference)));
}

/// A cache below a directory.
#[derive(Debug, Clone)]
pub struct Store {
    root: String,
    family: HostFamily,
}

impl Store {
    /// The directory of the cache.
    pub closed spec fn dir(self) -> Seq<char> {
        self.root@
    }

    /// The kind of system that the cache is on.
    pub closed spec fn family(self) -> HostFamily {
        self.family
    }

    /// The cache below a directory.
    pub fn new(root: &str, family: HostFamily) -> (store: Store)
        ensures
            store.dir() == root@,
            store.family() == family,
    {
        Store { root: root.to_owned(), family }
    }

    /// The directory of the cache.
    pub fn root(&self) -> (root: &str)
        ensures
            root@ == self.dir(),
    {
        self.root.as_str()
    }

    /// The file of a complete blob.
    pub open spec fn blob_file(self, digest: Seq<char>) -> std::result::Result<
        Seq<char>,
        ErrorView,
    > {
        digest_file(self.family(), path::join_view(self.family(), self.dir(), "blobs"@), digest)
    }

    /// The place of a partial blob.
    pub open spec fn partial_place(self, digest: Seq<char>) -> std::result::Result<
        Seq<char>,
        ErrorView,
    > {
        digest_file(self.family(), path::join_view(self.family(), self.dir(), "partials"@), digest)
    }

    /// The file of a reference.
    pub open spec fn reference_file(self, reference: Seq<char>) -> Seq<char> {
        path::join_view(
            self.family(),
            path::join_view(self.family(), self.dir(), "references"@),
            digest::hex_view(digest::sha256_of(bytes_of(reference))) + ".json"@,
        )
    }

    /// The file of a complete blob.
    pub fn blob_path(&self, digest: &str) -> (r: Result<String>)
        ensures
            self.blob_file(digest@) == match r {
                Ok(p) => Ok(p@),
                Err(e) => Err(e@),
            },
    {
        let directory = path::join(self.family, self.root.as_str(), "blobs");
        digest_path(self.family, directory.as_str(), digest)
    }

    /// The file of a partial blob.
    pub fn partial_path(&self, digest: &str) -> (r: Result<String>)
        ensures
            with_ending(self.partial_place(digest@), ".part"@) == match r {
                Ok(p) => Ok(p@),
                Err(e) => Err(e@),
            },
    {
        let directory = path::join(self.family, self.root.as_str(), "partials");
        match digest_path(self.family, directory.as_str(), digest) {
            Ok(p) => Ok(concat2(p.as_str(), ".part")),
            Err(e) => Err(e),
        }
    }

    /// The file that tells how far a partial blob has come.
    pub fn partial_metadata_path(&self, digest: &str) -> (r: Result<String>)
        ensures
            with_ending(self.partial_place(digest@), ".json"@) == match r {
                Ok(p) => Ok(p@),
                Err(e) => Err(e@),
            },
    {
        let directory = path::join(self.family, self.root.as_str(), "partials");
        match digest_path(self.family, directory.as_str(), digest) {
            Ok(p) => Ok(concat2(p.as_str(), ".json")),
            Err(e) => Err(e),
        }
    }

    /// The file of a reference.
    pub fn reference_path(&self, reference: &str) -> (p: String)
        ensures
            p@ == self.reference_file(reference@),
    {
        let directory = path::join(self.family, self.root.as_str(), "references");
        let name = concat2(reference_key(reference).as_str(), ".json");
        path::join(self.family, directory.as_str(), name.as_str())
    }

    /// The file that processes lock.
    pub fn lock_path(&self) -> (p: String)
        ensures
            p@ == path::join_view(self.family(), self.dir(), ".lock"@),
    {
        path::join(self.family, self.root.as_str(), ".lock")
    }

    /// The place of the lock of a blob.
    pub open spec fn lock_place(self, digest: Seq<char>) -> std::result::Result<
        Seq<char>,
        ErrorView,
    > {
        digest_file(self.family(), path::join_view(self.family(), self.dir(), "locks"@), digest)
    }

    /// The file that processes lock while they download a blob.
    pub fn blob_lock_path(&self, digest: &str) -> (r: Result<String>)
        ensures
            with_ending(self.lock_place(digest@), ".lock"@) == match r {
                Ok(p) => Ok(p@),
                Err(e) => Err(e@),
            },
    {
        let directory = path::join(self.family, self.root.as_str(), "locks");
        match digest_path(self.family, directory.as_str(), digest) {
            Ok(p) => Ok(concat2(p.as_str(), ".lock")),
            Err(e) => Err(e),
        }
    }

    /// The directories of a cache.
    pub open spec fn directories(self) -> Seq<Seq<char>> {
        let blobs = path::join_view(self.family(), self.dir(), "blobs"@);
        let partials = path::join_view(self.family(), self.dir(), "partials"@);
        seq![
            path::join_view(self.family(), blobs, "sha256"@),
            path::join_view(self.family(), partials, "sha256"@),
            path::join_view(self.family(), blobs, "sha384"@),
            path::join_view(self.family(), partials, "sha384"@),
            path::join_view(self.family(), blobs, "sha512"@),
            path::join_view(self.family(), partials, "sha512"@),
            path::join_view(self.family(), self.dir(), "references"@),
        ]
    }

    /// Lists the directories that a cache has: two for each algorithm, and one for references.
    pub fn layout(&self) -> (list: Vec<String>)
        ensures
            texts(list@) == self.directories(),
    {
        let blobs = path::join(self.family, self.root.as_str(), "blobs");
        let partials = path::join(self.family, self.root.as_str(), "partials");
        let mut list: Vec<String> = Vec::new();
        list.push(path::join(self.family, blobs.as_str(), "sha256"));
        list.push(path::join(self.family, partials.as_str(), "sha256"));
        list.push(path::join(self.family, blobs.as_str(), "sha384"));
        list.push(path::join(self.family, partials.as_str(), "sha384"));
        list.push(path::join(self.family, blobs.as_str(), "sha512"));
        list.push(path::join(self.family, partials.as_str(), "sha512"));
        list.push(path::join(self.family, self.root.as_str(), "references"));
        assert(texts(list@) =~= self.directories());
        list
    }
}

/// What is there of a blob.
#[derive(Debug, Clone, Copy, PartialEq, Eq, Structural)]
pub enum BlobCheck {
    /// There is no file.
    Missing,
    /// The file is not the blob and is removed.
    Remove,
    /// The digest of the file has to be checked.
    CheckDigest,
    /// The file is the blob.
    Complete,
}

impl BlobCheck {
    /// Whether the blob is there.
    pub fn is_complete(self) -> (r: bool)
        ensures
            r == (self == BlobCheck::Complete),
    {
        match self {
            BlobCheck::Complete => true,
            _ => false,
        }
    }
}

/// What the size of its file tells of a blob.
pub open spec fn size_check(found: Option<u64>, expected_size: u64) -> BlobCheck {
    match found {
        None => BlobCheck::Missing,
        Some(size) => if size == expected_size {
            BlobCheck::CheckDigest
        } else {
            BlobCheck::Remove
        },
    }
}

/// What the digest of its file tells of a blob.
pub open spec fn digest_check(digest: Seq<char>, read: Seq<char>) -> BlobCheck {
    if read == digest {
        BlobCheck::Complete
    } else {
        BlobCheck::Remove
    }
}

/// Decides from its size what is there of a blob.
pub fn check_blob_size(found: Option<u64>, expected_size: u64) -> (r: BlobCheck)
    ensures
        r == size_check(found, expected_size),
{
    match found {
        None => BlobCheck::Missing,
        Some(size) => {
            if size == expected_size {
                BlobCheck::CheckDigest
            } else {
                BlobCheck::Remove
            }
        },
    }
}

/// Decides from the bytes of its file, which were all fed to the run, what is there of a blob.
pub fn check_blob_digest(digest: &str, read: DigestRun) -> (r: BlobCheck)
    ensures
        r == digest_check(digest@, read.digest()),
{
    if text::same(read.finish().as_str(), digest) {
        BlobCheck::Complete
    } else {
        BlobCheck::Remove
    }
}

/// A blob is reused only where its file has the size and the hash that it should have.
pub proof fn law_only_a_whole_blob_is_reused(
    digest: Seq<char>,
    expected_size: u64,
    size: u64,
    read: DigestRun,
)
    requires
        read.fed().len() == size,
        digest::parsed(digest) is Ok,
        read.algorithm() == digest::parsed(digest)->Ok_0.0,
    ensures
        size_check(Some(size), expected_size) == BlobCheck::CheckDigest && digest_check(
            digest,
            read.digest(),
        ) == BlobCheck::Complete <==> read.fed().len() == expected_size
            && digest::parsed(digest)->Ok_0.1 == digest::hex_view(
            read.algorithm().hash_of(read.fed()),
        ),
{
    digest::lemma_digest_of_hash(digest, read.algorithm().hash_of(read.fed()));
}

/// The error for content with another digest than it should have.
pub open spec fn mismatch(expected: Seq<char>, actual: Seq<char>) -> ErrorView {
    ErrorView::DigestMismatch { expected, actual }
}

/// What is wrong with bytes that should be a blob.
pub open spec fn bytes_error(descriptor: DescriptorView, bytes: Seq<u8>) -> Option<ErrorView> {
    if descriptor.size < 0 {
        Some(descriptor.size_error())
    } else if bytes.len() != descriptor.size {
        Some(
            ErrorView::BadResponse(
                "blob "@ + descriptor.digest + " size mismatch: expected "@ + text::decimal_view(
                    descriptor.size as nat,
                ) + ", got "@ + text::decimal_view(bytes.len()),
            ),
        )
    } else {
        match digest::parsed(descriptor.digest) {
            Err(e) => Some(e),
            Ok((algorithm, _)) => {
                let actual = algorithm.digest_view(digest::hex_view(algorithm.hash_of(bytes)));
                if actual != descriptor.digest {
                    Some(mismatch(descriptor.digest, actual))
                } else {
                    None
                }
            },
        }
    }
}

/// Checks that bytes are a blob: that they have its size and its digest.
pub fn check_blob_bytes(descriptor: &Descriptor, bytes: &[u8]) -> (r: Result<()>)
    ensures
        bytes_error(descriptor@, bytes@) == match r {
            Ok(()) => None,
            Err(e) => Some(e@),
        },
{
    let expected_size = match descriptor.expected_size() {
        Err(e) => {
            return Err(e);
        },
        Ok(size) => size,
    };
    if bytes.len() as u64 != expected_size {
        let mut m = concat3("blob ", descriptor.digest.as_str(), " size mismatch: expected ");
        m.append(text::decimal(expected_size).as_str());
        m.append(", got ");
        m.append(text::decimal(bytes.len() as u64).as_str());
        return Err(DockerPullError::BadResponse(m));
    }
    match digest::digest_bytes_for_digest(descriptor.digest.as_str(), bytes) {
        Err(e) => Err(e),
        Ok(actual) => {
            if text::same(actual.as_str(), descriptor.digest.as_str()) {
                Ok(())
            } else {
                Err(
                    DockerPullError::DigestMismatch {
                        expected: descriptor.digest.clone(),
                        actual,
                    },
                )
            }
        },
    }
}

/// Bytes are stored only under their own digest.
pub proof fn law_stored_bytes_have_their_digest(descriptor: DescriptorView, bytes: Seq<u8>)
    requires
        bytes_error(descriptor, bytes) is None,
    ensures
        bytes.len() == descriptor.size,
        digest::parsed(descriptor.digest) is Ok,
        ({
            let (algorithm, value) = digest::parsed(descriptor.digest)->Ok_0;
            value == digest::hex_view(algorithm.hash_of(bytes))
        }),
{
    let algorithm = digest::parsed(descriptor.digest)->Ok_0.0;
    digest::lemma_digest_of_hash(descriptor.digest, algorithm.hash_of(bytes));
}

/// How far a partial blob can be trusted, and to what length its file is cut.
#[derive(Debug, Clone, Copy, PartialEq, Eq, Structural)]
pub struct Reconciled {
    pub durable_offset: u64,
    pub truncate_to: Option<u64>,
}

/// Where a download goes on: behind the bytes that were saved, as far as they are there.
pub open spec fn reconciled(file_len: Option<u64>, recorded: Option<u64>) -> Reconciled {
    let saved = match recorded {
        Some(n) => n,
        None => 0,
    };
    match file_len {
        None => Reconciled { durable_offset: 0, truncate_to: None },
        Some(n) => if n > saved {
            Reconciled { durable_offset: saved, truncate_to: Some(saved) }
        } else {
            Reconciled { durable_offset: n, truncate_to: None }
        },
    }
}

/// Decides where a download goes on, from the length of the partial file and from the offset that
/// was recorded. Bytes behind the recorded offset are cut off.
pub fn reconcile_partial_file(file_len: Option<u64>, recorded: Option<u64>) -> (r: Reconciled)
    ensures
        r == reconciled(file_len, recorded),
{
    let saved = match recorded {
        Some(n) => n,
        None => 0,
    };
    match file_len {
        None => Reconciled { durable_offset: 0, truncate_to: None },
        Some(n) => {
            if n > saved {
                Reconciled { durable_offset: saved, truncate_to: Some(saved) }
            } else {
                Reconciled { durable_offset: n, truncate_to: None }
            }
        },
    }
}

/// A download never goes on behind the bytes that are there, nor behind those that were recorded,
/// and afterwards the file ends where it goes on.
pub proof fn law_a_download_resumes_on_saved_bytes(file_len: Option<u64>, recorded: Option<u64>)
    ensures
        ({
            let r = reconciled(file_len, recorded);
            &&& file_len matches Some(n) ==> r.durable_offset <= n
            &&& file_len is None ==> r.durable_offset == 0
            &&& recorded matches Some(n) ==> r.durable_offset <= n
            &&& recorded is None ==> r.durable_offset == 0
            &&& file_len matches Some(n) ==> r.durable_offset == match r.truncate_to {
                Some(cut) => cut,
                None => n,
            }
        }),
{
}

/// A byte is kept for a download exactly where it is on disk and was recorded: none of these is
/// discarded, and no other is trusted. The file is cut only where it is longer than what was
/// recorded, and then to just that.
pub proof fn law_no_saved_byte_is_discarded(
    file_len: Option<u64>,
    recorded: Option<u64>,
    byte: u64,
)
    ensures
        ({
            let r = reconciled(file_len, recorded);
            let on_disk = file_len matches Some(n) && byte < n;
            let noted = recorded matches Some(n) && byte < n;
            &&& byte < r.durable_offset <==> on_disk && noted
            &&& r.truncate_to matches Some(cut) ==> cut == r.durable_offset && (file_len matches Some(
                n,
            ) && cut < n)
            &&& on_disk && !noted ==> r.truncate_to is Some
        }),
{
}

/// A download goes on at the lesser of the length of its file and the recorded offset, and at the
/// start where either is missing.
pub proof fn law_a_download_resumes_at_the_lesser_offset(n: u64, m: u64)
    ensures
        reconciled(Some(n), Some(m)).durable_offset == vstd::math::min(n as int, m as int),
        reconciled(Some(n), None).durable_offset == 0,
        reconciled(None, Some(m)).durable_offset == 0,
        reconciled(None, None).durable_offset == 0,
        reconciled(None, Some(m)).truncate_to is None,
        n <= m ==> reconciled(Some(n), Some(m)).truncate_to is None,
{
}

/// What is wrong with a partial file that should be the blob: it has to be there and to have its
/// digest.
pub open spec fn finished_error(
    digest: Seq<char>,
    partial: Seq<char>,
    read: Option<Seq<char>>,
) -> Option<ErrorView> {
    match read {
        None => Some(ErrorView::MissingBlobFile(digest, partial)),
        Some(actual) => if actual == digest {
            None
        } else {
            Some(mismatch(digest, actual))
        },
    }
}

/// A download is accepted only where the hash of its bytes is the one that its digest names.
pub proof fn law_an_accepted_download_has_its_digest(
    digest: Seq<char>,
    partial: Seq<char>,
    read: DigestRun,
)
    requires
        digest::parsed(digest) is Ok,
        read.algorithm() == digest::parsed(digest)->Ok_0.0,
    ensures
        finished_error(digest, partial, Some(read.digest())) is None <==> digest::parsed(
            digest,
        )->Ok_0.1 == digest::hex_view(read.algorithm().hash_of(read.fed())),
{
    digest::lemma_digest_of_hash(digest, read.algorithm().hash_of(read.fed()));
}

/// Decides whether a partial file is the blob. Where the file is there, its bytes were all fed to
/// the run.
pub fn check_finished(digest: &str, partial: &str, read: Option<DigestRun>) -> (r: Result<()>)
    ensures
        finished_error(
            digest@,
            partial@,
            match read {
                Some(run) => Some(run.digest()),
                None => None,
            },
        ) == match r {
            Ok(()) => None,
            Err(e) => Some(e@),
        },
{
    match read {
        None => Err(DockerPullError::MissingBlobFile(digest.to_owned(), partial.to_owned())),
        Some(run) => {
            let actual = run.finish();
            if text::same(actual.as_str(), digest) {
                Ok(())
            } else {
                Err(DockerPullError::DigestMismatch { expected: digest.to_owned(), actual })
            }
        },
    }
}

/// The layers to delete: the files to remove, one after the other, and what comes of it.
pub struct PrunePlan {
    pub paths: Vec<String>,
    pub outcome: Result<()>,
}

/// The layers to delete, as text.
pub struct PruneView {
    pub paths: Seq<Seq<char>>,
    pub outcome: std::result::Result<(), ErrorView>,
}

impl View for PrunePlan {
    type V = PruneView;

    open spec fn view(&self) -> PruneView {
        PruneView {
            paths: texts(self.paths@),
            outcome: match self.outcome {
                Ok(()) => Ok(()),
                Err(e) => Err(e@),
            },
        }
    }
}

/// The plan that stops at an error.
pub open spec fn stopped(e: ErrorView) -> PruneView {
    PruneView { paths: seq![], outcome: Err(e) }
}

/// A file and the rest of a plan.
pub open spec fn and_remove(file: Seq<char>, rest: PruneView) -> PruneView {
    PruneView { paths: seq![file] + rest.paths, outcome: rest.outcome }
}

/// The files of the layers of a manifest that are not protected.
pub open spec fn prune_layers(
    store: Store,
    layers: Seq<JsonView>,
    protected: Seq<Seq<char>>,
) -> PruneView
    decreases layers.len(),
{
    if layers.len() == 0 {
        PruneView { paths: seq![], outcome: Ok(()) }
    } else {
        match layers[0].get_text("digest"@) {
            None => stopped(ErrorView::BadResponse("layer digest missing"@)),
            Some(digest) => match store.blob_file(digest) {
                Err(e) => stopped(e),
                Ok(file) => if protected.contains(digest) {
                    prune_layers(store, layers.skip(1), protected)
                } else {
                    and_remove(file, prune_layers(store, layers.skip(1), protected))
                },
            },
        }
    }
}

/// The files of the layers of a manifest, by what it holds.
pub open spec fn prune_view(
    store: Store,
    manifest: std::result::Result<JsonView, Seq<char>>,
    protected: Seq<Seq<char>>,
) -> PruneView {
    match manifest {
        Err(message) => stopped(ErrorView::Json(message)),
        Ok(value) => match value.get("layers"@) {
            Some(JsonView::Array(layers)) => prune_layers(store, layers, protected),
            _ => stopped(ErrorView::BadResponse("manifest layers missing"@)),
        },
    }
}

impl Store {
    /// Lists the files of layers that are not protected.
    fn plan_layers(&self, layers: &Vec<Json>, protected: &Vec<String>) -> (plan: PrunePlan)
        ensures
            plan@ == prune_layers(*self, json::items_view(layers@), texts(protected@)),
    {
        let ghost all = json::items_view(layers@);
        let ghost goal = prune_layers(*self, all, texts(protected@));
        let mut paths: Vec<String> = Vec::new();
        assert(all.skip(0) =~= all);
        assert(texts(paths@) + goal.paths =~= goal.paths);
        let mut i: usize = 0;
        while i < layers.len()
            invariant
                i <= layers@.len(),
                all == json::items_view(layers@),
                goal == prune_layers(*self, all, texts(protected@)),
                goal.paths == texts(paths@) + prune_layers(
                    *self,
                    all.skip(i as int),
                    texts(protected@),
                ).paths,
                goal.outcome == prune_layers(
                    *self,
                    all.skip(i as int),
                    texts(protected@),
                ).outcome,
            decreases layers@.len() - i,
        {
            assert(all.skip(i as int).skip(1) =~= all.skip(i + 1));
            assert(all.skip(i as int)[0] == layers@[i as int]@);
            assert(texts(paths@) + Seq::<Seq<char>>::empty() =~= texts(paths@));
            let digest = match layers[i].get_str("digest") {
                None => {
                    return PrunePlan {
                        paths,
                        outcome: Err(
                            DockerPullError::BadResponse("layer digest missing".to_owned()),
                        ),
                    };
                },
                Some(digest) => digest,
            };
            match self.blob_path(digest) {
                Err(e) => {
                    return PrunePlan { paths, outcome: Err(e) };
                },
                Ok(file) => {
                    if !text::list_contains(protected.as_slice(), digest) {
                        let ghost before = paths@;
                        let ghost rest = prune_layers(*self, all.skip(i + 1), texts(protected@));
                        paths.push(file);
                        assert(texts(paths@) =~= texts(before).push(file@));
                        assert(texts(paths@) + rest.paths =~= texts(before) + (seq![file@]
                            + rest.paths));
                    }
                },
            }
            i += 1;
        }
        assert(texts(paths@) + Seq::<Seq<char>>::empty() =~= texts(paths@));
        PrunePlan { paths, outcome: Ok(()) }
    }

    /// Decides which files of the layers of a manifest are deleted. The manifest and its
    /// configuration stay, and so do the layers that are protected.
    pub fn prune_parsed(
        &self,
        manifest: std::result::Result<Json, String>,
        protected: &Vec<String>,
    ) -> (plan: PrunePlan)
        ensures
            plan@ == prune_view(
                *self,
                match manifest {
                    Ok(value) => Ok(value@),
                    Err(message) => Err(message@),
                },
                texts(protected@),
            ),
    {
        broadcast use {json::lemma_array_contents, json::lemma_object_contents};

        let value = match manifest {
            Err(message) => {
                let plan = PrunePlan {
                    paths: Vec::new(),
                    outcome: Err(DockerPullError::Json(message)),
                };
                assert(plan@.paths =~= seq![]);
                return plan;
            },
            Ok(value) => value,
        };
        match value.get("layers") {
            Some(Json::Array(layers)) => self.plan_layers(layers, protected),
            _ => {
                let plan = PrunePlan {
                    paths: Vec::new(),
                    outcome: Err(
                        DockerPullError::BadResponse("manifest layers missing".to_owned()),
                    ),
                };
                assert(plan@.paths =~= seq![]);
                plan
            },
        }
    }

    /// Decides which files of the layers of a manifest are deleted.
    pub fn prune_reference_layer_blobs(
        &self,
        manifest_bytes: &[u8],
        protected: &Vec<String>,
    ) -> (plan: PrunePlan)
        ensures
            plan@ == prune_view(
                *self,
                json::json_document(manifest_bytes@),
                texts(protected@),
            ),
    {
        self.prune_parsed(json::parse_json(manifest_bytes), protected)
    }
}

/// Whether a character comes before another in the order of paths: the separator comes before any
/// other, so that paths are ordered component by component.
pub open spec fn char_before(c: char, d: char) -> bool {
    d != '/' && (c == '/' || c < d)
}

/// Whether a path comes before another, or is the same.
pub open spec fn path_le(a: Seq<char>, b: Seq<char>) -> bool
    decreases a.len(),
{
    if a.len() == 0 {
        true
    } else if b.len() == 0 {
        false
    } else if a[0] == b[0] {
        path_le(a.skip(1), b.skip(1))
    } else {
        char_before(a[0], b[0])
    }
}

/// Of two paths one comes before the other.
proof fn lemma_path_total(a: Seq<char>, b: Seq<char>)
    ensures
        path_le(a, b) || path_le(b, a),
    decreases a.len(),
{
    if a.len() > 0 && b.len() > 0 && a[0] == b[0] {
        lemma_path_total(a.skip(1), b.skip(1));
    }
}

/// What comes before something that comes before a third comes before the third.
proof fn lemma_path_transitive(a: Seq<char>, b: Seq<char>, c: Seq<char>)
    requires
        path_le(a, b),
        path_le(b, c),
    ensures
        path_le(a, c),
    decreases a.len(),
{
    if a.len() > 0 && b.len() > 0 && c.len() > 0 && a[0] == b[0] && b[0] == c[0] {
        lemma_path_transitive(a.skip(1), b.skip(1), c.skip(1));
    }
}

/// Whether a path comes before another, or is the same.
fn path_at_most(a: &str, b: &str) -> (r: bool)
    ensures
        r == path_le(a@, b@),
{
    let x = text::chars_of(a);
    let y = text::chars_of(b);
    let mut i: usize = 0;
    assert(a@.skip(0) =~= a@ && b@.skip(0) =~= b@);
    while i < x.len() && i < y.len()
        invariant
            i <= x@.len(),
            i <= y@.len(),
            x@ == a@,
            y@ == b@,
            path_le(a@, b@) == path_le(a@.skip(i as int), b@.skip(i as int)),
        decreases x@.len() - i,
    {
        assert(a@.skip(i as int).skip(1) =~= a@.skip(i + 1));
        assert(b@.skip(i as int).skip(1) =~= b@.skip(i + 1));
        let c = x[i];
        let d = y[i];
        if c != d {
            if c == '/' {
                return true;
            }
            if d == '/' {
                return false;
            }
            return c < d;
        }
        i += 1;
    }
    i == x.len()
}

/// Whether files are in the order of their paths.
pub open spec fn is_sorted(files: Seq<ClearedFileView>) -> bool {
    forall|i: int, j: int|
        0 <= i < j < files.len() ==> path_le(
            (#[trigger] files[i]).path,
            (#[trigger] files[j]).path,
        )
}

/// Puts a file into its place.
fn insert_sorted(files: &mut Vec<ClearedCacheFile>, file: ClearedCacheFile)
    requires
        is_sorted(files_view(old(files)@)),
    ensures
        is_sorted(files_view(final(files)@)),
        files_view(final(files)@).to_multiset() == files_view(old(files)@).to_multiset().insert(
            file@,
        ),
{
    let ghost all = files_view(files@);
    let mut at: usize = files.len();
    while at > 0 && !path_at_most(files[at - 1].path.as_str(), file.path.as_str())
        invariant
            at <= files@.len(),
            all == files_view(files@),
            files@ == old(files)@,
            is_sorted(all),
            forall|k: int| at <= k < all.len() ==> path_le(file@.path, (#[trigger] all[k]).path),
        decreases at,
    {
        proof {
            assert(all[at - 1] == files@[at - 1]@);
            lemma_path_total(file@.path, all[at - 1].path);
        }
        at -= 1;
    }
    proof {
        if at > 0 {
            assert(all[at - 1] == files@[at - 1]@);
            assert forall|k: int| 0 <= k < at implies path_le(
                (#[trigger] all[k]).path,
                file@.path,
            ) by {
                if k < at - 1 {
                    assert(path_le(all[k].path, all[at - 1].path));
                    lemma_path_transitive(all[k].path, all[at - 1].path, file@.path);
                }
            }
        }
    }
    files.insert(at, file);
    proof {
        let out = files_view(files@);
        assert(out =~= all.insert(at as int, file@));
        assert forall|i: int, j: int| 0 <= i < j < out.len() implies path_le(
            (#[trigger] out[i]).path,
            (#[trigger] out[j]).path,
        ) by {
            if i < at {
                assert(out[i] == all[i]);
                if j < at {
                    assert(out[j] == all[j]);
                } else if j > at {
                    assert(out[j] == all[j - 1]);
                }
            } else if i == at {
                assert(out[j] == all[j - 1]);
            } else {
                assert(out[i] == all[i - 1]);
                assert(out[j] == all[j - 1]);
            }
        }
        vstd::seq_lib::to_multiset_insert(all, at as int, file@);
    }
}

/// The sum of sizes, up to the greatest number that can be counted.
pub open spec fn saturated_size(files: Seq<ClearedFileView>) -> int
    decreases files.len(),
{
    if files.len() == 0 {
        0
    } else {
        let before = saturated_size(files.drop_last());
        if before + files.last().size > u64::MAX {
            u64::MAX as int
        } else {
            before + files.last().size
        }
    }
}

/// Reports what was deleted: the files in the order of their paths, and the bytes that they took.
pub fn cleared_cache(found: Vec<ClearedCacheFile>) -> (r: ClearedCache)
    ensures
        is_sorted(files_view(r.files@)),
        files_view(r.files@).to_multiset() == files_view(found@).to_multiset(),
        r.reclaimed_bytes == saturated_size(files_view(found@)),
{
    let ghost all = files_view(found@);
    let mut files: Vec<ClearedCacheFile> = Vec::new();
    let mut reclaimed: u64 = 0;
    assert(all.take(0) =~= Seq::<ClearedFileView>::empty());
    assert(files_view(files@) =~= Seq::<ClearedFileView>::empty());
    for file in it: found
        invariant
            it.seq() == found@,
            all == files_view(found@),
            is_sorted(files_view(files@)),
            files_view(files@).to_multiset() == all.take(it.index()).to_multiset(),
            reclaimed == saturated_size(all.take(it.index())),
    {
        let ghost at = it.index();
        assert(all.take(at + 1).drop_last() =~= all.take(at));
        assert(all.take(at + 1).last() == file@);
        assert(all.take(at + 1) =~= all.take(at).push(file@));
        proof {
            all.take(at).to_multiset_ensures();
        }
        reclaimed = if file.size > u64::MAX - reclaimed {
            u64::MAX
        } else {
            reclaimed + file.size
        };
        insert_sorted(&mut files, file);
    }
    assert(all.take(all.len() as int) =~= all);
    ClearedCache { files, reclaimed_bytes: reclaimed }
}

/// On Unix the file of a blob lies below the directory of the cache, in a directory for its
/// algorithm, under its value; a partial blob, its lock and a reference lie in places of their own.
pub proof fn law_where_things_lie_on_unix(
    store: Store,
    algorithm: digest::DigestAlgorithm,
    value: Seq<char>,
    reference: Seq<char>,
)
    requires
        store.family() == HostFamily::Unix,
        store.dir().len() > 0,
        store.dir().last() != '/',
        value.len() == algorithm.hex_len_view(),
        digest::all_lower_hex(value),
    ensures
        ({
            let name = algorithm.name_view();
            let digest = name + ":"@ + value;
            let dir = store.dir();
            let key = digest::hex_view(digest::sha256_of(bytes_of(reference)));
            &&& store.blob_file(digest) == Ok::<_, ErrorView>(
                dir + "/blobs/"@ + name + "/"@ + value,
            )
            &&& store.partial_place(digest) == Ok::<_, ErrorView>(
                dir + "/partials/"@ + name + "/"@ + value,
            )
            &&& store.lock_place(digest) == Ok::<_, ErrorView>(
                dir + "/locks/"@ + name + "/"@ + value,
            )
            &&& key.len() > 0 ==> store.reference_file(reference) == dir + "/references/"@ + key
                + ".json"@
        }),
{
    let name = algorithm.name_view();
    let dir = store.dir();
    digest::law_digest_parses_back(algorithm, value);
    digest::lemma_algorithm_names(algorithm);
    reveal_strlit("/");
    reveal_strlit("blobs");
    reveal_strlit("/blobs/");
    reveal_strlit("partials");
    reveal_strlit("/partials/");
    reveal_strlit("locks");
    reveal_strlit("/locks/");
    reveal_strlit("references");
    reveal_strlit("/references/");
    reveal_strlit("sha256");
    reveal_strlit("sha384");
    reveal_strlit("sha512");
    reveal_strlit(".json");
    assert(value.len() > 0);
    assert(digest::is_lower_hex(value[0]));
    lemma_digest_file_on_unix(dir, "blobs"@, name, value);
    lemma_digest_file_on_unix(dir, "partials"@, name, value);
    lemma_digest_file_on_unix(dir, "locks"@, name, value);
    assert(dir + "/"@ + "blobs"@ + "/"@ + name + "/"@ + value =~= dir + "/blobs/"@ + name + "/"@
        + value);
    assert(dir + "/"@ + "partials"@ + "/"@ + name + "/"@ + value =~= dir + "/partials/"@ + name
        + "/"@ + value);
    assert(dir + "/"@ + "locks"@ + "/"@ + name + "/"@ + value =~= dir + "/locks/"@ + name + "/"@
        + value);
    let key = digest::hex_view(digest::sha256_of(bytes_of(reference)));
    if key.len() > 0 {
        digest::lemma_hex_is_lower(digest::sha256_of(bytes_of(reference)));
        assert(digest::is_lower_hex(key[0]));
        lemma_join_on_unix(dir, "references"@);
        lemma_join_on_unix(dir + "/"@ + "references"@, key + ".json"@);
        assert(dir + "/"@ + "references"@ + "/"@ + (key + ".json"@) =~= dir + "/references/"@ + key
            + ".json"@);
    }
}

proof fn lemma_join_on_unix(base: Seq<char>, file: Seq<char>)
    requires
        base.len() > 0,
        base.last() != '/',
        file.len() > 0,
        file[0] != '/',
    ensures
        path::join_view(HostFamily::Unix, base, file) == base + "/"@ + file,
{
}

proof fn lemma_digest_file_on_unix(
    dir: Seq<char>,
    place: Seq<char>,
    name: Seq<char>,
    value: Seq<char>,
)
    requires
        dir.len() > 0,
        dir.last() != '/',
        place.len() > 0,
        place[0] != '/',
        place.last() != '/',
        name.len() > 0,
        name[0] != '/',
        name.last() != '/',
        value.len() > 0,
        value[0] != '/',
    ensures
        ({
            let family = HostFamily::Unix;
            let base = path::join_view(family, dir, place);
            path::join_view(family, path::join_view(family, base, name), value) == dir + "/"@
                + place + "/"@ + name + "/"@ + value
        }),
{
    lemma_join_on_unix(dir, place);
    lemma_join_on_unix(dir + "/"@ + place, name);
    lemma_join_on_unix(dir + "/"@ + place + "/"@ + name, value);
}

/// Pruning deletes the file of every layer that is not protected, and no other file, where the
/// manifest can be read to its end.
pub proof fn law_pruning_deletes_unprotected_layers(
    store: Store,
    layers: Seq<JsonView>,
    protected: Seq<Seq<char>>,
    path: Seq<char>,
)
    requires
        prune_layers(store, layers, protected).outcome is Ok,
    ensures
        prune_layers(store, layers, protected).paths.contains(path) <==> exists|i: int|
            #![trigger layers[i]]
            0 <= i < layers.len() && (layers[i].get_text("digest"@) matches Some(digest)
                && !protected.contains(digest) && store.blob_file(digest) == Ok::<_, ErrorView>(
                path,
            )),
    decreases layers.len(),
{
    let plan = prune_layers(store, layers, protected);
    if layers.len() > 0 {
        let rest = layers.skip(1);
        let after = prune_layers(store, rest, protected);
        law_pruning_deletes_unprotected_layers(store, rest, protected, path);
        assert forall|i: int| 0 < i < layers.len() implies #[trigger] layers[i] == rest[i - 1] by {}
        let digest = layers[0].get_text("digest"@)->0;
        let file = store.blob_file(digest)->Ok_0;
        if protected.contains(digest) {
            assert(plan.paths == after.paths);
        } else {
            assert(plan.paths =~= seq![file] + after.paths);
            assert(plan.paths[0] == file);
            if plan.paths.contains(path) {
                let k = choose|k: int| 0 <= k < plan.paths.len() && plan.paths[k] == path;
                if k > 0 {
                    assert(after.paths[k - 1] == path);
                    assert(after.paths.contains(path));
                }
            }
            if after.paths.contains(path) {
                let k = choose|k: int| 0 <= k < after.paths.len() && after.paths[k] == path;
                assert(plan.paths[k + 1] == path);
            }
        }
        if after.paths.contains(path) {
            let i = choose|i: int|
                #![trigger rest[i]]
                0 <= i < rest.len() && (rest[i].get_text("digest"@) matches Some(digest)
                    && !protected.contains(digest) && store.blob_file(digest) == Ok::<
                    _,
                    ErrorView,
                >(path));
            assert(layers[i + 1] == rest[i]);
        }
    }
}

/// The bytes that were reclaimed are the sizes of the files, added up as far as they can be
/// counted.
pub proof fn law_reclaimed_bytes_add_up(files: Seq<ClearedFileView>, file: ClearedFileView)
    ensures
        saturated_size(seq![]) == 0,
        saturated_size(files.push(file)) == vstd::math::min(
            saturated_size(files) + file.size,
            u64::MAX as int,
        ),
{
    assert(files.push(file).drop_last() =~= files);
}

/// A blob of which there is no file is missing, one with a file of another size is removed, and one
/// with a file of another digest is removed.
pub proof fn law_a_wrong_file_is_removed(
    size: u64,
    expected_size: u64,
    digest: Seq<char>,
    read: Seq<char>,
)
    ensures
        size_check(None, expected_size) == BlobCheck::Missing,
        size != expected_size ==> size_check(Some(size), expected_size) == BlobCheck::Remove,
        size == expected_size ==> size_check(Some(size), expected_size) == BlobCheck::CheckDigest,
        read != digest ==> digest_check(digest, read) == BlobCheck::Remove,
        read == digest ==> digest_check(digest, read) == BlobCheck::Complete,
{
}

/// Bytes are refused as a blob for their size, their digest or the algorithm of the digest, and are
/// taken otherwise.
pub proof fn law_fitting_bytes_are_stored(
    media_type: Seq<char>,
    algorithm: digest::DigestAlgorithm,
    bytes: Seq<u8>,
    value: Seq<char>,
)
    requires
        bytes.len() <= i64::MAX,
        value.len() == algorithm.hex_len_view(),
        digest::all_lower_hex(value),
    ensures
        ({
            let fitting = DescriptorView {
                media_type,
                digest: algorithm.name_view() + ":"@ + value,
                size: bytes.len() as i64,
                platform: None,
                annotations: None,
            };
            bytes_error(fitting, bytes) is None <==> value == digest::hex_view(
                algorithm.hash_of(bytes),
            )
        }),
{
    let digest = algorithm.name_view() + ":"@ + value;
    digest::law_digest_parses_back(algorithm, value);
    digest::lemma_digest_of_hash(digest, algorithm.hash_of(bytes));
}

} // verus!
