//! The cache on disk and the archives that are made from it.
use pocker::digest::{DigestAlgorithm, DigestRun};
use pocker::error::DockerPullError;
use pocker::export::{
    archive_descriptor, archive_entries, archive_manifest, blob_tar_path, docker_repo_tags,
    docker_repositories, layer_archive_source, layer_sources, missing_layers, oci_ref_name,
    resolved_manifest_media_type, ArchiveEntry, LayerFile, OciManifest,
};
use pocker::path::HostFamily;
use pocker::reference::ImageReference;
use pocker::registry::types::Descriptor;
use pocker::store::{
    check_blob_bytes, check_blob_digest, check_blob_size, check_finished, cleared_cache,
    reconcile_partial_file, reference_key, BlobCheck, ClearedCacheFile, Reconciled, Store,
    StoredReference,
};

const ABC: &str = "sha256:ba7816bf8f01cfea414140de5dae2223b00361a396177a9cb410ff61f20015ad";

fn run_over(pieces: &[&[u8]]) -> DigestRun {
    let mut run = DigestRun::start_for_digest(ABC).expect("a digest");
    for piece in pieces {
        run.feed(piece);
    }
    run
}

fn digest(c: &str) -> String {
    format!("sha256:{}", c.repeat(64))
}

fn descriptor(digest: &str, size: i64) -> Descriptor {
    Descriptor {
        media_type: "application/vnd.oci.image.layer.v1.tar+gzip".into(),
        digest: digest.into(),
        size,
        platform: None,
        annotations: None,
    }
}

#[test]
fn reference_key_is_stable_and_filesystem_safe() {
    let key = reference_key("registry.example:5000/team/app:latest");

    assert_eq!(key.len(), 64);
    assert!(key.chars().all(|ch| ch.is_ascii_hexdigit()));
    assert_eq!(key, reference_key("registry.example:5000/team/app:latest"));
}

#[test]
fn references_have_different_keys() {
    assert_ne!(reference_key("alpine:3.19"), reference_key("alpine:3.20"));
}

#[test]
fn files_of_the_cache_have_their_places() {
    let store = Store::new("/cache", HostFamily::Unix);
    assert_eq!(store.root(), "/cache");
    let path = store.blob_path(&digest("a")).expect("a path");
    assert_eq!(path, format!("/cache/blobs/sha256/{}", "a".repeat(64)));
    for refused in ["sha224:abc", "sha256:../../x", "nothing"] {
        assert!(store.blob_path(refused).is_err());
        assert!(store.partial_path(refused).is_err());
        assert!(store.blob_lock_path(refused).is_err());
        assert!(store.partial_metadata_path(refused).is_err());
    }
    assert_ne!(
        store.partial_path(&digest("a")).expect("a path"),
        store.partial_metadata_path(&digest("a")).expect("a path")
    );
    assert!(store
        .reference_path("alpine:3.20")
        .contains(&reference_key("alpine:3.20")));
    assert_eq!(store.lock_path(), "/cache/.lock");
    assert_eq!(
        store.blob_lock_path(&digest("a")).expect("a path"),
        format!("/cache/locks/sha256/{}.lock", "a".repeat(64))
    );
    assert!(store.layout().iter().all(|dir| dir.starts_with("/cache")));
}

#[test]
fn blobs_are_checked_by_size_and_digest() {
    assert_eq!(check_blob_size(None, 5), BlobCheck::Missing);
    assert_eq!(check_blob_size(Some(4), 5), BlobCheck::Remove);
    assert_eq!(check_blob_size(Some(5), 5), BlobCheck::CheckDigest);
    assert_eq!(
        check_blob_digest(ABC, run_over(&[b"ab", b"", b"c"])),
        BlobCheck::Complete
    );
    assert_eq!(check_blob_digest(ABC, run_over(&[b"abd"])), BlobCheck::Remove);
    assert!(BlobCheck::Complete.is_complete());
    assert!(!BlobCheck::CheckDigest.is_complete());

    let empty = "sha256:e3b0c44298fc1c149afbf4c8996fb92427ae41e4649b934ca495991b7852b855";
    assert!(check_blob_bytes(&descriptor(empty, 0), b"").is_ok());
    assert!(matches!(
        check_blob_bytes(&descriptor(&digest("a"), 0), b""),
        Err(DockerPullError::DigestMismatch { .. })
    ));
    assert!(matches!(
        check_blob_bytes(&descriptor(empty, -1), b""),
        Err(DockerPullError::InvalidInput(_))
    ));
    assert!(check_blob_bytes(&descriptor(empty, 3), b"").is_err());
    let sha384 = "sha384:38b060a751ac96384cd9327eb1b1e36a21fdb71114be07434c0cc7bf63f6e1da274edebfe76f65fbd51ad2f14898b95b";
    assert!(check_blob_bytes(&descriptor(sha384, 0), b"").is_ok());
}

#[test]
fn partial_downloads_keep_what_was_saved() {
    assert_eq!(
        reconcile_partial_file(Some(10), Some(6)),
        Reconciled {
            durable_offset: 6,
            truncate_to: Some(6)
        }
    );
    assert_eq!(
        reconcile_partial_file(Some(4), Some(6)),
        Reconciled {
            durable_offset: 4,
            truncate_to: None
        }
    );
    assert_eq!(
        reconcile_partial_file(None, Some(6)).durable_offset,
        0
    );
}

#[test]
fn finished_downloads_are_verified() {
    assert!(check_finished(ABC, "/p", Some(run_over(&[b"a", b"bc"]))).is_ok());
    assert!(matches!(
        check_finished(ABC, "/p", Some(run_over(&[b"a"]))),
        Err(DockerPullError::DigestMismatch { expected, actual })
            if expected == ABC && actual == DigestAlgorithm::Sha256.digest_bytes(b"a")
    ));
    assert!(matches!(
        check_finished("sha256:a", "/p", None),
        Err(DockerPullError::MissingBlobFile(digest, path)) if digest == "sha256:a" && path == "/p"
    ));
}

#[test]
fn pruning_removes_layers_that_nobody_uses() {
    let store = Store::new("/cache", HostFamily::Unix);
    let manifest = format!(
        r#"{{"layers":[{{"digest":"{}"}},{{"digest":"{}"}}]}}"#,
        digest("a"),
        digest("b")
    );
    let plan = store.prune_reference_layer_blobs(manifest.as_bytes(), &vec![digest("b")]);
    assert!(plan.outcome.is_ok());
    assert_eq!(
        plan.paths,
        vec![store.blob_path(&digest("a")).expect("a path")]
    );
    let broken = store.prune_reference_layer_blobs(b"{", &Vec::new());
    assert!(matches!(broken.outcome, Err(DockerPullError::Json(_))));
    let without = store.prune_reference_layer_blobs(b"{}", &Vec::new());
    assert!(matches!(
        without.outcome,
        Err(DockerPullError::BadResponse(m)) if m == "manifest layers missing"
    ));
    let nameless = store.prune_reference_layer_blobs(br#"{"layers":[{}]}"#, &Vec::new());
    assert!(matches!(
        nameless.outcome,
        Err(DockerPullError::BadResponse(m)) if m == "layer digest missing"
    ));
}

#[test]
fn cleared_files_are_sorted_and_counted() {
    let file = |path: &str, size| ClearedCacheFile {
        path: path.into(),
        size,
    };
    let cleared = cleared_cache(vec![file("b", 2), file("a", 1), file("c", 4)]);
    assert_eq!(cleared.reclaimed_bytes, 7);
    assert_eq!(
        cleared.files,
        vec![file("a", 1), file("b", 2), file("c", 4)]
    );
}

#[test]
fn oci_ref_name_uses_tag_only() {
    let reference =
        ImageReference::parse("ghcr.io/acme/app:1.2.3").expect("reference should parse");
    let ref_name = oci_ref_name(&reference);
    assert_eq!(ref_name.as_deref(), Some("1.2.3"));
}

#[test]
fn oci_ref_name_is_omitted_for_digest_references() {
    let reference = ImageReference::parse(
        "ghcr.io/acme/app@sha256:aaaaaaaaaaaaaaaaaaaaaaaaaaaaaaaaaaaaaaaaaaaaaaaaaaaaaaaaaaaaaaaa",
    )
    .expect("reference should parse");
    let ref_name = oci_ref_name(&reference);
    assert!(ref_name.is_none());
}

fn archive(reference: &str) -> Vec<ArchiveEntry> {
    let store = Store::new("/cache", HostFamily::Unix);
    let stored = StoredReference {
        reference: reference.into(),
        manifest: descriptor(&digest("a"), 2),
        config_digest: digest("c"),
    };
    let sources = layer_sources(
        &store,
        &vec![descriptor(&digest("d"), 4)],
        &vec![digest("e")],
        &vec![LayerFile {
            stored: true,
            fallback: None,
        }],
    )
    .expect("sources");
    archive_entries(&store, &stored, "m", b"{}", &sources, true).expect("entries")
}

#[test]
fn a_tagged_archive_holds_every_part() {
    let entries = archive("ghcr.io/acme/app:1.2.3");
    assert!(entries.iter().any(|e| matches!(e, ArchiveEntry::Layout)));
    assert!(entries.iter().any(|e| matches!(
        e,
        ArchiveEntry::Index(d) if d.annotations
            == Some(vec![("org.opencontainers.image.ref.name".to_string(), "1.2.3".to_string())])
    )));
    assert!(entries.iter().any(|e| matches!(
        e,
        ArchiveEntry::File { path, .. } if path == &format!("blobs/sha256/{}", "d".repeat(64))
    )));
    assert!(entries.iter().any(|e| matches!(
        e,
        ArchiveEntry::File { path, .. } if path == &format!("blobs/sha256/{}", "c".repeat(64))
    )));
    assert!(entries.iter().any(|e| matches!(
        e,
        ArchiveEntry::DockerManifest { repo_tags, .. } if repo_tags == &vec!["ghcr.io/acme/app:1.2.3".to_string()]
    )));
    assert!(entries
        .iter()
        .any(|e| matches!(e, ArchiveEntry::Repositories(_))));
}

#[test]
fn an_archive_by_digest_has_no_tags() {
    let entries = archive(&format!("ghcr.io/acme/app@{}", digest("a")));
    assert!(!entries
        .iter()
        .any(|e| matches!(e, ArchiveEntry::Repositories(_))));
    assert!(entries
        .iter()
        .any(|e| matches!(e, ArchiveEntry::DockerManifest { repo_tags, .. } if repo_tags.is_empty())));
}

#[test]
fn layers_come_from_the_cache_or_from_the_daemon() {
    let store = Store::new("/cache", HostFamily::Unix);
    let layer = descriptor(&digest("d"), 4);
    let stored = layer_archive_source(
        &store,
        &layer,
        &digest("e"),
        &LayerFile {
            stored: true,
            fallback: Some(("/tmp/e".into(), 9)),
        },
    )
    .expect("a source");
    assert_eq!(stored.descriptor.digest, digest("d"));
    let fallback = layer_archive_source(
        &store,
        &layer,
        &digest("e"),
        &LayerFile {
            stored: false,
            fallback: Some(("/tmp/e".into(), 9)),
        },
    )
    .expect("a source");
    assert_eq!(fallback.descriptor.digest, digest("e"));
    assert_eq!(fallback.descriptor.size, 9);
    assert_eq!(fallback.source_path, "/tmp/e");
    assert!(matches!(
        layer_archive_source(
            &store,
            &layer,
            &digest("e"),
            &LayerFile {
                stored: false,
                fallback: None
            }
        ),
        Err(DockerPullError::MissingBlobFile(_, _))
    ));
    assert_eq!(
        missing_layers(
            &store,
            &vec![descriptor(&digest("d"), 4), descriptor(&digest("f"), 4)],
            &vec![digest("e"), digest("g")],
            &vec![true, false]
        )
        .expect("layers"),
        vec![digest("g")]
    );

    let manifest = OciManifest {
        schema_version: 2,
        media_type: "".into(),
        config: descriptor(&digest("c"), 1),
        layers: vec![descriptor(&digest("d"), 4)],
    };
    let mut described = descriptor(&digest("a"), 2);
    described.media_type = "".into();
    assert_eq!(
        resolved_manifest_media_type(&manifest, &described),
        "application/vnd.oci.image.manifest.v1+json"
    );
    let written = archive_manifest(&manifest, &vec![fallback], &described);
    assert_eq!(written.layers[0].digest, digest("e"));
    assert_eq!(
        written.media_type,
        "application/vnd.oci.image.manifest.v1+json"
    );
    let reference = ImageReference::parse("alpine:3.20").expect("reference should parse");
    let entry = archive_descriptor(&described, "m", b"{}", &reference);
    assert_eq!(
        entry.digest,
        "sha256:44136fa355b3678a1146ad16f7e8649e94fb4fc21fe77e8310c060f61caaff8a"
    );
    assert_eq!(entry.size, 2);
    assert_eq!(docker_repo_tags(&reference), vec!["alpine:3.20"]);
    let entry = docker_repositories(&reference, &digest("c"))
        .expect("an entry")
        .expect("an entry");
    assert_eq!(entry.tag, "3.20");
    assert_eq!(
        blob_tar_path(&digest("c")).expect("a path"),
        format!("blobs/sha256/{}", "c".repeat(64))
    );
    assert!(blob_tar_path("c").is_err());
}

#[test]
fn a_cache_on_windows_has_backslashes_in_its_paths() {
    let store = Store::new("C:\\cache", HostFamily::Windows);

    assert_eq!(store.lock_path(), "C:\\cache\\.lock");
    assert_eq!(store.layout()[0], "C:\\cache\\blobs\\sha256");
    assert_eq!(
        store.blob_path(ABC).expect("path"),
        format!("C:\\cache\\blobs\\sha256\\{}", &ABC[7..])
    );
}
