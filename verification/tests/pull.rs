//! Pulling images: downloads, steps, shared layers and requests.
use pocker::cli::{
    AuthArgs, CacheSourceArgs, ComposePullArgs, DownloadArgs, ImportArgs, PullArgs,
    PullCommonArgs, RegistryArgs, RetryArgs,
};
use pocker::compose::env::Variables;
use pocker::error::DockerPullError;
use pocker::image::{pair_layers, LayerSpec};
use pocker::platform::Platform;
use pocker::pull::download::{
    content_range_start, next_blob_step, next_download_action, next_lock_step,
    premature_eof_detail, validate_blob_response_status, BlobStep, DownloadAction, DownloadEvent,
    DownloadPolicy, DownloadProgress, DownloadState, LockStep, Preparation, CHECKPOINT_BYTES,
};
use pocker::pull::request::{layer_digests, place_in_order, PullRequestOptions};
use pocker::pull::steps::{
    finishing, layer_source, layers_to_download, load_route, lost_worker, next_pull_action,
    stream_outcome, synthetic_reference, LayerSource, LoadMode, LoadRoute, PullAction, PullEvent, PullOptions,
    Worker, WorkerEnd,
};
use pocker::pull::usage::{BlobDownloadLocks, CurrentPullLayers};
use pocker::reference::ImageReference;
use pocker::registry::types::{Descriptor, ResolvedImage, Status};
use pocker::retry::Delay;
use pocker::store::BlobCheck;

fn status(code: u16, text: &str) -> Status {
    Status {
        code,
        text: text.to_string(),
    }
}

fn descriptor(digest: &str) -> Descriptor {
    Descriptor {
        media_type: "application/octet-stream".into(),
        digest: digest.into(),
        size: 10,
        platform: None,
        annotations: None,
    }
}

#[test]
fn missing_blob_status_maps_to_not_found() {
    let error =
        validate_blob_response_status(&status(404, "404 Not Found"), None, 0, "sha256:deadbeef")
            .expect_err("404 should not be treated as a streamable blob response");

    assert!(
        matches!(error, DockerPullError::BlobNotFound(digest) if digest == "sha256:deadbeef")
    );
}

#[test]
fn resumed_blob_download_requires_partial_content() {
    let error = validate_blob_response_status(&status(200, "200 OK"), None, 42, "sha256:deadbeef")
        .expect_err("resumed downloads must not accept 200 responses without reset handling");

    assert!(matches!(error, DockerPullError::BadResponse(_)));
}

#[test]
fn resumed_blob_download_rejects_missing_content_range() {
    let error = validate_blob_response_status(
        &status(206, "206 Partial Content"),
        None,
        42,
        "sha256:deadbeef",
    )
    .expect_err("resumed downloads must require Content-Range");

    assert!(matches!(error, DockerPullError::BadResponse(_)));
}

#[test]
fn resumed_blob_download_rejects_mismatched_content_range() {
    let error = validate_blob_response_status(
        &status(206, "206 Partial Content"),
        Some("bytes 40-99/100"),
        42,
        "sha256:deadbeef",
    )
    .expect_err("resumed downloads must validate Content-Range start");

    assert!(matches!(error, DockerPullError::BadResponse(_)));
}

#[test]
fn fresh_blob_download_accepts_ok_response() {
    validate_blob_response_status(&status(200, "200 OK"), None, 0, "sha256:deadbeef")
        .expect("fresh downloads should accept 200 responses");
}

#[test]
fn resumed_blob_download_accepts_partial_content() {
    validate_blob_response_status(
        &status(206, "206 Partial Content"),
        Some("bytes 42-99/100"),
        42,
        "sha256:deadbeef",
    )
    .expect("resumed downloads should accept matching 206 responses");
}

#[test]
fn premature_eof_registers_retry_detail_when_short() {
    assert_eq!(
        premature_eof_detail(42, 100).as_deref(),
        Some("download ended at byte 42 before expected size 100")
    );
    assert!(premature_eof_detail(100, 100).is_none());
}

#[test]
fn the_start_of_a_range_is_read() {
    assert_eq!(content_range_start("bytes 42-99/100"), Some(42));
    assert_eq!(content_range_start("items 42-99/100"), None);
    assert_eq!(content_range_start("bytes x-99/100"), None);
}

#[test]
fn download_progress_tracks_offsets_and_checkpoints() {
    let now = Delay::from_secs(100);
    let mut progress = DownloadProgress::new(10, now);

    progress.advance(5);

    assert_eq!(progress.offset, 15);
    assert_eq!(progress.bytes_since_checkpoint, 5);
    assert!(!progress.should_checkpoint(now));
}

#[test]
fn download_progress_checkpoints_after_interval_for_slow_streams() {
    let now = Delay::from_secs(100);
    let mut progress = DownloadProgress::new(10, now);
    progress.last_checkpoint = now.saturating_sub(Delay::from_secs(3));

    progress.advance(1);

    assert!(progress.should_checkpoint(now));
}

#[test]
fn download_progress_checkpoints_after_many_bytes() {
    let now = Delay::from_secs(100);
    let mut progress = DownloadProgress::new(0, now);
    progress.advance(CHECKPOINT_BYTES);
    assert!(progress.should_checkpoint(now));
    progress.checkpointed(now);
    assert!(!progress.should_checkpoint(now));
    assert_eq!(progress.bytes_since_checkpoint, 0);
    progress.reset(now);
    assert_eq!(progress.offset, 0);
}

fn policy() -> DownloadPolicy {
    DownloadPolicy {
        digest: "sha256:blob".into(),
        expected_size: 100,
        retry_limit: Some(1),
    }
}

fn step(state: &mut DownloadState, event: DownloadEvent) -> DownloadAction {
    next_download_action(
        &policy(),
        state,
        event,
        Delay::from_secs(1),
        Delay::from_secs(50),
    )
}

fn fresh(offset: u64) -> DownloadState {
    DownloadState {
        progress: DownloadProgress::new(offset, Delay::from_secs(50)),
        retries: 0,
    }
}

#[test]
fn a_download_runs_from_request_to_verification() {
    let mut state = fresh(0);
    assert!(matches!(
        step(&mut state, DownloadEvent::Ready),
        DownloadAction::Request(0)
    ));
    assert!(matches!(
        step(
            &mut state,
            DownloadEvent::Responded {
                status: status(200, "200 OK"),
                content_range: None
            }
        ),
        DownloadAction::Open { append: false }
    ));
    assert!(matches!(
        step(&mut state, DownloadEvent::Received(100)),
        DownloadAction::Read
    ));
    assert!(matches!(
        step(&mut state, DownloadEvent::StreamEnded),
        DownloadAction::Settle(100)
    ));
    assert!(matches!(
        step(&mut state, DownloadEvent::Settled),
        DownloadAction::Proceed
    ));
    assert!(matches!(
        step(&mut state, DownloadEvent::Ready),
        DownloadAction::Verify
    ));
}

#[test]
fn a_download_resumes_where_it_stopped() {
    let mut state = fresh(40);
    assert!(matches!(
        step(&mut state, DownloadEvent::Ready),
        DownloadAction::Request(40)
    ));
    assert!(matches!(
        step(
            &mut state,
            DownloadEvent::Responded {
                status: status(206, "206 Partial Content"),
                content_range: Some("bytes 40-99/100".into())
            }
        ),
        DownloadAction::Open { append: true }
    ));
    assert!(matches!(
        step(&mut state, DownloadEvent::Received(10)),
        DownloadAction::Read
    ));
    let action = step(&mut state, DownloadEvent::StreamFailed("reset".into()));
    assert!(matches!(
        action,
        DownloadAction::Retry { preparation: Preparation::Save, budget, delay, .. }
            if budget == "1/1" && delay == Delay::from_secs(1)
    ));
    assert!(matches!(
        step(&mut state, DownloadEvent::Ready),
        DownloadAction::Request(50)
    ));
    assert!(matches!(
        step(&mut state, DownloadEvent::StreamFailed("reset".into())),
        DownloadAction::Fail(DockerPullError::RetryLimitExceeded { retries: 1, .. })
    ));
}

#[test]
fn a_registry_that_ignores_ranges_makes_a_download_start_again() {
    let mut state = fresh(40);
    let action = step(
        &mut state,
        DownloadEvent::Responded {
            status: status(200, "200 OK"),
            content_range: None,
        },
    );
    assert!(matches!(
        action,
        DownloadAction::Retry {
            preparation: Preparation::DiscardAndPrepare,
            ..
        }
    ));
    assert_eq!(state.progress.offset, 0);

    let mut state = fresh(40);
    let action = step(
        &mut state,
        DownloadEvent::Responded {
            status: status(416, "416 Range Not Satisfiable"),
            content_range: None,
        },
    );
    assert!(matches!(
        action,
        DownloadAction::Retry {
            preparation: Preparation::Discard,
            ..
        }
    ));
}

#[test]
fn a_short_stream_is_read_again_and_a_stop_ends_it() {
    let mut state = fresh(0);
    let _ = step(&mut state, DownloadEvent::Received(60));
    let _ = step(&mut state, DownloadEvent::StreamEnded);
    let action = step(&mut state, DownloadEvent::Settled);
    assert!(matches!(
        action,
        DownloadAction::Retry { preparation: Preparation::Nothing, warning: Some(w), .. }
            if w == "stream ended early for sha256:blob at byte 60 of 100"
    ));
    assert!(matches!(
        step(&mut state, DownloadEvent::Stopped),
        DownloadAction::Fail(DockerPullError::Interrupted)
    ));
}

#[test]
fn many_bytes_are_saved_on_the_way() {
    let mut state = fresh(0);
    assert!(matches!(
        step(&mut state, DownloadEvent::Received(CHECKPOINT_BYTES)),
        DownloadAction::Save(offset) if offset == CHECKPOINT_BYTES
    ));
    assert!(matches!(
        step(&mut state, DownloadEvent::Saved),
        DownloadAction::Read
    ));
    assert_eq!(state.progress.bytes_since_checkpoint, 0);
}

fn protects(usage: &CurrentPullLayers, claim: &pocker::pull::usage::LayerClaimGuard, digest: &str) -> bool {
    usage
        .protected_digests(claim)
        .contains(&digest.to_string())
}

#[test]
fn current_pull_layers_protects_shared_active_claims_until_last_release() {
    let mut usage = CurrentPullLayers::new();
    let first = vec!["sha256:shared".to_string(), "sha256:first".to_string()];
    let second = vec!["sha256:shared".to_string(), "sha256:second".to_string()];

    let first_claim = usage.claim(&first);
    let second_claim = usage.claim(&second);

    assert!(protects(&usage, &first_claim, "sha256:shared"));
    assert!(!protects(&usage, &first_claim, "sha256:first"));

    usage.release(first_claim);

    assert!(!protects(&usage, &second_claim, "sha256:shared"));

    usage.release(second_claim);
    assert_eq!(usage.len(), 0);
}

#[test]
fn current_pull_layers_counts_duplicate_digests_once_per_image() {
    let mut usage = CurrentPullLayers::new();
    let digests = vec!["sha256:shared".to_string(), "sha256:shared".to_string()];

    let claim = usage.claim(&digests);

    assert!(!protects(&usage, &claim, "sha256:shared"));

    usage.release(claim);
    assert_eq!(usage.len(), 0);
}

#[test]
fn current_pull_layers_can_preplan_images_before_they_start() {
    let first = vec!["sha256:shared".to_string(), "sha256:first".to_string()];
    let second = vec!["sha256:shared".to_string(), "sha256:second".to_string()];
    let mut usage = CurrentPullLayers::from_image_layers(&[first.clone(), second.clone()]);

    let first_claim = usage.claim(&first);

    assert!(protects(&usage, &first_claim, "sha256:shared"));

    usage.release(first_claim);

    let second_claim = usage.claim(&second);
    assert!(!protects(&usage, &second_claim, "sha256:shared"));

    usage.release(second_claim);
    assert_eq!(usage.len(), 0);
}

#[test]
fn current_pull_layers_tracks_unplanned_layers_in_planned_pulls() {
    let planned = vec!["sha256:planned".to_string()];
    let unexpected = vec!["sha256:unexpected".to_string()];
    let mut usage = CurrentPullLayers::from_image_layers(&[planned.clone()]);

    let planned_claim = usage.claim(&planned);
    let first_unexpected_claim = usage.claim(&unexpected);
    let second_unexpected_claim = usage.claim(&unexpected);

    assert!(protects(&usage, &first_unexpected_claim, "sha256:unexpected"));

    usage.release(first_unexpected_claim);

    assert!(!protects(&usage, &second_unexpected_claim, "sha256:unexpected"));

    usage.release(second_unexpected_claim);
    usage.release(planned_claim);
    assert_eq!(usage.len(), 0);
}

#[test]
fn locks_are_kept_while_they_have_users() {
    let mut locks = BlobDownloadLocks::new();
    assert!(locks.enter("sha256:a"));
    assert!(!locks.enter("sha256:a"));
    assert_eq!(locks.users_of("sha256:a"), 2);
    locks.leave("sha256:a");
    assert_eq!(locks.len(), 1);
    locks.leave("sha256:a");
    assert_eq!(locks.len(), 0);
    assert_eq!(locks.users_of("sha256:a"), 0);
}

fn options(no_load: bool) -> PullOptions {
    PullOptions {
        concurrency: 4,
        no_load,
        keep_layer_blobs: false,
        load_mode: LoadMode::Stream,
    }
}

#[test]
fn a_pull_goes_through_its_steps() {
    let options = options(false);
    assert!(matches!(
        next_pull_action(&options, PullEvent::Started { stopped: false }),
        PullAction::SaveManifest
    ));
    assert!(matches!(
        next_pull_action(&options, PullEvent::ManifestSaved),
        PullAction::LoadConfig
    ));
    let action = next_pull_action(
        &options,
        PullEvent::ConfigLoaded {
            layers: vec![descriptor("sha256:layer")],
            diff_ids: vec!["sha256:diff".into()],
        },
    );
    assert!(
        matches!(action, PullAction::ClaimLayers(layers) if layers[0].diff_id == "sha256:diff")
    );
    assert!(matches!(
        next_pull_action(&options, PullEvent::LayersClaimed),
        PullAction::CheckExisting
    ));
    assert!(matches!(
        next_pull_action(&options, PullEvent::Existing(true)),
        PullAction::Done
    ));
    for load_mode in [LoadMode::Stream, LoadMode::Registry] {
        let options = PullOptions {
            load_mode,
            ..options
        };
        assert!(matches!(
            next_pull_action(&options, PullEvent::Existing(false)),
            PullAction::ShowLayers
        ));
        let action = next_pull_action(&options, PullEvent::LayersShown);
        if load_mode == LoadMode::Stream {
            assert!(matches!(action, PullAction::InspectDaemon));
        } else {
            assert!(matches!(action, PullAction::CheckLayers { warning: None }));
        }
    }
    assert!(matches!(
        next_pull_action(&options, PullEvent::LayersChecked),
        PullAction::Download
    ));
    assert!(matches!(
        next_pull_action(&options, PullEvent::Downloaded),
        PullAction::SaveReference
    ));
    assert!(matches!(
        next_pull_action(&options, PullEvent::ReferenceSaved),
        PullAction::Load
    ));
    assert!(matches!(
        next_pull_action(&options, PullEvent::Loaded),
        PullAction::Done
    ));
    let action = next_pull_action(&options, PullEvent::Coverage(Err("no daemon".into())));
    assert!(
        matches!(action, PullAction::CheckLayers { warning: Some(w) } if w.contains("no daemon"))
    );
}

#[test]
fn a_pull_without_loading_does_not_load() {
    let options = options(true);
    let action = next_pull_action(
        &options,
        PullEvent::ConfigLoaded {
            layers: vec![descriptor("sha256:layer")],
            diff_ids: vec!["sha256:diff".into()],
        },
    );
    assert!(matches!(action, PullAction::ClaimLayers(_)));
    assert!(matches!(
        next_pull_action(&options, PullEvent::LayersClaimed),
        PullAction::ShowLayers
    ));
    assert!(matches!(
        next_pull_action(&options, PullEvent::ReferenceSaved),
        PullAction::Finish("Pulled")
    ));
}

#[test]
fn a_pull_fails_where_it_is_stopped_or_the_config_does_not_fit() {
    assert!(matches!(
        next_pull_action(&options(false), PullEvent::Started { stopped: true }),
        PullAction::Fail(DockerPullError::Interrupted)
    ));
    let action = next_pull_action(
        &options(false),
        PullEvent::ConfigLoaded {
            layers: vec![descriptor("sha256:layer")],
            diff_ids: Vec::new(),
        },
    );
    assert!(matches!(
        action,
        PullAction::Fail(DockerPullError::BadResponse(m))
            if m == "config diff_ids count 0 does not match manifest layers count 1"
    ));
}

#[test]
fn a_history_of_claims_ends_with_nothing_counted() {
    let list = |names: &[&str]| -> Vec<String> { names.iter().map(|n| n.to_string()).collect() };
    let images = vec![list(&["a", "b", "a"]), list(&["b", "c"])];
    let mut usage = CurrentPullLayers::from_image_layers(&images);
    let first = usage.claim(&images[0]);
    let before = (usage.len(), usage.protected_digests(&first));
    assert_eq!(before, (3, list(&["b"])));
    let second = usage.claim(&images[1]);
    assert_eq!((usage.len(), usage.protected_digests(&first)), before);
    let extra = usage.claim(&list(&["d"]));
    assert_eq!(usage.len(), 4);
    usage.release(second);
    assert!(usage.protected_digests(&first).is_empty());
    usage.release(extra);
    usage.release(first);
    assert_eq!(usage.len(), 0);

    let mut usage = CurrentPullLayers::new();
    let first = usage.claim(&images[0]);
    let second = usage.claim(&images[1]);
    assert_eq!(usage.protected_digests(&first), list(&["b"]));
    usage.release(second);
    assert!(usage.protected_digests(&first).is_empty());
    usage.release(first);
    assert_eq!(usage.len(), 0);
}

#[test]
fn a_blob_that_is_complete_is_not_downloaded() {
    assert_eq!(next_blob_step(BlobCheck::Complete), BlobStep::MarkCached);
    assert_eq!(next_blob_step(BlobCheck::Missing), BlobStep::Download);
    assert_eq!(next_blob_step(BlobCheck::Remove), BlobStep::Download);
}

#[test]
fn a_download_waits_for_another_process() {
    assert!(matches!(
        next_lock_step(false, false, false),
        LockStep::Tell("Waiting for another pocker process")
    ));
    assert!(matches!(next_lock_step(false, false, true), LockStep::Wait));
    assert!(matches!(
        next_lock_step(false, true, true),
        LockStep::Fail(DockerPullError::Interrupted)
    ));
    assert!(matches!(next_lock_step(true, false, true), LockStep::Locked));
}

#[test]
fn layers_leave_the_cache_unless_they_are_kept() {
    let mut options = options(false);
    assert!(finishing(&options, true).prune);
    assert_eq!(finishing(&options, true).status, "Already exists");
    options.keep_layer_blobs = true;
    assert!(!finishing(&options, false).prune);
    assert_eq!(finishing(&options, false).status, "Ready");
}

fn layer(digest: &str, diff_id: &str) -> LayerSpec {
    LayerSpec {
        descriptor: descriptor(digest),
        diff_id: diff_id.into(),
    }
}

#[test]
fn only_layers_that_are_nowhere_are_downloaded() {
    let mut daemon = Variables::new();
    daemon.insert("diff-b".into(), "image:latest".into());
    let layers = vec![
        layer("sha256:a", "diff-a"),
        layer("sha256:b", "diff-b"),
        layer("sha256:c", "diff-c"),
    ];
    assert_eq!(layer_source(true, &layers[0], &daemon), LayerSource::Cached);
    assert_eq!(layer_source(false, &layers[1], &daemon), LayerSource::Daemon);
    assert_eq!(
        layer_source(false, &layers[2], &daemon),
        LayerSource::Download
    );
    let missing = layers_to_download(
        &layers,
        &vec![(2, false), (0, true), (1, false)],
        &daemon,
    );
    assert_eq!(missing.len(), 1);
    assert_eq!(missing[0].digest, "sha256:c");
}

#[test]
fn layers_and_diff_ids_are_paired() {
    let paired = pair_layers(
        &vec![descriptor("sha256:a"), descriptor("sha256:b")],
        &vec!["diff-a".into(), "diff-b".into()],
    )
    .expect("as many of both");
    assert_eq!(paired[1].descriptor.digest, "sha256:b");
    assert_eq!(paired[1].diff_id, "diff-b");
    assert!(pair_layers(&vec![descriptor("sha256:a")], &Vec::new()).is_err());
}

#[test]
fn images_by_digest_are_loaded_as_archives() {
    let tagged = ImageReference::parse("alpine:3.20").expect("reference should parse");
    let exact = ImageReference::parse(&format!("alpine@sha256:{}", "a".repeat(64)))
        .expect("reference should parse");
    assert_eq!(load_route(LoadMode::Stream, &tagged), LoadRoute::Stream);
    assert_eq!(load_route(LoadMode::Registry, &tagged), LoadRoute::Registry);
    assert_eq!(
        load_route(LoadMode::Registry, &exact),
        LoadRoute::StreamForDigest
    );
    let name = synthetic_reference("127.0.0.1:5000", &tagged).expect("a name");
    assert!(name.starts_with("127.0.0.1:5000/"));
    assert!(name.ends_with(":3.20"));
}

#[test]
fn a_lost_writer_is_the_reason_of_a_failed_load() {
    let failed = || Err(DockerPullError::CommandFailed("daemon hung up".into()));
    assert!(matches!(
        stream_outcome(failed(), WorkerEnd::Lost("panicked".into())),
        Err(DockerPullError::CommandFailed(m)) if m == "archive stream writer failed: panicked"
    ));
    assert!(matches!(
        stream_outcome(failed(), WorkerEnd::Finished(Err(DockerPullError::ManifestNotFound))),
        Err(DockerPullError::ManifestNotFound)
    ));
    assert!(matches!(
        stream_outcome(failed(), WorkerEnd::Finished(Ok(()))),
        Err(DockerPullError::CommandFailed(m)) if m == "daemon hung up"
    ));
    assert!(stream_outcome(Ok(()), WorkerEnd::Finished(Ok(()))).is_ok());
    assert!(matches!(
        lost_worker(Worker::Download, "x"),
        DockerPullError::InvalidInput(m) if m == "download worker failed: x"
    ));
    assert!(matches!(
        lost_worker(Worker::Pull, "x"),
        DockerPullError::CommandFailed(m) if m == "pull task failed: x"
    ));
}

fn common() -> PullCommonArgs {
    PullCommonArgs {
        download: DownloadArgs {
            platform: Some("linux/arm64".into()),
            concurrency: 6,
        },
        image_concurrency: 0,
        retry: RetryArgs {
            blob_retries: Some(0),
            request_retries: None,
            retry_forever: false,
        },
        import: ImportArgs {
            no_load: true,
            keep_layer_blobs: true,
            load_mode: LoadMode::Registry,
        },
        registry: RegistryArgs {
            plain_http: false,
            insecure_skip_tls_verify: false,
            ca_file: None,
        },
        auth: AuthArgs {
            username: None,
            password_stdin: false,
        },
        cache: CacheSourceArgs {
            cache_from: Some("http://cache".into()),
            cache_only: true,
        },
        quiet: true,
    }
}

#[test]
fn requests_follow_the_arguments() {
    let (references, request) = PullRequestOptions::from_pull_args(PullArgs {
        references: vec!["alpine".into()],
        common: common(),
        no_animations: true,
    });
    assert_eq!(references, vec!["alpine"]);
    assert!(request.no_animations);
    assert!(request.quiet);
    assert_eq!(request.retry.blob_retry_limit, None);
    assert_eq!(request.retry.request_retry_limit, Some(5));
    assert_eq!(request.images_at_a_time(), 1);
    let options = request.pull_options();
    assert_eq!(options.concurrency, 6);
    assert!(options.no_load);
    assert_eq!(options.load_mode, LoadMode::Registry);
    let host = Platform::of("linux", "x86_64");
    assert_eq!(
        request.platform(&host).expect("platform").as_string(),
        "linux/arm64"
    );
    assert!(request.allows_plain_http(Some("http")));
    assert!(!request.allows_plain_http(Some("https")));

    let compose = PullRequestOptions::from_compose_pull_args(ComposePullArgs {
        services: Vec::new(),
        common: common(),
    });
    assert!(compose.cache.cache_only);
}

#[test]
fn results_keep_the_order_of_their_images() {
    assert_eq!(
        place_in_order(vec![(2, "c"), (0, "a"), (1, "b")], 3),
        vec!["a", "b", "c"]
    );
    let image = ResolvedImage {
        manifest: descriptor("sha256:manifest"),
        manifest_bytes: Vec::new(),
        config: descriptor("sha256:config"),
        layers: vec![descriptor("sha256:a"), descriptor("sha256:b")],
    };
    assert_eq!(
        layer_digests(&vec![image]),
        vec![vec!["sha256:a".to_string(), "sha256:b".to_string()]]
    );
}
