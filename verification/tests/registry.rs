//! Requests to registries and what their answers lead to.
use pocker::auth::Credentials;
use pocker::error::DockerPullError;
use pocker::platform::Platform;
use pocker::reference::ImageReference;
use pocker::registry::cache::{
    cache_repository, cache_scheme, cache_url, can_extend, decode_cache_repository, parse_address,
    resource_url, resource_url_below,
};
use pocker::registry::challenge::{parse_www_authenticate, token_cache_key};
use pocker::registry::client::{
    authorization, blob_metadata, blob_range, content_media_type, ensure_blob_status,
    ensure_manifest_status, falls_back, is_retryable_failure, is_retryable_status, manifest_accept,
    new_request, next_request_action, raw_manifest, retry_after_delay, Authorization,
    RegistryAddresses, RequestAction, RequestEvent, RequestMode, RequestPolicy,
};
use pocker::registry::resolve::{
    is_image_index, is_image_manifest, on_envelope, on_index, on_manifest, on_manifest_response,
    start_resolving, ResolveAction,
};
use pocker::registry::types::{
    Descriptor, ImageIndex, ImageManifest, ManifestEnvelope, Status,
};
use pocker::retry::Delay;
use url::Url;

const MANIFEST_TYPE: &str = "application/vnd.oci.image.manifest.v1+json";
const INDEX_TYPE: &str = "application/vnd.oci.image.index.v1+json";

fn reference(text: &str) -> ImageReference {
    ImageReference::parse(text).expect("reference should parse")
}

fn status(code: u16, text: &str) -> Status {
    Status {
        code,
        text: text.to_string(),
    }
}

fn descriptor(digest: &str, platform: Option<&str>) -> Descriptor {
    Descriptor {
        media_type: MANIFEST_TYPE.into(),
        digest: digest.into(),
        size: 7,
        platform: platform.map(|text| Platform::parse(text).expect("platform should parse")),
        annotations: None,
    }
}

fn check_token_cache_keys() {
    let left = reference("ghcr.io/acme/app:latest");
    let right = reference("docker.io/acme/app:latest");

    assert_ne!(token_cache_key(&left), token_cache_key(&right));
}

fn check_quoted_challenge() {
    let challenge = parse_www_authenticate(
        r#"Bearer realm="https://auth.example/token",service="registry.example",scope="repository:acme/app:pull,push""#,
    )
    .expect("challenge should parse");

    assert_eq!(challenge.scheme, "Bearer");
    assert_eq!(challenge.realm, "https://auth.example/token");
    assert_eq!(challenge.service.as_deref(), Some("registry.example"));
    assert_eq!(
        challenge.scope.as_deref(),
        Some("repository:acme/app:pull,push")
    );
}

fn check_cache_repository() {
    let repository = cache_repository("registry.example:5000", "team/app");

    assert_eq!(repository, "registry.example:5000/team/app");
    assert_eq!(
        decode_cache_repository(&repository).expect("cache repository should decode"),
        ("registry.example:5000".to_string(), "team/app".to_string())
    );
}

fn check_malformed_cache_repositories() {
    assert!(decode_cache_repository("registry.example").is_err());
    assert!(decode_cache_repository("/team/app").is_err());
    assert!(decode_cache_repository("registry.example/").is_err());
}

#[test]
fn registry_token_cache_key_includes_registry_host() {
    check_token_cache_keys();
}

#[test]
fn client_token_cache_key_includes_registry_host() {
    check_token_cache_keys();
}

#[test]
fn registry_parse_www_authenticate_keeps_commas_inside_quoted_values() {
    check_quoted_challenge();
}

#[test]
fn client_parse_www_authenticate_keeps_commas_inside_quoted_values() {
    check_quoted_challenge();
}

#[test]
fn registry_cache_repository_keeps_registry_as_first_segment() {
    check_cache_repository();
}

#[test]
fn client_cache_repository_keeps_registry_as_first_segment() {
    check_cache_repository();
}

#[test]
fn registry_decode_cache_repository_rejects_malformed_paths() {
    check_malformed_cache_repositories();
}

#[test]
fn client_decode_cache_repository_rejects_malformed_paths() {
    check_malformed_cache_repositories();
}

#[test]
fn challenges_without_a_realm_or_a_scheme_are_refused() {
    assert!(parse_www_authenticate(r#"Bearer service="registry.example""#).is_err());
    assert!(parse_www_authenticate("Bearer").is_err());
}

#[test]
fn descriptor_expected_size_rejects_negative_values() {
    let descriptor = Descriptor {
        media_type: "application/octet-stream".into(),
        digest: "sha256:aaaaaaaaaaaaaaaaaaaaaaaaaaaaaaaaaaaaaaaaaaaaaaaaaaaaaaaaaaaaaaaa".into(),
        size: -1,
        platform: None,
        annotations: None,
    };

    let error = descriptor
        .expected_size()
        .expect_err("negative descriptor size should fail");

    assert!(matches!(error, DockerPullError::InvalidInput(_)));
}

#[test]
fn descriptor_sizes_that_are_not_negative_are_sizes() {
    assert_eq!(
        descriptor("sha256:a", None).expected_size().expect("a size"),
        7
    );
}

#[test]
fn resource_url_encodes_path_segments_without_losing_base_path() {
    let url = resource_url(
        Url::parse("http://cache.example:5000/pocker?ignored=true").expect("base URL"),
        "registry-1.docker.io/library/alpine",
        "manifests",
        "release/with/slashes",
    )
    .expect("resource URL should build");

    assert_eq!(
        url.as_str(),
        "http://cache.example:5000/pocker/v2/registry-1.docker.io/library/alpine/manifests/release%2Fwith%2Fslashes"
    );
}

#[test]
fn addresses_that_cannot_be_built_on_are_refused() {
    assert!(matches!(
        resource_url_below("not a url", "team/app", "manifests", "latest"),
        Some(Err(DockerPullError::Url(_)))
    ));
    let mail = Url::parse("mailto:someone@example.test?subject=x#y").expect("a URL");
    assert!(matches!(
        resource_url(mail, "team/app", "manifests", "latest"),
        Err(DockerPullError::InvalidInput(message))
            if message == "invalid registry URL base `mailto:someone@example.test`"
    ));
}

#[test]
fn addresses_lose_their_query_and_fragment() {
    for (base, expected) in [
        ("http://h/p?q=1#f?g", "http://h/p/v2/a/blobs/d"),
        ("http://h/p#f?g", "http://h/p/v2/a/blobs/d"),
        ("http://h?q", "http://h/v2/a/blobs/d"),
        ("HTTP://h", "http://h/v2/a/blobs/d"),
    ] {
        let url = resource_url_below(base, "a", "blobs", "d").expect("short enough");
        assert_eq!(url.expect("a URL"), expected);
    }
    let url = Url::parse("http://h/p").expect("a URL");
    assert!(can_extend(&url, "a", "blobs", "d"));
    assert_eq!(parse_address("http://h/p").expect("a URL"), url);
}

#[test]
fn the_cache_is_asked_first_and_the_registry_after_it() {
    let image = reference("ghcr.io/acme/app:1.0");
    let both = RegistryAddresses {
        plain_http: false,
        cache_from: Some("http://cache.test:5000".into()),
        cache_only: false,
    };
    assert_eq!(
        both.primary_url(&image, "manifests", "1.0")
            .expect("short enough")
            .expect("url"),
        "http://cache.test:5000/v2/ghcr.io/acme/app/manifests/1.0"
    );
    assert_eq!(
        both.fallback_url(&image, "manifests", "1.0")
            .expect("short enough")
            .expect("url")
            .as_deref(),
        Some("https://ghcr.io/v2/acme/app/manifests/1.0")
    );
    assert_eq!(
        cache_url(
            Url::parse("http://cache.test:5000").expect("a URL"),
            &image,
            "manifests",
            "1.0"
        )
        .expect("url")
        .as_str(),
        "http://cache.test:5000/v2/ghcr.io/acme/app/manifests/1.0"
    );

    let cache_only = RegistryAddresses {
        plain_http: false,
        cache_from: Some("http://cache.test:5000".into()),
        cache_only: true,
    };
    assert!(cache_only
        .fallback_url(&image, "manifests", "1.0")
        .expect("short enough")
        .expect("url")
        .is_none());

    let direct = RegistryAddresses {
        plain_http: true,
        cache_from: None,
        cache_only: false,
    };
    assert_eq!(
        direct
            .primary_url(&image, "blobs", "sha256:a")
            .expect("short enough")
            .expect("url"),
        "http://ghcr.io/v2/acme/app/blobs/sha256:a"
    );
    assert!(direct
        .fallback_url(&image, "blobs", "sha256:a")
        .expect("short enough")
        .expect("url")
        .is_none());
}

#[test]
fn only_a_miss_in_the_cache_leads_to_the_registry() {
    assert!(falls_back(404, true));
    assert!(!falls_back(404, false));
    assert!(!falls_back(200, true));
}

#[test]
fn a_token_wins_over_a_password() {
    let credentials = Some(Credentials::Basic {
        username: "alice".into(),
        password: "secret".into(),
    });
    assert!(matches!(
        authorization(Some("token".into()), &credentials),
        Authorization::Bearer(token) if token == "token"
    ));
    assert!(matches!(
        authorization(None, &credentials),
        Authorization::Basic { username, password } if username == "alice" && password == "secret"
    ));
    assert!(matches!(authorization(None, &None), Authorization::Anonymous));
    assert!(RequestMode::Direct.uses_registry_auth());
    assert!(!RequestMode::Cache.uses_registry_auth());
}

const POLICY: RequestPolicy = RequestPolicy {
    mode: RequestMode::Direct,
    allow_retry: true,
    retry_limit: Some(2),
};

#[test]
fn requests_stop_after_retry_budget_exhaustion() {
    let image = reference("registry.test/acme/app:1.0");
    let mut state = new_request();
    for _ in 0..2 {
        let action = next_request_action(
            POLICY,
            &image,
            &mut state,
            RequestEvent::Response {
                status: status(503, "503 Service Unavailable"),
                challenge: None,
                retry_after: None,
            },
            Delay::from_secs(1),
        );
        assert!(matches!(action, RequestAction::Retry { delay, .. } if delay == Delay::from_secs(1)));
    }
    let action = next_request_action(
        POLICY,
        &image,
        &mut state,
        RequestEvent::Response {
            status: status(503, "503 Service Unavailable"),
            challenge: None,
            retry_after: None,
        },
        Delay::from_secs(1),
    );
    assert!(matches!(
        action,
        RequestAction::Fail(DockerPullError::RetryLimitExceeded { retries: 2, .. })
    ));
}

#[test]
fn a_response_says_how_long_to_wait() {
    let image = reference("registry.test/acme/app:1.0");
    let mut state = new_request();
    let action = next_request_action(
        POLICY,
        &image,
        &mut state,
        RequestEvent::Response {
            status: status(429, "429 Too Many Requests"),
            challenge: None,
            retry_after: Some(Delay::from_secs(9)),
        },
        Delay::from_secs(1),
    );
    assert!(matches!(action, RequestAction::Retry { delay, .. } if delay == Delay::from_secs(9)));
    assert_eq!(state.retries, 1);
}

#[test]
fn a_challenge_leads_to_a_token_and_the_token_to_another_request() {
    let image = reference("registry.test/acme/app:1.0");
    let mut state = new_request();
    let challenge = || RequestEvent::Response {
        status: status(401, "401 Unauthorized"),
        challenge: Some(Ok(
            r#"Bearer realm="https://auth.test/token",service="registry.test""#.into(),
        )),
        retry_after: None,
    };
    let action =
        next_request_action(POLICY, &image, &mut state, challenge(), Delay::from_secs(1));
    assert!(matches!(
        action,
        RequestAction::FetchToken { realm, service, scope }
            if realm == "https://auth.test/token"
                && service == "registry.test"
                && scope == "repository:acme/app:pull"
    ));
    let action = next_request_action(
        POLICY,
        &image,
        &mut state,
        RequestEvent::Token {
            token: None,
            access_token: Some("opaque".into()),
        },
        Delay::from_secs(1),
    );
    assert!(matches!(action, RequestAction::Resend { token } if token == "opaque"));
    let action = next_request_action(
        POLICY,
        &image,
        &mut state,
        RequestEvent::Response {
            status: status(200, "200 OK"),
            challenge: None,
            retry_after: None,
        },
        Delay::from_secs(1),
    );
    assert!(matches!(action, RequestAction::Done));
}

#[test]
fn challenges_are_not_answered_for_ever() {
    let image = reference("registry.test/acme/app:1.0");
    let mut state = new_request();
    let mut fetched = 0;
    loop {
        let action = next_request_action(
            POLICY,
            &image,
            &mut state,
            RequestEvent::Response {
                status: status(401, "401 Unauthorized"),
                challenge: Some(Ok(r#"Bearer realm="https://auth.test/token""#.into())),
                retry_after: None,
            },
            Delay::from_secs(1),
        );
        match action {
            RequestAction::FetchToken { .. } => fetched += 1,
            RequestAction::Fail(DockerPullError::Unauthorized(_)) => break,
            other => panic!("unexpected {other:?}"),
        }
        let _ = next_request_action(
            POLICY,
            &image,
            &mut state,
            RequestEvent::Token {
                token: Some("t".into()),
                access_token: None,
            },
            Delay::from_secs(1),
        );
        assert!(fetched < 10);
    }
    assert!(fetched >= 1);
}

#[test]
fn a_cache_gets_no_credentials() {
    let image = reference("registry.test/acme/app:1.0");
    let mut state = new_request();
    let action = next_request_action(
        RequestPolicy {
            mode: RequestMode::Cache,
            allow_retry: true,
            retry_limit: None,
        },
        &image,
        &mut state,
        RequestEvent::Response {
            status: status(401, "401 Unauthorized"),
            challenge: Some(Ok(r#"Bearer realm="https://auth.test/token""#.into())),
            retry_after: None,
        },
        Delay::from_secs(1),
    );
    assert!(matches!(
        action,
        RequestAction::Fail(DockerPullError::Unauthorized(name)) if name == "registry.test/acme/app:1.0"
    ));
}

#[test]
fn failures_to_send_and_refused_tokens_end_a_request() {
    let image = reference("registry.test/acme/app:1.0");
    let mut state = new_request();
    let action = next_request_action(
        POLICY,
        &image,
        &mut state,
        RequestEvent::SendFailed {
            retryable: false,
            message: "bad url".into(),
        },
        Delay::from_secs(1),
    );
    assert!(matches!(action, RequestAction::Fail(DockerPullError::Http(m)) if m == "bad url"));
    let action = next_request_action(
        POLICY,
        &image,
        &mut state,
        RequestEvent::SendFailed {
            retryable: true,
            message: "timed out".into(),
        },
        Delay::from_secs(1),
    );
    assert!(matches!(action, RequestAction::Retry { .. }));
    let action = next_request_action(
        POLICY,
        &image,
        &mut state,
        RequestEvent::TokenRefused {
            status: status(403, "403 Forbidden"),
        },
        Delay::from_secs(1),
    );
    assert!(matches!(
        action,
        RequestAction::Fail(DockerPullError::Unauthorized(m)) if m == "token endpoint returned 403 Forbidden"
    ));
    let action = next_request_action(
        POLICY,
        &image,
        &mut state,
        RequestEvent::TokenFailed {
            message: "refused".into(),
        },
        Delay::from_secs(1),
    );
    assert!(matches!(action, RequestAction::Fail(DockerPullError::Http(m)) if m == "refused"));
}

#[test]
fn some_failures_are_worth_another_try() {
    for code in [408, 429, 500, 502, 503, 504] {
        assert!(is_retryable_status(code), "{code}");
    }
    for code in [200, 400, 401, 403, 404] {
        assert!(!is_retryable_status(code), "{code}");
    }
    assert!(is_retryable_failure(true, false, false, false));
    assert!(!is_retryable_failure(false, false, false, false));
}

#[test]
fn retry_after_is_seconds_or_a_date() {
    let now = Delay::from_secs(784_111_700);
    assert_eq!(
        retry_after_delay(Some("120"), now),
        Some(Delay::from_secs(120))
    );
    assert_eq!(
        retry_after_delay(Some("Sun, 06 Nov 1994 08:49:37 GMT"), now),
        Some(Delay::from_secs(77))
    );
    assert_eq!(
        retry_after_delay(
            Some("Sun, 06 Nov 1994 08:49:37 GMT"),
            Delay::from_secs(800_000_000)
        ),
        None
    );
    assert_eq!(retry_after_delay(Some("later"), now), None);
    assert_eq!(retry_after_delay(None, now), None);
}

#[test]
fn statuses_of_manifests_and_blobs_are_checked() {
    assert!(ensure_manifest_status(&status(200, "200 OK"), "manifest").is_ok());
    assert!(matches!(
        ensure_manifest_status(&status(404, "404 Not Found"), "manifest"),
        Err(DockerPullError::ManifestNotFound)
    ));
    assert!(matches!(
        ensure_manifest_status(&status(418, "418 I'm a teapot"), "manifest"),
        Err(DockerPullError::BadResponse(m)) if m == "registry returned 418 I'm a teapot for manifest"
    ));
    assert!(matches!(
        ensure_blob_status(&status(404, "404 Not Found"), "sha256:a"),
        Err(DockerPullError::BlobNotFound(digest)) if digest == "sha256:a"
    ));
    assert!(matches!(
        ensure_blob_status(&status(403, "403 Forbidden"), "sha256:a"),
        Err(DockerPullError::BadResponse(_))
    ));
    assert_eq!(
        blob_metadata(&status(200, "200 OK"), Some("42"), "sha256:a")
            .expect("metadata")
            .size,
        Some(42)
    );
    assert_eq!(
        blob_metadata(&status(200, "200 OK"), Some("many"), "sha256:a")
            .expect("metadata")
            .size,
        None
    );
    assert!(blob_metadata(&status(500, "500 Internal Server Error"), None, "sha256:a").is_err());
}

#[test]
fn headers_are_read_and_written() {
    assert_eq!(
        content_media_type(Some("application/json; charset=utf-8")),
        "application/json"
    );
    assert_eq!(content_media_type(None), "");
    assert_eq!(blob_range(0), None);
    assert_eq!(blob_range(42).as_deref(), Some("bytes=42-"));
    assert!(manifest_accept().contains(INDEX_TYPE));
    assert!(manifest_accept().contains(MANIFEST_TYPE));
}

#[test]
fn a_raw_manifest_is_described_by_its_headers_or_its_content() {
    let described = raw_manifest(
        Some("sha256:given".into()),
        Some("text/plain"),
        "own".into(),
        b"{}".to_vec(),
    );
    assert_eq!(described.descriptor.digest, "sha256:given");
    assert_eq!(described.descriptor.media_type, "text/plain");
    let computed = raw_manifest(None, None, "own".into(), b"{}".to_vec());
    assert_eq!(
        computed.descriptor.digest,
        "sha256:44136fa355b3678a1146ad16f7e8649e94fb4fc21fe77e8310c060f61caaff8a"
    );
    assert_eq!(computed.descriptor.media_type, "own");
    assert_eq!(computed.descriptor.size, 2);
}

fn manifest() -> ImageManifest {
    ImageManifest {
        media_type: MANIFEST_TYPE.into(),
        config: descriptor("sha256:config", None),
        layers: vec![descriptor("sha256:layer", None)],
    }
}

#[test]
fn an_index_leads_to_the_manifest_of_the_platform() {
    let wanted = Platform::parse("linux/amd64").expect("platform should parse");
    let mut state = start_resolving();
    let action = on_manifest_response(&mut state, &status(200, "200 OK"), None, Some(INDEX_TYPE));
    assert!(matches!(action, ResolveAction::DecodeEnvelope));
    let action = on_envelope(
        &mut state,
        ManifestEnvelope {
            schema_version: 2,
            media_type: "".into(),
        },
    );
    assert!(matches!(action, ResolveAction::DecodeIndex));
    let action = on_index(
        &mut state,
        ImageIndex {
            manifests: vec![
                descriptor("sha256:arm", Some("linux/arm64")),
                descriptor("sha256:amd", Some("linux/amd64")),
            ],
        },
        &wanted,
    );
    assert!(matches!(action, ResolveAction::FetchDigest(digest) if digest == "sha256:amd"));
    let unread = Some(Err("not text".to_string()));
    let action = on_manifest_response(&mut state, &status(200, "200 OK"), unread, None);
    assert!(matches!(action, ResolveAction::DecodeManifest));
    let action = on_manifest(&mut state, manifest(), b"body".to_vec(), &wanted);
    let ResolveAction::Done(resolved) = action else {
        panic!("expected an image");
    };
    assert_eq!(resolved.manifest.digest, "sha256:amd");
    assert_eq!(resolved.manifest_bytes, b"body");
    assert_eq!(resolved.config.digest, "sha256:config");
    assert_eq!(resolved.layers.len(), 1);
}

#[test]
fn a_manifest_is_an_image_by_itself() {
    let wanted = Platform::parse("linux/amd64").expect("platform should parse");
    let mut state = start_resolving();
    let _ = on_manifest_response(&mut state, &status(200, "200 OK"), None, None);
    let action = on_envelope(
        &mut state,
        ManifestEnvelope {
            schema_version: 2,
            media_type: MANIFEST_TYPE.into(),
        },
    );
    assert!(matches!(action, ResolveAction::DecodeManifest));
    let action = on_manifest(&mut state, manifest(), b"{}".to_vec(), &wanted);
    assert!(matches!(
        action,
        ResolveAction::Done(resolved) if resolved.manifest.digest
            == "sha256:44136fa355b3678a1146ad16f7e8649e94fb4fc21fe77e8310c060f61caaff8a"
    ));
}

#[test]
fn missing_child_manifests_and_platforms_are_reported() {
    let wanted = Platform::parse("linux/s390x").expect("platform should parse");
    let mut state = start_resolving();
    let _ = on_manifest_response(&mut state, &status(200, "200 OK"), None, Some(INDEX_TYPE));
    let _ = on_envelope(
        &mut state,
        ManifestEnvelope {
            schema_version: 2,
            media_type: "".into(),
        },
    );
    let action = on_index(
        &mut state,
        ImageIndex {
            manifests: vec![descriptor("sha256:amd", Some("linux/amd64"))],
        },
        &wanted,
    );
    assert!(matches!(
        action,
        ResolveAction::Fail(DockerPullError::PlatformNotFound(name)) if name == "linux/s390x"
    ));

    let wanted = Platform::parse("linux/amd64").expect("platform should parse");
    let mut state = start_resolving();
    let _ = on_manifest_response(&mut state, &status(200, "200 OK"), None, Some(INDEX_TYPE));
    let _ = on_envelope(
        &mut state,
        ManifestEnvelope {
            schema_version: 2,
            media_type: "".into(),
        },
    );
    let _ = on_index(
        &mut state,
        ImageIndex {
            manifests: vec![descriptor("sha256:amd", Some("linux/amd64"))],
        },
        &wanted,
    );
    let action = on_manifest_response(&mut state, &status(404, "404 Not Found"), None, None);
    assert!(matches!(
        action,
        ResolveAction::Fail(DockerPullError::ManifestNotFound)
    ));
}

#[test]
fn an_unreadable_digest_counts_only_for_the_first_manifest() {
    let broken = || Some(Err("not text".to_string()));
    let mut state = start_resolving();
    let ok = status(200, "200 OK");
    assert!(matches!(
        on_manifest_response(&mut state, &ok, broken(), None),
        ResolveAction::Fail(DockerPullError::Header(message)) if message == "not text"
    ));
    let mut state = start_resolving();
    assert!(matches!(
        on_manifest_response(&mut state, &status(404, "404 Not Found"), broken(), None),
        ResolveAction::Fail(DockerPullError::ManifestNotFound)
    ));
}

#[test]
fn unsupported_manifests_are_refused() {
    let mut state = start_resolving();
    let _ = on_manifest_response(&mut state, &status(200, "200 OK"), None, None);
    let action = on_envelope(
        &mut state,
        ManifestEnvelope {
            schema_version: 1,
            media_type: "".into(),
        },
    );
    assert!(matches!(
        action,
        ResolveAction::Fail(DockerPullError::BadResponse(m)) if m == "unsupported schemaVersion 1"
    ));

    let mut state = start_resolving();
    let _ = on_manifest_response(&mut state, &status(200, "200 OK"), None, Some("text/html"));
    let action = on_envelope(
        &mut state,
        ManifestEnvelope {
            schema_version: 2,
            media_type: "".into(),
        },
    );
    assert!(matches!(
        action,
        ResolveAction::Fail(DockerPullError::UnsupportedMediaType(kind)) if kind == "text/html"
    ));
    assert!(is_image_manifest(MANIFEST_TYPE));
    assert!(is_image_index(INDEX_TYPE));
    assert!(!is_image_index(MANIFEST_TYPE));
}

#[test]
fn the_scheme_of_a_cache_is_read() {
    assert_eq!(
        cache_scheme(Some("HTTP://127.0.0.1:5000/base")).expect("an address"),
        Some("http".to_string())
    );
    assert_eq!(
        cache_scheme(Some("https://cache.example")).expect("an address"),
        Some("https".to_string())
    );
    assert_eq!(cache_scheme(None).expect("no address"), None);
    assert!(matches!(
        cache_scheme(Some("cache")),
        Err(DockerPullError::Url(message)) if message == "relative URL without a base"
    ));
}

#[test]
fn addresses_have_a_mode() {
    let mut addresses = RegistryAddresses {
        plain_http: false,
        cache_from: None,
        cache_only: false,
    };
    assert_eq!(addresses.mode(), RequestMode::Direct);
    addresses.cache_from = Some("http://127.0.0.1:5000".into());
    assert_eq!(addresses.mode(), RequestMode::Cache);
}
