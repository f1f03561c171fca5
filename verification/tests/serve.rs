//! The registry that serves the cache.
use pocker::error::DockerPullError;
use pocker::local_registry::{
    blob_response, looks_like_http_request, manifest_response, manifest_route, next_read,
    parse_request, route_suffix, synthetic_reference, synthetic_repository, LocalRead, LocalRoute,
};
use pocker::path::HostFamily;
use pocker::platform::Platform;
use pocker::reference::ImageReference;
use pocker::registry::client::raw_manifest;
use pocker::registry::types::Descriptor;
use pocker::serve_registry::request::{parse_request_head, read_request, ReadStep, Request};
use pocker::serve_registry::response::{
    body_plan, parse_byte_range, response_head, safe_header_value, BodyPlan, RegistryBody,
    RegistryResponse,
};
use pocker::serve_registry::server::{
    after_cache, after_fetch, bad_request, blob_descriptor, blob_file_response, fetched_reference,
    is_supported_digest_reference, manifest_descriptor, manifest_summary,
    names_supported_algorithm, plain_answer, route_request, serve_manifest_blob, split_route,
    upstream_reference, CacheOutcome, ManifestSummary, Route,
};
use pocker::store::Store;

fn request(method: &str, path: &str, range: Option<&str>) -> Request {
    Request {
        method: method.into(),
        path: path.into(),
        range: range.map(str::to_string),
    }
}

fn check_ranges() {
    let open = parse_byte_range("bytes=4-", 10).expect("open range should parse");
    assert_eq!((open.start, open.end, open.total), (4, 9, 10));

    let closed = parse_byte_range("bytes=4-7", 10).expect("closed range should parse");
    assert_eq!((closed.start, closed.end, closed.total), (4, 7, 10));
}

fn check_refused_ranges() {
    assert!(parse_byte_range("bytes=99-", 10).is_none());
    assert!(parse_byte_range("bytes=7-4", 10).is_none());
    assert!(parse_byte_range("bytes=4-99", 10).is_none());
    assert!(parse_byte_range("bytes=-4", 10).is_none());
}

#[test]
fn serve_registry_parse_byte_range_accepts_open_and_closed_ranges() {
    check_ranges();
}

#[test]
fn server_parse_byte_range_accepts_open_and_closed_ranges() {
    check_ranges();
}

#[test]
fn serve_registry_parse_byte_range_rejects_unsatisfiable_ranges() {
    check_refused_ranges();
}

#[test]
fn server_parse_byte_range_rejects_unsatisfiable_ranges() {
    check_refused_ranges();
}

#[test]
fn serve_registry_supported_digest_reference_accepts_sha512() {
    assert!(names_supported_algorithm(&format!(
        "sha512:{}",
        "a".repeat(128)
    )));
    assert!(names_supported_algorithm(&format!(
        "sha256:{}",
        "A".repeat(64)
    )));
    assert!(names_supported_algorithm("sha384:abc"));
    assert!(!names_supported_algorithm(&format!(
        "sha224:{}",
        "a".repeat(56)
    )));
    assert!(!names_supported_algorithm("sha512:"));
}

#[test]
fn server_supported_digest_reference_accepts_sha512() {
    assert!(is_supported_digest_reference(&format!(
        "sha512:{}",
        "a".repeat(128)
    )));
    assert!(is_supported_digest_reference(&format!(
        "sha384:{}",
        "b".repeat(96)
    )));
    assert!(is_supported_digest_reference(&format!(
        "sha256:{}",
        "c".repeat(64)
    )));
    assert!(!is_supported_digest_reference(&format!(
        "sha256:{}",
        "A".repeat(64)
    )));
    assert!(!is_supported_digest_reference("sha384:abc"));
    assert!(!is_supported_digest_reference(&format!(
        "sha224:{}",
        "a".repeat(56)
    )));
    assert!(!is_supported_digest_reference("sha512:"));
}

#[test]
fn request_head_parses_method_path_and_range() {
    let request =
        parse_request_head(b"GET /v2/library/alpine/blobs/sha256:abc HTTP/1.1\r\nRange: bytes=4-\r\nHost: cache\r\n\r\n")
            .expect("request should parse")
            .expect("request should be complete");

    assert_eq!(request.method, "GET");
    assert_eq!(request.path, "/v2/library/alpine/blobs/sha256:abc");
    assert_eq!(request.range.as_deref(), Some("bytes=4-"));
}

#[test]
fn request_head_uses_first_range_header() {
    let request =
        parse_request_head(b"GET /v2/library/alpine/blobs/sha256:abc HTTP/1.1\r\nRange: bytes=4-\r\nRange: bytes=7-\r\n\r\n")
            .expect("request should parse")
            .expect("request should be complete");

    assert_eq!(request.range.as_deref(), Some("bytes=4-"));
}

#[test]
fn partial_request_head_waits_for_more_bytes() {
    let request = parse_request_head(b"GET /v2/ HTTP/1.1\r\nHost: cache\r\n")
        .expect("partial request should not fail");

    assert!(request.is_none());
}

#[test]
fn requests_are_read_until_they_are_complete() {
    assert!(matches!(
        read_request(b"GET /v2/ HTTP/1.1\r\n", false),
        ReadStep::More
    ));
    assert!(matches!(
        read_request(b"GET /v2/ HTTP/1.1\r\n\r\n", false),
        ReadStep::Done(request) if request.path == "/v2/"
    ));
    assert!(matches!(
        read_request(b"GET /v2/ HTTP/1.1\r\n", true),
        ReadStep::Fail(_)
    ));
    assert!(matches!(
        read_request(b"\x01\x02\x03\r\n\r\n", false),
        ReadStep::Fail(DockerPullError::BadResponse(_))
    ));
}

#[test]
fn header_value_rejects_crlf() {
    assert_eq!(
        safe_header_value("application/octet-stream"),
        Some("application/octet-stream")
    );
    assert_eq!(safe_header_value("text/plain\r\nInjected: yes"), None);
    assert_eq!(safe_header_value("text/plain\nInjected: yes"), None);
}

#[test]
fn split_route_uses_last_route_separator() {
    let (repository, reference) = split_route(
        "registry.test/team/manifests/app/manifests/latest",
        "/manifests/",
    )
    .expect("route should split");

    assert_eq!(repository, "registry.test/team/manifests/app");
    assert_eq!(reference, "latest");
}

#[test]
fn manifest_summary_reads_media_type_and_config_digest() {
    let summary = manifest_summary(
        br#"{"mediaType":"application/vnd.oci.image.manifest.v1+json","config":{"digest":"sha256:aaaaaaaaaaaaaaaaaaaaaaaaaaaaaaaaaaaaaaaaaaaaaaaaaaaaaaaaaaaaaaaa"}}"#,
    );

    assert_eq!(
        summary,
        ManifestSummary {
            media_type: Some("application/vnd.oci.image.manifest.v1+json".into()),
            config_digest: Some(
                "sha256:aaaaaaaaaaaaaaaaaaaaaaaaaaaaaaaaaaaaaaaaaaaaaaaaaaaaaaaaaaaaaaaa".into()
            ),
        }
    );
}

#[test]
fn manifests_that_say_nothing_have_an_empty_summary() {
    for bytes in [&b"{not json"[..], b"{}", b"[1]"] {
        assert_eq!(
            manifest_summary(bytes),
            ManifestSummary {
                media_type: None,
                config_digest: None,
            }
        );
    }
}

#[test]
fn requests_are_routed() {
    assert!(matches!(
        route_request(&request("POST", "/v2/", None)),
        Route::Ping
    ));
    assert!(matches!(
        route_request(&request("POST", "/v2/a/b/manifests/latest", None)),
        Route::MethodNotAllowed
    ));
    assert!(matches!(
        route_request(&request("GET", "/v1/", None)),
        Route::NotFound
    ));
    assert!(matches!(
        route_request(&request("HEAD", "/v2/ghcr.io/acme/app/blobs/sha256:a", None)),
        Route::Blob { repository, digest } if repository == "ghcr.io/acme/app" && digest == "sha256:a"
    ));
    let Route::Manifest {
        repository,
        reference,
    } = route_request(&request("GET", "/v2/ghcr.io/acme/app/manifests/1.0", None))
    else {
        panic!("expected a manifest");
    };
    let upstream = upstream_reference(&repository, &reference).expect("an image");
    assert_eq!(upstream.normalized(), "ghcr.io/acme/app:1.0");
    let by_digest = upstream_reference(&repository, &format!("sha256:{}", "a".repeat(64)))
        .expect("an image");
    assert_eq!(
        by_digest.normalized(),
        format!("ghcr.io/acme/app@sha256:{}", "a".repeat(64))
    );
    assert!(upstream_reference("app", "1.0").is_err());
    assert_eq!(plain_answer(&Route::Ping).expect("an answer").status, 200);
    assert_eq!(plain_answer(&Route::NotFound).expect("an answer").status, 404);
    assert_eq!(
        plain_answer(&Route::MethodNotAllowed)
            .expect("an answer")
            .status,
        405
    );
    assert_eq!(
        bad_request(&DockerPullError::InvalidInput("no".into())).status,
        400
    );
}

#[test]
fn what_is_not_in_the_cache_is_fetched_only_on_demand() {
    assert!(matches!(after_cache(Ok(None), true), CacheOutcome::Fetch));
    assert!(matches!(
        after_cache(Ok(None), false),
        CacheOutcome::Respond(response) if response.status == 404
    ));
    assert!(matches!(
        after_cache(Err(DockerPullError::Interrupted), true),
        CacheOutcome::Respond(response) if response.status == 500
    ));
    assert!(matches!(
        after_cache(Ok(Some(RegistryResponse::empty(200, "OK"))), true),
        CacheOutcome::Respond(response) if response.status == 200
    ));
}

#[test]
fn a_failed_fetch_is_not_found_or_a_bad_gateway() {
    assert_eq!(after_fetch(Err(DockerPullError::ManifestNotFound), true).status, 404);
    assert_eq!(after_fetch(Err(DockerPullError::ManifestNotFound), false).status, 502);
    assert_eq!(
        after_fetch(Err(DockerPullError::BlobNotFound("sha256:a".into())), false).status,
        404
    );
    assert_eq!(after_fetch(Err(DockerPullError::Interrupted), true).status, 502);
}

#[test]
fn a_blob_is_sent_whole_in_part_or_not_at_all() {
    let whole = blob_file_response("/blob", 10, "sha256:a", &request("GET", "/", None));
    assert_eq!(whole.status, 200);
    assert_eq!(
        response_head(&whole),
        "HTTP/1.1 200 OK\r\nContent-Type: application/octet-stream\r\nContent-Length: 10\r\nConnection: close\r\nDocker-Distribution-API-Version: registry/2.0\r\nDocker-Content-Digest: sha256:a\r\n\r\n"
    );
    assert!(matches!(body_plan(whole), BodyPlan::WholeFile(path) if path == "/blob"));

    let head = blob_file_response("/blob", 10, "sha256:a", &request("HEAD", "/", None));
    assert_eq!(head.content_length, 10);
    assert!(matches!(body_plan(head), BodyPlan::Nothing));

    let part = blob_file_response(
        "/blob",
        10,
        "sha256:a",
        &request("GET", "/", Some("bytes=4-7")),
    );
    assert_eq!(part.status, 206);
    assert_eq!(part.content_length, 4);
    assert!(response_head(&part).contains("Content-Range: bytes 4-7/10\r\n"));
    assert!(matches!(
        body_plan(part),
        BodyPlan::PartOfFile { start: 4, len: 4, .. }
    ));

    let refused = blob_file_response(
        "/blob",
        10,
        "sha256:a",
        &request("GET", "/", Some("bytes=99-")),
    );
    assert_eq!(refused.status, 416);
}

#[test]
fn a_content_type_cannot_carry_a_header() {
    let response = RegistryResponse::file("a\r\nX: y", "/blob", 1, false, "sha256:a");
    assert!(!response_head(&response).contains("X: y"));
    let text = RegistryResponse::text(500, "Internal Server Error", "broken");
    assert!(matches!(&text.body, RegistryBody::Text(bytes) if bytes == b"broken"));
    assert!(matches!(body_plan(text), BodyPlan::Bytes(bytes) if bytes == b"broken"));
}

#[test]
fn manifests_are_served_under_their_digest() {
    let store = Store::new("/cache", HostFamily::Unix);
    let digest = format!("sha256:{}", "a".repeat(64));
    let descriptor = Descriptor {
        media_type: "".into(),
        digest: digest.clone(),
        size: 5,
        platform: None,
        annotations: None,
    };
    let response = serve_manifest_blob(&store, &descriptor, false);
    assert_eq!(response.status, 200);
    assert_eq!(
        response.content_type,
        "application/vnd.oci.image.manifest.v1+json"
    );
    assert_eq!(response.digest.as_deref(), Some(digest.as_str()));

    let host = Platform::of("linux", "x86_64");
    let described = manifest_descriptor(&digest, br#"{"mediaType":"m"}"#, &host);
    assert_eq!(described.media_type, "m");
    assert_eq!(blob_descriptor(&digest, 9).size, 9);

    let raw = raw_manifest(
        Some(digest.clone()),
        Some("m"),
        "".into(),
        br#"{"config":{"digest":"sha256:config"}}"#.to_vec(),
    );
    let image = ImageReference::parse("ghcr.io/acme/app:1.0").expect("reference should parse");
    let stored = fetched_reference(&image, &raw);
    assert_eq!(stored.reference, "ghcr.io/acme/app:1.0");
    assert_eq!(stored.config_digest, "sha256:config");
}

#[test]
fn the_local_registry_names_its_image_after_the_manifest() {
    assert_eq!(
        synthetic_repository("sha256:abc").expect("a repository"),
        "pocker-cache/sha256-abc"
    );
    assert!(synthetic_repository("abc").is_err());
    assert_eq!(
        synthetic_reference("127.0.0.1:5000", "pocker-cache/sha256-abc"),
        "127.0.0.1:5000/pocker-cache/sha256-abc:latest"
    );
}

#[test]
fn the_local_registry_reads_requests() {
    assert!(looks_like_http_request(b"G"));
    assert!(looks_like_http_request(b"HEAD / HTTP/1.1"));
    assert!(!looks_like_http_request(b"\x16\x03"));
    assert!(matches!(next_read(b"GET /", false), LocalRead::More));
    assert!(matches!(next_read(b"GET /\r\n\r\n", false), LocalRead::Parse));
    assert!(matches!(next_read(b"", true), LocalRead::Parse));
    assert!(matches!(
        next_read(b"\x16", false),
        LocalRead::Fail(DockerPullError::BadResponse(_))
    ));
    let mut long = b"GET /".to_vec();
    long.resize(70_000, b'a');
    assert!(matches!(
        next_read(&long, false),
        LocalRead::Fail(DockerPullError::InvalidInput(_))
    ));
    let request = parse_request(b"HEAD /v2/ HTTP/1.1\r\nHost: x\r\n\r\n").expect("a request");
    assert_eq!((request.method.as_str(), request.path.as_str()), ("HEAD", "/v2/"));
    for (bytes, message) in [
        (&b""[..], "empty HTTP request"),
        (b"\r\n", "missing HTTP method"),
        (b"GET\r\n", "missing HTTP path"),
    ] {
        assert!(matches!(
            parse_request(bytes),
            Err(DockerPullError::BadResponse(m)) if m == message
        ));
    }
    assert!(matches!(
        parse_request(&[0xff]),
        Err(DockerPullError::BadResponse(m))
            if m == "invalid HTTP request: invalid utf-8 sequence of 1 bytes from index 0"
    ));
}

#[test]
fn the_local_registry_serves_one_image() {
    let repository = "pocker-cache/sha256-abc";
    let route = |path: &str| pocker::local_registry::route_request(path, repository, "sha256:abc");
    assert!(matches!(route("/v2/"), LocalRoute::Ping));
    assert!(matches!(
        route("/v2/pocker-cache/sha256-abc/manifests/latest"),
        LocalRoute::Manifest
    ));
    assert!(matches!(
        route("/v2/pocker-cache/sha256-abc/manifests/sha256%3Aabc"),
        LocalRoute::Manifest
    ));
    assert!(matches!(
        route("/v2/pocker-cache/sha256-abc/manifests/other"),
        LocalRoute::NotFound
    ));
    assert!(matches!(
        route("/v2/pocker-cache/sha256-abc/blobs/sha256%3Adef"),
        LocalRoute::Blob(digest) if digest == "sha256:def"
    ));
    assert!(matches!(
        route("/v2/other/blobs/sha256:def"),
        LocalRoute::NotFound
    ));
    assert!(matches!(route("/"), LocalRoute::NotFound));
    assert_eq!(route_suffix("a/blobs/b", "a", "/blobs/"), Some("b"));
    assert!(matches!(
        manifest_route("latest", "sha256:abc"),
        LocalRoute::Manifest
    ));
}

#[test]
fn the_local_registry_answers_with_what_was_read() {
    let manifest = Descriptor {
        media_type: "".into(),
        digest: "sha256:abc".into(),
        size: 2,
        platform: None,
        annotations: None,
    };
    let answer = manifest_response(&manifest, Ok(b"{}".to_vec()), false);
    assert_eq!(answer.status, 200);
    assert_eq!(answer.content_length, 2);
    assert_eq!(
        answer.content_type,
        "application/vnd.oci.image.manifest.v1+json"
    );
    let head = manifest_response(&manifest, Ok(b"{}".to_vec()), true);
    assert!(matches!(head.body, RegistryBody::Empty));
    assert_eq!(head.content_length, 2);
    assert_eq!(
        manifest_response(&manifest, Err(DockerPullError::Interrupted), false).status,
        500
    );
    assert_eq!(
        blob_response("sha256:abc", Ok(b"x".to_vec()), false).content_type,
        "application/octet-stream"
    );
    assert_eq!(
        blob_response(
            "sha256:abc",
            Err(DockerPullError::MissingBlobFile("sha256:abc".into(), "/x".into())),
            false
        )
        .status,
        404
    );
    assert_eq!(
        blob_response("sha256:abc", Err(DockerPullError::Interrupted), false).status,
        500
    );
}
