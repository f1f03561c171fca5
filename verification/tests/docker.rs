//! The docker daemon: where it is, what it is asked and what it answers.
use pocker::compose::env::Variables;
use pocker::digest::DigestRun;
use pocker::docker::api::{
    build_failure_error, create_path, daemon_inspect_target, encode_path_segment,
    encode_query_value, ensure_json_stream_success, ensure_success_status, inspect_answer,
    inspect_path, is_same_image, normalize_image_id, remove_path, save_path,
    split_tagged_reference, tag_path,
};
use pocker::docker::chunked::{
    body_framing, decode_chunked_body, find_head, header_value, parse_response_head, whole_body,
    ChunkReader, Framing, HeadProgress,
};
use pocker::docker::endpoint::{
    chosen_host, docker_endpoint_for, docker_endpoint_from_host, DockerEndpoint,
    DEFAULT_DOCKER_HOST, DEFAULT_WINDOWS_DOCKER_HOST,
};
use pocker::docker::layers::{
    archive_targets, check_digest, choose_from_daemon_images, daemon_layer_coverage,
    ensure_all_found, extracted_layer_path, is_gzip, layer_to_extract, ordered_unique_image_ids,
    wanted_diff_ids, DaemonImage, DaemonImageSummary,
};
use pocker::docker::pipe::{
    after_body_read, after_chunk_read, after_head_read, encode_chunk, last_chunk, request_head,
    take_from_body, tries_again, HeadRead,
};
use pocker::error::DockerPullError;
use pocker::image::LayerSpec;
use pocker::path::HostFamily;
use pocker::reference::{ImageReference, ReferenceTarget};
use pocker::registry::types::{Descriptor, Status};

fn status(code: u16, text: &str) -> Status {
    Status {
        code,
        text: text.to_string(),
    }
}

fn digest_reference() -> ImageReference {
    ImageReference {
        registry: "ghcr.io".into(),
        repository: "acme/app".into(),
        target: ReferenceTarget::Digest("sha256:beef".into()),
    }
}

const ABC: &str = "sha256:ba7816bf8f01cfea414140de5dae2223b00361a396177a9cb410ff61f20015ad";

#[test]
fn docker_inspect_target_uses_display_name_for_tagged_references() {
    let reference = ImageReference::parse("alpine:latest").expect("reference should parse");
    assert_eq!(
        daemon_inspect_target(&reference, "sha256:deadbeef"),
        "alpine:latest"
    );
}

#[test]
fn mod_inspect_target_uses_display_name_for_tagged_references() {
    let reference = ImageReference::parse("alpine:latest").expect("reference should parse");
    assert_eq!(
        daemon_inspect_target(&reference, "sha256:deadbeef"),
        "alpine:latest"
    );
}

#[test]
fn docker_inspect_target_uses_config_digest_for_digest_references() {
    assert_eq!(
        daemon_inspect_target(&digest_reference(), "sha256:deadbeef"),
        "sha256:deadbeef"
    );
}

#[test]
fn mod_inspect_target_uses_config_digest_for_digest_references() {
    assert_eq!(
        daemon_inspect_target(&digest_reference(), "sha256:deadbeef"),
        "sha256:deadbeef"
    );
}

#[test]
fn docker_docker_host_defaults_to_unix_socket() {
    let endpoint = docker_endpoint_from_host(DEFAULT_DOCKER_HOST)
        .expect("default docker host should parse");
    assert!(matches!(endpoint, DockerEndpoint::Unix(path) if path == "/var/run/docker.sock"));
}

#[test]
fn mod_docker_host_defaults_to_unix_socket() {
    let endpoint = docker_endpoint_from_host(DEFAULT_DOCKER_HOST)
        .expect("default docker host should parse");
    assert!(matches!(endpoint, DockerEndpoint::Unix(path) if path == "/var/run/docker.sock"));
}

#[test]
fn docker_docker_host_supports_tcp() {
    let endpoint =
        docker_endpoint_from_host("tcp://127.0.0.1:2375").expect("tcp docker host should parse");
    assert!(matches!(endpoint, DockerEndpoint::Http(base) if base == "http://127.0.0.1:2375"));
}

#[test]
fn mod_docker_host_supports_tcp() {
    let endpoint =
        docker_endpoint_from_host("tcp://127.0.0.1:2375").expect("tcp docker host should parse");
    assert!(matches!(endpoint, DockerEndpoint::Http(base) if base == "http://127.0.0.1:2375"));
}

#[test]
fn docker_host_named_pipe_reports_actionable_error_on_all_hosts() {
    let error = docker_endpoint_from_host("npipe:////./pipe/docker_engine")
        .expect_err("named pipe host should be rejected explicitly");
    assert_eq!(
        error.message(),
        "docker named pipes are not supported; set DOCKER_HOST to a tcp://, http://, or https:// endpoint"
    );
}

#[test]
fn docker_host_supports_windows_named_pipe() {
    let endpoint = docker_endpoint_for(DEFAULT_WINDOWS_DOCKER_HOST, HostFamily::Windows)
        .expect("windows named pipe host should parse");
    assert!(
        matches!(endpoint, DockerEndpoint::NamedPipe(path) if path == r"\\.\pipe\docker_engine")
    );
}

#[test]
fn docker_host_trims_trailing_slashes() {
    let endpoint = docker_endpoint_from_host("https://docker.example.test///")
        .expect("https docker host should parse");
    assert!(
        matches!(endpoint, DockerEndpoint::Http(base) if base == "https://docker.example.test")
    );
}

#[test]
fn other_docker_hosts_are_refused() {
    assert!(docker_endpoint_from_host("ssh://host").is_err());
    assert_eq!(
        chosen_host(Some("tcp://h:1".into()), HostFamily::Unix),
        "tcp://h:1"
    );
    assert_eq!(chosen_host(None, HostFamily::Unix), DEFAULT_DOCKER_HOST);
    assert_eq!(
        chosen_host(Some(" ".into()), HostFamily::Windows),
        DEFAULT_WINDOWS_DOCKER_HOST
    );
}

#[test]
fn docker_api_response_head_parses_status_and_headers() {
    let (status, headers) =
        parse_response_head(b"HTTP/1.1 201 Created\r\nContent-Type: application/json\r\n\r\n")
            .expect("response head should parse");

    assert_eq!(status, 201);
    assert_eq!(
        header_value(&headers, "content-type"),
        Some("application/json")
    );
}

#[test]
fn response_heads_that_are_not_http_are_refused() {
    assert!(matches!(
        parse_response_head(b"not http at all\r\n\r\n"),
        Err(DockerPullError::BadResponse(_))
    ));
    assert!(parse_response_head(b"HTTP/1.1 200 OK\r\n").is_err());
}

#[test]
fn the_end_of_a_head_is_found() {
    assert_eq!(find_head(b"a\r\n\r\nb"), HeadProgress::Complete(5));
    assert_eq!(find_head(b"a\r\n"), HeadProgress::Incomplete);
    assert_eq!(find_head(&vec![b'a'; 70_000]), HeadProgress::TooLarge);
}

#[test]
fn docker_api_chunked_body_decodes() {
    let body = decode_chunked_body(b"4\r\npock\r\n2\r\ner\r\n0\r\n\r\n")
        .expect("chunked body should decode");

    assert_eq!(body, b"pocker");
}

#[test]
fn zero_length_chunk_ends_decoding() {
    let body = decode_chunked_body(b"0\r\n\r\nignored")
        .expect("zero-length chunk should finish the body");

    assert!(body.is_empty());
}

#[test]
fn chunks_that_are_cut_short_or_have_no_size_are_refused() {
    assert!(matches!(
        decode_chunked_body(b"4\r\npo"),
        Err(DockerPullError::BadResponse(_))
    ));
    assert!(matches!(
        decode_chunked_body(b"zz\r\npocker\r\n"),
        Err(DockerPullError::BadResponse(_))
    ));
}

#[test]
fn a_chunked_body_can_arrive_in_parts() {
    let body: &[u8] = b"4;name=value\r\npock\r\n2\r\ner\r\n0\r\n\r\n";
    for cut in 0..body.len() {
        let mut reader = ChunkReader::new(body[..cut].to_vec());
        let mut out = reader.drain().expect("a beginning should decode");
        reader.feed(&body[cut..]);
        out.extend(reader.drain().expect("the rest should decode"));
        assert_eq!(out, b"pocker");
        assert!(reader.is_finished());
    }
}

#[test]
fn a_body_that_is_sent_in_chunks_is_read_back() {
    let long = vec![7_u8; 300];
    let mut sent = encode_chunk(b"pocker");
    sent.extend(encode_chunk(&long));
    sent.extend(last_chunk());
    assert!(sent.starts_with(b"6\r\npocker\r\n12c\r\n"));
    assert!(sent.ends_with(b"\r\n0\r\n\r\n"));
    let mut body = b"pocker".to_vec();
    body.extend(&long);
    assert_eq!(decode_chunked_body(&sent).expect("chunks"), body);
}

#[test]
fn requests_over_a_pipe_have_a_head() {
    assert_eq!(
        request_head("GET", "/images/json?all=1", "pocker/1", None, Some(0)),
        "GET /images/json?all=1 HTTP/1.1\r\nHost: docker\r\nUser-Agent: pocker/1\r\nConnection: close\r\nContent-Length: 0\r\n\r\n"
    );
    assert_eq!(
        request_head("POST", "/images/load?quiet=1", "pocker/1", Some("application/x-tar"), None),
        "POST /images/load?quiet=1 HTTP/1.1\r\nHost: docker\r\nUser-Agent: pocker/1\r\nConnection: close\r\nContent-Type: application/x-tar\r\nTransfer-Encoding: chunked\r\n\r\n"
    );
    assert!(tries_again(0, true));
    assert!(!tries_again(20, true));
    assert!(!tries_again(0, false));
}

#[test]
fn the_head_of_a_response_is_read_to_its_end() {
    let head = b"HTTP/1.1 200 OK\r\n\r\nbody";
    assert!(matches!(after_head_read(head, 5), HeadRead::Done(19)));
    assert!(matches!(after_head_read(b"HTTP/1.1", 8), HeadRead::More));
    assert!(matches!(
        after_head_read(head, 0),
        HeadRead::Fail(DockerPullError::BadResponse(m)) if m == "docker API response ended before headers"
    ));
    assert!(matches!(
        after_head_read(&vec![b'a'; 65_537], 1),
        HeadRead::Fail(DockerPullError::BadResponse(m)) if m == "docker API response headers are too large"
    ));
    assert!(after_chunk_read(1).is_ok());
    assert!(matches!(
        after_chunk_read(0),
        Err(DockerPullError::BadResponse(m)) if m == "chunked docker API response is truncated"
    ));
}

#[test]
fn a_body_of_a_known_length_is_read_to_its_end() {
    assert_eq!(take_from_body(4, 10), 4);
    assert_eq!(take_from_body(4, 3), 3);
    assert_eq!(after_body_read(4, 3).expect("more"), 1);
    assert_eq!(after_body_read(0, 0).expect("complete"), 0);
    assert!(matches!(
        after_body_read(4, 0),
        Err(DockerPullError::BadResponse(m)) if m == "docker API response ended before content length"
    ));
}

#[test]
fn the_framing_of_a_body_follows_its_headers() {
    let chunked = vec![("transfer-encoding".to_string(), "chunked".to_string())];
    assert_eq!(body_framing(&chunked).expect("framing"), Framing::Chunked);
    let sized = vec![("content-length".to_string(), "4".to_string())];
    assert_eq!(body_framing(&sized).expect("framing"), Framing::Length(4));
    assert_eq!(body_framing(&[]).expect("framing"), Framing::ToEnd);
    let bad = vec![("content-length".to_string(), "four".to_string())];
    assert!(body_framing(&bad).is_err());
    assert_eq!(
        whole_body(&chunked, b"1\r\nx\r\n0\r\n\r\n".to_vec()).expect("body"),
        b"x"
    );
    assert_eq!(whole_body(&[], b"xyz".to_vec()).expect("body"), b"xyz");
}

#[test]
fn docker_encodes_image_names_for_api_paths() {
    assert_eq!(
        encode_path_segment("docker.io/library/alpine:latest"),
        "docker.io%2Flibrary%2Falpine%3Alatest"
    );
}

#[test]
fn mod_encodes_image_names_for_api_paths() {
    assert_eq!(
        encode_path_segment("docker.io/library/alpine:latest"),
        "docker.io%2Flibrary%2Falpine%3Alatest"
    );
}

#[test]
fn encodes_image_names_for_api_query_values() {
    assert_eq!(
        encode_query_value("example.com/acme/app&name=value+tag:latest"),
        "example.com%2Facme%2Fapp%26name%3Dvalue%2Btag%3Alatest"
    );
}

#[test]
fn encoding_covers_every_byte_of_a_name() {
    assert_eq!(encode_path_segment("ä b"), "%C3%A4%20b");
    assert_ne!(encode_path_segment("a%2Fb"), encode_path_segment("a/b"));
}

#[test]
fn requests_name_their_image() {
    assert_eq!(
        inspect_path("acme/app:1"),
        format!("/images/{}/json", encode_path_segment("acme/app:1"))
    );
    assert_eq!(
        save_path("acme/app:1"),
        format!("/images/{}/get", encode_path_segment("acme/app:1"))
    );
    assert!(remove_path("acme/app:1").starts_with("/images/acme%2Fapp%3A1"));
    assert!(create_path("acme/app:1").expect("path").contains("tag=1"));
    assert!(tag_path("source", "acme/app:1")
        .expect("path")
        .starts_with("/images/source/tag?repo="));
    assert!(create_path("acme/app").is_err());
}

#[test]
fn split_tagged_reference_handles_registry_ports() {
    assert_eq!(
        split_tagged_reference("127.0.0.1:5000/pocker/image:latest")
            .expect("reference should split"),
        ("127.0.0.1:5000/pocker/image", "latest")
    );
}

#[test]
fn split_tagged_reference_rejects_digest_references() {
    assert!(split_tagged_reference("alpine@sha256:deadbeef").is_err());
}

#[test]
fn images_are_the_same_by_their_ids() {
    assert_eq!(normalize_image_id("sha256:abc"), normalize_image_id("abc"));
    assert!(is_same_image(Some("sha256:abc"), "sha256:abc"));
    assert!(!is_same_image(Some("sha256:abc"), "sha256:abd"));
    assert!(!is_same_image(None, "sha256:abc"));
}

#[test]
fn failures_of_the_daemon_carry_its_message() {
    let error = build_failure_error(
        &status(500, "500 Internal Server Error"),
        br#"{"message":"disk full"}"#,
        "image load",
    );
    assert!(error.message().contains("disk full"));
    assert!(ensure_success_status(&status(204, "204 No Content"), b"", "image load").is_ok());
    assert!(ensure_success_status(&status(404, "404 Not Found"), b"plain", "image load").is_err());
    assert!(inspect_answer(&status(404, "404 Not Found"), b"{}".to_vec())
        .expect("no image")
        .is_none());
    assert_eq!(
        inspect_answer(&status(200, "200 OK"), b"{}".to_vec()).expect("an image"),
        Some(b"{}".to_vec())
    );
}

#[test]
fn a_stream_of_progress_fails_where_a_line_says_so() {
    assert!(ensure_json_stream_success("{\"status\":\"ok\"}\n\n", "image load").is_ok());
    let error = ensure_json_stream_success(
        "{\"status\":\"ok\"}\n{\"error\":\"no space\"}\n",
        "image load",
    )
    .expect_err("a failure in the stream");
    assert!(error.message().contains("no space"));
}

#[test]
fn ordered_unique_image_ids_preserves_first_seen_order() {
    let summary = |id: &str| DaemonImageSummary {
        id: id.into(),
        created: None,
        repo_tags: None,
        size: None,
    };
    let ids = ordered_unique_image_ids(&vec![
        summary("sha256:1"),
        summary("sha256:2"),
        summary("sha256:1"),
    ]);

    assert_eq!(ids, vec!["sha256:1", "sha256:2"]);
}

fn daemon_image(id: &str, layers: &[&str]) -> DaemonImage {
    DaemonImage {
        id: id.into(),
        repo_tags: Some(vec![format!("{id}:latest")]),
        layers: layers.iter().map(|layer| layer.to_string()).collect(),
    }
}

fn layer(diff_id: &str) -> LayerSpec {
    LayerSpec {
        descriptor: Descriptor {
            media_type: "application/vnd.oci.image.layer.v1.tar".into(),
            digest: format!("sha256:blob-{diff_id}"),
            size: 1,
            platform: None,
            annotations: None,
        },
        diff_id: diff_id.into(),
    }
}

#[test]
fn layers_come_from_the_first_image_that_has_them() {
    let images = [
        daemon_image("one", &["a", "b"]),
        daemon_image("two", &["b", "c"]),
        daemon_image("three", &["a", "c"]),
    ];
    let wanted = wanted_diff_ids(&[layer("a"), layer("b"), layer("c"), layer("d")]);
    let chosen = choose_from_daemon_images(&images, &wanted);

    assert_eq!(chosen.len(), 2);
    assert_eq!((chosen[0].image, chosen[1].image), (0, 1));
    assert_eq!(chosen[0].diff_ids, vec!["a", "b"]);
    assert_eq!(chosen[1].diff_ids, vec!["c"]);

    let coverage = daemon_layer_coverage(&images, &[layer("c"), layer("d")]);
    assert_eq!(coverage.get("c").as_deref(), Some("two:latest"));
    assert!(coverage.get("d").is_none());
}

#[test]
fn layers_are_found_in_a_saved_archive() {
    let image = daemon_image("one", &["sha256:a", "sha256:b"]);
    let targets = archive_targets(
        &image,
        &vec!["x/layer.tar".to_string(), "y/layer.tar".to_string()],
        &vec!["sha256:b".to_string()],
    );
    assert_eq!(targets.get("y/layer.tar").as_deref(), Some("sha256:b"));
    assert!(targets.get("x/layer.tar").is_none());

    let mut taken = Variables::new();
    assert_eq!(
        layer_to_extract(&targets, "y/layer.tar", &taken).as_deref(),
        Some("sha256:b")
    );
    taken.insert("sha256:b".into(), "/tmp/b".into());
    assert!(layer_to_extract(&targets, "y/layer.tar", &taken).is_none());
    assert!(ensure_all_found(&vec!["sha256:b".to_string()], &taken).is_ok());
    assert!(ensure_all_found(&vec!["sha256:c".to_string()], &taken).is_err());
}

#[test]
fn extracted_layers_are_checked() {
    let digest = format!("sha256:{}", "a".repeat(64));
    let path = extracted_layer_path(HostFamily::Unix, "/tmp/out", &digest).expect("path");
    assert_eq!(path, format!("/tmp/out/sha256-{}.tar", "a".repeat(64)));
    let path = extracted_layer_path(HostFamily::Windows, "C:\\out", &digest).expect("path");
    assert_eq!(path, format!("C:\\out\\sha256-{}.tar", "a".repeat(64)));
    assert!(extracted_layer_path(HostFamily::Unix, "/tmp/out", "sha256:../x").is_err());
    assert!(is_gzip(&[0x1f, 0x8b, 0x08]));
    assert!(!is_gzip(&[0x1f]));
    let mut run = DigestRun::start_for_digest(ABC).expect("a digest");
    run.feed(b"abc");
    assert!(check_digest(ABC, run).is_ok());
    let run = DigestRun::start_for_digest(ABC).expect("a digest");
    assert!(matches!(
        check_digest(ABC, run),
        Err(DockerPullError::DigestMismatch { expected, .. }) if expected == ABC
    ));
}
