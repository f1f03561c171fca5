//! Digests, platforms, references and errors.
use pocker::digest::{
    canonical_digest_bytes, digest_bytes_for_digest, digest_hex, parse_digest, sha256_hex,
    DigestAlgorithm, DigestRun,
};
use pocker::error::DockerPullError;
use pocker::platform::Platform;
use pocker::reference::{ImageReference, ReferenceTarget};

const VALID_SHA256: &str =
    "sha256:aaaaaaaaaaaaaaaaaaaaaaaaaaaaaaaaaaaaaaaaaaaaaaaaaaaaaaaaaaaaaaaa";

#[test]
fn parse_digest_accepts_supported_algorithms() {
    for (algorithm, hex_len) in [("sha256", 64), ("sha384", 96), ("sha512", 128)] {
        let digest = format!("{algorithm}:{}", "a".repeat(hex_len));
        let parsed = parse_digest(&digest).expect("supported digest should parse");

        assert_eq!(parsed.algorithm.name(), algorithm);
        assert_eq!(parsed.value.len(), hex_len);
    }
}

#[test]
fn parse_digest_rejects_unknown_algorithm() {
    let error = parse_digest("sha224:aaaaaaaaaaaaaaaaaaaaaaaaaaaaaaaaaaaaaaaaaaaaaaaaaaaaaaaa")
        .expect_err("unsupported digest algorithm should fail");

    assert!(
        matches!(error, DockerPullError::UnsupportedDigestAlgorithm(algorithm) if algorithm == "sha224")
    );
}

#[test]
fn parse_digest_rejects_invalid_hex_values() {
    for digest in [
        "sha256:abc",
        "sha256:AAAAAAAAAAAAAAAAAAAAAAAAAAAAAAAAAAAAAAAAAAAAAAAAAAAAAAAAAAAAAAAA",
        "sha256:gggggggggggggggggggggggggggggggggggggggggggggggggggggggggggggggg",
    ] {
        let error = parse_digest(digest).expect_err("invalid digest value should fail");

        assert!(matches!(error, DockerPullError::InvalidInput(_)));
    }
}

#[test]
fn digest_hex_returns_validated_value() {
    let value = "a".repeat(64);
    let digest = format!("sha256:{value}");

    assert_eq!(digest_hex(&digest).expect("digest should parse"), value);
    assert!(digest_hex("sha256:abc").is_err());
}

#[test]
fn digest_bytes_uses_requested_algorithm() {
    let bytes = b"pocker";
    let sha384_template = format!("sha384:{}", "0".repeat(96));
    let actual =
        digest_bytes_for_digest(&sha384_template, bytes).expect("supported digest should hash");

    assert_eq!(actual, DigestAlgorithm::Sha384.digest_bytes(bytes));
    assert!(actual.starts_with("sha384:"));
}

#[test]
fn digests_of_known_content() {
    assert_eq!(
        sha256_hex(b""),
        "e3b0c44298fc1c149afbf4c8996fb92427ae41e4649b934ca495991b7852b855"
    );
    assert_eq!(
        canonical_digest_bytes(&vec![0_u8; 1024]),
        "sha256:5f70bf18a086007016e948b04aed3b82103a36bea41755b6cddfaf10ace3c6ef"
    );
    assert_eq!(
        DigestAlgorithm::Sha384.digest_bytes(b"abc"),
        "sha384:cb00753f45a35e8bb5a03d699ac65007272c32ab0eded1631a8b605a43ff5bed8086072ba1e7cc2358baeca134c825a7"
    );
    assert_eq!(
        DigestAlgorithm::Sha512.digest_bytes(b"abc"),
        "sha512:ddaf35a193617abacc417349ae20413112e6fa4e89a97ea20a9eeee64b55d39a2192992a274fc1a836ba3c23a3feebbd454d4423643ce80e2a9ac94fa54ca49f"
    );
}

#[test]
fn content_can_be_digested_piece_by_piece() {
    for algorithm in [
        DigestAlgorithm::Sha256,
        DigestAlgorithm::Sha384,
        DigestAlgorithm::Sha512,
    ] {
        let mut run = DigestRun::start(algorithm);
        run.feed(b"con");
        run.feed(b"");
        run.feed(b"tent");
        assert_eq!(run.finish(), algorithm.digest_bytes(b"content"));
    }
    assert!(DigestRun::start_for_digest("sha224:abc").is_err());
}

#[test]
fn a_digest_of_content_parses_again() {
    for algorithm in [
        DigestAlgorithm::Sha256,
        DigestAlgorithm::Sha384,
        DigestAlgorithm::Sha512,
    ] {
        let digest = algorithm.digest_bytes(b"content");
        let parsed = parse_digest(&digest).expect("a computed digest is a digest");
        assert_eq!(parsed.algorithm, algorithm);
        assert_eq!(parsed.value.len(), algorithm.hex_len());
        assert_eq!(algorithm.with_hex(parsed.value), digest);
    }
}

#[test]
fn a_digest_without_a_colon_is_refused() {
    let error = parse_digest("sha256").expect_err("no colon");

    assert!(matches!(error, DockerPullError::InvalidInput(_)));
}

#[test]
fn parse_platform() {
    let platform = Platform::parse("linux/arm64/v8").expect("platform should parse");
    assert_eq!(platform.os, "linux");
    assert_eq!(platform.architecture, "arm64");
    assert_eq!(platform.variant.as_deref(), Some("v8"));
}

#[test]
fn matches_without_variant_requirement() {
    let requested = Platform::parse("linux/arm64").expect("platform should parse");
    let candidate = Platform::parse("linux/arm64/v8").expect("platform should parse");
    assert!(requested.matches(&candidate));
}

#[test]
fn a_variant_that_is_asked_for_has_to_match() {
    let requested = Platform::parse("linux/arm/v7").expect("platform should parse");
    let other = Platform::parse("linux/arm/v6").expect("platform should parse");
    let without = Platform::parse("linux/arm").expect("platform should parse");

    assert!(!requested.matches(&other));
    assert!(!requested.matches(&without));
    assert!(requested.matches(&requested.copy()));
}

#[test]
fn normalizes_common_architecture_aliases() {
    for (input, expected) in [
        ("linux/x86_64", "amd64"),
        ("linux/x86", "386"),
        ("linux/i386", "386"),
        ("linux/i586", "386"),
        ("linux/i686", "386"),
        ("linux/aarch64", "arm64"),
        ("linux/armv7l", "arm"),
        ("linux/armv7", "arm"),
    ] {
        let platform = Platform::parse(input).expect("platform should parse");
        assert_eq!(platform.architecture, expected, "{input} should normalize");
    }
}

#[test]
fn normalizes_macos_to_oci_darwin() {
    let platform = Platform::parse("macos/aarch64").expect("platform should parse");

    assert_eq!(platform.as_string(), "darwin/arm64");
}

#[test]
fn the_host_platform_is_normalized() {
    assert_eq!(Platform::of("macos", "aarch64").as_string(), "darwin/arm64");
    assert_eq!(Platform::of("linux", "x86_64").as_string(), "linux/amd64");
}

#[test]
fn rejects_platforms_with_too_many_segments() {
    let error = Platform::parse("linux/arm64/v8/extra")
        .expect_err("platform with extra segments should be rejected");
    assert_eq!(
        error.message(),
        "platform must use os/arch[/variant] format"
    );
}

#[test]
fn rejects_empty_platform_variant() {
    let error = Platform::parse("linux/amd64/")
        .expect_err("platform with empty variant should be rejected");
    assert_eq!(error.message(), "platform variant cannot be empty");
}

#[test]
fn a_platform_is_written_as_it_is_read() {
    for text in ["linux/amd64", "linux/arm64/v8", "darwin/arm64"] {
        let platform = Platform::parse(text).expect("platform should parse");
        assert_eq!(platform.as_string(), text);
        let again = Platform::parse(&platform.as_string()).expect("platform should parse");
        assert_eq!(again, platform);
    }
}

#[test]
fn docker_hub_defaults_are_applied() {
    let reference = ImageReference::parse("alpine").expect("reference should parse");
    assert_eq!(reference.registry, "registry-1.docker.io");
    assert_eq!(reference.repository, "library/alpine");
    assert_eq!(reference.target, ReferenceTarget::Tag("latest".into()));
}

#[test]
fn digest_reference_is_preserved() {
    let reference = ImageReference::parse(&format!("ghcr.io/acme/app@{VALID_SHA256}"))
        .expect("reference should parse");
    assert_eq!(reference.registry, "ghcr.io");
    assert_eq!(reference.repository, "acme/app");
    assert_eq!(
        reference.target,
        ReferenceTarget::Digest(VALID_SHA256.into())
    );
}

#[test]
fn docker_hub_display_name_is_short() {
    let reference = ImageReference::parse("alpine").expect("reference should parse");
    assert_eq!(reference.display_name(), "alpine:latest");
}

#[test]
fn rejects_empty_tag() {
    ImageReference::parse("alpine:").expect_err("empty tag should be rejected");
}

#[test]
fn rejects_empty_digest() {
    ImageReference::parse("alpine@").expect_err("empty digest should be rejected");
}

#[test]
fn rejects_malformed_digest() {
    ImageReference::parse("alpine@sha256:deadbeef")
        .expect_err("short digest should be rejected");
}

#[test]
fn rejects_invalid_repository_component() {
    ImageReference::parse("ghcr.io/acme//app:latest")
        .expect_err("empty repository component should be rejected");
    ImageReference::parse("ghcr.io/Acme/app:latest")
        .expect_err("uppercase repository component should be rejected");
}

#[test]
fn rejects_invalid_tag_characters() {
    ImageReference::parse("ghcr.io/acme/app:bad/tag")
        .expect_err("tag with slash should be rejected");
    ImageReference::parse("alpine:-bad").expect_err("tag must start with word character");
}

#[test]
fn a_reference_is_written_as_it_is_read() {
    for (text, normalized, scope) in [
        (
            "alpine",
            "registry-1.docker.io/library/alpine:latest",
            "repository:library/alpine:pull",
        ),
        (
            "localhost:5000/team/app:1.0",
            "localhost:5000/team/app:1.0",
            "repository:team/app:pull",
        ),
    ] {
        let reference = ImageReference::parse(text).expect("reference should parse");
        assert_eq!(reference.normalized(), normalized);
        assert_eq!(reference.repository_scope(), scope);
        let again = ImageReference::parse(&reference.normalized()).expect("parses again");
        assert_eq!(again, reference);
        assert_eq!(reference.copy(), reference);
    }
}

#[test]
fn the_manifest_goes_by_tag_or_digest() {
    let tagged = ImageReference::parse("alpine:3.20").expect("reference should parse");
    assert_eq!(tagged.manifest_reference(), "3.20");
    let text = format!("alpine@{VALID_SHA256}");
    let exact = ImageReference::parse(&text).expect("reference should parse");
    assert_eq!(exact.manifest_reference(), VALID_SHA256);
}

#[test]
fn image_resolution_error_includes_reference_and_source() {
    let error = DockerPullError::ImageResolutionFailed {
        reference: "example.com/library/app:latest".to_string(),
        source: Box::new(DockerPullError::PlatformNotFound("linux/s390x".to_string())),
    };

    assert_eq!(
        error.message(),
        "failed to resolve image `example.com/library/app:latest`: requested platform `linux/s390x` not found in image index"
    );
}

#[test]
fn errors_say_what_failed() {
    let mismatch = DockerPullError::DigestMismatch {
        expected: "sha256:a".into(),
        actual: "sha256:b".into(),
    };
    assert!(mismatch.message().contains("sha256:a"));
    assert!(mismatch.message().contains("sha256:b"));
    let retries = DockerPullError::RetryLimitExceeded {
        operation: "request".into(),
        retries: 3,
        detail: "timed out".into(),
    };
    assert!(retries.message().contains("request"));
    assert!(retries.message().contains('3'));
    assert!(retries.message().contains("timed out"));
    assert!(DockerPullError::BlobNotFound("sha256:c".into())
        .message()
        .contains("sha256:c"));
}
