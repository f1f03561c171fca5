//! Commands, their plans and what they print.
use pocker::cli::{
    AuthArgs, CacheArgs, CacheCleanArgs, CacheCommands, Cli, Commands, ComposeArgs,
    ComposeCommands, ComposeConfigArgs, ComposeConfigFormat, GlobalArgs, ImageArgs, ImageCommands,
    ImageSaveArgs, RegistryArgs, RetryArgs, ServeArgs,
};
use pocker::commands::{
    deleted_cache_summary, execute, format_file_count, serve_banner, skipped_warning,
    write_compose_config, write_compose_pull_plan, CommandPlan, ConfigOutput,
};
use pocker::compose::{ComposeImages, ComposeServiceImage};
use pocker::store::ClearedCacheFile;
use pocker::test_registry::{
    handle_request, read_request, reference, FixtureRead, ResponseMode, TestImage,
};

fn compose_images() -> ComposeImages {
    ComposeImages {
        services: vec![
            ComposeServiceImage {
                service: "web".to_string(),
                image: Some("nginx:alpine".to_string()),
                build_only: false,
                profiles: Vec::new(),
            },
            ComposeServiceImage {
                service: "api".to_string(),
                image: Some("nginx:alpine".to_string()),
                build_only: false,
                profiles: Vec::new(),
            },
        ],
        images: vec!["nginx:alpine".to_string(), "nginx:alpine".to_string()],
        skipped_build_only: Vec::new(),
    }
}

fn cli(command: Commands) -> Cli {
    Cli {
        global: GlobalArgs {
            cache_dir: "/cache".into(),
            quiet: false,
        },
        command,
    }
}

fn config(images: bool, services_only: bool, pull_plan: bool) -> CommandPlan {
    execute(cli(Commands::Compose(ComposeArgs {
        file: vec!["compose.yml".into()],
        profile: vec!["tools".into()],
        command: ComposeCommands::Config(ComposeConfigArgs {
            services: vec!["web".into()],
            images,
            services_only,
            pull_plan,
            format: Some(ComposeConfigFormat::Json),
        }),
    })))
}

#[test]
fn compose_config_images_writes_unique_images_to_output() {
    let resolved = compose_images();
    let CommandPlan::ComposeConfig { output, .. } = config(true, false, false) else {
        panic!("expected a config");
    };

    let out = write_compose_config(&resolved, output).expect("config output should write");

    assert_eq!(out, "nginx:alpine\n");
}

#[test]
fn compose_pull_plan_can_be_rendered_without_stderr_side_effects() {
    let resolved = compose_images();

    let output = write_compose_pull_plan(&resolved, false, false);

    assert!(output.contains("Compose pull plan:"));
    assert!(output.contains("web"));
    assert!(output.contains("api"));
    assert!(output.contains("shared with web"));
}

#[test]
fn a_quiet_pull_plan_is_empty() {
    assert_eq!(write_compose_pull_plan(&compose_images(), true, false), "");
}

#[test]
fn the_output_of_a_config_follows_its_flags() {
    for (images, services_only, pull_plan, expected) in [
        (true, true, true, ConfigOutput::PullPlan),
        (true, true, false, ConfigOutput::Images),
        (false, true, false, ConfigOutput::Services),
        (false, false, false, ConfigOutput::Json),
    ] {
        let CommandPlan::ComposeConfig {
            output,
            services,
            profiles,
            files,
        } = config(images, services_only, pull_plan)
        else {
            panic!("expected a config");
        };
        assert_eq!(output, expected);
        assert_eq!(services, vec!["web"]);
        assert_eq!(profiles, vec!["tools"]);
        assert_eq!(files, vec!["compose.yml"]);
    }
    assert_eq!(
        write_compose_config(&compose_images(), ConfigOutput::Services).as_deref(),
        Some("web\napi\n")
    );
}

#[test]
fn commands_become_plans() {
    assert!(matches!(execute(cli(Commands::Version)), CommandPlan::Version));
    assert!(matches!(
        execute(cli(Commands::Cache(CacheArgs {
            command: CacheCommands::Clean(CacheCleanArgs { verbose: true })
        }))),
        CommandPlan::CleanCache { verbose: true, quiet: false, cache_dir } if cache_dir == "/cache"
    ));
    assert!(matches!(
        execute(cli(Commands::Image(ImageArgs {
            command: ImageCommands::Save(ImageSaveArgs {
                reference: "alpine".into(),
                output: "out.tar".into()
            })
        }))),
        CommandPlan::SaveImage { reference, output } if reference == "alpine" && output == "out.tar"
    ));
    let CommandPlan::Serve { plan, .. } = execute(cli(Commands::Serve(ServeArgs {
        listen: "127.0.0.1:5000".into(),
        pull_missing: true,
        concurrency: 0,
        retry: RetryArgs {
            blob_retries: None,
            request_retries: Some(2),
            retry_forever: false,
        },
        registry: RegistryArgs {
            plain_http: false,
            insecure_skip_tls_verify: false,
            ca_file: None,
        },
        auth: AuthArgs {
            username: None,
            password_stdin: false,
        },
        connect_timeout_seconds: 20,
        quiet: true,
    }))) else {
        panic!("expected a server");
    };
    assert_eq!(plan.concurrency, 1);
    assert_eq!(plan.blob_retry_limit, Some(8));
    assert_eq!(plan.request_retry_limit, Some(2));
    assert!(plan.quiet);
    assert_eq!(
        serve_banner("127.0.0.1:5000", true),
        "Serving pocker cache on 127.0.0.1:5000 (pull missing enabled)"
    );
}

#[test]
fn skipped_services_are_named_unless_silent() {
    let mut images = compose_images();
    assert!(skipped_warning(&images, false).is_none());
    images.skipped_build_only = vec!["a".into(), "b".into()];
    assert_eq!(
        skipped_warning(&images, false).as_deref(),
        Some("skipping build-only compose services without image: a, b")
    );
    assert!(skipped_warning(&images, true).is_none());
}

#[test]
fn cleared_files_are_summed_up() {
    let file = |path: &str, size| ClearedCacheFile {
        path: path.into(),
        size,
    };
    let summary = deleted_cache_summary(&vec![
        file("blobs/sha256/a", 10),
        file("blobs/sha256/b", 5),
    ]);
    assert_eq!((summary.cache_files, summary.cache_bytes), (2, 15));
    assert_eq!(summary.coordination_files, 0);
    assert_eq!(format_file_count(1), "1 file");
    assert_eq!(format_file_count(2), "2 files");
}

#[test]
fn the_fixture_serves_its_image() {
    let image = TestImage::single_layer();
    let config_digest = image.config_digest().to_string();
    let layer_digest = image.layer_digest().to_string();
    let mode = ResponseMode::Image(image);
    let manifest = handle_request(&mode, "GET", "/v2/acme/app/manifests/latest");
    assert!(manifest.head.starts_with("HTTP/1.1 200 OK\r\n"));
    assert!(!manifest.body.is_empty());
    let head = handle_request(&mode, "HEAD", "/v2/acme/app/manifests/latest");
    assert!(head.body.is_empty());
    assert_eq!(head.head, manifest.head);
    let config = handle_request(&mode, "GET", &format!("/v2/acme/app/blobs/sha256:{config_digest}"));
    assert!(config.head.contains("application/vnd.oci.image.config.v1+json"));
    let layer = handle_request(&mode, "GET", &format!("/v2/acme/app/blobs/sha256:{layer_digest}"));
    assert_eq!(layer.body, b"fake layer payload");
    assert!(layer.gated);
    let missing = handle_request(&mode, "GET", "/v2/acme/app/blobs/other");
    assert!(missing.head.starts_with("HTTP/1.1 404"));
    assert_eq!(
        missing.unexpected.as_deref(),
        Some("GET /v2/acme/app/blobs/other")
    );
    let down = handle_request(&ResponseMode::Unavailable, "GET", "/v2/");
    assert!(down.head.starts_with("HTTP/1.1 503"));
}

#[test]
fn fixture_images_can_have_other_layers() {
    let sha512 = TestImage::with_layer_algorithm("sha512");
    let mode = ResponseMode::Image(sha512);
    let digest = "sha512:".to_string()
        + "609e8f4df4c6be57c1ee403cf438bd928181ad07f7422e8613a82f8216765652"
        + "301b1c836afae71f4086db6f147d1af0671d51821f679449eca7844f9489537c";
    let layer = handle_request(&mode, "GET", &format!("/v2/a/blobs/{digest}"));
    assert_eq!(layer.body, b"fake layer payload");
    assert!(handle_request(&mode, "GET", "/v2/a/blobs/sha512:609e")
        .head
        .starts_with("HTTP/1.1 404"));
    let named = TestImage::with_layer_descriptor_digest("sha256:wrong".into());
    let answer = handle_request(&ResponseMode::Image(named), "GET", "/v2/a/blobs/sha256:wrong");
    assert_eq!(answer.body, b"fake layer payload");
    let other = TestImage::with_layer_payload(b"other".to_vec());
    assert_eq!(
        other.layer_digest(),
        "d9298a10d1b0735837dc4bd85dac641b0f3cef27a47e5d53a54f2f3f5b2fcffa"
    );
}

#[test]
fn the_fixture_reads_requests() {
    assert!(matches!(
        read_request(b"GET /v2/ HTTP/1.1\r\n\r\n", false),
        FixtureRead::Done(method, path) if method == "GET" && path == "/v2/"
    ));
    assert!(matches!(read_request(b"GET", false), FixtureRead::More));
    assert!(matches!(read_request(b"GET", true), FixtureRead::Fail(_)));
    assert!(matches!(
        read_request(&vec![b'a'; 9_000], false),
        FixtureRead::Fail(_)
    ));
    assert_eq!(
        reference("127.0.0.1:5000", "acme/app", "1.0"),
        "127.0.0.1:5000/acme/app:1.0"
    );
}
