//! Compose files: variables, files, services and images.
use pocker::compose::env::{parse_env_file, Variables};
use pocker::compose::files::{FileRequest, Files, Step};
use pocker::compose::interpolate::interpolate;
use pocker::compose::project::resolve_images;
use pocker::compose::value::{
    as_str, mapping_get_string, mapping_has_key, merge_values, parse_yaml, strip_reset_tags, Yaml,
};
use pocker::compose::{
    select_images, select_profiles, select_services, unique_images, ComposeError, ComposeImages,
    ComposeServiceImage,
};
use pocker::path::HostFamily;

fn variables(pairs: &[(&str, &str)]) -> Variables {
    let mut values = Variables::new();
    for (name, value) in pairs {
        values.insert(name.to_string(), value.to_string());
    }
    values
}

/// Resolves a project in `/work` whose files are given by name and text.
fn resolve(given: &[&str], found: &[(&str, &str)]) -> Result<ComposeImages, ComposeError> {
    resolve_with(given, found, &[])
}

fn resolve_with(
    given: &[&str],
    found: &[(&str, &str)],
    process: &[(&str, &str)],
) -> Result<ComposeImages, ComposeError> {
    let given: Vec<String> = given.iter().map(|name| format!("/work/{name}")).collect();
    let mut files = Files::new(HostFamily::Unix);
    let text_of = |path: &str| {
        found
            .iter()
            .find(|(name, _)| format!("/work/{name}") == path)
            .map(|(_, text)| text.to_string())
    };
    loop {
        match resolve_images(&files, &given, "/work", variables(process)) {
            Step::Done(images) => return Ok(images),
            Step::Failed(error) => return Err(error),
            Step::Need(FileRequest::IsFile(path)) => {
                let regular = text_of(&path).is_some();
                files.record_regular(path, regular);
            }
            Step::Need(FileRequest::Canonical(path)) => {
                let canonical = match text_of(&path) {
                    Some(_) => Ok(path.clone()),
                    None => Err("No such file or directory (os error 2)".to_string()),
                };
                files.record_canonical(path, canonical);
            }
            Step::Need(FileRequest::Text(path)) => {
                let text = match text_of(&path) {
                    Some(text) => Ok(text),
                    None => Err("No such file or directory (os error 2)".to_string()),
                };
                files.record_text(path, text);
            }
        }
    }
}

const BASE: &str = r#"
services:
  base:
    image: example/base:${TAG:-latest}
  child:
    extends:
      service: base
"#;

const INCLUDED: &str = r#"
services:
  included:
    image: busybox
"#;

const ROOT: &str = r#"
include:
  - docker-compose.include.yml
services:
  app:
    extends:
      file: docker-compose.base.yml
      service: child
  worker:
    extends:
      service: app
  build_only:
    build: .
"#;

#[test]
fn env_file_parser_handles_compose_dotenv_forms() {
    let values = parse_env_file(
        "# comment\nexport REGISTRY=example.com # registry host\nTAG=\"1.2.3\"\nLITERAL_HASH=#literal\nSUFFIX=foo\\#bar # comment\nHASHED='pa#ss'\nQUOTED=\"hello \\\"there\\\"\"\nMULTILINE=\"line1\nline2\"\n",
    );

    assert_eq!(values.get("REGISTRY").as_deref(), Some("example.com"));
    assert_eq!(values.get("TAG").as_deref(), Some("1.2.3"));
    assert_eq!(values.get("LITERAL_HASH").as_deref(), Some("#literal"));
    assert_eq!(values.get("SUFFIX").as_deref(), Some("foo#bar"));
    assert_eq!(values.get("HASHED").as_deref(), Some("pa#ss"));
    assert_eq!(values.get("QUOTED").as_deref(), Some("hello \"there\""));
    assert_eq!(values.get("MULTILINE").as_deref(), Some("line1\nline2"));
}

#[test]
fn env_file_lines_without_an_equals_sign_or_a_name_set_nothing() {
    let values = parse_env_file("PLAIN\n=value\n  \nKEY=value\n");

    assert!(values.get("PLAIN").is_none());
    assert!(values.get("").is_none());
    assert_eq!(values.get("KEY").as_deref(), Some("value"));
}

fn assert_resolved_project(resolved: ComposeImages) {
    assert_eq!(
        resolved.images,
        vec![
            "example/base:1.2.3".to_string(),
            "example/base:1.2.3".to_string(),
            "busybox".to_string(),
        ]
    );
    assert_eq!(resolved.skipped_build_only, vec!["build_only".to_string()]);

    let selected =
        select_services(&resolved, &["included".to_string()]).expect("service should select");
    assert_eq!(selected.images, vec!["busybox".to_string()]);
    assert_eq!(selected.services[0].service, "included");
}

#[test]
fn lib_resolves_default_file_extends_include_and_env() {
    let resolved = resolve(
        &[],
        &[
            (".env", "TAG=1.2.3\n"),
            ("docker-compose.base.yml", BASE),
            ("docker-compose.include.yml", INCLUDED),
            ("docker-compose.yml", ROOT),
        ],
    )
    .expect("images should resolve");

    assert_resolved_project(resolved);
}

#[test]
fn compose_resolves_default_file_extends_include_and_env() {
    let resolved = resolve(
        &[],
        &[
            (".env", "TAG=1.2.3\n"),
            ("docker-compose.base.yml", BASE),
            ("docker-compose.include.yml", INCLUDED),
            ("docker-compose.yml", ROOT),
        ],
    )
    .expect("images should resolve");

    assert_resolved_project(resolved);
}

#[test]
fn variables_of_the_process_win_over_the_env_file() {
    let resolved = resolve_with(
        &[],
        &[
            (".env", "TAG=1.2.3\n"),
            ("compose.yml", "services:\n  app:\n    image: example/app:$TAG\n"),
        ],
        &[("TAG", "4.5.6")],
    )
    .expect("images should resolve");

    assert_eq!(resolved.images, vec!["example/app:4.5.6"]);
}

#[test]
fn a_directory_without_a_compose_file_is_refused() {
    let error = resolve(&[], &[("readme.md", "")]).expect_err("nothing to resolve");

    assert!(matches!(error, ComposeError::InvalidInput(_)));
}

#[test]
fn services_that_extend_each_other_are_refused() {
    let error = resolve(
        &[],
        &[(
            "compose.yml",
            "services:\n  a:\n    extends:\n      service: b\n  b:\n    extends:\n      service: a\n",
        )],
    )
    .expect_err("a cycle has no image");

    assert!(matches!(error, ComposeError::InvalidInput(_)));
}

#[test]
fn a_file_that_is_no_yaml_is_refused() {
    let error =
        resolve(&[], &[("compose.yml", "services: [unclosed\n")]).expect_err("no yaml");

    assert!(matches!(
        error,
        ComposeError::InvalidInput(message)
            if message.starts_with("failed to parse compose file `/work/compose.yml`: ")
    ));
}

#[test]
fn lib_deduplicates_images_in_first_seen_order() {
    let images = unique_images(&[
        "alpine:latest".into(),
        "busybox:latest".into(),
        "alpine:latest".into(),
    ]);

    assert_eq!(images, vec!["alpine:latest", "busybox:latest"]);
}

#[test]
fn compose_deduplicates_images_in_first_seen_order() {
    let images = unique_images(&[
        "alpine:latest".into(),
        "busybox:latest".into(),
        "alpine:latest".into(),
    ]);

    assert_eq!(images, vec!["alpine:latest", "busybox:latest"]);
}

#[test]
fn interpolates_unbraced_compose_variables() {
    let values = variables(&[
        ("REGISTRY", "example.com"),
        ("IMAGE_TAG", "1.2.3"),
        ("EMPTY", ""),
    ]);

    let interpolated = interpolate(
        "image: $REGISTRY/app:$IMAGE_TAG\nfallback: ${EMPTY:-latest}\nescaped: $$IMAGE_TAG\nliteral: $-",
        &values,
    )
    .expect("compose interpolation should succeed");

    assert_eq!(
        interpolated,
        "image: example.com/app:1.2.3\nfallback: latest\nescaped: $IMAGE_TAG\nliteral: $-"
    );
}

#[test]
fn interpolation_operators_match_compose_presence_rules() {
    let values = variables(&[("SET", "value"), ("EMPTY", "")]);

    let interpolated = interpolate(
        "default_empty: ${EMPTY:-fallback}\ndefault_unset: ${UNSET-fallback}\nkeep_empty: ${EMPTY-fallback}\nalt_set: ${SET:+enabled}\nalt_empty: ${EMPTY+enabled}\nplain_unset: ${UNSET}\n",
        &values,
    )
    .expect("compose interpolation should succeed");

    assert_eq!(
        interpolated,
        "default_empty: fallback\ndefault_unset: fallback\nkeep_empty: \nalt_set: enabled\nalt_empty: enabled\nplain_unset: \n"
    );
}

#[test]
fn required_variable_operator_wins_over_dash_in_message() {
    let error = interpolate("${REQUIRED?-must be set}", &Variables::new())
        .expect_err("required operator should fail when variable is unset");

    assert!(matches!(
        error,
        ComposeError::InvalidInput(message)
            if message == "compose variable `REQUIRED` is required: -must be set"
    ));
}

#[test]
fn a_brace_that_is_not_closed_is_refused() {
    let error = interpolate("${OPEN", &Variables::new()).expect_err("no closing brace");

    assert!(matches!(error, ComposeError::InvalidInput(_)));
}

#[test]
fn repeated_compose_files_merge_service_overrides() {
    let resolved = resolve(
        &["compose.yml", "compose.override.yml"],
        &[
            (
                "compose.yml",
                r#"
services:
  app:
    image: example/app:1.0
  worker:
    image: example/worker:1.0
"#,
            ),
            (
                "compose.override.yml",
                r#"
services:
  app:
    image: example/app:2.0
"#,
            ),
        ],
    )
    .expect("compose files should resolve");

    assert_eq!(
        resolved.images,
        vec![
            "example/app:2.0".to_string(),
            "example/worker:1.0".to_string()
        ]
    );
    assert_eq!(resolved.services[0].service, "app");
    assert_eq!(
        resolved.services[0].image,
        Some("example/app:2.0".to_string())
    );
}

#[test]
fn yaml_merge_anchors_are_considered_when_resolving_images() {
    let resolved = resolve(
        &[],
        &[
            (".env", "TAG=3.1\n"),
            (
                "compose.yml",
                r#"
x-image-defaults: &image-defaults
  image: example/app:${TAG:-latest}

services:
  app:
    <<: *image-defaults
"#,
            ),
        ],
    )
    .expect("compose file should resolve");

    assert_eq!(resolved.images, vec!["example/app:3.1".to_string()]);
    assert_eq!(resolved.services[0].service, "app");
}

#[test]
fn profiled_services_are_still_discovered_by_config_parser() {
    let resolved = resolve(
        &[],
        &[(
            "compose.yml",
            r#"
services:
  default:
    image: example/default:latest
  optional:
    profiles:
      - tools
    image: example/optional:latest
"#,
        )],
    )
    .expect("compose file should resolve");

    assert_eq!(
        resolved.images,
        vec![
            "example/default:latest".to_string(),
            "example/optional:latest".to_string(),
        ]
    );
}

#[test]
fn profiles_enable_optional_services() {
    let resolved = resolve(
        &[],
        &[(
            "compose.yml",
            "services:\n  app:\n    image: app\n  debug:\n    profiles: [tools, dev]\n    image: debug\n",
        )],
    )
    .expect("compose file should resolve");

    assert_eq!(resolved.services[1].profiles, vec!["tools", "dev"]);
    assert_eq!(select_profiles(&resolved, &[]).images, vec!["app"]);
    assert_eq!(
        select_profiles(&resolved, &["tools".to_string()]).images,
        vec!["app", "debug"]
    );
    assert_eq!(
        select_profiles(&resolved, &["*".to_string()]).images,
        vec!["app", "debug"]
    );
    assert_eq!(
        select_profiles(&resolved, &["other".to_string()]).images,
        vec!["app"]
    );
    let named = select_images(&resolved, &[], &["debug".to_string()]).expect("a service");
    assert_eq!(named.images, vec!["debug"]);
    let enabled = select_images(&resolved, &["dev".to_string()], &[]).expect("services");
    assert_eq!(enabled.images, vec!["app", "debug"]);
    assert!(select_images(&resolved, &[], &["none".to_string()]).is_err());
}

#[test]
fn selecting_a_service_that_is_not_there_is_refused() {
    let resolved = ComposeImages {
        images: vec!["nginx".into()],
        skipped_build_only: Vec::new(),
        services: vec![ComposeServiceImage {
            service: "web".into(),
            image: Some("nginx".into()),
            build_only: false,
            profiles: Vec::new(),
        }],
    };

    let error =
        select_services(&resolved, &["api".to_string()]).expect_err("no such service");
    assert!(matches!(error, ComposeError::InvalidInput(_)));
    assert_eq!(
        select_services(&resolved, &[]).expect("all of them").images,
        vec!["nginx"]
    );
}

#[test]
fn yaml_documents_are_read_as_plain_values() {
    let document = parse_yaml("a: 1\nb: [x, true]\nc: !reset null\n").expect("yaml");

    assert!(mapping_has_key(&document, "a"));
    assert!(!mapping_has_key(&document, "d"));
    let Yaml::Mapping(entries) = &document else {
        panic!("expected a mapping");
    };
    assert_eq!(as_str(&entries[0].0), Some("a"));
    assert!(matches!(&entries[0].1, Yaml::Number(n) if n == "1"));
    assert!(matches!(&entries[1].1, Yaml::Sequence(items) if items.len() == 2));
    assert!(matches!(&entries[2].1, Yaml::Tagged(tag, _) if tag == "!reset"));
    assert!(parse_yaml("a: [").is_err());
}

#[test]
fn merging_replaces_values_and_keeps_the_others() {
    let base = parse_yaml("image: one\nbuild: .\n").expect("yaml");
    let over = parse_yaml("image: two\n").expect("yaml");

    let merged = merge_values(base, over);

    assert_eq!(mapping_get_string(&merged, "image").as_deref(), Some("two"));
    assert_eq!(mapping_get_string(&merged, "build").as_deref(), Some("."));
}

#[test]
fn a_reset_value_is_taken_out() {
    let value = strip_reset_tags(&parse_yaml("image: !reset null\nbuild: .\n").expect("yaml"));

    assert!(matches!(&value, Yaml::Mapping(_)));
    assert!(mapping_get_string(&value, "image").is_none());
    assert_eq!(mapping_get_string(&value, "build").as_deref(), Some("."));
}

fn merged(base: &str, over: &str) -> Vec<(Yaml, Yaml)> {
    let base = parse_yaml(base).expect("yaml");
    let over = parse_yaml(over).expect("yaml");
    match merge_values(base, over) {
        Yaml::Mapping(entries) => entries,
        _ => panic!("expected a mapping"),
    }
}

#[test]
fn a_mapping_as_a_key_is_found_whatever_the_order_of_its_entries() {
    let entries = merged(
        "? {a: 1, b: {c: 2, d: 3}}\n: old\nother: kept\n",
        "? {b: {d: 3, c: 2}, a: 1}\n: new\n",
    );

    assert_eq!(entries.len(), 2);
    assert_eq!(as_str(&entries[0].0), Some("other"));
    assert_eq!(as_str(&entries[1].1), Some("new"));
    let entries = merged("? {a: 1}\n: old\nother: kept\n", "? {a: 2}\n: new\n");
    assert_eq!(entries.len(), 3);
    let entries = merged("? [1, 2]\n: old\nother: kept\n", "? [2, 1]\n: new\n");
    assert_eq!(entries.len(), 3);
}

#[test]
fn the_two_zeros_are_one_key_only_where_it_is_the_only_one() {
    let entries = merged("0.0: old\n", "-0.0: new\n");
    assert_eq!(entries.len(), 1);
    assert!(matches!(&entries[0].0, Yaml::Number(n) if n == "-0.0"));
    assert_eq!(as_str(&entries[0].1), Some("new"));

    let entries = merged("0.0: old\nother: kept\n", "-0.0: new\n");
    assert_eq!(entries.len(), 3);

    let entries = merged("1.0: old\n", "-1.0: new\n");
    assert_eq!(entries.len(), 2);
}

#[test]
fn values_are_the_same_by_what_they_hold() {
    let first = parse_yaml("a: [1, 0.0]\nb: !t x\n").expect("yaml");
    let second = parse_yaml("b: !t x\na: [1, 0.0]\n").expect("yaml");
    let third = parse_yaml("b: !t x\na: [1, -0.0]\n").expect("yaml");

    assert!(first.same(&second, false));
    assert!(!first.same(&third, false));
    assert!(first.same(&third, true));
    assert!(!first.same(&parse_yaml("a: [1, 0.0]\n").expect("yaml"), true));
    assert!(!first.same(&parse_yaml("b: !u x\na: [1, 0.0]\n").expect("yaml"), true));
}

#[test]
fn a_project_on_windows_is_followed_by_its_own_paths() {
    let texts = [
        (
            r"\\?\C:\work\app\compose.yaml",
            "services:\n  web:\n    extends:\n      file: ../base/common.yaml\n      service: base\n",
        ),
        (
            r"\\?\C:\work\base\common.yaml",
            "services:\n  base:\n    image: alpine:3\n",
        ),
    ];
    let given = vec!["compose.yaml".to_string()];
    let mut files = Files::new(HostFamily::Windows);
    let images = loop {
        match resolve_images(&files, &given, r"C:\work\app", Variables::new()) {
            Step::Done(images) => break images,
            Step::Failed(error) => panic!("unexpected failure: {error:?}"),
            Step::Need(FileRequest::IsFile(path)) => {
                assert_eq!(path, r"\\?\C:\work\app\.env");
                files.record_regular(path, false);
            }
            Step::Need(FileRequest::Canonical(path)) => {
                let canonical = match path.strip_prefix(r"C:\") {
                    Some(rest) => format!(r"\\?\C:\{rest}"),
                    None => path.clone(),
                };
                files.record_canonical(path, Ok(canonical));
            }
            Step::Need(FileRequest::Text(path)) => {
                let text = texts.iter().find(|(name, _)| *name == path);
                let text = text.map(|(_, text)| text.to_string());
                files.record_text(path, text.ok_or_else(|| "not found".to_string()));
            }
        }
    };

    assert_eq!(images.images, vec!["alpine:3".to_string()]);
}
