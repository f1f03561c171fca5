//! Credentials: where they come from and what they lead to.
use pocker::auth::{
    credentials_from_entry, credentials_from_parts, decode_auth_entry, helper_binary,
    helper_outcome, next_credential_step, registry_keys, trim_password, AuthResolver,
    CredentialStep, Credentials, DockerConfig, HelperEvent, Known,
};
use pocker::compose::env::Variables;
use pocker::error::DockerPullError;
use pocker::json::{parse_json, pretty_json, Json};
use pocker::retry::Delay;

fn config(auths: &[(&str, &str)], helpers: &[(&str, &str)], store: Option<&str>) -> DockerConfig {
    let mut config = DockerConfig {
        auths: Variables::new(),
        cred_helpers: Variables::new(),
        creds_store: store.map(str::to_string),
    };
    for (registry, entry) in auths {
        config.auths.insert(registry.to_string(), entry.to_string());
    }
    for (registry, helper) in helpers {
        config
            .cred_helpers
            .insert(registry.to_string(), helper.to_string());
    }
    config
}

fn is(credentials: &Credentials, name: &str, secret: &str) -> bool {
    let Credentials::Basic { username, password } = credentials;
    username == name && password == secret
}

#[test]
fn credentials_reject_username_without_password_stdin() {
    let error = credentials_from_parts(Some("alice".into()), None)
        .expect_err("username without password should fail");

    assert!(
        matches!(error, DockerPullError::InvalidInput(message) if message == "`--username` requires `--password-stdin`")
    );
}

#[test]
fn credentials_reject_password_stdin_without_username() {
    let error = credentials_from_parts(None, Some("secret".into()))
        .expect_err("password without username should fail");

    assert!(
        matches!(error, DockerPullError::InvalidInput(message) if message == "`--password-stdin` requires `--username`")
    );
}

#[test]
fn credentials_take_both_parts_or_none() {
    assert!(credentials_from_parts(None, None).expect("nothing given").is_none());
    let given = credentials_from_parts(Some("alice".into()), Some("secret".into()))
        .expect("both given")
        .expect("credentials");
    assert!(is(&given, "alice", "secret"));
    assert!(is(&given.copy(), "alice", "secret"));
    assert_eq!(trim_password("secret\r\n"), "secret");
    assert_eq!(trim_password(" secret"), " secret");
}

#[test]
fn docker_hub_registry_keys_include_aliases_without_duplicates() {
    assert_eq!(
        registry_keys("registry-1.docker.io"),
        vec![
            "registry-1.docker.io",
            "https://index.docker.io/v1/",
            "https://registry-1.docker.io",
            "index.docker.io",
            "docker.io",
        ]
    );
}

#[test]
fn auth_entries_are_base64() {
    let decoded = decode_auth_entry("YWxpY2U6c2VjcmV0").expect("an entry");
    assert!(is(&decoded, "alice", "secret"));
    assert!(matches!(
        decode_auth_entry("***"),
        Err(DockerPullError::Base64(_))
    ));
    assert!(decode_auth_entry("YWxpY2U=").is_err());
    assert!(is(
        &credentials_from_entry(Ok(b"bob:a:b".to_vec())).expect("an entry"),
        "bob",
        "a:b"
    ));
    assert!(credentials_from_entry(Ok(vec![0xff, 0x3a])).is_err());
    assert!(credentials_from_entry(Err("broken".into())).is_err());
}

#[test]
fn stored_entries_are_found_under_an_alias() {
    let config = config(
        &[("https://index.docker.io/v1/", "YWxpY2U6c2VjcmV0")],
        &[],
        None,
    );
    assert!(config.helper_calls("registry-1.docker.io").is_empty());
    assert_eq!(
        config.stored_entry("registry-1.docker.io").as_deref(),
        Some("YWxpY2U6c2VjcmV0")
    );
    let step = next_credential_step(&config, "registry-1.docker.io", 0, None);
    assert!(matches!(
        step,
        CredentialStep::Done(Ok(Some(credentials))) if is(&credentials, "alice", "secret")
    ));
    assert!(matches!(
        next_credential_step(&config, "ghcr.io", 0, None),
        CredentialStep::Done(Ok(None))
    ));
}

#[test]
fn helpers_of_a_registry_are_asked_before_the_store() {
    let config = config(&[], &[("docker.io", "hub")], Some("desktop"));
    let calls = config.helper_calls("registry-1.docker.io");
    assert_eq!(calls[0].helper, "hub");
    assert!(calls.iter().any(|call| call.helper == "desktop"));
    let CredentialStep::Ask(first) = next_credential_step(&config, "registry-1.docker.io", 0, None)
    else {
        panic!("expected a helper");
    };
    assert_eq!(first.helper, "hub");
    assert_eq!(first.registry, "docker.io");
    let answered = next_credential_step(
        &config,
        "registry-1.docker.io",
        1,
        Some(Credentials::Basic {
            username: "alice".into(),
            password: "secret".into(),
        }),
    );
    assert!(matches!(answered, CredentialStep::Done(Ok(Some(_)))));
    assert!(matches!(
        next_credential_step(&config, "registry-1.docker.io", 1, None),
        CredentialStep::Ask(call) if call.helper == "desktop"
    ));
    assert_eq!(helper_binary("hub"), "docker-credential-hub");
}

#[test]
fn helpers_that_fail_leave_a_warning() {
    let outcome = |event| helper_outcome(event, "docker-credential-x", "ghcr.io");
    assert_eq!(
        outcome(HelperEvent::NotFound).expect_err("a warning"),
        "docker credential helper `docker-credential-x` not found for `ghcr.io`"
    );
    assert_eq!(
        outcome(HelperEvent::TimedOut(Delay::from_millis(1_500))).expect_err("a warning"),
        "docker credential helper `docker-credential-x` timed out for `ghcr.io` after 1.5s"
    );
    assert_eq!(
        outcome(HelperEvent::Failed {
            status: "exit status: 1".into(),
            stderr: b" no \xff \n".to_vec()
        })
        .expect_err("a warning"),
        "docker credential helper `docker-credential-x` failed for `ghcr.io` with status exit status: 1: no \u{fffd}"
    );
    assert_eq!(
        outcome(HelperEvent::Unreadable {
            message: "expected value".into(),
            stdout: b"secret".to_vec()
        })
        .expect_err("a warning"),
        "docker credential helper `docker-credential-x` returned invalid JSON for `ghcr.io`: expected value (non-empty stdout omitted)"
    );
    for event in [
        HelperEvent::NotStarted("e".into()),
        HelperEvent::NotWritten("e".into()),
        HelperEvent::NotAwaited("e".into()),
    ] {
        assert!(outcome(event).expect_err("a warning").ends_with(": e"));
    }
    let answered = outcome(HelperEvent::Answered {
        username: "alice".into(),
        secret: "secret".into(),
    })
    .expect("credentials");
    assert!(is(&answered, "alice", "secret"));
}

#[test]
fn credentials_of_the_command_line_come_first_and_answers_are_remembered() {
    let given = AuthResolver::new(
        Some(Credentials::Basic {
            username: "alice".into(),
            password: "secret".into(),
        }),
        None,
    );
    assert!(matches!(given.resolve("ghcr.io"), Known::Known(Some(_))));
    assert!(given.config().is_none());

    let mut resolver = AuthResolver::new(None, Some(config(&[], &[], Some("desktop"))));
    assert!(matches!(resolver.resolve("ghcr.io"), Known::Unknown));
    resolver.remember("ghcr.io", None);
    assert!(matches!(resolver.resolve("ghcr.io"), Known::Known(None)));
    assert!(matches!(resolver.resolve("quay.io"), Known::Unknown));

    let none = AuthResolver::new(None, None);
    assert!(matches!(none.resolve("ghcr.io"), Known::Known(None)));
}

#[test]
fn json_documents_are_read_as_plain_values() {
    let value = parse_json(br#"{"a":"x","b":[1,true,null],"a2":{"c":1.5}}"#).expect("json");
    assert_eq!(value.get_str("a"), Some("x"));
    assert!(value.get_str("b").is_none());
    let Some(Json::Array(items)) = value.get("b") else {
        panic!("expected an array");
    };
    assert!(matches!(&items[0], Json::Number(n) if n == "1"));
    assert!(matches!(items[1], Json::Bool(true)));
    assert!(matches!(items[2], Json::Null));
    assert!(parse_json(b"{not-json").is_err());
}

#[test]
fn json_documents_are_written_over_lines() {
    assert_eq!(
        pretty_json(br#"{"a":[1,"x"],"b":{}}"#).expect("json"),
        "{\n  \"a\": [\n    1,\n    \"x\"\n  ],\n  \"b\": {}\n}"
    );
    assert!(matches!(
        pretty_json(b"{not-json"),
        Err(DockerPullError::Json(_))
    ));
}
