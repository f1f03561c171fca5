//! Credentials for registries, and where they come from.
use vstd::prelude::*;
use vstd::utf8::{
    decode_utf8, encode_utf8, encode_utf8_decode_utf8, encode_utf8_valid_utf8, valid_utf8,
};

use base64::Engine;

use crate::bytes;
use crate::compose::env::Variables;
use crate::error::{concat2, concat3, DockerPullError, ErrorView, Result};
use crate::reference::{is_docker_hub, is_docker_hub_view};
use crate::retry::{debug_duration, duration_text, Delay};
use crate::text::{self, opt_string, texts};

verus! {

/// A user name and a password.
#[derive(Debug, Clone)]
pub enum Credentials {
    Basic { username: String, password: String },
}

/// A user name and a password, as text.
pub struct CredentialsView {
    pub username: Seq<char>,
    pub password: Seq<char>,
}

impl View for Credentials {
    type V = CredentialsView;

    open spec fn view(&self) -> CredentialsView {
        match self {
            Credentials::Basic { username, password } => CredentialsView {
                username: username@,
                password: password@,
            },
        }
    }
}

/// Optional credentials, as text.
pub open spec fn opt_credentials(credentials: Option<Credentials>) -> Option<CredentialsView> {
    match credentials {
        Some(c) => Some(c@),
        None => None,
    }
}

impl Credentials {
    /// A copy of the credentials.
    pub fn copy(&self) -> (r: Credentials)
        ensures
            r@ == self@,
    {
        match self {
            Credentials::Basic { username, password } => Credentials::Basic {
                username: username.clone(),
                password: password.clone(),
            },
        }
    }
}

/// A copy of optional credentials.
pub fn copy_credentials(credentials: &Option<Credentials>) -> (r: Option<Credentials>)
    ensures
        opt_credentials(r) == opt_credentials(*credentials),
{
    match credentials {
        Some(c) => Some(c.copy()),
        None => None,
    }
}

/// How long a credential helper may take, in seconds.
pub const CREDENTIAL_HELPER_TIMEOUT_SECONDS: u64 = 30;

/// The names under which credentials for Docker Hub are kept.
pub open spec fn docker_hub_auth_keys() -> Seq<Seq<char>> {
    seq![
        "https://index.docker.io/v1/"@,
        "registry-1.docker.io"@,
        "https://registry-1.docker.io"@,
        "index.docker.io"@,
        "docker.io"@,
    ]
}

/// The keys other than `registry`.
pub open spec fn other_keys(keys: Seq<Seq<char>>, registry: Seq<char>) -> Seq<Seq<char>>
    decreases keys.len(),
{
    if keys.len() == 0 {
        seq![]
    } else if keys[0] == registry {
        other_keys(keys.skip(1), registry)
    } else {
        seq![keys[0]] + other_keys(keys.skip(1), registry)
    }
}

/// The names under which credentials for a registry are looked up, in order: the registry itself,
/// and for Docker Hub its other names.
pub open spec fn registry_keys_view(registry: Seq<char>) -> Seq<Seq<char>> {
    if is_docker_hub_view(registry) {
        seq![registry] + other_keys(docker_hub_auth_keys(), registry)
    } else {
        seq![registry]
    }
}

/// The names under which credentials for a registry are looked up, in order.
pub fn registry_keys(registry: &str) -> (keys: Vec<String>)
    ensures
        texts(keys@) == registry_keys_view(registry@),
{
    let mut keys: Vec<String> = Vec::new();
    keys.push(registry.to_owned());
    assert(texts(keys@) =~= seq![registry@]);
    if is_docker_hub(registry) {
        let known = [
            "https://index.docker.io/v1/",
            "registry-1.docker.io",
            "https://registry-1.docker.io",
            "index.docker.io",
            "docker.io",
        ];
        let ghost all = docker_hub_auth_keys();
        let ghost goal = seq![registry@] + other_keys(all, registry@);
        assert(all.skip(0) =~= all);
        let mut i: usize = 0;
        while i < 5
            invariant
                i <= 5,
                all.len() == 5,
                forall|k: int| 0 <= k < 5 ==> (#[trigger] known@[k])@ == all[k],
                goal == texts(keys@) + other_keys(all.skip(i as int), registry@),
            decreases 5 - i,
        {
            let key = known[i];
            let ghost before = keys@;
            assert(all.skip(i as int).skip(1) =~= all.skip(i + 1));
            if !text::same(key, registry) {
                keys.push(key.to_owned());
                assert(texts(keys@) =~= texts(before).push(key@));
                assert(texts(keys@) + other_keys(all.skip(i + 1), registry@) =~= texts(before)
                    + other_keys(all.skip(i as int), registry@));
            }
            i += 1;
        }
        assert(texts(keys@) =~= goal);
    }
    keys
}

/// The registry itself is looked up first, and nothing twice.
pub proof fn law_registry_keys_are_distinct(registry: Seq<char>)
    ensures
        registry_keys_view(registry).len() > 0,
        registry_keys_view(registry)[0] == registry,
        registry_keys_view(registry).no_duplicates(),
        is_docker_hub_view(registry) ==> forall|k: Seq<char>|
            docker_hub_auth_keys().contains(k) ==> #[trigger] registry_keys_view(
                registry,
            ).contains(k),
{
    if is_docker_hub_view(registry) {
        let all = docker_hub_auth_keys();
        reveal_strlit("https://index.docker.io/v1/");
        reveal_strlit("registry-1.docker.io");
        reveal_strlit("https://registry-1.docker.io");
        reveal_strlit("index.docker.io");
        reveal_strlit("docker.io");
        assert(all[0].len() == 27 && all[1].len() == 20 && all[2].len() == 28 && all[3].len() == 15
            && all[4].len() == 9);
        assert(all.no_duplicates());
        lemma_other_keys(all, registry);
        let keys = registry_keys_view(registry);
        let others = other_keys(all, registry);
        assert forall|k: Seq<char>| all.contains(k) implies #[trigger] keys.contains(k) by {
            if k == registry {
                assert(keys[0] == k);
            } else {
                assert(others.contains(k));
                let j = choose|j: int| 0 <= j < others.len() && others[j] == k;
                assert(keys[j + 1] == k);
            }
        }
    }
}

/// Leaving a key out keeps the others, each once.
proof fn lemma_other_keys(keys: Seq<Seq<char>>, registry: Seq<char>)
    requires
        keys.no_duplicates(),
    ensures
        other_keys(keys, registry).no_duplicates(),
        !other_keys(keys, registry).contains(registry),
        forall|k: Seq<char>| #[trigger]
            other_keys(keys, registry).contains(k) ==> keys.contains(k),
        forall|k: Seq<char>|
            keys.contains(k) && k != registry ==> #[trigger] other_keys(
                keys,
                registry,
            ).contains(k),
    decreases keys.len(),
{
    if keys.len() > 0 {
        let rest = keys.skip(1);
        lemma_other_keys(rest, registry);
        let tail = other_keys(rest, registry);
        let out = other_keys(keys, registry);
        assert forall|k: Seq<char>| #[trigger] out.contains(k) implies keys.contains(k) by {
            if tail.contains(k) {
                assert(rest.contains(k));
                let j = choose|j: int| 0 <= j < rest.len() && rest[j] == k;
                assert(keys[j + 1] == k);
            } else {
                let j = choose|j: int| 0 <= j < out.len() && out[j] == k;
                if keys[0] == registry {
                    assert(tail[j] == k);
                } else if j > 0 {
                    assert(tail[j - 1] == k);
                }
                assert(keys[0] == k);
            }
        }
        assert forall|k: Seq<char>| keys.contains(k) && k != registry implies #[trigger] out.contains(
            k,
        ) by {
            let j = choose|j: int| 0 <= j < keys.len() && keys[j] == k;
            if j == 0 {
                assert(out[0] == k);
            } else {
                assert(rest[j - 1] == k);
                assert(tail.contains(k));
                let m = choose|m: int| 0 <= m < tail.len() && tail[m] == k;
                if keys[0] == registry {
                    assert(out[m] == k);
                } else {
                    assert(out[m + 1] == k);
                }
            }
        }
        if keys[0] != registry {
            if tail.contains(keys[0]) {
                assert(rest.contains(keys[0]));
                let j = choose|j: int| 0 <= j < rest.len() && rest[j] == keys[0];
                assert(keys[j + 1] == keys[0]);
            }
            assert(!tail.contains(keys[0]));
            assert forall|i: int, j: int| 0 <= i < out.len() && 0 <= j < out.len() && i != j implies
                out[i] != out[j] by {
                if i == 0 {
                    assert(out[j] == tail[j - 1]);
                } else if j == 0 {
                    assert(out[i] == tail[i - 1]);
                } else {
                    assert(out[i] == tail[i - 1]);
                    assert(out[j] == tail[j - 1]);
                }
            }
        }
    }
}

/// The bytes that a base64 text encodes, or the message that says why it encodes none.
pub uninterp spec fn base64_decoded(text: Seq<char>) -> std::result::Result<Seq<u8>, Seq<char>>;

/// Decodes a text with the `decode` of the `base64` crate's standard engine (standard alphabet,
/// canonical padding required). Bytes or error message depend on the text alone.
#[verifier::external_body]
fn base64_decode(text: &str) -> (r: std::result::Result<Vec<u8>, String>)
    ensures
        base64_decoded(text@) == match r {
            Ok(bytes) => Ok(bytes@),
            Err(message) => Err(message@),
        },
{
    base64::engine::general_purpose::STANDARD.decode(text).map_err(|error| error.to_string())
}

/// The credentials in the decoded bytes of an entry.
pub open spec fn entry_credentials(
    decoded: std::result::Result<Seq<u8>, Seq<char>>,
) -> std::result::Result<CredentialsView, ErrorView> {
    match decoded {
        Err(message) => Err(ErrorView::Base64(message)),
        Ok(bytes) => if !valid_utf8(bytes) {
            Err(
                ErrorView::InvalidInput(
                    "invalid docker auth entry: "@ + bytes::utf8_error(bytes),
                ),
            )
        } else {
            match text::split_once_view(decode_utf8(bytes), ':') {
                None => Err(
                    ErrorView::InvalidInput("docker auth entry is missing separator"@),
                ),
                Some((username, password)) => Ok(CredentialsView { username, password }),
            }
        },
    }
}

/// Reads the credentials from the decoded bytes of an entry: a user name, a colon and a password.
pub fn credentials_from_entry(decoded: std::result::Result<Vec<u8>, String>) -> (r: Result<
    Credentials,
>)
    ensures
        entry_credentials(
            match decoded {
                Ok(bytes) => Ok(bytes@),
                Err(message) => Err(message@),
            },
        ) == match r {
            Ok(credentials) => Ok(credentials@),
            Err(e) => Err(e@),
        },
{
    match decoded {
        Err(message) => Err(DockerPullError::Base64(message)),
        Ok(bytes) => match bytes::read_utf8(bytes.as_slice()) {
            Err(message) => Err(
                DockerPullError::InvalidInput(
                    concat2("invalid docker auth entry: ", message.as_str()),
                ),
            ),
            Ok(value) => match text::split_once(value.as_str(), ':') {
                None => Err(
                    DockerPullError::InvalidInput(
                        "docker auth entry is missing separator".to_owned(),
                    ),
                ),
                Some((username, password)) => Ok(
                    Credentials::Basic {
                        username: username.to_owned(),
                        password: password.to_owned(),
                    },
                ),
            },
        },
    }
}

/// Reads the credentials from an entry of the docker configuration.
pub fn decode_auth_entry(auth: &str) -> (r: Result<Credentials>)
    ensures
        entry_credentials(base64_decoded(auth@)) == match r {
            Ok(credentials) => Ok(credentials@),
            Err(e) => Err(e@),
        },
{
    credentials_from_entry(base64_decode(auth))
}

/// What the docker configuration says about credentials.
pub struct DockerConfig {
    /// The encoded credentials that are kept in the configuration, by registry.
    pub auths: Variables,
    /// The helpers for single registries.
    pub cred_helpers: Variables,
    /// The helper for every registry.
    pub creds_store: Option<String>,
}

/// One question to a credential helper.
#[derive(Debug)]
pub struct HelperCall {
    pub helper: String,
    pub registry: String,
}

/// One question to a credential helper, as text.
pub struct HelperCallView {
    pub helper: Seq<char>,
    pub registry: Seq<char>,
}

impl View for HelperCall {
    type V = HelperCallView;

    open spec fn view(&self) -> HelperCallView {
        HelperCallView { helper: self.helper@, registry: self.registry@ }
    }
}

/// The questions, as text.
pub open spec fn calls_view(calls: Seq<HelperCall>) -> Seq<HelperCallView> {
    calls.map_values(|c: HelperCall| c@)
}

/// The questions to the helpers of the single keys.
pub open spec fn key_calls(
    helpers: Map<Seq<char>, Seq<char>>,
    keys: Seq<Seq<char>>,
) -> Seq<HelperCallView>
    decreases keys.len(),
{
    if keys.len() == 0 {
        seq![]
    } else if helpers.contains_key(keys[0]) {
        seq![HelperCallView { helper: helpers[keys[0]], registry: keys[0] }] + key_calls(
            helpers,
            keys.skip(1),
        )
    } else {
        key_calls(helpers, keys.skip(1))
    }
}

/// The questions to one helper about every key.
pub open spec fn store_calls(helper: Seq<char>, keys: Seq<Seq<char>>) -> Seq<HelperCallView> {
    keys.map_values(|key: Seq<char>| HelperCallView { helper, registry: key })
}

/// The first of the keys that has an entry.
pub open spec fn first_entry(
    auths: Map<Seq<char>, Seq<char>>,
    keys: Seq<Seq<char>>,
) -> Option<Seq<char>>
    decreases keys.len(),
{
    if keys.len() == 0 {
        None
    } else if auths.contains_key(keys[0]) {
        Some(auths[keys[0]])
    } else {
        first_entry(auths, keys.skip(1))
    }
}

impl DockerConfig {
    /// The questions to credential helpers, in order: to the helpers of single registries first,
    /// then to the helper for every registry.
    pub open spec fn calls(self, registry: Seq<char>) -> Seq<HelperCallView> {
        let keys = registry_keys_view(registry);
        key_calls(self.cred_helpers@, keys) + match self.creds_store {
            Some(helper) => store_calls(helper@, keys),
            None => seq![],
        }
    }

    /// What the configuration itself holds for a registry.
    pub open spec fn entry(self, registry: Seq<char>) -> Option<Seq<char>> {
        first_entry(self.auths@, registry_keys_view(registry))
    }

    /// Lists the questions to credential helpers, in order.
    pub fn helper_calls(&self, registry: &str) -> (calls: Vec<HelperCall>)
        ensures
            calls_view(calls@) == self.calls(registry@),
    {
        let keys = registry_keys(registry);
        let ghost all = texts(keys@);
        let mut calls: Vec<HelperCall> = Vec::new();
        assert(calls_view(calls@) =~= seq![]);
        assert(all.skip(0) =~= all);
        let ghost goal = key_calls(self.cred_helpers@, all);
        assert(goal =~= calls_view(calls@) + goal);
        let mut i: usize = 0;
        while i < keys.len()
            invariant
                i <= keys@.len(),
                all == texts(keys@),
                goal == calls_view(calls@) + key_calls(self.cred_helpers@, all.skip(i as int)),
            decreases keys@.len() - i,
        {
            assert(all.skip(i as int).skip(1) =~= all.skip(i + 1));
            assert(all.skip(i as int)[0] == keys@[i as int]@);
            if let Some(helper) = self.cred_helpers.get(keys[i].as_str()) {
                let ghost before = calls@;
                let call = HelperCall { helper, registry: keys[i].clone() };
                calls.push(call);
                assert(calls_view(calls@) =~= calls_view(before).push(call@));
                assert(calls_view(calls@) + key_calls(self.cred_helpers@, all.skip(i + 1))
                    =~= calls_view(before) + key_calls(self.cred_helpers@, all.skip(i as int)));
            }
            i += 1;
        }
        assert(calls_view(calls@) =~= goal);
        if let Some(helper) = &self.creds_store {
            let ghost stored = store_calls(helper@, all);
            let mut j: usize = 0;
            assert(calls_view(calls@) =~= goal + stored.take(0));
            while j < keys.len()
                invariant
                    j <= keys@.len(),
                    all == texts(keys@),
                    stored == store_calls(helper@, all),
                    calls_view(calls@) == goal + stored.take(j as int),
                decreases keys@.len() - j,
            {
                let ghost before = calls@;
                let call = HelperCall { helper: helper.clone(), registry: keys[j].clone() };
                calls.push(call);
                assert(calls_view(calls@) =~= calls_view(before).push(call@));
                assert(stored.take(j + 1) =~= stored.take(j as int).push(call@));
                assert(calls_view(calls@) =~= goal + stored.take(j + 1));
                j += 1;
            }
            assert(stored.take(j as int) =~= stored);
        } else {
            assert(goal =~= goal + Seq::<HelperCallView>::empty());
        }
        calls
    }

    /// Looks up what the configuration itself holds for a registry.
    pub fn stored_entry(&self, registry: &str) -> (r: Option<String>)
        ensures
            opt_string(r) == self.entry(registry@),
    {
        let keys = registry_keys(registry);
        let ghost all = texts(keys@);
        assert(all.skip(0) =~= all);
        let mut i: usize = 0;
        while i < keys.len()
            invariant
                i <= keys@.len(),
                all == texts(keys@),
                all == registry_keys_view(registry@),
                first_entry(self.auths@, all) == first_entry(self.auths@, all.skip(i as int)),
            decreases keys@.len() - i,
        {
            assert(all.skip(i as int).skip(1) =~= all.skip(i + 1));
            assert(all.skip(i as int)[0] == keys@[i as int]@);
            if let Some(auth) = self.auths.get(keys[i].as_str()) {
                return Some(auth);
            }
            i += 1;
        }
        None
    }
}

/// What to do next to find credentials.
pub enum CredentialStep {
    /// Ask a helper.
    Ask(HelperCall),
    /// The search is over.
    Done(Result<Option<Credentials>>),
}

/// What to do next to find credentials, as text.
pub enum CredentialStepView {
    Ask(HelperCallView),
    Done(std::result::Result<Option<CredentialsView>, ErrorView>),
}

impl View for CredentialStep {
    type V = CredentialStepView;

    open spec fn view(&self) -> CredentialStepView {
        match self {
            CredentialStep::Ask(call) => CredentialStepView::Ask(call@),
            CredentialStep::Done(r) => CredentialStepView::Done(
                match r {
                    Ok(credentials) => Ok(opt_credentials(*credentials)),
                    Err(e) => Err(e@),
                },
            ),
        }
    }
}

/// What to do after `asked` helpers were asked, the last of which gave `answer`: an answer ends
/// the search; without one the next helper is asked, and after the last helper the configuration
/// itself is read.
pub open spec fn credential_step_view(
    config: DockerConfig,
    registry: Seq<char>,
    asked: nat,
    answer: Option<CredentialsView>,
) -> CredentialStepView {
    let calls = config.calls(registry);
    if answer is Some {
        CredentialStepView::Done(Ok(answer))
    } else if asked < calls.len() {
        CredentialStepView::Ask(calls[asked as int])
    } else {
        match config.entry(registry) {
            None => CredentialStepView::Done(Ok(None)),
            Some(auth) => CredentialStepView::Done(
                match entry_credentials(base64_decoded(auth)) {
                    Ok(credentials) => Ok(Some(credentials)),
                    Err(e) => Err(e),
                },
            ),
        }
    }
}

/// Decides what to do after `asked` helpers were asked, the last of which gave `answer`.
pub fn next_credential_step(
    config: &DockerConfig,
    registry: &str,
    asked: usize,
    answer: Option<Credentials>,
) -> (step: CredentialStep)
    ensures
        step@ == credential_step_view(*config, registry@, asked as nat, opt_credentials(answer)),
{
    if answer.is_some() {
        return CredentialStep::Done(Ok(answer));
    }
    let calls = config.helper_calls(registry);
    if asked < calls.len() {
        assert(calls_view(calls@)[asked as int] == calls@[asked as int]@);
        return CredentialStep::Ask(
            HelperCall {
                helper: calls[asked].helper.clone(),
                registry: calls[asked].registry.clone(),
            },
        );
    }
    match config.stored_entry(registry) {
        None => CredentialStep::Done(Ok(None)),
        Some(auth) => match decode_auth_entry(auth.as_str()) {
            Ok(credentials) => CredentialStep::Done(Ok(Some(credentials))),
            Err(e) => CredentialStep::Done(Err(e)),
        },
    }
}

/// Every helper for a single registry is asked before the helper for all registries.
pub proof fn law_single_helpers_are_asked_first(
    config: DockerConfig,
    registry: Seq<char>,
    key: Seq<char>,
    asked: nat,
)
    requires
        registry_keys_view(registry).contains(key),
        config.cred_helpers@.contains_key(key),
        config.creds_store is Some,
        key_calls(config.cred_helpers@, registry_keys_view(registry)).len() <= asked,
    ensures
        exists|i: nat|
            i < asked && #[trigger] credential_step_view(config, registry, i, None)
                == CredentialStepView::Ask(
                HelperCallView { helper: config.cred_helpers@[key], registry: key },
            ),
{
    let keys = registry_keys_view(registry);
    lemma_key_calls(config.cred_helpers@, keys, key);
    let call = HelperCallView { helper: config.cred_helpers@[key], registry: key };
    let first = key_calls(config.cred_helpers@, keys);
    let i = choose|i: int| 0 <= i < first.len() && first[i] == call;
    assert(config.calls(registry)[i] == call);
    assert(credential_step_view(config, registry, i as nat, None) == CredentialStepView::Ask(
        call,
    ));
}

/// A key with a helper is among the questions.
proof fn lemma_key_calls(
    helpers: Map<Seq<char>, Seq<char>>,
    keys: Seq<Seq<char>>,
    key: Seq<char>,
)
    requires
        keys.contains(key),
        helpers.contains_key(key),
    ensures
        key_calls(helpers, keys).contains(
            HelperCallView { helper: helpers[key], registry: key },
        ),
    decreases keys.len(),
{
    let call = HelperCallView { helper: helpers[key], registry: key };
    let rest = keys.skip(1);
    let out = key_calls(helpers, keys);
    if keys[0] == key {
        assert(out[0] == call);
    } else {
        let j = choose|j: int| 0 <= j < keys.len() && keys[j] == key;
        assert(rest[j - 1] == key);
        lemma_key_calls(helpers, rest, key);
        let tail = key_calls(helpers, rest);
        let m = choose|m: int| 0 <= m < tail.len() && tail[m] == call;
        if helpers.contains_key(keys[0]) {
            assert(out[m + 1] == call);
        } else {
            assert(out[m] == call);
        }
    }
}

/// The name of the program that runs a helper.
pub open spec fn helper_binary_view(helper: Seq<char>) -> Seq<char> {
    "docker-credential-"@ + helper
}

/// The name of the program that runs a helper.
pub fn helper_binary(helper: &str) -> (name: String)
    ensures
        name@ == helper_binary_view(helper@),
{
    concat2("docker-credential-", helper)
}

/// How the run of a credential helper ended.
#[derive(Debug)]
pub enum HelperEvent {
    /// There is no such program.
    NotFound,
    /// The program could not be started.
    NotStarted(String),
    /// The registry could not be written to the program.
    NotWritten(String),
    /// The end of the program could not be awaited.
    NotAwaited(String),
    /// The program took too long.
    TimedOut(Delay),
    /// The program reported a failure: its status, and what it wrote to its error stream.
    Failed { status: String, stderr: Vec<u8> },
    /// What the program wrote could not be read: why, and what it wrote.
    Unreadable { message: String, stdout: Vec<u8> },
    /// The program answered.
    Answered { username: String, secret: String },
}

/// The outcome of a question to a credential helper: what it answered, or a warning.
pub open spec fn helper_outcome_view(
    event: HelperEvent,
    binary: Seq<char>,
    registry: Seq<char>,
) -> std::result::Result<CredentialsView, Seq<char>> {
    match event {
        HelperEvent::NotFound => Err(
            "docker credential helper `"@ + binary + "` not found for `"@ + registry + "`"@,
        ),
        HelperEvent::NotStarted(error) => Err(
            "failed to spawn docker credential helper `"@ + binary + "` for `"@ + registry
                + "`: "@ + error@,
        ),
        HelperEvent::NotWritten(error) => Err(
            "failed to write registry to docker credential helper `"@ + binary + "` for `"@
                + registry + "`: "@ + error@,
        ),
        HelperEvent::NotAwaited(error) => Err(
            "failed to wait for docker credential helper `"@ + binary + "` for `"@ + registry
                + "`: "@ + error@,
        ),
        HelperEvent::TimedOut(limit) => Err(
            "docker credential helper `"@ + binary + "` timed out for `"@ + registry
                + "` after "@ + duration_text(limit.seconds, limit.nanos),
        ),
        HelperEvent::Failed { status, stderr } => {
            let said = text::trim_view(bytes::lossy_text(stderr@));
            let message = "docker credential helper `"@ + binary + "` failed for `"@ + registry
                + "` with status "@ + status@;
            if said.len() == 0 {
                Err(message)
            } else {
                Err(message + ": "@ + said)
            }
        },
        HelperEvent::Unreadable { message, stdout } => {
            let warning = "docker credential helper `"@ + binary
                + "` returned invalid JSON for `"@ + registry + "`: "@ + message@;
            if bytes::all_ascii_space(stdout@) {
                Err(warning)
            } else {
                Err(warning + " (non-empty stdout omitted)"@)
            }
        },
        HelperEvent::Answered { username, secret } => Ok(
            CredentialsView { username: username@, password: secret@ },
        ),
    }
}

/// A message about a helper and a registry.
fn helper_message(a: &str, binary: &str, b: &str, registry: &str, c: &str) -> (m: String)
    ensures
        m@ == a@ + binary@ + b@ + registry@ + c@,
{
    let mut m = concat3(a, binary, b);
    m.append(registry);
    m.append(c);
    m
}

/// Decides what a question to a credential helper came to: what it answered, or a warning. A
/// warning never ends the search for credentials.
pub fn helper_outcome(event: HelperEvent, binary: &str, registry: &str) -> (r: std::result::Result<
    Credentials,
    String,
>)
    requires
        event matches HelperEvent::TimedOut(limit) ==> limit.wf(),
    ensures
        helper_outcome_view(event, binary@, registry@) == match r {
            Ok(credentials) => Ok(credentials@),
            Err(warning) => Err(warning@),
        },
{
    match event {
        HelperEvent::NotFound => Err(
            helper_message("docker credential helper `", binary, "` not found for `", registry, "`"),
        ),
        HelperEvent::NotStarted(error) => {
            let mut m = helper_message(
                "failed to spawn docker credential helper `",
                binary,
                "` for `",
                registry,
                "`: ",
            );
            m.append(error.as_str());
            Err(m)
        },
        HelperEvent::NotWritten(error) => {
            let mut m = helper_message(
                "failed to write registry to docker credential helper `",
                binary,
                "` for `",
                registry,
                "`: ",
            );
            m.append(error.as_str());
            Err(m)
        },
        HelperEvent::NotAwaited(error) => {
            let mut m = helper_message(
                "failed to wait for docker credential helper `",
                binary,
                "` for `",
                registry,
                "`: ",
            );
            m.append(error.as_str());
            Err(m)
        },
        HelperEvent::TimedOut(limit) => {
            let mut m = helper_message(
                "docker credential helper `",
                binary,
                "` timed out for `",
                registry,
                "` after ",
            );
            m.append(debug_duration(limit.seconds, limit.nanos).as_str());
            Err(m)
        },
        HelperEvent::Failed { status, stderr } => {
            let mut m = helper_message(
                "docker credential helper `",
                binary,
                "` failed for `",
                registry,
                "` with status ",
            );
            m.append(status.as_str());
            let lossy = bytes::read_lossy(stderr.as_slice());
            let said = text::trim(lossy.as_str());
            if said.unicode_len() != 0 {
                m.append(": ");
                m.append(said);
            }
            Err(m)
        },
        HelperEvent::Unreadable { message, stdout } => {
            let mut m = helper_message(
                "docker credential helper `",
                binary,
                "` returned invalid JSON for `",
                registry,
                "`: ",
            );
            m.append(message.as_str());
            if !bytes::is_blank(stdout.as_slice()) {
                m.append(" (non-empty stdout omitted)");
            }
            Err(m)
        },
        HelperEvent::Answered { username, secret } => Ok(
            Credentials::Basic { username, password: secret },
        ),
    }
}

/// What is known of the credentials for a registry.
pub enum Known {
    /// The credentials, or that there are none.
    Known(Option<Credentials>),
    /// The docker configuration has to be searched.
    Unknown,
}

/// Finds credentials, and remembers what the docker configuration gave for each registry.
pub struct AuthResolver {
    cli_credentials: Option<Credentials>,
    docker_config: Option<DockerConfig>,
    resolved: Vec<(String, Option<Credentials>)>,
}

/// What was remembered last for a registry.
pub open spec fn remembered(
    entries: Seq<(Seq<char>, Option<CredentialsView>)>,
    registry: Seq<char>,
) -> Option<Option<CredentialsView>>
    decreases entries.len(),
{
    if entries.len() == 0 {
        None
    } else if entries.last().0 == registry {
        Some(entries.last().1)
    } else {
        remembered(entries.drop_last(), registry)
    }
}

impl AuthResolver {
    /// The credentials from the command line.
    pub closed spec fn given(self) -> Option<CredentialsView> {
        opt_credentials(self.cli_credentials)
    }

    /// The docker configuration.
    pub closed spec fn config_view(self) -> Option<DockerConfig> {
        self.docker_config
    }

    /// What was remembered, oldest first.
    pub closed spec fn memory(self) -> Seq<(Seq<char>, Option<CredentialsView>)> {
        self.resolved@.map_values(
            |e: (String, Option<Credentials>)| (e.0@, opt_credentials(e.1)),
        )
    }

    /// What is known of the credentials for a registry: those from the command line are for every
    /// registry, and without a docker configuration there are no others.
    pub open spec fn known(self, registry: Seq<char>) -> Option<Option<CredentialsView>> {
        if self.given() is Some {
            Some(self.given())
        } else if self.config_view() is None {
            Some(None)
        } else {
            remembered(self.memory(), registry)
        }
    }

    /// A resolver that remembers nothing yet.
    pub fn new(cli_credentials: Option<Credentials>, docker_config: Option<DockerConfig>) -> (r:
        AuthResolver)
        ensures
            r.given() == opt_credentials(cli_credentials),
            r.config_view() == docker_config,
            r.memory() == Seq::<(Seq<char>, Option<CredentialsView>)>::empty(),
    {
        let r = AuthResolver { cli_credentials, docker_config, resolved: Vec::new() };
        assert(r.memory() =~= Seq::<(Seq<char>, Option<CredentialsView>)>::empty());
        r
    }

    /// The docker configuration.
    pub fn config(&self) -> (r: Option<&DockerConfig>)
        ensures
            self.config_view() == match r {
                Some(config) => Some(*config),
                None => None,
            },
    {
        match &self.docker_config {
            Some(config) => Some(config),
            None => None,
        }
    }

    /// Looks up what is known of the credentials for a registry.
    pub fn resolve(&self, registry: &str) -> (r: Known)
        ensures
            self.known(registry@) == match r {
                Known::Known(credentials) => Some(opt_credentials(credentials)),
                Known::Unknown => None,
            },
    {
        if self.cli_credentials.is_some() {
            return Known::Known(copy_credentials(&self.cli_credentials));
        }
        if self.docker_config.is_none() {
            return Known::Known(None);
        }
        let ghost all = self.memory();
        let mut i: usize = self.resolved.len();
        assert(all.take(i as int) =~= all);
        while i > 0
            invariant
                i <= self.resolved@.len(),
                all == self.memory(),
                self.given() is None,
                self.config_view() is Some,
                remembered(all, registry@) == remembered(all.take(i as int), registry@),
            decreases i,
        {
            i -= 1;
            assert(all.take(i + 1).drop_last() =~= all.take(i as int));
            assert(all.take(i + 1).last() == (
                self.resolved@[i as int].0@,
                opt_credentials(self.resolved@[i as int].1),
            ));
            if text::same(self.resolved[i].0.as_str(), registry) {
                return Known::Known(copy_credentials(&self.resolved[i].1));
            }
        }
        Known::Unknown
    }

    /// Remembers what the docker configuration gave for a registry; every later look-up for the
    /// registry then gives it, and no other look-up changes.
    pub fn remember(&mut self, registry: &str, credentials: Option<Credentials>)
        ensures
            final(self).given() == old(self).given(),
            final(self).config_view() == old(self).config_view(),
            final(self).memory() == old(self).memory().push(
                (registry@, opt_credentials(credentials)),
            ),
            old(self).known(registry@) is None ==> final(self).known(registry@) == Some(
                opt_credentials(credentials),
            ),
            forall|other: Seq<char>|
                other != registry@ ==> #[trigger] final(self).known(other) == old(self).known(
                    other,
                ),
    {
        self.resolved.push((registry.to_owned(), credentials));
        assert(self.memory() =~= old(self).memory().push(
            (registry@, opt_credentials(credentials)),
        ));
        assert(self.memory().drop_last() =~= old(self).memory());
    }
}

/// Drops the line ends at the end of a text.
pub open spec fn without_line_ends(s: Seq<char>) -> Seq<char>
    decreases s.len(),
{
    if s.len() > 0 && (s.last() == '\n' || s.last() == '\r') {
        without_line_ends(s.drop_last())
    } else {
        s
    }
}

/// The password in a text that was read to its end: the text without the line ends behind it.
pub fn trim_password(password: &str) -> (r: String)
    ensures
        r@ == without_line_ends(password@),
{
    let v = text::chars_of(password);
    let mut n: usize = v.len();
    assert(v@.take(n as int) =~= v@);
    while n > 0 && (v[n - 1] == '\n' || v[n - 1] == '\r')
        invariant
            n <= v@.len(),
            v@ == password@,
            without_line_ends(password@) == without_line_ends(v@.take(n as int)),
        decreases n,
    {
        assert(v@.take(n as int).drop_last() =~= v@.take(n - 1));
        n -= 1;
    }
    assert(password@.subrange(0, n as int) =~= v@.take(n as int));
    password.substring_char(0, n).to_owned()
}

/// Makes credentials of a user name and a password, which come together or not at all.
pub fn credentials_from_parts(username: Option<String>, password: Option<String>) -> (r: Result<
    Option<Credentials>,
>)
    ensures
        match (username, password) {
            (Some(u), Some(p)) => r matches Ok(Some(c)) && c@ == (CredentialsView {
                username: u@,
                password: p@,
            }),
            (None, None) => r matches Ok(None),
            (Some(_), None) => r matches Err(e) && e@ == ErrorView::InvalidInput(
                "`--username` requires `--password-stdin`"@,
            ),
            (None, Some(_)) => r matches Err(e) && e@ == ErrorView::InvalidInput(
                "`--password-stdin` requires `--username`"@,
            ),
        },
{
    match (username, password) {
        (Some(username), Some(password)) => Ok(Some(Credentials::Basic { username, password })),
        (None, None) => Ok(None),
        (Some(_), None) => Err(
            DockerPullError::InvalidInput("`--username` requires `--password-stdin`".to_owned()),
        ),
        (None, Some(_)) => Err(
            DockerPullError::InvalidInput("`--password-stdin` requires `--username`".to_owned()),
        ),
    }
}

/// Credentials for a registry are looked up under its own name; those for Docker Hub are then
/// looked up under its other names, the address of its first interface before all.
pub proof fn law_where_credentials_are_looked_up(registry: Seq<char>)
    ensures
        registry_keys_view(registry)[0] == registry,
        !is_docker_hub_view(registry) ==> registry_keys_view(registry) == seq![registry],
        registry_keys_view("docker.io"@) == seq![
            "docker.io"@,
            "https://index.docker.io/v1/"@,
            "registry-1.docker.io"@,
            "https://registry-1.docker.io"@,
            "index.docker.io"@,
        ],
        registry_keys_view("index.docker.io"@) == seq![
            "index.docker.io"@,
            "https://index.docker.io/v1/"@,
            "registry-1.docker.io"@,
            "https://registry-1.docker.io"@,
            "docker.io"@,
        ],
        registry_keys_view("registry-1.docker.io"@) == seq![
            "registry-1.docker.io"@,
            "https://index.docker.io/v1/"@,
            "https://registry-1.docker.io"@,
            "index.docker.io"@,
            "docker.io"@,
        ],
{
    reveal_strlit("docker.io");
    reveal_strlit("https://index.docker.io/v1/");
    reveal_strlit("registry-1.docker.io");
    reveal_strlit("https://registry-1.docker.io");
    reveal_strlit("index.docker.io");
    assert("docker.io"@.len() == 9 && "https://index.docker.io/v1/"@.len() == 27
        && "registry-1.docker.io"@.len() == 20 && "https://registry-1.docker.io"@.len() == 28
        && "index.docker.io"@.len() == 15);
    let all = docker_hub_auth_keys();
    let a = all[0];
    let b = all[1];
    let c = all[2];
    let d = all[3];
    let e = all[4];
    lemma_five_other_keys(a, b, c, d, e, "docker.io"@);
    lemma_five_other_keys(a, b, c, d, e, "index.docker.io"@);
    lemma_five_other_keys(a, b, c, d, e, "registry-1.docker.io"@);
    assert(all =~= seq![a, b, c, d, e]);
    assert(registry_keys_view("docker.io"@) =~= seq!["docker.io"@, a, b, c, d]);
    assert(registry_keys_view("index.docker.io"@) =~= seq!["index.docker.io"@, a, b, c, e]);
    assert(registry_keys_view("registry-1.docker.io"@)
        =~= seq!["registry-1.docker.io"@, a, c, d, e]);
}

proof fn lemma_five_other_keys(
    a: Seq<char>,
    b: Seq<char>,
    c: Seq<char>,
    d: Seq<char>,
    e: Seq<char>,
    registry: Seq<char>,
)
    requires
        a != registry,
        c != registry,
    ensures
        registry == e && b != registry && d != registry ==> other_keys(
            seq![a, b, c, d, e],
            registry,
        ) == seq![a, b, c, d],
        registry == d && b != registry && e != registry ==> other_keys(
            seq![a, b, c, d, e],
            registry,
        ) == seq![a, b, c, e],
        registry == b && d != registry && e != registry ==> other_keys(
            seq![a, b, c, d, e],
            registry,
        ) == seq![a, c, d, e],
{
    let five = seq![a, b, c, d, e];
    let four = seq![b, c, d, e];
    let three = seq![c, d, e];
    let two = seq![d, e];
    let one = seq![e];
    assert(five.skip(1) =~= four);
    assert(four.skip(1) =~= three);
    assert(three.skip(1) =~= two);
    assert(two.skip(1) =~= one);
    assert(one.skip(1) =~= Seq::<Seq<char>>::empty());
    assert(other_keys(Seq::<Seq<char>>::empty(), registry) =~= Seq::<Seq<char>>::empty());
    assert(registry != e ==> other_keys(one, registry) =~= seq![e]);
    assert(registry == e ==> other_keys(one, registry) =~= Seq::<Seq<char>>::empty());
    assert(registry != d && registry != e ==> other_keys(two, registry) =~= seq![d, e]);
    assert(registry == d && registry != e ==> other_keys(two, registry) =~= seq![e]);
    assert(registry != d && registry == e ==> other_keys(two, registry) =~= seq![d]);
    assert(other_keys(three, registry) =~= seq![c] + other_keys(two, registry));
    assert(registry != b ==> other_keys(four, registry) =~= seq![b] + other_keys(three, registry));
    assert(registry == b ==> other_keys(four, registry) =~= other_keys(three, registry));
    assert(other_keys(five, registry) =~= seq![a] + other_keys(four, registry));
}

/// An entry is a user name, a colon and a password, which may hold colons of its own. One without
/// a colon, or one that is no text, is refused.
pub proof fn law_an_entry_is_a_name_and_a_password(username: Seq<char>, password: Seq<char>)
    requires
        !username.contains(':'),
    ensures
        entry_credentials(Ok(encode_utf8(username + ":"@ + password))) == Ok::<
            CredentialsView,
            ErrorView,
        >(CredentialsView { username, password }),
        entry_credentials(Ok(encode_utf8(username))) is Err,
        forall|bytes: Seq<u8>| !valid_utf8(bytes) ==> #[trigger] entry_credentials(Ok(bytes)) is Err,
        forall|message: Seq<char>| #[trigger] entry_credentials(Err(message)) is Err,
{
    let s = username + ":"@ + password;
    reveal_strlit(":");
    encode_utf8_valid_utf8(s);
    encode_utf8_decode_utf8(s);
    encode_utf8_valid_utf8(username);
    encode_utf8_decode_utf8(username);
    text::lemma_split_once_at(username, ':', password);
    assert(s =~= username + seq![':'] + password);
    text::lemma_find_char(username, ':');
}

proof fn lemma_no_key_calls(helpers: Map<Seq<char>, Seq<char>>, keys: Seq<Seq<char>>)
    requires
        forall|i: int| 0 <= i < keys.len() ==> !helpers.contains_key(#[trigger] keys[i]),
    ensures
        key_calls(helpers, keys) == Seq::<HelperCallView>::empty(),
    decreases keys.len(),
{
    if keys.len() > 0 {
        assert(!helpers.contains_key(keys[0]));
        let rest = keys.skip(1);
        assert forall|i: int| 0 <= i < rest.len() implies !helpers.contains_key(
            #[trigger] rest[i],
        ) by {
            assert(rest[i] == keys[i + 1]);
        }
        lemma_no_key_calls(helpers, rest);
    }
}

/// Keys are asked of their own helpers in the order of the keys, and keys without one are passed
/// over.
pub proof fn law_each_key_is_asked_of_its_helper(
    helpers: Map<Seq<char>, Seq<char>>,
    keys: Seq<Seq<char>>,
    key: Seq<char>,
)
    ensures
        helpers.contains_key(key) ==> key_calls(helpers, keys.push(key)) == key_calls(
            helpers,
            keys,
        ).push(HelperCallView { helper: helpers[key], registry: key }),
        !helpers.contains_key(key) ==> key_calls(helpers, keys.push(key)) == key_calls(
            helpers,
            keys,
        ),
        key_calls(helpers, Seq::<Seq<char>>::empty()) == Seq::<HelperCallView>::empty(),
    decreases keys.len(),
{
    let all = keys.push(key);
    if keys.len() == 0 {
        assert(all.skip(1) =~= keys);
        assert(all[0] == key);
    } else {
        law_each_key_is_asked_of_its_helper(helpers, keys.skip(1), key);
        assert(all.skip(1) =~= keys.skip(1).push(key));
        assert(all[0] == keys[0]);
    }
}

/// What one helper for every registry is asked: each key, one after the other.
pub proof fn law_the_store_is_asked_for_every_key(
    config: DockerConfig,
    registry: Seq<char>,
    asked: nat,
)
    requires
        forall|i: int|
            0 <= i < registry_keys_view(registry).len() ==> !config.cred_helpers@.contains_key(
                #[trigger] registry_keys_view(registry)[i],
            ),
        asked < registry_keys_view(registry).len(),
    ensures
        config.creds_store matches Some(helper) ==> credential_step_view(
            config,
            registry,
            asked,
            None,
        ) == CredentialStepView::Ask(
            HelperCallView {
                helper: helper@,
                registry: registry_keys_view(registry)[asked as int],
            },
        ),
{
    let keys = registry_keys_view(registry);
    lemma_no_key_calls(config.cred_helpers@, keys);
    if let Some(helper) = config.creds_store {
        assert(config.calls(registry) =~= store_calls(helper@, keys));
    }
}

proof fn lemma_first_entry(
    auths: Map<Seq<char>, Seq<char>>,
    before: Seq<Seq<char>>,
    key: Seq<char>,
    after: Seq<Seq<char>>,
)
    requires
        forall|i: int| 0 <= i < before.len() ==> !auths.contains_key(#[trigger] before[i]),
    ensures
        auths.contains_key(key) ==> first_entry(auths, before + seq![key] + after) == Some(
            auths[key],
        ),
        first_entry(auths, before) is None,
    decreases before.len(),
{
    let all = before + seq![key] + after;
    if before.len() == 0 {
        assert(all[0] == key);
    } else {
        assert(!auths.contains_key(before[0]));
        let rest = before.skip(1);
        assert forall|i: int| 0 <= i < rest.len() implies !auths.contains_key(#[trigger] rest[i]) by {
            assert(rest[i] == before[i + 1]);
        }
        lemma_first_entry(auths, rest, key, after);
        assert(all.skip(1) =~= rest + seq![key] + after);
        assert(all[0] == before[0]);
    }
}

/// The search for credentials ends with the first answer. Where every helper was asked in vain,
/// the entry of the first key that has one is read, and without one there are no credentials.
pub proof fn law_a_search_for_credentials_ends(
    config: DockerConfig,
    registry: Seq<char>,
    asked: nat,
    answer: CredentialsView,
    at: int,
)
    ensures
        credential_step_view(config, registry, asked, Some(answer)) == CredentialStepView::Done(
            Ok(Some(answer)),
        ),
        asked >= config.calls(registry).len() ==> {
            let keys = registry_keys_view(registry);
            let end = credential_step_view(config, registry, asked, None);
            &&& (forall|i: int|
                0 <= i < keys.len() ==> !config.auths@.contains_key(#[trigger] keys[i])) ==> end
                == CredentialStepView::Done(Ok(None))
            &&& 0 <= at < keys.len() && config.auths@.contains_key(keys[at]) && (forall|i: int|
                0 <= i < at ==> !config.auths@.contains_key(#[trigger] keys[i])) ==> end
                == CredentialStepView::Done(
                match entry_credentials(base64_decoded(config.auths@[keys[at]])) {
                    Ok(credentials) => Ok(Some(credentials)),
                    Err(e) => Err(e),
                },
            )
        },
{
    let keys = registry_keys_view(registry);
    if 0 <= at < keys.len() && (forall|i: int|
        0 <= i < at ==> !config.auths@.contains_key(#[trigger] keys[i])) {
        let before = keys.take(at);
        assert forall|i: int| 0 <= i < before.len() implies !config.auths@.contains_key(
            #[trigger] before[i],
        ) by {
            assert(before[i] == keys[i]);
        }
        assert(keys =~= before + seq![keys[at]] + keys.skip(at + 1));
        lemma_first_entry(config.auths@, before, keys[at], keys.skip(at + 1));
    }
    if forall|i: int| 0 <= i < keys.len() ==> !config.auths@.contains_key(#[trigger] keys[i]) {
        lemma_first_entry(config.auths@, keys, registry, seq![]);
    }
}

/// Only an answer gives credentials, those that were answered; every other end of a helper is a
/// warning. What a helper wrote that could not be read is never shown, only that there was some.
pub proof fn law_only_an_answer_gives_credentials(
    event: HelperEvent,
    binary: Seq<char>,
    registry: Seq<char>,
    message: String,
    a: Vec<u8>,
    b: Vec<u8>,
)
    ensures
        helper_outcome_view(event, binary, registry) is Ok <==> event is Answered,
        event matches HelperEvent::Answered { username, secret } ==> helper_outcome_view(
            event,
            binary,
            registry,
        ) == Ok::<CredentialsView, Seq<char>>(
            CredentialsView { username: username@, password: secret@ },
        ),
        bytes::all_ascii_space(a@) == bytes::all_ascii_space(b@) ==> helper_outcome_view(
            HelperEvent::Unreadable { message, stdout: a },
            binary,
            registry,
        ) == helper_outcome_view(
            HelperEvent::Unreadable { message, stdout: b },
            binary,
            registry,
        ),
        helper_outcome_view(HelperEvent::NotFound, binary, registry) == Err::<
            CredentialsView,
            Seq<char>,
        >("docker credential helper `"@ + binary + "` not found for `"@ + registry + "`"@),
        event matches HelperEvent::Failed { status, stderr } ==> {
            let said = text::trim_view(bytes::lossy_text(stderr@));
            let warning = helper_outcome_view(event, binary, registry)->Err_0;
            &&& said.len() > 0 ==> text::ends_with_view(warning, ": "@ + said)
            &&& said.len() == 0 ==> text::ends_with_view(warning, " with status "@ + status@)
        },
{
    if let HelperEvent::Failed { status, stderr } = event {
        let said = text::trim_view(bytes::lossy_text(stderr@));
        let warning = helper_outcome_view(event, binary, registry)->Err_0;
        if said.len() > 0 {
            let tail = ": "@ + said;
            assert(warning.skip(warning.len() - tail.len()) =~= tail);
        } else {
            reveal_strlit("` with status ");
            reveal_strlit(" with status ");
            let tail = " with status "@ + status@;
            assert(warning.skip(warning.len() - tail.len()) =~= tail);
        }
    }
}

/// Credentials from the command line are used for every registry, and without a docker
/// configuration there are no others; what was remembered last for a registry is what is known.
pub proof fn law_given_credentials_win(
    resolver: AuthResolver,
    registry: Seq<char>,
    credentials: CredentialsView,
)
    ensures
        resolver.given() == Some(credentials) ==> resolver.known(registry) == Some(
            Some(credentials),
        ),
        resolver.given() is None && resolver.config_view() is None ==> resolver.known(registry)
            == Some(None::<CredentialsView>),
        resolver.given() is None && resolver.config_view() is Some && resolver.memory().len() == 0
            ==> resolver.known(registry) is None,
{
}

/// What is remembered for a registry replaces what was remembered for it, and for no other.
pub proof fn law_the_last_memory_counts(
    entries: Seq<(Seq<char>, Option<CredentialsView>)>,
    registry: Seq<char>,
    other: Seq<char>,
    credentials: Option<CredentialsView>,
)
    ensures
        remembered(entries.push((registry, credentials)), registry) == Some(credentials),
        other != registry ==> remembered(entries.push((registry, credentials)), other)
            == remembered(entries, other),
{
    assert(entries.push((registry, credentials)).drop_last() =~= entries);
}

/// A password goes without the line ends behind it, and keeps everything else.
pub proof fn law_a_password_goes_without_its_line_ends(password: Seq<char>, ends: Seq<char>)
    requires
        password.len() > 0 ==> password.last() != '\n' && password.last() != '\r',
        forall|i: int| 0 <= i < ends.len() ==> #[trigger] ends[i] == '\n' || ends[i] == '\r',
    ensures
        without_line_ends(password + ends) == password,
    decreases ends.len(),
{
    let all = password + ends;
    if ends.len() == 0 {
        assert(all =~= password);
    } else {
        assert(all.last() == ends[ends.len() - 1]);
        assert(all.drop_last() =~= password + ends.drop_last());
        law_a_password_goes_without_its_line_ends(password, ends.drop_last());
    }
}

} // verus!
