//! Requests to a registry: their addresses, their headers, and what to do with the replies.
use vstd::prelude::*;

use crate::auth::Credentials;
use crate::digest::{self, canonical_digest_bytes};
use crate::error::{concat2, concat3, DockerPullError, ErrorView, Result};
use crate::reference::{ImageReference, ReferenceView};
use crate::registry::cache::{
    self, address_view, cache_repository, resource_url_below, AddressResult,
};
use crate::registry::challenge::{self, parse_www_authenticate};
use crate::registry::types::{BlobMetadata, Descriptor, DescriptorView, RawManifest, Status};
use crate::registry::types;
use crate::retry::{self, record_retry_attempt, Delay};
use crate::text;

verus! {

/// How often a request is retried, where nothing else is asked for.
pub const DEFAULT_REQUEST_RETRIES: u32 = 5;

/// How often a request is sent again with a new token.
pub const MAX_AUTH_RETRIES: u32 = 2;

/// The manifest types that a pull can use, most wanted first.
pub open spec fn manifest_accept_view() -> Seq<char> {
    "application/vnd.oci.image.index.v1+json,application/vnd.docker.distribution.manifest.list.v2+json,application/vnd.oci.image.manifest.v1+json,application/vnd.docker.distribution.manifest.v2+json"@
}

/// The manifest types that a pull can use, as the value of an `Accept` header.
pub fn manifest_accept() -> (s: &'static str)
    ensures
        s@ == manifest_accept_view(),
{
    "application/vnd.oci.image.index.v1+json,application/vnd.docker.distribution.manifest.list.v2+json,application/vnd.oci.image.manifest.v1+json,application/vnd.docker.distribution.manifest.v2+json"
}

/// Where the resources of a registry are found: at the registry itself or, where one is given, at
/// a cache, with the registry behind it unless only the cache is wanted.
#[derive(Debug)]
pub struct RegistryAddresses {
    pub plain_http: bool,
    pub cache_from: Option<String>,
    pub cache_only: bool,
}

/// The address of a registry.
pub open spec fn registry_base(plain_http: bool, registry: Seq<char>) -> Seq<char> {
    (if plain_http {
        "http"@
    } else {
        "https"@
    }) + "://"@ + registry
}

/// The address of a resource at its registry.
pub open spec fn direct_address(
    plain_http: bool,
    reference: ReferenceView,
    resource: Seq<char>,
    suffix: Seq<char>,
) -> Option<AddressResult> {
    cache::resource_address(
        registry_base(plain_http, reference.registry),
        reference.repository,
        resource,
        suffix,
    )
}

impl RegistryAddresses {
    /// The address that a resource is asked for at first.
    pub open spec fn primary(
        self,
        reference: ReferenceView,
        resource: Seq<char>,
        suffix: Seq<char>,
    ) -> Option<AddressResult> {
        match self.cache_from {
            Some(base) => cache::resource_address(
                base@,
                cache::cached_name(reference.registry, reference.repository),
                resource,
                suffix,
            ),
            None => direct_address(self.plain_http, reference, resource, suffix),
        }
    }

    /// The address that a resource is asked for where it was not found at first.
    pub open spec fn fallback(
        self,
        reference: ReferenceView,
        resource: Seq<char>,
        suffix: Seq<char>,
    ) -> Option<std::result::Result<Option<Seq<char>>, ErrorView>> {
        if self.cache_from is Some && !self.cache_only {
            match direct_address(self.plain_http, reference, resource, suffix) {
                None => None,
                Some(Ok(url)) => Some(Ok(Some(url))),
                Some(Err(e)) => Some(Err(e)),
            }
        } else {
            Some(Ok(None))
        }
    }

    /// Where a resource is asked for at first.
    pub fn mode(&self) -> (mode: RequestMode)
        ensures
            mode == if self.cache_from is Some {
                RequestMode::Cache
            } else {
                RequestMode::Direct
            },
    {
        match &self.cache_from {
            Some(_) => RequestMode::Cache,
            None => RequestMode::Direct,
        }
    }

    fn direct_url(&self, reference: &ImageReference, resource: &str, suffix: &str) -> (r: Option<
        Result<String>,
    >)
        ensures
            address_view(r) == direct_address(self.plain_http, reference@, resource@, suffix@),
    {
        let scheme = if self.plain_http {
            "http"
        } else {
            "https"
        };
        let base = concat3(scheme, "://", reference.registry.as_str());
        resource_url_below(base.as_str(), reference.repository.as_str(), resource, suffix)
    }

    /// The address that a resource is asked for at first, unless it would be too long.
    pub fn primary_url(&self, reference: &ImageReference, resource: &str, suffix: &str) -> (r:
        Option<Result<String>>)
        ensures
            address_view(r) == self.primary(reference@, resource@, suffix@),
    {
        match &self.cache_from {
            Some(base) => {
                let repository = cache_repository(
                    reference.registry.as_str(),
                    reference.repository.as_str(),
                );
                resource_url_below(base.as_str(), repository.as_str(), resource, suffix)
            },
            None => self.direct_url(reference, resource, suffix),
        }
    }

    /// The address that a resource is asked for where it was not found at first, unless it would be
    /// too long.
    pub fn fallback_url(&self, reference: &ImageReference, resource: &str, suffix: &str) -> (r:
        Option<Result<Option<String>>>)
        ensures
            self.fallback(reference@, resource@, suffix@) == match r {
                None => None,
                Some(Ok(url)) => Some(Ok(text::opt_string(url))),
                Some(Err(e)) => Some(Err(e@)),
            },
    {
        if self.cache_from.is_some() && !self.cache_only {
            match self.direct_url(reference, resource, suffix) {
                None => None,
                Some(Ok(url)) => Some(Ok(Some(url))),
                Some(Err(e)) => Some(Err(e)),
            }
        } else {
            Some(Ok(None))
        }
    }
}

/// A request goes on at the registry where a cache does not have the resource.
pub fn falls_back(status: u16, has_fallback: bool) -> (r: bool)
    ensures
        r == (status == 404 && has_fallback),
{
    status == 404 && has_fallback
}

/// Whether a request is sent to a registry or to a cache.
#[derive(Debug, Clone, Copy, PartialEq, Eq, Structural)]
pub enum RequestMode {
    Direct,
    Cache,
}

impl RequestMode {
    /// Whether requests carry the credentials for the registry.
    pub fn uses_registry_auth(self) -> (r: bool)
        ensures
            r == (self is Direct),
    {
        match self {
            RequestMode::Direct => true,
            RequestMode::Cache => false,
        }
    }
}

/// How a request is authorized.
#[derive(Debug)]
pub enum Authorization {
    Anonymous,
    Bearer(String),
    Basic { username: String, password: String },
}

/// How a request is authorized: with the token, where there is one, or else with the credentials.
pub fn authorization(token: Option<String>, credentials: &Option<Credentials>) -> (r: Authorization)
    ensures
        match (token, *credentials) {
            (Some(t), _) => r matches Authorization::Bearer(b) && b@ == t@,
            (None, Some(c)) => r matches Authorization::Basic { username, password } && username@
                == c@.username && password@ == c@.password,
            (None, None) => r is Anonymous,
        },
{
    match token {
        Some(t) => Authorization::Bearer(t),
        None => match credentials {
            Some(Credentials::Basic { username, password }) => Authorization::Basic {
                username: username.clone(),
                password: password.clone(),
            },
            None => Authorization::Anonymous,
        },
    }
}

/// Whether a response with the status is worth a retry.
pub open spec fn is_retryable_code(code: u16) -> bool {
    code == 408 || code == 429 || code == 500 || code == 502 || code == 503 || code == 504
}

/// Whether a response with the status is worth a retry.
pub fn is_retryable_status(code: u16) -> (r: bool)
    ensures
        r == is_retryable_code(code),
{
    code == 408 || code == 429 || code == 500 || code == 502 || code == 503 || code == 504
}

/// Whether a request that failed in one of the ways is worth a retry.
pub fn is_retryable_failure(timeout: bool, connect: bool, request: bool, body: bool) -> (r: bool)
    ensures
        r == (timeout || connect || request || body),
{
    timeout || connect || request || body
}

/// How requests are made.
#[derive(Debug, Clone, Copy)]
pub struct RequestPolicy {
    pub mode: RequestMode,
    pub allow_retry: bool,
    pub retry_limit: Option<u32>,
}

/// How often a request was sent again.
#[derive(Debug, Clone, Copy, PartialEq, Eq, Structural)]
pub struct RequestState {
    pub retries: u32,
    pub auth_retries: u32,
}

/// What came of the last action of a request.
#[derive(Debug)]
pub enum RequestEvent {
    /// Sending failed before there was a response.
    SendFailed { retryable: bool, message: String },
    /// There was a response. The challenge is its `WWW-Authenticate` header, or the message that
    /// says why the header is no text.
    Response {
        status: Status,
        challenge: Option<std::result::Result<String, String>>,
        retry_after: Option<Delay>,
    },
    /// The token endpoint could not be asked, or its answer not be read.
    TokenFailed { message: String },
    /// The token endpoint refused.
    TokenRefused { status: Status },
    /// The token endpoint answered.
    Token { token: Option<String>, access_token: Option<String> },
}

/// What came of the last action of a request, as text.
pub enum EventView {
    SendFailed { retryable: bool, message: Seq<char> },
    Response {
        code: u16,
        status: Seq<char>,
        challenge: Option<std::result::Result<Seq<char>, Seq<char>>>,
        retry_after: Option<Delay>,
    },
    TokenFailed { message: Seq<char> },
    TokenRefused { code: u16, status: Seq<char> },
    Token { token: Option<Seq<char>>, access_token: Option<Seq<char>> },
}

impl View for RequestEvent {
    type V = EventView;

    open spec fn view(&self) -> EventView {
        match self {
            RequestEvent::SendFailed { retryable, message } => EventView::SendFailed {
                retryable: *retryable,
                message: message@,
            },
            RequestEvent::Response { status, challenge, retry_after } => EventView::Response {
                code: status.code,
                status: status.text@,
                challenge: match challenge {
                    Some(Ok(header)) => Some(Ok(header@)),
                    Some(Err(message)) => Some(Err(message@)),
                    None => None,
                },
                retry_after: *retry_after,
            },
            RequestEvent::TokenFailed { message } => EventView::TokenFailed { message: message@ },
            RequestEvent::TokenRefused { status } => EventView::TokenRefused {
                code: status.code,
                status: status.text@,
            },
            RequestEvent::Token { token, access_token } => EventView::Token {
                token: text::opt_string(*token),
                access_token: text::opt_string(*access_token),
            },
        }
    }
}

/// What a request does next.
#[derive(Debug)]
pub enum RequestAction {
    /// Ask the token endpoint.
    FetchToken { realm: String, service: String, scope: String },
    /// Keep the token, and send the request again.
    Resend { token: String },
    /// Say so, wait, and send the request again.
    Retry { delay: Delay, status: String, warning: String },
    /// The last response is the answer.
    Done,
    /// The request failed.
    Fail(DockerPullError),
}

/// What a request does next, as text.
pub enum ActionView {
    FetchToken { realm: Seq<char>, service: Seq<char>, scope: Seq<char> },
    Resend { token: Seq<char> },
    Retry { delay: Delay, status: Seq<char>, warning: Seq<char> },
    Done,
    Fail(ErrorView),
}

impl View for RequestAction {
    type V = ActionView;

    open spec fn view(&self) -> ActionView {
        match self {
            RequestAction::FetchToken { realm, service, scope } => ActionView::FetchToken {
                realm: realm@,
                service: service@,
                scope: scope@,
            },
            RequestAction::Resend { token } => ActionView::Resend { token: token@ },
            RequestAction::Retry { delay, status, warning } => ActionView::Retry {
                delay: *delay,
                status: status@,
                warning: warning@,
            },
            RequestAction::Done => ActionView::Done,
            RequestAction::Fail(e) => ActionView::Fail(e@),
        }
    }
}

/// What is said of a retry in the place where the progress of the request is shown. `after` is the
/// status that led to it, if one did.
pub open spec fn retry_status_view(
    after: Option<Seq<char>>,
    delay: Delay,
    budget: Seq<char>,
) -> Seq<char> {
    let wait = retry::duration_text(delay.seconds, delay.nanos);
    match after {
        None => "Retrying request in "@ + wait + " ("@ + budget + ")"@,
        Some(status) => "Retrying after "@ + status + " in "@ + wait + " ("@ + budget + ")"@,
    }
}

/// What is said of a retry where nothing else shows the progress of the request.
pub open spec fn retry_warning_view(
    name: Seq<char>,
    after: Option<Seq<char>>,
    delay: Delay,
    budget: Seq<char>,
) -> Seq<char> {
    let wait = retry::duration_text(delay.seconds, delay.nanos);
    match after {
        None => "registry request for "@ + name + " failed before response; retrying in "@ + wait
            + " ("@ + budget + ")"@,
        Some(status) => "registry request for "@ + name + " returned "@ + status + "; retrying in "@
            + wait + " ("@ + budget + ")"@,
    }
}

/// The next step where a retry is wanted: it is counted and announced, or the limit is reached.
pub open spec fn retry_step(
    policy: RequestPolicy,
    reference: ReferenceView,
    state: RequestState,
    after: Option<Seq<char>>,
    detail: Seq<char>,
    delay: Delay,
) -> (RequestState, ActionView) {
    if retry::is_exhausted(state.retries, policy.retry_limit) {
        (
            state,
            ActionView::Fail(
                ErrorView::RetryLimitExceeded {
                    operation: "registry request"@,
                    retries: state.retries,
                    detail,
                },
            ),
        )
    } else {
        let next = RequestState {
            retries: (state.retries + 1) as u32,
            auth_retries: state.auth_retries,
        };
        let budget = retry::budget_view(next.retries, policy.retry_limit);
        (
            next,
            ActionView::Retry {
                delay,
                status: retry_status_view(after, delay, budget),
                warning: retry_warning_view(reference.display(), after, delay, budget),
            },
        )
    }
}

/// Whether a scheme is `Bearer`, in any case.
pub open spec fn is_bearer(scheme: Seq<char>) -> bool {
    text::lower_view(scheme) == "bearer"@
}

/// The next step after the registry asked for authentication.
pub open spec fn challenge_step(
    reference: ReferenceView,
    state: RequestState,
    challenge: Option<std::result::Result<Seq<char>, Seq<char>>>,
) -> ActionView {
    if state.auth_retries >= MAX_AUTH_RETRIES {
        ActionView::Fail(
            ErrorView::Unauthorized(
                "authentication retry limit exceeded for "@ + reference.normalized(),
            ),
        )
    } else {
        match challenge {
            None => ActionView::Fail(ErrorView::Unauthorized("missing challenge"@)),
            Some(Err(message)) => ActionView::Fail(ErrorView::Header(message)),
            Some(Ok(header)) => match challenge::challenge_of(header) {
                Err(e) => ActionView::Fail(e),
                Ok(c) => if !is_bearer(c.scheme) {
                    ActionView::Fail(ErrorView::Unauthorized(reference.normalized()))
                } else {
                    ActionView::FetchToken {
                        realm: c.realm,
                        service: match c.service {
                            Some(service) => service,
                            None => seq![],
                        },
                        scope: match c.scope {
                            Some(scope) => scope,
                            None => reference.scope(),
                        },
                    }
                },
            },
        }
    }
}

/// The next state and action of a request. `backoff` is the wait that a retry takes where the
/// registry names none.
pub open spec fn request_step(
    policy: RequestPolicy,
    reference: ReferenceView,
    state: RequestState,
    event: EventView,
    backoff: Delay,
) -> (RequestState, ActionView) {
    match event {
        EventView::SendFailed { retryable, message } => if policy.allow_retry && retryable {
            retry_step(policy, reference, state, None, message, backoff)
        } else {
            (state, ActionView::Fail(ErrorView::Http(message)))
        },
        EventView::Response { code, status, challenge, retry_after } => if code == 401 {
            (
                state,
                if policy.mode is Cache {
                    ActionView::Fail(ErrorView::Unauthorized(reference.normalized()))
                } else {
                    challenge_step(reference, state, challenge)
                },
            )
        } else if policy.allow_retry && is_retryable_code(code) {
            retry_step(
                policy,
                reference,
                state,
                Some(status),
                "registry returned "@ + status,
                match retry_after {
                    Some(delay) => delay,
                    None => backoff,
                },
            )
        } else if 500 <= code <= 599 {
            (state, ActionView::Fail(ErrorView::BadResponse("registry returned "@ + status)))
        } else {
            (state, ActionView::Done)
        },
        EventView::TokenFailed { message } => (state, ActionView::Fail(ErrorView::Http(message))),
        EventView::TokenRefused { status, .. } => (
            state,
            ActionView::Fail(ErrorView::Unauthorized("token endpoint returned "@ + status)),
        ),
        EventView::Token { token, access_token } => match (token, access_token) {
            (Some(t), _) => (after_token(state), ActionView::Resend { token: t }),
            (None, Some(t)) => (after_token(state), ActionView::Resend { token: t }),
            (None, None) => (
                state,
                ActionView::Fail(ErrorView::Unauthorized(reference.normalized())),
            ),
        },
    }
}

/// The state once a new token is there.
pub open spec fn after_token(state: RequestState) -> RequestState {
    RequestState { retries: state.retries, auth_retries: (state.auth_retries + 1) as u32 }
}

/// The state of a request that was not sent yet.
pub fn new_request() -> (state: RequestState)
    ensures
        state == (RequestState { retries: 0, auth_retries: 0 }),
{
    RequestState { retries: 0, auth_retries: 0 }
}

/// Whether a state leaves room for counting: there is a limit, or the count is not at its end.
pub open spec fn can_count(policy: RequestPolicy, state: RequestState) -> bool {
    &&& policy.retry_limit is None ==> state.retries < u32::MAX
    &&& state.auth_retries < u32::MAX
}

fn retry_messages(
    name: &str,
    after: Option<&str>,
    delay: Delay,
    budget: &str,
) -> (r: (String, String))
    requires
        delay.wf(),
    ensures
        r.0@ == retry_status_view(text::opt_view(after), delay, budget@),
        r.1@ == retry_warning_view(name@, text::opt_view(after), delay, budget@),
{
    let wait = retry::debug_duration(delay.seconds, delay.nanos);
    let mut status;
    let mut warning;
    match after {
        None => {
            status = concat2("Retrying request in ", wait.as_str());
            warning = concat3(
                "registry request for ",
                name,
                " failed before response; retrying in ",
            );
        },
        Some(s) => {
            status = concat3("Retrying after ", s, " in ");
            status.append(wait.as_str());
            warning = concat3("registry request for ", name, " returned ");
            warning.append(s);
            warning.append("; retrying in ");
        },
    }
    status.append(" (");
    status.append(budget);
    status.append(")");
    warning.append(wait.as_str());
    warning.append(" (");
    warning.append(budget);
    warning.append(")");
    (status, warning)
}

fn retry_request(
    policy: RequestPolicy,
    reference: &ImageReference,
    state: &mut RequestState,
    after: Option<&str>,
    detail: &str,
    delay: Delay,
) -> (action: RequestAction)
    requires
        can_count(policy, *old(state)),
        delay.wf(),
    ensures
        (*final(state), action@) == retry_step(
            policy,
            reference@,
            *old(state),
            text::opt_view(after),
            detail@,
            delay,
        ),
{
    let mut retries: u32 = state.retries;
    match record_retry_attempt(&mut retries, policy.retry_limit, "registry request", detail) {
        Ok(budget) => {
            *state = RequestState { retries, auth_retries: state.auth_retries };
            let name = reference.display_name();
            let (status, warning) = retry_messages(name.as_str(), after, delay, budget.as_str());
            RequestAction::Retry { delay, status, warning }
        },
        Err(e) => RequestAction::Fail(e),
    }
}

fn answer_challenge(
    reference: &ImageReference,
    state: RequestState,
    challenge: Option<std::result::Result<String, String>>,
) -> (action: RequestAction)
    ensures
        action@ == challenge_step(
            reference@,
            state,
            match challenge {
                Some(Ok(header)) => Some(Ok(header@)),
                Some(Err(message)) => Some(Err(message@)),
                None => None,
            },
        ),
{
    if state.auth_retries >= MAX_AUTH_RETRIES {
        return RequestAction::Fail(
            DockerPullError::Unauthorized(
                concat2(
                    "authentication retry limit exceeded for ",
                    reference.normalized().as_str(),
                ),
            ),
        );
    }
    match challenge {
        None => RequestAction::Fail(DockerPullError::Unauthorized("missing challenge".to_owned())),
        Some(Err(message)) => RequestAction::Fail(DockerPullError::Header(message)),
        Some(Ok(header)) => match parse_www_authenticate(header.as_str()) {
            Err(e) => RequestAction::Fail(e),
            Ok(c) => {
                if !text::same(text::to_lower(c.scheme.as_str()).as_str(), "bearer") {
                    RequestAction::Fail(DockerPullError::Unauthorized(reference.normalized()))
                } else {
                    let service = match c.service {
                        Some(service) => service,
                        None => String::new(),
                    };
                    let scope = match c.scope {
                        Some(scope) => scope,
                        None => reference.repository_scope(),
                    };
                    RequestAction::FetchToken { realm: c.realm, service, scope }
                }
            },
        },
    }
}

/// Decides what a request does next.
pub fn next_request_action(
    policy: RequestPolicy,
    reference: &ImageReference,
    state: &mut RequestState,
    event: RequestEvent,
    backoff: Delay,
) -> (action: RequestAction)
    requires
        can_count(policy, *old(state)),
        backoff.wf(),
        event@ matches EventView::Response { retry_after: Some(delay), .. } ==> delay.wf(),
    ensures
        (*final(state), action@) == request_step(
            policy,
            reference@,
            *old(state),
            event@,
            backoff,
        ),
{
    match event {
        RequestEvent::SendFailed { retryable, message } => {
            if policy.allow_retry && retryable {
                retry_request(policy, reference, state, None, message.as_str(), backoff)
            } else {
                RequestAction::Fail(DockerPullError::Http(message))
            }
        },
        RequestEvent::Response { status, challenge, retry_after } => {
            if status.code == 401 {
                match policy.mode {
                    RequestMode::Cache => RequestAction::Fail(
                        DockerPullError::Unauthorized(reference.normalized()),
                    ),
                    RequestMode::Direct => answer_challenge(reference, *state, challenge),
                }
            } else if policy.allow_retry && is_retryable_status(status.code) {
                let delay = match retry_after {
                    Some(delay) => delay,
                    None => backoff,
                };
                let detail = concat2("registry returned ", status.text.as_str());
                retry_request(
                    policy,
                    reference,
                    state,
                    Some(status.text.as_str()),
                    detail.as_str(),
                    delay,
                )
            } else if 500 <= status.code && status.code <= 599 {
                RequestAction::Fail(
                    DockerPullError::BadResponse(
                        concat2("registry returned ", status.text.as_str()),
                    ),
                )
            } else {
                RequestAction::Done
            }
        },
        RequestEvent::TokenFailed { message } => RequestAction::Fail(
            DockerPullError::Http(message),
        ),
        RequestEvent::TokenRefused { status } => RequestAction::Fail(
            DockerPullError::Unauthorized(
                concat2("token endpoint returned ", status.text.as_str()),
            ),
        ),
        RequestEvent::Token { token, access_token } => {
            let found = match token {
                Some(t) => Some(t),
                None => access_token,
            };
            match found {
                Some(t) => {
                    let auth_retries: u32 = state.auth_retries + 1;
                    *state = RequestState { retries: state.retries, auth_retries };
                    RequestAction::Resend { token: t }
                },
                None => RequestAction::Fail(
                    DockerPullError::Unauthorized(reference.normalized()),
                ),
            }
        },
    }
}

/// A limited request is never retried more often than its limit says.
pub proof fn law_retries_stay_within_the_limit(
    policy: RequestPolicy,
    reference: ReferenceView,
    state: RequestState,
    event: EventView,
    backoff: Delay,
    limit: u32,
)
    requires
        policy.retry_limit == Some(limit),
        state.retries <= limit,
    ensures
        request_step(policy, reference, state, event, backoff).0.retries <= limit,
{
}

/// A request that may not be retried is never sent again for a failure.
pub proof fn law_no_retry_without_permission(
    policy: RequestPolicy,
    reference: ReferenceView,
    state: RequestState,
    event: EventView,
    backoff: Delay,
)
    requires
        !policy.allow_retry,
    ensures
        !(request_step(policy, reference, state, event, backoff).1 is Retry),
{
}

/// A cache is never asked for a token: a cache that refuses a request ends it.
pub proof fn law_caches_are_not_authenticated(
    policy: RequestPolicy,
    reference: ReferenceView,
    state: RequestState,
    event: EventView,
    backoff: Delay,
)
    requires
        policy.mode is Cache,
    ensures
        !(request_step(policy, reference, state, event, backoff).1 is FetchToken),
{
}

/// The seconds since the epoch that an HTTP date denotes.
pub uninterp spec fn http_date(value: Seq<char>) -> Option<u64>;

/// Calls `httpdate::parse_http_date`. The moment depends on the text alone; it lies on a whole
/// second, at the epoch or after it.
#[verifier::external_body]
fn parse_http_date(value: &str) -> (r: Option<u64>)
    ensures
        r == http_date(value@),
{
    let moment = httpdate::parse_http_date(value).ok()?;
    moment.duration_since(std::time::UNIX_EPOCH).ok().map(|since| since.as_secs())
}

/// The wait that a registry asks for, given the moment that it names: the time until that moment,
/// unless it is past.
pub fn wait_until(moment: u64, now: Delay) -> (r: Option<Delay>)
    requires
        now.wf(),
    ensures
        match r {
            Some(d) => d.wf() && d.total() == moment * 1_000_000_000 - now.total(),
            None => moment * 1_000_000_000 < now.total(),
        },
{
    let then = Delay::from_secs(moment);
    if then.less(now) {
        None
    } else {
        Some(then.saturating_sub(now))
    }
}

/// The wait that a `Retry-After` header asks for: a number of seconds, or the time until a date.
/// `now` is the time since the epoch.
pub fn retry_after_delay(header: Option<&str>, now: Delay) -> (r: Option<Delay>)
    requires
        now.wf(),
    ensures
        match header {
            None => r is None,
            Some(raw) => match text::parse_unsigned_view(raw@, u64::MAX as nat) {
                Some(seconds) => r matches Some(d) && d.wf() && d.total() == seconds
                    * 1_000_000_000,
                None => match http_date(raw@) {
                    Some(moment) => match r {
                        Some(d) => d.wf() && d.total() == moment * 1_000_000_000 - now.total(),
                        None => moment * 1_000_000_000 < now.total(),
                    },
                    None => r is None,
                },
            },
        },
{
    let raw = match header {
        Some(raw) => raw,
        None => {
            return None;
        },
    };
    if let Some(seconds) = text::parse_unsigned(raw, u64::MAX) {
        return Some(Delay::from_secs(seconds));
    }
    match parse_http_date(raw) {
        Some(moment) => wait_until(moment, now),
        None => None,
    }
}

/// The media type in a `Content-Type` header, without its parameters; empty where there is none.
pub open spec fn media_type_view(header: Option<Seq<char>>) -> Seq<char> {
    match header {
        Some(value) => text::trim_view(text::split_view(value, ';')[0]),
        None => seq![],
    }
}

/// Reads the media type in a `Content-Type` header.
pub fn content_media_type(header: Option<&str>) -> (s: String)
    ensures
        s@ == media_type_view(text::opt_view(header)),
{
    match header {
        Some(value) => {
            let parts = text::split(value, ';');
            proof {
                text::lemma_split_pieces(value@, ';');
                assert(text::str_texts(parts@)[0] == parts@[0]@);
            }
            text::trim(parts[0]).to_owned()
        },
        None => String::new(),
    }
}

/// Why the response to a request for a manifest cannot be used.
pub open spec fn manifest_status_error(
    code: u16,
    status: Seq<char>,
    resource: Seq<char>,
) -> Option<ErrorView> {
    if code == 404 {
        Some(ErrorView::ManifestNotFound)
    } else if types::is_success_code(code) {
        None
    } else {
        Some(ErrorView::BadResponse("registry returned "@ + status + " for "@ + resource))
    }
}

/// Checks the status of the response to a request for a manifest.
pub fn ensure_manifest_status(status: &Status, resource: &str) -> (r: Result<()>)
    ensures
        manifest_status_error(status.code, status.text@, resource@) == match r {
            Ok(_) => None,
            Err(e) => Some(e@),
        },
{
    if status.code == 404 {
        Err(DockerPullError::ManifestNotFound)
    } else if status.is_success() {
        Ok(())
    } else {
        let mut m = concat3("registry returned ", status.text.as_str(), " for ");
        m.append(resource);
        Err(DockerPullError::BadResponse(m))
    }
}

/// Why the response to a request for a blob cannot be used.
pub open spec fn blob_status_error(
    code: u16,
    status: Seq<char>,
    digest: Seq<char>,
) -> Option<ErrorView> {
    if code == 404 {
        Some(ErrorView::BlobNotFound(digest))
    } else if types::is_success_code(code) {
        None
    } else {
        Some(ErrorView::BadResponse("registry returned "@ + status + " for blob "@ + digest))
    }
}

/// Checks the status of the response to a request for a blob.
pub fn ensure_blob_status(status: &Status, digest: &str) -> (r: Result<()>)
    ensures
        blob_status_error(status.code, status.text@, digest@) == match r {
            Ok(_) => None,
            Err(e) => Some(e@),
        },
{
    if status.code == 404 {
        Err(DockerPullError::BlobNotFound(digest.to_owned()))
    } else if status.is_success() {
        Ok(())
    } else {
        let mut m = concat3("registry returned ", status.text.as_str(), " for blob ");
        m.append(digest);
        Err(DockerPullError::BadResponse(m))
    }
}

/// What the headers of a blob say of it.
pub fn blob_metadata(status: &Status, content_length: Option<&str>, digest: &str) -> (r: Result<
    BlobMetadata,
>)
    ensures
        match r {
            Ok(metadata) => blob_status_error(status.code, status.text@, digest@) is None
                && match metadata.size {
                Some(n) => content_length matches Some(value) && text::parse_unsigned_view(
                    value@,
                    u64::MAX as nat,
                ) == Some(n as nat),
                None => content_length matches Some(value) ==> text::parse_unsigned_view(
                    value@,
                    u64::MAX as nat,
                ) is None,
            },
            Err(e) => blob_status_error(status.code, status.text@, digest@) == Some(e@),
        },
{
    match ensure_blob_status(status, digest) {
        Ok(_) => {},
        Err(e) => {
            return Err(e);
        },
    }
    let size = match content_length {
        Some(value) => text::parse_unsigned(value, u64::MAX),
        None => None,
    };
    Ok(BlobMetadata { size })
}

/// The part of a blob that a download asks for; all of it at the start.
pub fn blob_range(offset: u64) -> (r: Option<String>)
    ensures
        match r {
            Some(range) => offset > 0 && range@ == "bytes="@ + text::decimal_view(offset as nat)
                + "-"@,
            None => offset == 0,
        },
{
    if offset > 0 {
        Some(concat3("bytes=", text::decimal(offset).as_str(), "-"))
    } else {
        None
    }
}

/// The descriptor of a manifest as it was sent: the headers win over what the manifest says of
/// itself, and a digest that was not sent is computed.
pub open spec fn raw_descriptor(
    header_digest: Option<Seq<char>>,
    header_type: Seq<char>,
    own_type: Seq<char>,
    bytes: Seq<u8>,
) -> DescriptorView {
    DescriptorView {
        media_type: if header_type.len() == 0 {
            own_type
        } else {
            header_type
        },
        digest: match header_digest {
            Some(d) => d,
            None => digest::canonical_digest(bytes),
        },
        size: bytes.len() as i64,
        platform: None,
        annotations: None,
    }
}

/// Describes a manifest as it was sent. `own_type` is the media type that the manifest gives
/// itself.
pub fn raw_manifest(
    header_digest: Option<String>,
    content_type: Option<&str>,
    own_type: String,
    bytes: Vec<u8>,
) -> (r: RawManifest)
    ensures
        r.bytes@ == bytes@,
        r.descriptor@ == raw_descriptor(
            text::opt_string(header_digest),
            media_type_view(text::opt_view(content_type)),
            own_type@,
            bytes@,
        ),
{
    let header_type = content_media_type(content_type);
    let media_type = if header_type.as_str().is_empty() {
        own_type
    } else {
        header_type
    };
    let digest = match header_digest {
        Some(d) => d,
        None => canonical_digest_bytes(bytes.as_slice()),
    };
    let descriptor = Descriptor {
        media_type,
        digest,
        size: bytes.len() as i64,
        platform: None,
        annotations: None,
    };
    RawManifest { descriptor, bytes }
}

/// A response that is neither refused nor a failure of the registry is the answer.
pub proof fn law_a_usable_response_is_the_answer(
    policy: RequestPolicy,
    reference: ReferenceView,
    state: RequestState,
    code: u16,
    status: Seq<char>,
    challenge: Option<std::result::Result<Seq<char>, Seq<char>>>,
    retry_after: Option<Delay>,
    backoff: Delay,
)
    requires
        code != 401,
        code < 500 || code > 599,
        !policy.allow_retry || (code != 408 && code != 429),
    ensures
        request_step(
            policy,
            reference,
            state,
            EventView::Response { code, status, challenge, retry_after },
            backoff,
        ) == (state, ActionView::Done),
{
}

/// A registry that is busy or fails is asked again while tries are left, after the wait that it
/// asks for, or else after the usual one; a request that it cannot take is not sent again.
pub proof fn law_a_busy_registry_is_asked_again(
    policy: RequestPolicy,
    reference: ReferenceView,
    state: RequestState,
    code: u16,
    status: Seq<char>,
    challenge: Option<std::result::Result<Seq<char>, Seq<char>>>,
    retry_after: Option<Delay>,
    backoff: Delay,
)
    requires
        state.retries < u32::MAX,
    ensures
        ({
            let (next, action) = request_step(
                policy,
                reference,
                state,
                EventView::Response { code, status, challenge, retry_after },
                backoff,
            );
            let busy = code == 408 || code == 429 || code == 500 || code == 502 || code == 503
                || code == 504;
            let left = policy.retry_limit is None || state.retries < policy.retry_limit->0;
            &&& busy && policy.allow_retry && left ==> {
                &&& action is Retry
                &&& retry_after is Some ==> action->delay == retry_after->0
                &&& retry_after is None ==> action->delay == backoff
                &&& next.retries == state.retries + 1
                &&& next.auth_retries == state.auth_retries
            }
            &&& busy && policy.allow_retry && !left ==> next == state && (action
                matches ActionView::Fail(ErrorView::RetryLimitExceeded { retries, .. }) && retries
                == state.retries)
            &&& action is Retry ==> busy && policy.allow_retry && left
            &&& 500 <= code <= 599 && !(busy && policy.allow_retry) ==> action is Fail && next
                == state
        }),
{
}

/// A request that could not be sent is sent again while tries are left, where that is worth a try,
/// and fails otherwise.
pub proof fn law_an_unsent_request_is_sent_again(
    policy: RequestPolicy,
    reference: ReferenceView,
    state: RequestState,
    retryable: bool,
    message: Seq<char>,
    backoff: Delay,
)
    requires
        state.retries < u32::MAX,
    ensures
        ({
            let (next, action) = request_step(
                policy,
                reference,
                state,
                EventView::SendFailed { retryable, message },
                backoff,
            );
            let left = policy.retry_limit is None || state.retries < policy.retry_limit->0;
            &&& policy.allow_retry && retryable && left ==> action is Retry && action->delay
                == backoff && next.retries == state.retries + 1
            &&& policy.allow_retry && retryable && !left ==> (action matches ActionView::Fail(e)
                && e is RetryLimitExceeded) && next == state
            &&& !(policy.allow_retry && retryable) ==> action == ActionView::Fail(
                ErrorView::Http(message),
            ) && next == state
        }),
{
}

/// A registry that asks for a token gets one: the token is asked for where the registry says, for
/// the scope that it names, or else to pull from the repository, and the request is sent again with
/// it, twice at most.
pub proof fn law_a_registry_gets_the_token_that_it_asks_for(
    policy: RequestPolicy,
    reference: ReferenceView,
    state: RequestState,
    status: Seq<char>,
    header: Seq<char>,
    retry_after: Option<Delay>,
    token: Seq<char>,
    other: Option<Seq<char>>,
    backoff: Delay,
)
    requires
        policy.mode is Direct,
        challenge::challenge_of(header) is Ok,
        text::lower_view(challenge::challenge_of(header)->Ok_0.scheme) == "bearer"@,
        state.auth_retries < u32::MAX,
    ensures
        ({
            let asked = challenge::challenge_of(header)->Ok_0;
            let (next, action) = request_step(
                policy,
                reference,
                state,
                EventView::Response { code: 401, status, challenge: Some(Ok(header)), retry_after },
                backoff,
            );
            let sent = request_step(
                policy,
                reference,
                state,
                EventView::Token { token: Some(token), access_token: other },
                backoff,
            );
            let sent_other = request_step(
                policy,
                reference,
                state,
                EventView::Token { token: None, access_token: Some(token) },
                backoff,
            );
            let unsent = request_step(
                policy,
                reference,
                state,
                EventView::Token { token: None, access_token: None },
                backoff,
            );
            &&& next == state
            &&& state.auth_retries < 2 ==> {
                &&& action is FetchToken
                &&& action->realm == asked.realm
                &&& asked.service is Some ==> action->service == asked.service->0
                &&& asked.service is None ==> action->service.len() == 0
                &&& asked.scope is Some ==> action->scope == asked.scope->0
                &&& asked.scope is None ==> action->scope == "repository:"@ + reference.repository
                    + ":pull"@
            }
            &&& state.auth_retries >= 2 ==> (action matches ActionView::Fail(e) && e
                is Unauthorized)
            &&& sent.1 == (ActionView::Resend { token })
            &&& sent_other.1 == (ActionView::Resend { token })
            &&& sent.0.auth_retries == state.auth_retries + 1
            &&& sent_other.0.auth_retries == state.auth_retries + 1
            &&& sent.0.retries == state.retries
            &&& unsent == (
                state,
                ActionView::Fail(ErrorView::Unauthorized(reference.normalized())),
            )
        }),
{
}

/// What a cache is asked for at first is asked for at the registry where the cache lacks it: at the
/// address that it has without a cache. Where only the cache is wanted, or there is none, it is
/// not asked for elsewhere.
pub proof fn law_a_cache_is_backed_by_the_registry(
    plain_http: bool,
    cache_from: String,
    reference: ReferenceView,
    resource: Seq<char>,
    suffix: Seq<char>,
)
    ensures
        ({
            let direct = RegistryAddresses { plain_http, cache_from: None, cache_only: false };
            let cached = RegistryAddresses {
                plain_http,
                cache_from: Some(cache_from),
                cache_only: false,
            };
            let only = RegistryAddresses {
                plain_http,
                cache_from: Some(cache_from),
                cache_only: true,
            };
            let address = direct.primary(reference, resource, suffix);
            let scheme = if plain_http {
                "http://"@
            } else {
                "https://"@
            };
            &&& address == cache::resource_address(
                scheme + reference.registry,
                reference.repository,
                resource,
                suffix,
            )
            &&& direct.fallback(reference, resource, suffix) == Some(
                Ok::<Option<Seq<char>>, ErrorView>(None),
            )
            &&& only.fallback(reference, resource, suffix) == Some(
                Ok::<Option<Seq<char>>, ErrorView>(None),
            )
            &&& address matches Some(Ok(url)) ==> cached.fallback(reference, resource, suffix)
                == Some(Ok::<_, ErrorView>(Some(url)))
            &&& address matches Some(Err(e)) ==> cached.fallback(reference, resource, suffix)
                == Some(Err::<Option<Seq<char>>, _>(e))
            &&& cached.primary(reference, resource, suffix) == only.primary(
                reference,
                resource,
                suffix,
            )
            &&& cached.primary(reference, resource, suffix) == cache::resource_address(
                cache_from@,
                reference.registry + "/"@ + reference.repository,
                resource,
                suffix,
            )
        }),
{
    reveal_strlit("http");
    reveal_strlit("https");
    reveal_strlit("://");
    reveal_strlit("http://");
    reveal_strlit("https://");
    assert("http"@ + "://"@ + reference.registry =~= "http://"@ + reference.registry);
    assert("https"@ + "://"@ + reference.registry =~= "https://"@ + reference.registry);
}

/// A manifest or a blob is there where the registry says so with any status from 200 to 299, and is
/// missing where it says so.
pub proof fn law_success_is_told_by_the_status(
    code: u16,
    status: Seq<char>,
    resource: Seq<char>,
    digest: Seq<char>,
)
    ensures
        manifest_status_error(code, status, resource) is None <==> 200 <= code <= 299,
        blob_status_error(code, status, digest) is None <==> 200 <= code <= 299,
        code == 404 ==> manifest_status_error(code, status, resource) == Some(
            ErrorView::ManifestNotFound,
        ),
        code == 404 ==> blob_status_error(code, status, digest) == Some(
            ErrorView::BlobNotFound(digest),
        ),
        manifest_status_error(code, status, resource) == Some(ErrorView::ManifestNotFound) ==> code
            == 404,
{
}

/// The media type of a header is what stands before its parameters, without the space around it.
pub proof fn law_a_media_type_has_no_parameters(media_type: Seq<char>, parameters: Seq<char>)
    requires
        !media_type.contains(';'),
    ensures
        media_type_view(Some(media_type)) == text::trim_view(media_type),
        media_type_view(Some(media_type + seq![';'] + parameters)) == text::trim_view(media_type),
        media_type_view(None).len() == 0,
{
    text::lemma_find_char(media_type, ';');
    if let Some(i) = text::find_char(media_type, ';') {
        assert(media_type.contains(media_type[i]));
    }
    text::lemma_split_once_at(media_type, ';', parameters);
    let s = media_type + seq![';'] + parameters;
    assert(s.take(media_type.len() as int) =~= media_type);
}

/// A manifest is described as it was sent: by its header where that says something, and otherwise
/// by itself.
pub proof fn law_a_manifest_is_described_as_it_was_sent(
    header_digest: Option<Seq<char>>,
    header_type: Seq<char>,
    own_type: Seq<char>,
    bytes: Seq<u8>,
)
    requires
        bytes.len() <= i64::MAX,
    ensures
        ({
            let d = raw_descriptor(header_digest, header_type, own_type, bytes);
            &&& d.size == bytes.len()
            &&& header_digest matches Some(digest) ==> d.digest == digest
            &&& header_digest is None ==> d.digest == digest::canonical_digest(bytes)
            &&& header_type.len() > 0 ==> d.media_type == header_type
            &&& header_type.len() == 0 ==> d.media_type == own_type
            &&& d.platform is None && d.annotations is None
        }),
{
}

} // verus!
