//! Image references: a registry, a repository in it, and a tag or a digest.
use vstd::prelude::*;

use crate::digest::{self, parse_digest};
use crate::error::{concat2, concat3, invalid_input, DockerPullError, ErrorView, Result};
use crate::text;

verus! {

/// What a reference points at in its repository.
#[derive(Debug, Clone, PartialEq, Eq)]
pub enum ReferenceTarget {
    Tag(String),
    Digest(String),
}

/// An image reference.
#[derive(Debug, Clone, PartialEq, Eq)]
pub struct ImageReference {
    pub registry: String,
    pub repository: String,
    pub target: ReferenceTarget,
}

/// What a reference points at, as text.
pub enum TargetView {
    Tag(Seq<char>),
    Digest(Seq<char>),
}

/// An image reference, as text.
pub struct ReferenceView {
    pub registry: Seq<char>,
    pub repository: Seq<char>,
    pub target: TargetView,
}

impl View for ReferenceTarget {
    type V = TargetView;

    open spec fn view(&self) -> TargetView {
        match self {
            ReferenceTarget::Tag(tag) => TargetView::Tag(tag@),
            ReferenceTarget::Digest(digest) => TargetView::Digest(digest@),
        }
    }
}

impl View for ImageReference {
    type V = ReferenceView;

    open spec fn view(&self) -> ReferenceView {
        ReferenceView {
            registry: self.registry@,
            repository: self.repository@,
            target: self.target@,
        }
    }
}

/// A reference, or why a text is none.
pub type ReferenceResult = std::result::Result<ReferenceView, ErrorView>;

/// The registry that a reference without one belongs to.
pub open spec fn default_registry() -> Seq<char> {
    "registry-1.docker.io"@
}

/// The names of the Docker Hub registry.
pub open spec fn is_docker_hub_view(registry: Seq<char>) -> bool {
    registry == "registry-1.docker.io"@ || registry == "docker.io"@ || registry
        == "index.docker.io"@
}

/// Whether the first part of a reference names a registry.
pub open spec fn names_registry(first: Seq<char>) -> bool {
    first.contains('.') || first.contains(':') || first == "localhost"@
}

/// The registry that a reference starts with, and the rest of it.
pub open spec fn registry_split(s: Seq<char>) -> Option<(Seq<char>, Seq<char>)> {
    match text::split_once_view(s, '/') {
        Some((first, rest)) => if names_registry(first) {
            Some((first, rest))
        } else {
            None
        },
        None => None,
    }
}

/// The text before and after the colon that starts a tag: the last one, unless a slash follows.
pub open spec fn tag_split(s: Seq<char>) -> Option<(Seq<char>, Seq<char>)> {
    match text::rfind_char(s, ':') {
        None => None,
        Some(colon) => match text::rfind_char(s, '/') {
            Some(slash) => if colon < slash {
                None
            } else {
                Some((s.take(colon), s.skip(colon + 1)))
            },
            None => Some((s.take(colon), s.skip(colon + 1))),
        },
    }
}

/// The repository and the target in a reference without its registry.
pub open spec fn target_split(s: Seq<char>) -> (Seq<char>, TargetView) {
    match text::rsplit_once_view(s, '@') {
        Some((repository, digest)) => (repository, TargetView::Digest(digest)),
        None => match tag_split(s) {
            Some((repository, tag)) => (repository, TargetView::Tag(tag)),
            None => (s, TargetView::Tag("latest"@)),
        },
    }
}

/// The ASCII lower-case letters and digits.
pub open spec fn is_lower_alnum(c: char) -> bool {
    'a' <= c <= 'z' || text::is_digit(c)
}

/// The ASCII letters and digits.
pub open spec fn is_alnum(c: char) -> bool {
    is_lower_alnum(c) || 'A' <= c <= 'Z'
}

/// The characters of a tag.
pub open spec fn is_tag_char(c: char) -> bool {
    is_alnum(c) || c == '_' || c == '.' || c == '-'
}

/// Whether a text is a tag: 1 to 128 word characters, dots and hyphens, the first of them a word
/// character.
pub open spec fn is_tag(tag: Seq<char>) -> bool {
    &&& 0 < tag.len() <= 128
    &&& is_alnum(tag[0]) || tag[0] == '_'
    &&& forall|i: int| 0 <= i < tag.len() ==> is_tag_char(#[trigger] tag[i])
}

/// The characters of a repository component.
pub open spec fn is_component_char(c: char) -> bool {
    is_lower_alnum(c) || c == '.' || c == '_' || c == '-'
}

/// Whether a text is a repository component: lower-case letters, digits and separators, with no
/// separator at either end.
pub open spec fn is_component(component: Seq<char>) -> bool {
    &&& component.len() > 0
    &&& is_lower_alnum(component[0])
    &&& is_lower_alnum(component.last())
    &&& forall|i: int| 0 <= i < component.len() ==> is_component_char(#[trigger] component[i])
}

/// Whether a text is a repository: components with slashes between them.
pub open spec fn is_repository(repository: Seq<char>) -> bool {
    let parts = text::split_view(repository, '/');
    forall|i: int| 0 <= i < parts.len() ==> is_component(#[trigger] parts[i])
}

/// Why a target is not valid, if it is not.
pub open spec fn target_error(target: TargetView) -> Option<ErrorView> {
    match target {
        TargetView::Tag(tag) => if is_tag(tag) {
            None
        } else {
            Some(ErrorView::InvalidInput("invalid image tag `"@ + tag + "`"@))
        },
        TargetView::Digest(digest) => match digest::parsed(digest) {
            Ok(_) => None,
            Err(e) => Some(e),
        },
    }
}

/// The repository under its full name: one of Docker Hub without a slash is in `library`.
pub open spec fn full_repository(registry: Seq<char>, repository: Seq<char>) -> Seq<char> {
    if registry == default_registry() && !repository.contains('/') {
        "library/"@ + repository
    } else {
        repository
    }
}

/// The reference with the parts, or why they make none.
pub open spec fn checked(
    registry: Seq<char>,
    repository: Seq<char>,
    target: TargetView,
) -> ReferenceResult {
    if repository.len() == 0 {
        Err(ErrorView::InvalidInput("repository is empty"@))
    } else if !is_repository(repository) {
        Err(ErrorView::InvalidInput("invalid repository `"@ + repository + "`"@))
    } else {
        match target_error(target) {
            Some(e) => Err(e),
            None => Ok(
                ReferenceView {
                    registry,
                    repository: full_repository(registry, repository),
                    target,
                },
            ),
        }
    }
}

/// The reference that a text denotes, or why it denotes none.
pub open spec fn parsed(input: Seq<char>) -> ReferenceResult {
    let s = text::trim_view(input);
    if s.len() == 0 {
        Err(ErrorView::InvalidInput("image reference is empty"@))
    } else {
        let (registry, rest) = match registry_split(s) {
            Some((registry, rest)) => (registry, rest),
            None => (default_registry(), s),
        };
        let (repository, target) = target_split(rest);
        checked(registry, repository, target)
    }
}

impl TargetView {
    /// The name that the registry knows the target by.
    pub open spec fn name(self) -> Seq<char> {
        match self {
            TargetView::Tag(tag) => tag,
            TargetView::Digest(digest) => digest,
        }
    }

    /// The target behind a repository.
    pub open spec fn after(self, repository: Seq<char>) -> Seq<char> {
        match self {
            TargetView::Tag(tag) => repository + ":"@ + tag,
            TargetView::Digest(digest) => repository + "@"@ + digest,
        }
    }
}

impl ReferenceView {
    /// The full text of the reference.
    pub open spec fn normalized(self) -> Seq<char> {
        self.target.after(self.registry + "/"@ + self.repository)
    }

    /// The access that a pull asks the registry for.
    pub open spec fn scope(self) -> Seq<char> {
        "repository:"@ + self.repository + ":pull"@
    }

    /// The text that the reference is shown as: short for Docker Hub, full for others.
    pub open spec fn display(self) -> Seq<char> {
        if is_docker_hub_view(self.registry) {
            match text::strip_prefix_view(self.repository, "library/"@) {
                Some(short) => self.target.after(short),
                None => self.target.after(self.repository),
            }
        } else {
            self.normalized()
        }
    }
}

/// Whether a registry is Docker Hub.
pub fn is_docker_hub(registry: &str) -> (r: bool)
    ensures
        r == is_docker_hub_view(registry@),
{
    text::same(registry, "registry-1.docker.io") || text::same(registry, "docker.io")
        || text::same(registry, "index.docker.io")
}

fn split_registry(input: &str) -> (r: Option<(&str, &str)>)
    ensures
        text::pair_view(r) == registry_split(input@),
{
    match text::split_once(input, '/') {
        Some((first, rest)) => {
            if text::has_char(first, '.') || text::has_char(first, ':') || text::same(
                first,
                "localhost",
            ) {
                Some((first, rest))
            } else {
                None
            }
        },
        None => None,
    }
}

fn split_tag(input: &str) -> (r: Option<(&str, &str)>)
    ensures
        text::pair_view(r) == tag_split(input@),
{
    if let Some(colon) = text::rfind(input, ':') {
        if let Some(slash) = text::rfind(input, '/') {
            if colon < slash {
                return None;
            }
        }
        text::rsplit_once(input, ':')
    } else {
        None
    }
}

fn is_alnum_char(c: char) -> (r: bool)
    ensures
        r == is_alnum(c),
{
    is_lower_alnum_char(c) || ('A' <= c && c <= 'Z')
}

fn is_lower_alnum_char(c: char) -> (r: bool)
    ensures
        r == is_lower_alnum(c),
{
    ('a' <= c && c <= 'z') || ('0' <= c && c <= '9')
}

fn validate_tag(tag: &str) -> (r: Result<()>)
    ensures
        target_error(TargetView::Tag(tag@)) == match r {
            Ok(_) => None,
            Err(e) => Some(e@),
        },
{
    let v = text::chars_of(tag);
    let mut valid = v.len() > 0 && v.len() <= 128 && (is_alnum_char(v[0]) || v[0] == '_');
    let ghost shape = valid;
    let mut i: usize = 0;
    while i < v.len()
        invariant
            i <= v@.len(),
            v@ == tag@,
            shape == (0 < tag@.len() <= 128 && (is_alnum(tag@[0]) || tag@[0] == '_')),
            valid == (shape && forall|j: int| 0 <= j < i ==> is_tag_char(#[trigger] tag@[j])),
        decreases v@.len() - i,
    {
        let c = v[i];
        if !(is_alnum_char(c) || c == '_' || c == '.' || c == '-') {
            assert(!is_tag_char(tag@[i as int]));
            valid = false;
        }
        i += 1;
    }
    if valid {
        Ok(())
    } else {
        Err(invalid_input("invalid image tag `", tag, "`"))
    }
}

fn validate_target(target: &ReferenceTarget) -> (r: Result<()>)
    ensures
        target_error(target@) == match r {
            Ok(_) => None,
            Err(e) => Some(e@),
        },
{
    match target {
        ReferenceTarget::Tag(tag) => validate_tag(tag.as_str()),
        ReferenceTarget::Digest(digest) => match parse_digest(digest.as_str()) {
            Ok(_) => Ok(()),
            Err(e) => Err(e),
        },
    }
}

fn valid_repository_component(component: &str) -> (r: bool)
    ensures
        r == is_component(component@),
{
    let v = text::chars_of(component);
    if v.len() == 0 || !is_lower_alnum_char(v[0]) || !is_lower_alnum_char(v[v.len() - 1]) {
        return false;
    }
    let mut i: usize = 0;
    while i < v.len()
        invariant
            i <= v@.len(),
            v@ == component@,
            forall|j: int| 0 <= j < i ==> is_component_char(#[trigger] v@[j]),
        decreases v@.len() - i,
    {
        let c = v[i];
        if !(is_lower_alnum_char(c) || c == '.' || c == '_' || c == '-') {
            assert(!is_component_char(component@[i as int]));
            return false;
        }
        i += 1;
    }
    true
}

fn valid_repository(repository: &str) -> (r: bool)
    ensures
        r == is_repository(repository@),
{
    let parts = text::split(repository, '/');
    let ghost views = text::split_view(repository@, '/');
    let mut i: usize = 0;
    assert(views.len() == parts@.len());
    while i < parts.len()
        invariant
            i <= parts@.len(),
            views == text::split_view(repository@, '/'),
            views == text::str_texts(parts@),
            forall|j: int| 0 <= j < i ==> is_component(#[trigger] views[j]),
        decreases parts@.len() - i,
    {
        assert(views[i as int] == parts@[i as int]@);
        if !valid_repository_component(parts[i]) {
            return false;
        }
        i += 1;
    }
    true
}

impl ImageReference {
    /// Reads a reference.
    pub fn parse(input: &str) -> (r: Result<ImageReference>)
        ensures
            parsed(input@) == match r {
                Ok(reference) => Ok(reference@),
                Err(e) => Err(e@),
            },
    {
        let s = text::trim(input);
        if s.is_empty() {
            return Err(DockerPullError::InvalidInput("image reference is empty".to_owned()));
        }
        let (registry, rest) = match split_registry(s) {
            Some((registry, rest)) => (registry, rest),
            None => ("registry-1.docker.io", s),
        };
        let (repository, target) = match text::rsplit_once(rest, '@') {
            Some((repository, digest)) => (
                repository,
                ReferenceTarget::Digest(digest.to_owned()),
            ),
            None => match split_tag(rest) {
                Some((repository, tag)) => (repository, ReferenceTarget::Tag(tag.to_owned())),
                None => (rest, ReferenceTarget::Tag("latest".to_owned())),
            },
        };
        if repository.is_empty() {
            return Err(DockerPullError::InvalidInput("repository is empty".to_owned()));
        }
        if !valid_repository(repository) {
            return Err(invalid_input("invalid repository `", repository, "`"));
        }
        match validate_target(&target) {
            Ok(_) => {},
            Err(e) => {
                return Err(e);
            },
        }
        let repository = if text::same(registry, "registry-1.docker.io") && !text::has_char(
            repository,
            '/',
        ) {
            concat2("library/", repository)
        } else {
            repository.to_owned()
        };
        Ok(ImageReference { registry: registry.to_owned(), repository, target })
    }

    /// The full text of the reference.
    pub fn normalized(&self) -> (s: String)
        ensures
            s@ == self@.normalized(),
    {
        let prefix = concat3(self.registry.as_str(), "/", self.repository.as_str());
        self.with_repository(prefix.as_str())
    }

    /// The name that the registry knows the target by.
    pub fn manifest_reference(&self) -> (s: &str)
        ensures
            s@ == self@.target.name(),
    {
        match &self.target {
            ReferenceTarget::Tag(tag) => tag.as_str(),
            ReferenceTarget::Digest(digest) => digest.as_str(),
        }
    }

    /// The access that a pull asks the registry for.
    pub fn repository_scope(&self) -> (s: String)
        ensures
            s@ == self@.scope(),
    {
        concat3("repository:", self.repository.as_str(), ":pull")
    }

    /// The text that the reference is shown as.
    pub fn display_name(&self) -> (s: String)
        ensures
            s@ == self@.display(),
    {
        if is_docker_hub(self.registry.as_str()) {
            match text::strip_prefix(self.repository.as_str(), "library/") {
                Some(short) => self.with_repository(short),
                None => self.with_repository(self.repository.as_str()),
            }
        } else {
            self.normalized()
        }
    }

    fn with_repository(&self, repository: &str) -> (s: String)
        ensures
            s@ == self@.target.after(repository@),
    {
        match &self.target {
            ReferenceTarget::Tag(tag) => concat3(repository, ":", tag.as_str()),
            ReferenceTarget::Digest(digest) => concat3(repository, "@", digest.as_str()),
        }
    }

    /// A copy of the reference.
    pub fn copy(&self) -> (r: ImageReference)
        ensures
            r@ == self@,
    {
        ImageReference {
            registry: self.registry.clone(),
            repository: self.repository.clone(),
            target: match &self.target {
                ReferenceTarget::Tag(tag) => ReferenceTarget::Tag(tag.clone()),
                ReferenceTarget::Digest(digest) => ReferenceTarget::Digest(digest.clone()),
            },
        }
    }
}

/// The characters of a repository are those of its components and the slashes between them, and
/// it neither starts nor ends with a separator.
pub proof fn lemma_repository_chars(repository: Seq<char>)
    requires
        is_repository(repository),
    ensures
        repository.len() > 0,
        forall|i: int|
            0 <= i < repository.len() ==> is_component_char(#[trigger] repository[i])
                || repository[i] == '/',
    decreases repository.len(),
{
    text::lemma_find_char(repository, '/');
    let parts = text::split_view(repository, '/');
    assert(is_component(parts[0]));
    match text::find_char(repository, '/') {
        Some(k) => {
            let rest = repository.skip(k + 1);
            assert(is_repository(rest)) by {
                let inner = text::split_view(rest, '/');
                assert forall|i: int| 0 <= i < inner.len() implies is_component(
                    #[trigger] inner[i],
                ) by {
                    assert(parts[i + 1] == inner[i]);
                }
            }
            lemma_repository_chars(rest);
            assert forall|i: int| 0 <= i < repository.len() implies is_component_char(
                #[trigger] repository[i],
            ) || repository[i] == '/' by {
                if i < k {
                    assert(parts[0][i] == repository[i]);
                } else if i > k {
                    assert(rest[i - k - 1] == repository[i]);
                }
            }
        },
        None => {},
    }
}

/// A repository with `library/` before it is a repository.
proof fn lemma_library_repository(repository: Seq<char>)
    requires
        is_repository(repository),
    ensures
        is_repository("library/"@ + repository),
        ("library/"@ + repository).contains('/'),
{
    reveal_strlit("library/");
    reveal_strlit("library");
    let whole = "library/"@ + repository;
    assert(whole =~= "library"@ + seq!['/'] + repository);
    assert(!"library"@.contains('/'));
    text::lemma_split_once_at("library"@, '/', repository);
    assert(is_component("library"@));
    let parts = text::split_view(whole, '/');
    let inner = text::split_view(repository, '/');
    assert(parts == seq!["library"@] + inner);
    assert forall|i: int| 0 <= i < parts.len() implies is_component(#[trigger] parts[i]) by {
        if i > 0 {
            assert(parts[i] == inner[i - 1]);
        }
    }
    assert(whole[7] == '/');
}

/// The full text of a reference denotes it: reading the text of a reference that was read gives
/// the same reference.
pub proof fn law_normalized_reads_back(input: Seq<char>)
    requires
        parsed(input) is Ok,
    ensures
        parsed(parsed(input)->Ok_0.normalized()) == parsed(input),
{
    let r = parsed(input)->Ok_0;
    let s = text::trim_view(input);
    text::lemma_trim_ends(input);
    text::lemma_find_char(s, '/');
    let found = registry_split(s);
    let (registry, rest) = match found {
        Some((registry, rest)) => (registry, rest),
        None => (default_registry(), s),
    };
    let (repository, target) = target_split(rest);
    reveal_strlit("registry-1.docker.io");
    assert("registry-1.docker.io"@[10] == '.');
    lemma_repository_chars(repository);
    if registry == default_registry() && !repository.contains('/') {
        lemma_library_repository(repository);
    }
    assert(is_repository(r.repository));
    lemma_repository_chars(r.repository);
    assert(names_registry(registry) && !registry.contains('/') && registry.len() > 0
        && !text::is_white(registry[0])) by {
        if found is Some {
            let k = text::find_char(s, '/')->0;
            assert(registry =~= s.take(k));
            assert(!registry.contains('/'));
            reveal_strlit("localhost");
            assert(registry.len() > 0);
            assert(registry[0] == s[0]);
        } else {
            assert(!registry.contains('/'));
        }
    }
    lemma_read_parts(r);
}

/// Whether the parts of a reference are as those of one that was read.
pub open spec fn is_reference(r: ReferenceView) -> bool {
    &&& names_registry(r.registry)
    &&& !r.registry.contains('/')
    &&& r.registry.len() > 0
    &&& !text::is_white(r.registry[0])
    &&& is_repository(r.repository)
    &&& full_repository(r.registry, r.repository) == r.repository
    &&& target_error(r.target) is None
}

proof fn lemma_target_chars(target: TargetView)
    requires
        target_error(target) is None,
    ensures
        target.name().len() > 0,
        !target.name().contains('@'),
        !target.name().contains('/'),
        target is Tag ==> !target.name().contains(':'),
        !text::is_white(target.name().last()),
{
    match target {
        TargetView::Tag(tag) => {
            assert(is_tag_char(tag.last()));
        },
        TargetView::Digest(d) => {
            let (algorithm, value) = digest::parsed(d)->Ok_0;
            digest::law_parsed_parts_make_the_digest(d);
            digest::lemma_algorithm_names(algorithm);
            reveal_strlit(":");
            reveal_strlit("sha256");
            reveal_strlit("sha384");
            reveal_strlit("sha512");
            let name = algorithm.name_view();
            assert(d =~= name + ":"@ + value);
            assert forall|i: int| 0 <= i < d.len() implies d[i] != '@' && d[i] != '/' by {
                if i < 6 {
                    assert(d[i] == name[i]);
                } else if i == 6 {
                    assert(d[i] == ':');
                } else {
                    assert(d[i] == value[i - 7]);
                    assert(digest::is_lower_hex(value[i - 7]));
                }
            }
            assert(digest::is_lower_hex(value.last()));
            assert(d.last() == value.last());
        },
    }
}

proof fn lemma_read_parts(r: ReferenceView)
    requires
        is_reference(r),
    ensures
        parsed(r.normalized()) == ReferenceResult::Ok(r),
{
    reveal_strlit("/");
    reveal_strlit(":");
    reveal_strlit("@");
    lemma_target_chars(r.target);
    lemma_repository_chars(r.repository);
    let rest = r.target.after(r.repository);
    let whole = r.normalized();
    assert(whole =~= r.registry + seq!['/'] + rest);
    assert(whole[0] == r.registry[0]);
    assert(whole.last() == r.target.name().last());
    text::lemma_trim_nothing(whole);
    text::lemma_split_once_at(r.registry, '/', rest);
    match r.target {
        TargetView::Digest(d) => {
            assert(rest =~= r.repository + seq!['@'] + d);
            text::lemma_rsplit_once_at(r.repository, '@', d);
        },
        TargetView::Tag(tag) => {
            assert(rest =~= r.repository + seq![':'] + tag);
            text::lemma_rfind_char(rest, '@');
            assert(!rest.contains('@')) by {
                assert forall|i: int| 0 <= i < rest.len() implies rest[i] != '@' by {
                    if i < r.repository.len() {
                        assert(rest[i] == r.repository[i]);
                    } else if i > r.repository.len() {
                        assert(rest[i] == tag[i - r.repository.len() - 1]);
                        assert(tag.contains(tag[i - r.repository.len() - 1]));
                    }
                }
            }
            text::lemma_rsplit_once_at(r.repository, ':', tag);
            text::lemma_rfind_char(rest, '/');
            if let Some(slash) = text::rfind_char(rest, '/') {
                if slash > r.repository.len() {
                    assert(rest[slash] == tag[slash - r.repository.len() - 1]);
                    assert(tag.contains(tag[slash - r.repository.len() - 1]));
                }
            }
        },
    }
    assert(target_split(rest) == (r.repository, r.target));
}

/// A repository and a target are told apart.
proof fn lemma_target_read(repository: Seq<char>, target: TargetView)
    requires
        is_repository(repository),
        target_error(target) is None,
    ensures
        target_split(target.after(repository)) == (repository, target),
        target_split(repository) == (repository, TargetView::Tag("latest"@)),
{
    reveal_strlit(":");
    reveal_strlit("@");
    lemma_target_chars(target);
    lemma_repository_chars(repository);
    let rest = target.after(repository);
    text::lemma_rfind_char(repository, '@');
    text::lemma_rfind_char(repository, ':');
    match target {
        TargetView::Digest(d) => {
            assert(rest =~= repository + seq!['@'] + d);
            text::lemma_rsplit_once_at(repository, '@', d);
        },
        TargetView::Tag(tag) => {
            assert(rest =~= repository + seq![':'] + tag);
            text::lemma_rfind_char(rest, '@');
            assert forall|i: int| 0 <= i < rest.len() implies rest[i] != '@' by {
                if i < repository.len() {
                    assert(rest[i] == repository[i]);
                } else if i > repository.len() {
                    assert(rest[i] == tag[i - repository.len() - 1]);
                    assert(tag.contains(tag[i - repository.len() - 1]));
                }
            }
            text::lemma_rsplit_once_at(repository, ':', tag);
            text::lemma_rfind_char(rest, '/');
            if let Some(slash) = text::rfind_char(rest, '/') {
                if slash > repository.len() {
                    assert(rest[slash] == tag[slash - repository.len() - 1]);
                    assert(tag.contains(tag[slash - repository.len() - 1]));
                }
            }
        },
    }
}

/// A reference with a registry is read as the registry, the repository and the target that it
/// names, and without a target as the one with the tag `latest`.
pub proof fn law_a_full_reference_is_read(
    registry: Seq<char>,
    repository: Seq<char>,
    target: TargetView,
)
    requires
        registry.contains('.') || registry.contains(':') || registry == "localhost"@,
        !registry.contains('/'),
        !text::is_white(registry[0]),
        is_repository(repository),
        target_error(target) is None,
        registry != "registry-1.docker.io"@ || repository.contains('/'),
    ensures
        parsed(registry + "/"@ + target.after(repository)) == ReferenceResult::Ok(
            ReferenceView { registry, repository, target },
        ),
        parsed(registry + "/"@ + repository) == ReferenceResult::Ok(
            ReferenceView { registry, repository, target: TargetView::Tag("latest"@) },
        ),
{
    reveal_strlit("/");
    reveal_strlit("latest");
    reveal_strlit("localhost");
    lemma_target_read(repository, target);
    lemma_target_chars(target);
    lemma_repository_chars(repository);
    let rest = target.after(repository);
    let whole = registry + "/"@ + rest;
    let short = registry + "/"@ + repository;
    assert(registry.len() > 0);
    assert(whole =~= registry + seq!['/'] + rest);
    assert(short =~= registry + seq!['/'] + repository);
    text::lemma_split_once_at(registry, '/', rest);
    text::lemma_split_once_at(registry, '/', repository);
    reveal_strlit(":");
    reveal_strlit("@");
    assert(whole[0] == registry[0]);
    assert(whole.last() == target.name().last());
    text::lemma_trim_nothing(whole);
    assert(short[0] == registry[0]);
    assert(short.last() == repository.last());
    assert(is_component_char(repository.last()) || repository.last() == '/');
    text::lemma_trim_nothing(short);
    assert(is_tag("latest"@));
}

/// A reference without a registry is one of Docker Hub, where a repository of one part is in
/// `library`.
pub proof fn law_a_short_reference_is_one_of_docker_hub(
    repository: Seq<char>,
    target: TargetView,
)
    requires
        is_repository(repository),
        target_error(target) is None,
        text::split_once_view(repository, '/') matches Some((first, _)) ==> !first.contains('.')
            && first != "localhost"@,
    ensures
        ({
            let full = if repository.contains('/') {
                repository
            } else {
                "library/"@ + repository
            };
            &&& parsed(target.after(repository)) == ReferenceResult::Ok(
                ReferenceView { registry: "registry-1.docker.io"@, repository: full, target },
            )
            &&& parsed(repository) == ReferenceResult::Ok(
                ReferenceView {
                    registry: "registry-1.docker.io"@,
                    repository: full,
                    target: TargetView::Tag("latest"@),
                },
            )
        }),
{
    reveal_strlit("latest");
    reveal_strlit(":");
    reveal_strlit("@");
    lemma_target_read(repository, target);
    lemma_target_chars(target);
    lemma_repository_chars(repository);
    let whole = target.after(repository);
    assert(is_component_char(repository[0]) || repository[0] == '/');
    assert(is_component_char(repository.last()) || repository.last() == '/');
    assert(whole[0] == repository[0]);
    assert(whole.last() == target.name().last());
    text::lemma_trim_nothing(whole);
    text::lemma_trim_nothing(repository);
    assert(is_tag("latest"@));
    text::lemma_find_char(repository, '/');
    text::lemma_find_char(whole, '/');
    match text::find_char(repository, '/') {
        Some(k) => {
            let first = repository.take(k);
            assert forall|i: int| 0 <= i < first.len() implies first[i] != ':' by {
                assert(is_component_char(repository[i]) || repository[i] == '/');
            }
            assert forall|j: int| 0 <= j < k implies whole[j] != '/' by {
                assert(whole[j] == repository[j]);
            }
            assert(whole[k] == '/');
            let found = text::find_char(whole, '/')->0;
            assert(found == k);
            assert(whole.take(k) =~= first);
            assert(!names_registry(first));
        },
        None => {
            assert(!repository.contains('/'));
            assert forall|j: int| 0 <= j < whole.len() implies whole[j] != '/' by {
                if j < repository.len() {
                    assert(whole[j] == repository[j]);
                } else if j > repository.len() {
                    assert(whole[j] == target.name()[j - repository.len() - 1]);
                    assert(target.name().contains(whole[j]));
                }
            }
            assert(text::find_char(whole, '/') is None);
        },
    }
}

/// A tag has 1 to 128 characters, all of them letters, digits, underscores, dots or hyphens, and
/// does not begin with a dot or a hyphen.
pub proof fn law_what_a_tag_is(tag: Seq<char>)
    ensures
        is_tag(tag) <==> {
            &&& 1 <= tag.len() <= 128
            &&& tag[0] != '.' && tag[0] != '-'
            &&& forall|i: int|
                0 <= i < tag.len() ==> {
                    let c = #[trigger] tag[i];
                    'a' <= c <= 'z' || 'A' <= c <= 'Z' || '0' <= c <= '9' || c == '_' || c == '.'
                        || c == '-'
                }
        },
{
    if is_tag(tag) {
        assert forall|i: int| 0 <= i < tag.len() implies ({
            let c = #[trigger] tag[i];
            'a' <= c <= 'z' || 'A' <= c <= 'Z' || '0' <= c <= '9' || c == '_' || c == '.' || c
                == '-'
        }) by {
            assert(is_tag_char(tag[i]));
        }
    }
}

/// A part of a repository has small letters, digits, dots, underscores and hyphens, and begins and
/// ends with a letter or a digit. A repository is made of such parts.
pub proof fn law_what_a_repository_is(part: Seq<char>, repository: Seq<char>)
    ensures
        is_component(part) <==> {
            &&& part.len() > 0
            &&& part[0] != '.' && part[0] != '_' && part[0] != '-'
            &&& part.last() != '.' && part.last() != '_' && part.last() != '-'
            &&& forall|i: int|
                0 <= i < part.len() ==> {
                    let c = #[trigger] part[i];
                    'a' <= c <= 'z' || '0' <= c <= '9' || c == '_' || c == '.' || c == '-'
                }
        },
        !part.contains('/') && is_component(part) && is_repository(repository) ==> is_repository(
            part + seq!['/'] + repository,
        ) && is_repository(part),
        !part.contains('/') && !is_component(part) ==> !is_repository(part) && !is_repository(
            part + seq!['/'] + repository,
        ),
{
    if is_component(part) {
        assert forall|i: int| 0 <= i < part.len() implies ({
            let c = #[trigger] part[i];
            'a' <= c <= 'z' || '0' <= c <= '9' || c == '_' || c == '.' || c == '-'
        }) by {
            assert(is_component_char(part[i]));
        }
    }
    if !part.contains('/') {
        text::lemma_split_once_at(part, '/', repository);
        text::lemma_find_char(part, '/');
        assert(text::split_view(part, '/') =~= seq![part]);
        let whole = part + seq!['/'] + repository;
        let parts = text::split_view(whole, '/');
        let inner = text::split_view(repository, '/');
        assert(whole.take(part.len() as int) =~= part);
        assert(whole.skip(part.len() + 1int) =~= repository);
        assert(parts == seq![part] + inner);
        assert(parts[0] == part);
        assert forall|i: int| 0 < i < parts.len() implies #[trigger] parts[i] == inner[i - 1] by {}
        assert(text::split_view(part, '/')[0] == part);
    }
}

/// An image of Docker Hub is shown by its short name, and any other by its full one.
pub proof fn law_an_image_is_shown_by_its_shortest_name(
    registry: Seq<char>,
    repository: Seq<char>,
    target: TargetView,
)
    ensures
        ({
            let hub = registry == "registry-1.docker.io"@ || registry == "docker.io"@ || registry
                == "index.docker.io"@;
            let shown = (ReferenceView { registry, repository, target }).display();
            let library = (ReferenceView {
                registry,
                repository: "library/"@ + repository,
                target,
            }).display();
            &&& hub && !"library/"@.is_prefix_of(repository) ==> shown == target.after(repository)
            &&& hub ==> library == target.after(repository)
            &&& !hub ==> shown == target.after(registry + "/"@ + repository)
        }),
{
    let long = "library/"@ + repository;
    assert(long.skip("library/"@.len() as int) =~= repository);
    assert(long.take("library/"@.len() as int) =~= "library/"@);
}

/// The target of a reference stands behind its repository: a tag behind a colon, a digest behind an
/// at sign.
pub proof fn law_a_target_stands_behind_its_repository(
    repository: Seq<char>,
    name: Seq<char>,
)
    ensures
        TargetView::Tag(name).after(repository) == repository + ":"@ + name,
        TargetView::Digest(name).after(repository) == repository + "@"@ + name,
        TargetView::Tag(name).name() == name,
        TargetView::Digest(name).name() == name,
        target_error(TargetView::Digest(name)) is None <==> digest::is_digest(name),
        target_error(TargetView::Tag(name)) is None <==> is_tag(name),
{
}

} // verus!
