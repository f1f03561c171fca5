//! Addresses of registry resources, and repository names in a cache.
use vstd::prelude::*;

use crate::error::{concat3, invalid_input, DockerPullError, ErrorView, Result};
use crate::reference::ImageReference;
use crate::text;

verus! {

/// The name under which a cache keeps a repository of a registry.
pub open spec fn cached_name(registry: Seq<char>, repository: Seq<char>) -> Seq<char> {
    registry + "/"@ + repository
}

/// The name under which a cache keeps a repository of a registry.
pub fn cache_repository(registry: &str, repository: &str) -> (s: String)
    ensures
        s@ == cached_name(registry@, repository@),
{
    concat3(registry, "/", repository)
}

/// The registry and the repository that a name in a cache stands for.
pub open spec fn decoded_name(name: Seq<char>) -> Option<(Seq<char>, Seq<char>)> {
    match text::split_once_view(name, '/') {
        Some((registry, repository)) => if registry.len() == 0 || repository.len() == 0 {
            None
        } else {
            Some((registry, repository))
        },
        None => None,
    }
}

/// Finds the registry and the repository that a name in a cache stands for.
pub fn decode_cache_repository(repository: &str) -> (r: Result<(String, String)>)
    ensures
        match r {
            Ok((registry, upstream)) => decoded_name(repository@) == Some((registry@, upstream@)),
            Err(e) => decoded_name(repository@) is None && e@ == ErrorView::InvalidInput(
                "invalid pocker cache repository `"@ + repository@ + "`"@,
            ),
        },
{
    match text::split_once(repository, '/') {
        Some((registry, upstream)) => {
            if registry.is_empty() || upstream.is_empty() {
                Err(invalid_input("invalid pocker cache repository `", repository, "`"))
            } else {
                Ok((registry.to_owned(), upstream.to_owned()))
            }
        },
        None => Err(invalid_input("invalid pocker cache repository `", repository, "`")),
    }
}

/// A name in a cache stands for the registry and the repository that it was made from, where the
/// registry has no slash and neither is empty.
pub proof fn law_cached_name_decodes(registry: Seq<char>, repository: Seq<char>)
    requires
        registry.len() > 0,
        repository.len() > 0,
        !registry.contains('/'),
    ensures
        decoded_name(cached_name(registry, repository)) == Some((registry, repository)),
{
    reveal_strlit("/");
    assert(cached_name(registry, repository) =~= registry + seq!['/'] + repository);
    text::lemma_split_once_at(registry, '/', repository);
}

/// A name that stands for a registry and a repository is the one that a cache gives them.
pub proof fn law_decoded_name_is_cached_under_it(name: Seq<char>)
    requires
        decoded_name(name) is Some,
    ensures
        decoded_name(name) matches Some((registry, repository)) && cached_name(registry, repository)
            == name,
{
    reveal_strlit("/");
    text::lemma_find_char(name, '/');
    let i = text::find_char(name, '/')->0;
    assert(name =~= name.take(i) + "/"@ + name.skip(i + 1));
}

/// An address as the parser gives it.
#[verifier::external_type_specification]
#[verifier::external_body]
pub struct ExUrl(url::Url);

/// The text of an address, in its normal form.
pub uninterp spec fn url_text(url: url::Url) -> Seq<char>;

/// The address that a text denotes, in its normal form, or the message that says why it denotes
/// none.
pub uninterp spec fn parsed_url(text: Seq<char>) -> std::result::Result<Seq<char>, Seq<char>>;

/// Parses an address with `url::Url::parse`. The outcome, address or error message, depends on the
/// text alone.
#[verifier::external_body]
fn url_parse(text: &str) -> (r: std::result::Result<url::Url, String>)
    ensures
        parsed_url(text@) == match r {
            Ok(url) => Ok(url_text(url)),
            Err(message) => Err(message@),
        },
{
    url::Url::parse(text).map_err(|error| error.to_string())
}

/// Calls `url::Url::as_str`: the text of the address.
#[verifier::external_body]
fn url_as_str(url: &url::Url) -> (text: String)
    ensures
        text@ == url_text(*url),
{
    url.as_str().to_owned()
}

/// What stands before the first `c`: everything, where there is none.
pub open spec fn before_char(s: Seq<char>, c: char) -> Seq<char> {
    match text::find_char(s, c) {
        Some(i) => s.take(i),
        None => s,
    }
}

/// Calls `url::Url::scheme`: what stands before the first colon of the address.
#[verifier::external_body]
fn url_scheme(url: &url::Url) -> (scheme: String)
    ensures
        scheme@ == before_char(url_text(*url), ':'),
{
    url.scheme().to_owned()
}

/// Whether the path of an address is opaque: no slash follows the scheme and its colon.
pub open spec fn is_opaque(address: Seq<char>) -> bool {
    match text::split_once_view(address, ':') {
        Some((_, rest)) => rest.len() == 0 || rest[0] != '/',
        None => true,
    }
}

/// The text without the spaces at its end.
pub open spec fn without_end_spaces(s: Seq<char>) -> Seq<char>
    decreases s.len(),
{
    if s.len() > 0 && s.last() == ' ' {
        without_end_spaces(s.drop_last())
    } else {
        s
    }
}

/// An address that ends with its path: an opaque path ends with no space there.
pub open spec fn ending_with_path(address: Seq<char>) -> Seq<char> {
    if is_opaque(address) {
        without_end_spaces(address)
    } else {
        address
    }
}

/// The address without its query: what stands between the first question mark before the fragment
/// and the fragment.
pub open spec fn without_query(address: Seq<char>) -> Seq<char> {
    match text::find_char(address, '#') {
        Some(i) => before_char(address.take(i), '?') + address.skip(i),
        None => ending_with_path(before_char(address, '?')),
    }
}

/// The address without its fragment: what begins with the first hash sign.
pub open spec fn without_fragment(address: Seq<char>) -> Seq<char> {
    let rest = before_char(address, '#');
    if rest.contains('?') {
        rest
    } else {
        ending_with_path(rest)
    }
}

/// Calls `url::Url::set_query` with `None`: the query is removed, and the spaces at the end of an
/// opaque path that then ends the address.
#[verifier::external_body]
fn url_remove_query(url: &mut url::Url)
    ensures
        url_text(*final(url)) == without_query(url_text(*old(url))),
{
    url.set_query(None);
}

/// Calls `url::Url::set_fragment` with `None`: the fragment is removed, and the spaces at the end
/// of an opaque path that then ends the address.
#[verifier::external_body]
fn url_remove_fragment(url: &mut url::Url)
    ensures
        url_text(*final(url)) == without_fragment(url_text(*old(url))),
{
    url.set_fragment(None);
}

/// The address with the segments, percent encoded, behind its path.
pub uninterp spec fn with_segments(address: Seq<char>, segments: Seq<Seq<char>>) -> Seq<char>;

/// How many characters the texts of a list have.
pub open spec fn total_len(list: Seq<Seq<char>>) -> nat
    decreases list.len(),
{
    if list.len() == 0 {
        0
    } else {
        total_len(list.drop_last()) + list.last().len()
    }
}

/// Calls `url::Url::path_segments_mut` and, where the address has a path that is not opaque,
/// `extend` on it. What the address is then depends on its text and the segments alone; where the
/// path is opaque, the address stays. An address of more than `u32::MAX` bytes makes these calls
/// panic. The limit keeps it shorter: a character of a segment takes at most twelve bytes, and a
/// segment at most two more.
#[verifier::external_body]
fn url_extend_path(url: &mut url::Url, segments: &[String]) -> (extended: bool)
    requires
        url_text(*old(url)).len() + 12 * total_len(text::texts(segments@)) + 2 * segments@.len()
            <= u32::MAX,
    ensures
        extended == !is_opaque(url_text(*old(url))),
        extended ==> url_text(*final(url)) == with_segments(
            url_text(*old(url)),
            text::texts(segments@),
        ),
        !extended ==> url_text(*final(url)) == url_text(*old(url)),
{
    match url.path_segments_mut() {
        Ok(mut path) => {
            path.extend(segments);
            true
        },
        Err(()) => false,
    }
}

/// Reads an address.
pub fn parse_address(address: &str) -> (r: Result<url::Url>)
    ensures
        match r {
            Ok(url) => parsed_url(address@) == std::result::Result::<Seq<char>, Seq<char>>::Ok(
                url_text(url),
            ),
            Err(e) => parsed_url(address@) matches Err(message) && e@ == ErrorView::Url(message),
        },
{
    match url_parse(address) {
        Ok(url) => Ok(url),
        Err(message) => Err(DockerPullError::Url(message)),
    }
}

/// The scheme of the address of a cache, where there is one.
pub fn cache_scheme(cache_from: Option<&str>) -> (r: Result<Option<String>>)
    ensures
        match cache_from {
            None => r matches Ok(None),
            Some(address) => match parsed_url(address@) {
                Ok(url) => r matches Ok(Some(scheme)) && scheme@ == before_char(url, ':'),
                Err(message) => r matches Err(e) && e@ == ErrorView::Url(message),
            },
        },
{
    match cache_from {
        None => Ok(None),
        Some(address) => match parse_address(address) {
            Ok(url) => Ok(Some(url_scheme(&url))),
            Err(e) => Err(e),
        },
    }
}

/// The segments of a resource: the API version, the parts of the repository, the kind of resource
/// and its name.
pub open spec fn resource_segments(
    repository: Seq<char>,
    resource: Seq<char>,
    suffix: Seq<char>,
) -> Seq<Seq<char>> {
    seq!["v2"@] + text::split_view(repository, '/') + seq![resource, suffix]
}

/// An address, or why there is none.
pub type AddressResult = std::result::Result<Seq<char>, ErrorView>;

/// The address of a resource below an address: without its query and fragment, and with the
/// segments of the resource behind its path.
pub open spec fn extended_address(
    base: Seq<char>,
    repository: Seq<char>,
    resource: Seq<char>,
    suffix: Seq<char>,
) -> AddressResult {
    let plain = without_fragment(without_query(base));
    if is_opaque(plain) {
        Err(ErrorView::InvalidInput("invalid registry URL base `"@ + plain + "`"@))
    } else {
        Ok(with_segments(plain, resource_segments(repository, resource, suffix)))
    }
}

/// Whether an address stays below `u32::MAX` bytes with the segments of a resource.
pub open spec fn address_fits(
    base: Seq<char>,
    repository: Seq<char>,
    resource: Seq<char>,
    suffix: Seq<char>,
) -> bool {
    base.len() + 14 * (repository.len() + resource.len() + suffix.len() + 8) <= u32::MAX
}

/// The address of a resource of a repository below the address that a text denotes. There is none,
/// not even a failure, where it would be too long.
pub open spec fn resource_address(
    base: Seq<char>,
    repository: Seq<char>,
    resource: Seq<char>,
    suffix: Seq<char>,
) -> Option<AddressResult> {
    match parsed_url(base) {
        Err(message) => Some(Err(ErrorView::Url(message))),
        Ok(url) => if address_fits(url, repository, resource, suffix) {
            Some(extended_address(url, repository, resource, suffix))
        } else {
            None
        },
    }
}

proof fn lemma_end_spaces(s: Seq<char>)
    ensures
        without_end_spaces(s).is_prefix_of(s),
    decreases s.len(),
{
    if s.len() > 0 && s.last() == ' ' {
        lemma_end_spaces(s.drop_last());
    }
}

/// An address gets no longer where its query and its fragment are removed.
proof fn lemma_removing_shortens(address: Seq<char>)
    ensures
        without_query(address).len() <= address.len(),
        without_fragment(address).len() <= address.len(),
{
    text::lemma_find_char(address, '#');
    text::lemma_find_char(address, '?');
    lemma_end_spaces(before_char(address, '?'));
    lemma_end_spaces(before_char(address, '#'));
    if let Some(i) = text::find_char(address, '#') {
        text::lemma_find_char(address.take(i), '?');
    }
}

/// An address whose path is not opaque has neither a query nor a fragment after both were removed,
/// and begins as it did.
pub proof fn law_a_plain_address_has_no_query(address: Seq<char>)
    requires
        !is_opaque(without_fragment(without_query(address))),
    ensures
        ({
            let plain = without_fragment(without_query(address));
            &&& !plain.contains('?')
            &&& !plain.contains('#')
            &&& plain.is_prefix_of(address)
        }),
{
    text::lemma_find_char(address, '#');
    let head = before_char(address, '#');
    text::lemma_find_char(head, '?');
    let bare = before_char(head, '?');
    let middle = without_query(address);
    text::lemma_find_char(middle, '#');
    match text::find_char(address, '#') {
        Some(i) => {
            assert(head =~= address.take(i));
            assert(middle =~= bare + address.skip(i));
            assert(middle[bare.len() as int] == '#');
            assert forall|j: int| 0 <= j < bare.len() implies middle[j] != '#' by {
                assert(middle[j] == address[j]);
            }
            assert(before_char(middle, '#') =~= bare);
        },
        None => {
            assert(head =~= address);
            lemma_end_spaces(bare);
            assert(middle.is_prefix_of(bare));
            assert forall|j: int| 0 <= j < middle.len() implies middle[j] != '#' by {
                assert(middle[j] == address[j]);
            }
            assert(before_char(middle, '#') =~= middle);
        },
    }
    let rest = before_char(middle, '#');
    lemma_end_spaces(rest);
    let plain = without_fragment(middle);
    assert(plain.is_prefix_of(rest));
    assert(rest.is_prefix_of(bare));
    assert forall|j: int| 0 <= j < plain.len() implies plain[j] == address[j] && plain[j] != '?'
        && plain[j] != '#' by {
        assert(plain[j] == rest[j] && rest[j] == bare[j] && bare[j] == head[j]);
    }
    assert(plain =~= address.take(plain.len() as int));
}

/// The pieces of a split are no longer than the text, together with their separators.
proof fn lemma_split_len(s: Seq<char>, c: char)
    ensures
        total_len(text::split_view(s, c)) + text::split_view(s, c).len() == s.len() + 1,
    decreases s.len(),
{
    text::lemma_find_char(s, c);
    match text::find_char(s, c) {
        Some(i) => {
            lemma_split_len(s.skip(i + 1), c);
            lemma_total_len_add(seq![s.take(i)], text::split_view(s.skip(i + 1), c));
            lemma_total_len_one(s.take(i));
        },
        None => {
            lemma_total_len_one(s);
        },
    }
}

proof fn lemma_total_len_one(s: Seq<char>)
    ensures
        total_len(seq![s]) == s.len(),
{
    assert(seq![s].drop_last() =~= seq![]);
    assert(total_len(seq![s].drop_last()) == 0);
}

proof fn lemma_total_len_add(a: Seq<Seq<char>>, b: Seq<Seq<char>>)
    ensures
        total_len(a + b) == total_len(a) + total_len(b),
    decreases b.len(),
{
    if b.len() == 0 {
        assert(a + b =~= a);
    } else {
        assert((a + b).drop_last() =~= a + b.drop_last());
        lemma_total_len_add(a, b.drop_last());
    }
}

/// Puts the address of a resource of a repository together.
pub fn resource_url(base_url: url::Url, repository: &str, resource: &str, suffix: &str) -> (r:
    Result<url::Url>)
    requires
        address_fits(url_text(base_url), repository@, resource@, suffix@),
    ensures
        extended_address(url_text(base_url), repository@, resource@, suffix@) == match r {
            Ok(url) => Ok(url_text(url)),
            Err(e) => Err(e@),
        },
{
    let parts = text::split(repository, '/');
    let ghost pieces = text::split_view(repository@, '/');
    let mut segments: Vec<String> = Vec::new();
    segments.push("v2".to_owned());
    let mut i: usize = 0;
    assert(text::texts(segments@) =~= seq!["v2"@] + pieces.take(0));
    while i < parts.len()
        invariant
            i <= parts@.len(),
            pieces == text::str_texts(parts@),
            text::texts(segments@) == seq!["v2"@] + pieces.take(i as int),
        decreases parts@.len() - i,
    {
        let ghost before = text::texts(segments@);
        segments.push(parts[i].to_owned());
        assert(text::texts(segments@) =~= before.push(pieces[i as int]));
        assert(text::texts(segments@) =~= seq!["v2"@] + pieces.take(i + 1));
        i += 1;
    }
    let ghost before = text::texts(segments@);
    segments.push(resource.to_owned());
    segments.push(suffix.to_owned());
    proof {
        assert(pieces.take(i as int) =~= pieces);
        assert(text::texts(segments@) =~= before + seq![resource@, suffix@]);
        reveal_strlit("v2");
        lemma_split_len(repository@, '/');
        lemma_total_len_one("v2"@);
        lemma_total_len_add(seq!["v2"@], pieces);
        assert(seq![resource@, suffix@] =~= seq![resource@] + seq![suffix@]);
        lemma_total_len_one(resource@);
        lemma_total_len_one(suffix@);
        lemma_total_len_add(seq![resource@], seq![suffix@]);
        lemma_total_len_add(seq!["v2"@] + pieces, seq![resource@, suffix@]);
        lemma_removing_shortens(url_text(base_url));
        lemma_removing_shortens(without_query(url_text(base_url)));
    }
    let mut url = base_url;
    url_remove_query(&mut url);
    url_remove_fragment(&mut url);
    let shown = url_as_str(&url);
    if url_extend_path(&mut url, segments.as_slice()) {
        Ok(url)
    } else {
        Err(invalid_input("invalid registry URL base `", shown.as_str(), "`"))
    }
}

/// Puts the address of a resource in a cache together.
pub fn cache_url(
    base_url: url::Url,
    reference: &ImageReference,
    resource: &str,
    suffix: &str,
) -> (r: Result<url::Url>)
    requires
        address_fits(
            url_text(base_url),
            cached_name(reference.registry@, reference.repository@),
            resource@,
            suffix@,
        ),
    ensures
        extended_address(
            url_text(base_url),
            cached_name(reference.registry@, reference.repository@),
            resource@,
            suffix@,
        ) == match r {
            Ok(url) => Ok(url_text(url)),
            Err(e) => Err(e@),
        },
{
    let repository = cache_repository(reference.registry.as_str(), reference.repository.as_str());
    resource_url(base_url, repository.as_str(), resource, suffix)
}

/// Tests whether an address stays short enough with the segments of a resource.
pub fn can_extend(base_url: &url::Url, repository: &str, resource: &str, suffix: &str) -> (r: bool)
    ensures
        r == address_fits(url_text(*base_url), repository@, resource@, suffix@),
{
    let base: usize = url_as_str(base_url).as_str().unicode_len();
    let a: usize = repository.unicode_len();
    let b: usize = resource.unicode_len();
    let c: usize = suffix.unicode_len();
    base as u128 + 14 * (a as u128 + b as u128 + c as u128 + 8) <= u32::MAX as u128
}

/// The address of a resource, as text.
pub open spec fn address_view(r: Option<Result<String>>) -> Option<AddressResult> {
    match r {
        None => None,
        Some(Ok(url)) => Some(Ok(url@)),
        Some(Err(e)) => Some(Err(e@)),
    }
}

/// Reads an address and puts the address of a resource below it together, unless that would be too
/// long.
pub fn resource_url_below(base: &str, repository: &str, resource: &str, suffix: &str) -> (r: Option<
    Result<String>,
>)
    ensures
        address_view(r) == resource_address(base@, repository@, resource@, suffix@),
{
    match parse_address(base) {
        Err(e) => Some(Err(e)),
        Ok(url) => {
            if can_extend(&url, repository, resource, suffix) {
                match resource_url(url, repository, resource, suffix) {
                    Ok(url) => Some(Ok(url_as_str(&url))),
                    Err(e) => Some(Err(e)),
                }
            } else {
                None
            }
        },
    }
}

/// The path of a resource is made of the version of the API, the repository with its slashes, the
/// kind of resource and its name.
pub proof fn law_a_resource_lies_below_its_repository(
    repository: Seq<char>,
    resource: Seq<char>,
    suffix: Seq<char>,
)
    ensures
        text::join_view(resource_segments(repository, resource, suffix), seq!['/']) == "v2/"@
            + repository + "/"@ + resource + "/"@ + suffix,
{
    let slash = seq!['/'];
    let pieces = text::split_view(repository, '/');
    text::law_pieces_make_the_text(repository, '/');
    text::lemma_split_pieces(repository, '/');
    text::law_joined_texts_are_separated(seq!["v2"@], pieces, "v2"@, slash);
    text::law_joined_texts_are_separated(
        seq!["v2"@] + pieces,
        seq![resource, suffix],
        resource,
        slash,
    );
    text::law_joined_texts_are_separated(seq![resource], seq![suffix], suffix, slash);
    text::law_joined_texts_are_separated(seq![resource], seq![suffix], resource, slash);
    assert(seq![resource] + seq![suffix] =~= seq![resource, suffix]);
    reveal_strlit("v2");
    reveal_strlit("v2/");
    reveal_strlit("/");
    assert(text::join_view(resource_segments(repository, resource, suffix), slash) =~= "v2"@ + slash
        + repository + slash + (resource + slash + suffix));
    assert("v2"@ + slash + repository + slash + (resource + slash + suffix) =~= "v2/"@ + repository
        + "/"@ + resource + "/"@ + suffix);
}

/// A resource below an address is looked for at that address, whatever its query and fragment were;
/// an address that nothing can lie below is refused.
pub proof fn law_a_resource_lies_below_its_address(
    base: Seq<char>,
    repository: Seq<char>,
    resource: Seq<char>,
    suffix: Seq<char>,
)
    ensures
        ({
            let plain = without_fragment(without_query(base));
            let found = extended_address(base, repository, resource, suffix);
            &&& is_opaque(plain) ==> found is Err
            &&& !is_opaque(plain) ==> found == AddressResult::Ok(
                with_segments(plain, resource_segments(repository, resource, suffix)),
            )
        }),
{
}

} // verus!
