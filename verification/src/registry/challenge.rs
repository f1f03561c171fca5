//! The challenges by which a registry asks for authentication.
use vstd::prelude::*;

use crate::error::{DockerPullError, ErrorView, Result};
use crate::reference::ImageReference;
use crate::text;

verus! {

/// A challenge: where a token is given out, and for what.
#[derive(Debug)]
pub struct WwwAuthenticateChallenge {
    pub scheme: String,
    pub realm: String,
    pub service: Option<String>,
    pub scope: Option<String>,
}

/// A challenge, as text.
pub struct ChallengeView {
    pub scheme: Seq<char>,
    pub realm: Seq<char>,
    pub service: Option<Seq<char>>,
    pub scope: Option<Seq<char>>,
}

impl View for WwwAuthenticateChallenge {
    type V = ChallengeView;

    open spec fn view(&self) -> ChallengeView {
        ChallengeView {
            scheme: self.scheme@,
            realm: self.realm@,
            service: text::opt_string(self.service),
            scope: text::opt_string(self.scope),
        }
    }
}

/// The state of a scan through quoted text after a character: whether it is inside quotes, and
/// whether the next character is escaped.
pub open spec fn quote_state(c: char, in_quotes: bool, escaped: bool) -> (bool, bool) {
    if escaped {
        (in_quotes, false)
    } else if c == '\\' && in_quotes {
        (in_quotes, true)
    } else if c == '"' {
        (!in_quotes, false)
    } else {
        (in_quotes, false)
    }
}

/// The pieces of `s` between the commas outside quotes, without the whitespace around them.
/// `current` is what the first piece holds already.
pub open spec fn attribute_pieces(
    s: Seq<char>,
    current: Seq<char>,
    in_quotes: bool,
    escaped: bool,
) -> Seq<Seq<char>>
    decreases s.len(),
{
    if s.len() == 0 {
        seq![text::trim_view(current)]
    } else {
        let c = s[0];
        if !escaped && !in_quotes && c == ',' {
            seq![text::trim_view(current)] + attribute_pieces(s.skip(1), seq![], false, false)
        } else {
            let (q, e) = quote_state(c, in_quotes, escaped);
            attribute_pieces(s.skip(1), current.push(c), q, e)
        }
    }
}

/// Splits at the commas outside quotes.
pub fn split_auth_attributes(value: &str) -> (r: Vec<&str>)
    ensures
        text::str_texts(r@) == attribute_pieces(value@, seq![], false, false),
{
    let v = text::chars_of(value);
    let n: usize = v.len();
    let ghost goal = attribute_pieces(value@, seq![], false, false);
    let mut out: Vec<&str> = Vec::new();
    let mut start: usize = 0;
    let mut in_quotes = false;
    let mut escaped = false;
    let mut i: usize = 0;
    assert(v@.skip(0) =~= v@);
    assert(v@.subrange(0, 0) =~= seq![]);
    assert(text::str_texts(out@) + goal =~= goal);
    while i < n
        invariant
            start <= i <= n,
            n == v@.len(),
            v@ == value@,
            goal == text::str_texts(out@) + attribute_pieces(
                v@.skip(i as int),
                v@.subrange(start as int, i as int),
                in_quotes,
                escaped,
            ),
        decreases n - i,
    {
        let c = v[i];
        let ghost here = v@.skip(i as int);
        let ghost current = v@.subrange(start as int, i as int);
        assert(here.skip(1) =~= v@.skip(i + 1));
        assert(here[0] == c);
        if !escaped && !in_quotes && c == ',' {
            let ghost before = text::str_texts(out@);
            let piece = text::trim(value.substring_char(start, i));
            out.push(piece);
            start = i + 1;
            proof {
                let rest = attribute_pieces(v@.skip(i + 1), seq![], false, false);
                assert(text::str_texts(out@) =~= before.push(piece@));
                assert(v@.subrange(i + 1, i + 1) =~= seq![]);
                assert(before + (seq![piece@] + rest) =~= text::str_texts(out@) + rest);
            }
        } else {
            assert(v@.subrange(start as int, i + 1) =~= current.push(c));
            if escaped {
                escaped = false;
            } else if c == '\\' && in_quotes {
                escaped = true;
            } else if c == '"' {
                in_quotes = !in_quotes;
            }
        }
        i += 1;
    }
    let ghost before = text::str_texts(out@);
    let piece = text::trim(value.substring_char(start, n));
    out.push(piece);
    assert(text::str_texts(out@) =~= before + seq![piece@]);
    out
}

/// What is known of a challenge while its attributes are read.
pub struct Known {
    pub realm: Option<Seq<char>>,
    pub service: Option<Seq<char>>,
    pub scope: Option<Seq<char>>,
}

/// What is known after one more attribute: a later value of a name wins, and other names are
/// passed over. An attribute without an equals sign is none.
pub open spec fn with_attribute(known: Known, item: Seq<char>) -> Option<Known> {
    match text::split_once_view(text::trim_view(item), '=') {
        None => None,
        Some((key, value)) => {
            let value = text::trim_end_char_view(text::trim_start_char_view(value, '"'), '"');
            Some(
                if key == "realm"@ {
                    Known { realm: Some(value), ..known }
                } else if key == "service"@ {
                    Known { service: Some(value), ..known }
                } else if key == "scope"@ {
                    Known { scope: Some(value), ..known }
                } else {
                    known
                },
            )
        },
    }
}

/// What is known after more attributes, unless one of them is none.
pub open spec fn with_attributes(known: Known, items: Seq<Seq<char>>) -> Option<Known>
    decreases items.len(),
{
    if items.len() == 0 {
        Some(known)
    } else {
        match with_attribute(known, items[0]) {
            Some(next) => with_attributes(next, items.skip(1)),
            None => None,
        }
    }
}

/// A challenge, or why a header holds none.
pub type ChallengeResult = std::result::Result<ChallengeView, ErrorView>;

/// The challenge that a header holds.
pub open spec fn challenge_of(header: Seq<char>) -> ChallengeResult {
    match text::split_once_view(header, ' ') {
        None => Err(ErrorView::Unauthorized("invalid auth challenge"@)),
        Some((scheme, rest)) => match with_attributes(
            Known { realm: None, service: None, scope: None },
            attribute_pieces(rest, seq![], false, false),
        ) {
            None => Err(ErrorView::Unauthorized("invalid auth attribute"@)),
            Some(known) => match known.realm {
                None => Err(ErrorView::Unauthorized("missing token realm"@)),
                Some(realm) => Ok(
                    ChallengeView { scheme, realm, service: known.service, scope: known.scope },
                ),
            },
        },
    }
}

/// Reads the challenge in a header.
pub fn parse_www_authenticate(header: &str) -> (r: Result<WwwAuthenticateChallenge>)
    ensures
        challenge_of(header@) == match r {
            Ok(challenge) => Ok(challenge@),
            Err(e) => Err(e@),
        },
{
    let (scheme, rest) = match text::split_once(header, ' ') {
        Some((scheme, rest)) => (scheme, rest),
        None => {
            return Err(DockerPullError::Unauthorized("invalid auth challenge".to_owned()));
        },
    };
    let items = split_auth_attributes(rest);
    let ghost all = text::str_texts(items@);
    let ghost goal = with_attributes(Known { realm: None, service: None, scope: None }, all);
    let mut realm: Option<String> = None;
    let mut service: Option<String> = None;
    let mut scope: Option<String> = None;
    let mut i: usize = 0;
    assert(all.skip(0) =~= all);
    while i < items.len()
        invariant
            i <= items@.len(),
            all == text::str_texts(items@),
            goal == with_attributes(Known { realm: None, service: None, scope: None }, all),
            text::split_once_view(header@, ' ') == Some((scheme@, rest@)),
            all == attribute_pieces(rest@, seq![], false, false),
            goal == with_attributes(
                Known {
                    realm: text::opt_string(realm),
                    service: text::opt_string(service),
                    scope: text::opt_string(scope),
                },
                all.skip(i as int),
            ),
        decreases items@.len() - i,
    {
        assert(all.skip(i as int)[0] == items@[i as int]@);
        assert(all.skip(i as int).skip(1) =~= all.skip(i + 1));
        match text::split_once(text::trim(items[i]), '=') {
            None => {
                return Err(DockerPullError::Unauthorized("invalid auth attribute".to_owned()));
            },
            Some((key, value)) => {
                let value = text::trim_end_char(text::trim_start_char(value, '"'), '"');
                if text::same(key, "realm") {
                    realm = Some(value.to_owned());
                } else if text::same(key, "service") {
                    service = Some(value.to_owned());
                } else if text::same(key, "scope") {
                    scope = Some(value.to_owned());
                }
            },
        }
        i += 1;
    }
    match realm {
        Some(realm) => Ok(
            WwwAuthenticateChallenge { scheme: scheme.to_owned(), realm, service, scope },
        ),
        None => Err(DockerPullError::Unauthorized("missing token realm".to_owned())),
    }
}

/// The name under which the token for a reference is kept.
pub open spec fn token_key(registry: Seq<char>, scope: Seq<char>) -> Seq<char> {
    registry + "|"@ + scope
}

/// The name under which the token for a reference is kept.
pub fn token_cache_key(reference: &ImageReference) -> (s: String)
    ensures
        s@ == token_key(reference@.registry, reference@.scope()),
{
    crate::error::concat3(
        reference.registry.as_str(),
        "|",
        reference.repository_scope().as_str(),
    )
}

/// Tokens of two references are kept under the same name only where the references have the same
/// registry and the same repository, for registries without a vertical bar.
pub proof fn law_token_keys_tell_registries_apart(
    a: crate::reference::ReferenceView,
    b: crate::reference::ReferenceView,
)
    requires
        !a.registry.contains('|'),
        !b.registry.contains('|'),
        token_key(a.registry, a.scope()) == token_key(b.registry, b.scope()),
    ensures
        a.registry == b.registry,
        a.repository == b.repository,
{
    reveal_strlit("|");
    reveal_strlit("repository:");
    reveal_strlit(":pull");
    assert(token_key(a.registry, a.scope()) =~= a.registry + seq!['|'] + a.scope());
    assert(token_key(b.registry, b.scope()) =~= b.registry + seq!['|'] + b.scope());
    text::lemma_split_once_at(a.registry, '|', a.scope());
    text::lemma_split_once_at(b.registry, '|', b.scope());
    assert(a.scope() == b.scope());
    assert(a.repository =~= a.scope().subrange(11, a.scope().len() - 5));
    assert(b.repository =~= b.scope().subrange(11, b.scope().len() - 5));
}

proof fn lemma_scan(current: Seq<char>, t: Seq<char>, rest: Seq<char>, in_quotes: bool)
    requires
        !t.contains('"'),
        in_quotes ==> !t.contains('\\'),
        !in_quotes ==> !t.contains(','),
    ensures
        attribute_pieces(t + rest, current, in_quotes, false) == attribute_pieces(
            rest,
            current + t,
            in_quotes,
            false,
        ),
    decreases t.len(),
{
    if t.len() == 0 {
        assert(t + rest =~= rest);
        assert(current + t =~= current);
    } else {
        let u = t.skip(1);
        assert(t.contains(t[0]));
        assert forall|c: char| u.contains(c) implies t.contains(c) by {
            let k = choose|k: int| 0 <= k < u.len() && u[k] == c;
            assert(t[k + 1] == c);
        }
        assert((t + rest).skip(1) =~= u + rest);
        assert((t + rest)[0] == t[0]);
        lemma_scan(current.push(t[0]), u, rest, in_quotes);
        assert(current.push(t[0]) + u =~= current + t);
    }
}

/// An attribute with a quoted value.
pub open spec fn quoted(key: Seq<char>, value: Seq<char>) -> Seq<char> {
    key + seq!['=', '"'] + value + seq!['"']
}

/// A quoted attribute is one piece, whatever stands in its quotes but quotes and backslashes.
proof fn lemma_scan_quoted(key: Seq<char>, value: Seq<char>, rest: Seq<char>)
    requires
        !key.contains('"'),
        !key.contains(','),
        !value.contains('"'),
        !value.contains('\\'),
    ensures
        attribute_pieces(quoted(key, value) + rest, seq![], false, false) == attribute_pieces(
            rest,
            quoted(key, value),
            false,
            false,
        ),
{
    let front = key.push('=');
    let none = Seq::<char>::empty();
    let after_front = seq!['"'] + value + seq!['"'] + rest;
    assert forall|i: int| 0 <= i < front.len() implies front[i] != '"' && front[i] != ',' by {
        if i < key.len() {
            assert(key.contains(key[i]));
        }
    }
    assert(quoted(key, value) + rest =~= front + after_front);
    lemma_scan(none, front, after_front, false);
    assert(none + front =~= front);
    let inside = value + seq!['"'] + rest;
    assert(after_front.skip(1) =~= inside);
    assert(after_front[0] == '"');
    let opened = front.push('"');
    lemma_scan(opened, value, seq!['"'] + rest, true);
    assert(inside =~= value + (seq!['"'] + rest));
    assert((seq!['"'] + rest).skip(1) =~= rest);
    assert((seq!['"'] + rest)[0] == '"');
    assert((opened + value).push('"') =~= quoted(key, value));
}

/// The value of a quoted attribute is what stands in its quotes.
proof fn lemma_quoted_value(key: Seq<char>, value: Seq<char>)
    requires
        key.len() > 0,
        !text::is_white(key[0]),
        !key.contains('='),
        !value.contains('"'),
    ensures
        text::trim_view(quoted(key, value)) == quoted(key, value),
        text::split_once_view(quoted(key, value), '=') == Some(
            (key, seq!['"'] + value + seq!['"']),
        ),
        text::trim_end_char_view(
            text::trim_start_char_view(seq!['"'] + value + seq!['"'], '"'),
            '"',
        ) == value,
{
    let item = quoted(key, value);
    let held = seq!['"'] + value + seq!['"'];
    assert(item[0] == key[0]);
    assert(item.last() == '"');
    text::lemma_trim_nothing(item);
    assert(item =~= key + seq!['='] + held);
    text::lemma_split_once_at(key, '=', held);
    let rest = value + seq!['"'];
    assert(held.skip(1) =~= rest);
    assert(held[0] == '"');
    if value.len() == 0 {
        assert(rest =~= seq!['"']);
        assert(rest.skip(1) =~= seq![]);
        assert(text::trim_start_char_view(rest.skip(1), '"') =~= seq![]);
        assert(text::trim_start_char_view(rest, '"') =~= seq![]);
        assert(text::trim_start_char_view(held, '"') =~= seq![]);
        assert(value =~= seq![]);
    } else {
        assert(value.contains(value[0]));
        assert(value.contains(value.last()));
        assert(rest[0] == value[0]);
        assert(text::trim_start_char_view(rest, '"') == rest);
        assert(text::trim_start_char_view(held, '"') == rest);
        assert(rest.drop_last() =~= value);
        assert(text::trim_end_char_view(value, '"') == value);
    }
}

/// A challenge with a realm, a service and a scope is read as these, whatever stands in their
/// quotes but quotes and backslashes.
pub proof fn law_a_challenge_is_read(
    scheme: Seq<char>,
    realm: Seq<char>,
    service: Seq<char>,
    scope: Seq<char>,
)
    requires
        !scheme.contains(' '),
        !realm.contains('"') && !realm.contains('\\'),
        !service.contains('"') && !service.contains('\\'),
        !scope.contains('"') && !scope.contains('\\'),
    ensures
        challenge_of(
            scheme + " realm=\""@ + realm + "\",service=\""@ + service + "\",scope=\""@ + scope
                + "\""@,
        ) == ChallengeResult::Ok(
            ChallengeView { scheme, realm, service: Some(service), scope: Some(scope) },
        ),
        challenge_of(scheme + " realm=\""@ + realm + "\""@) == ChallengeResult::Ok(
            ChallengeView { scheme, realm, service: None, scope: None },
        ),
{
    reveal_strlit(" realm=\"");
    reveal_strlit("\",service=\"");
    reveal_strlit("\",scope=\"");
    reveal_strlit("\"");
    reveal_strlit("realm");
    reveal_strlit("service");
    reveal_strlit("scope");
    let a = quoted("realm"@, realm);
    let b = quoted("service"@, service);
    let c = quoted("scope"@, scope);
    let none = Seq::<char>::empty();
    let comma = seq![','];
    let rest = a + (comma + (b + (comma + c)));
    let header = scheme + " realm=\""@ + realm + "\",service=\""@ + service + "\",scope=\""@ + scope
        + "\""@;
    assert(header =~= scheme + seq![' '] + rest);
    text::lemma_split_once_at(scheme, ' ', rest);
    lemma_scan_quoted("realm"@, realm, comma + (b + (comma + c)));
    lemma_scan_quoted("service"@, service, comma + c);
    lemma_scan_quoted("scope"@, scope, none);
    assert(c + none =~= c);
    assert((comma + (b + (comma + c))).skip(1) =~= b + (comma + c));
    assert((comma + c).skip(1) =~= c);
    lemma_quoted_value("realm"@, realm);
    lemma_quoted_value("service"@, service);
    lemma_quoted_value("scope"@, scope);
    let start = Known { realm: None, service: None, scope: None };
    let pieces = attribute_pieces(rest, none, false, false);
    assert(attribute_pieces(none, c, false, false) =~= seq![c]);
    assert(pieces =~= seq![a, b, c]);
    let one = Known { realm: Some(realm), service: None, scope: None };
    let two = Known { realm: Some(realm), service: Some(service), scope: None };
    let all = Known { realm: Some(realm), service: Some(service), scope: Some(scope) };
    lemma_three_attributes(start, a, b, c, one, two, all);
    let short = scheme + " realm=\""@ + realm + "\""@;
    assert(short =~= scheme + seq![' '] + a);
    text::lemma_split_once_at(scheme, ' ', a);
    lemma_scan_quoted("realm"@, realm, none);
    assert(a + none =~= a);
    assert(attribute_pieces(none, a, false, false) =~= seq![a]);
    assert(with_attribute(start, a) == Some(one));
    assert(seq![a].skip(1) =~= seq![]);
    assert(with_attributes(one, seq![]) == Some(one));
}

proof fn lemma_three_attributes(
    start: Known,
    a: Seq<char>,
    b: Seq<char>,
    c: Seq<char>,
    one: Known,
    two: Known,
    all: Known,
)
    requires
        with_attribute(start, a) == Some(one),
        with_attribute(one, b) == Some(two),
        with_attribute(two, c) == Some(all),
    ensures
        with_attributes(start, seq![a, b, c]) == Some(all),
{
    assert(seq![a, b, c].skip(1) =~= seq![b, c]);
    assert(seq![b, c].skip(1) =~= seq![c]);
    assert(seq![c].skip(1) =~= seq![]);
    assert(with_attributes(all, seq![]) == Some(all));
    assert(with_attributes(two, seq![c]) == Some(all));
    assert(with_attributes(one, seq![b, c]) == Some(all));
}

} // verus!
