//! Where the docker daemon listens.
use vstd::prelude::*;

use crate::error::{concat2, concat3, invalid_input, DockerPullError, ErrorView, Result};
use crate::path::HostFamily;
use crate::text;

verus! {

/// The host that is used where none is given.
pub const DEFAULT_DOCKER_HOST: &'static str = "unix:///var/run/docker.sock";

/// The host that is used on Windows where none is given.
pub const DEFAULT_WINDOWS_DOCKER_HOST: &'static str = "npipe:////./pipe/docker_engine";

/// The address of the daemon: the path of a socket or of a pipe, or a base URL.
#[derive(Debug, Clone)]
pub enum DockerEndpoint {
    Unix(String),
    NamedPipe(String),
    Http(String),
}

/// The address of the daemon, as text.
pub enum DockerEndpointView {
    Unix(Seq<char>),
    NamedPipe(Seq<char>),
    Http(Seq<char>),
}

impl View for DockerEndpoint {
    type V = DockerEndpointView;

    open spec fn view(&self) -> DockerEndpointView {
        match self {
            DockerEndpoint::Unix(path) => DockerEndpointView::Unix(path@),
            DockerEndpoint::NamedPipe(path) => DockerEndpointView::NamedPipe(path@),
            DockerEndpoint::Http(base) => DockerEndpointView::Http(base@),
        }
    }
}

/// A path with backslashes in place of slashes.
pub open spec fn backslashed(path: Seq<char>) -> Seq<char> {
    path.map_values(
        |c: char|
            if c == '/' {
                '\\'
            } else {
                c
            },
    )
}

/// The path of a named pipe, with backslashes throughout.
pub open spec fn pipe_path(path: Seq<char>) -> std::result::Result<Seq<char>, ErrorView> {
    if path.len() == 0 {
        Err(ErrorView::InvalidInput("docker host named pipe path is empty"@))
    } else if text::strip_prefix_view(backslashed(path), "\\\\.\\pipe\\"@) is None {
        Err(
            ErrorView::InvalidInput(
                "unsupported docker named pipe `"@ + backslashed(path) + "`"@,
            ),
        )
    } else {
        Ok(backslashed(path))
    }
}

/// Brings the path of a named pipe into its usual form.
pub fn normalize_named_pipe_path(path: &str) -> (r: Result<String>)
    ensures
        pipe_path(path@) == match r {
            Ok(p) => Ok(p@),
            Err(e) => Err(e@),
        },
{
    let v = text::chars_of(path);
    if v.len() == 0 {
        return Err(
            DockerPullError::InvalidInput("docker host named pipe path is empty".to_owned()),
        );
    }
    let mut out: Vec<char> = Vec::new();
    let mut i: usize = 0;
    while i < v.len()
        invariant
            i <= v@.len(),
            v@ == path@,
            out@ == backslashed(path@).take(i as int),
        decreases v@.len() - i,
    {
        let c = v[i];
        if c == '/' {
            out.push('\\');
        } else {
            out.push(c);
        }
        assert(backslashed(path@).take(i + 1) =~= backslashed(path@).take(i as int).push(
            backslashed(path@)[i as int],
        ));
        i += 1;
    }
    assert(out@ =~= backslashed(path@));
    let normalized = text::string_of(out.as_slice());
    if !text::starts_with(normalized.as_str(), "\\\\.\\pipe\\") {
        return Err(invalid_input("unsupported docker named pipe `", normalized.as_str(), "`"));
    }
    Ok(normalized)
}

/// The address that a host denotes on a kind of system.
pub open spec fn endpoint_view(host: Seq<char>, family: HostFamily) -> std::result::Result<
    DockerEndpointView,
    ErrorView,
> {
    if family == HostFamily::Unix && text::strip_prefix_view(host, "unix://"@) is Some {
        let path = text::strip_prefix_view(host, "unix://"@)->0;
        if path.len() == 0 {
            Err(ErrorView::InvalidInput("docker host unix socket path is empty"@))
        } else {
            Ok(DockerEndpointView::Unix(path))
        }
    } else if text::strip_prefix_view(host, "npipe://"@) is Some {
        if family == HostFamily::Windows {
            match pipe_path(text::strip_prefix_view(host, "npipe://"@)->0) {
                Ok(path) => Ok(DockerEndpointView::NamedPipe(path)),
                Err(e) => Err(e),
            }
        } else {
            Err(
                ErrorView::InvalidInput(
                    "docker named pipes are not supported; set DOCKER_HOST to a tcp://, http://, or https:// endpoint"@,
                ),
            )
        }
    } else if text::strip_prefix_view(host, "tcp://"@) is Some {
        Ok(
            DockerEndpointView::Http(
                "http://"@ + text::trim_end_char_view(
                    text::strip_prefix_view(host, "tcp://"@)->0,
                    '/',
                ),
            ),
        )
    } else if text::strip_prefix_view(host, "http://"@) is Some || text::strip_prefix_view(
        host,
        "https://"@,
    ) is Some {
        Ok(DockerEndpointView::Http(text::trim_end_char_view(host, '/')))
    } else {
        Err(ErrorView::InvalidInput("unsupported docker host `"@ + host + "`"@))
    }
}

/// Reads the address of the daemon from a host, as a kind of system takes it.
pub fn docker_endpoint_for(host: &str, family: HostFamily) -> (r: Result<DockerEndpoint>)
    ensures
        endpoint_view(host@, family) == match r {
            Ok(endpoint) => Ok(endpoint@),
            Err(e) => Err(e@),
        },
{
    if family == HostFamily::Unix {
        if let Some(path) = text::strip_prefix(host, "unix://") {
            if path.unicode_len() == 0 {
                return Err(
                    DockerPullError::InvalidInput(
                        "docker host unix socket path is empty".to_owned(),
                    ),
                );
            }
            return Ok(DockerEndpoint::Unix(path.to_owned()));
        }
    }
    if let Some(path) = text::strip_prefix(host, "npipe://") {
        if family == HostFamily::Windows {
            return match normalize_named_pipe_path(path) {
                Ok(path) => Ok(DockerEndpoint::NamedPipe(path)),
                Err(e) => Err(e),
            };
        }
        return Err(
            DockerPullError::InvalidInput(
                "docker named pipes are not supported; set DOCKER_HOST to a tcp://, http://, or https:// endpoint".to_owned(),
            ),
        );
    }
    if let Some(address) = text::strip_prefix(host, "tcp://") {
        return Ok(DockerEndpoint::Http(concat2("http://", text::trim_end_char(address, '/'))));
    }
    if text::starts_with(host, "http://") || text::starts_with(host, "https://") {
        return Ok(DockerEndpoint::Http(text::trim_end_char(host, '/').to_owned()));
    }
    Err(DockerPullError::InvalidInput(concat3("unsupported docker host `", host, "`")))
}

/// Reads the address of the daemon from a host, as a Unix system takes it.
pub fn docker_endpoint_from_host(host: &str) -> (r: Result<DockerEndpoint>)
    ensures
        endpoint_view(host@, HostFamily::Unix) == match r {
            Ok(endpoint) => Ok(endpoint@),
            Err(e) => Err(e@),
        },
{
    docker_endpoint_for(host, HostFamily::Unix)
}

/// The host that is used where none is given.
pub open spec fn usual_host(family: HostFamily) -> Seq<char> {
    match family {
        HostFamily::Unix => DEFAULT_DOCKER_HOST@,
        HostFamily::Windows => DEFAULT_WINDOWS_DOCKER_HOST@,
    }
}

/// The host to use: the one that is given, unless it is blank, and the usual one otherwise.
pub fn chosen_host(given: Option<String>, family: HostFamily) -> (host: String)
    ensures
        host@ == match given {
            Some(host) => if text::trim_view(host@).len() == 0 {
                usual_host(family)
            } else {
                host@
            },
            None => usual_host(family),
        },
{
    if let Some(host) = given {
        if text::trim(host.as_str()).unicode_len() != 0 {
            return host;
        }
    }
    match family {
        HostFamily::Unix => DEFAULT_DOCKER_HOST.to_owned(),
        HostFamily::Windows => DEFAULT_WINDOWS_DOCKER_HOST.to_owned(),
    }
}

/// A host names a socket by its path on a Unix system.
pub proof fn law_a_socket_is_named_by_its_path(path: Seq<char>)
    ensures
        path.len() > 0 ==> endpoint_view("unix://"@ + path, HostFamily::Unix) == Ok::<
            DockerEndpointView,
            ErrorView,
        >(DockerEndpointView::Unix(path)),
        path.len() == 0 ==> endpoint_view("unix://"@ + path, HostFamily::Unix) is Err,
        endpoint_view("unix://"@ + path, HostFamily::Windows) is Err,
{
    reveal_strlit("unix://");
    reveal_strlit("npipe://");
    reveal_strlit("tcp://");
    reveal_strlit("http://");
    reveal_strlit("https://");
    let host = "unix://"@ + path;
    lemma_prefix_goes("unix://"@, path);
    assert(host[0] == 'u');
    assert("npipe://"@[0] == 'n' && "tcp://"@[0] == 't' && "http://"@[0] == 'h' && "https://"@[0]
        == 'h');
}

proof fn lemma_prefix_goes(prefix: Seq<char>, rest: Seq<char>)
    ensures
        text::strip_prefix_view(prefix + rest, prefix) == Some(rest),
{
    let s = prefix + rest;
    assert(s.subrange(0, prefix.len() as int) =~= prefix);
    assert(s.skip(prefix.len() as int) =~= rest);
}

/// A host names a pipe by its path on Windows, with slashes or with backslashes, and on no other
/// system.
pub proof fn law_a_pipe_is_named_by_its_path(name: Seq<char>)
    requires
        !name.contains('/'),
    ensures
        endpoint_view("npipe:////./pipe/"@ + name, HostFamily::Windows) == Ok::<
            DockerEndpointView,
            ErrorView,
        >(DockerEndpointView::NamedPipe("\\\\.\\pipe\\"@ + name)),
        endpoint_view("npipe://\\\\.\\pipe\\"@ + name, HostFamily::Windows) == Ok::<
            DockerEndpointView,
            ErrorView,
        >(DockerEndpointView::NamedPipe("\\\\.\\pipe\\"@ + name)),
        endpoint_view("npipe:////./pipe/"@ + name, HostFamily::Unix) is Err,
{
    reveal_strlit("npipe:////./pipe/");
    reveal_strlit("npipe://\\\\.\\pipe\\");
    reveal_strlit("npipe://");
    reveal_strlit("//./pipe/");
    reveal_strlit("\\\\.\\pipe\\");
    reveal_strlit("unix://");
    let wanted = "\\\\.\\pipe\\"@ + name;
    let slashed = "//./pipe/"@ + name;
    assert("npipe:////./pipe/"@ + name =~= "npipe://"@ + slashed);
    assert("npipe://\\\\.\\pipe\\"@ + name =~= "npipe://"@ + wanted);
    lemma_prefix_goes("npipe://"@, slashed);
    lemma_prefix_goes("npipe://"@, wanted);
    assert(("npipe://"@ + slashed)[0] == 'n' && "unix://"@[0] == 'u');
    assert forall|i: int| 0 <= i < wanted.len() implies wanted[i] != '/' by {
        if i >= 9 {
            assert(name[i - 9] == wanted[i]);
        }
    }
    assert(backslashed(wanted) =~= wanted);
    assert forall|i: int| 0 <= i < slashed.len() implies backslashed(slashed)[i] == wanted[i] by {
        if i >= 9 {
            assert(name[i - 9] == slashed[i]);
            assert(name[i - 9] == wanted[i]);
        }
    }
    assert(backslashed(slashed) =~= wanted);
    lemma_prefix_goes("\\\\.\\pipe\\"@, name);
}

/// The slashes at the end of an address are left out, and `tcp` is spoken as `http`.
pub proof fn law_an_address_is_a_base(address: Seq<char>, family: HostFamily)
    requires
        address.len() > 0,
        address.last() != '/',
    ensures
        forall|slashes: Seq<char>|
            (forall|i: int| 0 <= i < slashes.len() ==> slashes[i] == '/') ==> {
                let base = Ok::<DockerEndpointView, ErrorView>(
                    DockerEndpointView::Http("http://"@ + address),
                );
                &&& #[trigger] endpoint_view("tcp://"@ + (address + slashes), family) == base
                &&& endpoint_view("http://"@ + (address + slashes), family) == base
                &&& endpoint_view("https://"@ + (address + slashes), family) == Ok::<
                    DockerEndpointView,
                    ErrorView,
                >(DockerEndpointView::Http("https://"@ + address))
            },
{
    reveal_strlit("unix://");
    reveal_strlit("npipe://");
    reveal_strlit("tcp://");
    reveal_strlit("http://");
    reveal_strlit("https://");
    assert("npipe://"@[0] == 'n' && "tcp://"@[0] == 't' && "http://"@[0] == 'h' && "https://"@[0]
        == 'h' && "unix://"@[0] == 'u');
    assert("http://"@[4] == ':' && "https://"@[4] == 's');
    assert forall|slashes: Seq<char>|
        (forall|i: int| 0 <= i < slashes.len() ==> slashes[i] == '/') implies {
        let base = Ok::<DockerEndpointView, ErrorView>(
            DockerEndpointView::Http("http://"@ + address),
        );
        &&& #[trigger] endpoint_view("tcp://"@ + (address + slashes), family) == base
        &&& endpoint_view("http://"@ + (address + slashes), family) == base
        &&& endpoint_view("https://"@ + (address + slashes), family) == Ok::<
            DockerEndpointView,
            ErrorView,
        >(DockerEndpointView::Http("https://"@ + address))
    } by {
        let rest = address + slashes;
        lemma_prefix_goes("tcp://"@, rest);
        lemma_prefix_goes("http://"@, rest);
        lemma_prefix_goes("https://"@, rest);
        assert(("tcp://"@ + rest)[0] == 't');
        assert(("http://"@ + rest)[0] == 'h');
        assert(("https://"@ + rest)[0] == 'h');
        assert(("https://"@ + rest)[4] == 's');
        assert(("http://"@ + rest)[4] == ':');
        lemma_slashes_go(address, slashes);
        assert("http://"@ + rest =~= ("http://"@ + address) + slashes);
        lemma_slashes_go("http://"@ + address, slashes);
        assert("https://"@ + rest =~= ("https://"@ + address) + slashes);
        lemma_slashes_go("https://"@ + address, slashes);
    }
}

proof fn lemma_slashes_go(s: Seq<char>, slashes: Seq<char>)
    requires
        s.len() > 0,
        s.last() != '/',
        forall|i: int| 0 <= i < slashes.len() ==> slashes[i] == '/',
    ensures
        text::trim_end_char_view(s + slashes, '/') == s,
    decreases slashes.len(),
{
    if slashes.len() == 0 {
        assert(s + slashes =~= s);
    } else {
        assert((s + slashes).drop_last() =~= s + slashes.drop_last());
        assert((s + slashes).last() == slashes.last());
        lemma_slashes_go(s, slashes.drop_last());
    }
}

/// A host of no known kind is refused by name.
pub proof fn law_an_unknown_host_is_refused(host: Seq<char>, family: HostFamily)
    requires
        host.len() > 0 ==> host[0] != 'u' && host[0] != 'n' && host[0] != 't' && host[0] != 'h',
    ensures
        endpoint_view(host, family) == Err::<DockerEndpointView, ErrorView>(
            ErrorView::InvalidInput("unsupported docker host `"@ + host + "`"@),
        ),
{
    reveal_strlit("unix://");
    reveal_strlit("npipe://");
    reveal_strlit("tcp://");
    reveal_strlit("http://");
    reveal_strlit("https://");
    assert("npipe://"@[0] == 'n' && "tcp://"@[0] == 't' && "http://"@[0] == 'h' && "https://"@[0]
        == 'h' && "unix://"@[0] == 'u');
}

} // verus!
