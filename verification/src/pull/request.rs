//! What a pull is asked for.
use vstd::prelude::*;

use crate::cli::{ComposePullArgs, PullArgs, PullCommonArgs};
use crate::error::Result;
use crate::platform::{self, Platform};
use crate::pull::steps::{LoadMode, PullOptions, DEFAULT_BLOB_RETRIES};
use crate::registry::client::DEFAULT_REQUEST_RETRIES;
use crate::registry::types::{digests_of, digests_view, descriptors_view, ResolvedImage};
use crate::retry::{limit_view, retry_limit};
use crate::text::{self, texts};

verus! {

/// Which layers are downloaded, and how many at a time.
#[derive(Debug)]
pub struct PullDownloadConfig {
    pub platform: Option<String>,
    pub concurrency: usize,
}

/// How often requests and downloads are tried again; none means that there is no limit.
#[derive(Debug)]
pub struct RetryConfig {
    pub blob_retry_limit: Option<u32>,
    pub request_retry_limit: Option<u32>,
}

/// What is done with a pulled image.
#[derive(Debug)]
pub struct ImportConfig {
    pub no_load: bool,
    pub keep_layer_blobs: bool,
    pub load_mode: LoadMode,
}

/// How registries are reached.
#[derive(Debug)]
pub struct RegistryConfig {
    pub plain_http: bool,
    pub insecure_skip_tls_verify: bool,
    pub ca_file: Option<String>,
}

/// How the program shows itself to registries.
#[derive(Debug)]
pub struct AuthConfig {
    pub username: Option<String>,
    pub password_stdin: bool,
}

/// Where images are taken from before their own registry.
#[derive(Debug)]
pub struct CacheSourceConfig {
    pub cache_from: Option<String>,
    pub cache_only: bool,
}

/// What a pull is asked for.
#[derive(Debug)]
pub struct PullRequestOptions {
    pub download: PullDownloadConfig,
    pub image_concurrency: usize,
    pub retry: RetryConfig,
    pub import: ImportConfig,
    pub registry: RegistryConfig,
    pub auth: AuthConfig,
    pub quiet: bool,
    pub cache: CacheSourceConfig,
    pub no_animations: bool,
}

impl PullRequestOptions {
    /// What the arguments ask for.
    pub open spec fn asked(args: PullCommonArgs, no_animations: bool) -> PullRequestOptions {
        PullRequestOptions {
            download: PullDownloadConfig {
                platform: args.download.platform,
                concurrency: args.download.concurrency,
            },
            image_concurrency: args.image_concurrency,
            retry: RetryConfig {
                blob_retry_limit: limit_view(
                    args.retry.blob_retries,
                    args.retry.retry_forever,
                    DEFAULT_BLOB_RETRIES,
                ),
                request_retry_limit: limit_view(
                    args.retry.request_retries,
                    args.retry.retry_forever,
                    DEFAULT_REQUEST_RETRIES,
                ),
            },
            import: ImportConfig {
                no_load: args.import.no_load,
                keep_layer_blobs: args.import.keep_layer_blobs,
                load_mode: args.import.load_mode,
            },
            registry: RegistryConfig {
                plain_http: args.registry.plain_http,
                insecure_skip_tls_verify: args.registry.insecure_skip_tls_verify,
                ca_file: args.registry.ca_file,
            },
            auth: AuthConfig {
                username: args.auth.username,
                password_stdin: args.auth.password_stdin,
            },
            quiet: args.quiet,
            cache: CacheSourceConfig {
                cache_from: args.cache.cache_from,
                cache_only: args.cache.cache_only,
            },
            no_animations,
        }
    }

    /// Reads what the arguments of a pull ask for.
    pub fn from_args(args: PullCommonArgs, no_animations: bool) -> (r: PullRequestOptions)
        ensures
            r == PullRequestOptions::asked(args, no_animations),
    {
        PullRequestOptions {
            download: PullDownloadConfig {
                platform: args.download.platform,
                concurrency: args.download.concurrency,
            },
            image_concurrency: args.image_concurrency,
            retry: RetryConfig {
                blob_retry_limit: retry_limit(
                    args.retry.blob_retries,
                    args.retry.retry_forever,
                    DEFAULT_BLOB_RETRIES,
                ),
                request_retry_limit: retry_limit(
                    args.retry.request_retries,
                    args.retry.retry_forever,
                    DEFAULT_REQUEST_RETRIES,
                ),
            },
            import: ImportConfig {
                no_load: args.import.no_load,
                keep_layer_blobs: args.import.keep_layer_blobs,
                load_mode: args.import.load_mode,
            },
            registry: RegistryConfig {
                plain_http: args.registry.plain_http,
                insecure_skip_tls_verify: args.registry.insecure_skip_tls_verify,
                ca_file: args.registry.ca_file,
            },
            auth: AuthConfig {
                username: args.auth.username,
                password_stdin: args.auth.password_stdin,
            },
            quiet: args.quiet,
            cache: CacheSourceConfig {
                cache_from: args.cache.cache_from,
                cache_only: args.cache.cache_only,
            },
            no_animations,
        }
    }

    /// Reads what a pull is asked for, and which images.
    pub fn from_pull_args(args: PullArgs) -> (r: (Vec<String>, PullRequestOptions))
        ensures
            r.0 == args.references,
            r.1 == PullRequestOptions::asked(args.common, args.no_animations),
    {
        (args.references, PullRequestOptions::from_args(args.common, args.no_animations))
    }

    /// Reads what a pull of a project is asked for. Its output is not animated.
    pub fn from_compose_pull_args(args: ComposePullArgs) -> (r: PullRequestOptions)
        ensures
            r == PullRequestOptions::asked(args.common, true),
    {
        PullRequestOptions::from_args(args.common, true)
    }

    /// How each image is pulled.
    pub open spec fn image_options(self) -> PullOptions {
        PullOptions {
            concurrency: if self.download.concurrency < 1 {
                1
            } else {
                self.download.concurrency
            },
            no_load: self.import.no_load,
            keep_layer_blobs: self.import.keep_layer_blobs,
            load_mode: self.import.load_mode,
        }
    }

    /// How each image is pulled. At least one layer is downloaded at a time.
    pub fn pull_options(&self) -> (r: PullOptions)
        ensures
            r == self.image_options(),
    {
        PullOptions {
            concurrency: if self.download.concurrency < 1 {
                1
            } else {
                self.download.concurrency
            },
            no_load: self.import.no_load,
            keep_layer_blobs: self.import.keep_layer_blobs,
            load_mode: self.import.load_mode,
        }
    }

    /// How many images are pulled at a time: at least one.
    pub fn images_at_a_time(&self) -> (n: usize)
        ensures
            n == if self.image_concurrency < 1 {
                1
            } else {
                self.image_concurrency
            },
    {
        if self.image_concurrency < 1 {
            1
        } else {
            self.image_concurrency
        }
    }

    /// The platform of the images: the one that is asked for, or the one of the machine.
    pub fn platform(&self, host: &Platform) -> (r: Result<Platform>)
        ensures
            match self.download.platform {
                Some(asked) => match platform::parsed(asked@) {
                    Ok(p) => r matches Ok(q) && q@ == p,
                    Err(error) => r matches Err(e) && e@ == error,
                },
                None => r matches Ok(q) && q@ == host@,
            },
    {
        match &self.download.platform {
            Some(asked) => Platform::parse(asked.as_str()),
            None => Ok(host.copy()),
        }
    }

    /// Whether requests may go over plain HTTP: where that is asked for, or the cache is reached
    /// that way. `scheme` is the scheme of the cache's address.
    pub fn allows_plain_http(&self, scheme: Option<&str>) -> (r: bool)
        ensures
            r == (self.registry.plain_http || (scheme matches Some(s) && s@ == "http"@)),
    {
        if self.registry.plain_http {
            return true;
        }
        match scheme {
            Some(s) => text::same(s, "http"),
            None => false,
        }
    }
}

/// The result for a place: the last one that was given for it.
pub open spec fn result_for<T>(results: Seq<(usize, T)>, place: int) -> Option<T>
    decreases results.len(),
{
    if results.len() == 0 {
        None
    } else if results.last().0 == place {
        Some(results.last().1)
    } else {
        result_for(results.drop_last(), place)
    }
}

/// The results for the first `n` places, in the order of the places.
pub open spec fn in_order<T>(results: Seq<(usize, T)>, n: nat) -> Seq<T>
    decreases n,
{
    if n == 0 {
        seq![]
    } else {
        match result_for(results, n - 1) {
            Some(value) => in_order(results, (n - 1) as nat).push(value),
            None => in_order(results, (n - 1) as nat),
        }
    }
}

/// Brings results that came in any order, each with its place, into the order of the places.
pub fn place_in_order<T>(results: Vec<(usize, T)>, n: usize) -> (out: Vec<T>)
    requires
        forall|k: int| 0 <= k < results@.len() ==> (#[trigger] results@[k]).0 < n,
    ensures
        out@ == in_order(results@, n as nat),
{
    let mut slots: Vec<Option<T>> = Vec::new();
    let mut i: usize = 0;
    while i < n
        invariant
            i <= n,
            slots@.len() == i,
            forall|k: int| 0 <= k < i ==> (#[trigger] slots@[k]) is None,
        decreases n - i,
    {
        slots.push(None);
        i += 1;
    }
    let ghost all = results@;
    assert(all.take(0) =~= Seq::<(usize, T)>::empty());
    for result in it: results
        invariant
            it.seq() == all,
            slots@.len() == n,
            forall|k: int| 0 <= k < all.len() ==> (#[trigger] all[k]).0 < n,
            forall|k: int|
                0 <= k < n ==> (#[trigger] slots@[k]) == result_for(all.take(it.index()), k),
    {
        let ghost at = it.index();
        let ghost before = slots@;
        assert(all[at].0 < n);
        assert(all.take(at + 1).drop_last() =~= all.take(at));
        assert(all.take(at + 1).last() == all[at]);
        let (place, value) = result;
        slots.set(place, Some(value));
    }
    assert(all.take(all.len() as int) =~= all);
    let ghost filled = slots@;
    let mut out: Vec<T> = Vec::new();
    for slot in it: slots
        invariant
            it.seq() == filled,
            filled.len() == n,
            forall|k: int| 0 <= k < n ==> (#[trigger] filled[k]) == result_for(all, k),
            out@ == in_order(all, it.index() as nat),
    {
        let ghost at = it.index();
        assert(filled[at] == result_for(all, at));
        match slot {
            Some(value) => {
                out.push(value);
            },
            None => {},
        }
    }
    out
}

/// The digests of the layers of resolved images.
pub open spec fn layer_digests_view(images: Seq<ResolvedImage>) -> Seq<Seq<Seq<char>>> {
    images.map_values(|i: ResolvedImage| digests_view(descriptors_view(i.layers@)))
}

/// Lists the digests of the layers of resolved images.
pub fn layer_digests(images: &Vec<ResolvedImage>) -> (r: Vec<Vec<String>>)
    ensures
        r@.map_values(|l: Vec<String>| texts(l@)) == layer_digests_view(images@),
{
    let ghost goal = layer_digests_view(images@);
    let mut out: Vec<Vec<String>> = Vec::new();
    let mut i: usize = 0;
    while i < images.len()
        invariant
            i <= images@.len(),
            goal == layer_digests_view(images@),
            out@.map_values(|l: Vec<String>| texts(l@)) == goal.take(i as int),
        decreases images@.len() - i,
    {
        let ghost before = out@.map_values(|l: Vec<String>| texts(l@));
        let digests = digests_of(&images[i].layers);
        out.push(digests);
        assert(out@.map_values(|l: Vec<String>| texts(l@)) =~= before.push(texts(digests@)));
        assert(goal.take(i + 1) =~= goal.take(i as int).push(texts(digests@)));
        i += 1;
    }
    assert(goal.take(i as int) =~= goal);
    out
}

/// A pull is asked for what its arguments say; a number of tries that is not given is eight for
/// downloads and five for requests.
pub proof fn law_a_pull_is_asked_for_what_is_given(args: PullCommonArgs, no_animations: bool)
    ensures
        ({
            let r = PullRequestOptions::asked(args, no_animations);
            &&& r.download.platform == args.download.platform
            &&& r.download.concurrency == args.download.concurrency
            &&& r.image_concurrency == args.image_concurrency
            &&& r.import.no_load == args.import.no_load
            &&& r.import.keep_layer_blobs == args.import.keep_layer_blobs
            &&& r.import.load_mode == args.import.load_mode
            &&& r.registry.plain_http == args.registry.plain_http
            &&& r.registry.insecure_skip_tls_verify == args.registry.insecure_skip_tls_verify
            &&& r.registry.ca_file == args.registry.ca_file
            &&& r.auth.username == args.auth.username
            &&& r.auth.password_stdin == args.auth.password_stdin
            &&& r.quiet == args.quiet
            &&& r.cache.cache_from == args.cache.cache_from
            &&& r.cache.cache_only == args.cache.cache_only
            &&& r.no_animations == no_animations
            &&& args.retry.blob_retries is None && !args.retry.retry_forever
                ==> r.retry.blob_retry_limit == Some(8u32)
            &&& args.retry.request_retries is None && !args.retry.retry_forever
                ==> r.retry.request_retry_limit == Some(5u32)
            &&& args.retry.blob_retries matches Some(n) ==> (n > 0 ==> r.retry.blob_retry_limit
                == Some(n))
            &&& args.retry.request_retries matches Some(n) ==> (n > 0
                ==> r.retry.request_retry_limit == Some(n))
            &&& args.retry.blob_retries == Some(0u32) || (args.retry.blob_retries is None
                && args.retry.retry_forever) ==> r.retry.blob_retry_limit is None
            &&& args.retry.request_retries == Some(0u32) || (args.retry.request_retries is None
                && args.retry.retry_forever) ==> r.retry.request_retry_limit is None
            &&& r.image_options().no_load == args.import.no_load
            &&& r.image_options().keep_layer_blobs == args.import.keep_layer_blobs
            &&& r.image_options().load_mode == args.import.load_mode
            &&& r.image_options().concurrency == vstd::math::max(
                args.download.concurrency as int,
                1,
            )
        }),
{
}

/// Whether a result came for a place.
pub open spec fn has_place<T>(results: Seq<(usize, T)>, place: int) -> bool {
    exists|i: int| 0 <= i < results.len() && (#[trigger] results[i]).0 == place
}

/// The result for a place is the one that came with it, where one came.
proof fn lemma_result_for<T>(results: Seq<(usize, T)>, k: int)
    requires
        0 <= k < results.len(),
        forall|i: int, j: int|
            0 <= i < j < results.len() ==> (#[trigger] results[i]).0 != (#[trigger] results[j]).0,
    ensures
        result_for(results, results[k].0 as int) == Some(results[k].1),
    decreases results.len(),
{
    if k < results.len() - 1 {
        let before = results.drop_last();
        assert forall|i: int, j: int| 0 <= i < j < before.len() implies (#[trigger] before[i]).0
            != (#[trigger] before[j]).0 by {
            assert(before[i] == results[i] && before[j] == results[j]);
        }
        lemma_result_for(before, k);
        assert(before[k] == results[k]);
        assert(results[results.len() - 1] == results.last());
    }
}

/// Results that came in any order, one for each place, are brought into the order of the places.
pub proof fn law_results_are_brought_into_order<T>(results: Seq<(usize, T)>, n: nat, k: int)
    requires
        0 <= k < results.len(),
        results[k].0 < n,
        forall|i: int, j: int|
            0 <= i < j < results.len() ==> (#[trigger] results[i]).0 != (#[trigger] results[j]).0,
        forall|place: int| 0 <= place < n ==> #[trigger] has_place(results, place),
    ensures
        in_order(results, n).len() == n,
        in_order(results, n)[results[k].0 as int] == results[k].1,
    decreases n,
{
    let last = n - 1;
    assert(has_place(results, last));
    let i = choose|i: int| 0 <= i < results.len() && (#[trigger] results[i]).0 == last;
    lemma_result_for(results, i);
    lemma_result_for(results, k);
    if results[k].0 < last {
        law_results_are_brought_into_order(results, last as nat, k);
    } else {
        lemma_in_order_len(results, last as nat);
    }
}

proof fn lemma_in_order_len<T>(results: Seq<(usize, T)>, n: nat)
    requires
        forall|i: int, j: int|
            0 <= i < j < results.len() ==> (#[trigger] results[i]).0 != (#[trigger] results[j]).0,
        forall|place: int| 0 <= place < n ==> #[trigger] has_place(results, place),
    ensures
        in_order(results, n).len() == n,
    decreases n,
{
    if n > 0 {
        let last = n - 1;
        assert(has_place(results, last));
        let i = choose|i: int| 0 <= i < results.len() && (#[trigger] results[i]).0 == last;
        lemma_result_for(results, i);
        lemma_in_order_len(results, last as nat);
    }
}

} // verus!
