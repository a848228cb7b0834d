//! Rules for the clients that talk to the registries.
use crate::error::{ErrorKind, ProxyError};
use crate::routes::RegistryOrigins;
use crate::weburl::{matches_origin, url_parse, Url, UrlView};
use vstd::prelude::*;
use vstd::string::*;

verus! {

/// How many redirects a package request follows.
pub const MAX_PACKAGE_REDIRECTS: usize = 10;

/// The views of a list of URLs.
pub open spec fn urls_view(v: Seq<Url>) -> Seq<UrlView> {
    v.map_values(|u: Url| u@)
}

/// A redirect to `next` is followed: not too many were, and it stays on the origin of the
/// first request and carries no credentials.
pub open spec fn redirect_allowed(next: UrlView, previous: Seq<UrlView>) -> bool {
    &&& 0 < previous.len() <= MAX_PACKAGE_REDIRECTS
    &&& next.same_origin(previous[0])
    &&& next.without_credentials()
}

/// Tells whether a redirect is followed.
pub fn package_redirect_allowed(next: &Url, previous: &Vec<Url>) -> (r: bool)
    ensures
        r == redirect_allowed(next@, urls_view(previous@)),
{
    previous.len() > 0 && previous.len() <= MAX_PACKAGE_REDIRECTS && matches_origin(
        next,
        &previous[0],
    ) && next.without_credentials()
}

/// The registries of a test: all at one address, which has to be a loopback address.
pub fn loopback_upstreams(addr: &str, is_loopback: bool) -> (r: Result<RegistryOrigins, ProxyError>)
    ensures
        if !is_loopback {
            r matches Err(e) && e.is(
                ErrorKind::InvalidInput,
                "test upstream must use a loopback address"@,
            )
        } else {
            match url_parse("http://"@ + addr@ + "/"@) {
                Ok(u) => r matches Ok(o) && o.cargo_download@ == u && o.cargo_index@ == u
                    && o.github@ == u && o.npm@ == u && o.pypi_files@ == u && o.pypi_simple@ == u,
                Err(message) => r matches Err(e) && e.is(ErrorKind::InvalidInput, message),
            }
        },
{
    if !is_loopback {
        return Err(
            ProxyError::new(ErrorKind::InvalidInput, "test upstream must use a loopback address"),
        );
    }
    match RegistryOrigins::loopback(addr) {
        Ok(origins) => Ok(origins),
        Err(message) => Err(ProxyError { kind: ErrorKind::InvalidInput, message }),
    }
}

/// A chain of requests in which every redirect was allowed.
pub open spec fn is_followed(chain: Seq<UrlView>) -> bool
    decreases chain.len(),
{
    chain.len() <= 1 || (is_followed(chain.drop_last()) && redirect_allowed(
        chain.last(),
        chain.drop_last(),
    ))
}

/// However often upstream redirects, every request goes to the origin of the first one,
/// without credentials after the first, and no more than the allowed number of redirects is
/// followed.
pub proof fn redirects_stay_on_the_origin(chain: Seq<UrlView>)
    requires
        chain.len() > 0,
        is_followed(chain),
    ensures
        chain.len() <= MAX_PACKAGE_REDIRECTS + 1,
        forall|i: int| 0 < i < chain.len() ==> (#[trigger] chain[i]).same_origin(chain[0])
            && chain[i].without_credentials(),
    decreases chain.len(),
{
    if chain.len() > 1 {
        let before = chain.drop_last();
        redirects_stay_on_the_origin(before);
        assert forall|i: int| 0 < i < chain.len() implies (#[trigger] chain[i]).same_origin(
            chain[0],
        ) && chain[i].without_credentials() by {
            if i < before.len() {
                assert(before[i] == chain[i]);
            }
        }
    }
}

/// A redirect is followed where it is one of the first ten, stays on scheme, host and port of the
/// first request, and carries neither a user name nor a password; no other is.
pub proof fn redirects_are_followed_on_the_origin(next: UrlView, previous: Seq<UrlView>)
    ensures
        redirect_allowed(next, previous) <==> 1 <= previous.len() <= 10 && next.same_origin(
            previous[0],
        ) && next.username.len() == 0 && next.password is None,
{
}

/// What is shown of a chain of requests is each URL, in their order.
pub proof fn chains_show_their_urls(chain: Seq<Url>, i: int)
    ensures
        MAX_PACKAGE_REDIRECTS == 10,
        urls_view(chain).len() == chain.len(),
        0 <= i < chain.len() ==> urls_view(chain)[i] == chain[i]@,
{
}

} // verus!
