//! Packuments, tarballs, search and audits.
use crate::cache::{CacheStore, CacheView, FETCHES_EXHAUSTED};
use crate::error::{ErrorKind, ProxyError};
use crate::http::{
    headers_view, path_tail, raw_path_tail, tails_follow_their_prefix, Header, RequestTarget,
};
use crate::packages::{is_artifact_request, is_metadata_request, ArtifactRequest, MetadataRequest};
use crate::packument::{is_tarball_link, tarball_target};
use crate::paths::{
    canonical_path_characters, canonical_path_text, canonical_rewrite,
    canonical_rewrite_is_idempotent, canonical_segment_text,
};
use crate::proxy::MetadataRewrite;
use crate::routes::{
    built, join_url, joined, npm_packument_url, npm_tarball_url, opt_url, packument_path,
    packuments_lie_at_the_name_of_their_package, scoped_packuments_lie_at_scope_and_name,
    urls_are_built_by_joining, with_query, with_query_text, RegistryOrigins,
};
use crate::stats::{AppStats, StatsView, UPSTREAM_NPM};
use crate::text::{eq_ignore_ascii_case, opt_text, same, same_ignoring_case, texts};
use crate::weburl::{query_pair_names, url_parse, Url, UrlView};
use vstd::prelude::*;
use vstd::string::*;

verus! {

/// The body of an audit request is not read past this.
pub const MAX_AUDIT_REQUEST_BODY_BYTES: usize = 8_388_608;

/// The identity of packuments with links to `origin`.
pub open spec fn npm_identity(origin: Seq<char>) -> Seq<char> {
    "npm:v2:"@ + origin
}

/// Where a packument comes from.
pub open spec fn packument_upstream(target: &RequestTarget, upstreams: &RegistryOrigins) -> Option<
    UrlView,
> {
    match path_tail(target, "/npm/"@) {
        Some(package) => match packument_path(package) {
            Some(path) => built(upstreams.npm@, path),
            None => None,
        },
        None => None,
    }
}

/// A request for a packument.
pub fn packument_request(target: &RequestTarget, upstreams: &RegistryOrigins, origin: &str) -> (r:
    Option<MetadataRequest>)
    ensures
        is_metadata_request(
            r,
            packument_upstream(target, upstreams),
            UPSTREAM_NPM@,
            npm_identity(origin@),
        ),
{
    match raw_path_tail(target, "/npm/") {
        Some(package) => match npm_packument_url(upstreams, package) {
            Some(upstream) => Some(
                MetadataRequest {
                    upstream,
                    label: UPSTREAM_NPM,
                    rewrite: MetadataRewrite::Npm(origin.to_owned()),
                },
            ),
            None => None,
        },
        None => None,
    }
}

/// Where a tarball comes from.
pub open spec fn tarball_upstream(target: &RequestTarget, upstreams: &RegistryOrigins) -> Option<
    UrlView,
> {
    match path_tail(target, "/npm/tarballs/"@) {
        Some(path) => joined(upstreams.npm@, path),
        None => None,
    }
}

/// A request for a tarball.
pub fn tarball_request(target: &RequestTarget, upstreams: &RegistryOrigins) -> (r: Option<
    ArtifactRequest,
>)
    ensures
        is_artifact_request(r, tarball_upstream(target, upstreams), UPSTREAM_NPM@),
{
    match raw_path_tail(target, "/npm/tarballs/") {
        Some(path) => match npm_tarball_url(path, upstreams) {
            Some(upstream) => Some(ArtifactRequest { upstream, label: UPSTREAM_NPM }),
            None => None,
        },
        None => None,
    }
}

// ---------------------------------------------------------------------------
// Search
// ---------------------------------------------------------------------------

/// A parameter that search takes.
pub open spec fn is_search_parameter(name: Seq<char>) -> bool {
    name == "text"@ || name == "size"@ || name == "from"@ || name == "quality"@ || name
        == "popularity"@ || name == "maintenance"@
}

/// Search takes every one of the parameters.
pub open spec fn are_search_parameters(names: Seq<Seq<char>>) -> bool {
    forall|i: int| 0 <= i < names.len() ==> is_search_parameter(#[trigger] names[i])
}

/// Tells whether search takes every one of the parameters.
pub fn allowed_search_parameters(names: &Vec<String>) -> (r: bool)
    ensures
        r == are_search_parameters(texts(names@)),
{
    let mut i: usize = 0;
    let ghost all = texts(names@);
    while i < names.len()
        invariant
            i <= names.len(),
            all == texts(names@),
            forall|j: int| 0 <= j < i ==> is_search_parameter(#[trigger] all[j]),
        decreases names.len() - i,
    {
        let name = names[i].as_str();
        proof {
            assert(all[i as int] == name@);
        }
        if !(same(name, "text") || same(name, "size") || same(name, "from") || same(name, "quality")
            || same(name, "popularity") || same(name, "maintenance")) {
            return false;
        }
        i = i + 1;
    }
    true
}

/// The URL of a search: the path of search with the query of the request.
pub open spec fn search_url(query: Option<Seq<char>>, upstreams: &RegistryOrigins) -> Option<
    UrlView,
> {
    match joined(upstreams.npm@, "-/v1/search"@) {
        Some(base) => match query {
            Some(q) => with_query_text(base, q),
            None => Some(base),
        },
        None => None,
    }
}

/// Where a search is forwarded to: only a query of known parameters is.
pub open spec fn search_upstream(target: &RequestTarget, upstreams: &RegistryOrigins) -> Option<
    UrlView,
> {
    if target.path@ == "/npm/-/v1/search"@ {
        match search_url(opt_text(target.query), upstreams) {
            Some(url) => match url.query {
                Some(q) => if are_search_parameters(query_pair_names(q)) {
                    Some(url)
                } else {
                    None
                },
                None => Some(url),
            },
            None => None,
        }
    } else {
        None
    }
}

/// Where a search is forwarded to.
pub fn search_request(target: &RequestTarget, upstreams: &RegistryOrigins) -> (r: Option<Url>)
    ensures
        opt_url(r) == search_upstream(target, upstreams),
{
    if !same(target.path.as_str(), "/npm/-/v1/search") {
        return None;
    }
    let base = match join_url(&upstreams.npm, "-/v1/search") {
        Some(base) => base,
        None => return None,
    };
    let url = match &target.query {
        Some(query) => match with_query(&base, query.as_str()) {
            Some(url) => url,
            None => return None,
        },
        None => base,
    };
    let names = url.query_pair_names();
    if allowed_search_parameters(&names) {
        Some(url)
    } else {
        None
    }
}

// ---------------------------------------------------------------------------
// Audits
// ---------------------------------------------------------------------------

/// The path of an audit in the registry.
pub open spec fn audit_path(path: Seq<char>) -> Option<Seq<char>> {
    if path == "/npm/-/npm/v1/security/advisories/bulk"@ {
        Some("-/npm/v1/security/advisories/bulk"@)
    } else if path == "/npm/-/npm/v1/security/audits/quick"@ {
        Some("-/npm/v1/security/audits/quick"@)
    } else {
        None
    }
}

/// Where an audit is forwarded to.
pub open spec fn audit_upstream(target: &RequestTarget, upstreams: &RegistryOrigins) -> Option<
    UrlView,
> {
    match audit_path(target.path@) {
        Some(path) => if target.query is None {
            joined(upstreams.npm@, path)
        } else {
            None
        },
        None => None,
    }
}

/// Where an audit is forwarded to.
pub fn audit_request(target: &RequestTarget, upstreams: &RegistryOrigins) -> (r: Option<Url>)
    ensures
        opt_url(r) == audit_upstream(target, upstreams),
{
    if target.query.is_some() {
        return None;
    }
    let path = target.path.as_str();
    if same(path, "/npm/-/npm/v1/security/advisories/bulk") {
        join_url(&upstreams.npm, "-/npm/v1/security/advisories/bulk")
    } else if same(path, "/npm/-/npm/v1/security/audits/quick") {
        join_url(&upstreams.npm, "-/npm/v1/security/audits/quick")
    } else {
        None
    }
}

/// The first field with the name, if there is one.
pub open spec fn first_header(headers: Seq<(Seq<char>, Seq<u8>)>, name: Seq<char>) -> Seq<
    (Seq<char>, Seq<u8>),
>
    decreases headers.len(),
{
    if headers.len() == 0 {
        Seq::empty()
    } else if same_ignoring_case(headers[0].0, name) {
        seq![headers[0]]
    } else {
        first_header(headers.drop_first(), name)
    }
}

fn push_first_header(out: &mut Vec<Header>, headers: &Vec<Header>, name: &str)
    ensures
        headers_view(final(out)@) == headers_view(old(out)@) + first_header(
            headers_view(headers@),
            name@,
        ),
{
    let ghost all = headers_view(headers@);
    let ghost start = headers_view(out@);
    let mut i: usize = 0;
    proof {
        assert(all.skip(0) =~= all);
    }
    while i < headers.len()
        invariant
            i <= headers.len(),
            all == headers_view(headers@),
            start == headers_view(old(out)@),
            out@ == old(out)@,
            first_header(all, name@) == first_header(all.skip(i as int), name@),
        decreases headers.len() - i,
    {
        proof {
            assert(all.skip(i as int)[0] == headers@[i as int]@);
            assert(all.skip(i as int).drop_first() =~= all.skip(i + 1));
        }
        if eq_ignore_ascii_case(headers[i].name.as_str(), name) {
            out.push(headers[i].clone());
            proof {
                assert(headers_view(out@) =~= start + seq![all[i as int]]);
            }
            return ;
        }
        i = i + 1;
    }
    proof {
        assert(all.skip(i as int) =~= Seq::<(Seq<char>, Seq<u8>)>::empty());
        assert(start + Seq::<(Seq<char>, Seq<u8>)>::empty() =~= start);
    }
}

/// The fields of an audit request that are forwarded: those that say what its body is.
pub fn audit_headers(headers: &Vec<Header>) -> (r: Vec<Header>)
    ensures
        headers_view(r@) == first_header(headers_view(headers@), "content-type"@) + first_header(
            headers_view(headers@),
            "content-encoding"@,
        ),
{
    let mut out: Vec<Header> = Vec::new();
    push_first_header(&mut out, headers, "content-type");
    push_first_header(&mut out, headers, "content-encoding");
    proof {
        assert(headers_view(out@) =~= first_header(headers_view(headers@), "content-type"@)
            + first_header(headers_view(headers@), "content-encoding"@));
    }
    out
}

// ---------------------------------------------------------------------------
// Admission
// ---------------------------------------------------------------------------

/// What a search or an audit leads to before anything of it is read or sent.
#[derive(Debug)]
pub enum NpmAdmission {
    /// There is no such resource.
    Refused,
    /// Too many fetches are under way.
    Exhausted(ProxyError),
    /// It is forwarded to this URL, and counts as a fetch under way until that is over.
    Forward(Url),
}

impl NpmAdmission {
    /// What a request that is to be forwarded to `upstream` leads to.
    pub open spec fn answers(&self, upstream: Option<UrlView>, store: CacheView) -> bool {
        match upstream {
            None => self is Refused,
            Some(url) => if store.free_fetches > 0 {
                self matches NpmAdmission::Forward(u) && u@ == url
            } else {
                self matches NpmAdmission::Exhausted(e) && e.is(
                    ErrorKind::WouldBlock,
                    FETCHES_EXHAUSTED@,
                )
            },
        }
    }
}

/// The state of the cache after a request that is to be forwarded to `upstream`.
pub open spec fn admitted_to(store: CacheView, upstream: Option<UrlView>) -> CacheView {
    if upstream is Some {
        store.permitted()
    } else {
        store
    }
}

/// The counters after a search.
pub open spec fn search_counted(stats: StatsView, upstream: Option<UrlView>) -> StatsView {
    if upstream is Some {
        StatsView { npm_search_requests: (stats.npm_search_requests + 1) as usize, ..stats }
    } else {
        stats
    }
}

/// The counters after an audit.
pub open spec fn audit_counted(stats: StatsView, upstream: Option<UrlView>) -> StatsView {
    if upstream is Some {
        StatsView { npm_audit_requests: (stats.npm_audit_requests + 1) as usize, ..stats }
    } else {
        stats
    }
}

fn take_in(url: Url, store: &mut CacheStore) -> (r: NpmAdmission)
    requires
        old(store).wf(),
    ensures
        final(store).wf(),
        final(store)@ == old(store)@.permitted(),
        r.answers(Some(url@), old(store)@),
{
    match store.try_acquire_upstream_permit() {
        Ok(()) => NpmAdmission::Forward(url),
        Err(error) => NpmAdmission::Exhausted(error),
    }
}

/// Takes a search in: one that is not to be forwarded leaves no trace; any other is counted,
/// and then admitted where the capacity is not exhausted.
pub fn admit_search(
    target: &RequestTarget,
    upstreams: &RegistryOrigins,
    store: &mut CacheStore,
    stats: &mut AppStats,
) -> (r: NpmAdmission)
    requires
        old(store).wf(),
        old(stats).wf(),
        old(stats)@.npm_search_requests < usize::MAX,
    ensures
        final(store).wf(),
        final(stats).wf(),
        r.answers(search_upstream(target, upstreams), old(store)@),
        final(store)@ == admitted_to(old(store)@, search_upstream(target, upstreams)),
        final(stats)@ == search_counted(old(stats)@, search_upstream(target, upstreams)),
{
    match search_request(target, upstreams) {
        Some(url) => {
            stats.record_npm_search_request();
            take_in(url, store)
        },
        None => NpmAdmission::Refused,
    }
}

/// Takes an audit in: one that is not to be forwarded leaves no trace; any other is counted,
/// and then admitted where the capacity is not exhausted.
pub fn admit_audit(
    target: &RequestTarget,
    upstreams: &RegistryOrigins,
    store: &mut CacheStore,
    stats: &mut AppStats,
) -> (r: NpmAdmission)
    requires
        old(store).wf(),
        old(stats).wf(),
        old(stats)@.npm_audit_requests < usize::MAX,
    ensures
        final(store).wf(),
        final(stats).wf(),
        r.answers(audit_upstream(target, upstreams), old(store)@),
        final(store)@ == admitted_to(old(store)@, audit_upstream(target, upstreams)),
        final(stats)@ == audit_counted(old(stats)@, audit_upstream(target, upstreams)),
{
    match audit_request(target, upstreams) {
        Some(url) => {
            stats.record_npm_audit_request();
            take_in(url, store)
        },
        None => NpmAdmission::Refused,
    }
}

// ---------------------------------------------------------------------------
// Laws
// ---------------------------------------------------------------------------

/// A rewritten tarball link leads back to its tarball: behind the public origin stands the
/// path of a request that is served from the same path of the registry, in its canonical
/// spelling.
pub proof fn tarball_links_lead_to_their_tarballs(
    link: Seq<char>,
    path: Seq<char>,
    upstreams: &RegistryOrigins,
    origin: Seq<char>,
    target: &RequestTarget,
)
    requires
        url_parse(link) matches Ok(u) && is_tarball_link(u, upstreams) && canonical_rewrite(u.path)
            == Some(path),
        target.query is None,
        target.path@ == "/npm/tarballs/"@ + path,
    ensures
        tarball_target(link, upstreams, origin) == Some(origin + target.path@),
        canonical_path_text(path),
        tarball_upstream(target, upstreams) == joined(upstreams.npm@, path),
{
    let u = url_parse(link)->Ok_0;
    canonical_rewrite_is_idempotent(u.path);
    canonical_path_characters(path);
    let front = "/npm/tarballs/"@;
    assert(front =~= target.path@.subrange(0, front.len() as int));
    assert(target.path@.skip(front.len() as int) =~= path);
    assert(origin + front + path =~= origin + target.path@);
}

/// Search and audits never leave the registry, and nothing but known parameters, and nothing
/// at all for an audit, is forwarded as a query.
pub proof fn utilities_stay_on_the_registry(target: &RequestTarget, upstreams: &RegistryOrigins)
    ensures
        search_upstream(target, upstreams) matches Some(u) ==> u.same_origin(upstreams.npm@)
            && u.path == upstreams.npm@.path + "-/v1/search"@ && u.fragment is None && (
        u.query matches Some(q) ==> are_search_parameters(query_pair_names(q))),
        audit_upstream(target, upstreams) matches Some(u) ==> u.same_origin(upstreams.npm@)
            && u.query is None && u.fragment is None,
{
}

/// The packument of a package is read from its name behind the base of the registry, and from
/// nowhere else: a name that does not begin with `@` as it stands, where it is one canonical
/// segment; a scoped one with the slash escaped in capitals. A request with a query has none.
pub proof fn packuments_come_from_the_name_of_their_package(
    target: &RequestTarget,
    upstreams: &RegistryOrigins,
    package: Seq<char>,
)
    requires
        package.len() > 0,
        target.path@ == "/npm/"@ + package,
    ensures
        target.query is Some ==> packument_upstream(target, upstreams) is None,
        target.query is None && package[0] != '@' && canonical_segment_text(package)
            ==> packument_upstream(target, upstreams) == built(upstreams.npm@, package),
        target.query is None && package[0] != '@' && !canonical_segment_text(package)
            ==> packument_upstream(target, upstreams) is None,
        package[0] != '@' ==> (packument_upstream(target, upstreams) matches Some(u)
            ==> u.same_origin(upstreams.npm@) && u.path == upstreams.npm@.path + package
            && u.query is None && u.fragment is None),
{
    tails_follow_their_prefix(target, "/npm/"@, package);
    if package[0] != '@' {
        packuments_lie_at_the_name_of_their_package(package);
    }
    if let Some(u) = packument_upstream(target, upstreams) {
        urls_are_built_by_joining(upstreams.npm@, package, u);
    }
}

/// The packument of a scoped package is read from scope and name with `%2F` between them behind
/// the base of the registry, whichever case the request writes the escape in.
pub proof fn scoped_packuments_come_from_scope_and_name(
    target: &RequestTarget,
    upstreams: &RegistryOrigins,
    scope: Seq<char>,
    name: Seq<char>,
)
    requires
        scope.len() > 1 && scope[0] == '@',
        canonical_segment_text(scope),
        canonical_segment_text(name),
        target.query is None,
        target.path@ == "/npm/"@ + (scope + "%2F"@ + name) || target.path@ == "/npm/"@ + (scope
            + "%2f"@ + name),
    ensures
        packument_upstream(target, upstreams) == built(
            upstreams.npm@,
            scope + "%2F"@ + name,
        ),
        packument_upstream(target, upstreams) matches Some(u) ==> u.same_origin(upstreams.npm@)
            && u.path == upstreams.npm@.path + (scope + "%2F"@ + name) && u.query is None
            && u.fragment is None,
{
    tails_follow_their_prefix(target, "/npm/"@, scope + "%2F"@ + name);
    tails_follow_their_prefix(target, "/npm/"@, scope + "%2f"@ + name);
    scoped_packuments_lie_at_scope_and_name(scope, name);
    if let Some(u) = packument_upstream(target, upstreams) {
        urls_are_built_by_joining(upstreams.npm@, scope + "%2F"@ + name, u);
    }
}

/// A tarball is read from its own path on the registry; a request with a query, or for anything
/// else, has none.
pub proof fn tarballs_come_from_the_registry(
    target: &RequestTarget,
    upstreams: &RegistryOrigins,
    path: Seq<char>,
)
    ensures
        target.query is None && path.len() > 0 && target.path@ == "/npm/tarballs/"@ + path
            ==> tarball_upstream(target, upstreams) == joined(upstreams.npm@, path),
        target.query is Some ==> tarball_upstream(target, upstreams) is None,
        tarball_upstream(target, upstreams) matches Some(u) ==> {
            &&& u.same_origin(upstreams.npm@)
            &&& "/npm/tarballs/"@ + u.path.skip(upstreams.npm@.path.len() as int) == target.path@
            &&& u.query is None && u.fragment is None
        },
{
    tails_follow_their_prefix(target, "/npm/tarballs/"@, path);
    if let Some(tail) = path_tail(target, "/npm/tarballs/"@) {
        tails_follow_their_prefix(target, "/npm/tarballs/"@, tail);
        if let Some(u) = tarball_upstream(target, upstreams) {
            assert(u.path.skip(upstreams.npm@.path.len() as int) =~= tail);
        }
    }
}

/// Search takes six parameters, as often as they come and in any order, and no other.
pub proof fn search_takes_six_parameters(names: Seq<Seq<char>>, name: Seq<char>)
    ensures
        are_search_parameters(Seq::empty()),
        are_search_parameters(names.push(name)) <==> are_search_parameters(names) && (name
            == "text"@ || name == "size"@ || name == "from"@ || name == "quality"@ || name
            == "popularity"@ || name == "maintenance"@),
{
    let all = names.push(name);
    if are_search_parameters(all) {
        assert(is_search_parameter(all[names.len() as int]));
        assert forall|i: int| 0 <= i < names.len() implies is_search_parameter(
            #[trigger] names[i],
        ) by {
            assert(all[i] == names[i]);
        }
    }
    if are_search_parameters(names) && is_search_parameter(name) {
        assert forall|i: int| 0 <= i < all.len() implies is_search_parameter(#[trigger] all[i]) by {
            if i < names.len() {
                assert(all[i] == names[i]);
            }
        }
    }
}

/// A search goes to the search of the registry, with the query of the request as it was sent
/// where search takes every parameter in it, and without one where there is none.
pub proof fn searches_keep_their_query(
    target: &RequestTarget,
    upstreams: &RegistryOrigins,
    base: UrlView,
    query: Seq<char>,
    u: UrlView,
)
    requires
        joined(upstreams.npm@, "-/v1/search"@) == Some(base),
        target.path@ == "/npm/-/v1/search"@,
    ensures
        target.query is None ==> search_upstream(target, upstreams) == Some(base),
        opt_text(target.query) == Some(query) && with_query_text(base, query) == Some(u)
            && u.query is Some ==> search_upstream(target, upstreams) == (
        if are_search_parameters(query_pair_names(u.query->0)) {
            Some(u)
        } else {
            None
        }),
        opt_text(target.query) == Some(query) && with_query_text(base, query) is None
            ==> search_upstream(target, upstreams) is None,
{
    urls_are_built_by_joining(upstreams.npm@, "-/v1/search"@, base);
}

/// Nothing but the search of the registry is a search.
pub proof fn only_searches_are_searched(target: &RequestTarget, upstreams: &RegistryOrigins)
    ensures
        target.path@ != "/npm/-/v1/search"@ ==> search_upstream(target, upstreams) is None,
        joined(upstreams.npm@, "-/v1/search"@) is None ==> search_upstream(target, upstreams)
            is None,
{
}

/// Both kinds of audits, and nothing else, go to the audits of the same kind on the registry,
/// without a query.
pub proof fn audits_go_to_audits_of_their_kind(target: &RequestTarget, upstreams: &RegistryOrigins)
    ensures
        target.query is Some ==> audit_upstream(target, upstreams) is None,
        target.query is None && target.path@ == "/npm/-/npm/v1/security/advisories/bulk"@
            ==> audit_upstream(target, upstreams) == joined(
            upstreams.npm@,
            "-/npm/v1/security/advisories/bulk"@,
        ),
        target.query is None && target.path@ == "/npm/-/npm/v1/security/audits/quick"@
            ==> audit_upstream(target, upstreams) == joined(
            upstreams.npm@,
            "-/npm/v1/security/audits/quick"@,
        ),
        target.path@ != "/npm/-/npm/v1/security/advisories/bulk"@ && target.path@
            != "/npm/-/npm/v1/security/audits/quick"@ ==> audit_upstream(target, upstreams) is None,
{
    reveal_strlit("/npm/-/npm/v1/security/advisories/bulk");
    reveal_strlit("/npm/-/npm/v1/security/audits/quick");
    assert("/npm/-/npm/v1/security/advisories/bulk"@.len()
        != "/npm/-/npm/v1/security/audits/quick"@.len());
}

/// Of a field that is forwarded the first one is, with its value, and none where there is none.
pub proof fn the_first_field_of_a_name_is_forwarded(
    headers: Seq<(Seq<char>, Seq<u8>)>,
    name: Seq<char>,
    i: int,
)
    ensures
        (forall|k: int|
            0 <= k < headers.len() ==> !same_ignoring_case((#[trigger] headers[k]).0, name))
            ==> first_header(headers, name).len() == 0,
        0 <= i < headers.len() && same_ignoring_case(headers[i].0, name) && (forall|k: int|
            0 <= k < i ==> !same_ignoring_case((#[trigger] headers[k]).0, name)) ==> first_header(
            headers,
            name,
        ) == seq![headers[i]],
    decreases headers.len(),
{
    if headers.len() > 0 && !same_ignoring_case(headers[0].0, name) {
        let rest = headers.drop_first();
        the_first_field_of_a_name_is_forwarded(rest, name, i - 1);
        assert forall|k: int| 0 <= k < rest.len() implies #[trigger] rest[k] == headers[k + 1] by {}
        if 0 <= i < headers.len() && same_ignoring_case(headers[i].0, name) {
            assert(i > 0);
            assert(rest[i - 1] == headers[i]);
        }
    } else if headers.len() > 0 {
        if 0 < i < headers.len() && (forall|k: int|
            0 <= k < i ==> !same_ignoring_case((#[trigger] headers[k]).0, name)) {
            assert(!same_ignoring_case(headers[0].0, name));
        }
    }
}

/// A search or an audit that is refused leaves no trace. Any other is counted once, as what it
/// is; it takes one permit where one is free, and nothing else changes.
pub proof fn refused_requests_leave_no_trace(
    store: CacheView,
    stats: StatsView,
    upstream: Option<UrlView>,
)
    ensures
        upstream is None ==> admitted_to(store, upstream) == store && search_counted(
            stats,
            upstream,
        ) == stats && audit_counted(stats, upstream) == stats,
        upstream is Some && stats.npm_search_requests < usize::MAX ==> search_counted(
            stats,
            upstream,
        ) == (StatsView {
            npm_search_requests: (stats.npm_search_requests + 1) as usize,
            ..stats
        }),
        upstream is Some && stats.npm_audit_requests < usize::MAX ==> audit_counted(stats, upstream)
            == (StatsView { npm_audit_requests: (stats.npm_audit_requests + 1) as usize, ..stats }),
        upstream is Some && store.free_fetches > 0 ==> admitted_to(store, upstream) == (CacheView {
            free_fetches: (store.free_fetches - 1) as nat,
            ..store
        }),
        upstream is Some && store.free_fetches == 0 ==> admitted_to(store, upstream) == store,
{
}

/// A refused request has nowhere to go; any other goes where it is to go while fetches are
/// admitted, and is told to come again when none is.
pub proof fn requests_are_forwarded_while_fetches_are_admitted(
    admission: NpmAdmission,
    upstream: UrlView,
    store: CacheView,
)
    ensures
        admission.answers(None, store) <==> admission is Refused,
        admission.answers(Some(upstream), store) && store.free_fetches > 0 ==> (
        admission matches NpmAdmission::Forward(u) && u@ == upstream),
        admission.answers(Some(upstream), store) && store.free_fetches == 0 ==> (
        admission matches NpmAdmission::Exhausted(e) && e.kind == ErrorKind::WouldBlock
            && e.message@ == "upstream capacity exhausted"@),
{
}

/// Packuments with links to different origins are different representations.
pub proof fn packument_identities_name_their_origin(origin: Seq<char>)
    ensures
        npm_identity(origin) == "npm:v2:"@ + origin,
{
}

/// A body of an audit of up to 8 MiB is read.
pub proof fn audits_are_limited()
    ensures
        MAX_AUDIT_REQUEST_BODY_BYTES == 8 * 1024 * 1024,
{
}

/// A search whose query comes to nothing goes without one.
pub proof fn searches_may_go_without_a_query(
    target: &RequestTarget,
    upstreams: &RegistryOrigins,
    base: UrlView,
    query: Seq<char>,
    u: UrlView,
)
    requires
        joined(upstreams.npm@, "-/v1/search"@) == Some(base),
        target.path@ == "/npm/-/v1/search"@,
        opt_text(target.query) == Some(query),
        with_query_text(base, query) == Some(u),
        u.query is None,
    ensures
        search_upstream(target, upstreams) == Some(u),
{
}

} // verus!
