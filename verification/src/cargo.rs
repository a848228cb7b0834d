//! The sparse index and crate files.
use crate::cache::pairs_view;
use crate::http::{path_tail, raw_path_tail, tails_follow_their_prefix, RequestTarget};
use crate::packages::{is_artifact_request, is_metadata_request, ArtifactRequest, MetadataRequest};
use crate::proxy::{MetadataRewrite, Response};
use crate::routes::{
    cargo_config, cargo_config_text, cargo_download_url, cargo_index_url, crate_file_path, joined,
    RegistryOrigins,
};
use crate::stats::{UPSTREAM_CARGO_DOWNLOAD, UPSTREAM_CARGO_INDEX};
use crate::text::{contains_char, decimal, split_once, strip_prefix, strip_suffix, to_decimal};
use crate::weburl::UrlView;
use vstd::prelude::*;
use vstd::string::*;
use vstd::utf8::*;

verus! {

/// The path of a download of the version of the crate.
pub open spec fn download_path(crate_name: Seq<char>, version: Seq<char>) -> Seq<char> {
    "/cargo/api/v1/crates/"@ + crate_name + "/"@ + version + "/download"@
}

/// A name or version that can stand in a download path.
pub open spec fn is_part(s: Seq<char>) -> bool {
    s.len() > 0 && !s.contains('/')
}

/// The target asks for a download of the version of the crate.
pub open spec fn is_download(
    target: &RequestTarget,
    crate_name: Seq<char>,
    version: Seq<char>,
) -> bool {
    &&& target.query is None
    &&& is_part(crate_name)
    &&& is_part(version)
    &&& target.path@ == download_path(crate_name, version)
}

/// The crate and the version that a target asks for.
pub fn raw_download<'a>(target: &'a RequestTarget) -> (r: Option<(&'a str, &'a str)>)
    ensures
        r matches Some((crate_name, version)) ==> is_download(target, crate_name@, version@),
        r is None ==> forall|c: Seq<char>, v: Seq<char>| !#[trigger] is_download(target, c, v),
{
    if target.query.is_some() {
        return None;
    }
    let ghost path = target.path@;
    let ghost front = "/cargo/api/v1/crates/"@;
    let ghost back = "/download"@;
    proof {
        reveal_strlit("/");
        assert("/"@ =~= seq!['/']);
    }
    let tail = match strip_prefix(target.path.as_str(), "/cargo/api/v1/crates/") {
        Some(tail) => tail,
        None => {
            proof {
                assert forall|c: Seq<char>, v: Seq<char>| !#[trigger] is_download(target, c, v) by {
                    if is_download(target, c, v) {
                        assert(front =~= path.subrange(0, front.len() as int));
                    }
                }
            }
            return None;
        },
    };
    let middle = match strip_suffix(tail, "/download") {
        Some(middle) => middle,
        None => {
            proof {
                assert forall|c: Seq<char>, v: Seq<char>| !#[trigger] is_download(target, c, v) by {
                    if is_download(target, c, v) {
                        assert(tail@ =~= path.skip(front.len() as int));
                        assert(back =~= tail@.subrange(
                            tail@.len() - back.len(),
                            tail@.len() as int,
                        ));
                    }
                }
            }
            return None;
        },
    };
    proof {
        assert(path =~= front + middle@ + back);
        assert forall|c: Seq<char>, v: Seq<char>| #[trigger]
            is_download(target, c, v) implies middle@ == c.push('/') + v by {
            assert(middle@ =~= path.subrange(front.len() as int, path.len() - back.len()));
            assert(middle@ =~= c.push('/') + v);
        }
    }
    let (crate_name, version) = match split_once(middle, '/') {
        Some(parts) => parts,
        None => {
            proof {
                assert forall|c: Seq<char>, v: Seq<char>| !#[trigger] is_download(target, c, v) by {
                    if is_download(target, c, v) {
                        assert((c.push('/') + v)[c.len() as int] == '/');
                    }
                }
            }
            return None;
        },
    };
    proof {
        assert forall|c: Seq<char>, v: Seq<char>| #[trigger]
            is_download(target, c, v) implies c == crate_name@ && v == version@ by {
            lemma_split_unique(c, v, crate_name@, version@);
        }
        assert(path =~= download_path(crate_name@, version@));
    }
    if crate_name.is_empty() || version.is_empty() || contains_char(version, '/') {
        return None;
    }
    Some((crate_name, version))
}

/// What stands before and behind the first slash is determined.
proof fn lemma_split_unique(a: Seq<char>, x: Seq<char>, b: Seq<char>, y: Seq<char>)
    requires
        a.push('/') + x == b.push('/') + y,
        !a.contains('/'),
        !b.contains('/'),
    ensures
        a == b,
        x == y,
{
    let s = a.push('/') + x;
    let t = b.push('/') + y;
    if a.len() < b.len() {
        assert(s[a.len() as int] == '/');
        assert(t[a.len() as int] == b[a.len() as int]);
        assert(b.contains('/'));
    } else if b.len() < a.len() {
        assert(t[b.len() as int] == '/');
        assert(s[b.len() as int] == a[b.len() as int]);
        assert(a.contains('/'));
    }
    assert forall|i: int| 0 <= i < a.len() implies a[i] == b[i] by {
        assert(s[i] == a[i] && t[i] == b[i]);
    }
    assert(a =~= b);
    assert(x =~= s.skip(a.len() as int + 1));
    assert(y =~= t.skip(b.len() as int + 1));
}

/// The answer that tells where downloads are.
pub fn cargo_config_response(origin: &str, head_only: bool) -> (r: Response<Vec<u8>>)
    ensures
        r.status == 200,
        pairs_view(r.headers@) == seq![
            ("content-type"@, "application/json"@),
            ("content-length"@, decimal(encode_utf8(cargo_config_text(origin@)).len())),
        ],
        r.body@ == (if head_only {
            Seq::empty()
        } else {
            encode_utf8(cargo_config_text(origin@))
        }),
{
    let body = cargo_config(origin);
    let length: usize = body.len();
    let mut headers: Vec<(String, String)> = Vec::new();
    headers.push(("content-type".to_owned(), "application/json".to_owned()));
    headers.push(("content-length".to_owned(), to_decimal(length as u128)));
    proof {
        assert(pairs_view(headers@) =~= seq![
            ("content-type"@, "application/json"@),
            ("content-length"@, decimal(encode_utf8(cargo_config_text(origin@)).len())),
        ]);
    }
    Response {
        status: 200,
        headers,
        body: if head_only {
            Vec::new()
        } else {
            body
        },
    }
}

/// The configuration of the index, where the target asks for it without a query.
pub fn config_request(target: &RequestTarget, origin: &str, head_only: bool) -> (r: Option<
    Response<Vec<u8>>,
>)
    ensures
        r is Some == target.query is None,
        r matches Some(c) ==> c.status == 200 && c.body@ == (if head_only {
            Seq::empty()
        } else {
            encode_utf8(cargo_config_text(origin@))
        }) && pairs_view(c.headers@) == seq![
            ("content-type"@, "application/json"@),
            ("content-length"@, decimal(encode_utf8(cargo_config_text(origin@)).len())),
        ],
{
    if target.query.is_some() {
        None
    } else {
        Some(cargo_config_response(origin, head_only))
    }
}

/// Where a file of the index comes from.
pub open spec fn index_upstream(target: &RequestTarget, upstreams: &RegistryOrigins) -> Option<
    UrlView,
> {
    match path_tail(target, "/cargo/index/"@) {
        Some(path) => joined(upstreams.cargo_index@, path),
        None => None,
    }
}

/// A request for a file of the index.
pub fn index_request(target: &RequestTarget, upstreams: &RegistryOrigins) -> (r: Option<
    MetadataRequest,
>)
    ensures
        is_metadata_request(
            r,
            index_upstream(target, upstreams),
            UPSTREAM_CARGO_INDEX@,
            "raw:v1"@,
        ),
{
    match raw_path_tail(target, "/cargo/index/") {
        Some(path) => match cargo_index_url(upstreams, path) {
            Some(upstream) => Some(
                MetadataRequest {
                    upstream,
                    label: UPSTREAM_CARGO_INDEX,
                    rewrite: MetadataRewrite::Raw,
                },
            ),
            None => None,
        },
        None => None,
    }
}

/// A request for a crate file.
pub fn download_request(target: &RequestTarget, upstreams: &RegistryOrigins) -> (r: Option<
    ArtifactRequest,
>)
    ensures
        forall|c: Seq<char>, v: Seq<char>| #[trigger]
            is_download(target, c, v) ==> is_artifact_request(
                r,
                joined(upstreams.cargo_download@, crate_file_path(c, v)),
                UPSTREAM_CARGO_DOWNLOAD@,
            ),
        r is Some ==> exists|c: Seq<char>, v: Seq<char>| #[trigger] is_download(target, c, v),
{
    match raw_download(target) {
        Some((crate_name, version)) => {
            proof {
                assert forall|c: Seq<char>, v: Seq<char>| #[trigger]
                    is_download(target, c, v) implies c == crate_name@ && v == version@ by {
                    lemma_download_unique(c, v, crate_name@, version@);
                }
                assert(is_download(target, crate_name@, version@));
            }
            match cargo_download_url(upstreams, crate_name, version) {
                Some(upstream) => Some(
                    ArtifactRequest { upstream, label: UPSTREAM_CARGO_DOWNLOAD },
                ),
                None => None,
            }
        },
        None => None,
    }
}

/// A download path names one crate and one version.
pub proof fn lemma_download_unique(a: Seq<char>, x: Seq<char>, b: Seq<char>, y: Seq<char>)
    requires
        download_path(a, x) == download_path(b, y),
        !a.contains('/'),
        !b.contains('/'),
    ensures
        a == b,
        x == y,
{
    let front = "/cargo/api/v1/crates/"@;
    let back = "/download"@;
    reveal_strlit("/");
    assert("/"@ =~= seq!['/']);
    let p = download_path(a, x);
    let q = download_path(b, y);
    assert(p.subrange(front.len() as int, p.len() - back.len()) =~= a.push('/') + x);
    assert(q.subrange(front.len() as int, q.len() - back.len()) =~= b.push('/') + y);
    lemma_split_unique(a, x, b, y);
}

/// Cargo finds every download at the place that the configuration announces: the name, a
/// slash, the version and `/download` behind it is a request for that very crate file.
pub proof fn announced_downloads_are_served(
    target: &RequestTarget,
    crate_name: Seq<char>,
    version: Seq<char>,
)
    requires
        is_part(crate_name),
        is_part(version),
        target.query is None,
        target.path@ == "/cargo/api/v1/crates"@ + ("/"@ + crate_name + "/"@ + version
            + "/download"@),
    ensures
        is_download(target, crate_name, version),
{
    reveal_strlit("/cargo/api/v1/crates");
    reveal_strlit("/cargo/api/v1/crates/");
    reveal_strlit("/");
    assert("/cargo/api/v1/crates"@ + "/"@ =~= "/cargo/api/v1/crates/"@);
    assert(target.path@ =~= download_path(crate_name, version));
}

/// A download is asked for by the name of a crate and a version, neither empty nor with a slash
/// in it, between `/cargo/api/v1/crates/` and `/download`, and without a query.
pub proof fn downloads_are_asked_for_by_crate_and_version(
    target: &RequestTarget,
    crate_name: Seq<char>,
    version: Seq<char>,
)
    ensures
        is_download(target, crate_name, version) <==> target.query is None && crate_name.len() > 0
            && !crate_name.contains('/') && version.len() > 0 && !version.contains('/')
            && target.path@ == "/cargo/api/v1/crates/"@ + crate_name + "/"@ + version
            + "/download"@,
{
}

/// A file of the index is read from its own path below the index; a request with a query, or for
/// anything else, has none.
pub proof fn index_files_come_from_the_index(
    target: &RequestTarget,
    upstreams: &RegistryOrigins,
    path: Seq<char>,
)
    ensures
        target.query is None && path.len() > 0 && target.path@ == "/cargo/index/"@ + path
            ==> index_upstream(target, upstreams) == joined(upstreams.cargo_index@, path),
        target.query is Some ==> index_upstream(target, upstreams) is None,
        index_upstream(target, upstreams) matches Some(u) ==> {
            &&& u.same_origin(upstreams.cargo_index@)
            &&& "/cargo/index/"@ + u.path.skip(upstreams.cargo_index@.path.len() as int)
                == target.path@
            &&& u.query is None && u.fragment is None
        },
{
    tails_follow_their_prefix(target, "/cargo/index/"@, path);
    if let Some(tail) = path_tail(target, "/cargo/index/"@) {
        tails_follow_their_prefix(target, "/cargo/index/"@, tail);
        if let Some(u) = index_upstream(target, upstreams) {
            assert(u.path.skip(upstreams.cargo_index@.path.len() as int) =~= tail);
        }
    }
}

} // verus!
