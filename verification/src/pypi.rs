//! The simple index and distribution files.
use crate::http::{path_tail, raw_path_tail, tails_follow_their_prefix, RequestTarget};
use crate::packages::{is_artifact_request, is_metadata_request, ArtifactRequest, MetadataRequest};
use crate::paths::{
    canonical_path_characters, canonical_path_is_fixed, canonical_path_text, canonical_rewrite,
    canonical_rewrite_is_idempotent, canonical_segment_text, is_segment_char,
};
use crate::proxy::MetadataRewrite;
use crate::rewrite::{fragment_text, is_file_link, is_simple_link, pypi_link};
use crate::routes::{joined, pypi_file_url, pypi_simple_url, simple_path, RegistryOrigins};
use crate::stats::{UPSTREAM_PYPI_FILES, UPSTREAM_PYPI_SIMPLE};
use crate::text::{
    contains_char, lemma_first_index_is, opt_str, split, strip_prefix, strip_suffix,
};
use crate::weburl::{url_parse, UrlView};
use vstd::prelude::*;
use vstd::string::*;

verus! {

/// The project that a target asks for: one segment between `/pypi/simple/` and a slash.
pub open spec fn project_of(target: &RequestTarget) -> Option<Seq<char>> {
    let front = "/pypi/simple/"@;
    let path = target.path@;
    let project = path.subrange(front.len() as int, path.len() - 1);
    if target.query is None && path.len() > front.len() + 1 && front.is_prefix_of(path)
        && path.last() == '/' && !project.contains('/') {
        Some(project)
    } else {
        None
    }
}

/// The project that a target asks for, as it was sent.
pub fn raw_project<'a>(target: &'a RequestTarget) -> (r: Option<&'a str>)
    ensures
        opt_str(r) == project_of(target),
{
    if target.query.is_some() {
        return None;
    }
    let ghost path = target.path@;
    let ghost front = "/pypi/simple/"@;
    proof {
        reveal_strlit("/");
        assert("/"@ =~= seq!['/']);
    }
    let tail = match strip_prefix(target.path.as_str(), "/pypi/simple/") {
        Some(tail) => tail,
        None => return None,
    };
    proof {
        assert(front =~= path.subrange(0, front.len() as int));
    }
    let project = match strip_suffix(tail, "/") {
        Some(project) => project,
        None => {
            proof {
                if path.len() > front.len() && path.last() == '/' {
                    assert("/"@ =~= tail@.subrange(tail@.len() - 1, tail@.len() as int));
                }
            }
            return None;
        },
    };
    proof {
        assert(path =~= front + project@ + "/"@);
        assert(project@ =~= path.subrange(front.len() as int, path.len() - 1));
    }
    if project.is_empty() || contains_char(project, '/') {
        None
    } else {
        Some(project)
    }
}

/// The identity of pages with links to `origin`.
pub open spec fn pypi_identity(origin: Seq<char>) -> Seq<char> {
    "pypi:v2:"@ + origin
}

/// Where the page of a project comes from.
pub open spec fn simple_upstream(project: Option<Seq<char>>, upstreams: &RegistryOrigins) -> Option<
    UrlView,
> {
    match simple_path(project) {
        Some(path) => joined(upstreams.pypi_simple@, path),
        None => None,
    }
}

/// A request for the root of the simple index.
pub fn simple_root_request(target: &RequestTarget, upstreams: &RegistryOrigins, origin: &str) -> (r:
    Option<MetadataRequest>)
    ensures
        is_metadata_request(
            r,
            if target.query is None {
                simple_upstream(None, upstreams)
            } else {
                None
            },
            UPSTREAM_PYPI_SIMPLE@,
            pypi_identity(origin@),
        ),
{
    if target.query.is_some() {
        return None;
    }
    match pypi_simple_url(upstreams, None) {
        Some(upstream) => Some(
            MetadataRequest {
                upstream,
                label: UPSTREAM_PYPI_SIMPLE,
                rewrite: MetadataRewrite::Pypi(origin.to_owned()),
            },
        ),
        None => None,
    }
}

/// A request for the page of a project.
pub fn simple_project_request(
    target: &RequestTarget,
    upstreams: &RegistryOrigins,
    origin: &str,
) -> (r: Option<MetadataRequest>)
    ensures
        is_metadata_request(
            r,
            match project_of(target) {
                Some(project) => simple_upstream(Some(project), upstreams),
                None => None,
            },
            UPSTREAM_PYPI_SIMPLE@,
            pypi_identity(origin@),
        ),
{
    match raw_project(target) {
        Some(project) => match pypi_simple_url(upstreams, Some(project)) {
            Some(upstream) => Some(
                MetadataRequest {
                    upstream,
                    label: UPSTREAM_PYPI_SIMPLE,
                    rewrite: MetadataRewrite::Pypi(origin.to_owned()),
                },
            ),
            None => None,
        },
        None => None,
    }
}

/// Where a distribution file comes from.
pub open spec fn file_upstream(target: &RequestTarget, upstreams: &RegistryOrigins) -> Option<
    UrlView,
> {
    match path_tail(target, "/pypi/files/"@) {
        Some(path) => joined(upstreams.pypi_files@, path),
        None => None,
    }
}

/// A request for a distribution file.
pub fn file_request(target: &RequestTarget, upstreams: &RegistryOrigins) -> (r: Option<
    ArtifactRequest,
>)
    ensures
        is_artifact_request(r, file_upstream(target, upstreams), UPSTREAM_PYPI_FILES@),
{
    match raw_path_tail(target, "/pypi/files/") {
        Some(path) => match pypi_file_url(path, upstreams) {
            Some(upstream) => Some(ArtifactRequest { upstream, label: UPSTREAM_PYPI_FILES }),
            None => None,
        },
        None => None,
    }
}

// ---------------------------------------------------------------------------
// Laws
// ---------------------------------------------------------------------------

/// A rewritten file link leads back to its file: behind the public origin stands the path of
/// a request that is served from the same path of the registry, in its canonical spelling.
pub proof fn file_links_lead_to_their_files(
    href: Seq<char>,
    path: Seq<char>,
    upstreams: &RegistryOrigins,
    origin: Seq<char>,
    target: &RequestTarget,
)
    requires
        url_parse(href) matches Ok(u) && is_file_link(u, upstreams) && u.without_credentials()
            && u.query is None && canonical_rewrite(u.path) == Some(path),
        target.query is None,
        target.path@ == "/pypi/files/"@ + path,
    ensures
        pypi_link(href, upstreams, origin) == origin + target.path@ + fragment_text(
            url_parse(href)->Ok_0,
        ),
        canonical_path_text(path),
        file_upstream(target, upstreams) == joined(upstreams.pypi_files@, path),
{
    let u = url_parse(href)->Ok_0;
    canonical_rewrite_is_idempotent(u.path);
    canonical_path_characters(path);
    let front = "/pypi/files/"@;
    assert(front =~= target.path@.subrange(0, front.len() as int));
    assert(target.path@.skip(front.len() as int) =~= path);
    assert(origin + front + path + fragment_text(u) =~= origin + target.path@ + fragment_text(u));
}

/// A rewritten link to the page of a project leads back to that page.
pub proof fn project_links_lead_to_their_pages(
    href: Seq<char>,
    project: Seq<char>,
    upstreams: &RegistryOrigins,
    origin: Seq<char>,
    target: &RequestTarget,
)
    requires
        url_parse(href) matches Ok(u) && !is_file_link(u, upstreams) && is_simple_link(
            u,
            upstreams,
        ) && canonical_rewrite(u.path) == Some("simple/"@ + project + "/"@),
        canonical_segment_text(project),
        target.query is None,
        target.path@ == "/pypi/simple/"@ + project + "/"@,
    ensures
        pypi_link(href, upstreams, origin) == origin + target.path@,
        project_of(target) == Some(project),
        simple_upstream(Some(project), upstreams) == joined(
            upstreams.pypi_simple@,
            "simple/"@ + project + "/"@,
        ),
{
    lemma_project_target(project, target);
    lemma_simple_prefix();
    assert(origin + "/pypi/"@ + ("simple/"@ + project + "/"@) =~= origin + ("/pypi/"@ + "simple/"@
        + project + "/"@));
}

/// A root-relative link to the page of a project leads to that page as well.
pub proof fn root_relative_links_lead_to_their_pages(
    project: Seq<char>,
    upstreams: &RegistryOrigins,
    origin: Seq<char>,
    target: &RequestTarget,
)
    requires
        url_parse("/simple/"@ + project + "/"@) is Err,
        canonical_segment_text(project),
        target.query is None,
        target.path@ == "/pypi/simple/"@ + project + "/"@,
    ensures
        pypi_link("/simple/"@ + project + "/"@, upstreams, origin) == origin + target.path@,
        project_of(target) == Some(project),
{
    let href = "/simple/"@ + project + "/"@;
    let path = "simple/"@ + project + "/"@;
    lemma_project_target(project, target);
    lemma_simple_prefix();
    lemma_page_path(project);
    reveal_strlit("/simple/");
    reveal_strlit("simple/");
    assert("/simple/"@ =~= seq!['/'] + "simple/"@);
    assert(href =~= seq!['/'] + path);
    canonical_path_is_fixed(path);
    assert("/simple/"@ =~= href.subrange(0, "/simple/"@.len() as int));
    assert(origin + "/pypi/"@ + path =~= origin + ("/pypi/"@ + "simple/"@ + project + "/"@));
}

/// The path of the page of a project is canonical.
proof fn lemma_page_path(project: Seq<char>)
    requires
        canonical_segment_text(project),
    ensures
        canonical_path_text("simple/"@ + project + "/"@),
{
    reveal_strlit("simple");
    reveal_strlit("simple/");
    reveal_strlit("/");
    reveal_strlit(".");
    reveal_strlit("..");
    let path = "simple/"@ + project + "/"@;
    let rest = project + "/"@;
    let none = Seq::<char>::empty();
    assert forall|i: int| 0 <= i < project.len() implies #[trigger] project[i] != '/' by {
        assert(is_segment_char(project[i]));
    }
    lemma_first_index_is(path, '/', 6);
    lemma_first_index_is(rest, '/', project.len() as int);
    lemma_first_index_is(none, '/', 0);
    assert(path.take(6) =~= "simple"@);
    assert(path.skip(7) =~= rest);
    assert(rest.take(project.len() as int) =~= project);
    assert(rest.skip(project.len() as int + 1) =~= none);
    assert(split(none, '/') =~= seq![none]);
    assert(split(rest, '/') =~= seq![project, none]);
    assert(split(path, '/') =~= seq!["simple"@, project, none]);
    assert(canonical_segment_text("simple"@));
}

proof fn lemma_simple_prefix()
    ensures
        "/pypi/"@ + "simple/"@ == "/pypi/simple/"@,
{
    reveal_strlit("/pypi/");
    reveal_strlit("simple/");
    reveal_strlit("/pypi/simple/");
    assert("/pypi/"@ + "simple/"@ =~= "/pypi/simple/"@);
}

proof fn lemma_project_target(project: Seq<char>, target: &RequestTarget)
    requires
        canonical_segment_text(project),
        target.query is None,
        target.path@ == "/pypi/simple/"@ + project + "/"@,
    ensures
        project_of(target) == Some(project),
{
    reveal_strlit("/");
    let front = "/pypi/simple/"@;
    let path = target.path@;
    assert(front =~= path.subrange(0, front.len() as int));
    assert(path.subrange(front.len() as int, path.len() - 1) =~= project);
    assert(path.last() == '/');
    if project.contains('/') {
        let i = choose|i: int| 0 <= i < project.len() && project[i] == '/';
        assert(is_segment_char(project[i]));
    }
}

/// A project is asked for by its name between `/pypi/simple/` and a slash, neither empty nor with
/// a slash in it, and without a query.
pub proof fn projects_are_asked_for_by_name(target: &RequestTarget, project: Seq<char>)
    ensures
        project_of(target) == Some(project) <==> target.query is None && project.len() > 0
            && !project.contains('/') && target.path@ == "/pypi/simple/"@ + project + "/"@,
{
    reveal_strlit("/");
    let front = "/pypi/simple/"@;
    let path = target.path@;
    if path == front + project + "/"@ {
        assert(front =~= path.subrange(0, front.len() as int));
        assert(path.subrange(front.len() as int, path.len() - 1) =~= project);
        assert(path.last() == '/');
    }
    if project_of(target) == Some(project) {
        assert(front =~= path.subrange(0, front.len() as int));
        assert(path =~= front + project + "/"@);
    }
}

/// The page of a project is read from the directory of that project on the simple index, and the
/// root from the root; a name that is no canonical segment has no page.
pub proof fn pages_come_from_the_simple_index(project: Seq<char>, upstreams: &RegistryOrigins)
    ensures
        simple_upstream(None, upstreams) == joined(upstreams.pypi_simple@, "simple/"@),
        canonical_segment_text(project) ==> simple_upstream(Some(project), upstreams) == joined(
            upstreams.pypi_simple@,
            "simple/"@ + project + "/"@,
        ),
        !canonical_segment_text(project) ==> simple_upstream(Some(project), upstreams) is None,
{
}

/// A distribution file is read from its own path at the files of the registry; a request with a
/// query, or for anything else, has none.
pub proof fn files_come_from_the_files_of_the_registry(
    target: &RequestTarget,
    upstreams: &RegistryOrigins,
    path: Seq<char>,
)
    ensures
        target.query is None && path.len() > 0 && target.path@ == "/pypi/files/"@ + path
            ==> file_upstream(target, upstreams) == joined(upstreams.pypi_files@, path),
        target.query is Some ==> file_upstream(target, upstreams) is None,
        file_upstream(target, upstreams) matches Some(u) ==> {
            &&& u.same_origin(upstreams.pypi_files@)
            &&& "/pypi/files/"@ + u.path.skip(upstreams.pypi_files@.path.len() as int)
                == target.path@
            &&& u.query is None && u.fragment is None
        },
{
    tails_follow_their_prefix(target, "/pypi/files/"@, path);
    if let Some(tail) = path_tail(target, "/pypi/files/"@) {
        tails_follow_their_prefix(target, "/pypi/files/"@, tail);
        if let Some(u) = file_upstream(target, upstreams) {
            assert(u.path.skip(upstreams.pypi_files@.path.len() as int) =~= tail);
        }
    }
}

/// Pages with links to different origins are different representations.
pub proof fn page_identities_name_their_origin(origin: Seq<char>)
    ensures
        pypi_identity(origin) == "pypi:v2:"@ + origin,
{
}

} // verus!
