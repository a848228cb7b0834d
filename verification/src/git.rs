//! Read-only access to GitHub repositories over the smart HTTP protocol.
use crate::failure_log::{git_rejection, opt_json, Failure};
use crate::http::{headers_view, wanted_headers, Header, Method, RequestTarget};
use crate::json::json_quoted;
use crate::proxy::{is_simple, simple_response, Response, PLAIN_TEXT};
use crate::routes::{join_url, joined, opt_url, with_query, with_query_text, RegistryOrigins};
use crate::text::{
    chars_of, contains_char, decimal, eq_ignore_ascii_case, opt_str, opt_text, same,
    same_ignoring_case, split, split_parts, strip_suffix, texts,
    texts_are_split_at_every_separator,
};
use crate::weburl::{origins_are_scheme_host_and_port, Url, UrlView};
use vstd::prelude::*;
use vstd::string::*;

verus! {

/// The body of a request is not read past this.
pub const MAX_GIT_REQUEST_BODY_BYTES: usize = 8_388_608;

/// The one query that discovery is forwarded with.
pub const UPLOAD_PACK_SERVICE: &'static str = "service=git-upload-pack";

/// The two requests of a read.
#[derive(Clone, Copy, Debug, PartialEq, Eq, Structural)]
pub enum GithubGitRpc {
    InfoRefs,
    UploadPack,
}

/// A repository and what is asked of it.
#[derive(Debug, PartialEq, Eq)]
pub struct GithubGitPath {
    pub owner: String,
    pub repo: String,
    pub rpc: GithubGitRpc,
}

/// The model of a repository and what is asked of it.
pub struct GitPathView {
    pub owner: Seq<char>,
    pub repo: Seq<char>,
    pub rpc: GithubGitRpc,
}

impl View for GithubGitPath {
    type V = GitPathView;

    open spec fn view(&self) -> GitPathView {
        GitPathView { owner: self.owner@, repo: self.repo@, rpc: self.rpc }
    }
}

/// Why a path is refused.
#[derive(Clone, Copy, Debug, PartialEq, Eq, Structural)]
pub enum GitPathError {
    Invalid,
    ReceivePack,
}

/// A request to GitHub.
#[derive(Debug)]
pub struct GitUpstreamRequest {
    pub method: Method,
    pub upstream: Url,
}

/// What becomes of a request.
#[derive(Debug)]
pub enum ParsedGitRequest {
    NotGit,
    Rejected(u16, &'static str),
    Forward(GitUpstreamRequest),
}

/// The model of what becomes of a request.
pub enum GitDecision {
    NotGit,
    Rejected(u16, Seq<char>),
    Forward(Method, UrlView),
}

impl View for ParsedGitRequest {
    type V = GitDecision;

    open spec fn view(&self) -> GitDecision {
        match self {
            ParsedGitRequest::NotGit => GitDecision::NotGit,
            ParsedGitRequest::Rejected(status, message) => GitDecision::Rejected(
                *status,
                message@,
            ),
            ParsedGitRequest::Forward(request) => GitDecision::Forward(
                request.method,
                request.upstream@,
            ),
        }
    }
}

// ---------------------------------------------------------------------------
// Paths
// ---------------------------------------------------------------------------

/// A segment that can name an owner or a repository.
pub open spec fn repo_segment(s: Seq<char>) -> bool {
    &&& s.len() > 0
    &&& s != "."@
    &&& s != ".."@
    &&& !s.contains('/')
    &&& !s.contains('\\')
    &&& !s.contains('%')
}

/// A segment that no request path may hold: empty, a dot segment, or one with an escape.
pub open spec fn refused_segment(s: Seq<char>) -> bool {
    s.len() == 0 || s == "."@ || s == ".."@ || s.contains('%')
}

/// The repository that a segment names, with or without `.git` at the end.
pub open spec fn repo_name(s: Seq<char>) -> Seq<char> {
    if ".git"@.is_suffix_of(s) {
        s.take(s.len() - ".git"@.len())
    } else {
        s
    }
}

/// A repository path, where both names are valid.
pub open spec fn git_path(owner: Seq<char>, repo: Seq<char>, rpc: GithubGitRpc) -> Option<
    GitPathView,
> {
    if repo_segment(owner) && repo_segment(repo) {
        Some(GitPathView { owner, repo, rpc })
    } else {
        None
    }
}

/// What the path of a request asks for.
pub open spec fn parsed_git_path(path: Seq<char>) -> Result<Option<GitPathView>, GitPathError> {
    if path.len() == 0 || path[0] != '/' || path.contains('\\') {
        Err(GitPathError::Invalid)
    } else if path.len() == 1 {
        Ok(None)
    } else {
        let parts = split(path.drop_first(), '/');
        if exists|i: int| 0 <= i < parts.len() && refused_segment(#[trigger] parts[i]) {
            Err(GitPathError::Invalid)
        } else if parts.len() == 4 && parts[2] == "info"@ && parts[3] == "refs"@ {
            Ok(git_path(parts[0], repo_name(parts[1]), GithubGitRpc::InfoRefs))
        } else if parts.len() == 3 && parts[2] == "git-upload-pack"@ {
            Ok(git_path(parts[0], repo_name(parts[1]), GithubGitRpc::UploadPack))
        } else if parts.len() == 3 && parts[2] == "git-receive-pack"@ {
            Err(GitPathError::ReceivePack)
        } else {
            Ok(None)
        }
    }
}

/// The view of an optional path.
pub open spec fn opt_path(o: Option<GithubGitPath>) -> Option<GitPathView> {
    match o {
        Some(p) => Some(p@),
        None => None,
    }
}

/// Tells whether a segment can name an owner or a repository.
pub fn valid_repo_segment(segment: &str) -> (r: bool)
    ensures
        r == repo_segment(segment@),
{
    !segment.is_empty() && !same(segment, ".") && !same(segment, "..") && !contains_char(
        segment,
        '/',
    ) && !contains_char(segment, '\\') && !contains_char(segment, '%')
}

fn without_git_suffix(segment: &str) -> (r: String)
    ensures
        r@ == repo_name(segment@),
{
    match strip_suffix(segment, ".git") {
        Some(name) => {
            proof {
                assert(".git"@ =~= segment@.subrange(
                    segment@.len() - ".git"@.len(),
                    segment@.len() as int,
                ));
                assert(name@ =~= segment@.take(segment@.len() - ".git"@.len()));
            }
            name.to_owned()
        },
        None => segment.to_owned(),
    }
}

/// Reads the path of a request.
pub fn parse_github_git_request_path(path: &str) -> (r: Result<Option<GithubGitPath>, GitPathError>)
    ensures
        match parsed_git_path(path@) {
            Ok(p) => r matches Ok(q) && opt_path(q) == p,
            Err(e) => r == Err::<Option<GithubGitPath>, GitPathError>(e),
        },
{
    let chars = chars_of(path);
    if chars.len() == 0 || chars[0] != '/' || contains_char(path, '\\') {
        return Err(GitPathError::Invalid);
    }
    if chars.len() == 1 {
        return Ok(None);
    }
    let raw = path.substring_char(1, chars.len());
    let ghost parts = split(path@.drop_first(), '/');
    proof {
        assert(raw@ =~= path@.drop_first());
    }
    let segments = split_parts(raw, '/');
    let mut i: usize = 0;
    while i < segments.len()
        invariant
            i <= segments.len(),
            parts == texts(segments@),
            forall|j: int| 0 <= j < i ==> !refused_segment(#[trigger] parts[j]),
            path@.len() > 1 && path@[0] == '/' && !path@.contains('\\'),
            parts == split(path@.drop_first(), '/'),
        decreases segments.len() - i,
    {
        let segment = segments[i].as_str();
        proof {
            assert(parts[i as int] == segment@);
        }
        if segment.is_empty() || same(segment, ".") || same(segment, "..") || contains_char(
            segment,
            '%',
        ) {
            proof {
                assert(refused_segment(parts[i as int]));
            }
            return Err(GitPathError::Invalid);
        }
        i = i + 1;
    }
    proof {
        assert forall|k: int| 0 <= k < parts.len() implies #[trigger] parts[k]
            == segments@[k]@ by {}
    }
    if segments.len() == 4 && same(segments[2].as_str(), "info") && same(
        segments[3].as_str(),
        "refs",
    ) {
        let repo = without_git_suffix(segments[1].as_str());
        return Ok(
            GithubGitPath::new(segments[0].as_str(), repo.as_str(), GithubGitRpc::InfoRefs),
        );
    }
    if segments.len() == 3 && same(segments[2].as_str(), "git-upload-pack") {
        let repo = without_git_suffix(segments[1].as_str());
        return Ok(
            GithubGitPath::new(segments[0].as_str(), repo.as_str(), GithubGitRpc::UploadPack),
        );
    }
    if segments.len() == 3 && same(segments[2].as_str(), "git-receive-pack") {
        return Err(GitPathError::ReceivePack);
    }
    Ok(None)
}

// ---------------------------------------------------------------------------
// Requests
// ---------------------------------------------------------------------------

/// Where a request is forwarded to, if its query is the one that it takes.
pub open spec fn git_upstream(
    path: GitPathView,
    upstreams: &RegistryOrigins,
    query: Option<Seq<char>>,
) -> Option<UrlView> {
    let repository = path.owner + "/"@ + path.repo + ".git"@;
    match path.rpc {
        GithubGitRpc::InfoRefs => if query == Some(UPLOAD_PACK_SERVICE@) {
            match joined(upstreams.github@, repository + "/info/refs"@) {
                Some(u) => match with_query_text(u, UPLOAD_PACK_SERVICE@) {
                    Some(v) => if v.query == Some(UPLOAD_PACK_SERVICE@) {
                        Some(v)
                    } else {
                        None
                    },
                    None => None,
                },
                None => None,
            }
        } else {
            None
        },
        GithubGitRpc::UploadPack => if query is None {
            joined(upstreams.github@, repository + "/git-upload-pack"@)
        } else {
            None
        },
    }
}

/// The request to GitHub, where there is a URL for it.
pub open spec fn forwarded(method: Method, upstream: Option<UrlView>) -> GitDecision {
    match upstream {
        Some(u) => GitDecision::Forward(method, u),
        None => GitDecision::NotGit,
    }
}

/// What becomes of a request for a repository.
pub open spec fn resolved(
    path: GitPathView,
    method: Method,
    query: Option<Seq<char>>,
    upstreams: &RegistryOrigins,
) -> GitDecision {
    match (method, path.rpc) {
        (Method::Get, GithubGitRpc::InfoRefs) => if query == Some(UPLOAD_PACK_SERVICE@) {
            forwarded(Method::Get, git_upstream(path, upstreams, query))
        } else if query == Some("service=git-receive-pack"@) {
            GitDecision::Rejected(405, "git-receive-pack is not supported"@)
        } else {
            GitDecision::Rejected(400, "info/refs requires ?service=git-upload-pack"@)
        },
        (Method::Get, GithubGitRpc::UploadPack) => GitDecision::Rejected(
            405,
            "git-upload-pack requires POST"@,
        ),
        (Method::Post, GithubGitRpc::UploadPack) => if query is Some {
            GitDecision::Rejected(400, "git-upload-pack does not accept query parameters"@)
        } else {
            forwarded(Method::Post, git_upstream(path, upstreams, None))
        },
        (Method::Post, GithubGitRpc::InfoRefs) => GitDecision::Rejected(
            405,
            "info/refs requires GET"@,
        ),
        _ => GitDecision::Rejected(405, "unsupported git method"@),
    }
}

/// What becomes of a request.
pub open spec fn git_decision(
    method: Method,
    target: &RequestTarget,
    upstreams: &RegistryOrigins,
) -> GitDecision {
    if target.authority matches Some(a) && a@.contains('@') {
        GitDecision::Rejected(403, "credential-bearing git requests are not supported"@)
    } else if method == Method::Connect {
        GitDecision::Rejected(405, "CONNECT is not supported"@)
    } else if target.scheme is Some || target.authority is Some {
        GitDecision::Rejected(400, "absolute-form git requests are not supported"@)
    } else {
        match parsed_git_path(target.path@) {
            Ok(Some(path)) => resolved(path, method, opt_text(target.query), upstreams),
            Ok(None) => GitDecision::NotGit,
            Err(GitPathError::ReceivePack) => GitDecision::Rejected(
                405,
                "git-receive-pack is not supported"@,
            ),
            Err(GitPathError::Invalid) => GitDecision::Rejected(400, "invalid git path"@),
        }
    }
}

impl GithubGitPath {
    /// A repository path, where both names are valid.
    pub fn new(owner: &str, repo: &str, rpc: GithubGitRpc) -> (r: Option<GithubGitPath>)
        ensures
            opt_path(r) == git_path(owner@, repo@, rpc),
    {
        if !valid_repo_segment(owner) || !valid_repo_segment(repo) {
            return None;
        }
        Some(GithubGitPath { owner: owner.to_owned(), repo: repo.to_owned(), rpc })
    }

    /// Where the request is forwarded to, if its query is the one that it takes.
    pub fn upstream_url(&self, upstreams: &RegistryOrigins, query: Option<&str>) -> (r: Option<Url>)
        ensures
            opt_url(r) == git_upstream(self@, upstreams, opt_str(query)),
    {
        let mut path = self.owner.clone();
        path.append("/");
        path.append(self.repo.as_str());
        path.append(".git");
        match self.rpc {
            GithubGitRpc::InfoRefs => {
                let wanted = match query {
                    Some(q) => same(q, UPLOAD_PACK_SERVICE),
                    None => false,
                };
                if !wanted {
                    return None;
                }
                path.append("/info/refs");
                match join_url(&upstreams.github, path.as_str()) {
                    Some(url) => match with_query(&url, UPLOAD_PACK_SERVICE) {
                        Some(url) => {
                            let kept = match url.query() {
                                Some(q) => same(q, UPLOAD_PACK_SERVICE),
                                None => false,
                            };
                            if kept {
                                Some(url)
                            } else {
                                None
                            }
                        },
                        None => None,
                    },
                    None => None,
                }
            },
            GithubGitRpc::UploadPack => {
                if query.is_some() {
                    return None;
                }
                path.append("/git-upload-pack");
                join_url(&upstreams.github, path.as_str())
            },
        }
    }

    /// Decides what becomes of a request for the repository.
    pub fn resolve(&self, method: Method, query: Option<&str>, upstreams: &RegistryOrigins) -> (r:
        ParsedGitRequest)
        ensures
            r@ == resolved(self@, method, opt_str(query), upstreams),
    {
        match method {
            Method::Get => match self.rpc {
                GithubGitRpc::InfoRefs => {
                    let service = query.unwrap_or("");
                    if query.is_some() && same(service, UPLOAD_PACK_SERVICE) {
                        return match self.upstream_url(upstreams, query) {
                            Some(upstream) => ParsedGitRequest::Forward(
                                GitUpstreamRequest { method: Method::Get, upstream },
                            ),
                            None => ParsedGitRequest::NotGit,
                        };
                    }
                    if query.is_some() && same(service, "service=git-receive-pack") {
                        return ParsedGitRequest::Rejected(405, "git-receive-pack is not supported");
                    }
                    ParsedGitRequest::Rejected(400, "info/refs requires ?service=git-upload-pack")
                },
                GithubGitRpc::UploadPack => ParsedGitRequest::Rejected(
                    405,
                    "git-upload-pack requires POST",
                ),
            },
            Method::Post => match self.rpc {
                GithubGitRpc::UploadPack => {
                    if query.is_some() {
                        return ParsedGitRequest::Rejected(
                            400,
                            "git-upload-pack does not accept query parameters",
                        );
                    }
                    match self.upstream_url(upstreams, None) {
                        Some(upstream) => ParsedGitRequest::Forward(
                            GitUpstreamRequest { method: Method::Post, upstream },
                        ),
                        None => ParsedGitRequest::NotGit,
                    }
                },
                GithubGitRpc::InfoRefs => ParsedGitRequest::Rejected(405, "info/refs requires GET"),
            },
            _ => ParsedGitRequest::Rejected(405, "unsupported git method"),
        }
    }
}

impl GitUpstreamRequest {
    /// Tells whether the body of the request is forwarded.
    pub fn reads_body(&self) -> (r: bool)
        ensures
            r == (self.method == Method::Post),
    {
        match self.method {
            Method::Post => true,
            _ => false,
        }
    }
}

impl ParsedGitRequest {
    /// Decides what becomes of a request.
    pub fn from_request(method: Method, target: &RequestTarget, upstreams: &RegistryOrigins) -> (r:
        ParsedGitRequest)
        ensures
            r@ == git_decision(method, target, upstreams),
    {
        if uri_contains_userinfo(target) {
            return ParsedGitRequest::Rejected(
                403,
                "credential-bearing git requests are not supported",
            );
        }
        if let Method::Connect = method {
            return ParsedGitRequest::Rejected(405, "CONNECT is not supported");
        }
        if target.scheme.is_some() || target.authority.is_some() {
            return ParsedGitRequest::Rejected(400, "absolute-form git requests are not supported");
        }
        match parse_github_git_request_path(target.path.as_str()) {
            Ok(Some(path)) => {
                let query = match &target.query {
                    Some(q) => Some(q.as_str()),
                    None => None,
                };
                path.resolve(method, query, upstreams)
            },
            Ok(None) => ParsedGitRequest::NotGit,
            Err(GitPathError::ReceivePack) => ParsedGitRequest::Rejected(
                405,
                "git-receive-pack is not supported",
            ),
            Err(GitPathError::Invalid) => ParsedGitRequest::Rejected(400, "invalid git path"),
        }
    }
}

/// The answer to a rejected request, and the failure to log.
pub fn rejection(method: &str, target: &RequestTarget, status: u16, message: &str) -> (r: (
    Response<String>,
    Failure,
))
    ensures
        is_simple(r.0, status, PLAIN_TEXT@, message@),
        r.1.wf(),
        r.1.event() == "git_rejected"@,
        r.1.data() == Map::<Seq<char>, Seq<char>>::empty().insert(
            "method"@,
            json_quoted(method@),
        ).insert("path"@, json_quoted(target.path@)).insert(
            "query"@,
            opt_json(opt_text(target.query)),
        ).insert("status"@, decimal(status as nat)).insert("message"@, json_quoted(message@)),
{
    (
        simple_response(status, PLAIN_TEXT, message),
        git_rejection(method, target, status, message),
    )
}

/// Tells whether a target carries credentials.
pub fn uri_contains_userinfo(target: &RequestTarget) -> (r: bool)
    ensures
        r == (target.authority matches Some(a) && a@.contains('@')),
{
    match &target.authority {
        Some(authority) => contains_char(authority.as_str(), '@'),
        None => false,
    }
}

// ---------------------------------------------------------------------------
// Headers
// ---------------------------------------------------------------------------

/// The fields of a request that are forwarded to GitHub.
pub open spec fn allowed_git_header(method: Method, name: Seq<char>) -> bool {
    match method {
        Method::Get => same_ignoring_case(name, "git-protocol"@),
        Method::Post => same_ignoring_case(name, "content-type"@) || same_ignoring_case(
            name,
            "content-encoding"@,
        ) || same_ignoring_case(name, "git-protocol"@),
        _ => false,
    }
}

/// Tells whether a field of a request is forwarded to GitHub.
pub fn is_allowlisted_git_request_header(method: Method, name: &str) -> (r: bool)
    ensures
        r == allowed_git_header(method, name@),
{
    match method {
        Method::Get => eq_ignore_ascii_case(name, "git-protocol"),
        Method::Post => eq_ignore_ascii_case(name, "content-type") || eq_ignore_ascii_case(
            name,
            "content-encoding",
        ) || eq_ignore_ascii_case(name, "git-protocol"),
        _ => false,
    }
}

/// The fields of a request that are forwarded to GitHub.
pub fn forwarded_git_headers(method: Method, headers: &Vec<Header>) -> (r: Vec<Header>)
    ensures
        headers_view(r@) == wanted_headers(
            headers_view(headers@),
            |name: Seq<char>| allowed_git_header(method, name),
        ),
{
    let mut out: Vec<Header> = Vec::new();
    let ghost all = headers_view(headers@);
    let ghost wanted = |name: Seq<char>| allowed_git_header(method, name);
    let mut i: usize = 0;
    proof {
        assert(all.take(0) =~= Seq::<(Seq<char>, Seq<u8>)>::empty());
        assert(headers_view(out@) =~= Seq::<(Seq<char>, Seq<u8>)>::empty());
    }
    while i < headers.len()
        invariant
            i <= headers.len(),
            all == headers_view(headers@),
            wanted == (|name: Seq<char>| allowed_git_header(method, name)),
            headers_view(out@) == wanted_headers(all.take(i as int), wanted),
        decreases headers.len() - i,
    {
        proof {
            assert(all.take(i + 1).drop_last() =~= all.take(i as int));
        }
        let ghost before = out@;
        if is_allowlisted_git_request_header(method, headers[i].name.as_str()) {
            out.push(headers[i].clone());
            proof {
                assert(headers_view(out@) =~= headers_view(before).push(all[i as int]));
            }
        }
        i = i + 1;
    }
    proof {
        assert(all.take(i as int) =~= all);
    }
    out
}

// ---------------------------------------------------------------------------
// Laws
// ---------------------------------------------------------------------------

/// Only reads reach GitHub: discovery of `git-upload-pack` by GET, or its RPC by POST, for a
/// repository whose path ends in `.git`, on GitHub's own origin and with no other query.
pub proof fn only_reads_are_forwarded(
    method: Method,
    target: &RequestTarget,
    upstreams: &RegistryOrigins,
)
    ensures
        git_decision(method, target, upstreams) matches GitDecision::Forward(m, u) ==> {
            &&& m == method
            &&& target.scheme is None && target.authority is None
            &&& u.same_origin(upstreams.github@)
            &&& u.fragment is None
            &&& parsed_git_path(target.path@) matches Ok(Some(p)) && {
                let repository = upstreams.github@.path + (p.owner + "/"@ + p.repo + ".git"@);
                ||| p.rpc is InfoRefs && m == Method::Get && u.query == Some(
                    UPLOAD_PACK_SERVICE@,
                ) && u.path == repository + "/info/refs"@
                ||| p.rpc is UploadPack && m == Method::Post && u.query is None && u.path
                    == repository + "/git-upload-pack"@
            }
        },
{
    if let Ok(Some(p)) = parsed_git_path(target.path@) {
        let name = p.owner + "/"@ + p.repo + ".git"@;
        let base = upstreams.github@.path;
        assert(base + (name + "/info/refs"@) =~= base + name + "/info/refs"@);
        assert(base + (name + "/git-upload-pack"@) =~= base + name + "/git-upload-pack"@);
    }
}

/// A repository is the same with and without `.git` in the request path.
pub proof fn git_suffix_is_optional(name: Seq<char>)
    requires
        !".git"@.is_suffix_of(name),
    ensures
        repo_name(name) == name,
        repo_name(name + ".git"@) == name,
{
    let full = name + ".git"@;
    assert(".git"@ =~= full.subrange(full.len() - ".git"@.len(), full.len() as int));
    assert(full.take(full.len() - ".git"@.len()) =~= name);
}

/// A name of an owner or a repository: not empty, no dot segment, and without slashes, backslashes
/// or escapes.
pub open spec fn is_repository_word(s: Seq<char>) -> bool {
    s.len() > 0 && s != seq!['.'] && s != seq!['.', '.'] && !s.contains('/') && !s.contains('\\')
        && !s.contains('%')
}

proof fn lemma_word(s: Seq<char>)
    ensures
        is_repository_word(s) <==> repo_segment(s),
        is_repository_word(s) ==> !refused_segment(s),
        s.len() == 0 || s == seq!['.'] || s == seq!['.', '.'] || s.contains('%')
            <==> refused_segment(s),
{
    reveal_strlit(".");
    reveal_strlit("..");
    assert("."@ =~= seq!['.']);
    assert(".."@ =~= seq!['.', '.']);
}

/// The parts of a path of three words.
proof fn lemma_three_parts(a: Seq<char>, b: Seq<char>, c: Seq<char>)
    requires
        !a.contains('/') && !b.contains('/') && !c.contains('/'),
    ensures
        split(a + "/"@ + b + "/"@ + c, '/') == seq![a, b, c],
{
    reveal_strlit("/");
    assert("/"@ =~= seq!['/']);
    texts_are_split_at_every_separator(c, '/', c);
    texts_are_split_at_every_separator(b, '/', c);
    let rest = b + seq!['/'] + c;
    texts_are_split_at_every_separator(a, '/', rest);
    assert(a + "/"@ + b + "/"@ + c =~= a + seq!['/'] + rest);
    assert(split(a + seq!['/'] + rest, '/') =~= seq![a, b, c]);
}

/// The parts of a path of four words.
proof fn lemma_four_parts(a: Seq<char>, b: Seq<char>, c: Seq<char>, d: Seq<char>)
    requires
        !a.contains('/') && !b.contains('/') && !c.contains('/') && !d.contains('/'),
    ensures
        split(a + "/"@ + b + "/"@ + c + "/"@ + d, '/') == seq![a, b, c, d],
{
    reveal_strlit("/");
    assert("/"@ =~= seq!['/']);
    let rest = b + "/"@ + c + "/"@ + d;
    lemma_three_parts(b, c, d);
    texts_are_split_at_every_separator(a, '/', rest);
    assert(a + "/"@ + b + "/"@ + c + "/"@ + d =~= a + seq!['/'] + rest);
    assert(split(a + seq!['/'] + rest, '/') =~= seq![a, b, c, d]);
}

/// What stands behind the slash of a path is judged by its parts.
proof fn lemma_parsed(path: Seq<char>, rest: Seq<char>)
    requires
        path == seq!['/'] + rest,
        rest.len() > 0,
        !rest.contains('\\'),
    ensures
        path.drop_first() == rest,
        path[0] == '/',
        path.len() > 1,
        !path.contains('\\'),
{
    assert(path.drop_first() =~= rest);
    if path.contains('\\') {
        let i = choose|i: int| 0 <= i < path.len() && path[i] == '\\';
        assert(rest[i - 1] == '\\');
    }
}

proof fn lemma_no_char(parts: Seq<char>, more: Seq<char>, c: char)
    ensures
        (parts + more).contains(c) <==> parts.contains(c) || more.contains(c),
{
    let all = parts + more;
    if all.contains(c) {
        let i = choose|i: int| 0 <= i < all.len() && all[i] == c;
        if i < parts.len() {
            assert(parts[i] == c);
        } else {
            assert(more[i - parts.len()] == c);
        }
    }
    if parts.contains(c) {
        let i = choose|i: int| 0 <= i < parts.len() && parts[i] == c;
        assert(all[i] == c);
    }
    if more.contains(c) {
        let i = choose|i: int| 0 <= i < more.len() && more[i] == c;
        assert(all[parts.len() + i] == c);
    }
}

proof fn lemma_words_behind(a: Seq<char>, b: Seq<char>, c: Seq<char>)
    requires
        !a.contains('\\') && !b.contains('\\') && !c.contains('\\'),
    ensures
        !(a + "/"@ + b + "/"@ + c).contains('\\'),
{
    reveal_strlit("/");
    assert(!"/"@.contains('\\'));
    lemma_no_char(a, "/"@, '\\');
    lemma_no_char(a + "/"@, b, '\\');
    lemma_no_char(a + "/"@ + b, "/"@, '\\');
    lemma_no_char(a + "/"@ + b + "/"@, c, '\\');
}

/// A repository is read at its owner and its name, with or without `.git` behind the name.
/// Discovery is `info/refs` behind it, the read itself `git-upload-pack`, and `git-receive-pack`
/// is a write.
pub proof fn repositories_are_read_at_owner_and_name(
    owner: Seq<char>,
    segment: Seq<char>,
    name: Seq<char>,
)
    requires
        is_repository_word(owner),
        is_repository_word(name),
        is_repository_word(segment),
        segment == name + ".git"@ || (segment == name && !".git"@.is_suffix_of(name)),
    ensures
        parsed_git_path(seq!['/'] + (owner + "/"@ + segment + "/"@ + "info"@ + "/"@ + "refs"@))
            == Ok::<Option<GitPathView>, GitPathError>(
            Some(GitPathView { owner, repo: name, rpc: GithubGitRpc::InfoRefs }),
        ),
        parsed_git_path(seq!['/'] + (owner + "/"@ + segment + "/"@ + "git-upload-pack"@)) == Ok::<
            Option<GitPathView>,
            GitPathError,
        >(Some(GitPathView { owner, repo: name, rpc: GithubGitRpc::UploadPack })),
        parsed_git_path(seq!['/'] + (owner + "/"@ + segment + "/"@ + "git-receive-pack"@)) == Err::<
            Option<GitPathView>,
            GitPathError,
        >(GitPathError::ReceivePack),
{
    reveal_strlit("/");
    reveal_strlit("info");
    reveal_strlit("refs");
    reveal_strlit("git-upload-pack");
    reveal_strlit("git-receive-pack");
    reveal_strlit(".");
    reveal_strlit("..");
    reveal_strlit(".git");
    lemma_word(owner);
    lemma_word(segment);
    lemma_word(name);
    lemma_word("info"@);
    lemma_word("refs"@);
    lemma_word("git-upload-pack"@);
    lemma_word("git-receive-pack"@);
    let info = owner + "/"@ + segment + "/"@ + "info"@ + "/"@ + "refs"@;
    let upload = owner + "/"@ + segment + "/"@ + "git-upload-pack"@;
    let receive = owner + "/"@ + segment + "/"@ + "git-receive-pack"@;
    lemma_four_parts(owner, segment, "info"@, "refs"@);
    lemma_three_parts(owner, segment, "git-upload-pack"@);
    lemma_three_parts(owner, segment, "git-receive-pack"@);
    lemma_words_behind(owner, segment, "info"@);
    lemma_words_behind(owner, segment, "git-upload-pack"@);
    lemma_words_behind(owner, segment, "git-receive-pack"@);
    lemma_no_char(owner + "/"@ + segment + "/"@ + "info"@, "/"@, '\\');
    lemma_no_char(owner + "/"@ + segment + "/"@ + "info"@ + "/"@, "refs"@, '\\');
    lemma_parsed(seq!['/'] + info, info);
    lemma_parsed(seq!['/'] + upload, upload);
    lemma_parsed(seq!['/'] + receive, receive);
    assert(repo_name(segment) == name) by {
        if segment == name + ".git"@ {
            assert(".git"@ =~= segment.subrange(
                segment.len() - ".git"@.len(),
                segment.len() as int,
            ));
            assert(segment.take(segment.len() - ".git"@.len()) =~= name);
        }
    }
    assert("git-upload-pack"@.len() == 15 && "git-receive-pack"@.len() == 16);
    let three = split(upload, '/');
    assert(three[2] == "git-upload-pack"@);
    assert forall|i: int| 0 <= i < three.len() implies !refused_segment(#[trigger] three[i]) by {}
    let write = split(receive, '/');
    assert(write[2] == "git-receive-pack"@);
    assert forall|i: int| 0 <= i < write.len() implies !refused_segment(#[trigger] write[i]) by {}
    let four = split(info, '/');
    assert(four[2] == "info"@ && four[3] == "refs"@);
    assert forall|i: int| 0 <= i < four.len() implies !refused_segment(#[trigger] four[i]) by {}
}

/// What a path asks for is a repository with a valid owner and name, and a path with a backslash,
/// an empty or a dot segment or an escape is invalid.
pub proof fn invalid_paths_ask_for_nothing(path: Seq<char>, i: int)
    ensures
        parsed_git_path(path) matches Ok(Some(p)) ==> is_repository_word(p.owner)
            && is_repository_word(p.repo),
        path.len() == 0 || path[0] != '/' || path.contains('\\') ==> parsed_git_path(path) == Err::<
            Option<GitPathView>,
            GitPathError,
        >(GitPathError::Invalid),
        path == seq!['/'] ==> parsed_git_path(path) == Ok::<Option<GitPathView>, GitPathError>(
            None,
        ),
        path.len() > 1 && path[0] == '/' && !path.contains('\\') ==> {
            let parts = split(path.drop_first(), '/');
            0 <= i < parts.len() && (parts[i].len() == 0 || parts[i] == seq!['.'] || parts[i]
                == seq!['.', '.'] || parts[i].contains('%')) ==> parsed_git_path(path) == Err::<
                Option<GitPathView>,
                GitPathError,
            >(GitPathError::Invalid)
        },
{
    if let Ok(Some(p)) = parsed_git_path(path) {
        lemma_word(p.owner);
        lemma_word(p.repo);
    }
    if path.len() > 1 {
        let parts = split(path.drop_first(), '/');
        if 0 <= i < parts.len() {
            lemma_word(parts[i]);
        }
    }
    if path == seq!['/'] {
        assert(!path.contains('\\'));
    }
}

/// Discovery and the read of a repository are forwarded to its path on GitHub, which ends in
/// `.git`, and to nowhere else: discovery by GET with the query of `git-upload-pack`, the read by
/// POST without one.
pub proof fn reads_go_to_their_repository(
    owner: Seq<char>,
    repo: Seq<char>,
    upstreams: &RegistryOrigins,
    u: UrlView,
    v: UrlView,
)
    ensures
        ({
            let path = GitPathView { owner, repo, rpc: GithubGitRpc::InfoRefs };
            let query = Some("service=git-upload-pack"@);
            &&& joined(upstreams.github@, owner + "/"@ + repo + ".git"@ + "/info/refs"@) == Some(u)
                && with_query_text(u, "service=git-upload-pack"@) == Some(v) && v.query == query
                ==> git_upstream(path, upstreams, query) == Some(v) && resolved(
                path,
                Method::Get,
                query,
                upstreams,
            ) == GitDecision::Forward(Method::Get, v)
            &&& git_upstream(path, upstreams, query) matches Some(w) ==> w.path
                == upstreams.github@.path + (owner + "/"@ + repo + ".git"@ + "/info/refs"@)
                && w.query == query && w.same_origin(upstreams.github@)
        }),
        ({
            let path = GitPathView { owner, repo, rpc: GithubGitRpc::UploadPack };
            &&& joined(upstreams.github@, owner + "/"@ + repo + ".git"@ + "/git-upload-pack"@)
                == Some(u) ==> git_upstream(path, upstreams, None) == Some(u) && resolved(
                path,
                Method::Post,
                None,
                upstreams,
            ) == GitDecision::Forward(Method::Post, u)
            &&& git_upstream(path, upstreams, None) matches Some(w) ==> w.path
                == upstreams.github@.path + (owner + "/"@ + repo + ".git"@ + "/git-upload-pack"@)
                && w.query is None && w.same_origin(upstreams.github@)
        }),
{
    origins_are_scheme_host_and_port(u, upstreams.github@);
}

/// How a request that is no read of a repository is rejected.
pub proof fn other_requests_are_rejected(
    path: GitPathView,
    method: Method,
    query: Option<Seq<char>>,
    upstreams: &RegistryOrigins,
)
    ensures
        ({
            let r = resolved(path, method, query, upstreams);
            &&& path.rpc is InfoRefs && method == Method::Get && query == Some(
                "service=git-receive-pack"@,
            ) ==> r == GitDecision::Rejected(405, "git-receive-pack is not supported"@)
            &&& path.rpc is InfoRefs && method == Method::Get && query != Some(
                "service=git-receive-pack"@,
            ) && query != Some("service=git-upload-pack"@) ==> r == GitDecision::Rejected(
                400,
                "info/refs requires ?service=git-upload-pack"@,
            )
            &&& path.rpc is InfoRefs && method == Method::Post ==> r == GitDecision::Rejected(
                405,
                "info/refs requires GET"@,
            )
            &&& path.rpc is UploadPack && method == Method::Get ==> r == GitDecision::Rejected(
                405,
                "git-upload-pack requires POST"@,
            )
            &&& path.rpc is UploadPack && method == Method::Post && query is Some ==> r
                == GitDecision::Rejected(400, "git-upload-pack does not accept query parameters"@)
            &&& method != Method::Get && method != Method::Post ==> r == GitDecision::Rejected(
                405,
                "unsupported git method"@,
            )
        }),
{
    reveal_strlit("service=git-receive-pack");
    reveal_strlit("service=git-upload-pack");
    assert("service=git-receive-pack"@.len() != "service=git-upload-pack"@.len());
}

/// Before its path is looked at, a request is rejected where it carries credentials, where it is a
/// CONNECT, and where it is in absolute form, in that order; then by its path.
pub proof fn requests_are_judged_by_their_form_first(
    method: Method,
    target: &RequestTarget,
    upstreams: &RegistryOrigins,
)
    ensures
        ({
            let r = git_decision(method, target, upstreams);
            let credentials = target.authority matches Some(a) && a@.contains('@');
            let absolute = target.scheme is Some || target.authority is Some;
            &&& credentials ==> r == GitDecision::Rejected(
                403,
                "credential-bearing git requests are not supported"@,
            )
            &&& !credentials && method == Method::Connect ==> r == GitDecision::Rejected(
                405,
                "CONNECT is not supported"@,
            )
            &&& !credentials && method != Method::Connect && absolute ==> r
                == GitDecision::Rejected(400, "absolute-form git requests are not supported"@)
            &&& !absolute && method != Method::Connect ==> r == (match parsed_git_path(
                target.path@,
            ) {
                Ok(Some(path)) => resolved(path, method, opt_text(target.query), upstreams),
                Ok(None) => GitDecision::NotGit,
                Err(GitPathError::ReceivePack) => GitDecision::Rejected(
                    405,
                    "git-receive-pack is not supported"@,
                ),
                Err(GitPathError::Invalid) => GitDecision::Rejected(400, "invalid git path"@),
            })
        }),
{
}

/// Of a read no field is forwarded but `git-protocol`, and with a body `content-type` and
/// `content-encoding`; with any other method none is.
pub proof fn few_fields_are_forwarded_to_github(name: Seq<char>)
    ensures
        allowed_git_header(Method::Get, name) <==> same_ignoring_case(name, "git-protocol"@),
        allowed_git_header(Method::Post, name) <==> same_ignoring_case(name, "git-protocol"@)
            || same_ignoring_case(name, "content-type"@) || same_ignoring_case(
            name,
            "content-encoding"@,
        ),
        forall|method: Method|
            method != Method::Get && method != Method::Post ==> !#[trigger] allowed_git_header(
                method,
                name,
            ),
{
}

/// A path of valid segments that is neither discovery, a read nor a write of a repository is no
/// git request, and neither is one whose repository has no name.
pub proof fn other_paths_are_not_git(path: Seq<char>)
    requires
        path.len() > 1 && path[0] == '/' && !path.contains('\\'),
        forall|i: int|
            0 <= i < split(path.drop_first(), '/').len() ==> {
                let part = #[trigger] split(path.drop_first(), '/')[i];
                part.len() > 0 && part != seq!['.'] && part != seq!['.', '.'] && !part.contains('%')
            },
    ensures
        ({
            let parts = split(path.drop_first(), '/');
            let discovery = parts.len() == 4 && parts[2] == "info"@ && parts[3] == "refs"@;
            let read = parts.len() == 3 && parts[2] == "git-upload-pack"@;
            let write = parts.len() == 3 && parts[2] == "git-receive-pack"@;
            &&& !discovery && !read && !write ==> parsed_git_path(path) == Ok::<
                Option<GitPathView>,
                GitPathError,
            >(None)
            &&& (discovery || read) && parts[1] == ".git"@ ==> parsed_git_path(path) == Ok::<
                Option<GitPathView>,
                GitPathError,
            >(None)
        }),
{
    let parts = split(path.drop_first(), '/');
    assert forall|i: int| 0 <= i < parts.len() implies !refused_segment(#[trigger] parts[i]) by {
        lemma_word(parts[i]);
    }
    reveal_strlit(".git");
    if parts.len() > 1 && parts[1] == ".git"@ {
        assert(".git"@ =~= parts[1].subrange(0, 4));
        assert(repo_name(parts[1]).len() == 0);
    }
}

/// What is shown of a repository path and of a decision is what they hold; a body of up to 8 MiB
/// is read.
pub proof fn decisions_show_what_they_hold(
    path: GithubGitPath,
    status: u16,
    message: &'static str,
    request: GitUpstreamRequest,
)
    ensures
        path@.owner == path.owner@ && path@.repo == path.repo@ && path@.rpc == path.rpc,
        opt_path(Some(path)) == Some(path@) && opt_path(None) is None,
        ParsedGitRequest::NotGit@ is NotGit,
        ParsedGitRequest::Rejected(status, message)@ == GitDecision::Rejected(status, message@),
        ParsedGitRequest::Forward(request)@ == GitDecision::Forward(
            request.method,
            request.upstream@,
        ),
        MAX_GIT_REQUEST_BODY_BYTES == 8 * 1024 * 1024,
{
}

} // verus!
