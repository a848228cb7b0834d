use vampire::git::{
    forwarded_git_headers, is_allowlisted_git_request_header, parse_github_git_request_path,
    rejection, uri_contains_userinfo, valid_repo_segment, GitPathError, GithubGitPath,
    GithubGitRpc, ParsedGitRequest, MAX_GIT_REQUEST_BODY_BYTES,
};
use vampire::http::{end_to_end_headers, is_hop_header, Header, Method, RequestTarget};
use vampire::routes::RegistryOrigins;

#[test]
fn builds_git_upstream_urls() {
    let upstreams = RegistryOrigins::default();
    assert!(
        GithubGitPath::new("rust-lang", "cargo", GithubGitRpc::InfoRefs)
            .and_then(|path| path.upstream_url(&upstreams, Some("service=git-upload-pack")))
            .is_some()
    );
    assert!(
        GithubGitPath::new("rust-lang", "cargo", GithubGitRpc::UploadPack)
            .and_then(|path| path.upstream_url(&upstreams, None))
            .is_some()
    );
}

#[test]
fn rejects_invalid_github_git_shapes() {
    let upstreams = RegistryOrigins::default();
    assert!(
        GithubGitPath::new("rust-lang", "cargo", GithubGitRpc::InfoRefs)
            .and_then(|path| path.upstream_url(&upstreams, None))
            .is_none()
    );
    assert!(
        GithubGitPath::new("rust-lang", "cargo", GithubGitRpc::InfoRefs)
            .and_then(|path| path.upstream_url(&upstreams, Some("service=git-receive-pack")))
            .is_none()
    );
    assert!(GithubGitPath::new("..", "cargo", GithubGitRpc::UploadPack).is_none());
    assert!(GithubGitPath::new("rust-lang", "a/b", GithubGitRpc::UploadPack).is_none());
}

#[test]
fn rejects_noncanonical_git_paths() {
    for path in [
        "//rust-lang/cargo.git/info/refs",
        "/rust-lang/./cargo.git/info/refs",
        "/rust-lang/cargo.git/./git-upload-pack",
        "/rust-lang/%63argo.git/info/refs",
        "/rust-lang/cargo%2fgit/info/refs",
        "/rust-lang/cargo.git/info/%72efs",
        "/rust-lang/cargo.git/info/%zz",
    ] {
        assert!(
            parse_github_git_request_path(path).is_err(),
            "path should be rejected: {path}"
        );
    }
}

#[test]
fn leaves_plain_non_git_paths_unmatched() {
    assert_eq!(parse_github_git_request_path("/login").unwrap(), None);
    assert_eq!(
        parse_github_git_request_path("/rust-lang/cargo").unwrap(),
        None
    );
}

#[test]
fn repository_names_take_an_optional_suffix() {
    for path in ["/octocat/Hello-World/info/refs", "/octocat/Hello-World.git/info/refs"] {
        let parsed = parse_github_git_request_path(path).unwrap().unwrap();
        assert_eq!(parsed.owner, "octocat");
        assert_eq!(parsed.repo, "Hello-World");
        assert_eq!(parsed.rpc, GithubGitRpc::InfoRefs);
    }
    for path in [
        "/octocat/Hello-World/git-upload-pack",
        "/octocat/Hello-World.git/git-upload-pack",
    ] {
        let parsed = parse_github_git_request_path(path).unwrap().unwrap();
        assert_eq!(parsed.repo, "Hello-World");
        assert_eq!(parsed.rpc, GithubGitRpc::UploadPack);
    }
    for path in [
        "/octocat/Hello-World/git-receive-pack",
        "/octocat/Hello-World.git/git-receive-pack",
    ] {
        assert_eq!(
            parse_github_git_request_path(path),
            Err(GitPathError::ReceivePack)
        );
    }
    assert_eq!(parse_github_git_request_path("/"), Ok(None));
    assert_eq!(parse_github_git_request_path("/a/.git/info/refs"), Ok(None));
    assert_eq!(
        parse_github_git_request_path(""),
        Err(GitPathError::Invalid)
    );
    assert_eq!(
        parse_github_git_request_path("/a\\b/c/info/refs"),
        Err(GitPathError::Invalid)
    );
    assert_eq!(
        parse_github_git_request_path("/a/b/info/refs/"),
        Err(GitPathError::Invalid)
    );
    assert!(valid_repo_segment("a.b"));
    assert!(!valid_repo_segment("a%b"));
}

fn decide(method: Method, path: &str, query: Option<&str>) -> ParsedGitRequest {
    ParsedGitRequest::from_request(
        method,
        &RequestTarget::origin_form(path, query),
        &RegistryOrigins::default(),
    )
}

fn rejected(request: &ParsedGitRequest) -> (u16, &'static str) {
    match request {
        ParsedGitRequest::Rejected(status, message) => (*status, message),
        ParsedGitRequest::NotGit | ParsedGitRequest::Forward(_) => panic!("not rejected"),
    }
}

#[test]
fn reads_are_forwarded_to_github() {
    match decide(
        Method::Get,
        "/octocat/Hello-World/info/refs",
        Some("service=git-upload-pack"),
    ) {
        ParsedGitRequest::Forward(request) => {
            assert_eq!(request.method, Method::Get);
            assert!(!request.reads_body());
            assert_eq!(
                request.upstream.as_str(),
                "https://github.com/octocat/Hello-World.git/info/refs?service=git-upload-pack"
            );
        }
        _ => panic!("not forwarded"),
    }
    match decide(Method::Post, "/octocat/Hello-World.git/git-upload-pack", None) {
        ParsedGitRequest::Forward(request) => {
            assert_eq!(request.method, Method::Post);
            assert!(request.reads_body());
            assert_eq!(
                request.upstream.as_str(),
                "https://github.com/octocat/Hello-World.git/git-upload-pack"
            );
        }
        _ => panic!("not forwarded"),
    }
}

#[test]
fn everything_else_is_rejected_locally() {
    let refs = "/octocat/Hello-World.git/info/refs";
    let pack = "/octocat/Hello-World.git/git-upload-pack";
    for (method, path, query, expected) in [
        (
            Method::Get,
            refs,
            Some("service=git-receive-pack"),
            (405, "git-receive-pack is not supported"),
        ),
        (
            Method::Get,
            refs,
            None,
            (400, "info/refs requires ?service=git-upload-pack"),
        ),
        (
            Method::Get,
            refs,
            Some("service=git-upload-pack&x"),
            (400, "info/refs requires ?service=git-upload-pack"),
        ),
        (Method::Get, pack, None, (405, "git-upload-pack requires POST")),
        (
            Method::Post,
            pack,
            Some("x"),
            (400, "git-upload-pack does not accept query parameters"),
        ),
        (Method::Post, refs, None, (405, "info/refs requires GET")),
        (Method::Head, refs, None, (405, "unsupported git method")),
        (Method::Other, pack, None, (405, "unsupported git method")),
        (Method::Connect, refs, None, (405, "CONNECT is not supported")),
        (
            Method::Post,
            "/octocat/Hello-World/git-receive-pack",
            None,
            (405, "git-receive-pack is not supported"),
        ),
        (Method::Get, "/a//b", None, (400, "invalid git path")),
    ] {
        assert_eq!(rejected(&decide(method, path, query)), expected);
    }
    assert!(matches!(
        decide(Method::Get, "/stats", None),
        ParsedGitRequest::NotGit
    ));
    assert!(matches!(
        decide(
            Method::Get,
            "/octocat/a{b/info/refs",
            Some("service=git-upload-pack")
        ),
        ParsedGitRequest::NotGit
    ));
}

#[test]
fn absolute_targets_and_credentials_are_rejected() {
    let target = |scheme: Option<&str>, authority: Option<&str>| RequestTarget {
        scheme: scheme.map(str::to_owned),
        authority: authority.map(str::to_owned),
        path: "/octocat/Hello-World.git/info/refs".to_owned(),
        query: Some("service=git-upload-pack".to_owned()),
    };
    let upstreams = RegistryOrigins::default();
    let with_user = target(Some("https"), Some("user@github.com"));
    assert!(uri_contains_userinfo(&with_user));
    assert_eq!(
        rejected(&ParsedGitRequest::from_request(
            Method::Connect,
            &with_user,
            &upstreams
        )),
        (403, "credential-bearing git requests are not supported")
    );
    assert_eq!(
        rejected(&ParsedGitRequest::from_request(
            Method::Get,
            &target(Some("https"), Some("github.com")),
            &upstreams
        )),
        (400, "absolute-form git requests are not supported")
    );
}

#[test]
fn rejections_are_plain_answers() {
    let target = RequestTarget::origin_form("/a//b", Some("q\"x"));
    let (response, failure) = rejection("GET", &target, 400, "invalid git path");
    assert_eq!(response.status, 400);
    assert_eq!(response.body, "invalid git path");
    assert_eq!(
        response.headers,
        vec![
            (
                "content-type".to_owned(),
                "text/plain; charset=utf-8".to_owned()
            ),
            ("content-length".to_owned(), "16".to_owned()),
        ]
    );
    assert_eq!(
        vampire::failure_log::format_failure(5, &failure),
        r#"{"data":{"message":"invalid git path","method":"GET","path":"/a//b","query":"q\"x","status":400},"event":"git_rejected","level":"error","ts_ms":5}"#
    );
}

#[test]
fn only_listed_headers_are_forwarded() {
    let headers = vec![
        Header::new("authorization", "Basic Zm9vOmJhcg=="),
        Header::new("git-protocol", "version=2"),
        Header::new("content-type", "application/x-git-upload-pack-request"),
        Header::new("content-encoding", "gzip"),
        Header::new("cookie", "session=abc"),
    ];
    let names = |method: Method| -> Vec<String> {
        forwarded_git_headers(method, &headers)
            .into_iter()
            .map(|header| header.name)
            .collect()
    };
    assert_eq!(names(Method::Get), ["git-protocol"]);
    assert_eq!(
        names(Method::Post),
        ["git-protocol", "content-type", "content-encoding"]
    );
    assert!(names(Method::Other).is_empty());
    assert!(is_allowlisted_git_request_header(Method::Get, "Git-Protocol"));
    assert_eq!(MAX_GIT_REQUEST_BODY_BYTES, 8 * 1024 * 1024);
}

#[test]
fn connection_headers_stay_behind() {
    for name in [
        "Connection",
        "keep-alive",
        "proxy-authenticate",
        "proxy-authorization",
        "TE",
        "trailer",
        "Transfer-Encoding",
        "upgrade",
    ] {
        assert!(is_hop_header(name), "{name}");
    }
    assert!(!is_hop_header("content-length"));
    let kept = end_to_end_headers(&vec![
        Header::new("te", "x"),
        Header::new("x-a", "1"),
        Header::new("upgrade", "y"),
        Header::new("x-b", "2"),
    ]);
    let names: Vec<&str> = kept.iter().map(|header| header.name.as_str()).collect();
    assert_eq!(names, ["x-a", "x-b"]);
}
