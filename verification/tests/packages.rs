use vampire::cargo::{cargo_config_response, config_request, download_request, index_request, raw_download};
use vampire::http::{raw_path_tail, Header, RequestTarget};
use vampire::npm::{
    allowed_search_parameters, audit_headers, audit_request, packument_request, search_request,
    tarball_request,
};
use vampire::pypi::{file_request, raw_project, simple_project_request, simple_root_request};
use vampire::routes::RegistryOrigins;
use vampire::state::{loopback_upstreams, package_redirect_allowed, MAX_PACKAGE_REDIRECTS};
use vampire::Url;

fn target(text: &str) -> RequestTarget {
    match text.split_once('?') {
        Some((path, query)) => RequestTarget::origin_form(path, Some(query)),
        None => RequestTarget::origin_form(text, None),
    }
}

#[test]
fn preserves_raw_cargo_paths() {
    let uri = target("/cargo/index/se/rd/serde");
    assert_eq!(raw_path_tail(&uri, "/cargo/index/"), Some("se/rd/serde"));
    let uri = target("/cargo/api/v1/crates/demo/1.0.0/download");
    assert_eq!(raw_download(&uri), Some(("demo", "1.0.0")));
}

#[test]
fn rejects_cargo_query_aliases() {
    let uri = target("/cargo/index/se/rd/serde?alias=true");
    assert_eq!(raw_path_tail(&uri, "/cargo/index/"), None);
    let uri = target("/cargo/api/v1/crates/demo/1.0.0/download?alias=true");
    assert_eq!(raw_download(&uri), None);
}

#[test]
fn preserves_raw_project_and_file_paths() {
    let uri = target("/pypi/simple/pkg%2Falias/");
    assert_eq!(raw_project(&uri), Some("pkg%2Falias"));
    let uri = target("/pypi/files/pkg%20name.whl");
    assert_eq!(raw_path_tail(&uri, "/pypi/files/"), Some("pkg%20name.whl"));
}

#[test]
fn rejects_query_aliases() {
    let uri = target("/pypi/simple/pkg/?alias=true");
    assert_eq!(raw_project(&uri), None);
    let uri = target("/pypi/files/pkg.whl?alias=true");
    assert_eq!(raw_path_tail(&uri, "/pypi/files/"), None);
}

#[test]
fn preserves_raw_path_and_rejects_queries() {
    let uri = target("/npm/@scope%2Fname");
    assert_eq!(raw_path_tail(&uri, "/npm/"), Some("@scope%2Fname"));
    let uri = target("/npm/pkg?alias=true");
    assert_eq!(raw_path_tail(&uri, "/npm/"), None);
}

#[test]
fn package_redirects_stay_on_the_original_origin() {
    let original = Url::parse("https://registry.example/pkg").unwrap();
    let previous = vec![original.clone()];
    assert!(package_redirect_allowed(
        &Url::parse("https://registry.example:443/other").unwrap(),
        &previous
    ));
    for target in [
        "http://registry.example/other",
        "https://other.example/other",
        "https://registry.example:444/other",
        "https://user@registry.example/other",
    ] {
        assert!(!package_redirect_allowed(
            &Url::parse(target).unwrap(),
            &previous
        ));
    }
}

#[test]
fn package_redirects_have_a_hop_limit() {
    let original = Url::parse("https://registry.example/pkg").unwrap();
    let allowed = vec![original.clone(); MAX_PACKAGE_REDIRECTS];
    assert!(package_redirect_allowed(&original, &allowed));
    let rejected = vec![original.clone(); MAX_PACKAGE_REDIRECTS + 1];
    assert!(!package_redirect_allowed(&original, &rejected));
    assert!(!package_redirect_allowed(&original, &Vec::new()));
}

#[test]
fn custom_upstreams_are_loopback_addresses() {
    let error = loopback_upstreams("192.0.2.1:80", false).unwrap_err();
    assert_eq!(error.kind, vampire::error::ErrorKind::InvalidInput);
    assert_eq!(error.message, "test upstream must use a loopback address");
    let upstreams = loopback_upstreams("127.0.0.1:80", true).unwrap();
    assert_eq!(upstreams.pypi_files.as_str(), "http://127.0.0.1/");
    assert!(loopback_upstreams("127.0.0.1:x", true).is_err());
}

#[test]
fn downloads_name_a_crate_and_a_version() {
    for path in [
        "/cargo/api/v1/crates/demo/download",
        "/cargo/api/v1/crates//1.0.0/download",
        "/cargo/api/v1/crates/demo//download",
        "/cargo/api/v1/crates/demo/1/2/download",
        "/cargo/api/v1/crates/demo/1.0.0",
        "/cargo/api/v1/demo/1.0.0/download",
        "/cargo/api/v1/crates/download",
    ] {
        assert_eq!(raw_download(&target(path)), None, "{path}");
    }
    let upstreams = RegistryOrigins::default();
    let request =
        download_request(&target("/cargo/api/v1/crates/demo/1.0.0/download"), &upstreams).unwrap();
    assert_eq!(
        request.upstream.as_str(),
        "https://static.crates.io/crates/demo/demo-1.0.0.crate"
    );
    assert_eq!(request.label, "cargo_download");
    assert!(download_request(&target("/cargo/api/v1/crates/demo/%41/download"), &upstreams).is_none());
}

#[test]
fn index_files_are_served_raw() {
    let upstreams = RegistryOrigins::default();
    let request = index_request(&target("/cargo/index/se/rd/serde"), &upstreams).unwrap();
    assert_eq!(request.upstream.as_str(), "https://index.crates.io/se/rd/serde");
    assert_eq!(request.label, "cargo_index");
    assert_eq!(request.rewrite.cache_identity(), "raw:v1");
    assert!(index_request(&target("/cargo/index/"), &upstreams).is_none());
    assert!(index_request(&target("/cargo/index/../x"), &upstreams).is_none());
}

#[test]
fn the_index_configuration_is_synthetic() {
    let get = cargo_config_response("http://o", false);
    let head = cargo_config_response("http://o", true);
    assert_eq!(get.status, 200);
    assert_eq!(get.body, br#"{"dl":"http://o/cargo/api/v1/crates"}"#.to_vec());
    assert_eq!(head.headers, get.headers);
    assert!(head.body.is_empty());
    assert_eq!(
        get.headers,
        vec![
            ("content-type".to_owned(), "application/json".to_owned()),
            ("content-length".to_owned(), get.body.len().to_string()),
        ]
    );
    assert!(config_request(&target("/cargo/index/config.json?x"), "http://o", false).is_none());
    assert!(config_request(&target("/cargo/index/config.json"), "http://o", true).is_some());
}

#[test]
fn announced_downloads_are_served() {
    let config = String::from_utf8(cargo_config_response("http://o", false).body).unwrap();
    let value: serde_json::Value = serde_json::from_str(&config).unwrap();
    let announced = format!("{}/demo/1.0.0/download", value["dl"].as_str().unwrap());
    let path = announced.strip_prefix("http://o").unwrap();
    assert_eq!(raw_download(&target(path)), Some(("demo", "1.0.0")));
}

#[test]
fn simple_pages_are_rewritten() {
    let upstreams = RegistryOrigins::default();
    let root = simple_root_request(&target("/pypi/simple/"), &upstreams, "http://o").unwrap();
    assert_eq!(root.upstream.as_str(), "https://pypi.org/simple/");
    assert_eq!(root.rewrite.cache_identity(), "pypi:v2:http://o");
    assert_eq!(root.label, "pypi_simple");
    assert!(simple_root_request(&target("/pypi/simple/?x"), &upstreams, "http://o").is_none());
    let page = simple_project_request(&target("/pypi/simple/pkg/"), &upstreams, "http://o").unwrap();
    assert_eq!(page.upstream.as_str(), "https://pypi.org/simple/pkg/");
    for path in [
        "/pypi/simple/..%2F..%2Fadmin/",
        "/pypi/simple/a/b/",
        "/pypi/simple/a",
        "/pypi/simple//",
        "/pypi/simple/",
        "/other/a/",
    ] {
        assert!(
            simple_project_request(&target(path), &upstreams, "http://o").is_none(),
            "{path}"
        );
    }
}

#[test]
fn rewritten_links_lead_back() {
    let upstreams = RegistryOrigins::default();
    let served = vampire::rewrite::rewrite_pypi_href(
        "https://files.pythonhosted.org/packages/%70kg.whl#sha256=abc",
        &upstreams,
        "http://o",
    );
    assert_eq!(served, "http://o/pypi/files/packages/pkg.whl#sha256=abc");
    let request = file_request(&target("/pypi/files/packages/pkg.whl"), &upstreams).unwrap();
    assert_eq!(
        request.upstream.as_str(),
        "https://files.pythonhosted.org/packages/pkg.whl"
    );
    assert_eq!(request.label, "pypi_files");
    let served = vampire::rewrite::rewrite_pypi_href(
        "https://pypi.org/simple/%70kg/",
        &upstreams,
        "http://o",
    );
    assert_eq!(served, "http://o/pypi/simple/pkg/");
    let page = simple_project_request(&target("/pypi/simple/pkg/"), &upstreams, "http://o").unwrap();
    assert_eq!(page.upstream.as_str(), "https://pypi.org/simple/pkg/");
    let served = vampire::packument::rewrite_npm_tarball(
        "https://registry.npmjs.org/pkg/-/pkg-1.0.0.tgz",
        &upstreams,
        "http://o",
    )
    .unwrap();
    assert_eq!(served, "http://o/npm/tarballs/pkg/-/pkg-1.0.0.tgz");
    let request = tarball_request(&target("/npm/tarballs/pkg/-/pkg-1.0.0.tgz"), &upstreams).unwrap();
    assert_eq!(
        request.upstream.as_str(),
        "https://registry.npmjs.org/pkg/-/pkg-1.0.0.tgz"
    );
    assert_eq!(request.label, "npm");
    assert_eq!(
        vampire::packument::rewrite_parsed_tarball(&Url::https("registry.npmjs.org"), &upstreams, "o"),
        None
    );
    assert_eq!(vampire::packument::dist_value("tarball", "1", Some("a\"")), "\"a\\\"\"");
    assert_eq!(vampire::packument::dist_value("other", "1", Some("a")), "1");
    assert_eq!(vampire::packument::dist_value("tarball", "1", None), "1");
}

#[test]
fn packuments_come_from_the_registry() {
    let upstreams = RegistryOrigins::default();
    let request = packument_request(&target("/npm/@scope%2fname"), &upstreams, "http://o").unwrap();
    assert_eq!(
        request.upstream.as_str(),
        "https://registry.npmjs.org/@scope%2Fname"
    );
    assert_eq!(request.rewrite.cache_identity(), "npm:v2:http://o");
    for path in ["/npm/", "/npm/a/b", "/npm/@/x", "/npm/@%2Fx", "/npm/@scope%2F", "/npm/@scope"] {
        assert!(packument_request(&target(path), &upstreams, "o").is_none(), "{path}");
    }
}

#[test]
fn searches_take_known_parameters() {
    let upstreams = RegistryOrigins::default();
    let query = "text=%40scope%2Fdemo&size=1&from=0&quality=0.65&popularity=0.98&maintenance=0.5";
    let url = search_request(&target(&format!("/npm/-/v1/search?{query}")), &upstreams).unwrap();
    assert_eq!(
        url.as_str(),
        format!("https://registry.npmjs.org/-/v1/search?{query}")
    );
    assert_eq!(
        search_request(&target("/npm/-/v1/search"), &upstreams).unwrap().as_str(),
        "https://registry.npmjs.org/-/v1/search"
    );
    for path in [
        "/npm/-/v1/search?text=demo&registry=https://example.com",
        "/npm/-/v1/search?Text=demo",
        "/npm/-/v1/search?=demo",
        "/npm/-/v1/search/?text=demo",
        "/npm/%2D/v1/search?text=demo",
    ] {
        assert!(search_request(&target(path), &upstreams).is_none(), "{path}");
    }
    assert!(search_request(&target("/npm/-/v1/search?te%78t=demo"), &upstreams).is_some());
    assert!(allowed_search_parameters(&Vec::new()));
    assert!(!allowed_search_parameters(&vec!["text".to_owned(), "x".to_owned()]));
}

#[test]
fn audits_have_two_paths_and_no_query() {
    let upstreams = RegistryOrigins::default();
    for path in [
        "-/npm/v1/security/advisories/bulk",
        "-/npm/v1/security/audits/quick",
    ] {
        let url = audit_request(&target(&format!("/npm/{path}")), &upstreams).unwrap();
        assert_eq!(url.as_str(), format!("https://registry.npmjs.org/{path}"));
        assert!(audit_request(&target(&format!("/npm/{path}?alias=true")), &upstreams).is_none());
    }
    assert!(audit_request(&target("/npm/-/npm/v1/security/unknown"), &upstreams).is_none());
    let headers = vec![
        Header::new("authorization", "Bearer client-secret"),
        Header::new("content-encoding", "gzip"),
        Header::new("content-type", "application/json"),
        Header::new("content-type", "text/plain"),
    ];
    let forwarded: Vec<(String, Vec<u8>)> = audit_headers(&headers)
        .into_iter()
        .map(|header| (header.name, header.value))
        .collect();
    assert_eq!(
        forwarded,
        vec![
            ("content-type".to_owned(), b"application/json".to_vec()),
            ("content-encoding".to_owned(), b"gzip".to_vec()),
        ]
    );
}
