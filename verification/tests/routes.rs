use vampire::packument::{rewrite_npm_json, rewrite_npm_text, write_npm_members, NpmObject};
use vampire::paths::{canonical_path, canonical_rewrite_path, canonical_segment, hex_value};
use vampire::rewrite::{
    rewrite_absolute_link, rewrite_pypi_href, rewrite_pypi_html, rewrite_relative_link,
    LimitedOutput, MAX_METADATA_BODY_LEN, OUTPUT_LIMIT,
};
use vampire::routes::{
    build_url, cargo_config, cargo_download_url, cargo_index_url, is_under, join_url,
    npm_packument_url, npm_tarball_url, pypi_file_url, pypi_simple_url, with_query,
    RegistryOrigins,
};
use vampire::Url;

#[test]
fn rewritten_output_stops_at_limit() {
    let mut output = LimitedOutput::new(0, 4);
    output.extend(b"1234").unwrap();
    assert!(output.extend(b"5").is_err());
}

#[test]
fn builds_urls() {
    let upstreams = RegistryOrigins::default();
    assert!(cargo_index_url(&upstreams, "config.json").is_some());
    assert!(cargo_download_url(&upstreams, "serde", "1.0.0").is_some());
    assert!(npm_packument_url(&upstreams, "@scope%2Fname").is_some());
    assert!(pypi_simple_url(&upstreams, Some("pkg")).is_some());
    assert!(pypi_file_url("packages/pkg.whl", &upstreams).is_some());
    assert!(npm_tarball_url("pkg/-/pkg-1.0.0.tgz", &upstreams).is_some());
    assert_eq!(upstreams.github.as_str(), "https://github.com/");
}

#[test]
fn rejects_slash_containing_pypi_projects() {
    let upstreams = RegistryOrigins::default();
    assert!(pypi_simple_url(&upstreams, Some("../../admin")).is_none());
    assert!(pypi_simple_url(&upstreams, Some("pkg/extra")).is_none());
}

#[test]
fn rejects_pypi_project_delimiters() {
    let upstreams = RegistryOrigins::default();
    assert!(pypi_simple_url(&upstreams, Some("pkg?query")).is_none());
    assert!(pypi_simple_url(&upstreams, Some("pkg#fragment")).is_none());
}

#[test]
fn rewrites_pypi_html_links() {
    let body = br#"<a href="https://files.pythonhosted.org/packages/pkg.whl#sha256=abc">pkg</a>"#;
    let upstreams = RegistryOrigins::default();
    let rewritten = String::from_utf8(
        rewrite_pypi_html(body, &upstreams, "http://localhost", MAX_METADATA_BODY_LEN).unwrap(),
    )
    .unwrap();
    assert!(rewritten.contains("http://localhost/pypi/files/packages/pkg.whl#sha256=abc"));
}

#[test]
fn canonicalizes_safe_encoded_rewrite_paths() {
    let upstreams = RegistryOrigins::default();
    let body =
        br#"<a href="https://files.pythonhosted.org/packages/%70kg%20caf%c3%a9.whl">pkg</a>"#;
    let rewritten = String::from_utf8(
        rewrite_pypi_html(body, &upstreams, "http://localhost", MAX_METADATA_BODY_LEN).unwrap(),
    )
    .unwrap();
    assert!(rewritten.contains("/pypi/files/packages/pkg%20caf%C3%A9.whl"));
}

#[test]
fn leaves_encoded_separator_links_direct() {
    let upstreams = RegistryOrigins::default();
    let body = br#"<a href="https://files.pythonhosted.org/packages/pkg%2Falias.whl">pkg</a>"#;
    let rewritten = String::from_utf8(
        rewrite_pypi_html(body, &upstreams, "http://localhost", MAX_METADATA_BODY_LEN).unwrap(),
    )
    .unwrap();
    assert!(rewritten.contains("https://files.pythonhosted.org/packages/pkg%2Falias.whl"));
}

#[test]
fn rewrites_npm_tarballs() {
    let upstreams = RegistryOrigins::default();
    let value: serde_json::Value = serde_json::from_str(
        r#"{
            "versions": {
                "1.0.0": {
                    "dist": { "tarball": "https://registry.npmjs.org/pkg/-/pkg-1.0.0.tgz" }
                }
            }
        }"#,
    )
    .unwrap();
    let body = serde_json::to_vec(&value).unwrap();
    let rewritten = serde_json::from_slice::<serde_json::Value>(
        &rewrite_npm_json(&body, &upstreams, "http://localhost", MAX_METADATA_BODY_LEN).unwrap(),
    )
    .unwrap();
    assert_eq!(
        rewritten["versions"]["1.0.0"]["dist"]["tarball"].as_str().unwrap(),
        "http://localhost/npm/tarballs/pkg/-/pkg-1.0.0.tgz"
    );
}

#[test]
fn rewrites_root_npm_tarball() {
    let upstreams = RegistryOrigins::default();
    let value: serde_json::Value = serde_json::from_str(
        r#"{
            "name": "pkg",
            "version": "1.0.0",
            "dist": { "tarball": "https://registry.npmjs.org/pkg/-/pkg-1.0.0.tgz" }
        }"#,
    )
    .unwrap();
    let body = serde_json::to_vec(&value).unwrap();
    let rewritten = serde_json::from_slice::<serde_json::Value>(
        &rewrite_npm_json(&body, &upstreams, "http://localhost", MAX_METADATA_BODY_LEN).unwrap(),
    )
    .unwrap();
    assert_eq!(
        rewritten["dist"]["tarball"].as_str().unwrap(),
        "http://localhost/npm/tarballs/pkg/-/pkg-1.0.0.tgz"
    );
}

#[test]
fn rejects_absolute_npm_upstream_paths() {
    let upstreams = RegistryOrigins::default();
    assert!(npm_packument_url(&upstreams, "http://127.0.0.1:18080/").is_none());
    assert!(npm_packument_url(&upstreams, "//127.0.0.1:18080/").is_none());
}

#[test]
fn rejects_absolute_cargo_index_paths() {
    let upstreams = RegistryOrigins::default();
    assert!(cargo_index_url(&upstreams, "http://127.0.0.1:18080/").is_none());
    assert!(cargo_index_url(&upstreams, "//127.0.0.1:18080/").is_none());
}

#[test]
fn preserves_scoped_npm_package_encoding() {
    let upstreams = RegistryOrigins::default();
    for package in ["@scope%2Fname", "@scope%2fname"] {
        let url = npm_packument_url(&upstreams, package).unwrap();
        assert_eq!(url.as_str(), "https://registry.npmjs.org/@scope%2Fname");
    }
}

#[test]
fn rejects_noncanonical_paths() {
    let upstreams = RegistryOrigins::default();
    for path in [
        "pkg#one",
        "pkg?one",
        "pkg\\name",
        "pkg//name",
        "pkg/../name",
        "pkg/%2E%2E/name",
        "pkg/%2Fname",
        "pkg/%5Cname",
        "pkg/%23one",
        "pkg/%3Fone",
        "pkg/%6Eame",
        "pkg/%zz",
        "pkg/%2f",
    ] {
        assert!(npm_tarball_url(path, &upstreams).is_none(), "{path}");
    }
}

#[test]
fn accepts_canonical_safe_encoded_paths() {
    let upstreams = RegistryOrigins::default();
    let url = pypi_file_url("packages/pkg%20caf%C3%A9.whl", &upstreams).unwrap();
    assert_eq!(
        url.as_str(),
        "https://files.pythonhosted.org/packages/pkg%20caf%C3%A9.whl"
    );
}

#[test]
fn rejects_scoped_npm_aliases() {
    let upstreams = RegistryOrigins::default();
    for package in [
        "@scope/name",
        "@scope%252Fname",
        "@scope%2Fna%6De",
        "@scope%2Fname%2Fextra",
    ] {
        assert!(npm_packument_url(&upstreams, package).is_none(), "{package}");
    }
}

#[test]
fn cargo_config_uses_origin() {
    let body = String::from_utf8(cargo_config("https://mirror.example")).unwrap();
    assert!(body.contains("https://mirror.example/cargo/api/v1/crates"));
}

#[test]
fn cargo_config_is_exact_and_escapes_the_origin() {
    assert_eq!(
        cargo_config("https://mirror.example"),
        br#"{"dl":"https://mirror.example/cargo/api/v1/crates"}"#.to_vec()
    );
    assert_eq!(
        cargo_config("a\"\\\u{8}\t\n\u{c}\r\u{1f}\u{7f}é"),
        "{\"dl\":\"a\\\"\\\\\\b\\t\\n\\f\\r\\u001f\u{7f}é/cargo/api/v1/crates\"}"
            .as_bytes()
            .to_vec()
    );
}

#[test]
fn default_origins_are_what_the_parser_gives() {
    let upstreams = RegistryOrigins::default();
    for (url, text) in [
        (&upstreams.cargo_download, "https://static.crates.io/"),
        (&upstreams.cargo_index, "https://index.crates.io/"),
        (&upstreams.github, "https://github.com/"),
        (&upstreams.npm, "https://registry.npmjs.org/"),
        (&upstreams.pypi_files, "https://files.pythonhosted.org/"),
        (&upstreams.pypi_simple, "https://pypi.org/"),
    ] {
        let parsed = Url::parse(text).unwrap();
        assert_eq!(url.as_str(), parsed.as_str());
        assert_eq!(url.scheme(), parsed.scheme());
        assert_eq!(url.username(), parsed.username());
        assert_eq!(url.password(), parsed.password());
        assert_eq!(url.host_str(), parsed.host_str());
        assert_eq!(url.port(), parsed.port());
        assert_eq!(url.port_or_known_default(), parsed.port_or_known_default());
        assert_eq!(url.path(), parsed.path());
        assert_eq!(url.query(), parsed.query());
        assert_eq!(url.fragment(), parsed.fragment());
    }
}

#[test]
fn parses_urls_into_their_parts() {
    let url = Url::parse("HTTPS://user:pw@Example.COM:8443/a%20b/../c?x=1#frag").unwrap();
    assert_eq!(url.as_str(), "https://user:pw@example.com:8443/c?x=1#frag");
    assert_eq!(url.scheme(), "https");
    assert_eq!(url.username(), "user");
    assert_eq!(url.password(), Some("pw"));
    assert_eq!(url.host_str(), Some("example.com"));
    assert_eq!(url.port(), Some(8443));
    assert_eq!(url.path(), "/c");
    assert_eq!(url.query(), Some("x=1"));
    assert_eq!(url.fragment(), Some("frag"));
    assert!(!url.without_credentials());
    assert_eq!(url.origin_text(), "https://example.com:8443");
    assert_eq!(
        Url::parse("not a url").unwrap_err(),
        url::Url::parse("not a url").unwrap_err().to_string()
    );
}

#[test]
fn known_ports_follow_the_scheme() {
    for text in [
        "http://h/", "ws://h/", "https://h/", "wss://h/", "ftp://h/", "git://h/", "http://h:81/",
    ] {
        assert_eq!(
            Url::parse(text).unwrap().port_or_known_default(),
            url::Url::parse(text).unwrap().port_or_known_default(),
            "{text}"
        );
    }
}

#[test]
fn origin_text_is_the_ascii_serialization() {
    for text in ["http://h/", "https://h:443/x", "https://h:8443/x", "http://[::1]:80/"] {
        assert_eq!(
            Url::parse(text).unwrap().origin_text(),
            url::Url::parse(text).unwrap().origin().ascii_serialization(),
            "{text}"
        );
    }
}

#[test]
fn joined_urls_lie_under_their_base() {
    let base = Url::parse("http://127.0.0.1:9/mirror/").unwrap();
    let url = join_url(&base, "a/b/").unwrap();
    assert_eq!(url.as_str(), "http://127.0.0.1:9/mirror/a/b/");
    assert!(is_under(&url, &base, "a/b/"));
    assert!(!is_under(&url, &base, "a/b"));
    assert!(join_url(&base, "/a").is_none());
    assert!(join_url(&base, "").is_none());
    assert!(join_url(&base, "a{b").is_none());
    assert!(build_url(&Url::parse("http://127.0.0.1:9/mirror").unwrap(), "a").is_none());
    assert!(build_url(&Url::parse("http://u@127.0.0.1:9/").unwrap(), "a").is_none());
    assert!(build_url(&Url::parse("http://127.0.0.1:9/?q").unwrap(), "a").is_none());
    assert!(build_url(&Url::parse("http://127.0.0.1:9/#f").unwrap(), "a").is_none());
    assert!(build_url(&base, "mailto:a").is_none());
}

#[test]
fn queries_are_added_as_they_are() {
    let base = Url::parse("https://registry.npmjs.org/-/v1/search").unwrap();
    let url = with_query(&base, "text=%40scope%2Fdemo&size=1").unwrap();
    assert_eq!(
        url.as_str(),
        "https://registry.npmjs.org/-/v1/search?text=%40scope%2Fdemo&size=1"
    );
    let mut expected = url::Url::parse(base.as_str()).unwrap();
    expected.set_query(Some("text='a b'&from=0"));
    assert_eq!(
        with_query(&base, "text='a b'&from=0").unwrap().as_str(),
        expected.as_str()
    );
    expected.set_query(Some(""));
    assert_eq!(with_query(&base, "").unwrap().as_str(), expected.as_str());
    assert!(with_query(&base, "a#b").is_none());
}

#[test]
fn loopback_origins_share_one_address() {
    let upstreams = RegistryOrigins::loopback("127.0.0.1:8080").unwrap();
    assert_eq!(upstreams.npm.as_str(), "http://127.0.0.1:8080/");
    assert_eq!(upstreams.github.as_str(), "http://127.0.0.1:8080/");
    assert!(RegistryOrigins::loopback("127.0.0.1:x").is_err());
}

#[test]
fn canonical_segments_have_one_spelling() {
    for segment in ["pkg", "a.b", "...", "%20", "caf%C3%A9", "@scope", "a%25", "~"] {
        assert!(canonical_segment(segment), "{segment}");
    }
    for segment in [
        "", ".", "..", "a/b", "a\\b", "a?b", "a#b", "a b", "é", "%", "%2", "%2g", "%2f", "%2F",
        "%5C", "%3F", "%23", "%41", "%2D", "%2E", "%5F", "%7E", "%c3", "\u{7f}",
    ] {
        assert!(!canonical_segment(segment), "{segment}");
    }
}

#[test]
fn canonical_paths_may_end_in_a_slash() {
    for path in ["a", "a/", "a/b", "simple/pkg/"] {
        assert!(canonical_path(path), "{path}");
    }
    for path in ["", "/", "/a", "a//b", "a//", "./a", "a/..", "a/%2e"] {
        assert!(!canonical_path(path), "{path}");
    }
}

#[test]
fn canonical_paths_are_their_own_canonical_form() {
    for path in ["a", "a/b/", "pkg%20caf%C3%A9.whl", "@scope%25name"] {
        assert_eq!(
            canonical_rewrite_path(&format!("/{path}")).as_deref(),
            Some(path)
        );
    }
    assert_eq!(
        canonical_rewrite_path("/%70kg%2d%7e%c3%a9").as_deref(),
        Some("pkg-~%C3%A9")
    );
    for path in ["", "a", "/", "//a", "/%", "/%2", "/%zz", "/a%2Fb", "/%2e%2e/a", "/é"] {
        assert_eq!(canonical_rewrite_path(path), None, "{path}");
    }
}

#[test]
fn hex_digits_have_values() {
    assert_eq!(hex_value('0'), Some(0));
    assert_eq!(hex_value('9'), Some(9));
    assert_eq!(hex_value('a'), Some(10));
    assert_eq!(hex_value('F'), Some(15));
    assert_eq!(hex_value('g'), None);
}

#[test]
fn pypi_links_follow_their_targets() {
    let upstreams = RegistryOrigins::default();
    for (href, expected) in [
        ("https://files.pythonhosted.org/a.whl", "http://o/pypi/files/a.whl"),
        ("http://files.pythonhosted.org:81/a.whl#f", "http://o/pypi/files/a.whl#f"),
        ("https://files.pythonhosted.org/a.whl#", "http://o/pypi/files/a.whl#"),
        ("https://pypi.org/simple/pkg/", "http://o/pypi/simple/pkg/"),
        ("http://pypi.org/simple/", "http://o/pypi/simple/"),
        ("/simple/rooted/", "http://o/pypi/simple/rooted/"),
        ("/simple/", "http://o/pypi/simple/"),
    ] {
        assert_eq!(rewrite_pypi_href(href, &upstreams, "http://o"), expected);
    }
    for href in [
        "https://user@files.pythonhosted.org/a.whl",
        "https://:pw@files.pythonhosted.org/a.whl",
        "https://files.pythonhosted.org/a.whl?x",
        "https://files.pythonhosted.org/",
        "https://pypi.org/simple/pkg/#f",
        "https://pypi.org/simple/pkg/?q",
        "https://pypi.org/project/pkg/",
        "https://user@pypi.org/simple/pkg/",
        "https://example.com/simple/pkg/",
        "/simple/pkg/?q",
        "/simple//pkg/",
        "/simple/é/",
        "/other/",
        "pkg-1.0.0.tar.gz",
        "",
    ] {
        assert_eq!(rewrite_pypi_href(href, &upstreams, "http://o"), href);
    }
    let url = Url::https("files.pythonhosted.org");
    assert_eq!(rewrite_absolute_link(&url, &upstreams, "http://o"), None);
    assert_eq!(
        rewrite_relative_link("/simple/a/", "http://o").as_deref(),
        Some("http://o/pypi/simple/a/")
    );
}

#[test]
fn pages_change_only_between_the_quotes() {
    let upstreams = RegistryOrigins::default();
    let rewrite = |page: &str| {
        String::from_utf8(
            rewrite_pypi_html(page.as_bytes(), &upstreams, "http://o", MAX_METADATA_BODY_LEN)
                .unwrap(),
        )
        .unwrap()
    };
    assert_eq!(
        rewrite("<p>é<a href=\"/simple/a/\" x><a href='/simple/b/'>\n"),
        "<p>é<a href=\"http://o/pypi/simple/a/\" x><a href='http://o/pypi/simple/b/'>\n"
    );
    for page in [
        "",
        "no links",
        "href=\"\"/simple/a/\"",
        "href=/simple/a/",
        "href=\"/simple/a/",
        "HREF=\"/simple/a/\"",
        "href=\"a'b\"",
    ] {
        assert_eq!(rewrite(page), page);
    }
    assert_eq!(
        rewrite("href=\"x' href='/simple/a/' y\""),
        "href=\"x' href='/simple/a/' y\""
    );
    assert_eq!(
        rewrite("href=\"\" href='/simple/a/'"),
        "href=\"\" href='http://o/pypi/simple/a/'"
    );
}

#[test]
fn pages_agree_with_the_pattern() {
    let upstreams = RegistryOrigins::default();
    let pattern = regex::Regex::new(r#"href="([^"]+)"|href='([^']+)'"#).unwrap();
    let pieces = ["href=", "\"", "'", "/simple/é/", "x", "hre", "f="];
    let mut state: usize = 7;
    for _ in 0..300 {
        let mut page = String::new();
        for _ in 0..12 {
            state = (state * 1_103_515_245 + 12_345) % 2_147_483_648;
            page.push_str(pieces[(state >> 8) % pieces.len()]);
        }
        let expected = pattern.replace_all(&page, |found: &regex::Captures<'_>| {
            let whole = found.get(0).unwrap().as_str();
            let quote = &whole[5..6];
            let href = &whole[6..whole.len() - 1];
            format!(
                "href={quote}{}{quote}",
                rewrite_pypi_href(href, &upstreams, "http://o")
            )
        });
        assert_eq!(
            rewrite_pypi_html(page.as_bytes(), &upstreams, "http://o", MAX_METADATA_BODY_LEN)
                .unwrap(),
            expected.as_bytes().to_vec()
        );
    }
}

#[test]
fn pages_stop_at_the_limit() {
    let upstreams = RegistryOrigins::default();
    let page = b"<a href='/simple/a/'>";
    let whole = rewrite_pypi_html(page, &upstreams, "http://o", 1000).unwrap();
    assert_eq!(whole, b"<a href='http://o/pypi/simple/a/'>".to_vec());
    assert_eq!(
        rewrite_pypi_html(page, &upstreams, "http://o", whole.len()).unwrap(),
        whole
    );
    assert_eq!(
        rewrite_pypi_html(page, &upstreams, "http://o", whole.len() - 1).unwrap_err(),
        OUTPUT_LIMIT
    );
    let bad = [b'a', 0xff];
    assert_eq!(
        rewrite_pypi_html(&bad, &upstreams, "http://o", 1000).unwrap_err(),
        std::str::from_utf8(&bad).unwrap_err().to_string()
    );
}

#[test]
fn packuments_keep_everything_but_their_links() {
    let upstreams = RegistryOrigins::default();
    let rewrite = |text: &str| {
        String::from_utf8(
            rewrite_npm_json(text.as_bytes(), &upstreams, "http://o", MAX_METADATA_BODY_LEN)
                .unwrap(),
        )
        .unwrap()
    };
    assert_eq!(
        rewrite(
            r#" {"z": [1.50, {"dist": {}}], "dist": {"tarball": "https://registry.npmjs.org/a.tgz", "b": "xA"},
                "versions": {"2": 7, "1": {"dist": {"tarball": "https:\/\/registry.npmjs.org\/b.tgz"}, "versions": {"0": 1}}}} "#
        ),
        concat_lines(&[
            r#"{"dist":{"b":"xA","tarball":"http://o/npm/tarballs/a.tgz"},"#,
            r#""versions":{"1":{"dist":{"tarball":"http://o/npm/tarballs/b.tgz"},"versions":{"0": 1}},"2":7},"#,
            r#""z":[1.50, {"dist": {}}]}"#,
        ])
    );
    for text in [
        "[1, 2]",
        "\"text\"",
        "{}",
        r#"{"dist":5}"#,
        r#"{"dist":{"tarball":5}}"#,
        r#"{"dist":{"tarball":"https://example.com/a.tgz"}}"#,
        r#"{"dist":{"tarball":"https://registry.npmjs.org/a.tgz?x"}}"#,
        r#"{"dist":{"tarball":"https://registry.npmjs.org/a.tgz#x"}}"#,
        r#"{"dist":{"tarball":"https://u@registry.npmjs.org/a.tgz"}}"#,
        r#"{"dist":{"tarball":"https://registry.npmjs.org/a%2Fb.tgz"}}"#,
        r#"{"dist":{"other":"https://registry.npmjs.org/a.tgz"}}"#,
        r#"{"versions":{"1":{"versions":{"dist":{"tarball":"https://registry.npmjs.org/a.tgz"}}}}}"#,
    ] {
        assert_eq!(rewrite(text), text);
    }
}

#[test]
fn members_are_written_one_by_one() {
    let upstreams = RegistryOrigins::default();
    let write = |object: NpmObject, members: &Vec<(String, &str)>, limit: usize| {
        let mut output = LimitedOutput::new(0, limit);
        write_npm_members(&mut output, object, members, &upstreams, "http://o")
            .map(|()| String::from_utf8(output.finish()).unwrap())
    };
    let link = "\"https://registry.npmjs.org/a.tgz\"";
    let members = vec![
        ("a\"".to_owned(), "1"),
        ("tarball".to_owned(), link),
        ("dist".to_owned(), "{\"tarball\": 2}"),
    ];
    assert_eq!(
        write(NpmObject::Dist, &members, 1000).unwrap(),
        "{\"a\\\"\":1,\"tarball\":\"http://o/npm/tarballs/a.tgz\",\"dist\":{\"tarball\": 2}}"
    );
    assert_eq!(
        write(NpmObject::Manifest, &members, 1000).unwrap(),
        format!("{{\"a\\\"\":1,\"tarball\":{link},\"dist\":{{\"tarball\":2}}}}")
    );
    assert_eq!(write(NpmObject::Versions, &Vec::new(), 2).unwrap(), "{}");
    assert_eq!(write(NpmObject::Packument, &Vec::new(), 1).unwrap_err(), OUTPUT_LIMIT);
    assert_eq!(
        rewrite_npm_text(" 5", &upstreams, "http://o", 2).unwrap(),
        b" 5".to_vec()
    );
}

fn concat_lines(lines: &[&str]) -> String {
    lines.concat()
}

#[test]
fn packuments_stop_at_the_limit() {
    let upstreams = RegistryOrigins::default();
    let body = br#"{"dist":{"tarball":"https://registry.npmjs.org/a.tgz"}}"#;
    let whole = rewrite_npm_json(body, &upstreams, "http://o", 1000).unwrap();
    assert_eq!(
        whole,
        br#"{"dist":{"tarball":"http://o/npm/tarballs/a.tgz"}}"#.to_vec()
    );
    for limit in 0..whole.len() {
        assert_eq!(
            rewrite_npm_json(body, &upstreams, "http://o", limit).unwrap_err(),
            OUTPUT_LIMIT
        );
    }
    assert_eq!(
        rewrite_npm_json(body, &upstreams, "http://o", whole.len()).unwrap(),
        whole
    );
    let bad = b"{\"a\":";
    assert_eq!(
        rewrite_npm_json(bad, &upstreams, "http://o", 1000).unwrap_err(),
        serde_json::from_slice::<&serde_json::value::RawValue>(bad)
            .unwrap_err()
            .to_string()
    );
}

#[test]
fn limited_output_keeps_what_fits() {
    let mut output = LimitedOutput::new(10, 4);
    output.extend(b"12").unwrap();
    let error = output.extend(b"345").unwrap_err();
    assert_eq!(error.message, OUTPUT_LIMIT);
    output.extend(b"34").unwrap();
    assert_eq!(output.finish(), b"1234".to_vec());
}
