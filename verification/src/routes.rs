//! The upstream URL of every resource that the proxy serves.
use crate::json::{json_quoted, json_string};
use crate::paths::{
    canonical_escape, canonical_path, canonical_path_text, canonical_segment,
    canonical_segment_text,
};
use crate::text::{
    chars_of, find, find_text, nothing_is_found_that_is_not_there, opt_str, push_bytes, same,
    the_first_occurrence_is_found,
};
use crate::weburl::{https_root, matches_origin, url_join, url_parse, Url, UrlView};
use vstd::prelude::*;
use vstd::string::*;
use vstd::utf8::*;

verus! {

/// The registries that the proxy reads from.
#[derive(Debug)]
pub struct RegistryOrigins {
    pub cargo_download: Url,
    pub cargo_index: Url,
    pub github: Url,
    pub npm: Url,
    pub pypi_files: Url,
    pub pypi_simple: Url,
}

impl Default for RegistryOrigins {
    /// The public registries.
    fn default() -> (r: Self)
        ensures
            r.cargo_download@ == https_root("static.crates.io"@),
            r.cargo_index@ == https_root("index.crates.io"@),
            r.github@ == https_root("github.com"@),
            r.npm@ == https_root("registry.npmjs.org"@),
            r.pypi_files@ == https_root("files.pythonhosted.org"@),
            r.pypi_simple@ == https_root("pypi.org"@),
    {
        RegistryOrigins {
            cargo_download: Url::https("static.crates.io"),
            cargo_index: Url::https("index.crates.io"),
            github: Url::https("github.com"),
            npm: Url::https("registry.npmjs.org"),
            pypi_files: Url::https("files.pythonhosted.org"),
            pypi_simple: Url::https("pypi.org"),
        }
    }
}

impl RegistryOrigins {
    /// Every registry at `http://{addr}/`, or the parser's error.
    pub fn loopback(addr: &str) -> (r: Result<RegistryOrigins, String>)
        ensures
            match url_parse("http://"@ + addr@ + "/"@) {
                Ok(u) => r matches Ok(o) && o.cargo_download@ == u && o.cargo_index@ == u
                    && o.github@ == u && o.npm@ == u && o.pypi_files@ == u && o.pypi_simple@ == u,
                Err(e) => r matches Err(s) && s@ == e,
            },
    {
        let mut text = "http://".to_owned();
        text.append(addr);
        text.append("/");
        match Url::parse(text.as_str()) {
            Ok(origin) => Ok(
                RegistryOrigins {
                    cargo_download: origin.clone(),
                    cargo_index: origin.clone(),
                    github: origin.clone(),
                    npm: origin.clone(),
                    pypi_files: origin.clone(),
                    pypi_simple: origin,
                },
            ),
            Err(error) => Err(error),
        }
    }
}

impl Clone for RegistryOrigins {
    fn clone(&self) -> (r: Self)
        ensures
            r.cargo_download@ == self.cargo_download@,
            r.cargo_index@ == self.cargo_index@,
            r.github@ == self.github@,
            r.npm@ == self.npm@,
            r.pypi_files@ == self.pypi_files@,
            r.pypi_simple@ == self.pypi_simple@,
    {
        RegistryOrigins {
            cargo_download: self.cargo_download.clone(),
            cargo_index: self.cargo_index.clone(),
            github: self.github.clone(),
            npm: self.npm.clone(),
            pypi_files: self.pypi_files.clone(),
            pypi_simple: self.pypi_simple.clone(),
        }
    }
}

/// The view of an optional URL.
pub open spec fn opt_url(o: Option<Url>) -> Option<UrlView> {
    match o {
        Some(u) => Some(u@),
        None => None,
    }
}

/// A URL under which paths can be built: a directory without credentials, query or fragment.
pub open spec fn usable_base(base: UrlView) -> bool {
    &&& base.path.len() > 0
    &&& base.path.last() == '/'
    &&& base.without_credentials()
    &&& base.query is None
    &&& base.fragment is None
}

/// `u` is the resource `path` under `base` and nothing else.
pub open spec fn lies_under(u: UrlView, base: UrlView, path: Seq<char>) -> bool {
    &&& u.same_origin(base)
    &&& u.without_credentials()
    &&& u.path == base.path + path
    &&& u.query is None
    &&& u.fragment is None
}

/// The URL of `path` under `base`.
pub open spec fn built(base: UrlView, path: Seq<char>) -> Option<UrlView> {
    if usable_base(base) && url_parse(path) is Err {
        match url_join(base.href, path) {
            Ok(u) => if lies_under(u, base, path) {
                Some(u)
            } else {
                None
            },
            Err(_) => None,
        }
    } else {
        None
    }
}

/// The URL of a canonical `path` under `base`.
pub open spec fn joined(base: UrlView, path: Seq<char>) -> Option<UrlView> {
    if canonical_path_text(path) {
        built(base, path)
    } else {
        None
    }
}

/// The URL of `path` under `base`, where joining them gives that and nothing else.
pub fn build_url(base: &Url, path: &str) -> (r: Option<Url>)
    ensures
        opt_url(r) == built(base@, path@),
{
    let base_path = chars_of(base.path());
    if base_path.len() == 0 || base_path[base_path.len() - 1] != '/' || !base.without_credentials()
        || base.query().is_some() || base.fragment().is_some() || Url::parse(path).is_ok() {
        return None;
    }
    match base.join(path) {
        Ok(url) => if is_under(&url, base, path) {
            Some(url)
        } else {
            None
        },
        Err(_) => None,
    }
}

/// Tells whether `url` is the resource `path` under `base` and nothing else.
pub fn is_under(url: &Url, base: &Url, path: &str) -> (r: bool)
    ensures
        r == lies_under(url@, base@, path@),
{
    let mut expected = base.path().to_owned();
    expected.append(path);
    matches_origin(url, base) && url.without_credentials() && same(url.path(), expected.as_str())
        && url.query().is_none() && url.fragment().is_none()
}

/// The URL of a canonical path under `base`.
pub fn join_url(base: &Url, path: &str) -> (r: Option<Url>)
    ensures
        opt_url(r) == joined(base@, path@),
{
    if canonical_path(path) {
        build_url(base, path)
    } else {
        None
    }
}

/// `base` with the query `query`, where that changes nothing else and names no user.
pub open spec fn with_query_text(base: UrlView, query: Seq<char>) -> Option<UrlView> {
    match url_join(base.href, "?"@ + query) {
        Ok(u) => if u.same_origin(base) && u.without_credentials() && u.path == base.path
            && u.fragment is None {
            Some(u)
        } else {
            None
        },
        Err(_) => None,
    }
}

/// `base` with the query `query`, where that changes nothing else and names no user.
pub fn with_query(base: &Url, query: &str) -> (r: Option<Url>)
    ensures
        opt_url(r) == with_query_text(base@, query@),
{
    let mut reference = "?".to_owned();
    reference.append(query);
    match base.join(reference.as_str()) {
        Ok(url) => if matches_origin(&url, base) && url.without_credentials() && same(
            url.path(),
            base.path(),
        ) && url.fragment().is_none() {
            Some(url)
        } else {
            None
        },
        Err(_) => None,
    }
}

/// The configuration of the sparse index: where downloads are, under the public origin.
pub open spec fn cargo_config_text(origin: Seq<char>) -> Seq<char> {
    "{\"dl\":"@ + json_quoted(origin + "/cargo/api/v1/crates"@) + "}"@
}

/// The configuration file of the sparse index.
pub fn cargo_config(origin: &str) -> (r: Vec<u8>)
    ensures
        r@ == encode_utf8(cargo_config_text(origin@)),
{
    let mut target = origin.to_owned();
    target.append("/cargo/api/v1/crates");
    let mut text = "{\"dl\":".to_owned();
    text.append(json_string(target.as_str()).as_str());
    text.append("}");
    let mut out: Vec<u8> = Vec::new();
    push_bytes(&mut out, text.as_str());
    proof {
        assert(out@ =~= encode_utf8(text@));
    }
    out
}

/// The URL of a file of the sparse index.
pub fn cargo_index_url(upstreams: &RegistryOrigins, path: &str) -> (r: Option<Url>)
    ensures
        opt_url(r) == joined(upstreams.cargo_index@, path@),
{
    join_url(&upstreams.cargo_index, path)
}

/// The path of a crate file.
pub open spec fn crate_file_path(crate_name: Seq<char>, version: Seq<char>) -> Seq<char> {
    "crates/"@ + crate_name + "/"@ + crate_name + "-"@ + version + ".crate"@
}

/// The URL of a crate file.
pub fn cargo_download_url(upstreams: &RegistryOrigins, crate_name: &str, version: &str) -> (r:
    Option<Url>)
    ensures
        opt_url(r) == joined(upstreams.cargo_download@, crate_file_path(crate_name@, version@)),
{
    let mut path = "crates/".to_owned();
    path.append(crate_name);
    path.append("/");
    path.append(crate_name);
    path.append("-");
    path.append(version);
    path.append(".crate");
    join_url(&upstreams.cargo_download, path.as_str())
}

/// The path of a page of the simple index: the root, or that of a project.
pub open spec fn simple_path(project: Option<Seq<char>>) -> Option<Seq<char>> {
    match project {
        None => Some("simple/"@),
        Some(name) => if canonical_segment_text(name) {
            Some("simple/"@ + name + "/"@)
        } else {
            None
        },
    }
}

/// The URL of a page of the simple index.
pub fn pypi_simple_url(upstreams: &RegistryOrigins, project: Option<&str>) -> (r: Option<Url>)
    ensures
        opt_url(r) == (match simple_path(opt_str(project)) {
            Some(path) => joined(upstreams.pypi_simple@, path),
            None => None,
        }),
{
    match project {
        None => join_url(&upstreams.pypi_simple, "simple/"),
        Some(name) => {
            if !canonical_segment(name) {
                return None;
            }
            let mut path = "simple/".to_owned();
            path.append(name);
            path.append("/");
            join_url(&upstreams.pypi_simple, path.as_str())
        },
    }
}

/// The URL of a distribution file.
pub fn pypi_file_url(path: &str, upstreams: &RegistryOrigins) -> (r: Option<Url>)
    ensures
        opt_url(r) == joined(upstreams.pypi_files@, path@),
{
    join_url(&upstreams.pypi_files, path)
}

/// The path of a packument. The slash of a scoped name is escaped, in upper case.
pub open spec fn packument_path(package: Seq<char>) -> Option<Seq<char>> {
    if package.len() > 0 && package[0] == '@' {
        let separator = match find(package, "%2F"@) {
            Some(i) => Some(i),
            None => find(package, "%2f"@),
        };
        match separator {
            Some(i) => {
                let scope = package.take(i);
                let name = package.skip(i + 3);
                if scope.len() > 1 && canonical_segment_text(scope) && canonical_segment_text(
                    name,
                ) {
                    Some(scope + "%2F"@ + name)
                } else {
                    None
                }
            },
            None => None,
        }
    } else if canonical_segment_text(package) {
        Some(package)
    } else {
        None
    }
}

/// The URL of a packument.
pub fn npm_packument_url(upstreams: &RegistryOrigins, package: &str) -> (r: Option<Url>)
    ensures
        opt_url(r) == (match packument_path(package@) {
            Some(path) => built(upstreams.npm@, path),
            None => None,
        }),
{
    let chars = chars_of(package);
    if chars.len() > 0 && chars[0] == '@' {
        proof {
            reveal_strlit("%2F");
            reveal_strlit("%2f");
        }
        let separator: usize = match find_text(package, "%2F") {
            Some(i) => i,
            None => match find_text(package, "%2f") {
                Some(i) => i,
                None => return None,
            },
        };
        let scope = package.substring_char(0, separator);
        let name = package.substring_char(separator + 3, chars.len());
        proof {
            assert(scope@ =~= package@.take(separator as int));
            assert(name@ =~= package@.skip(separator + 3));
        }
        if separator <= 1 || !canonical_segment(scope) || !canonical_segment(name) {
            return None;
        }
        let mut path = scope.to_owned();
        path.append("%2F");
        path.append(name);
        build_url(&upstreams.npm, path.as_str())
    } else if canonical_segment(package) {
        build_url(&upstreams.npm, package)
    } else {
        None
    }
}

/// The URL of a tarball.
pub fn npm_tarball_url(path: &str, upstreams: &RegistryOrigins) -> (r: Option<Url>)
    ensures
        opt_url(r) == joined(upstreams.npm@, path@),
{
    join_url(&upstreams.npm, path)
}

/// No URL that is built leaves its registry: it has the scheme, the host and the port of the
/// base, the path of the base with the canonical path behind it, and neither credentials, a
/// query nor a fragment. A path that is a URL of its own leads nowhere.
pub proof fn built_urls_stay_under_their_base(base: UrlView, path: Seq<char>)
    ensures
        joined(base, path) matches Some(u) ==> canonical_path_text(path) && usable_base(base)
            && lies_under(u, base, path),
        built(base, path) matches Some(u) ==> usable_base(base) && lies_under(u, base, path)
            && u.without_credentials(),
        url_parse(path) is Ok ==> built(base, path) is None,
{
}

/// A URL is built where the base is a directory without credentials, query or fragment, the path
/// is no URL of its own, and joining the two gives the path behind that of the base, on the same
/// origin and with nothing added; it is then the URL that joining gives, and there is no other
/// way to one.
pub proof fn urls_are_built_by_joining(base: UrlView, path: Seq<char>, u: UrlView)
    ensures
        built(base, path) == Some(u) <==> {
            &&& base.path.len() > 0 && base.path.last() == '/'
            &&& base.username.len() == 0 && base.password is None
            &&& base.query is None && base.fragment is None
            &&& url_parse(path) is Err
            &&& url_join(base.href, path) == Ok::<UrlView, Seq<char>>(u)
            &&& u.same_origin(base)
            &&& u.username.len() == 0 && u.password is None
            &&& u.path == base.path + path
            &&& u.query is None && u.fragment is None
        },
        joined(base, path) == Some(u) <==> canonical_path_text(path) && built(base, path) == Some(
            u,
        ),
{
}

/// A query is added to a URL where joining changes nothing else.
pub proof fn queries_are_added_by_joining(base: UrlView, query: Seq<char>, u: UrlView)
    ensures
        with_query_text(base, query) == Some(u) <==> {
            &&& url_join(base.href, "?"@ + query) == Ok::<UrlView, Seq<char>>(u)
            &&& u.same_origin(base)
            &&& u.username.len() == 0 && u.password is None
            &&& u.path == base.path
            &&& u.fragment is None
        },
{
}

/// The configuration of the sparse index is one object with one member, `dl`: the public origin
/// with `/cargo/api/v1/crates` behind it.
pub proof fn the_index_announces_downloads_under_the_origin(origin: Seq<char>)
    ensures
        cargo_config_text(origin) == seq!['{', '"', 'd', 'l', '"', ':'] + json_quoted(
            origin + "/cargo/api/v1/crates"@,
        ) + seq!['}'],
{
    reveal_strlit("{\"dl\":");
    reveal_strlit("}");
    assert("{\"dl\":"@ =~= seq!['{', '"', 'd', 'l', '"', ':']);
    assert("}"@ =~= seq!['}']);
}

/// A crate file lies in the directory of its crate and is named by crate and version.
pub proof fn crate_files_are_named_by_crate_and_version(
    base: UrlView,
    crate_name: Seq<char>,
    version: Seq<char>,
)
    ensures
        joined(base, crate_file_path(crate_name, version)) matches Some(u) ==> u.same_origin(base)
            && u.path == base.path + ("crates/"@ + crate_name + "/"@ + crate_name + "-"@ + version
            + ".crate"@) && u.query is None,
        crate_file_path(crate_name, version) == "crates/"@ + crate_name + "/"@ + crate_name + "-"@
            + version + ".crate"@,
{
}

/// The root of the simple index lies at `simple/`, and the page of a project, whose name is one
/// canonical segment, in its directory below; nothing else has a page.
pub proof fn pages_lie_in_the_directory_of_their_project(project: Seq<char>)
    ensures
        simple_path(None) == Some("simple/"@),
        canonical_segment_text(project) ==> simple_path(Some(project)) == Some(
            "simple/"@ + project + "/"@,
        ),
        !canonical_segment_text(project) ==> simple_path(Some(project)) is None,
{
}

/// The packument of a package whose name does not begin with `@` lies at its name and nowhere
/// else, and only one canonical segment is such a name.
pub proof fn packuments_lie_at_the_name_of_their_package(package: Seq<char>)
    requires
        package.len() == 0 || package[0] != '@',
    ensures
        canonical_segment_text(package) ==> packument_path(package) == Some(package),
        !canonical_segment_text(package) ==> packument_path(package) is None,
{
}

/// The packument of a scoped package lies at its scope and its name with an escaped slash between
/// them, in capitals, whichever case the request writes it in: both are canonical segments, and
/// the scope is more than its `@`.
pub proof fn scoped_packuments_lie_at_scope_and_name(scope: Seq<char>, name: Seq<char>)
    requires
        scope.len() > 1,
        scope[0] == '@',
        canonical_segment_text(scope),
        canonical_segment_text(name),
    ensures
        packument_path(scope + "%2F"@ + name) == Some(scope + "%2F"@ + name),
        packument_path(scope + "%2f"@ + name) == Some(scope + "%2F"@ + name),
{
    reveal_strlit("%2F");
    reveal_strlit("%2f");
    lemma_separator(scope, "%2F"@, name);
    lemma_separator(scope, "%2f"@, name);
    let lower = scope + "%2f"@ + name;
    nothing_is_found_that_is_not_there(lower, "%2F"@);
    if let Some(i) = find(lower, "%2F"@) {
        let found = lower.subrange(i, i + 3);
        assert(found[0] == '%' && found[1] == '2' && found[2] == 'F');
        assert(lower[i] == '%' && lower[i + 1] == '2' && lower[i + 2] == 'F');
        lemma_escaped_slash(scope, "%2f"@, name, i);
    }
}

/// An escaped slash stands in no canonical segment, and so only where it separates two.
proof fn lemma_escaped_slash(scope: Seq<char>, separator: Seq<char>, name: Seq<char>, i: int)
    requires
        canonical_segment_text(scope),
        canonical_segment_text(name),
        separator.len() == 3,
        separator[1] != '%',
        separator[2] != '%',
        0 <= i,
        i + 2 < scope.len() + 3 + name.len(),
        ({
            let s = scope + separator + name;
            s[i] == '%' && s[i + 1] == '2' && (s[i + 2] == 'F' || s[i + 2] == 'f')
        }),
    ensures
        i == scope.len(),
{
    let s = scope + separator + name;
    if i < scope.len() {
        assert(scope[i] == s[i]);
        assert(canonical_escape(scope, i));
        assert(scope[i + 1] == s[i + 1] && scope[i + 2] == s[i + 2]);
    } else if i >= scope.len() + 3 {
        let k = i - scope.len() - 3;
        assert(name[k] == s[i]);
        assert(canonical_escape(name, k));
        assert(name[k + 1] == s[i + 1] && name[k + 2] == s[i + 2]);
    }
}

proof fn lemma_separator(scope: Seq<char>, separator: Seq<char>, name: Seq<char>)
    requires
        canonical_segment_text(scope),
        canonical_segment_text(name),
        separator.len() == 3,
        separator[0] == '%',
        separator[1] == '2',
        separator[2] == 'F' || separator[2] == 'f',
    ensures
        find(scope + separator + name, separator) == Some(scope.len() as int),
        (scope + separator + name).take(scope.len() as int) == scope,
        (scope + separator + name).skip(scope.len() as int + 3) == name,
{
    let s = scope + separator + name;
    let n = scope.len() as int;
    assert(s.subrange(n, n + 3) =~= separator);
    the_first_occurrence_is_found(s, separator, n);
    let i = find(s, separator)->0;
    let found = s.subrange(i, i + 3);
    assert(found[0] == '%' && found[1] == '2' && found[2] == separator[2]);
    assert(s[i] == '%' && s[i + 1] == '2' && s[i + 2] == separator[2]);
    lemma_escaped_slash(scope, separator, name, i);
    assert(s.take(n) =~= scope);
    assert(s.skip(n + 3) =~= name);
}

/// A name that begins with `@` and has no escaped slash has no packument, and neither has one
/// whose scope is nothing but the `@`; what has one lies at a scope and a name.
pub proof fn scoped_packuments_have_scope_and_name(package: Seq<char>)
    requires
        package.len() > 0,
        package[0] == '@',
        packument_path(package) is Some,
    ensures
        exists|scope: Seq<char>, name: Seq<char>|
            canonical_segment_text(scope) && canonical_segment_text(name) && scope.len() > 1 && (
            package == scope + "%2F"@ + name || package == scope + "%2f"@ + name)
                && packument_path(package) == Some(#[trigger] (scope + "%2F"@ + name)),
{
    nothing_is_found_that_is_not_there(package, "%2F"@);
    nothing_is_found_that_is_not_there(package, "%2f"@);
    reveal_strlit("%2F");
    reveal_strlit("%2f");
    let upper = find(package, "%2F"@) is Some;
    let i = if upper {
        find(package, "%2F"@)->0
    } else {
        find(package, "%2f"@)->0
    };
    let scope = package.take(i);
    let name = package.skip(i + 3);
    if upper {
        assert(package =~= scope + "%2F"@ + name);
    } else {
        assert(package =~= scope + "%2f"@ + name);
    }
    assert(packument_path(package) == Some(scope + "%2F"@ + name));
}

/// What is shown of an optional URL is the URL.
pub proof fn optional_urls_show_what_they_hold(url: Url)
    ensures
        opt_url(Some(url)) == Some(url@),
        opt_url(None) is None,
{
}

} // verus!
