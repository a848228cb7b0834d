//! URLs as the library sees them: the parts of a parsed URL as plain text.
use crate::text::{chars_of, clone_opt, decimal, opt_str, opt_text, same, same_opt, texts, to_decimal};
use vstd::prelude::*;
use vstd::string::*;

verus! {

/// The parts of a parsed URL.
#[verifier::ext_equal]
pub struct UrlView {
    pub href: Seq<char>,
    pub scheme: Seq<char>,
    pub username: Seq<char>,
    pub password: Option<Seq<char>>,
    pub host: Option<Seq<char>>,
    pub port: Option<u16>,
    pub path: Seq<char>,
    pub query: Option<Seq<char>>,
    pub fragment: Option<Seq<char>>,
}

/// A parsed URL. `port` is absent where it is the default of the scheme.
#[derive(Debug)]
pub struct Url {
    href: String,
    scheme: String,
    username: String,
    password: Option<String>,
    host: Option<String>,
    port: Option<u16>,
    path: String,
    query: Option<String>,
    fragment: Option<String>,
}

/// What the crate `url` makes of a text: the parsed URL, or the text of its error.
pub uninterp spec fn url_parse(input: Seq<char>) -> Result<UrlView, Seq<char>>;

/// What the crate `url` makes of a reference relative to the URL written `base`.
pub uninterp spec fn url_join(base: Seq<char>, reference: Seq<char>) -> Result<UrlView, Seq<char>>;

/// The view of a parse result.
pub open spec fn url_result(r: Result<Url, String>) -> Result<UrlView, Seq<char>> {
    match r {
        Ok(u) => Ok(u@),
        Err(e) => Err(e@),
    }
}

/// The port that a scheme has when none is written.
pub open spec fn default_port(scheme: Seq<char>) -> Option<u16> {
    if scheme == "http"@ || scheme == "ws"@ {
        Some(80)
    } else if scheme == "https"@ || scheme == "wss"@ {
        Some(443)
    } else if scheme == "ftp"@ {
        Some(21)
    } else {
        None
    }
}

impl UrlView {
    /// The port that a connection uses.
    pub open spec fn effective_port(self) -> Option<u16> {
        match self.port {
            Some(p) => Some(p),
            None => default_port(self.scheme),
        }
    }

    /// Same scheme, host and port.
    pub open spec fn same_origin(self, other: UrlView) -> bool {
        self.scheme == other.scheme && self.host == other.host && self.effective_port()
            == other.effective_port()
    }

    /// Neither a user name nor a password.
    pub open spec fn without_credentials(self) -> bool {
        self.username.len() == 0 && self.password is None
    }

    /// The origin in text form: `scheme://host`, and the port where it is not the default.
    pub open spec fn origin_text(self) -> Seq<char> {
        let host = match self.host {
            Some(h) => h,
            None => Seq::empty(),
        };
        match self.port {
            Some(p) => self.scheme + "://"@ + host + ":"@ + decimal(p as nat),
            None => self.scheme + "://"@ + host,
        }
    }
}

/// The URL `https://{host}/`.
pub open spec fn https_root(host: Seq<char>) -> UrlView {
    UrlView {
        href: "https://"@ + host + "/"@,
        scheme: "https"@,
        username: Seq::empty(),
        password: None,
        host: Some(host),
        port: None,
        path: "/"@,
        query: None,
        fragment: None,
    }
}

impl View for Url {
    type V = UrlView;

    closed spec fn view(&self) -> UrlView {
        UrlView {
            href: self.href@,
            scheme: self.scheme@,
            username: self.username@,
            password: opt_text(self.password),
            host: opt_text(self.host),
            port: self.port,
            path: self.path@,
            query: opt_text(self.query),
            fragment: opt_text(self.fragment),
        }
    }
}

/// `url::Url::parse`: the parts of the URL it returns, or its error as text, under the
/// name `url_parse`. The call depends on its argument alone and does not panic.
#[verifier::external_body]
fn parse_text(input: &str) -> (r: Result<Url, String>)
    ensures
        url_result(r) == url_parse(input@),
{
    match url::Url::parse(input) {
        Ok(u) => Ok(Url {
            href: u.as_str().to_owned(), scheme: u.scheme().to_owned(),
            username: u.username().to_owned(), password: u.password().map(str::to_owned),
            host: u.host_str().map(str::to_owned), port: u.port(),
            path: u.path().to_owned(), query: u.query().map(str::to_owned),
            fragment: u.fragment().map(str::to_owned),
        }),
        Err(e) => Err(e.to_string()),
    }
}

/// `url::Url::join` on the URL written `base`: the parts of the URL it returns, or the
/// error as text, under the name `url_join`. The call depends on the two texts alone and
/// does not panic.
#[verifier::external_body]
fn join_text(base: &str, reference: &str) -> (r: Result<Url, String>)
    ensures
        url_result(r) == url_join(base@, reference@),
{
    match url::Url::parse(base).and_then(|b| b.join(reference)) {
        Ok(u) => Ok(Url {
            href: u.as_str().to_owned(), scheme: u.scheme().to_owned(),
            username: u.username().to_owned(), password: u.password().map(str::to_owned),
            host: u.host_str().map(str::to_owned), port: u.port(),
            path: u.path().to_owned(), query: u.query().map(str::to_owned),
            fragment: u.fragment().map(str::to_owned),
        }),
        Err(e) => Err(e.to_string()),
    }
}

/// The names of the pairs that the crate `url` reads out of a query.
pub uninterp spec fn query_pair_names(query: Seq<char>) -> Seq<Seq<char>>;

/// `url::form_urlencoded::parse`: the decoded names of the pairs, in order, under the name
/// `query_pair_names`. The call depends on its argument alone and does not panic.
#[verifier::external_body]
fn query_names(query: &str) -> (r: Vec<String>)
    ensures
        texts(r@) == query_pair_names(query@),
{
    url::form_urlencoded::parse(query.as_bytes()).map(|pair| pair.0.into_owned()).collect()
}

impl Url {
    /// Parses an absolute URL.
    pub fn parse(input: &str) -> (r: Result<Url, String>)
        ensures
            url_result(r) == url_parse(input@),
    {
        parse_text(input)
    }

    /// Resolves a reference against this URL.
    pub fn join(&self, reference: &str) -> (r: Result<Url, String>)
        ensures
            url_result(r) == url_join(self@.href, reference@),
    {
        join_text(self.href.as_str(), reference)
    }

    /// The URL `https://{host}/`.
    pub fn https(host: &str) -> (r: Url)
        ensures
            r@ == https_root(host@),
    {
        let mut href = "https://".to_owned();
        href.append(host);
        href.append("/");
        Url {
            href,
            scheme: "https".to_owned(),
            username: String::new(),
            password: None,
            host: Some(host.to_owned()),
            port: None,
            path: "/".to_owned(),
            query: None,
            fragment: None,
        }
    }

    /// The whole URL as text.
    pub fn as_str(&self) -> (r: &str)
        ensures
            r@ == self@.href,
    {
        self.href.as_str()
    }

    pub fn scheme(&self) -> (r: &str)
        ensures
            r@ == self@.scheme,
    {
        self.scheme.as_str()
    }

    pub fn username(&self) -> (r: &str)
        ensures
            r@ == self@.username,
    {
        self.username.as_str()
    }

    pub fn password(&self) -> (r: Option<&str>)
        ensures
            opt_str(r) == self@.password,
    {
        borrowed(&self.password)
    }

    pub fn host_str(&self) -> (r: Option<&str>)
        ensures
            opt_str(r) == self@.host,
    {
        borrowed(&self.host)
    }

    /// The port, where one is written that is not the default of the scheme.
    pub fn port(&self) -> (r: Option<u16>)
        ensures
            r == self@.port,
    {
        self.port
    }

    /// The port that a connection uses.
    pub fn port_or_known_default(&self) -> (r: Option<u16>)
        ensures
            r == self@.effective_port(),
    {
        if self.port.is_some() {
            return self.port;
        }
        let scheme = self.scheme.as_str();
        if same(scheme, "http") || same(scheme, "ws") {
            Some(80)
        } else if same(scheme, "https") || same(scheme, "wss") {
            Some(443)
        } else if same(scheme, "ftp") {
            Some(21)
        } else {
            None
        }
    }

    pub fn path(&self) -> (r: &str)
        ensures
            r@ == self@.path,
    {
        self.path.as_str()
    }

    pub fn query(&self) -> (r: Option<&str>)
        ensures
            opt_str(r) == self@.query,
    {
        borrowed(&self.query)
    }

    pub fn fragment(&self) -> (r: Option<&str>)
        ensures
            opt_str(r) == self@.fragment,
    {
        borrowed(&self.fragment)
    }

    /// Tells whether the URL carries neither a user name nor a password.
    pub fn without_credentials(&self) -> (r: bool)
        ensures
            r == self@.without_credentials(),
    {
        chars_of(self.username.as_str()).len() == 0 && self.password.is_none()
    }

    /// The origin in text form.
    pub fn origin_text(&self) -> (r: String)
        ensures
            r@ == self@.origin_text(),
    {
        let mut out = self.scheme.clone();
        out.append("://");
        if let Some(host) = &self.host {
            out.append(host.as_str());
        } else {
            proof {
                assert(out@ + Seq::<char>::empty() =~= out@);
            }
        }
        if let Some(port) = self.port {
            out.append(":");
            out.append(to_decimal(port as u128).as_str());
        }
        out
    }

    /// The names of the pairs in the query, in order; none where there is no query.
    pub fn query_pair_names(&self) -> (r: Vec<String>)
        ensures
            texts(r@) == (match self@.query {
                Some(q) => query_pair_names(q),
                None => Seq::empty(),
            }),
    {
        match &self.query {
            Some(q) => query_names(q.as_str()),
            None => {
                let names: Vec<String> = Vec::new();
                proof {
                    assert(texts(names@) =~= Seq::<Seq<char>>::empty());
                }
                names
            },
        }
    }
}

impl Clone for Url {
    fn clone(&self) -> (r: Self)
        ensures
            r@ == self@,
    {
        Url {
            href: self.href.clone(),
            scheme: self.scheme.clone(),
            username: self.username.clone(),
            password: clone_opt(&self.password),
            host: clone_opt(&self.host),
            port: self.port,
            path: self.path.clone(),
            query: clone_opt(&self.query),
            fragment: clone_opt(&self.fragment),
        }
    }
}

/// An optional string, borrowed.
fn borrowed(o: &Option<String>) -> (r: Option<&str>)
    ensures
        opt_str(r) == opt_text(*o),
{
    match o {
        Some(s) => Some(s.as_str()),
        None => None,
    }
}

/// Tells whether two URLs have the same scheme, host and port.
pub fn matches_origin(url: &Url, base: &Url) -> (r: bool)
    ensures
        r == url@.same_origin(base@),
{
    same(url.scheme.as_str(), base.scheme.as_str()) && same_opt(&url.host, &base.host)
        && url.port_or_known_default() == base.port_or_known_default()
}

// ---------------------------------------------------------------------------
// Laws
// ---------------------------------------------------------------------------

/// Two URLs have the same origin where scheme and host are the same and so is the port, be it
/// written or the one that the scheme has without: 80 for `http`, 443 for `https`.
pub proof fn origins_are_scheme_host_and_port(u: UrlView, v: UrlView)
    ensures
        u.same_origin(v) ==> u.scheme == v.scheme && u.host == v.host,
        u.scheme == v.scheme && u.host == v.host && u.port == v.port ==> u.same_origin(v),
        u.same_origin(v) && u.port is Some && v.port is Some ==> u.port == v.port,
        u.scheme == v.scheme && u.host == v.host && u.scheme == "http"@ && u.port is None ==> (
        u.same_origin(v) <==> v.port is None || v.port == Some(80u16)),
        u.scheme == v.scheme && u.host == v.host && u.scheme == "https"@ && u.port is None ==> (
        u.same_origin(v) <==> v.port is None || v.port == Some(443u16)),
        u.same_origin(v) == v.same_origin(u),
{
    reveal_strlit("http");
    reveal_strlit("https");
    reveal_strlit("ws");
    reveal_strlit("wss");
    reveal_strlit("ftp");
    assert("http"@ != "https"@ && "http"@ != "wss"@ && "https"@ != "ws"@ && "https"@ != "http"@) by {
        assert("http"@.len() == 4 && "https"@.len() == 5 && "ws"@.len() == 2 && "wss"@.len() == 3);
    }
}

/// A URL is without credentials where it has neither a user name nor a password.
pub proof fn credentials_are_user_and_password(u: UrlView)
    ensures
        u.without_credentials() <==> u.username == Seq::<char>::empty() && u.password is None,
{
    if u.username.len() == 0 {
        assert(u.username =~= Seq::<char>::empty());
    }
}

/// The text of an origin is its scheme, `://`, its host, and behind a colon the port where one
/// is written.
pub proof fn origins_are_written_with_their_port(u: UrlView, host: Seq<char>, port: u16)
    requires
        u.host == Some(host),
    ensures
        u.port is None ==> u.origin_text() == u.scheme + "://"@ + host,
        u.port == Some(port) ==> u.origin_text() == u.scheme + "://"@ + host + ":"@ + decimal(
            port as nat,
        ),
{
}

/// The root of a host is reached over `https` at its default port, at the path `/`, without
/// credentials, a query or a fragment.
pub proof fn roots_are_secure(host: Seq<char>)
    ensures
        ({
            let u = https_root(host);
            &&& u.scheme == "https"@ && u.host == Some(host) && u.port is None
            &&& u.username.len() == 0 && u.password is None
            &&& u.path == "/"@ && u.query is None && u.fragment is None
            &&& u.href == "https://"@ + host + "/"@
        }),
{
}

/// The port of a connection is the one that is written, or else that of the scheme: 80 for `http`
/// and `ws`, 443 for `https` and `wss`, 21 for `ftp`, and none for any other.
pub proof fn ports_have_defaults(u: UrlView)
    ensures
        u.port is Some ==> u.effective_port() == u.port,
        u.port is None && (u.scheme == "http"@ || u.scheme == "ws"@) ==> u.effective_port() == Some(
            80u16,
        ),
        u.port is None && (u.scheme == "https"@ || u.scheme == "wss"@) ==> u.effective_port()
            == Some(443u16),
        u.port is None && u.scheme == "ftp"@ ==> u.effective_port() == Some(21u16),
        u.port is None && u.scheme != "http"@ && u.scheme != "ws"@ && u.scheme != "https"@
            && u.scheme != "wss"@ && u.scheme != "ftp"@ ==> u.effective_port() is None,
{
    reveal_strlit("http");
    reveal_strlit("https");
    reveal_strlit("ws");
    reveal_strlit("wss");
    reveal_strlit("ftp");
    assert("http"@.len() == 4 && "https"@.len() == 5 && "ws"@.len() == 2 && "wss"@.len() == 3
        && "ftp"@.len() == 3);
    assert("wss"@[0] == 'w' && "ftp"@[0] == 'f');
}

/// A parse gives the parts of the URL, or what the parser says.
pub proof fn parses_show_what_they_gave(u: Url, message: String)
    ensures
        url_result(Ok(u)) == Ok::<UrlView, Seq<char>>(u@),
        url_result(Err(message)) == Err::<UrlView, Seq<char>>(message@),
{
}

} // verus!
