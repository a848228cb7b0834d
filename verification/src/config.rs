//! The configuration, read from environment variables.
use crate::text::{
    contains_char, decimal, digits_are_read_as_the_number_they_write, fault_text, opt_str,
    opt_text, parse_unsigned, same, starts_with, to_decimal, trim, trimmed, unsigned_value,
    written_number, NumberFault,
};
use crate::weburl::{url_parse, Url, UrlView};
use vstd::prelude::*;
use vstd::string::*;

verus! {

/// The configuration of the proxy. The three binds are texts of socket addresses.
#[derive(Debug)]
pub struct Config {
    pub pkg_bind: String,
    pub git_bind: String,
    pub management_bind: String,
    pub public_base_url: String,
    pub cache_dir: String,
    pub max_cache_size: u64,
    pub max_upstream_fetches: usize,
    pub upstream_timeout_ms: u64,
}

/// The model of the configuration.
pub struct ConfigView {
    pub pkg_bind: Seq<char>,
    pub git_bind: Seq<char>,
    pub management_bind: Seq<char>,
    pub public_base_url: Seq<char>,
    pub cache_dir: Seq<char>,
    pub max_cache_size: int,
    pub max_upstream_fetches: int,
    pub upstream_timeout_ms: int,
}

impl View for Config {
    type V = ConfigView;

    open spec fn view(&self) -> ConfigView {
        ConfigView {
            pkg_bind: self.pkg_bind@,
            git_bind: self.git_bind@,
            management_bind: self.management_bind@,
            public_base_url: self.public_base_url@,
            cache_dir: self.cache_dir@,
            max_cache_size: self.max_cache_size as int,
            max_upstream_fetches: self.max_upstream_fetches as int,
            upstream_timeout_ms: self.upstream_timeout_ms as int,
        }
    }
}

impl Clone for Config {
    fn clone(&self) -> (r: Self)
        ensures
            r@ == self@,
    {
        Config {
            pkg_bind: self.pkg_bind.clone(),
            git_bind: self.git_bind.clone(),
            management_bind: self.management_bind.clone(),
            public_base_url: self.public_base_url.clone(),
            cache_dir: self.cache_dir.clone(),
            max_cache_size: self.max_cache_size,
            max_upstream_fetches: self.max_upstream_fetches,
            upstream_timeout_ms: self.upstream_timeout_ms,
        }
    }
}

/// A text that has to be a socket address, and the variables it comes from.
#[derive(Debug)]
pub struct BindRequest {
    pub text: String,
    pub label: String,
}

/// The texts that have to be socket addresses, or why there is none.
#[derive(Debug)]
pub struct BindRequests {
    pub pkg: Result<BindRequest, String>,
    pub git: Result<BindRequest, String>,
    pub management: Result<BindRequest, String>,
}

/// What the parser of socket addresses says of each text: nothing where it is one.
#[derive(Debug)]
pub struct BindFaults {
    pub pkg: Option<String>,
    pub git: Option<String>,
    pub management: Option<String>,
}

// ---------------------------------------------------------------------------
// Variables
// ---------------------------------------------------------------------------

/// The value of a variable: the first one listed under its name.
pub open spec fn variable(vars: Seq<(String, String)>, key: Seq<char>) -> Option<Seq<char>>
    decreases vars.len(),
{
    if vars.len() == 0 {
        None
    } else if vars[0].0@ == key {
        Some(vars[0].1@)
    } else {
        variable(vars.drop_first(), key)
    }
}

fn var<'a>(vars: &'a Vec<(String, String)>, key: &str) -> (r: Option<&'a str>)
    ensures
        opt_str(r) == variable(vars@, key@),
{
    let mut i: usize = 0;
    proof {
        assert(vars@.skip(0) =~= vars@);
    }
    while i < vars.len()
        invariant
            i <= vars.len(),
            variable(vars@, key@) == variable(vars@.skip(i as int), key@),
        decreases vars.len() - i,
    {
        if same(vars[i].0.as_str(), key) {
            return Some(vars[i].1.as_str());
        }
        proof {
            assert(vars@.skip(i as int).drop_first() =~= vars@.skip(i + 1));
        }
        i = i + 1;
    }
    None
}

/// `invalid {label}: {fault}`
pub open spec fn invalid_text(label: Seq<char>, fault: Seq<char>) -> Seq<char> {
    "invalid "@ + label + ": "@ + fault
}

fn invalid(label: &str, fault: &str) -> (r: String)
    ensures
        r@ == invalid_text(label@, fault@),
{
    let mut out = "invalid ".to_owned();
    out.append(label);
    out.append(": ");
    out.append(fault);
    out
}

/// The number that a text writes, or why it is none for the variable `key`.
pub open spec fn number(key: Seq<char>, text: Seq<char>, max: int) -> Result<int, Seq<char>> {
    match unsigned_value(text, max) {
        Ok(n) => Ok(n),
        Err(fault) => Err(invalid_text(key, fault_text(fault))),
    }
}

/// The number that a text writes, where it is positive.
pub open spec fn positive(key: Seq<char>, text: Seq<char>, max: int) -> Result<int, Seq<char>> {
    match number(key, text, max) {
        Ok(n) => if n == 0 {
            Err(invalid_text(key, "must be positive"@))
        } else {
            Ok(n)
        },
        Err(e) => Err(e),
    }
}

fn parse_number(key: &str, text: &str, max: u64) -> (r: Result<u64, String>)
    ensures
        match number(key@, text@, max as int) {
            Ok(n) => r matches Ok(v) && v == n,
            Err(e) => r matches Err(s) && s@ == e,
        },
{
    match parse_unsigned(text, max) {
        Ok(n) => Ok(n),
        Err(fault) => Err(invalid(key, fault.as_str())),
    }
}

fn parse_positive(key: &str, text: &str, max: u64) -> (r: Result<u64, String>)
    ensures
        match positive(key@, text@, max as int) {
            Ok(n) => r matches Ok(v) && v == n,
            Err(e) => r matches Err(s) && s@ == e,
        },
{
    match parse_number(key, text, max) {
        Ok(n) => if n == 0 {
            Err(invalid(key, "must be positive"))
        } else {
            Ok(n)
        },
        Err(error) => Err(error),
    }
}

// ---------------------------------------------------------------------------
// Binds
// ---------------------------------------------------------------------------

/// A host and a port as the text of a socket address. A host with colons gets brackets.
pub open spec fn host_port(host: Seq<char>, port: int) -> Seq<char> {
    let number = decimal(port as nat);
    if host.contains(':') && !"["@.is_prefix_of(host) {
        "["@ + host + "]:"@ + number
    } else {
        host + ":"@ + number
    }
}

/// The text that has to be the address of a listener, and where it comes from: the bind
/// variable, or else host and port, each with a default.
pub open spec fn bind_text(
    vars: Seq<(String, String)>,
    bind_key: Seq<char>,
    host_key: Seq<char>,
    default_host: Seq<char>,
    port_key: Seq<char>,
    default_port: int,
) -> Result<(Seq<char>, Seq<char>), Seq<char>> {
    match variable(vars, bind_key) {
        Some(value) => Ok((trimmed(value), bind_key)),
        None => {
            let host = match variable(vars, host_key) {
                Some(h) => trimmed(h),
                None => trimmed(default_host),
            };
            let port = match variable(vars, port_key) {
                Some(p) => trimmed(p),
                None => trimmed(decimal(default_port as nat)),
            };
            match number(port_key, port, 65535) {
                Ok(n) => if host.len() == 0 {
                    Err(invalid_text(host_key, "host must not be empty"@))
                } else {
                    Ok((host_port(host, n), host_key + "/"@ + port_key))
                },
                Err(e) => Err(e),
            }
        },
    }
}

/// The view of a request for an address.
pub open spec fn request_view(r: Result<BindRequest, String>) -> Result<
    (Seq<char>, Seq<char>),
    Seq<char>,
> {
    match r {
        Ok(b) => Ok((b.text@, b.label@)),
        Err(e) => Err(e@),
    }
}

/// The text of the address of a listener.
pub fn parse_bind(
    vars: &Vec<(String, String)>,
    bind_key: &str,
    host_key: &str,
    default_host: &str,
    port_key: &str,
    default_port: u16,
) -> (r: Result<BindRequest, String>)
    ensures
        request_view(r) == bind_text(
            vars@,
            bind_key@,
            host_key@,
            default_host@,
            port_key@,
            default_port as int,
        ),
{
    if let Some(value) = var(vars, bind_key) {
        return Ok(BindRequest { text: trim(value).to_owned(), label: bind_key.to_owned() });
    }
    let default_port_text = to_decimal(default_port as u128);
    let host = match var(vars, host_key) {
        Some(host) => trim(host),
        None => trim(default_host),
    };
    let port = match var(vars, port_key) {
        Some(port) => trim(port),
        None => trim(default_port_text.as_str()),
    };
    match parse_number(port_key, port, 65535) {
        Ok(number) => socket_addr_from_host_port(host_key, host, port_key, number as u16),
        Err(error) => Err(error),
    }
}

fn socket_addr_from_host_port(host_key: &str, host: &str, port_key: &str, port: u16) -> (r: Result<
    BindRequest,
    String,
>)
    ensures
        request_view(r) == (if host@.len() == 0 {
            Err(invalid_text(host_key@, "host must not be empty"@))
        } else {
            Ok((host_port(host@, port as int), host_key@ + "/"@ + port_key@))
        }),
{
    if host.is_empty() {
        return Err(invalid(host_key, "host must not be empty"));
    }
    let number = to_decimal(port as u128);
    let mut text = String::new();
    if contains_char(host, ':') && !starts_with(host, "[") {
        text.append("[");
        text.append(host);
        text.append("]:");
        text.append(number.as_str());
        proof {
            assert(text@ =~= host_port(host@, port as int));
        }
    } else {
        text.append(host);
        text.append(":");
        text.append(number.as_str());
        proof {
            assert(text@ =~= host_port(host@, port as int));
        }
    }
    let mut label = host_key.to_owned();
    label.append("/");
    label.append(port_key);
    Ok(BindRequest { text, label })
}

/// The address of a listener, or why there is none.
pub open spec fn bound(
    request: Result<(Seq<char>, Seq<char>), Seq<char>>,
    fault: Option<Seq<char>>,
) -> Result<Seq<char>, Seq<char>> {
    match request {
        Ok((text, label)) => match fault {
            Some(f) => Err(invalid_text(label, f)),
            None => Ok(text),
        },
        Err(e) => Err(e),
    }
}

fn settle_bind(request: Result<BindRequest, String>, fault: &Option<String>) -> (r: Result<
    String,
    String,
>)
    ensures
        match bound(request_view(request), opt_text(*fault)) {
            Ok(text) => r matches Ok(s) && s@ == text,
            Err(e) => r matches Err(s) && s@ == e,
        },
{
    match request {
        Ok(request) => match fault {
            Some(fault) => Err(invalid(request.label.as_str(), fault.as_str())),
            None => Ok(request.text),
        },
        Err(error) => Err(error),
    }
}

// ---------------------------------------------------------------------------
// Public base URL
// ---------------------------------------------------------------------------

/// The public origin that a parsed URL names, or why it names none.
pub open spec fn public_origin(url: UrlView) -> Result<Seq<char>, Seq<char>> {
    let key = "VAMPIRE_PUBLIC_BASE_URL"@;
    if url.scheme != "http"@ && url.scheme != "https"@ {
        Err(invalid_text(key, "scheme must be http or https"@))
    } else if url.host is None || !url.without_credentials() {
        Err(invalid_text(key, "credentials and missing hosts are not allowed"@))
    } else if url.path != "/"@ || url.query is Some || url.fragment is Some {
        Err(invalid_text(key, "path, query, and fragment are not allowed"@))
    } else {
        Ok(url.origin_text())
    }
}

/// The public origin that a text names, or why it names none.
pub open spec fn public_base_url(value: Seq<char>) -> Result<Seq<char>, Seq<char>> {
    match url_parse(trimmed(value)) {
        Ok(url) => public_origin(url),
        Err(e) => Err(invalid_text("VAMPIRE_PUBLIC_BASE_URL"@, e)),
    }
}

/// The public origin that a parsed URL names, or why it names none.
pub fn check_public_base_url(url: &Url) -> (r: Result<String, String>)
    ensures
        match public_origin(url@) {
            Ok(origin) => r matches Ok(s) && s@ == origin,
            Err(e) => r matches Err(s) && s@ == e,
        },
{
    let key = "VAMPIRE_PUBLIC_BASE_URL";
    if !same(url.scheme(), "http") && !same(url.scheme(), "https") {
        return Err(invalid(key, "scheme must be http or https"));
    }
    if url.host_str().is_none() || !url.without_credentials() {
        return Err(invalid(key, "credentials and missing hosts are not allowed"));
    }
    if !same(url.path(), "/") || url.query().is_some() || url.fragment().is_some() {
        return Err(invalid(key, "path, query, and fragment are not allowed"));
    }
    Ok(url.origin_text())
}

/// The public origin that a text names, or why it names none.
pub fn parse_public_base_url(value: &str) -> (r: Result<String, String>)
    ensures
        match public_base_url(value@) {
            Ok(origin) => r matches Ok(s) && s@ == origin,
            Err(e) => r matches Err(s) && s@ == e,
        },
{
    match Url::parse(trim(value)) {
        Ok(url) => check_public_base_url(&url),
        Err(error) => Err(invalid("VAMPIRE_PUBLIC_BASE_URL", error.as_str())),
    }
}

// ---------------------------------------------------------------------------
// The whole configuration
// ---------------------------------------------------------------------------

/// The address of the package listener.
pub open spec fn pkg_bind_text(vars: Seq<(String, String)>) -> Result<
    (Seq<char>, Seq<char>),
    Seq<char>,
> {
    bind_text(
        vars,
        "VAMPIRE_PKG_BIND"@,
        "VAMPIRE_PKG_HOST"@,
        "127.0.0.1"@,
        "VAMPIRE_PKG_PORT"@,
        8080,
    )
}

/// The address of the git listener.
pub open spec fn git_bind_text(vars: Seq<(String, String)>) -> Result<
    (Seq<char>, Seq<char>),
    Seq<char>,
> {
    bind_text(
        vars,
        "VAMPIRE_GIT_BIND"@,
        "VAMPIRE_GIT_HOST"@,
        "127.0.0.1"@,
        "VAMPIRE_GIT_PORT"@,
        8081,
    )
}

/// The address of the management listener.
pub open spec fn management_bind_text(vars: Seq<(String, String)>) -> Result<
    (Seq<char>, Seq<char>),
    Seq<char>,
> {
    bind_text(
        vars,
        "VAMPIRE_MANAGEMENT_BIND"@,
        "VAMPIRE_MANAGEMENT_HOST"@,
        "127.0.0.1"@,
        "VAMPIRE_MANAGEMENT_PORT"@,
        8082,
    )
}

/// The public origin, which has no default.
pub open spec fn public_setting(vars: Seq<(String, String)>) -> Result<Seq<char>, Seq<char>> {
    match variable(vars, "VAMPIRE_PUBLIC_BASE_URL"@) {
        Some(value) => public_base_url(value),
        None => Err("VAMPIRE_PUBLIC_BASE_URL is required"@),
    }
}

/// The bound of the cache in bytes, which has no default.
pub open spec fn cache_size_setting(vars: Seq<(String, String)>) -> Result<int, Seq<char>> {
    let key = "VAMPIRE_MAX_CACHE_SIZE_MB"@;
    match variable(vars, key) {
        Some(value) => match positive(key, trimmed(value), u64::MAX as int) {
            Ok(mb) => if mb * 1_000_000 > u64::MAX {
                Err(invalid_text(key, "too large"@))
            } else {
                Ok(mb * 1_000_000)
            },
            Err(e) => Err(e),
        },
        None => Err("VAMPIRE_MAX_CACHE_SIZE_MB is required"@),
    }
}

/// A positive number with a default.
pub open spec fn number_setting(
    vars: Seq<(String, String)>,
    key: Seq<char>,
    default: Seq<char>,
    max: int,
) -> Result<int, Seq<char>> {
    match variable(vars, key) {
        Some(value) => positive(key, value, max),
        None => positive(key, default, max),
    }
}

/// The configuration, or the first thing that is wrong with it.
pub open spec fn settings(vars: Seq<(String, String)>, faults: &BindFaults) -> Result<
    ConfigView,
    Seq<char>,
> {
    let pkg = bound(pkg_bind_text(vars), opt_text(faults.pkg));
    let git = bound(git_bind_text(vars), opt_text(faults.git));
    let management = bound(management_bind_text(vars), opt_text(faults.management));
    let origin = public_setting(vars);
    let size = cache_size_setting(vars);
    let fetches = number_setting(
        vars,
        "VAMPIRE_MAX_UPSTREAM_FETCHES"@,
        "32"@,
        usize::MAX as int,
    );
    let timeout = number_setting(vars, "VAMPIRE_UPSTREAM_TIMEOUT_MS"@, "30000"@, u64::MAX as int);
    if pkg is Err {
        Err(pkg->Err_0)
    } else if git is Err {
        Err(git->Err_0)
    } else if management is Err {
        Err(management->Err_0)
    } else if origin is Err {
        Err(origin->Err_0)
    } else if size is Err {
        Err(size->Err_0)
    } else if fetches is Err {
        Err(fetches->Err_0)
    } else if timeout is Err {
        Err(timeout->Err_0)
    } else {
        Ok(
            ConfigView {
                pkg_bind: pkg->Ok_0,
                git_bind: git->Ok_0,
                management_bind: management->Ok_0,
                public_base_url: origin->Ok_0,
                cache_dir: match variable(vars, "VAMPIRE_CACHE_DIR"@) {
                    Some(dir) => dir,
                    None => "./.cache/vampire"@,
                },
                max_cache_size: size->Ok_0,
                max_upstream_fetches: fetches->Ok_0,
                upstream_timeout_ms: timeout->Ok_0,
            },
        )
    }
}

fn parse_cache_size(vars: &Vec<(String, String)>) -> (r: Result<u64, String>)
    ensures
        match cache_size_setting(vars@) {
            Ok(n) => r matches Ok(v) && v == n,
            Err(e) => r matches Err(s) && s@ == e,
        },
{
    let key = "VAMPIRE_MAX_CACHE_SIZE_MB";
    match var(vars, key) {
        Some(value) => match parse_positive(key, trim(value), u64::MAX) {
            Ok(mb) => match mb.checked_mul(1_000_000) {
                Some(bytes) => Ok(bytes),
                None => Err(invalid(key, "too large")),
            },
            Err(error) => Err(error),
        },
        None => Err("VAMPIRE_MAX_CACHE_SIZE_MB is required".to_owned()),
    }
}

fn parse_setting(vars: &Vec<(String, String)>, key: &str, default: &str, max: u64) -> (r: Result<
    u64,
    String,
>)
    ensures
        match number_setting(vars@, key@, default@, max as int) {
            Ok(n) => r matches Ok(v) && v == n,
            Err(e) => r matches Err(s) && s@ == e,
        },
{
    match var(vars, key) {
        Some(value) => parse_positive(key, value, max),
        None => parse_positive(key, default, max),
    }
}

impl Config {
    /// The texts that have to be socket addresses.
    pub fn bind_requests(vars: &Vec<(String, String)>) -> (r: BindRequests)
        ensures
            request_view(r.pkg) == pkg_bind_text(vars@),
            request_view(r.git) == git_bind_text(vars@),
            request_view(r.management) == management_bind_text(vars@),
    {
        BindRequests {
            pkg: parse_bind(
                vars,
                "VAMPIRE_PKG_BIND",
                "VAMPIRE_PKG_HOST",
                "127.0.0.1",
                "VAMPIRE_PKG_PORT",
                8080,
            ),
            git: parse_bind(
                vars,
                "VAMPIRE_GIT_BIND",
                "VAMPIRE_GIT_HOST",
                "127.0.0.1",
                "VAMPIRE_GIT_PORT",
                8081,
            ),
            management: parse_bind(
                vars,
                "VAMPIRE_MANAGEMENT_BIND",
                "VAMPIRE_MANAGEMENT_HOST",
                "127.0.0.1",
                "VAMPIRE_MANAGEMENT_PORT",
                8082,
            ),
        }
    }

    /// The configuration that the variables give, or the first thing that is wrong with them.
    /// `faults` holds what the parser of socket addresses says of the texts that
    /// `bind_requests` gives.
    pub fn from_vars(vars: &Vec<(String, String)>, faults: &BindFaults) -> (r: Result<
        Config,
        String,
    >)
        ensures
            match settings(vars@, faults) {
                Ok(config) => r matches Ok(c) && c@ == config,
                Err(e) => r matches Err(s) && s@ == e,
            },
    {
        let requests = Config::bind_requests(vars);
        let pkg_bind = match settle_bind(requests.pkg, &faults.pkg) {
            Ok(text) => text,
            Err(error) => return Err(error),
        };
        let git_bind = match settle_bind(requests.git, &faults.git) {
            Ok(text) => text,
            Err(error) => return Err(error),
        };
        let management_bind = match settle_bind(requests.management, &faults.management) {
            Ok(text) => text,
            Err(error) => return Err(error),
        };
        let public_base_url = match var(vars, "VAMPIRE_PUBLIC_BASE_URL") {
            Some(value) => match parse_public_base_url(value) {
                Ok(origin) => origin,
                Err(error) => return Err(error),
            },
            None => return Err("VAMPIRE_PUBLIC_BASE_URL is required".to_owned()),
        };
        let cache_dir = match var(vars, "VAMPIRE_CACHE_DIR") {
            Some(dir) => dir.to_owned(),
            None => "./.cache/vampire".to_owned(),
        };
        let max_cache_size: u64 = match parse_cache_size(vars) {
            Ok(size) => size,
            Err(error) => return Err(error),
        };
        let fetches: u64 = match parse_setting(
            vars,
            "VAMPIRE_MAX_UPSTREAM_FETCHES",
            "32",
            usize::MAX as u64,
        ) {
            Ok(n) => n,
            Err(error) => return Err(error),
        };
        let upstream_timeout_ms: u64 = match parse_setting(
            vars,
            "VAMPIRE_UPSTREAM_TIMEOUT_MS",
            "30000",
            u64::MAX,
        ) {
            Ok(n) => n,
            Err(error) => return Err(error),
        };
        proof {
            lemma_positive_within(vars@, "VAMPIRE_MAX_UPSTREAM_FETCHES"@, "32"@, usize::MAX as int);
        }
        Ok(
            Config {
                pkg_bind,
                git_bind,
                management_bind,
                public_base_url,
                cache_dir,
                max_cache_size,
                max_upstream_fetches: fetches as usize,
                upstream_timeout_ms,
            },
        )
    }

    /// What is wrong with the limits, which have to be positive.
    pub open spec fn fault(&self) -> Option<Seq<char>> {
        if self.max_cache_size == 0 {
            Some("max_cache_size must be positive"@)
        } else if self.max_upstream_fetches == 0 {
            Some("max_upstream_fetches must be positive"@)
        } else if self.upstream_timeout_ms == 0 {
            Some("upstream_timeout must be positive"@)
        } else {
            None
        }
    }

    /// Refuses a configuration with a limit of zero.
    pub fn validate(&self) -> (r: Result<(), String>)
        ensures
            match self.fault() {
                Some(m) => r matches Err(e) && e@ == m,
                None => r is Ok,
            },
    {
        if self.max_cache_size == 0 {
            return Err("max_cache_size must be positive".to_owned());
        }
        if self.max_upstream_fetches == 0 {
            return Err("max_upstream_fetches must be positive".to_owned());
        }
        if self.upstream_timeout_ms == 0 {
            return Err("upstream_timeout must be positive".to_owned());
        }
        Ok(())
    }
}

proof fn lemma_digits_within(s: Seq<char>, max: int)
    requires
        max >= 0,
    ensures
        crate::text::digits_value(s, max) matches Ok(n) ==> 0 <= n <= max,
    decreases s.len(),
{
    if s.len() > 0 {
        lemma_digits_within(s.drop_last(), max);
    }
}

proof fn lemma_positive_within(
    vars: Seq<(String, String)>,
    key: Seq<char>,
    default: Seq<char>,
    max: int,
)
    requires
        max >= 0,
    ensures
        number_setting(vars, key, default, max) matches Ok(n) ==> 0 < n <= max,
{
    let text = match variable(vars, key) {
        Some(value) => value,
        None => default,
    };
    lemma_digits_within(text, max);
    lemma_digits_within(text.drop_first(), max);
}

/// What is read from variables is valid: every limit is positive and fits its type.
pub proof fn settings_are_valid(vars: Seq<(String, String)>, faults: &BindFaults)
    ensures
        settings(vars, faults) matches Ok(c) ==> 0 < c.max_cache_size <= u64::MAX && 0
            < c.max_upstream_fetches <= usize::MAX && 0 < c.upstream_timeout_ms <= u64::MAX,
{
    lemma_positive_within(vars, "VAMPIRE_MAX_UPSTREAM_FETCHES"@, "32"@, usize::MAX as int);
    lemma_positive_within(vars, "VAMPIRE_UPSTREAM_TIMEOUT_MS"@, "30000"@, u64::MAX as int);
    if let Some(value) = variable(vars, "VAMPIRE_MAX_CACHE_SIZE_MB"@) {
        lemma_digits_within(trimmed(value), u64::MAX as int);
        lemma_digits_within(trimmed(value).drop_first(), u64::MAX as int);
    }
}

/// A variable has the value that is listed first under its name, and none where there is none.
pub proof fn variables_have_their_first_value(vars: Seq<(String, String)>, key: Seq<char>, i: int)
    ensures
        0 <= i < vars.len() && vars[i].0@ == key && (forall|k: int|
            0 <= k < i ==> (#[trigger] vars[k]).0@ != key) ==> variable(vars, key) == Some(
            vars[i].1@,
        ),
        (forall|k: int| 0 <= k < vars.len() ==> (#[trigger] vars[k]).0@ != key) ==> variable(
            vars,
            key,
        ) is None,
    decreases vars.len(),
{
    if vars.len() > 0 && vars[0].0@ != key {
        let rest = vars.drop_first();
        variables_have_their_first_value(rest, key, i - 1);
        assert forall|k: int| 0 <= k < rest.len() implies #[trigger] rest[k] == vars[k + 1] by {}
        if 0 <= i < vars.len() && vars[i].0@ == key {
            assert(rest[i - 1] == vars[i]);
        }
    } else if vars.len() > 0 {
        if 0 < i < vars.len() && (forall|k: int| 0 <= k < i ==> (#[trigger] vars[k]).0@ != key) {
            assert(vars[0].0@ != key);
        }
    }
}

/// The address of a listener: its bind variable without the white space around it; without one,
/// host and port with a colon between them, each its own variable or else its default, and the
/// host in brackets where it holds a colon and has none.
pub proof fn addresses_come_from_bind_or_host_and_port(
    vars: Seq<(String, String)>,
    bind_key: Seq<char>,
    host_key: Seq<char>,
    default_host: Seq<char>,
    port_key: Seq<char>,
    default_port: int,
    port: int,
)
    requires
        0 <= default_port <= 65535,
    ensures
        ({
            let r = bind_text(vars, bind_key, host_key, default_host, port_key, default_port);
            let host = match variable(vars, host_key) {
                Some(h) => trimmed(h),
                None => trimmed(default_host),
            };
            let port_text = match variable(vars, port_key) {
                Some(p) => trimmed(p),
                None => trimmed(decimal(default_port as nat)),
            };
            &&& variable(vars, bind_key) matches Some(value) ==> r == Ok::<
                (Seq<char>, Seq<char>),
                Seq<char>,
            >((trimmed(value), bind_key))
            &&& variable(vars, bind_key) is None && unsigned_value(port_text, 65535) == Ok::<
                int,
                NumberFault,
            >(port) && host.len() > 0 ==> r == Ok::<(Seq<char>, Seq<char>), Seq<char>>(
                (
                    if host.contains(':') && host[0] != '[' {
                        "["@ + host + "]:"@ + decimal(port as nat)
                    } else {
                        host + ":"@ + decimal(port as nat)
                    },
                    host_key + "/"@ + port_key,
                ),
            )
            &&& variable(vars, bind_key) is None && unsigned_value(port_text, 65535) is Ok
                && host.len() == 0 ==> r == Err::<(Seq<char>, Seq<char>), Seq<char>>(
                "invalid "@ + host_key + ": "@ + "host must not be empty"@,
            )
            &&& variable(vars, bind_key) is None && unsigned_value(port_text, 65535) is Err ==> r
                is Err
        }),
{
    reveal_strlit("[");
    let host = match variable(vars, host_key) {
        Some(h) => trimmed(h),
        None => trimmed(default_host),
    };
    if host.len() > 0 {
        if host[0] == '[' {
            assert("["@ =~= host.subrange(0, 1));
        }
        if "["@.is_prefix_of(host) {
            assert(host.subrange(0, 1)[0] == '[');
        }
    }
}

/// The three listeners have variables of their own, and the ports 8080, 8081 and 8082 of the local
/// host without them.
pub proof fn listeners_have_variables_of_their_own(vars: Seq<(String, String)>)
    ensures
        pkg_bind_text(vars) == bind_text(
            vars,
            "VAMPIRE_PKG_BIND"@,
            "VAMPIRE_PKG_HOST"@,
            "127.0.0.1"@,
            "VAMPIRE_PKG_PORT"@,
            8080,
        ),
        git_bind_text(vars) == bind_text(
            vars,
            "VAMPIRE_GIT_BIND"@,
            "VAMPIRE_GIT_HOST"@,
            "127.0.0.1"@,
            "VAMPIRE_GIT_PORT"@,
            8081,
        ),
        management_bind_text(vars) == bind_text(
            vars,
            "VAMPIRE_MANAGEMENT_BIND"@,
            "VAMPIRE_MANAGEMENT_HOST"@,
            "127.0.0.1"@,
            "VAMPIRE_MANAGEMENT_PORT"@,
            8082,
        ),
{
}

/// The public origin is a URL of `http` or `https` with a host and nothing more: no credentials,
/// no path but `/`, no query and no fragment. It is written with its port where that is not the
/// default, and without the slash.
pub proof fn public_origins_are_bare(value: Seq<char>, u: UrlView, origin: Seq<char>)
    requires
        url_parse(trimmed(value)) == Ok::<UrlView, Seq<char>>(u),
    ensures
        public_base_url(value) is Ok <==> (u.scheme == "http"@ || u.scheme == "https"@)
            && u.host is Some && u.username.len() == 0 && u.password is None && u.path == "/"@
            && u.query is None && u.fragment is None,
        public_base_url(value) matches Ok(o) ==> o == u.origin_text(),
{
}

/// A text that is no URL is no public origin.
pub proof fn other_texts_are_no_origins(value: Seq<char>, e: Seq<char>)
    ensures
        url_parse(trimmed(value)) == Err::<UrlView, Seq<char>>(e) ==> public_base_url(value)
            == Err::<Seq<char>, Seq<char>>("invalid "@ + "VAMPIRE_PUBLIC_BASE_URL"@ + ": "@ + e),
{
}

/// A positive number is taken as it is written; zero, what is no number, and what is too large are
/// refused by the name of the variable.
pub proof fn numbers_have_to_be_positive(key: Seq<char>, text: Seq<char>, max: int, n: int)
    ensures
        unsigned_value(text, max) == Ok::<int, NumberFault>(n) && n != 0 ==> positive(
            key,
            text,
            max,
        ) == Ok::<int, Seq<char>>(n),
        unsigned_value(text, max) == Ok::<int, NumberFault>(0) ==> positive(
            key,
            text,
            max,
        ) == Err::<int, Seq<char>>("invalid "@ + key + ": "@ + "must be positive"@),
        unsigned_value(text, max) matches Err(fault) ==> positive(key, text, max) == Err::<
            int,
            Seq<char>,
        >("invalid "@ + key + ": "@ + fault_text(fault)),
        fault_text(NumberFault::Empty) == "cannot parse integer from empty string"@,
        fault_text(NumberFault::InvalidDigit) == "invalid digit found in string"@,
        fault_text(NumberFault::TooLarge)
            == "number too large to fit in target type"@,
{
}

/// The bound of the cache is given in millions of bytes, without the white space around it, and
/// has to fit.
pub proof fn the_bound_is_given_in_megabytes(vars: Seq<(String, String)>, value: Seq<char>, n: int)
    requires
        variable(vars, "VAMPIRE_MAX_CACHE_SIZE_MB"@) == Some(value),
        unsigned_value(trimmed(value), u64::MAX as int) == Ok::<int, NumberFault>(n),
        n > 0,
    ensures
        n * 1_000_000 <= u64::MAX ==> cache_size_setting(vars) == Ok::<int, Seq<char>>(
            n * 1_000_000,
        ),
        n * 1_000_000 > u64::MAX ==> cache_size_setting(vars) == Err::<int, Seq<char>>(
            "invalid "@ + "VAMPIRE_MAX_CACHE_SIZE_MB"@ + ": "@ + "too large"@,
        ),
{
}

/// The origin and the bound have no default.
pub proof fn two_settings_are_required(vars: Seq<(String, String)>)
    ensures
        variable(vars, "VAMPIRE_PUBLIC_BASE_URL"@) is None ==> public_setting(vars) == Err::<
            Seq<char>,
            Seq<char>,
        >("VAMPIRE_PUBLIC_BASE_URL is required"@),
        variable(vars, "VAMPIRE_PUBLIC_BASE_URL"@) matches Some(value) ==> public_setting(vars)
            == public_base_url(value),
        variable(vars, "VAMPIRE_MAX_CACHE_SIZE_MB"@) is None ==> cache_size_setting(vars) == Err::<
            int,
            Seq<char>,
        >("VAMPIRE_MAX_CACHE_SIZE_MB is required"@),
{
}

/// A number that is not set has its default: 32 fetches at a time, and 30 seconds for each.
pub proof fn numbers_have_defaults(
    vars: Seq<(String, String)>,
    key: Seq<char>,
    default: Seq<char>,
    max: int,
)
    requires
        max >= 30000,
    ensures
        variable(vars, key) is None ==> number_setting(vars, key, "32"@, max) == Ok::<
            int,
            Seq<char>,
        >(32) && number_setting(vars, key, "30000"@, max) == Ok::<int, Seq<char>>(30000),
        variable(vars, key) matches Some(value) ==> number_setting(vars, key, default, max)
            == positive(key, value, max),
{
    reveal_strlit("32");
    reveal_strlit("30000");
    digits_are_read_as_the_number_they_write("32"@, max);
    digits_are_read_as_the_number_they_write("30000"@, max);
    reveal_with_fuel(written_number, 7);
    assert(written_number("32"@) == 32);
    assert(written_number("30000"@) == 30000);
}

/// An address is taken as it is written where the parser of addresses finds nothing wrong with it,
/// and refused by the name of its variable where it does.
pub proof fn addresses_are_taken_as_they_are_written(
    text: Seq<char>,
    label: Seq<char>,
    fault: Seq<char>,
)
    ensures
        bound(Ok((text, label)), None) == Ok::<Seq<char>, Seq<char>>(text),
        bound(Ok((text, label)), Some(fault)) == Err::<Seq<char>, Seq<char>>(
            "invalid "@ + label + ": "@ + fault,
        ),
        bound(Err(fault), None) == Err::<Seq<char>, Seq<char>>(fault),
{
}

/// The configuration is made of its settings, each where it belongs, and there is one exactly where
/// nothing is wrong with any of them.
pub proof fn the_configuration_is_made_of_its_settings(
    vars: Seq<(String, String)>,
    faults: &BindFaults,
)
    ensures
        ({
            let pkg = bound(pkg_bind_text(vars), opt_text(faults.pkg));
            let git = bound(git_bind_text(vars), opt_text(faults.git));
            let management = bound(management_bind_text(vars), opt_text(faults.management));
            let fetches = number_setting(
                vars,
                "VAMPIRE_MAX_UPSTREAM_FETCHES"@,
                "32"@,
                usize::MAX as int,
            );
            let timeout = number_setting(
                vars,
                "VAMPIRE_UPSTREAM_TIMEOUT_MS"@,
                "30000"@,
                u64::MAX as int,
            );
            &&& settings(vars, faults) is Ok <==> pkg is Ok && git is Ok && management is Ok
                && public_setting(vars) is Ok && cache_size_setting(vars) is Ok && fetches is Ok
                && timeout is Ok
            &&& settings(vars, faults) matches Ok(c) ==> {
                &&& pkg == Ok::<Seq<char>, Seq<char>>(c.pkg_bind)
                &&& git == Ok::<Seq<char>, Seq<char>>(c.git_bind)
                &&& management == Ok::<Seq<char>, Seq<char>>(c.management_bind)
                &&& public_setting(vars) == Ok::<Seq<char>, Seq<char>>(c.public_base_url)
                &&& cache_size_setting(vars) == Ok::<int, Seq<char>>(c.max_cache_size)
                &&& fetches == Ok::<int, Seq<char>>(c.max_upstream_fetches)
                &&& timeout == Ok::<int, Seq<char>>(c.upstream_timeout_ms)
                &&& variable(vars, "VAMPIRE_CACHE_DIR"@) matches Some(dir) ==> c.cache_dir == dir
                &&& variable(vars, "VAMPIRE_CACHE_DIR"@) is None ==> c.cache_dir
                    == "./.cache/vampire"@
            }
            &&& pkg matches Err(e) ==> settings(vars, faults) == Err::<ConfigView, Seq<char>>(e)
        }),
{
}

/// A configuration is refused where one of its limits is zero, and only there.
pub proof fn limits_of_zero_are_refused(config: &Config)
    ensures
        config.fault() is None <==> config.max_cache_size > 0 && config.max_upstream_fetches > 0
            && config.upstream_timeout_ms > 0,
        config.max_cache_size == 0 ==> config.fault() == Some("max_cache_size must be positive"@),
        config.max_cache_size > 0 && config.max_upstream_fetches == 0 ==> config.fault() == Some(
            "max_upstream_fetches must be positive"@,
        ),
{
}

/// What is shown of a configuration is what it holds.
pub proof fn configurations_show_what_they_hold(config: Config, request: BindRequest, e: String)
    ensures
        config@.pkg_bind == config.pkg_bind@,
        config@.git_bind == config.git_bind@,
        config@.management_bind == config.management_bind@,
        config@.public_base_url == config.public_base_url@,
        config@.cache_dir == config.cache_dir@,
        config@.max_cache_size == config.max_cache_size,
        config@.max_upstream_fetches == config.max_upstream_fetches,
        config@.upstream_timeout_ms == config.upstream_timeout_ms,
        request_view(Ok(request)) == Ok::<(Seq<char>, Seq<char>), Seq<char>>(
            (request.text@, request.label@),
        ),
        request_view(Err(e)) == Err::<(Seq<char>, Seq<char>), Seq<char>>(e@),
{
}

/// The first thing that is wrong is what is said: of the listeners for packages, git and
/// management, then of the origin, the bound, the fetches and the time for each.
pub proof fn the_first_fault_is_said(vars: Seq<(String, String)>, faults: &BindFaults)
    ensures
        ({
            let pkg = bound(pkg_bind_text(vars), opt_text(faults.pkg));
            let git = bound(git_bind_text(vars), opt_text(faults.git));
            let management = bound(management_bind_text(vars), opt_text(faults.management));
            let fetches = number_setting(
                vars,
                "VAMPIRE_MAX_UPSTREAM_FETCHES"@,
                "32"@,
                usize::MAX as int,
            );
            let timeout = number_setting(
                vars,
                "VAMPIRE_UPSTREAM_TIMEOUT_MS"@,
                "30000"@,
                u64::MAX as int,
            );
            let r = settings(vars, faults);
            &&& pkg is Ok ==> (git matches Err(e) ==> r == Err::<ConfigView, Seq<char>>(e))
            &&& pkg is Ok && git is Ok ==> (management matches Err(e) ==> r == Err::<
                ConfigView,
                Seq<char>,
            >(e))
            &&& pkg is Ok && git is Ok && management is Ok ==> (public_setting(
                vars,
            ) matches Err(e) ==> r == Err::<ConfigView, Seq<char>>(e))
            &&& pkg is Ok && git is Ok && management is Ok && public_setting(vars) is Ok ==> (
            cache_size_setting(vars) matches Err(e) ==> r == Err::<ConfigView, Seq<char>>(e))
            &&& pkg is Ok && git is Ok && management is Ok && public_setting(vars) is Ok
                && cache_size_setting(vars) is Ok ==> (fetches matches Err(e) ==> r == Err::<
                ConfigView,
                Seq<char>,
            >(e))
            &&& pkg is Ok && git is Ok && management is Ok && public_setting(vars) is Ok
                && cache_size_setting(vars) is Ok && fetches is Ok ==> (timeout matches Err(e) ==> r
                == Err::<ConfigView, Seq<char>>(e))
        }),
{
}

/// What is wrong with a public origin is said in turn: its scheme, then credentials or a missing
/// host, then anything behind the host.
pub proof fn faults_of_origins_are_said_in_turn(u: UrlView)
    ensures
        ({
            let said = |what: Seq<char>|
                Err::<Seq<char>, Seq<char>>(
                    "invalid "@ + "VAMPIRE_PUBLIC_BASE_URL"@ + ": "@ + what,
                );
            let web = u.scheme == "http"@ || u.scheme == "https"@;
            let bare = u.host is Some && u.username.len() == 0 && u.password is None;
            &&& !web ==> public_origin(u) == said("scheme must be http or https"@)
            &&& web && !bare ==> public_origin(u) == said(
                "credentials and missing hosts are not allowed"@,
            )
            &&& web && bare && (u.path != "/"@ || u.query is Some || u.fragment is Some)
                ==> public_origin(u) == said("path, query, and fragment are not allowed"@)
        }),
{
}

/// A port that is no number, or too large, is refused by the name of its variable.
pub proof fn ports_have_to_be_numbers(
    vars: Seq<(String, String)>,
    bind_key: Seq<char>,
    host_key: Seq<char>,
    default_host: Seq<char>,
    port_key: Seq<char>,
    default_port: int,
    value: Seq<char>,
    fault: NumberFault,
)
    requires
        variable(vars, bind_key) is None,
        variable(vars, port_key) == Some(value),
        unsigned_value(trimmed(value), 65535) == Err::<int, NumberFault>(fault),
    ensures
        bind_text(vars, bind_key, host_key, default_host, port_key, default_port) == Err::<
            (Seq<char>, Seq<char>),
            Seq<char>,
        >("invalid "@ + port_key + ": "@ + fault_text(fault)),
{
}

} // verus!
