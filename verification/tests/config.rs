use vampire::config::{
    check_public_base_url, parse_bind, parse_public_base_url, BindFaults, Config,
};
use vampire::Url;

fn no_faults() -> BindFaults {
    BindFaults {
        pkg: None,
        git: None,
        management: None,
    }
}

fn vars_with(overrides: &[(&str, &str)]) -> Vec<(String, String)> {
    let mut vars: Vec<(String, String)> = overrides
        .iter()
        .map(|(key, value)| ((*key).to_owned(), (*value).to_owned()))
        .collect();
    vars.push(("VAMPIRE_MAX_CACHE_SIZE_MB".to_owned(), "100".to_owned()));
    vars.push((
        "VAMPIRE_PUBLIC_BASE_URL".to_owned(),
        "https://mirror.example".to_owned(),
    ));
    vars
}

fn config_with(overrides: &[(&str, &str)]) -> Result<Config, String> {
    Config::from_vars(&vars_with(overrides), &no_faults())
}

#[test]
fn defaults() {
    let config = config_with(&[]).unwrap();
    assert_eq!(config.pkg_bind, "127.0.0.1:8080");
    assert_eq!(config.git_bind, "127.0.0.1:8081");
    assert_eq!(config.management_bind, "127.0.0.1:8082");
    assert_eq!(config.public_base_url, "https://mirror.example");
    assert_eq!(config.cache_dir, "./.cache/vampire");
    assert_eq!(config.max_cache_size, 100_000_000);
    assert_eq!(config.max_upstream_fetches, 32);
    assert_eq!(config.upstream_timeout_ms, 30_000);
}

#[test]
fn bind_overrides() {
    let config = config_with(&[
        ("VAMPIRE_PKG_BIND", "0.0.0.0:9090"),
        ("VAMPIRE_GIT_BIND", "0.0.0.0:9091"),
        ("VAMPIRE_MANAGEMENT_BIND", "0.0.0.0:9092"),
        ("VAMPIRE_PUBLIC_BASE_URL", "https://mirror.example:8443/"),
        ("VAMPIRE_CACHE_DIR", "/tmp/cache"),
        ("VAMPIRE_MAX_CACHE_SIZE_MB", "5000"),
        ("VAMPIRE_MAX_UPSTREAM_FETCHES", "8"),
        ("VAMPIRE_UPSTREAM_TIMEOUT_MS", "60000"),
    ])
    .unwrap();
    assert_eq!(config.pkg_bind, "0.0.0.0:9090");
    assert_eq!(config.git_bind, "0.0.0.0:9091");
    assert_eq!(config.management_bind, "0.0.0.0:9092");
    assert_eq!(config.public_base_url, "https://mirror.example:8443");
    assert_eq!(config.cache_dir, "/tmp/cache");
    assert_eq!(config.max_cache_size, 5_000_000_000);
    assert_eq!(config.max_upstream_fetches, 8);
    assert_eq!(config.upstream_timeout_ms, 60_000);
}

#[test]
fn host_and_port_overrides() {
    let config = config_with(&[
        ("VAMPIRE_PKG_HOST", "0.0.0.0"),
        ("VAMPIRE_PKG_PORT", "9090"),
        ("VAMPIRE_GIT_HOST", "127.0.0.2"),
        ("VAMPIRE_GIT_PORT", "9091"),
        ("VAMPIRE_MANAGEMENT_HOST", "127.0.0.3"),
        ("VAMPIRE_MANAGEMENT_PORT", "9092"),
    ])
    .unwrap();
    assert_eq!(config.pkg_bind, "0.0.0.0:9090");
    assert_eq!(config.git_bind, "127.0.0.2:9091");
    assert_eq!(config.management_bind, "127.0.0.3:9092");
}

#[test]
fn requires_public_base_url() {
    let vars = vec![("VAMPIRE_MAX_CACHE_SIZE_MB".to_owned(), "100".to_owned())];
    let result = Config::from_vars(&vars, &no_faults());
    assert!(result.is_err());
    assert!(result.unwrap_err().contains("VAMPIRE_PUBLIC_BASE_URL"));
}

#[test]
fn requires_max_cache_size() {
    let vars = vec![(
        "VAMPIRE_PUBLIC_BASE_URL".to_owned(),
        "https://mirror.example".to_owned(),
    )];
    let result = Config::from_vars(&vars, &no_faults());
    assert!(result.is_err());
    assert!(result.unwrap_err().contains("VAMPIRE_MAX_CACHE_SIZE_MB"));
}

#[test]
fn rejects_invalid_values() {
    let fault = || Some("invalid socket address syntax".to_owned());
    assert!(config_with(&[("VAMPIRE_MAX_CACHE_SIZE_MB", "abc")]).is_err());
    assert!(Config::from_vars(
        &vars_with(&[("VAMPIRE_PKG_BIND", "not-an-addr")]),
        &BindFaults {
            pkg: fault(),
            ..no_faults()
        }
    )
    .is_err());
    assert!(Config::from_vars(
        &vars_with(&[("VAMPIRE_GIT_BIND", "still-not-an-addr")]),
        &BindFaults {
            git: fault(),
            ..no_faults()
        }
    )
    .is_err());
    assert!(Config::from_vars(
        &vars_with(&[("VAMPIRE_MANAGEMENT_BIND", "bad-addr")]),
        &BindFaults {
            management: fault(),
            ..no_faults()
        }
    )
    .is_err());
    assert!(config_with(&[("VAMPIRE_PKG_PORT", "bad-port")]).is_err());
    assert!(config_with(&[("VAMPIRE_PUBLIC_BASE_URL", "ftp://mirror.example")]).is_err());
    assert!(config_with(&[("VAMPIRE_PUBLIC_BASE_URL", "https://mirror.example/pkg")]).is_err());
    assert!(config_with(&[("VAMPIRE_UPSTREAM_TIMEOUT_MS", "xyz")]).is_err());
    assert!(config_with(&[("VAMPIRE_MAX_UPSTREAM_FETCHES", "-1")]).is_err());
}

#[test]
fn limits_must_be_positive_and_fit() {
    for (key, value, expected) in [
        (
            "VAMPIRE_MAX_CACHE_SIZE_MB",
            "0",
            "invalid VAMPIRE_MAX_CACHE_SIZE_MB: must be positive",
        ),
        (
            "VAMPIRE_MAX_CACHE_SIZE_MB",
            "18446744073710",
            "invalid VAMPIRE_MAX_CACHE_SIZE_MB: too large",
        ),
        (
            "VAMPIRE_MAX_CACHE_SIZE_MB",
            "18446744073709551616",
            "invalid VAMPIRE_MAX_CACHE_SIZE_MB: number too large to fit in target type",
        ),
        (
            "VAMPIRE_MAX_UPSTREAM_FETCHES",
            "0",
            "invalid VAMPIRE_MAX_UPSTREAM_FETCHES: must be positive",
        ),
        (
            "VAMPIRE_MAX_UPSTREAM_FETCHES",
            " 8",
            "invalid VAMPIRE_MAX_UPSTREAM_FETCHES: invalid digit found in string",
        ),
        (
            "VAMPIRE_UPSTREAM_TIMEOUT_MS",
            "",
            "invalid VAMPIRE_UPSTREAM_TIMEOUT_MS: cannot parse integer from empty string",
        ),
        (
            "VAMPIRE_UPSTREAM_TIMEOUT_MS",
            "+0",
            "invalid VAMPIRE_UPSTREAM_TIMEOUT_MS: must be positive",
        ),
        (
            "VAMPIRE_PKG_PORT",
            "65536",
            "invalid VAMPIRE_PKG_PORT: number too large to fit in target type",
        ),
        (
            "VAMPIRE_GIT_HOST",
            " \t",
            "invalid VAMPIRE_GIT_HOST: host must not be empty",
        ),
    ] {
        assert_eq!(config_with(&[(key, value)]).unwrap_err(), expected);
    }
    let config = config_with(&[("VAMPIRE_MAX_CACHE_SIZE_MB", " 18446744073709\n")]).unwrap();
    assert_eq!(config.max_cache_size, 18_446_744_073_709_000_000);
    assert!(config.validate().is_ok());
}

#[test]
fn the_first_fault_is_reported() {
    let faults = BindFaults {
        pkg: None,
        git: Some("g".to_owned()),
        management: Some("m".to_owned()),
    };
    let vars = vec![("VAMPIRE_MANAGEMENT_BIND".to_owned(), "x".to_owned())];
    assert_eq!(
        Config::from_vars(&vars, &faults).unwrap_err(),
        "invalid VAMPIRE_GIT_HOST/VAMPIRE_GIT_PORT: g"
    );
    let faults = BindFaults {
        git: None,
        ..faults
    };
    assert_eq!(
        Config::from_vars(&vars, &faults).unwrap_err(),
        "invalid VAMPIRE_MANAGEMENT_BIND: m"
    );
}

#[test]
fn binds_come_from_their_variables() {
    let vars = vec![
        ("H".to_owned(), " ::1 ".to_owned()),
        ("P".to_owned(), " 81 ".to_owned()),
        ("B".to_owned(), " [::1]:82 ".to_owned()),
    ];
    let request = parse_bind(&vars, "B", "H", "h", "P", 80).unwrap();
    assert_eq!((request.text.as_str(), request.label.as_str()), ("[::1]:82", "B"));
    let request = parse_bind(&vars, "-", "H", "h", "P", 80).unwrap();
    assert_eq!((request.text.as_str(), request.label.as_str()), ("[::1]:81", "H/P"));
    let request = parse_bind(&vars, "-", "-", "[::2]", "-", 80).unwrap();
    assert_eq!(request.text, "[::2]:80");
    let requests = Config::bind_requests(&vars);
    assert_eq!(requests.git.unwrap().text, "127.0.0.1:8081");
}

#[test]
fn public_base_urls_are_origins() {
    assert_eq!(
        parse_public_base_url(" https://Mirror.example:443/ ").unwrap(),
        "https://mirror.example"
    );
    assert_eq!(
        parse_public_base_url("http://127.0.0.1:8080").unwrap(),
        "http://127.0.0.1:8080"
    );
    for (value, expected) in [
        (
            "ftp://mirror.example",
            "invalid VAMPIRE_PUBLIC_BASE_URL: scheme must be http or https",
        ),
        (
            "https://user@mirror.example",
            "invalid VAMPIRE_PUBLIC_BASE_URL: credentials and missing hosts are not allowed",
        ),
        (
            "https://mirror.example/?q",
            "invalid VAMPIRE_PUBLIC_BASE_URL: path, query, and fragment are not allowed",
        ),
        (
            "https://mirror.example/#f",
            "invalid VAMPIRE_PUBLIC_BASE_URL: path, query, and fragment are not allowed",
        ),
        (
            "mirror",
            "invalid VAMPIRE_PUBLIC_BASE_URL: relative URL without a base",
        ),
    ] {
        assert_eq!(parse_public_base_url(value).unwrap_err(), expected);
    }
    assert_eq!(
        check_public_base_url(&Url::https("mirror.example")).unwrap(),
        "https://mirror.example"
    );
}

#[test]
fn zero_limits_are_invalid() {
    let mut config = config_with(&[]).unwrap();
    config.upstream_timeout_ms = 0;
    assert_eq!(config.validate().unwrap_err(), "upstream_timeout must be positive");
    config.max_upstream_fetches = 0;
    assert_eq!(config.validate().unwrap_err(), "max_upstream_fetches must be positive");
    config.max_cache_size = 0;
    assert_eq!(config.validate().unwrap_err(), "max_cache_size must be positive");
}
