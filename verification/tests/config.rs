//! Configuration from variables.

use hikvision_unifi_fire_bridge::clock::Duration;
use hikvision_unifi_fire_bridge::config::{
    require_https_or_loopback, Config, ConfigError, FireMatcher, Vars,
};
use hikvision_unifi_fire_bridge::weburl::{Url, UrlHost};

fn base_vars() -> Vars {
    let mut vars = Vars::new();
    for (k, v) in [
        ("HIKVISION_HOST", "192.0.2.10"),
        ("HIKVISION_USER", "hik-operator"),
        ("HIKVISION_PASS", "secret"),
        ("PROTECT_BASE_URL", "https://protect.example.com"),
        ("PROTECT_WEBHOOK_ID", "abc123"),
        ("PROTECT_API_KEY", "key123"),
    ] {
        vars.insert(k.to_owned(), v.to_owned());
    }
    vars
}

fn with(name: &str, value: &str) -> Vars {
    let mut vars = base_vars();
    vars.insert(name.to_owned(), value.to_owned());
    vars
}

fn load(vars: &Vars) -> Result<Config, ConfigError> {
    Config::from_map(vars, Ok(Config::health_bind_text(vars)))
}

fn error(vars: &Vars) -> String {
    match load(vars) {
        Ok(_) => panic!("must be refused"),
        Err(e) => e.message(),
    }
}

#[test]
fn minimal_configuration_loads_with_safe_defaults() {
    let cfg = load(&base_vars()).unwrap();
    assert_eq!(
        cfg.hik_url.as_str(),
        "http://192.0.2.10/ISAPI/Event/notification/alertStream"
    );
    assert_eq!(
        cfg.webhook_url.as_str(),
        "https://protect.example.com/proxy/protect/integration/v1/alarm-manager/webhook/abc123"
    );
    assert_eq!(cfg.probe_url.as_str(), "https://protect.example.com/");
    assert_eq!(cfg.stream_idle, Duration::from_secs(90));
    assert_eq!(cfg.cooldown, Duration::from_secs(60));
    assert_eq!(cfg.realert, Some(Duration::from_secs(60)));
    assert_eq!(cfg.active_ttl, Duration::from_secs(300));
    assert_eq!(cfg.webhook_attempts, 3);
    assert_eq!(cfg.probe_interval, Some(Duration::from_secs(60)));
}

#[test]
fn missing_required_variable_names_the_variable_without_values() {
    let mut vars = base_vars();
    vars.remove("PROTECT_API_KEY");
    let err = error(&vars);
    assert!(err.contains("PROTECT_API_KEY"), "err={err}");
    assert!(!err.contains("secret"), "must not echo other values: {err}");
}

#[test]
fn empty_required_variable_is_rejected() {
    assert!(load(&with("HIKVISION_PASS", "  ")).is_err());
}

#[test]
fn full_webhook_url_override_takes_precedence() {
    let cfg = load(&with(
        "PROTECT_WEBHOOK_URL",
        "https://protect.example.com/some/other/path/hook1",
    ))
    .unwrap();
    assert_eq!(
        cfg.webhook_url.as_str(),
        "https://protect.example.com/some/other/path/hook1"
    );
}

#[test]
fn webhook_override_alone_is_sufficient() {
    let mut vars = with("PROTECT_WEBHOOK_URL", "https://unvr.example.net/hook/xyz");
    vars.remove("PROTECT_BASE_URL");
    vars.remove("PROTECT_WEBHOOK_ID");
    let cfg = load(&vars).unwrap();
    assert_eq!(cfg.probe_url.as_str(), "https://unvr.example.net/");
}

#[test]
fn non_https_webhook_is_rejected() {
    assert!(load(&with("PROTECT_BASE_URL", "http://protect.example.com")).is_err());
}

#[test]
fn http_toward_loopback_is_allowed_for_testing() {
    let mut vars = with("PROTECT_WEBHOOK_URL", "http://127.0.0.1:9443/hook/x");
    vars.remove("PROTECT_BASE_URL");
    vars.remove("PROTECT_WEBHOOK_ID");
    assert!(load(&vars).is_ok());
}

#[test]
fn invalid_scheme_is_rejected() {
    assert!(load(&with("HIKVISION_SCHEME", "ftp")).is_err());
}

#[test]
fn zero_realert_disables_realerting() {
    let cfg = load(&with("FIRE_REALERT_SECONDS", "0")).unwrap();
    assert_eq!(cfg.realert, None);
}

#[test]
fn zero_probe_interval_disables_the_probe() {
    let cfg = load(&with("PROTECT_PROBE_SECONDS", "0")).unwrap();
    assert_eq!(cfg.probe_interval, None);
}

#[test]
fn zero_webhook_attempts_is_rejected() {
    assert!(load(&with("WEBHOOK_ATTEMPTS", "0")).is_err());
}

#[test]
fn api_key_with_control_characters_is_rejected() {
    assert!(load(&with("PROTECT_API_KEY", "bad\nkey")).is_err());
}

#[test]
fn custom_fire_event_types_replace_defaults() {
    let cfg = load(&with("FIRE_EVENT_TYPES", "thermalFire, smokeDetection")).unwrap();
    assert!(cfg.fire_matcher.matches("ThermalFire"));
    assert!(cfg.fire_matcher.matches(" smokedetection "));
    assert!(!cfg.fire_matcher.matches("fireDetection"));
}

#[test]
fn default_fire_matcher_covers_known_hikvision_types() {
    let matcher = FireMatcher::default();
    assert!(matcher.matches("fireDetection"));
    assert!(matcher.matches("FIREALARM"));
    assert!(matcher.matches("fire_detection"));
    assert!(!matcher.matches("videoloss"));
}

#[test]
fn hikvision_host_rejects_userinfo_paths_and_queries() {
    for bad in [
        "user:pass@192.0.2.10",
        "192.0.2.10/some/path",
        "192.0.2.10?x=1",
        "192.0.2.10#frag",
        "host name",
    ] {
        assert!(load(&with("HIKVISION_HOST", bad)).is_err(), "must reject {bad:?}");
    }
    // host:port and bracketed IPv6 remain valid.
    for good in ["192.0.2.10:8080", "[fd00::1]:80", "camera.internal"] {
        assert!(load(&with("HIKVISION_HOST", good)).is_ok(), "must accept {good:?}");
    }
}

#[test]
fn zero_valued_timeouts_and_windows_are_rejected() {
    for name in [
        "STREAM_IDLE_TIMEOUT_SECONDS",
        "FIRE_COOLDOWN_SECONDS",
        "FIRE_ACTIVE_TTL_SECONDS",
        "WEBHOOK_TIMEOUT_SECONDS",
    ] {
        let err = error(&with(name, "0"));
        assert!(err.contains(name), "{name}: err={err}");
    }
}

#[test]
fn debug_format_never_prints_secrets() {
    let mut vars = base_vars();
    vars.insert("HIKVISION_PASS".into(), "super-secret-pw".into());
    vars.insert("PROTECT_API_KEY".into(), "super-secret-key".into());
    vars.insert("PROTECT_WEBHOOK_ID".into(), "secret-hook-id".into());
    let cfg = load(&vars).unwrap();
    let dump = cfg.debug_text();
    assert!(!dump.contains("super-secret-pw"), "dump={dump}");
    assert!(!dump.contains("super-secret-key"), "dump={dump}");
    assert!(!dump.contains("secret-hook-id"), "dump={dump}");
}

#[test]
fn webhook_id_alphabet_is_restricted() {
    for bad in ["../../secret", "a/b", "id with space", "id%2e%2e"] {
        assert!(load(&with("PROTECT_WEBHOOK_ID", bad)).is_err(), "must reject {bad:?}");
    }
    assert!(load(&with("PROTECT_WEBHOOK_ID", "aB3-_x")).is_ok());
}

#[test]
fn reconnect_ceiling_is_capped() {
    assert!(load(&with("RECONNECT_MAX_SECONDS", "86400")).is_err());
}

#[test]
fn reconnect_bounds_are_validated() {
    let mut vars = base_vars();
    vars.insert("RECONNECT_INITIAL_SECONDS".into(), "60".into());
    vars.insert("RECONNECT_MAX_SECONDS".into(), "5".into());
    assert!(load(&vars).is_err());
}

#[test]
fn the_debug_text_is_complete() {
    let cfg = load(&with("FIRE_REALERT_SECONDS", "0")).unwrap();
    assert_eq!(
        cfg.debug_text(),
        "Config { hik_url: \"http://192.0.2.10/ISAPI/Event/notification/alertStream\", \
         hik_user: \"hik-operator\", hik_pass: \"<redacted>\", webhook_url: \"<redacted>\", \
         api_key: Sensitive, probe_url: \"https://protect.example.com/\", \
         health_bind: 0.0.0.0:8080, fire_matcher: FireMatcher { types: [\"firedetection\", \
         \"fire_detection\", \"firealarm\"] }, stream_idle: 90s, cooldown: 60s, realert: None, \
         active_ttl: 300s, webhook_timeout: 5s, webhook_attempts: 3, probe_interval: Some(60s), \
         reconnect_initial: 1s, reconnect_max: 30s }"
    );
}

#[test]
fn the_debug_text_quotes_and_keeps_fractions() {
    let mut cfg = load(&with("HIKVISION_USER", "a\"b")).unwrap();
    cfg.cooldown = Duration::from_millis(400);
    let dump = cfg.debug_text();
    assert!(dump.contains("hik_user: \"a\\\"b\""), "dump={dump}");
    assert!(dump.contains("cooldown: 400ms"), "dump={dump}");
}

#[test]
fn every_error_says_what_is_wrong() {
    assert_eq!(
        error(&with("HIKVISION_SCHEME", "")),
        "HIKVISION_SCHEME must be http or https"
    );
    assert_eq!(
        error(&with("HIKVISION_HOST", "")),
        "HIKVISION_HOST is required and must not be empty"
    );
    assert_eq!(
        error(&with("HIKVISION_HOST", "a\\b")),
        "HIKVISION_HOST must be a bare host or host:port (no path, userinfo, or query)"
    );
    assert_eq!(
        error(&with("HIKVISION_HOST", "camera:99999")),
        "HIKVISION_HOST is not a valid host: invalid port number"
    );
    assert_eq!(
        error(&with("PROTECT_WEBHOOK_URL", "/hook")),
        "PROTECT_WEBHOOK_URL is not a valid URL: relative URL without a base"
    );
    assert_eq!(
        error(&with("PROTECT_BASE_URL", "https://")),
        "PROTECT_BASE_URL is not a valid URL: empty host"
    );
    assert_eq!(
        error(&with("PROTECT_WEBHOOK_ID", " ")),
        "PROTECT_WEBHOOK_ID is required and must not be empty"
    );
    assert_eq!(
        error(&with("PROTECT_WEBHOOK_ID", "a.b")),
        "PROTECT_WEBHOOK_ID may contain only letters, digits, '-' and '_' \
         (set PROTECT_WEBHOOK_URL for a full custom URL)"
    );
    assert_eq!(
        error(&with("PROTECT_BASE_URL", "mailto:x@example.com")),
        "could not build webhook URL from PROTECT_BASE_URL: \
         relative URL with a cannot-be-a-base base"
    );
    assert_eq!(
        error(&with("PROTECT_WEBHOOK_URL", "http://protect.example.com/x")),
        "Protect webhook URL must use https (plain http is allowed only toward loopback, for testing)"
    );
    let mut vars = with("PROTECT_WEBHOOK_URL", "https://protect.example.com/x");
    vars.insert("PROTECT_BASE_URL".into(), "http://protect.example.com".into());
    assert_eq!(
        error(&vars),
        "Protect probe URL must use https (plain http is allowed only toward loopback, for testing)"
    );
    vars.insert("PROTECT_BASE_URL".into(), "no url".into());
    assert_eq!(
        error(&vars),
        "PROTECT_BASE_URL is not a valid URL: relative URL without a base"
    );
    assert_eq!(
        error(&with("PROTECT_API_KEY", "a\u{7f}b")),
        "PROTECT_API_KEY contains characters not permitted in an HTTP header: \
         failed to parse header value"
    );
    assert_eq!(
        error(&with("FIRE_EVENT_TYPES", ", ,")),
        "FIRE_EVENT_TYPES must list at least one event type"
    );
    assert_eq!(
        error(&with("WEBHOOK_ATTEMPTS", "4294967296")),
        "WEBHOOK_ATTEMPTS must be a whole number: number too large to fit in target type"
    );
    assert_eq!(
        error(&with("WEBHOOK_ATTEMPTS", "0")),
        "WEBHOOK_ATTEMPTS must be at least 1"
    );
    assert_eq!(
        error(&with("RECONNECT_INITIAL_SECONDS", "")),
        "RECONNECT_INITIAL_SECONDS must be a whole number of seconds: \
         cannot parse integer from empty string"
    );
    assert_eq!(
        error(&with("RECONNECT_MAX_SECONDS", "-1")),
        "RECONNECT_MAX_SECONDS must be a whole number of seconds: invalid digit found in string"
    );
    assert_eq!(
        error(&with("RECONNECT_INITIAL_SECONDS", "0")),
        "RECONNECT_MAX_SECONDS must be >= RECONNECT_INITIAL_SECONDS >= 1"
    );
    assert_eq!(
        error(&with("RECONNECT_MAX_SECONDS", "3601")),
        "RECONNECT_MAX_SECONDS must be at most 3600"
    );
    assert_eq!(
        error(&with("HIKVISION_USER", "")),
        "HIKVISION_USER is required and must not be empty"
    );
    assert_eq!(
        error(&with("FIRE_COOLDOWN_SECONDS", "0")),
        "FIRE_COOLDOWN_SECONDS must be greater than zero"
    );
    assert_eq!(
        error(&with("FIRE_REALERT_SECONDS", "1.5")),
        "FIRE_REALERT_SECONDS must be a whole number of seconds: invalid digit found in string"
    );
}

#[test]
fn a_bad_bind_address_is_reported_in_its_turn() {
    let refused = |vars: &Vars| {
        Config::from_map(vars, Err("invalid socket address syntax".to_owned()))
            .err()
            .unwrap()
            .message()
    };
    assert_eq!(
        refused(&base_vars()),
        "HEALTH_BIND must be an address:port pair: invalid socket address syntax"
    );
    assert!(refused(&with("HIKVISION_PASS", "")).starts_with("HIKVISION_PASS"));
    assert!(refused(&with("FIRE_COOLDOWN_SECONDS", "0")).starts_with("HEALTH_BIND"));
    assert_eq!(Config::health_bind_text(&with("HEALTH_BIND", " [::1]:80 ")), "[::1]:80");
    assert_eq!(Config::health_bind_text(&base_vars()), "0.0.0.0:8080");
}

#[test]
fn values_are_trimmed_and_kept() {
    let mut vars = with("HIKVISION_SCHEME", " https ");
    vars.insert("HIKVISION_HOST".into(), "\u{2003}cam\u{a0}".into());
    vars.insert("WEBHOOK_ATTEMPTS".into(), "+7".into());
    vars.insert("RECONNECT_MAX_SECONDS".into(), "3600".into());
    let cfg = load(&vars).unwrap();
    assert_eq!(
        cfg.hik_url.as_str(),
        "https://cam/ISAPI/Event/notification/alertStream"
    );
    assert_eq!(cfg.hik_user, "hik-operator");
    assert_eq!(cfg.hik_pass, "secret");
    assert_eq!(cfg.api_key, "key123");
    assert_eq!(cfg.health_bind, "0.0.0.0:8080");
    assert_eq!(cfg.webhook_attempts, 7);
    assert_eq!(cfg.webhook_timeout, Duration::from_secs(5));
    assert_eq!(cfg.reconnect_initial, Duration::from_secs(1));
    assert_eq!(cfg.reconnect_max, Duration::from_secs(3600));
}

#[test]
fn the_webhook_replaces_the_path_of_the_base() {
    let cfg = load(&with("PROTECT_BASE_URL", "https://u@p.example:8443/old/path?q=1#f")).unwrap();
    assert_eq!(
        cfg.webhook_url.as_str(),
        "https://u@p.example:8443/proxy/protect/integration/v1/alarm-manager/webhook/abc123"
    );
}

#[test]
fn the_probe_goes_to_the_root_of_the_webhook_server() {
    let mut vars = with("PROTECT_WEBHOOK_URL", "https://u:p@unvr.example:8443/a/../b?q=1#f");
    vars.remove("PROTECT_BASE_URL");
    let cfg = load(&vars).unwrap();
    assert_eq!(cfg.probe_url.as_str(), "https://u:p@unvr.example:8443/");
}

#[test]
fn settings_do_not_depend_on_how_the_urls_were_read() {
    let url = |text: &str| Url::parse(text).unwrap();
    let cfg = Config::from_urls(
        &base_vars(),
        url("http://a/"),
        url("ftp://b/"),
        url("http://c/"),
        Ok("x".to_owned()),
    )
    .unwrap();
    assert_eq!(cfg.webhook_url.as_str(), "ftp://b/");
    assert_eq!(cfg.health_bind, "x");
    assert_eq!(cfg.cooldown, Duration::from_secs(60));
}

#[test]
fn only_https_or_loopback_is_private() {
    for good in [
        "https://example.com/",
        "http://localhost:1/",
        "http://LOCALHOST/",
        "http://127.0.0.1/",
        "http://127.255.255.254/",
        "http://[::1]/",
    ] {
        let url = Url::parse(good).unwrap();
        assert!(require_https_or_loopback(&url, "it").is_ok(), "{good}");
    }
    for bad in [
        "http://example.com/",
        "http://localhost.example/",
        "http://128.0.0.1/",
        "http://[::2]/",
        "ftp://localhost/",
        "data:text/plain,x",
    ] {
        let url = Url::parse(bad).unwrap();
        assert_eq!(
            require_https_or_loopback(&url, "it").unwrap_err().message(),
            "it must use https (plain http is allowed only toward loopback, for testing)",
            "{bad}"
        );
    }
}

#[test]
fn urls_are_taken_apart() {
    let url = Url::parse("HTTP://User@EXAMPLE.com:80/a b").unwrap();
    assert_eq!(url.as_str(), "http://User@example.com/a%20b");
    assert_eq!(url.scheme, "http");
    assert_eq!(url.host_text.as_deref(), Some("example.com"));
    assert!(matches!(url.host, UrlHost::Domain(ref name) if name == "example.com"));
    let url = Url::parse("http://1.2.3.4/").unwrap();
    assert!(matches!(url.host, UrlHost::Ipv4(0x0102_0304)));
    let url = Url::parse("http://[::1:2]/").unwrap();
    assert!(matches!(url.host, UrlHost::Ipv6(0x1_0002)));
    assert_eq!(url.host_text.as_deref(), Some("[::1:2]"));
    let url = Url::parse("mailto:x").unwrap();
    assert!(matches!(url.host, UrlHost::Missing) && url.host_text.is_none());
    assert_eq!(Url::parse("x").unwrap_err(), "relative URL without a base");
    assert_eq!(Url::join("https://a/b/c", "d").unwrap().as_str(), "https://a/b/d");
    assert_eq!(Url::join("nope", "/").unwrap_err(), "relative URL without a base");
}

#[test]
fn csv_fields_are_normalised() {
    let matcher = FireMatcher::from_csv(" One ,,TWO\u{c4},").unwrap();
    assert_eq!(matcher.types(), &vec!["one".to_owned(), "two\u{c4}".to_owned()]);
    assert!(matcher.matches("oNe") && !matcher.matches("two"));
    assert!(!matcher.matches(""));
    assert!(FireMatcher::from_csv("").is_err());
}

#[test]
fn errors_echo_neither_the_webhook_url_nor_its_id() {
    for url in [
        "https://secret-hook:99999/x",
        "//secret-hook/x",
        "http://secret-hook.example/x",
        "https://[secret-hook]/x",
        "https:// secret-hook/",
    ] {
        let err = error(&with("PROTECT_WEBHOOK_URL", url));
        assert!(!err.contains("secret-hook"), "err={err}");
    }
    for id in ["secret-hook/../x", "secret-hook?", "secret-hook%"] {
        let err = error(&with("PROTECT_WEBHOOK_ID", id));
        assert!(!err.contains("secret-hook"), "err={err}");
    }
    let mut vars = with("PROTECT_WEBHOOK_ID", "secret-hook");
    vars.insert("PROTECT_BASE_URL".into(), "mailto:x".into());
    assert!(!error(&vars).contains("secret-hook"));
}

#[test]
fn the_default_types_are_listed() {
    assert_eq!(FireMatcher::default().types()[..], FireMatcher::DEFAULT_TYPES);
}
