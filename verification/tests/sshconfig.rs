use noissh::sshconfig::{default_path, glob_match, real_host, resolve, HostConfig};

#[test]
fn glob_basics() {
    assert!(glob_match("*", "anything"));
    assert!(glob_match("web*", "web01"));
    assert!(glob_match("*.example.com", "host.example.com"));
    assert!(glob_match("db?", "db1"));
    assert!(!glob_match("db?", "db12"));
    assert!(!glob_match("web*", "dbweb"));
    assert!(glob_match("exact", "exact"));
    assert!(!glob_match("exact", "exacto"));
}

#[test]
fn resolves_hostname_user_port() {
    let cfg = "\
Host prod
    HostName 10.0.0.5
    User deploy
    Port 2222
";
    let r = resolve(cfg, "prod");
    assert_eq!(r.hostname.as_deref(), Some("10.0.0.5"));
    assert_eq!(r.user.as_deref(), Some("deploy"));
    assert_eq!(r.port, Some(2222));
}

#[test]
fn unmatched_alias_returns_empty() {
    let cfg = "Host prod\n    HostName 10.0.0.5\n";
    assert_eq!(resolve(cfg, "staging"), HostConfig::default());
}

#[test]
fn first_value_wins_and_wildcard_defaults_apply() {
    // ssh semantics: the first value for each key wins, so a specific block
    // before a `Host *` default overrides it; the default still fills gaps.
    let cfg = "\
Host prod
    HostName 10.0.0.5
Host *
    User admin
    Port 9999
    HostName ignored.example
";
    let r = resolve(cfg, "prod");
    assert_eq!(r.hostname.as_deref(), Some("10.0.0.5")); // specific wins
    assert_eq!(r.user.as_deref(), Some("admin")); // from the default block
    assert_eq!(r.port, Some(9999));
}

#[test]
fn equals_separator_and_comments() {
    let cfg = "Host=prod # the prod box\n  HostName = 10.0.0.9\n";
    let r = resolve(cfg, "prod");
    assert_eq!(r.hostname.as_deref(), Some("10.0.0.9"));
}

#[test]
fn negation_excludes() {
    let cfg = "Host * !secret\n  User generic\n";
    assert_eq!(resolve(cfg, "public").user.as_deref(), Some("generic"));
    assert_eq!(resolve(cfg, "secret").user, None);
}

#[test]
fn multiple_patterns_on_one_host_line() {
    let cfg = "Host alpha beta\n  HostName shared.example\n";
    assert_eq!(
        resolve(cfg, "beta").hostname.as_deref(),
        Some("shared.example")
    );
    assert_eq!(resolve(cfg, "gamma").hostname, None);
}

#[test]
fn names_stand_for_hosts() {
    let cfg = resolve("Host web\n  HostName web.example.com\n", "web");
    assert_eq!(real_host("web", &cfg), "web.example.com");
    assert_eq!(real_host("db", &resolve("", "db")), "db");
    assert_eq!(default_path(Some("/home/u".to_string())).as_deref(), Some("/home/u/.ssh/config"));
    assert_eq!(default_path(None), None);
}

#[test]
fn keys_are_case_insensitive() {
    let cfg = "host prod\n  hostname 1.2.3.4\n  USER bob\n";
    let r = resolve(cfg, "prod");
    assert_eq!(r.hostname.as_deref(), Some("1.2.3.4"));
    assert_eq!(r.user.as_deref(), Some("bob"));
}
