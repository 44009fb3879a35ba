//! Configuration validation, driven through TOML text parsed with the
//! `toml` crate's value API.

use sptth::config::{AppConfig, ConfigError, RawConfig, RawDns, RawProxy, RawRecord, RawTls};

fn str_list(v: Option<&toml::Value>) -> Vec<String> {
    match v {
        None => Vec::new(),
        Some(x) => x
            .as_array()
            .expect("expected an array")
            .iter()
            .map(|e| e.as_str().expect("expected a string").to_string())
            .collect(),
    }
}

fn opt_str(v: Option<&toml::Value>) -> Option<String> {
    v.map(|x| x.as_str().expect("expected a string").to_string())
}

fn opt_u32(v: Option<&toml::Value>) -> Option<u32> {
    v.map(|x| u32::try_from(x.as_integer().expect("expected an integer")).expect("out of range"))
}

fn raw_from_toml(text: &str) -> RawConfig {
    let table: toml::Table = text.parse().expect("test TOML should parse");
    let v = toml::Value::Table(table);
    let dns = v.get("dns").expect("[dns] required");
    let tls = v.get("tls").cloned().unwrap_or(toml::Value::Table(toml::Table::new()));
    let records = match v.get("record") {
        None => Vec::new(),
        Some(r) => r
            .as_array()
            .expect("[[record]] list")
            .iter()
            .map(|row| RawRecord {
                domain: row.get("domain").and_then(|d| d.as_str()).unwrap_or("").to_string(),
                a: str_list(row.get("A")),
                aaaa: str_list(row.get("AAAA")),
            })
            .collect(),
    };
    let proxies = match v.get("proxy") {
        None => Vec::new(),
        Some(p) => p
            .as_array()
            .expect("[[proxy]] list")
            .iter()
            .map(|row| RawProxy {
                domain: row.get("domain").and_then(|d| d.as_str()).unwrap_or("").to_string(),
                listen: row.get("listen").and_then(|d| d.as_str()).unwrap_or("").to_string(),
                upstream: row.get("upstream").and_then(|d| d.as_str()).unwrap_or("").to_string(),
            })
            .collect(),
    };
    RawConfig {
        dns: RawDns {
            listen: dns.get("listen").and_then(|d| d.as_str()).unwrap_or("").to_string(),
            upstream: str_list(dns.get("upstream")),
            ttl_seconds: opt_u32(dns.get("ttl_seconds")),
            log_level: opt_str(dns.get("log_level")),
        },
        tls: RawTls {
            enabled: tls.get("enabled").and_then(|b| b.as_bool()),
            ca_dir: opt_str(tls.get("ca_dir")),
            cert_dir: opt_str(tls.get("cert_dir")),
            ca_common_name: opt_str(tls.get("ca_common_name")),
            valid_days: opt_u32(tls.get("valid_days")),
            renew_before_days: opt_u32(tls.get("renew_before_days")),
        },
        record: records,
        proxy: proxies,
    }
}

fn from_toml_str(text: &str) -> Result<AppConfig, ConfigError> {
    AppConfig::from_raw(&raw_from_toml(text), "/tmp/sptth-state")
}

fn base_toml(proxy_block: &str) -> String {
    format!(
        r#"
[dns]
listen = "127.0.0.1:53"
upstream = ["1.1.1.1:53"]
ttl_seconds = 1
log_level = "info"

[tls]
enabled = true
ca_dir = "/tmp/sptth-ca"
cert_dir = "/tmp/sptth-certs"
ca_common_name = "sptth local ca"
valid_days = 90
renew_before_days = 30

[[record]]
domain = "example.com"
A = ["127.0.0.1"]

{proxy_block}
"#
    )
}

#[test]
fn reject_proxy_upstream_with_scheme() {
    let toml = base_toml(
        r#"
[[proxy]]
domain = "example.com"
listen = "127.0.0.1:443"
upstream = "http://localhost:3000"
"#,
    );

    let err = from_toml_str(&toml).err().expect("config should fail for scheme in upstream");
    assert!(err.message().contains("no scheme"));
}

#[test]
fn reject_proxy_upstream_without_port() {
    let toml = base_toml(
        r#"
[[proxy]]
domain = "example.com"
listen = "127.0.0.1:443"
upstream = "localhost"
"#,
    );

    let err = from_toml_str(&toml).err().expect("config should fail without port");
    assert!(err.message().contains("must include port"));
}

#[test]
fn reject_duplicate_proxy_domain() {
    let toml = base_toml(
        r#"
[[proxy]]
domain = "example.com"
listen = "127.0.0.1:443"
upstream = "localhost:3000"

[[proxy]]
domain = "example.com"
listen = "127.0.0.1:443"
upstream = "localhost:3001"
"#,
    );

    let err = from_toml_str(&toml).err().expect("config should fail for duplicate domain");
    assert!(err.message().contains("duplicate proxy.domain"));
}

#[test]
fn reject_invalid_proxy_listen() {
    let toml = base_toml(
        r#"
[[proxy]]
domain = "example.com"
listen = "127.0.0.1"
upstream = "localhost:3000"
"#,
    );

    let err = from_toml_str(&toml).err().expect("config should fail for invalid listen");
    assert!(err.message().contains("invalid proxy.listen"));
}

#[test]
fn reject_invalid_tls_renew_window() {
    let toml = base_toml(
        r#"
[[proxy]]
domain = "example.com"
listen = "127.0.0.1:443"
upstream = "localhost:3000"
"#,
    )
    .replace("renew_before_days = 30", "renew_before_days = 90");

    let err = from_toml_str(&toml).err().expect("config should fail for invalid renew window");
    assert!(err.message().contains("renew_before_days"));
}

#[test]
fn accept_base_config() {
    let toml = base_toml(
        r#"
[[proxy]]
domain = "Example.COM."
listen = "127.0.0.1:443"
upstream = "localhost:3000"
"#,
    );

    let config = from_toml_str(&toml).ok().expect("base config should load");
    assert_eq!(config.dns.ttl_seconds, 1);
    assert_eq!(config.tls.valid_days, 90);
    assert_eq!(config.tls.renew_before_days, 30);
    assert_eq!(config.tls.ca_common_name, "sptth local ca");
    assert_eq!(config.proxies.len(), 1);
    assert_eq!(config.proxies[0].domain, "example.com");
    assert_eq!(config.proxies[0].upstream_host_port, "localhost:3000");
    assert_eq!(config.proxies[0].base_url(), "http://localhost:3000");
    assert!(config.records.get("example.com").is_some());
    let listen = sptth::addr::parse_socket_addr("127.0.0.1:443").expect("listen parses");
    assert_eq!(config.proxies[0].listen, listen);
}

#[test]
fn reject_mismatched_proxy_listens() {
    let toml = base_toml(
        r#"
[[proxy]]
domain = "a.dev"
listen = "127.0.0.1:443"
upstream = "localhost:3000"

[[proxy]]
domain = "b.dev"
listen = "127.0.0.1:8443"
upstream = "localhost:3001"
"#,
    );

    let err = from_toml_str(&toml).err().expect("config should fail for two listen addresses");
    assert!(err.message().contains("identical"));
}

#[test]
fn reject_record_without_addresses() {
    let toml = base_toml(
        r#"
[[proxy]]
domain = "example.com"
listen = "127.0.0.1:443"
upstream = "localhost:3000"
"#,
    )
    .replace("A = [\"127.0.0.1\"]", "");

    let err = from_toml_str(&toml).err().expect("config should fail for empty record");
    assert!(err.message().contains("A and/or AAAA"));
}

#[test]
fn reject_ipv6_in_a_list() {
    let toml = base_toml(
        r#"
[[proxy]]
domain = "example.com"
listen = "127.0.0.1:443"
upstream = "localhost:3000"
"#,
    )
    .replace("A = [\"127.0.0.1\"]", "A = [\"::1\"]");

    let err = from_toml_str(&toml).err().expect("config should fail for IPv6 in A");
    assert!(err.message().contains("A must be IPv4"));
}

#[test]
fn reject_unknown_log_level() {
    let toml = base_toml(
        r#"
[[proxy]]
domain = "example.com"
listen = "127.0.0.1:443"
upstream = "localhost:3000"
"#,
    )
    .replace("log_level = \"info\"", "log_level = \"warn\"");

    let err = from_toml_str(&toml).err().expect("config should fail for unknown level");
    assert!(err.message().contains("invalid log_level"));
}

#[test]
fn reject_bad_dns_section() {
    let base = base_toml(
        r#"
[[proxy]]
domain = "example.com"
listen = "127.0.0.1:443"
upstream = "localhost:3000"
"#,
    );

    let bad_listen = base.replace("listen = \"127.0.0.1:53\"", "listen = \"nope\"");
    let err = from_toml_str(&bad_listen).err().expect("bad dns.listen should fail");
    assert!(err.message().contains("invalid dns.listen"));

    let no_upstream = base.replace("upstream = [\"1.1.1.1:53\"]", "upstream = []");
    let err = from_toml_str(&no_upstream).err().expect("empty dns.upstream should fail");
    assert!(err.message().contains("at least one dns server"));

    let bad_upstream = base.replace("upstream = [\"1.1.1.1:53\"]", "upstream = [\"nope\"]");
    let err = from_toml_str(&bad_upstream).err().expect("bad dns.upstream should fail");
    assert!(err.message().contains("invalid dns.upstream"));
}

#[test]
fn reject_bad_tls_section() {
    let base = base_toml(
        r#"
[[proxy]]
domain = "example.com"
listen = "127.0.0.1:443"
upstream = "localhost:3000"
"#,
    );

    let zero_days = base.replace("valid_days = 90", "valid_days = 0");
    let err = from_toml_str(&zero_days).err().expect("zero valid_days should fail");
    assert!(err.message().contains("greater than 0"));

    let blank_cn = base.replace("ca_common_name = \"sptth local ca\"", "ca_common_name = \"  \"");
    let err = from_toml_str(&blank_cn).err().expect("blank common name should fail");
    assert!(err.message().contains("must not be empty"));
}

#[test]
fn reject_bad_record_section() {
    let proxy = r#"
[[proxy]]
domain = "example.com"
listen = "127.0.0.1:443"
upstream = "localhost:3000"
"#;
    let base = base_toml(proxy);

    let no_records = base.replace("[[record]]", "[[zzz]]");
    let err = from_toml_str(&no_records).err().expect("no records should fail");
    assert!(err.message().contains("at least one [[record]]"));

    let empty_domain = base.replace("domain = \"example.com\"\nA", "domain = \" . \"\nA");
    let err = from_toml_str(&empty_domain).err().expect("blank record domain should fail");
    assert!(err.message().contains("record.domain contains empty value"));

    let bad_a = base.replace("A = [\"127.0.0.1\"]", "A = [\"not-an-ip\"]");
    let err = from_toml_str(&bad_a).err().expect("unparseable A value should fail");
    assert!(err.message().contains("invalid A address"));

    let bad_aaaa = base.replace("A = [\"127.0.0.1\"]", "AAAA = [\"zz\"]");
    let err = from_toml_str(&bad_aaaa).err().expect("unparseable AAAA value should fail");
    assert!(err.message().contains("invalid AAAA address"));

    let v4_in_aaaa = base.replace("A = [\"127.0.0.1\"]", "AAAA = [\"1.2.3.4\"]");
    let err = from_toml_str(&v4_in_aaaa).err().expect("IPv4 in AAAA should fail");
    assert!(err.message().contains("AAAA must be IPv6"));

    let duplicate = base.replace(
        "[[proxy]]",
        "[[record]]\ndomain = \"EXAMPLE.com.\"\nA = [\"10.0.0.9\"]\n\n[[proxy]]",
    );
    let err = from_toml_str(&duplicate).err().expect("duplicate record domain should fail");
    assert!(err.message().contains("duplicate record.domain"));
}

#[test]
fn reject_bad_proxy_section() {
    let no_proxies = base_toml("");
    let err = from_toml_str(&no_proxies).err().expect("no proxies should fail");
    assert!(err.message().contains("at least one [[proxy]]"));

    let empty_domain = base_toml(
        r#"
[[proxy]]
domain = "."
listen = "127.0.0.1:443"
upstream = "localhost:3000"
"#,
    );
    let err = from_toml_str(&empty_domain).err().expect("blank proxy domain should fail");
    assert!(err.message().contains("proxy.domain contains empty value"));

    let unparseable_upstream = base_toml(
        r#"
[[proxy]]
domain = "example.com"
listen = "127.0.0.1:443"
upstream = "a b"
"#,
    );
    let err =
        from_toml_str(&unparseable_upstream).err().expect("unparseable upstream should fail");
    assert!(err.message().contains("invalid proxy.upstream"));
}
