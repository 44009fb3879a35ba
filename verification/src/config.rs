//! The validated application configuration and the rules that build it
//! from raw, already-parsed configuration text: socket addresses must
//! parse, records need at least one address of the right family, domains
//! must be unique after normalization, all proxies share one listener,
//! upstreams are bare `host:port`, and the TLS renewal window must leave
//! room before expiry.

use vstd::prelude::*;

verus! {

use vstd::string::StrSliceExecFns;
use vstd::string::StringExecFns;
use crate::addr::{SockAddr, sockaddr_spec, parse_socket_addr, ipv4_spec, ipv6_spec, parse_ipv4,
    parse_ipv6};
use crate::domain::{normalize_spec, normalize_domain};
use crate::loglevel::LogLevel;
use crate::strutil::{is_space_char, string_copy};
use crate::table::DomainMap;

/// The address lists of one DNS name: IPv4 values and IPv6 values.
/// A valid record has at least one of either.
pub struct DomainAddrs {
    pub ipv4: Vec<u32>,
    pub ipv6: Vec<u128>,
}

/// The DNS responder's configuration.
pub struct DnsConfig {
    pub listen: SockAddr,
    pub upstream: Vec<SockAddr>,
    pub ttl_seconds: u32,
}

/// The certificate authority's configuration. Directories are kept as
/// plain path strings; whoever loads the configuration expands `~` first.
pub struct TlsConfig {
    pub enabled: bool,
    pub ca_dir: String,
    pub cert_dir: String,
    pub ca_common_name: String,
    pub valid_days: u32,
    pub renew_before_days: u32,
}

/// One reverse-proxy route: a normalized domain, the shared listen
/// address, and the plaintext upstream as `host:port`.
pub struct ProxyConfig {
    pub domain: String,
    pub listen: SockAddr,
    pub upstream_host_port: String,
}

impl ProxyConfig {
    /// The upstream base URL: `http://` in front of `host:port`.
    pub fn base_url(&self) -> (r: String)
        ensures
            r@ == "http://"@ + self.upstream_host_port@,
    {
        let mut out = String::new();
        out.append("http://");
        out.append(self.upstream_host_port.as_str());
        out
    }
}

/// The whole validated configuration.
pub struct AppConfig {
    pub dns: DnsConfig,
    pub tls: TlsConfig,
    pub records: DomainMap<DomainAddrs>,
    pub proxies: Vec<ProxyConfig>,
    pub log_level: LogLevel,
}

/// The raw `[dns]` section, as read from the configuration text.
pub struct RawDns {
    pub listen: String,
    pub upstream: Vec<String>,
    pub ttl_seconds: Option<u32>,
    pub log_level: Option<String>,
}

/// The raw `[tls]` section.
pub struct RawTls {
    pub enabled: Option<bool>,
    pub ca_dir: Option<String>,
    pub cert_dir: Option<String>,
    pub ca_common_name: Option<String>,
    pub valid_days: Option<u32>,
    pub renew_before_days: Option<u32>,
}

/// One raw `[[record]]` entry; absent address lists arrive empty.
pub struct RawRecord {
    pub domain: String,
    pub a: Vec<String>,
    pub aaaa: Vec<String>,
}

/// One raw `[[proxy]]` entry.
pub struct RawProxy {
    pub domain: String,
    pub listen: String,
    pub upstream: String,
}

/// The whole raw configuration.
pub struct RawConfig {
    pub dns: RawDns,
    pub tls: RawTls,
    pub record: Vec<RawRecord>,
    pub proxy: Vec<RawProxy>,
}

/// Why a raw configuration was rejected. Each variant keeps the offending
/// value where there is one.
pub enum ConfigError {
    InvalidDnsListen { value: String },
    NoUpstream,
    InvalidDnsUpstream { value: String },
    ZeroValidDays,
    RenewWindow,
    EmptyCommonName,
    NoRecords,
    EmptyRecordDomain,
    RecordNeedsAddress { domain: String },
    InvalidARecord { domain: String, value: String },
    AMustBeV4 { domain: String, value: String },
    InvalidAaaaRecord { domain: String, value: String },
    AaaaMustBeV6 { domain: String, value: String },
    DuplicateRecordDomain { domain: String },
    NoProxies,
    EmptyProxyDomain,
    DuplicateProxyDomain { domain: String },
    InvalidProxyListen { value: String },
    ListenMismatch,
    UpstreamHasScheme { value: String },
    UpstreamInvalid { value: String },
    UpstreamNoPort { value: String },
    InvalidLogLevel { value: String },
}

/// The message of a configuration error.
pub open spec fn spec_message(e: ConfigError) -> Seq<char> {
    match e {
        ConfigError::InvalidDnsListen { value } => "invalid dns.listen address: "@ + value@,
        ConfigError::NoUpstream => "dns.upstream must have at least one dns server"@,
        ConfigError::InvalidDnsUpstream { value } => "invalid dns.upstream address: "@ + value@,
        ConfigError::ZeroValidDays => "tls.valid_days must be greater than 0"@,
        ConfigError::RenewWindow => "tls.renew_before_days must be smaller than tls.valid_days"@,
        ConfigError::EmptyCommonName => "tls.ca_common_name must not be empty"@,
        ConfigError::NoRecords => "at least one [[record]] is required"@,
        ConfigError::EmptyRecordDomain => "record.domain contains empty value"@,
        ConfigError::RecordNeedsAddress { domain } => "record requires A and/or AAAA values: "@
            + domain@,
        ConfigError::InvalidARecord { domain, value } => "invalid A address in record "@ + domain@
            + ": "@ + value@,
        ConfigError::AMustBeV4 { domain, value } => "A must be IPv4 in record "@ + domain@ + ": "@
            + value@,
        ConfigError::InvalidAaaaRecord { domain, value } => "invalid AAAA address in record "@
            + domain@ + ": "@ + value@,
        ConfigError::AaaaMustBeV6 { domain, value } => "AAAA must be IPv6 in record "@ + domain@
            + ": "@ + value@,
        ConfigError::DuplicateRecordDomain { domain } => "duplicate record.domain: "@ + domain@,
        ConfigError::NoProxies => "at least one [[proxy]] is required"@,
        ConfigError::EmptyProxyDomain => "proxy.domain contains empty value"@,
        ConfigError::DuplicateProxyDomain { domain } => "duplicate proxy.domain: "@ + domain@,
        ConfigError::InvalidProxyListen { value } => "invalid proxy.listen address: "@ + value@,
        ConfigError::ListenMismatch => "all proxy.listen values must be identical in this phase"@,
        ConfigError::UpstreamHasScheme { value } => "proxy.upstream must be host:port (no scheme): "@
            + value@,
        ConfigError::UpstreamInvalid { value } => "invalid proxy.upstream host:port: "@ + value@,
        ConfigError::UpstreamNoPort { value } => "proxy.upstream must include port: "@ + value@,
        ConfigError::InvalidLogLevel { value } => "invalid log_level value: "@ + value@
            + " (expected: error|info|debug)"@,
    }
}

impl ConfigError {
    /// The error's message, naming the offending field.
    pub fn message(&self) -> (r: String)
        ensures
            r@ == spec_message(*self),
    {
        let mut m = String::new();
        match self {
            ConfigError::InvalidDnsListen { value } => {
                m.append("invalid dns.listen address: ");
                m.append(value.as_str());
            },
            ConfigError::NoUpstream => {
                m.append("dns.upstream must have at least one dns server");
            },
            ConfigError::InvalidDnsUpstream { value } => {
                m.append("invalid dns.upstream address: ");
                m.append(value.as_str());
            },
            ConfigError::ZeroValidDays => {
                m.append("tls.valid_days must be greater than 0");
            },
            ConfigError::RenewWindow => {
                m.append("tls.renew_before_days must be smaller than tls.valid_days");
            },
            ConfigError::EmptyCommonName => {
                m.append("tls.ca_common_name must not be empty");
            },
            ConfigError::NoRecords => {
                m.append("at least one [[record]] is required");
            },
            ConfigError::EmptyRecordDomain => {
                m.append("record.domain contains empty value");
            },
            ConfigError::RecordNeedsAddress { domain } => {
                m.append("record requires A and/or AAAA values: ");
                m.append(domain.as_str());
            },
            ConfigError::InvalidARecord { domain, value } => {
                m.append("invalid A address in record ");
                m.append(domain.as_str());
                m.append(": ");
                m.append(value.as_str());
            },
            ConfigError::AMustBeV4 { domain, value } => {
                m.append("A must be IPv4 in record ");
                m.append(domain.as_str());
                m.append(": ");
                m.append(value.as_str());
            },
            ConfigError::InvalidAaaaRecord { domain, value } => {
                m.append("invalid AAAA address in record ");
                m.append(domain.as_str());
                m.append(": ");
                m.append(value.as_str());
            },
            ConfigError::AaaaMustBeV6 { domain, value } => {
                m.append("AAAA must be IPv6 in record ");
                m.append(domain.as_str());
                m.append(": ");
                m.append(value.as_str());
            },
            ConfigError::DuplicateRecordDomain { domain } => {
                m.append("duplicate record.domain: ");
                m.append(domain.as_str());
            },
            ConfigError::NoProxies => {
                m.append("at least one [[proxy]] is required");
            },
            ConfigError::EmptyProxyDomain => {
                m.append("proxy.domain contains empty value");
            },
            ConfigError::DuplicateProxyDomain { domain } => {
                m.append("duplicate proxy.domain: ");
                m.append(domain.as_str());
            },
            ConfigError::InvalidProxyListen { value } => {
                m.append("invalid proxy.listen address: ");
                m.append(value.as_str());
            },
            ConfigError::ListenMismatch => {
                m.append("all proxy.listen values must be identical in this phase");
            },
            ConfigError::UpstreamHasScheme { value } => {
                m.append("proxy.upstream must be host:port (no scheme): ");
                m.append(value.as_str());
            },
            ConfigError::UpstreamInvalid { value } => {
                m.append("invalid proxy.upstream host:port: ");
                m.append(value.as_str());
            },
            ConfigError::UpstreamNoPort { value } => {
                m.append("proxy.upstream must include port: ");
                m.append(value.as_str());
            },
            ConfigError::InvalidLogLevel { value } => {
                m.append("invalid log_level value: ");
                m.append(value.as_str());
                m.append(" (expected: error|info|debug)");
            },
        }
        m
    }
}

/// What `http::uri::Authority` reads out of `host:port` text: the host and
/// the port when one is present; nothing when the text is no authority.
pub uninterp spec fn authority_parts(s: Seq<char>) -> Option<(Seq<char>, Option<u16>)>;

/// Relies on `http::uri::Authority::from_str`, `Authority::host` and
/// `Authority::port_u16`: the parse reads `[userinfo@]host[:port]` and
/// fails on anything else; `host()` is the host text and `port_u16()` the
/// decimal port when one was written.
#[verifier::external_body]
fn parse_authority(s: &str) -> (r: Option<(String, Option<u16>)>)
    ensures
        r matches Some(hp) ==> authority_parts(s@) == Some((hp.0@, hp.1)),
        r is None ==> authority_parts(s@) is None,
{
    match s.parse::<http::uri::Authority>() {
        Ok(a) => Some((a.host().to_string(), a.port_u16())),
        Err(_) => None,
    }
}

/// Whether the text holds a `://` scheme separator anywhere.
pub open spec fn contains_scheme(s: Seq<char>) -> bool {
    exists|i: int| 0 <= i && i + 2 < s.len() && #[trigger] s[i] == ':' && s[i + 1] == '/' && s[i + 2] == '/'
}

/// Scans for a `://` scheme separator.
pub fn has_scheme(s: &str) -> (r: bool)
    ensures
        r == contains_scheme(s@),
{
    let n = s.unicode_len();
    if n < 3 {
        return false;
    }
    let mut i: usize = 0;
    while i < n - 2
        invariant
            0 <= i,
            i + 2 <= n == s@.len(),
            forall|j: int|
                0 <= j < i ==> !(#[trigger] s@[j] == ':' && s@[j + 1] == '/' && s@[j + 2] == '/'),
        decreases n - i,
    {
        if s.get_char(i) == ':' && s.get_char(i + 1) == '/' && s.get_char(i + 2) == '/' {
            return true;
        }
        i += 1;
    }
    false
}

/// Whether the text is only whitespace (or empty).
pub open spec fn all_space(s: Seq<char>) -> bool {
    forall|i: int| 0 <= i < s.len() ==> is_space_char(s[i])
}

/// Scans for a non-whitespace character.
pub fn is_blank(s: &str) -> (r: bool)
    ensures
        r == all_space(s@),
{
    let n = s.unicode_len();
    let mut i: usize = 0;
    while i < n
        invariant
            0 <= i <= n == s@.len(),
            forall|j: int| 0 <= j < i ==> is_space_char(s@[j]),
        decreases n - i,
    {
        if !crate::strutil::is_space(s.get_char(i)) {
            return false;
        }
        i += 1;
    }
    true
}

/// The effective `tls.valid_days`: 90 unless set.
pub open spec fn spec_valid_days(t: RawTls) -> u32 {
    match t.valid_days {
        Some(v) => v,
        None => 90,
    }
}

/// The effective `tls.renew_before_days`: 30 unless set.
pub open spec fn spec_renew_days(t: RawTls) -> u32 {
    match t.renew_before_days {
        Some(v) => v,
        None => 30,
    }
}

/// The effective CA common name: `sptth local ca` unless set.
pub open spec fn spec_common_name(t: RawTls) -> Seq<char> {
    match t.ca_common_name {
        Some(v) => v@,
        None => "sptth local ca"@,
    }
}

/// One record entry is well formed: its normalized domain is non-empty, it
/// brings at least one address, every `A` value is an IPv4 literal and
/// every `AAAA` value an IPv6 literal.
pub open spec fn record_ok(r: RawRecord) -> bool {
    &&& normalize_spec(r.domain@).len() > 0
    &&& r.a@.len() + r.aaaa@.len() > 0
    &&& forall|j: int|
        0 <= j < r.a@.len() ==> ipv4_spec(#[trigger] r.a@[j]@, 0, r.a@[j]@.len() as int) is Some
    &&& forall|j: int|
        0 <= j < r.aaaa@.len() ==> ipv6_spec(
            #[trigger] r.aaaa@[j]@,
            0,
            r.aaaa@[j]@.len() as int,
        ) is Some
}

/// One proxy entry is well formed: its normalized domain is non-empty, its
/// listen address parses, and its upstream is bare `host:port` text with a
/// non-empty host and an explicit port, without a scheme.
pub open spec fn proxy_ok(p: RawProxy) -> bool {
    &&& normalize_spec(p.domain@).len() > 0
    &&& sockaddr_spec(p.listen@) is Some
    &&& !contains_scheme(p.upstream@)
    &&& match authority_parts(p.upstream@) {
        Some(hp) => hp.0.len() > 0 && hp.1 is Some,
        None => false,
    }
}

/// A raw configuration is acceptable: this is exactly the condition under
/// which `AppConfig::from_raw` answers `Ok`.
pub open spec fn spec_config_valid(raw: RawConfig) -> bool {
    &&& sockaddr_spec(raw.dns.listen@) is Some
    &&& raw.dns.upstream@.len() > 0
    &&& forall|i: int|
        0 <= i < raw.dns.upstream@.len() ==> sockaddr_spec(#[trigger] raw.dns.upstream@[i]@)
            is Some
    &&& spec_valid_days(raw.tls) > 0
    &&& spec_renew_days(raw.tls) < spec_valid_days(raw.tls)
    &&& !all_space(spec_common_name(raw.tls))
    &&& raw.record@.len() > 0
    &&& forall|i: int| 0 <= i < raw.record@.len() ==> record_ok(#[trigger] raw.record@[i])
    &&& forall|i: int, j: int|
        0 <= i < j < raw.record@.len() ==> normalize_spec(raw.record@[i].domain@)
            != normalize_spec(raw.record@[j].domain@)
    &&& raw.proxy@.len() > 0
    &&& forall|i: int| 0 <= i < raw.proxy@.len() ==> proxy_ok(#[trigger] raw.proxy@[i])
    &&& forall|i: int|
        0 <= i < raw.proxy@.len() ==> sockaddr_spec(#[trigger] raw.proxy@[i].listen@)
            == sockaddr_spec(raw.proxy@[0].listen@)
    &&& forall|i: int, j: int|
        0 <= i < j < raw.proxy@.len() ==> normalize_spec(raw.proxy@[i].domain@) != normalize_spec(
            raw.proxy@[j].domain@,
        )
    &&& match raw.dns.log_level {
        None => true,
        Some(s) => exists|l: LogLevel| s@ == l.spec_name(),
    }
}

/// The addresses of a converted record line up with its raw text.
pub open spec fn record_converted(entry: (String, DomainAddrs), r: RawRecord) -> bool {
    &&& entry.0@ == normalize_spec(r.domain@)
    &&& entry.1.ipv4@.len() == r.a@.len()
    &&& forall|j: int|
        0 <= j < r.a@.len() ==> Some(#[trigger] entry.1.ipv4@[j]) == ipv4_spec(
            r.a@[j]@,
            0,
            r.a@[j]@.len() as int,
        )
    &&& entry.1.ipv6@.len() == r.aaaa@.len()
    &&& forall|j: int|
        0 <= j < r.aaaa@.len() ==> Some(#[trigger] entry.1.ipv6@[j]) == ipv6_spec(
            r.aaaa@[j]@,
            0,
            r.aaaa@[j]@.len() as int,
        )
}

/// A converted proxy lines up with its raw entry.
pub open spec fn proxy_converted(p: ProxyConfig, rp: RawProxy) -> bool {
    &&& p.domain@ == normalize_spec(rp.domain@)
    &&& Some(p.listen) == sockaddr_spec(rp.listen@)
    &&& p.upstream_host_port@ == rp.upstream@
}


/// Whichever error `from_raw` answers, the raw configuration shows the
/// named fault.
pub open spec fn error_evidence(e: ConfigError, raw: RawConfig) -> bool {
    match e {
        ConfigError::InvalidDnsListen { value } => value@ == raw.dns.listen@ && sockaddr_spec(
            value@,
        ) is None,
        ConfigError::NoUpstream => raw.dns.upstream@.len() == 0,
        ConfigError::InvalidDnsUpstream { value } => exists|i: int|
            0 <= i < raw.dns.upstream@.len() && #[trigger] raw.dns.upstream@[i]@ == value@
                && sockaddr_spec(value@) is None,
        ConfigError::ZeroValidDays => spec_valid_days(raw.tls) == 0,
        ConfigError::RenewWindow => spec_renew_days(raw.tls) >= spec_valid_days(raw.tls),
        ConfigError::EmptyCommonName => all_space(spec_common_name(raw.tls)),
        ConfigError::NoRecords => raw.record@.len() == 0,
        ConfigError::EmptyRecordDomain => exists|i: int|
            0 <= i < raw.record@.len() && normalize_spec(
                #[trigger] raw.record@[i].domain@,
            ).len() == 0,
        ConfigError::RecordNeedsAddress { domain } => exists|i: int|
            0 <= i < raw.record@.len() && #[trigger] raw.record@[i].a@.len()
                + raw.record@[i].aaaa@.len() == 0 && domain@ == normalize_spec(
                raw.record@[i].domain@,
            ),
        ConfigError::InvalidARecord { domain, value } => exists|i: int, j: int|
            0 <= i < raw.record@.len() && 0 <= j < raw.record@[i].a@.len()
                && #[trigger] raw.record@[i].a@[j]@ == value@ && domain@ == normalize_spec(
                raw.record@[i].domain@,
            ) && ipv4_spec(value@, 0, value@.len() as int) is None,
        ConfigError::AMustBeV4 { domain, value } => exists|i: int, j: int|
            0 <= i < raw.record@.len() && 0 <= j < raw.record@[i].a@.len()
                && #[trigger] raw.record@[i].a@[j]@ == value@ && domain@ == normalize_spec(
                raw.record@[i].domain@,
            ) && ipv4_spec(value@, 0, value@.len() as int) is None,
        ConfigError::InvalidAaaaRecord { domain, value } => exists|i: int, j: int|
            0 <= i < raw.record@.len() && 0 <= j < raw.record@[i].aaaa@.len()
                && #[trigger] raw.record@[i].aaaa@[j]@ == value@ && domain@ == normalize_spec(
                raw.record@[i].domain@,
            ) && ipv6_spec(value@, 0, value@.len() as int) is None,
        ConfigError::AaaaMustBeV6 { domain, value } => exists|i: int, j: int|
            0 <= i < raw.record@.len() && 0 <= j < raw.record@[i].aaaa@.len()
                && #[trigger] raw.record@[i].aaaa@[j]@ == value@ && domain@ == normalize_spec(
                raw.record@[i].domain@,
            ) && ipv6_spec(value@, 0, value@.len() as int) is None,
        ConfigError::DuplicateRecordDomain { domain } => exists|i: int, j: int|
            0 <= i < j < raw.record@.len() && normalize_spec(#[trigger] raw.record@[i].domain@)
                == normalize_spec(#[trigger] raw.record@[j].domain@) && domain@ == normalize_spec(
                raw.record@[j].domain@,
            ),
        ConfigError::NoProxies => raw.proxy@.len() == 0,
        ConfigError::EmptyProxyDomain => exists|i: int|
            0 <= i < raw.proxy@.len() && normalize_spec(#[trigger] raw.proxy@[i].domain@).len()
                == 0,
        ConfigError::DuplicateProxyDomain { domain } => exists|i: int, j: int|
            0 <= i < j < raw.proxy@.len() && normalize_spec(#[trigger] raw.proxy@[i].domain@)
                == normalize_spec(#[trigger] raw.proxy@[j].domain@) && domain@ == normalize_spec(
                raw.proxy@[j].domain@,
            ),
        ConfigError::InvalidProxyListen { value } => exists|i: int|
            0 <= i < raw.proxy@.len() && #[trigger] raw.proxy@[i].listen@ == value@
                && sockaddr_spec(value@) is None,
        ConfigError::ListenMismatch => exists|i: int|
            0 <= i < raw.proxy@.len() && #[trigger] sockaddr_spec(raw.proxy@[i].listen@)
                != sockaddr_spec(raw.proxy@[0].listen@),
        ConfigError::UpstreamHasScheme { value } => exists|i: int|
            0 <= i < raw.proxy@.len() && #[trigger] raw.proxy@[i].upstream@ == value@
                && contains_scheme(value@),
        ConfigError::UpstreamInvalid { value } => exists|i: int|
            0 <= i < raw.proxy@.len() && #[trigger] raw.proxy@[i].upstream@ == value@
                && authority_parts(value@) is None,
        ConfigError::UpstreamNoPort { value } => exists|i: int|
            0 <= i < raw.proxy@.len() && #[trigger] raw.proxy@[i].upstream@ == value@ && match
                authority_parts(value@) {
                Some(hp) => hp.0.len() == 0 || hp.1 is None,
                None => false,
            },
        ConfigError::InvalidLogLevel { value } => match raw.dns.log_level {
            Some(s) => s@ == value@ && (forall|l: LogLevel| value@ != l.spec_name()),
            None => false,
        },
    }
}

/// The converted configuration carries every raw field over: parsed
/// addresses, effective defaults, normalized domains, converted records
/// and proxies, in configuration order.
pub open spec fn config_matches(c: AppConfig, raw: RawConfig, default_base: Seq<char>) -> bool {
    &&& Some(c.dns.listen) == sockaddr_spec(raw.dns.listen@)
    &&& c.dns.upstream@.len() == raw.dns.upstream@.len()
    &&& forall|i: int|
        0 <= i < raw.dns.upstream@.len() ==> Some(#[trigger] c.dns.upstream@[i]) == sockaddr_spec(
            raw.dns.upstream@[i]@,
        )
    &&& c.dns.ttl_seconds == (match raw.dns.ttl_seconds {
        Some(v) => v,
        None => 30u32,
    })
    &&& c.tls.enabled == (match raw.tls.enabled {
        Some(v) => v,
        None => true,
    })
    &&& c.tls.ca_dir@ == (match raw.tls.ca_dir {
        Some(d) => d@,
        None => default_base + "/ca"@,
    })
    &&& c.tls.cert_dir@ == (match raw.tls.cert_dir {
        Some(d) => d@,
        None => default_base + "/certs"@,
    })
    &&& c.tls.ca_common_name@ == spec_common_name(raw.tls)
    &&& c.tls.valid_days == spec_valid_days(raw.tls)
    &&& c.tls.renew_before_days == spec_renew_days(raw.tls)
    &&& c.records.wf()
    &&& c.records.spec_entries().len() == raw.record@.len()
    &&& forall|i: int|
        0 <= i < raw.record@.len() ==> record_converted(
            #[trigger] c.records.spec_entries()[i],
            raw.record@[i],
        )
    &&& c.proxies@.len() == raw.proxy@.len()
    &&& forall|i: int|
        0 <= i < raw.proxy@.len() ==> proxy_converted(#[trigger] c.proxies@[i], raw.proxy@[i])
    &&& match raw.dns.log_level {
        None => c.log_level == LogLevel::Info,
        Some(s) => s@ == c.log_level.spec_name(),
    }
}

/// Checks that a proxy upstream is plain `host:port` text: it must parse
/// as an authority with a non-empty host and an explicit port.
pub fn validate_upstream_host_port(input: &str) -> (r: Result<(), ConfigError>)
    ensures
        r is Ok <==> (match authority_parts(input@) {
            Some(hp) => hp.0.len() > 0 && hp.1 is Some,
            None => false,
        }),
        r matches Err(e) ==> (e matches ConfigError::UpstreamInvalid { value } ==> value@
            == input@ && authority_parts(input@) is None),
        r matches Err(e) ==> (e matches ConfigError::UpstreamNoPort { value } ==> value@ == input@
            && (match authority_parts(input@) {
            Some(hp) => hp.0.len() == 0 || hp.1 is None,
            None => false,
        })),
        r matches Err(e) ==> (e is UpstreamInvalid || e is UpstreamNoPort),
{
    match parse_authority(input) {
        None => Err(ConfigError::UpstreamInvalid { value: string_copy(input) }),
        Some(hp) => {
            if hp.0.as_str().is_empty() {
                Err(ConfigError::UpstreamNoPort { value: string_copy(input) })
            } else {
                match hp.1 {
                    Some(_) => Ok(()),
                    None => Err(ConfigError::UpstreamNoPort { value: string_copy(input) }),
                }
            }
        },
    }
}


impl AppConfig {
    /// Builds the validated configuration from raw values, with
    /// `default_base` the state directory used when `[tls]` names no
    /// directories. Answers `Ok` exactly on acceptable raw configurations;
    /// the converted value carries every field over as `config_matches`
    /// states, and any error names a real fault of the input.
    pub fn from_raw(raw: &RawConfig, default_base: &str) -> (r: Result<AppConfig, ConfigError>)
        ensures
            r is Ok <==> spec_config_valid(*raw),
            r matches Ok(c) ==> config_matches(c, *raw, default_base@),
            r matches Err(e) ==> error_evidence(e, *raw),
    {
        let dns_listen = match parse_socket_addr(raw.dns.listen.as_str()) {
            Some(a) => a,
            None => {
                return Err(
                    ConfigError::InvalidDnsListen { value: string_copy(raw.dns.listen.as_str()) },
                );
            },
        };
        if raw.dns.upstream.len() == 0 {
            return Err(ConfigError::NoUpstream);
        }
        let mut dns_upstream: Vec<SockAddr> = Vec::new();
        let n_up = raw.dns.upstream.len();
        let mut i: usize = 0;
        while i < n_up
            invariant
                0 <= i <= n_up,
                n_up == raw.dns.upstream@.len(),
                dns_upstream@.len() == i,
                forall|t: int|
                    0 <= t < i ==> Some(#[trigger] dns_upstream@[t]) == sockaddr_spec(
                        raw.dns.upstream@[t]@,
                    ),
            decreases n_up - i,
        {
            match parse_socket_addr(raw.dns.upstream[i].as_str()) {
                Some(a) => {
                    dns_upstream.push(a);
                },
                None => {
                    assert(sockaddr_spec(raw.dns.upstream@[i as int]@) is None);
                    return Err(
                        ConfigError::InvalidDnsUpstream {
                            value: string_copy(raw.dns.upstream[i].as_str()),
                        },
                    );
                },
            }
            i += 1;
        }
        let tls_enabled = match raw.tls.enabled {
            Some(v) => v,
            None => true,
        };
        let tls_valid_days = match raw.tls.valid_days {
            Some(v) => v,
            None => 90,
        };
        let tls_renew_days = match raw.tls.renew_before_days {
            Some(v) => v,
            None => 30,
        };
        if tls_valid_days == 0 {
            return Err(ConfigError::ZeroValidDays);
        }
        if tls_renew_days >= tls_valid_days {
            return Err(ConfigError::RenewWindow);
        }
        let ca_common_name = match &raw.tls.ca_common_name {
            Some(v) => string_copy(v.as_str()),
            None => string_copy("sptth local ca"),
        };
        if is_blank(ca_common_name.as_str()) {
            return Err(ConfigError::EmptyCommonName);
        }
        let ca_dir = match &raw.tls.ca_dir {
            Some(d) => string_copy(d.as_str()),
            None => {
                let mut s = string_copy(default_base);
                s.append("/ca");
                s
            },
        };
        let cert_dir = match &raw.tls.cert_dir {
            Some(d) => string_copy(d.as_str()),
            None => {
                let mut s = string_copy(default_base);
                s.append("/certs");
                s
            },
        };
        if raw.record.len() == 0 {
            return Err(ConfigError::NoRecords);
        }
        let mut records: DomainMap<DomainAddrs> = DomainMap::new();
        let n_rec = raw.record.len();
        let mut i: usize = 0;
        while i < n_rec
            invariant
                0 <= i <= n_rec,
                n_rec == raw.record@.len(),
                records.wf(),
                records.spec_entries().len() == i,
                forall|t: int| 0 <= t < i ==> record_ok(#[trigger] raw.record@[t]),
                forall|t: int|
                    0 <= t < i ==> record_converted(
                        #[trigger] records.spec_entries()[t],
                        raw.record@[t],
                    ),
                forall|t1: int, t2: int|
                    0 <= t1 < t2 < i ==> normalize_spec(raw.record@[t1].domain@) != normalize_spec(
                        raw.record@[t2].domain@,
                    ),
            decreases n_rec - i,
        {
            let rec = &raw.record[i];
            let norm = normalize_domain(rec.domain.as_str());
            if norm.as_str().is_empty() {
                assert(normalize_spec(raw.record@[i as int].domain@).len() == 0);
                return Err(ConfigError::EmptyRecordDomain);
            }
            if rec.a.len() == 0 && rec.aaaa.len() == 0 {
                assert(raw.record@[i as int].a@.len() + raw.record@[i as int].aaaa@.len() == 0);
                return Err(ConfigError::RecordNeedsAddress { domain: norm });
            }
            let mut ipv4: Vec<u32> = Vec::new();
            let n_a = rec.a.len();
            let mut j: usize = 0;
            while j < n_a
                invariant
                    0 <= j <= n_a,
                    0 <= i < raw.record@.len(),
                    *rec == raw.record@[i as int],
                    norm@ == normalize_spec(raw.record@[i as int].domain@),
                    n_a == raw.record@[i as int].a@.len(),
                    ipv4@.len() == j,
                    forall|t: int|
                        0 <= t < j ==> Some(#[trigger] ipv4@[t]) == ipv4_spec(
                            raw.record@[i as int].a@[t]@,
                            0,
                            raw.record@[i as int].a@[t]@.len() as int,
                        ),
                decreases n_a - j,
            {
                match parse_ipv4(rec.a[j].as_str()) {
                    Some(v) => {
                        ipv4.push(v);
                    },
                    None => {
                        assert(ipv4_spec(
                            raw.record@[i as int].a@[j as int]@,
                            0,
                            raw.record@[i as int].a@[j as int]@.len() as int,
                        ) is None);
                        assert(!record_ok(raw.record@[i as int]));
                        if parse_ipv6(rec.a[j].as_str()).is_some() {
                            return Err(
                                ConfigError::AMustBeV4 {
                                    domain: norm,
                                    value: string_copy(rec.a[j].as_str()),
                                },
                            );
                        }
                        return Err(
                            ConfigError::InvalidARecord {
                                domain: norm,
                                value: string_copy(rec.a[j].as_str()),
                            },
                        );
                    },
                }
                j += 1;
            }
            let mut ipv6: Vec<u128> = Vec::new();
            let n_aaaa = rec.aaaa.len();
            let mut j: usize = 0;
            while j < n_aaaa
                invariant
                    0 <= j <= n_aaaa,
                    0 <= i < raw.record@.len(),
                    *rec == raw.record@[i as int],
                    norm@ == normalize_spec(raw.record@[i as int].domain@),
                    n_aaaa == raw.record@[i as int].aaaa@.len(),
                    ipv6@.len() == j,
                    forall|t: int|
                        0 <= t < j ==> Some(#[trigger] ipv6@[t]) == ipv6_spec(
                            raw.record@[i as int].aaaa@[t]@,
                            0,
                            raw.record@[i as int].aaaa@[t]@.len() as int,
                        ),
                decreases n_aaaa - j,
            {
                match parse_ipv6(rec.aaaa[j].as_str()) {
                    Some(v) => {
                        ipv6.push(v);
                    },
                    None => {
                        assert(ipv6_spec(
                            raw.record@[i as int].aaaa@[j as int]@,
                            0,
                            raw.record@[i as int].aaaa@[j as int]@.len() as int,
                        ) is None);
                        assert(!record_ok(raw.record@[i as int]));
                        if parse_ipv4(rec.aaaa[j].as_str()).is_some() {
                            return Err(
                                ConfigError::AaaaMustBeV6 {
                                    domain: norm,
                                    value: string_copy(rec.aaaa[j].as_str()),
                                },
                            );
                        }
                        return Err(
                            ConfigError::InvalidAaaaRecord {
                                domain: norm,
                                value: string_copy(rec.aaaa[j].as_str()),
                            },
                        );
                    },
                }
                j += 1;
            }
            if records.contains_key(norm.as_str()) {
                proof {
                    crate::table::lemma_seq_get_some_is_key(records.spec_entries(), norm@);
                    let t = choose|t: int|
                        0 <= t < records.spec_entries().len() && records.spec_entries()[t].0@
                            == norm@;
                    assert(record_converted(records.spec_entries()[t], raw.record@[t]));
                    assert(normalize_spec(raw.record@[t].domain@) == normalize_spec(
                        raw.record@[i as int].domain@,
                    ));
                }
                return Err(ConfigError::DuplicateRecordDomain { domain: norm });
            }
            let ghost normv = norm@;
            let ghost gipv4 = ipv4@;
            let ghost gipv6 = ipv6@;
            let ghost ents = records.spec_entries();
            proof {
                assert forall|jx: int| 0 <= jx < raw.record@[i as int].a@.len() implies ipv4_spec(
                    #[trigger] raw.record@[i as int].a@[jx]@,
                    0,
                    raw.record@[i as int].a@[jx]@.len() as int,
                ) is Some by {
                    assert(Some(gipv4[jx]) == ipv4_spec(
                        raw.record@[i as int].a@[jx]@,
                        0,
                        raw.record@[i as int].a@[jx]@.len() as int,
                    ));
                }
                assert forall|jx: int|
                    0 <= jx < raw.record@[i as int].aaaa@.len() implies ipv6_spec(
                    #[trigger] raw.record@[i as int].aaaa@[jx]@,
                    0,
                    raw.record@[i as int].aaaa@[jx]@.len() as int,
                ) is Some by {
                    assert(Some(gipv6[jx]) == ipv6_spec(
                        raw.record@[i as int].aaaa@[jx]@,
                        0,
                        raw.record@[i as int].aaaa@[jx]@.len() as int,
                    ));
                }
                assert(record_ok(raw.record@[i as int]));
            }
            let inserted = records.insert(norm, DomainAddrs { ipv4, ipv6 });
            assert(inserted);
            proof {
                crate::table::lemma_seq_get_none_no_key(ents, normv);
                assert(records.spec_entries()[i as int].0@ == normv);
                assert(records.spec_entries()[i as int].1.ipv4@ == gipv4);
                assert(records.spec_entries()[i as int].1.ipv6@ == gipv6);
                assert(record_converted(records.spec_entries()[i as int], raw.record@[i as int]));
                assert forall|t: int|
                    0 <= t < i implies record_converted(
                    #[trigger] records.spec_entries()[t],
                    raw.record@[t],
                ) by {
                    assert(records.spec_entries()[t] == ents[t]);
                }
                assert forall|t1: int, t2: int|
                    0 <= t1 < t2 < i + 1 implies normalize_spec(raw.record@[t1].domain@)
                    != normalize_spec(raw.record@[t2].domain@) by {
                    if t2 == i as int {
                        assert(ents[t1].0@ == normalize_spec(raw.record@[t1].domain@));
                        assert(ents[t1].0@ != normv);
                    }
                }
            }
            i += 1;
        }
        if raw.proxy.len() == 0 {
            return Err(ConfigError::NoProxies);
        }
        let mut proxies: Vec<ProxyConfig> = Vec::new();
        let mut seen: DomainMap<()> = DomainMap::new();
        let n_px = raw.proxy.len();
        let mut first_listen = SockAddr { ip: crate::addr::IpVal::V4(0), port: 0 };
        let mut i: usize = 0;
        while i < n_px
            invariant
                0 <= i <= n_px,
                n_px == raw.proxy@.len(),
                seen.wf(),
                seen.spec_entries().len() == i,
                proxies@.len() == i,
                forall|t: int| 0 <= t < i ==> proxy_ok(#[trigger] raw.proxy@[t]),
                forall|t: int|
                    0 <= t < i ==> proxy_converted(#[trigger] proxies@[t], raw.proxy@[t]),
                forall|t: int|
                    0 <= t < i ==> #[trigger] seen.spec_entries()[t].0@ == normalize_spec(
                        raw.proxy@[t].domain@,
                    ),
                forall|t1: int, t2: int|
                    0 <= t1 < t2 < i ==> normalize_spec(raw.proxy@[t1].domain@) != normalize_spec(
                        raw.proxy@[t2].domain@,
                    ),
                i > 0 ==> Some(first_listen) == sockaddr_spec(raw.proxy@[0].listen@),
                forall|t: int|
                    0 <= t < i ==> sockaddr_spec(#[trigger] raw.proxy@[t].listen@) == sockaddr_spec(
                        raw.proxy@[0].listen@,
                    ),
            decreases n_px - i,
        {
            let px = &raw.proxy[i];
            let norm = normalize_domain(px.domain.as_str());
            if norm.as_str().is_empty() {
                assert(normalize_spec(raw.proxy@[i as int].domain@).len() == 0);
                return Err(ConfigError::EmptyProxyDomain);
            }
            if seen.contains_key(norm.as_str()) {
                proof {
                    crate::table::lemma_seq_get_some_is_key(seen.spec_entries(), norm@);
                    let t = choose|t: int|
                        0 <= t < seen.spec_entries().len() && seen.spec_entries()[t].0@ == norm@;
                    assert(normalize_spec(raw.proxy@[t].domain@) == normalize_spec(
                        raw.proxy@[i as int].domain@,
                    ));
                }
                return Err(ConfigError::DuplicateProxyDomain { domain: norm });
            }
            let listen = match parse_socket_addr(px.listen.as_str()) {
                Some(a) => a,
                None => {
                    assert(sockaddr_spec(raw.proxy@[i as int].listen@) is None);
                    return Err(
                        ConfigError::InvalidProxyListen { value: string_copy(px.listen.as_str()) },
                    );
                },
            };
            if i == 0 {
                first_listen = listen;
            } else if !(listen == first_listen) {
                assert(sockaddr_spec(raw.proxy@[i as int].listen@) != sockaddr_spec(
                    raw.proxy@[0].listen@,
                ));
                return Err(ConfigError::ListenMismatch);
            }
            if has_scheme(px.upstream.as_str()) {
                assert(contains_scheme(raw.proxy@[i as int].upstream@));
                return Err(
                    ConfigError::UpstreamHasScheme { value: string_copy(px.upstream.as_str()) },
                );
            }
            match validate_upstream_host_port(px.upstream.as_str()) {
                Ok(()) => {},
                Err(e) => {
                    assert(!proxy_ok(raw.proxy@[i as int]));
                    return Err(e);
                },
            }
            let ghost normv = norm@;
            let ghost ents = seen.spec_entries();
            let inserted = seen.insert(norm, ());
            assert(inserted);
            proxies.push(
                ProxyConfig {
                    domain: normalize_domain(px.domain.as_str()),
                    listen,
                    upstream_host_port: string_copy(px.upstream.as_str()),
                },
            );
            proof {
                crate::table::lemma_seq_get_none_no_key(ents, normv);
                assert(proxy_ok(raw.proxy@[i as int]));
                assert(proxy_converted(proxies@[i as int], raw.proxy@[i as int]));
                assert(seen.spec_entries()[i as int].0@ == normv);
                assert forall|t: int|
                    0 <= t < i implies #[trigger] seen.spec_entries()[t].0@ == normalize_spec(
                    raw.proxy@[t].domain@,
                ) by {
                    assert(seen.spec_entries()[t] == ents[t]);
                }
                assert forall|t1: int, t2: int|
                    0 <= t1 < t2 < i + 1 implies normalize_spec(raw.proxy@[t1].domain@)
                    != normalize_spec(raw.proxy@[t2].domain@) by {
                    if t2 == i as int {
                        assert(ents[t1].0@ == normalize_spec(raw.proxy@[t1].domain@));
                        assert(ents[t1].0@ != normv);
                    }
                }
            }
            i += 1;
        }
        let log_level = match &raw.dns.log_level {
            None => LogLevel::Info,
            Some(s) => match LogLevel::parse(s.as_str()) {
                Ok(l) => l,
                Err(_) => {
                    return Err(ConfigError::InvalidLogLevel { value: string_copy(s.as_str()) });
                },
            },
        };
        let ttl_seconds = match raw.dns.ttl_seconds {
            Some(v) => v,
            None => 30,
        };
        proof {
            if raw.dns.log_level is Some {
                let s = raw.dns.log_level->Some_0;
                assert(s@ == log_level.spec_name());
            }
            assert forall|t: int|
                0 <= t < raw.dns.upstream@.len() implies sockaddr_spec(
                #[trigger] raw.dns.upstream@[t]@,
            ) is Some by {
                assert(Some(dns_upstream@[t]) == sockaddr_spec(raw.dns.upstream@[t]@));
            }
            assert(spec_config_valid(*raw));
        }
        let c = AppConfig {
            dns: DnsConfig { listen: dns_listen, upstream: dns_upstream, ttl_seconds },
            tls: TlsConfig {
                enabled: tls_enabled,
                ca_dir,
                cert_dir,
                ca_common_name,
                valid_days: tls_valid_days,
                renew_before_days: tls_renew_days,
            },
            records,
            proxies,
            log_level,
        };
        proof {
            assert(config_matches(c, *raw, default_base@));
        }
        Ok(c)
    }
}

/// For all configurations with duplicate `[[proxy]].domain` after
/// normalization, loading fails.
pub proof fn lemma_duplicate_proxy_domain_rejected(raw: RawConfig, i: int, j: int)
    requires
        0 <= i < j < raw.proxy@.len(),
        normalize_spec(raw.proxy@[i].domain@) == normalize_spec(raw.proxy@[j].domain@),
    ensures
        !spec_config_valid(raw),
{
}

/// For all proxy upstreams holding `://`, loading fails.
pub proof fn lemma_upstream_scheme_rejected(raw: RawConfig, i: int)
    requires
        0 <= i < raw.proxy@.len(),
        contains_scheme(raw.proxy@[i].upstream@),
    ensures
        !spec_config_valid(raw),
{
}

/// For all proxy upstreams whose authority has an empty host or no port,
/// loading fails.
pub proof fn lemma_upstream_no_port_rejected(raw: RawConfig, i: int)
    requires
        0 <= i < raw.proxy@.len(),
        match authority_parts(raw.proxy@[i].upstream@) {
            Some(hp) => hp.0.len() == 0 || hp.1 is None,
            None => true,
        },
    ensures
        !spec_config_valid(raw),
{
}

/// For all TLS configurations with `renew_before_days` at or above
/// `valid_days`, loading fails.
pub proof fn lemma_renew_window_rejected(raw: RawConfig)
    requires
        spec_renew_days(raw.tls) >= spec_valid_days(raw.tls),
    ensures
        !spec_config_valid(raw),
{
}

} // verus!
