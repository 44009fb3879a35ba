//! CA provisioning decisions: the recovery matrix, the renewal rule,
//! validity windows, file names, and assembling the assets.

use sptth::addr::parse_socket_addr;
use sptth::ca::{
    assets_from_decisions, ca_paths, leaf_paths, leaf_validity_window, plan_ca,
    plan_certificates, should_reissue,
};
use sptth::config::ProxyConfig;
use sptth::resolver::CertResolver;

const DAY: u64 = 24 * 60 * 60;

#[test]
fn renewal_rule_by_file_age() {
    // valid_days = 90, renew_before_days = 30: reissue at 60 days of age.
    assert!(should_reissue(true, Some(61 * DAY), 90, 30));
    assert!(!should_reissue(true, Some(59 * DAY), 90, 30));
    assert!(should_reissue(false, None, 90, 30));
    assert!(should_reissue(false, Some(0), 90, 30));
    // Unreadable age reissues, to stay safe.
    assert!(should_reissue(true, None, 90, 30));
    // Exactly at the boundary reissues.
    assert!(should_reissue(true, Some(60 * DAY), 90, 30));
    // An empty renewal window always reissues.
    assert!(should_reissue(true, Some(0), 30, 30));
}

#[test]
fn ca_recovery_matrix() {
    let both_missing = plan_ca(false, false);
    assert!(both_missing.created);
    assert!(both_missing.generate_key);
    assert!(both_missing.write_key);
    assert!(both_missing.write_cert);

    let only_cert = plan_ca(false, true);
    assert!(only_cert.created);
    assert!(only_cert.generate_key);
    assert!(only_cert.write_key);
    assert!(only_cert.write_cert);

    // Key present, certificate deleted: reuse the key, regenerate the
    // certificate from it, and treat the CA as created (trust install runs).
    let cert_missing = plan_ca(true, false);
    assert!(cert_missing.created);
    assert!(!cert_missing.generate_key);
    assert!(!cert_missing.write_key);
    assert!(cert_missing.write_cert);

    let both_present = plan_ca(true, true);
    assert!(!both_present.created);
    assert!(!both_present.generate_key);
    assert!(!both_present.write_key);
    assert!(!both_present.write_cert);
}

#[test]
fn leaf_validity_window_values() {
    let (not_before, not_after) = leaf_validity_window(1_000_000, 90);
    assert_eq!(not_before, 1_000_000 - 86_400);
    assert_eq!(not_after, 1_000_000 + 90 * 86_400);
}

#[test]
fn file_names() {
    let (ca_cert, ca_key) = ca_paths("/state/ca");
    assert_eq!(ca_cert, "/state/ca/rootCA.pem");
    assert_eq!(ca_key, "/state/ca/rootCA-key.pem");
    let leaf = leaf_paths("/state/certs", "foo.dev");
    assert_eq!(leaf.cert_path, "/state/certs/foo.dev.pem");
    assert_eq!(leaf.key_path, "/state/certs/foo.dev.key");
}

#[test]
fn provisioning_plan_and_assets() {
    let listen = parse_socket_addr("127.0.0.1:443").unwrap();
    let proxies = vec![
        ProxyConfig {
            domain: "a.dev".to_string(),
            listen,
            upstream_host_port: "127.0.0.1:3001".to_string(),
        },
        ProxyConfig {
            domain: "b.dev".to_string(),
            listen,
            upstream_host_port: "127.0.0.1:3002".to_string(),
        },
    ];
    // a.dev's certificate is fresh; b.dev's file is missing.
    let probes = vec![(true, Some(10 * DAY)), (false, None)];
    let plan = plan_certificates(&proxies, "/state/certs", &probes, 90, 30);
    assert_eq!(plan.len(), 2);
    assert_eq!(plan[0].domain, "a.dev");
    assert!(!plan[0].reissue);
    assert_eq!(plan[0].cert.cert_path, "/state/certs/a.dev.pem");
    assert_eq!(plan[1].domain, "b.dev");
    assert!(plan[1].reissue);
    assert_eq!(plan[1].cert.key_path, "/state/certs/b.dev.key");

    let assets = assets_from_decisions("/state/ca/rootCA.pem".to_string(), true, &plan);
    assert!(assets.ca_created);
    assert_eq!(assets.ca_cert_path, "/state/ca/rootCA.pem");
    let a = assets.certs.get("a.dev").expect("a.dev issued");
    assert_eq!(a.cert_path, "/state/certs/a.dev.pem");
    assert!(assets.certs.get("c.dev").is_none());
}

#[test]
fn resolver_picks_sni_and_falls_back_to_first() {
    let domains = vec!["a.dev".to_string(), "b.dev".to_string()];
    let resolver = CertResolver::build(&domains).expect("non-empty set builds");
    assert_eq!(resolver.resolve(Some("a.dev")), 0);
    assert_eq!(resolver.resolve(Some("b.dev")), 1);
    assert_eq!(resolver.resolve(Some("B.Dev.")), 1);
    // Unknown or absent SNI falls back to the first configured domain.
    assert_eq!(resolver.resolve(Some("c.dev")), 0);
    assert_eq!(resolver.resolve(None), 0);
    let none: Vec<String> = Vec::new();
    assert!(CertResolver::build(&none).is_none());
}
