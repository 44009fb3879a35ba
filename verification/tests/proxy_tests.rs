//! Host normalization, hop-by-hop header rules, target URLs and routing.

use sptth::addr::parse_socket_addr;
use sptth::config::ProxyConfig;
use sptth::proxy::{
    build_routes, build_target_url, is_hop_by_hop, normalize_host, select_route,
    should_forward_request_header, should_forward_response_header,
};

#[test]
fn normalize_host_removes_port() {
    assert_eq!(normalize_host("example.com:443"), "example.com");
    assert_eq!(normalize_host("example.com"), "example.com");
    assert_eq!(normalize_host("example.com."), "example.com");
}

#[test]
fn normalize_host_ipv6() {
    assert_eq!(normalize_host("[::1]:443"), "::1");
    assert_eq!(normalize_host("[::1]"), "::1");
}

#[test]
fn normalize_host_empty() {
    assert_eq!(normalize_host(""), "");
    assert_eq!(normalize_host("   "), "");
}

#[test]
fn normalize_host_lowercases() {
    assert_eq!(normalize_host(" A.Dev:8443 "), "a.dev");
    assert_eq!(normalize_host("B.Dev."), "b.dev");
    assert_eq!(normalize_host("BARE::COLONS"), "bare::colons");
}

#[test]
fn build_target_keeps_path_and_query() {
    let uri: http::Uri = "/a?b=1".parse().expect("uri should parse");
    let pq = uri.path_and_query().map(|v| v.as_str()).unwrap_or("/");
    assert_eq!(build_target_url("http://localhost:3000", pq), "http://localhost:3000/a?b=1");
}

#[test]
fn build_target_trims_trailing_slashes() {
    assert_eq!(build_target_url("http://localhost:3000/", "/x"), "http://localhost:3000/x");
    assert_eq!(build_target_url("http://localhost:3000///", "/"), "http://localhost:3000/");
}

#[test]
fn hop_by_hop_headers() {
    assert!(is_hop_by_hop("connection"));
    assert!(is_hop_by_hop("transfer-encoding"));
    assert!(is_hop_by_hop("keep-alive"));
    assert!(!is_hop_by_hop("content-type"));
    assert!(!is_hop_by_hop("host"));
}

#[test]
fn hop_by_hop_is_exactly_seven() {
    for name in [
        "connection",
        "proxy-connection",
        "keep-alive",
        "te",
        "trailer",
        "upgrade",
        "transfer-encoding",
    ] {
        assert!(is_hop_by_hop(name));
        assert!(!should_forward_request_header(name));
        assert!(!should_forward_response_header(name));
    }
    // `host` is not hop-by-hop, yet it is stripped from the upstream request.
    assert!(!is_hop_by_hop("host"));
    assert!(!should_forward_request_header("host"));
    assert!(should_forward_response_header("host"));
    assert!(should_forward_request_header("content-type"));
    assert!(should_forward_request_header("x-request-id"));
}

#[test]
fn routes_by_host_header() {
    let listen = parse_socket_addr("127.0.0.1:443").unwrap();
    let proxies = vec![
        ProxyConfig {
            domain: "a.dev".to_string(),
            listen,
            upstream_host_port: "127.0.0.1:3001".to_string(),
        },
        ProxyConfig {
            domain: "b.dev".to_string(),
            listen,
            upstream_host_port: "127.0.0.1:3002".to_string(),
        },
    ];
    let routes = build_routes(&proxies);
    let a = select_route(&routes, "a.dev").expect("a.dev routes");
    assert_eq!(a.upstream_host_port, "127.0.0.1:3001");
    assert_eq!(a.base_url, "http://127.0.0.1:3001");
    let b = select_route(&routes, "b.dev:443").expect("b.dev routes, port stripped");
    assert_eq!(b.upstream_host_port, "127.0.0.1:3002");
    let b2 = select_route(&routes, "B.Dev.").expect("normalization applies");
    assert_eq!(b2.base_url, "http://127.0.0.1:3002");
    assert!(select_route(&routes, "c.dev").is_none());
}
