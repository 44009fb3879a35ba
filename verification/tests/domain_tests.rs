//! Domain normalization: trimming, trailing dots, ASCII case.

use sptth::domain::normalize_domain;

#[test]
fn normalize_domain_basics() {
    assert_eq!(normalize_domain("Example.COM"), "example.com");
    assert_eq!(normalize_domain("example.com."), "example.com");
    assert_eq!(normalize_domain("  foo.dev  "), "foo.dev");
    assert_eq!(normalize_domain(" FOO.Dev. "), "foo.dev");
    assert_eq!(normalize_domain(""), "");
    assert_eq!(normalize_domain("   "), "");
    assert_eq!(normalize_domain("."), "");
    assert_eq!(normalize_domain("a.b.."), "a.b");
}

#[test]
fn normalize_domain_is_idempotent_on_names() {
    for raw in ["Example.COM.", "  foo.dev ", "a.b..", "localhost", "xn--bcher-kva.tld"] {
        let once = normalize_domain(raw);
        let twice = normalize_domain(&once);
        assert_eq!(once, twice);
    }
}
