use content_safety::headers::{add_security_headers, client_address};

const CSP: &str = "default-src 'self' 'unsafe-inline' 'unsafe-eval' data: https: http:; script-src 'self' 'unsafe-inline' 'unsafe-eval' https: http:; img-src 'self' data: blob: https: http:; style-src 'self' 'unsafe-inline' https: http:; connect-src 'self' ws: wss: https: http:; font-src 'self' data: https: http:; frame-ancestors 'none'";

fn pairs(headers: &[(String, String)]) -> Vec<(&str, &str)> {
    headers.iter().map(|(name, value)| (name.as_str(), value.as_str())).collect()
}

fn common() -> Vec<(&'static str, &'static str)> {
    vec![
        ("x-xss-protection", "1; mode=block"),
        ("x-content-type-options", "nosniff"),
        ("x-frame-options", "DENY"),
        ("referrer-policy", "strict-origin-when-cross-origin"),
        ("x-dns-prefetch-control", "on"),
    ]
}

#[test]
fn static_assets_may_be_cached() {
    let mut expected = vec![("cache-control", "public, max-age=31536000, immutable")];
    expected.extend(common());
    for path in ["/assets/logo.png", "/app.js", "/styles/site.css", "/favicon.ico", "/assets/"] {
        assert_eq!(pairs(&add_security_headers(path)), expected, "path: {}", path);
    }
}

#[test]
fn api_answers_are_not_cached() {
    let mut expected =
        vec![("content-security-policy", CSP), ("cache-control", "no-store, no-cache, must-revalidate")];
    expected.extend(common());
    for path in ["/api/posts", "/api/", "/api/filter/reload"] {
        assert_eq!(pairs(&add_security_headers(path)), expected, "path: {}", path);
    }
}

#[test]
fn other_paths_get_the_content_security_policy() {
    let mut expected = vec![("content-security-policy", CSP)];
    expected.extend(common());
    for path in ["/", "", "/index.html", "/api", "/assets", "/x/api/posts"] {
        assert_eq!(pairs(&add_security_headers(path)), expected, "path: {}", path);
    }
}

#[test]
fn an_asset_suffix_anywhere_in_the_path_counts() {
    let headers = add_security_headers("/api/data.json");
    assert_eq!(pairs(&headers)[0], ("cache-control", "public, max-age=31536000, immutable"));
    assert_eq!(headers.len(), 6);
}

#[test]
fn client_address_prefers_the_forwarded_one() {
    let forwarded = Some("203.0.113.7".to_string());
    let real = Some("198.51.100.2".to_string());
    assert_eq!(client_address(forwarded.clone(), real.clone()), forwarded);
    assert_eq!(client_address(None, real.clone()), real);
    assert_eq!(client_address(forwarded.clone(), None), forwarded);
    assert_eq!(client_address(None, None), None);
}
