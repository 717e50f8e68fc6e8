use visit::resolve::{first_ipv4, Candidate, ResolveError};
use visit::target::{Target, TargetError};

#[test]
fn url_gives_host_and_path() {
    let t = Target::parse("http://example.com/a/b?x=1#f").unwrap();
    assert_eq!(t.host, "example.com");
    assert_eq!(t.path, "/a/b");
}

#[test]
fn url_without_path_gives_root() {
    let t = Target::parse("http://example.com").unwrap();
    assert_eq!(t.path, "/");
}

#[test]
fn request_text_is_a_get() {
    let t = Target::parse("http://example.com:8080/index.html").unwrap();
    assert_eq!(t.request(), "GET /index.html HTTP/1.1\r\nHost: example.com\r\n\r\n");
}

#[test]
fn invalid_url_is_rejected() {
    assert_eq!(Target::parse("not a url").unwrap_err(), TargetError::InvalidUrl);
    assert_eq!(Target::parse("/relative/path").unwrap_err(), TargetError::InvalidUrl);
}

#[test]
fn url_without_host_is_rejected() {
    assert_eq!(Target::parse("mailto:someone@example.com").unwrap_err(), TargetError::MissingHost);
}

#[test]
fn parts_with_host_make_a_target() {
    let t = Target::from_parts(Some("example.org".to_string()), "/x".to_string()).unwrap();
    assert_eq!(t.host, "example.org");
    assert_eq!(t.path, "/x");
}

#[test]
fn parts_without_host_make_no_target() {
    assert_eq!(Target::from_parts(None, "/x".to_string()).unwrap_err(), TargetError::MissingHost);
}

#[test]
fn ip_literal_url_gives_its_host() {
    let t = Target::parse("http://127.0.0.1/status").unwrap();
    assert_eq!(t.host, "127.0.0.1");
    assert_eq!(t.path, "/status");
}

#[test]
fn first_ipv4_skips_ipv6() {
    let c = vec![Candidate::V6, Candidate::V4(10, 0, 0, 1), Candidate::V4(10, 0, 0, 2)];
    assert_eq!(first_ipv4(&c), Ok((10, 0, 0, 1)));
}

#[test]
fn no_ipv4_is_an_error() {
    assert_eq!(first_ipv4(&vec![Candidate::V6]), Err(ResolveError::NoIpv4Address));
    assert_eq!(first_ipv4(&vec![]), Err(ResolveError::NoIpv4Address));
}
