use webcrawl::UrlState;
use webcrawl::get_urls;
use webcrawl::is_in_domain;
use webcrawl::url_status;

#[test]
fn unresolvable_string_is_malformed_without_network() {
    let state = url_status("example.test", "http://bad:port", "http://bad:port");
    match state {
        UrlState::Malformed(origin, raw) => {
            assert_eq!(origin, "http://bad:port");
            assert_eq!(raw, "http://bad:port");
        },
        _ => panic!("expected Malformed"),
    }
}

#[test]
fn refused_connection_is_connection_failed() {
    let state = url_status("127.0.0.1:1", "/", "/");
    match state {
        UrlState::ConnectionFailed(origin, url) => {
            assert_eq!(origin, "/");
            assert_eq!(url, "http://127.0.0.1:1/");
        },
        _ => panic!("expected ConnectionFailed"),
    }
}

#[test]
fn domain_match_is_exact() {
    assert!(is_in_domain("example.test", "http://example.test/a"));
    assert!(!is_in_domain("example.test", "http://other.test/c"));
    assert!(!is_in_domain("example.test", "http://sub.example.test/"));
    assert!(!is_in_domain("example.test", "not a url"));
}

#[test]
fn link_extraction_keeps_malformed_links() {
    let html = "<html><body><a href=\"/a\">a</a><a href=\"/b\">b</a><a href=\"http://other.test/c\">c</a><a href=\"http://bad:port\">d</a></body></html>";
    let urls = get_urls(html);
    assert_eq!(urls, vec!["/a", "/b", "http://other.test/c", "http://bad:port"]);
}

#[test]
fn link_extraction_of_plain_page_is_empty() {
    let urls = get_urls("<html><body>no links here</body></html>");
    assert!(urls.is_empty());
}
