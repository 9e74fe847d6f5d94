use webcrawl::Page;
use webcrawl::SiteGraph;
use webcrawl::UrlState;
use webcrawl::crawl_graph;

fn page(status: u16, body: &str) -> Page {
    Page { status, body: String::from(body) }
}

fn entry(url: &str, status: u16, body: &str) -> (String, Page) {
    (String::from(url), page(status, body))
}

fn state_origin(state: &UrlState) -> String {
    match state {
        UrlState::Accessible(origin, _) => origin.clone(),
        UrlState::BadStatus(origin, _, _) => origin.clone(),
        UrlState::ConnectionFailed(origin, _) => origin.clone(),
        UrlState::TimedOut(origin, _) => origin.clone(),
        UrlState::Malformed(origin, _) => origin.clone(),
    }
}

fn count_origin(outs: &Vec<UrlState>, origin: &str) -> usize {
    let mut n = 0;
    for state in outs {
        if state_origin(state) == origin {
            n += 1;
        }
    }
    n
}

#[test]
fn seed_page_is_expanded_and_foreign_page_is_not() {
    let graph = SiteGraph {
        pages: vec![
            entry(
                "http://example.test/",
                200,
                "<a href=\"/a\">a</a><a href=\"/b\">b</a><a href=\"http://other.test/c\">c</a><a href=\"http://bad:port\">d</a>",
            ),
            entry("http://example.test/a", 200, ""),
            entry("http://example.test/b", 200, ""),
            entry("http://other.test/c", 200, "<a href=\"/hidden\">h</a>"),
        ],
    };
    let outs = crawl_graph("example.test", "http://example.test/", &graph);

    assert_eq!(outs.len(), 5);
    assert_eq!(count_origin(&outs, "http://example.test/"), 1);
    assert_eq!(count_origin(&outs, "/a"), 1);
    assert_eq!(count_origin(&outs, "/b"), 1);
    assert_eq!(count_origin(&outs, "http://other.test/c"), 1);
    assert_eq!(count_origin(&outs, "http://bad:port"), 1);
    // the accessible foreign page never causes new enqueues
    assert_eq!(count_origin(&outs, "/hidden"), 0);

    for state in &outs {
        match state {
            UrlState::Accessible(origin, url) => match origin.as_str() {
                "http://example.test/" => assert_eq!(url, "http://example.test/"),
                "/a" => assert_eq!(url, "http://example.test/a"),
                "/b" => assert_eq!(url, "http://example.test/b"),
                "http://other.test/c" => assert_eq!(url, "http://other.test/c"),
                other => panic!("unexpected accessible origin {}", other),
            },
            UrlState::Malformed(origin, raw) => {
                assert_eq!(origin, "http://bad:port");
                assert_eq!(raw, "http://bad:port");
            },
            _ => panic!("unexpected outcome variant"),
        }
    }
}

#[test]
fn missing_page_yields_bad_status_and_no_links() {
    let graph = SiteGraph {
        pages: vec![
            entry("http://example.test/", 200, "<a href=\"/missing\">m</a>"),
            entry("http://example.test/missing", 404, "<a href=\"/nope\">n</a>"),
        ],
    };
    let outs = crawl_graph("example.test", "http://example.test/", &graph);

    assert_eq!(outs.len(), 2);
    let mut found = false;
    for state in &outs {
        if let UrlState::BadStatus(origin, url, status) = state {
            assert_eq!(origin, "/missing");
            assert_eq!(url, "http://example.test/missing");
            assert_eq!(*status, 404);
            found = true;
        }
    }
    assert!(found);
    assert_eq!(count_origin(&outs, "/nope"), 0);
}

#[test]
fn shared_link_is_reported_exactly_once() {
    let graph = SiteGraph {
        pages: vec![
            entry("http://example.test/", 200, "<a href=\"/a\">a</a><a href=\"/b\">b</a>"),
            entry("http://example.test/a", 200, "<a href=\"/shared\">s</a>"),
            entry("http://example.test/b", 200, "<a href=\"/shared\">s</a>"),
            entry("http://example.test/shared", 200, ""),
        ],
    };
    let outs = crawl_graph("example.test", "http://example.test/", &graph);

    assert_eq!(count_origin(&outs, "/shared"), 1);
    assert_eq!(outs.len(), 4);
}

#[test]
fn unknown_host_is_connection_failed() {
    let graph = SiteGraph {
        pages: vec![entry("http://example.test/", 200, "<a href=\"http://gone.test/\">g</a>")],
    };
    let outs = crawl_graph("example.test", "http://example.test/", &graph);

    assert_eq!(outs.len(), 2);
    let mut found = false;
    for state in &outs {
        if let UrlState::ConnectionFailed(origin, url) = state {
            assert_eq!(origin, "http://gone.test/");
            assert_eq!(url, "http://gone.test/");
            found = true;
        }
    }
    assert!(found);
}

#[test]
fn cyclic_site_terminates_with_one_outcome_per_url() {
    let graph = SiteGraph {
        pages: vec![
            entry("http://example.test/", 200, "<a href=\"/loop\">l</a>"),
            entry("http://example.test/loop", 200, "<a href=\"/\">back</a><a href=\"/loop\">self</a>"),
        ],
    };
    let outs = crawl_graph("example.test", "http://example.test/", &graph);

    // the cycle is finite work: the seed, "/loop", "/" and "/loop" again,
    // with the two raw duplicates suppressed by the visited set
    assert_eq!(count_origin(&outs, "http://example.test/"), 1);
    assert_eq!(count_origin(&outs, "/loop"), 1);
    assert_eq!(count_origin(&outs, "/"), 1);
    assert_eq!(outs.len(), 3);
}
