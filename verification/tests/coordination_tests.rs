use webcrawl::Coordinator;
use webcrawl::UrlState;
use webcrawl::crawl;

#[test]
fn second_claim_of_same_url_is_not_fresh() {
    let mut coord = Coordinator::new(2, String::from("http://example.test/"));
    let url = String::from("/a");
    assert!(coord.check_and_mark_visited(&url));
    assert!(!coord.check_and_mark_visited(&url));
    assert!(!coord.check_and_mark_visited(&url));
    let other = String::from("/b");
    assert!(coord.check_and_mark_visited(&other));
}

#[test]
fn claim_and_in_flight_mark_are_one_step() {
    let mut coord = Coordinator::new(1, String::from("http://example.test/"));
    assert_eq!(coord.current_in_flight(), 0);
    assert!(!coord.is_globally_done() || coord.current_in_flight() == 0);
    assert!(coord.is_globally_done());

    let claimed = coord.try_claim();
    assert_eq!(claimed.unwrap(), "http://example.test/");
    assert_eq!(coord.current_in_flight(), 1);
    assert!(!coord.is_globally_done());

    coord.mark_done();
    assert_eq!(coord.current_in_flight(), 0);
    assert!(coord.is_globally_done());

    // the queue is empty now: a failed claim leaves everything unchanged
    assert!(coord.try_claim().is_none());
    assert_eq!(coord.current_in_flight(), 0);
}

#[test]
fn enqueued_urls_are_all_claimed() {
    let mut coord = Coordinator::new(2, String::from("seed"));
    coord.enqueue(String::from("/a"));
    coord.enqueue(String::from("/b"));
    let mut seen: Vec<String> = Vec::new();
    loop {
        match coord.try_claim() {
            Some(url) => {
                seen.push(url);
                coord.mark_done();
            },
            None => break,
        }
    }
    seen.sort();
    assert_eq!(seen, vec!["/a", "/b", "seed"]);
}

#[test]
fn pool_size_is_reported() {
    let coord = Coordinator::new(7, String::from("seed"));
    assert_eq!(coord.pool_size(), 7);
}

#[test]
fn default_pool_size_is_ten() {
    assert_eq!(webcrawl::DEFAULT_WORKERS, 10);
}

#[test]
fn idle_worker_exits_only_when_nothing_is_in_flight() {
    assert!(webcrawl::idle_worker_exits(0));
    assert!(!webcrawl::idle_worker_exits(1));
    assert!(!webcrawl::idle_worker_exits(9));
}

#[test]
fn stream_of_malformed_seed_yields_once_then_ends() {
    let mut crawler = crawl("example.test", "http://bad:port");
    let first = crawler.next();
    match first {
        Some(UrlState::Malformed(origin, raw)) => {
            assert_eq!(origin, "http://bad:port");
            assert_eq!(raw, "http://bad:port");
        },
        _ => panic!("expected one Malformed outcome"),
    }
    assert!(crawler.next().is_none());
    assert!(crawler.next().is_none());
}
