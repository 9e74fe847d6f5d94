use webcrawl::FetchEvent;
use webcrawl::UrlState;
use webcrawl::classify;

#[test]
fn classify_success_is_accessible() {
    let ev = FetchEvent::Completed(200, String::from("<html></html>"));
    let state = classify("/start", "http://example.test/start", ev);
    match state {
        UrlState::Accessible(origin, url) => {
            assert_eq!(origin, "/start");
            assert_eq!(url, "http://example.test/start");
        },
        _ => panic!("expected Accessible"),
    }
}

#[test]
fn classify_upper_success_boundary() {
    let ev = FetchEvent::Completed(299, String::new());
    let state = classify("/a", "http://example.test/a", ev);
    assert!(matches!(state, UrlState::Accessible(_, _)));
    let ev = FetchEvent::Completed(300, String::new());
    let state = classify("/a", "http://example.test/a", ev);
    assert!(matches!(state, UrlState::BadStatus(_, _, 300)));
}

#[test]
fn classify_not_found_is_bad_status() {
    let ev = FetchEvent::Completed(404, String::new());
    let state = classify("/missing", "http://example.test/missing", ev);
    match state {
        UrlState::BadStatus(origin, url, status) => {
            assert_eq!(origin, "/missing");
            assert_eq!(url, "http://example.test/missing");
            assert_eq!(status, 404);
        },
        _ => panic!("expected BadStatus"),
    }
}

#[test]
fn classify_transport_failure() {
    let ev = FetchEvent::Failed;
    let state = classify("/x", "http://example.test/x", ev);
    assert!(matches!(state, UrlState::ConnectionFailed(_, _)));
}

#[test]
fn classify_elapsed_deadline_is_timed_out() {
    let ev = FetchEvent::DeadlineElapsed;
    let state = classify("/slow", "http://example.test/slow", ev);
    match state {
        UrlState::TimedOut(origin, url) => {
            assert_eq!(origin, "/slow");
            assert_eq!(url, "http://example.test/slow");
        },
        _ => panic!("expected TimedOut"),
    }
}
