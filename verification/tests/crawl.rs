use crawler::crawl::observe;
use crawler::crawl::Crawl;
use crawler::crawl::FetchOutcome;
use crawler::crawl::FetchTask;
use crawler::crawl::PageEvent;
use crawler::crawl::Visit;
use crawler::crawl::VisitResult;
use crawler::resolver::PageUrl;

fn url(text: &str) -> PageUrl {
    PageUrl::parse(text).unwrap()
}

fn task(text: &str, depth: u8) -> FetchTask {
    FetchTask { url: url(text), depth }
}

/// A small web: every page of `http://chain/N` links to `http://chain/N+1`;
/// `http://down/` cannot be fetched; `http://hub/` links to three pages, one
/// of them by a malformed link.
fn web(address: &str) -> FetchOutcome {
    if let Some(n) = address.strip_prefix("http://chain/") {
        let next: u32 = n.parse::<u32>().unwrap() + 1;
        return FetchOutcome::Body(format!("<html><a href=\"/{}\">next</a></html>", next));
    }
    match address {
        "http://down/" => FetchOutcome::Failed("connection refused".to_string()),
        "http://hub/" => FetchOutcome::Body(
            "<a href=\"/left\">l</a><a href=\"http://\">bad</a><a href=\"right\">r</a>".to_string(),
        ),
        _ => FetchOutcome::Body("<p>a leaf</p>".to_string()),
    }
}

/// Runs a crawl to its end, one fetch at a time, and lists the fetches made.
fn run_in_turn(crawl: &mut Crawl) -> Vec<(String, u8)> {
    let mut fetched = Vec::new();
    while let Some(next) = crawl.next_task() {
        fetched.push((next.url.as_str().to_string(), next.depth));
        let outcome = web(next.url.as_str());
        assert!(crawl.complete(&next, outcome));
    }
    fetched
}

/// Runs a crawl to its end, launching all that is queued before the fetch
/// launched last is allowed to end.
fn run_last_first(crawl: &mut Crawl) -> Vec<(String, u8)> {
    let mut fetched = Vec::new();
    let mut running: Vec<FetchTask> = Vec::new();
    loop {
        while let Some(next) = crawl.next_task() {
            fetched.push((next.url.as_str().to_string(), next.depth));
            running.push(next);
        }
        assert_eq!(crawl.in_flight(), running.len());
        match running.pop() {
            Some(ended) => {
                assert!(!crawl.is_done());
                let outcome = web(ended.url.as_str());
                assert!(crawl.complete(&ended, outcome));
            },
            None => break,
        }
    }
    fetched
}

fn summary(visit: &Visit) -> (String, u8, String) {
    let how = match &visit.result {
        VisitResult::Fetched { links, resolved } => format!("fetched {} {}", links, resolved),
        VisitResult::Failed { reason } => format!("failed {}", reason),
        VisitResult::Oversized => "oversized".to_string(),
    };
    (visit.url.as_str().to_string(), visit.depth, how)
}

fn summaries(crawl: &Crawl) -> Vec<(String, u8, String)> {
    crawl.visits().iter().map(summary).collect()
}

#[test]
fn crawl_past_the_bound_makes_no_fetch() {
    let mut crawl = Crawl::new(vec![url("http://chain/1")], 1, 0);
    assert!(crawl.is_done());
    assert!(crawl.next_task().is_none());
    assert_eq!(crawl.pending(), 0);
    assert_eq!(crawl.in_flight(), 0);
    assert!(crawl.visits().is_empty());
    assert!(run_in_turn(&mut crawl).is_empty());
    assert!(crawl.is_done());
}

#[test]
fn crawl_of_an_empty_frontier_is_done_at_once() {
    let mut crawl = Crawl::new(Vec::new(), 1, 2);
    assert!(crawl.is_done());
    assert!(crawl.next_task().is_none());
    assert!(crawl.visits().is_empty());
    assert_eq!(crawl.max_depth(), 2);
}

#[test]
fn one_failure_and_one_success() {
    let mut crawl = Crawl::new(vec![url("http://down/"), url("http://chain/1")], 1, 2);
    assert!(!crawl.is_done());
    let fetched = run_in_turn(&mut crawl);
    assert!(crawl.is_done());
    assert_eq!(
        fetched,
        vec![
            ("http://down/".to_string(), 1),
            ("http://chain/1".to_string(), 1),
            ("http://chain/2".to_string(), 2),
        ]
    );
    assert_eq!(
        summaries(&crawl),
        vec![
            ("http://down/".to_string(), 1, "failed connection refused".to_string()),
            ("http://chain/1".to_string(), 1, "fetched 1 1".to_string()),
            ("http://chain/2".to_string(), 2, "fetched 1 1".to_string()),
        ]
    );
    let failures = crawl.visits().iter().filter(|v| matches!(v.result, VisitResult::Failed { .. })).count();
    let at_depth_one = crawl.visits().iter().filter(|v| v.depth == 1).count();
    assert_eq!(failures, 1);
    assert_eq!(at_depth_one, 2);
}

#[test]
fn chain_of_pages_stops_at_the_bound() {
    let mut crawl = Crawl::new(vec![url("http://chain/1")], 1, 2);
    let fetched = run_in_turn(&mut crawl);
    assert_eq!(
        fetched,
        vec![("http://chain/1".to_string(), 1), ("http://chain/2".to_string(), 2)]
    );
    assert!(crawl.is_done());
    assert!(crawl.visits().iter().all(|v| v.depth >= 1 && v.depth <= 2));
    assert!(crawl.visits().iter().all(|v| v.url.as_str() != "http://chain/3"));
}

#[test]
fn start_at_the_bound_fetches_the_frontier_only() {
    let mut crawl = Crawl::new(vec![url("http://hub/"), url("http://chain/7")], 3, 3);
    let fetched = run_in_turn(&mut crawl);
    assert_eq!(fetched, vec![("http://hub/".to_string(), 3), ("http://chain/7".to_string(), 3)]);
    assert_eq!(
        summaries(&crawl),
        vec![
            ("http://hub/".to_string(), 3, "fetched 3 2".to_string()),
            ("http://chain/7".to_string(), 3, "fetched 1 1".to_string()),
        ]
    );
}

#[test]
fn greatest_depth_does_not_overflow() {
    let mut crawl = Crawl::new(vec![url("http://chain/1")], 254, 255);
    let fetched = run_in_turn(&mut crawl);
    assert_eq!(
        fetched,
        vec![("http://chain/1".to_string(), 254), ("http://chain/2".to_string(), 255)]
    );
    assert!(crawl.is_done());
}

#[test]
fn malformed_link_is_dropped_and_siblings_are_followed() {
    let mut crawl = Crawl::new(vec![url("http://hub/")], 1, 2);
    let fetched = run_in_turn(&mut crawl);
    assert_eq!(
        fetched,
        vec![
            ("http://hub/".to_string(), 1),
            ("http://hub/left".to_string(), 2),
            ("http://hub/right".to_string(), 2),
        ]
    );
    assert_eq!(summaries(&crawl)[0], ("http://hub/".to_string(), 1, "fetched 3 2".to_string()));
}

#[test]
fn fetches_are_launched_in_frontier_order() {
    let frontier = vec![url("http://c/"), url("http://a/"), url("http://b/"), url("http://a/")];
    let mut crawl = Crawl::new(frontier, 1, 1);
    assert_eq!(crawl.pending(), 4);
    let mut launched = Vec::new();
    while let Some(next) = crawl.next_task() {
        launched.push(next.url.as_str().to_string());
        assert_eq!(next.depth, 1);
    }
    assert_eq!(launched, vec!["http://c/", "http://a/", "http://b/", "http://a/"]);
    assert_eq!(crawl.in_flight(), 4);
    assert_eq!(crawl.pending(), 0);
    assert!(!crawl.is_done());
}

#[test]
fn order_of_completion_does_not_change_what_is_fetched() {
    let frontier = || vec![url("http://down/"), url("http://hub/"), url("http://chain/1")];
    let mut in_turn = Crawl::new(frontier(), 1, 3);
    let mut last_first = Crawl::new(frontier(), 1, 3);
    let mut a = run_in_turn(&mut in_turn);
    let mut b = run_last_first(&mut last_first);
    assert!(in_turn.is_done() && last_first.is_done());
    assert_eq!(a.len(), 7);
    a.sort();
    b.sort();
    assert_eq!(a, b);
    let mut x = summaries(&in_turn);
    let mut y = summaries(&last_first);
    x.sort();
    y.sort();
    assert_eq!(x, y);
}

#[test]
fn crawl_is_not_done_while_a_fetch_is_under_way() {
    let mut crawl = Crawl::new(vec![url("http://chain/1")], 1, 1);
    let next = crawl.next_task().unwrap();
    assert_eq!(crawl.pending(), 0);
    assert_eq!(crawl.in_flight(), 1);
    assert!(!crawl.is_done());
    assert!(crawl.complete(&next, FetchOutcome::Body(String::new())));
    assert!(crawl.is_done());
    assert_eq!(summaries(&crawl), vec![("http://chain/1".to_string(), 1, "fetched 0 0".to_string())]);
}

#[test]
fn fetch_that_was_not_handed_out_is_refused() {
    let mut crawl = Crawl::new(vec![url("http://chain/1")], 1, 2);
    assert!(!crawl.complete(&task("http://chain/1", 1), FetchOutcome::Failed("early".to_string())));
    let next = crawl.next_task().unwrap();
    assert!(!crawl.complete(&task("http://chain/1", 2), FetchOutcome::Failed("depth".to_string())));
    assert!(!crawl.complete(&task("http://chain/9", 1), FetchOutcome::Failed("url".to_string())));
    assert!(crawl.visits().is_empty());
    assert_eq!(crawl.in_flight(), 1);
    assert!(crawl.complete(&next, FetchOutcome::Failed("timeout".to_string())));
    assert!(!crawl.complete(&next, FetchOutcome::Failed("twice".to_string())));
    assert_eq!(summaries(&crawl), vec![("http://chain/1".to_string(), 1, "failed timeout".to_string())]);
    assert!(crawl.is_done());
}

#[test]
fn same_url_twice_is_fetched_twice() {
    let mut crawl = Crawl::new(vec![url("http://a/"), url("http://a/")], 1, 1);
    let first = crawl.next_task().unwrap();
    let second = crawl.next_task().unwrap();
    assert!(crawl.complete(&first, FetchOutcome::Failed("one".to_string())));
    assert_eq!(crawl.in_flight(), 1);
    assert!(crawl.complete(&second, FetchOutcome::Body("<a href=\"/x\">x</a>".to_string())));
    assert!(crawl.is_done());
    assert_eq!(
        summaries(&crawl),
        vec![
            ("http://a/".to_string(), 1, "failed one".to_string()),
            ("http://a/".to_string(), 1, "fetched 1 1".to_string()),
        ]
    );
}

#[test]
fn record_queues_the_given_urls_one_level_deeper() {
    let mut crawl = Crawl::new(vec![url("http://a/")], 4, 6);
    let next = crawl.next_task().unwrap();
    let page = PageEvent::Fetched { links: 5, urls: vec![url("http://x/"), url("http://y/")] };
    assert!(crawl.record(&next, page));
    assert_eq!(crawl.pending(), 2);
    assert_eq!(crawl.in_flight(), 0);
    assert_eq!(summaries(&crawl), vec![("http://a/".to_string(), 4, "fetched 5 2".to_string())]);
    let x = crawl.next_task().unwrap();
    let y = crawl.next_task().unwrap();
    assert_eq!((x.url.as_str(), x.depth), ("http://x/", 5));
    assert_eq!((y.url.as_str(), y.depth), ("http://y/", 5));
    assert!(crawl.record(&y, PageEvent::Oversized));
    assert!(crawl.record(&x, PageEvent::Failed("gone".to_string())));
    assert!(crawl.is_done());
    assert_eq!(
        summaries(&crawl)[1..].to_vec(),
        vec![
            ("http://y/".to_string(), 5, "oversized".to_string()),
            ("http://x/".to_string(), 5, "failed gone".to_string()),
        ]
    );
}

#[test]
fn record_at_the_bound_queues_nothing() {
    let mut crawl = Crawl::new(vec![url("http://a/")], 2, 2);
    let next = crawl.next_task().unwrap();
    let page = PageEvent::Fetched { links: 1, urls: vec![url("http://x/")] };
    assert!(crawl.record(&next, page));
    assert_eq!(crawl.pending(), 0);
    assert!(crawl.is_done());
}

#[test]
fn observe_reads_a_report() {
    let base = url("http://a.com/p/q");
    match observe(&base, FetchOutcome::Failed("dns".to_string())) {
        PageEvent::Failed(reason) => assert_eq!(reason, "dns"),
        other => panic!("not a failure: {:?}", other),
    }
    let body = "<a href=\"/x\">t</a><a href=\"http://\">bad</a><a href=\"http://b.com/y\">u</a>";
    match observe(&base, FetchOutcome::Body(body.to_string())) {
        PageEvent::Fetched { links, urls } => {
            assert_eq!(links, 3);
            let texts: Vec<&str> = urls.iter().map(PageUrl::as_str).collect();
            assert_eq!(texts, vec!["http://a.com/x", "http://b.com/y"]);
        },
        other => panic!("not fetched: {:?}", other),
    }
}

#[test]
fn launches_stay_within_the_limit() {
    let frontier = vec![url("http://a/"), url("http://b/"), url("http://c/")];
    let mut crawl = Crawl::new(frontier, 1, 1);
    assert!(crawl.next_task_within(0).is_none());
    let a = crawl.next_task_within(2).unwrap();
    let b = crawl.next_task_within(2).unwrap();
    assert!(crawl.next_task_within(2).is_none());
    assert_eq!((crawl.in_flight(), crawl.pending()), (2, 1));
    assert_eq!((a.url.as_str(), b.url.as_str()), ("http://a/", "http://b/"));
    assert!(crawl.complete(&b, FetchOutcome::Failed("reset".to_string())));
    let c = crawl.next_task_within(2).unwrap();
    assert_eq!(c.url.as_str(), "http://c/");
    assert!(crawl.next_task_within(2).is_none());
    assert!(crawl.next_task_within(usize::MAX).is_none());
    assert!(crawl.complete(&a, FetchOutcome::Body(String::new())));
    assert!(crawl.complete(&c, FetchOutcome::Body(String::new())));
    assert!(crawl.is_done());
    assert_eq!(crawl.visits().len(), 3);
}

#[test]
fn page_beyond_the_tokenizer_is_set_aside() {
    let body = " ".repeat(crawler::html::MAX_PAGE_BYTES + 1);
    assert!(!crawler::html::is_readable(&body));
    let mut crawl = Crawl::new(vec![url("http://big/"), url("http://chain/1")], 1, 1);
    let big = crawl.next_task().unwrap();
    let small = crawl.next_task().unwrap();
    assert!(crawl.complete(&big, FetchOutcome::Body(body)));
    assert!(crawl.complete(&small, web(small.url.as_str())));
    assert!(crawl.is_done());
    assert_eq!(
        summaries(&crawl),
        vec![
            ("http://big/".to_string(), 1, "oversized".to_string()),
            ("http://chain/1".to_string(), 1, "fetched 1 1".to_string()),
        ]
    );
}
