use seeker::Address;
use seeker::CrawlError;
use seeker::page::{candidates, links, present_values, selector_compiles};
use seeker::engine::SCOPE;
use seeker::{CycleReport, Page, Seeker};
use std::collections::VecDeque;

fn address(text: &str) -> Address {
    Address::parse(text).expect("an absolute URL")
}

fn engine(roots: &[&str], scope: &str) -> Seeker {
    let roots: VecDeque<Address> = roots.iter().map(|r| address(r)).collect();
    Seeker::with_scope(roots, scope).expect("the configuration compiles")
}

fn page(destination: &str, body: &str) -> Option<Page> {
    Some(Page { destination: address(destination), body: String::from(body) })
}

fn texts(list: &[Address]) -> Vec<String> {
    list.iter().map(|a| String::from(a.as_str())).collect()
}

fn frontier(s: &Seeker) -> Vec<String> {
    s.queue().iter().map(|a| String::from(a.as_str())).collect()
}

#[test]
fn links_are_the_hrefs_of_the_anchors() {
    let body = "<html><body><a href=\"/a\">a</a><p><a name=\"x\">no link</a></p>\
                <link href=\"/style.css\"><a href=\"https://other.edu/b\">b</a>\
                <a href=\"\">empty</a></body></html>";
    assert_eq!(links(body), Some(vec![
        String::from("/a"),
        String::from("https://other.edu/b"),
        String::from(""),
    ]));
    assert_eq!(links(""), Some(Vec::new()));
    assert_eq!(links("no markup at all"), Some(Vec::new()));
}

#[test]
fn the_anchor_selector_compiles() {
    assert!(selector_compiles());
}

#[test]
fn present_values_keeps_what_is_there() {
    let values = vec![None, Some(String::from("a")), None, Some(String::from("b"))];
    assert_eq!(present_values(values), vec![String::from("a"), String::from("b")]);
    assert_eq!(present_values(Vec::new()), Vec::<String>::new());
}

#[test]
fn candidates_are_normalized_filtered_and_told_apart() {
    let base = address("https://site.edu/dir/");
    let hrefs: Vec<String> = [
        "/a",
        "b#top",
        "https://other.edu/c",
        "/a?again=1",
        "mailto:someone@site.edu",
        "paper.pdf",
        "http://[::1",
        "b",
    ]
    .iter()
    .map(|h| String::from(*h))
    .collect();
    let list = candidates(&base, &hrefs, "site.edu");
    assert_eq!(texts(&list), vec![
        String::from("https://site.edu/a"),
        String::from("https://site.edu/dir/b"),
    ]);
}

#[test]
fn a_new_engine_holds_the_seeds_and_nothing_else() {
    let s = Seeker::new(VecDeque::from(vec![address("https://web.mit.edu")]))
        .expect("the configuration compiles");
    assert_eq!(s.scope(), SCOPE);
    assert_eq!(s.scope(), ".mit.edu");
    assert_eq!(frontier(&s), vec![String::from("https://web.mit.edu/")]);
    assert!(s.found().is_empty());
    assert!(s.searched().is_empty());
    assert!(s.redirects().is_empty());
    assert_eq!(s.visits("web.mit.edu"), 0);
    assert_eq!(s.upcoming().map(|a| a.as_str()), Some("https://web.mit.edu/"));
}

#[test]
fn the_last_of_the_frontier_comes_first() {
    let mut s = engine(&["https://site.edu/1", "https://site.edu/2"], "site.edu");
    assert_eq!(s.upcoming().map(|a| a.as_str()), Some("https://site.edu/2"));
    let r = s.execute(page("https://site.edu/2", "<a href=\"/3\">3</a><a href=\"/4\">4</a>"));
    assert_eq!(r, Ok(CycleReport { new_links: 2, candidates: 2 }));
    assert_eq!(frontier(&s), vec![
        String::from("https://site.edu/1"),
        String::from("https://site.edu/3"),
        String::from("https://site.edu/4"),
    ]);
    assert_eq!(s.upcoming().map(|a| a.as_str()), Some("https://site.edu/4"));
}

#[test]
fn a_redirect_within_one_domain_is_not_recorded() {
    let mut s = engine(&["http://a.example.edu/x"], "example.edu");
    let r = s.execute(page("https://a.example.edu/x", ""));
    assert_eq!(r, Ok(CycleReport { new_links: 0, candidates: 0 }));
    assert!(s.redirects().is_empty());
}

#[test]
fn a_redirect_to_another_domain_is_recorded_once() {
    let mut s = engine(&["http://a.example.edu/x", "http://a.example.edu/x"], "example.edu");
    let r = s.execute(page("https://b.example.edu/y", ""));
    assert_eq!(r, Ok(CycleReport { new_links: 0, candidates: 0 }));
    assert_eq!(s.redirects().len(), 1);
    assert_eq!(s.redirects()[0].origin().as_str(), "http://a.example.edu/x");
    assert_eq!(s.redirects()[0].destination().as_str(), "https://b.example.edu/y");
    assert_eq!(s.redirects()[0].to_text(), "<http://a.example.edu/x> -> <https://b.example.edu/y>");
    let r = s.execute(page("https://b.example.edu/y", ""));
    assert_eq!(r, Ok(CycleReport { new_links: 0, candidates: 0 }));
    assert_eq!(s.redirects().len(), 1);
}

#[test]
fn one_origin_with_two_destinations_gives_two_records() {
    let mut s = engine(&["http://a.example.edu/x", "http://a.example.edu/x"], "example.edu");
    assert!(s.execute(page("https://b.example.edu/y", "")).is_ok());
    assert!(s.execute(page("https://c.example.edu/y", "")).is_ok());
    assert_eq!(s.redirects().len(), 2);
}

#[test]
fn after_a_redirect_links_resolve_on_the_destination() {
    let mut s = engine(&["http://a.example.edu/x/"], "example.edu");
    let r = s.execute(page("https://b.example.edu/y/", "<a href=\"z\">z</a>"));
    assert_eq!(r, Ok(CycleReport { new_links: 1, candidates: 1 }));
    assert_eq!(frontier(&s), vec![String::from("https://b.example.edu/y/z")]);
    assert_eq!(s.found(), &vec![String::from("b.example.edu")]);
}

#[test]
fn without_a_redirect_links_resolve_on_the_requested_address() {
    let mut s = engine(&["http://a.example.edu/x/"], "example.edu");
    let r = s.execute(page("https://a.example.edu/other/", "<a href=\"z\">z</a>"));
    assert_eq!(r, Ok(CycleReport { new_links: 1, candidates: 1 }));
    assert_eq!(frontier(&s), vec![String::from("http://a.example.edu/x/z")]);
}

#[test]
fn receive_gives_the_base_for_the_links() {
    let mut s = engine(&[], "example.edu");
    let requested = address("http://a.example.edu/x");
    let base = s.receive(&requested, &address("https://a.example.edu/x")).expect("accepted");
    assert_eq!(base.as_str(), "http://a.example.edu/x");
    let base = s.receive(&requested, &address("https://b.example.edu/y")).expect("accepted");
    assert_eq!(base.as_str(), "https://b.example.edu/y");
    assert_eq!(s.redirects().len(), 1);
    assert_eq!(
        s.receive(&requested, &address("https://b.example.com/y")).err(),
        Some(CrawlError::InvalidDestination)
    );
    assert_eq!(s.redirects().len(), 1);
}

#[test]
fn a_destination_that_the_filter_turns_away_fails_the_cycle() {
    let mut s = engine(&["https://site.edu/"], "site.edu");
    let r = s.execute(page("https://elsewhere.com/", "<a href=\"/a\">a</a>"));
    assert_eq!(r, Err(CrawlError::InvalidDestination));
    assert!(s.redirects().is_empty());
    assert!(s.queue().is_empty());
    assert!(s.found().is_empty());
    assert!(s.searched().is_empty());
}

#[test]
fn a_redirect_from_outside_the_scope_fails_the_cycle_and_is_recorded() {
    let mut s = engine(&["http://short.example/x"], "site.edu");
    let r = s.execute(page("https://www.site.edu/landing", "<a href=\"/a\">a</a>"));
    assert_eq!(r, Err(CrawlError::OutOfScopeRedirect));
    assert_eq!(s.redirects().len(), 1);
    assert_eq!(s.redirects()[0].to_text(), "<http://short.example/x> -> <https://www.site.edu/landing>");
    assert!(s.queue().is_empty());
    assert!(s.found().is_empty());
    assert!(s.searched().is_empty());
}

#[test]
fn a_fetch_that_failed_drops_the_address() {
    let mut s = engine(&["https://site.edu/1", "https://site.edu/2"], "site.edu");
    assert_eq!(s.execute(None), Err(CrawlError::TransportFailure));
    assert_eq!(frontier(&s), vec![String::from("https://site.edu/1")]);
    assert!(s.searched().is_empty());
    assert!(s.found().is_empty());
    assert!(s.redirects().is_empty());
}

#[test]
fn links_inside_the_scope_are_enqueued_and_others_are_not() {
    let mut s = engine(&["https://site.edu/"], "site.edu");
    let body = "<html><body><a href=\"/a\">a</a><a href=\"https://other.edu/b\">b</a></body></html>";
    let r = s.execute(page("https://site.edu/", body));
    assert_eq!(r, Ok(CycleReport { new_links: 1, candidates: 1 }));
    assert_eq!(s.found(), &vec![String::from("site.edu")]);
    assert_eq!(frontier(&s), vec![String::from("https://site.edu/a")]);
    assert_eq!(texts(s.searched()), vec![String::from("https://site.edu/a")]);
    assert_eq!(s.visits("site.edu"), 1);
    assert_eq!(s.visits("other.edu"), 0);
}

#[test]
fn an_empty_frontier_fails_the_cycle_and_changes_nothing() {
    let mut s = engine(&["https://site.edu/"], "site.edu");
    let r = s.execute(page("https://site.edu/", "<a href=\"/a\">a</a>"));
    assert_eq!(r, Ok(CycleReport { new_links: 1, candidates: 1 }));
    let r = s.execute(page("https://site.edu/a", "<a href=\"/a\">a</a><a href=\"/\">home</a>"));
    assert_eq!(r, Ok(CycleReport { new_links: 1, candidates: 2 }));
    let r = s.execute(page("https://site.edu/", "<a href=\"/a\">a</a>"));
    assert_eq!(r, Ok(CycleReport { new_links: 0, candidates: 1 }));
    assert!(s.queue().is_empty());
    assert!(s.upcoming().is_none());
    let found = s.found().clone();
    let searched = texts(s.searched());
    for fetched in [None, page("https://site.edu/", "<a href=\"/new\">new</a>")] {
        assert_eq!(s.execute(fetched), Err(CrawlError::EmptyFrontier));
        assert!(s.queue().is_empty());
        assert_eq!(s.found(), &found);
        assert_eq!(texts(s.searched()), searched);
        assert!(s.redirects().is_empty());
        assert_eq!(s.visits("site.edu"), 4);
    }
}

#[test]
fn no_address_goes_to_the_frontier_twice() {
    let mut s = engine(&["https://site.edu/"], "site.edu");
    let body = "<a href=\"/a\">a</a><a href=\"/b\">b</a><a href=\"/a#again\">a</a>";
    assert_eq!(
        s.execute(page("https://site.edu/", body)),
        Ok(CycleReport { new_links: 2, candidates: 2 })
    );
    assert_eq!(
        s.execute(page("https://site.edu/b", body)),
        Ok(CycleReport { new_links: 0, candidates: 2 })
    );
    assert_eq!(
        s.execute(page("https://site.edu/a", "<a href=\"/b?x=1\">b</a><a href=\"/c\">c</a>")),
        Ok(CycleReport { new_links: 1, candidates: 2 })
    );
    assert_eq!(texts(s.searched()), vec![
        String::from("https://site.edu/a"),
        String::from("https://site.edu/b"),
        String::from("https://site.edu/c"),
    ]);
    assert_eq!(frontier(&s), vec![String::from("https://site.edu/c")]);
    assert_eq!(s.found(), &vec![String::from("site.edu")]);
    assert_eq!(s.visits("site.edu"), 6);
}

#[test]
fn a_domain_is_scheduled_no_more_often_than_the_limit_allows() {
    let mut s = engine(&["https://site.edu/"], "site.edu");
    let mut body = String::new();
    for i in 0..250 {
        body.push_str(&format!("<a href=\"/p{}\">p</a>", i));
    }
    body.push_str("<a href=\"https://www.site.edu/\">www</a>");
    let r = s.execute(page("https://site.edu/", &body));
    assert_eq!(r, Ok(CycleReport { new_links: 202, candidates: 251 }));
    assert_eq!(s.visits("site.edu"), 201);
    assert_eq!(s.visits("www.site.edu"), 1);
    assert_eq!(s.searched().len(), 202);
    assert_eq!(s.queue().len(), 202);
    assert_eq!(s.found(), &vec![String::from("site.edu"), String::from("www.site.edu")]);
    assert_eq!(s.searched()[200].as_str(), "https://site.edu/p200");
    assert_eq!(s.searched()[201].as_str(), "https://www.site.edu/");
    let r = s.execute(page("https://www.site.edu/", "<a href=\"https://site.edu/fresh\">x</a>"));
    assert_eq!(r, Ok(CycleReport { new_links: 0, candidates: 1 }));
    assert_eq!(s.visits("site.edu"), 201);
    assert_eq!(s.searched().len(), 202);
}

#[test]
fn a_candidate_without_a_domain_fails_the_cycle() {
    let mut s = engine(&[], "");
    let list = vec![
        address("https://site.edu/a"),
        address("https://127.0.0.1/b"),
        address("https://site.edu/c"),
    ];
    assert_eq!(s.enqueue(&list), Err(CrawlError::DomainExtractionFailure));
    assert_eq!(frontier(&s), vec![String::from("https://site.edu/a")]);
    assert_eq!(s.found(), &vec![String::from("site.edu")]);
    assert_eq!(s.visits("site.edu"), 1);
}

#[test]
fn enqueue_counts_what_is_new() {
    let mut s = engine(&[], "site.edu");
    let list = vec![address("https://site.edu/a"), address("https://www.site.edu/b")];
    assert_eq!(s.enqueue(&list), Ok(CycleReport { new_links: 2, candidates: 2 }));
    assert_eq!(s.enqueue(&list), Ok(CycleReport { new_links: 0, candidates: 2 }));
    assert_eq!(s.enqueue(&Vec::new()), Ok(CycleReport { new_links: 0, candidates: 0 }));
    assert_eq!(s.visits("site.edu"), 2);
    assert_eq!(s.queue().len(), 2);
}

#[test]
fn gather_reads_the_links_of_a_page() {
    let mut s = engine(&[], "site.edu");
    let base = address("https://site.edu/dir/");
    let r = s.gather(&base, "<a href=\"x.html\">x</a><a href=\"x.pdf\">pdf</a>");
    assert_eq!(r, Ok(CycleReport { new_links: 1, candidates: 1 }));
    assert_eq!(frontier(&s), vec![String::from("https://site.edu/dir/x.html")]);
}

#[test]
fn a_seed_may_be_found_again_once() {
    let mut s = engine(&["https://site.edu/"], "site.edu");
    let r = s.execute(page("https://site.edu/", "<a href=\"/\">home</a>"));
    assert_eq!(r, Ok(CycleReport { new_links: 1, candidates: 1 }));
    let r = s.execute(page("https://site.edu/", "<a href=\"/\">home</a>"));
    assert_eq!(r, Ok(CycleReport { new_links: 0, candidates: 1 }));
    assert!(s.queue().is_empty());
}

#[test]
fn a_replay_runs_one_cycle_for_each_fetch() {
    let roots = VecDeque::from(vec![address("https://site.edu/")]);
    let fetches = vec![
        page("https://site.edu/", "<a href=\"/a\">a</a><a href=\"/b\">b</a>"),
        None,
        page("https://elsewhere.com/", ""),
        page("https://site.edu/", ""),
    ];
    let (s, results) = Seeker::replay(roots, "site.edu", fetches).expect("the configuration compiles");
    assert_eq!(results, vec![
        Ok(CycleReport { new_links: 2, candidates: 2 }),
        Err(CrawlError::TransportFailure),
        Err(CrawlError::InvalidDestination),
        Err(CrawlError::EmptyFrontier),
    ]);
    assert!(s.queue().is_empty());
    assert_eq!(texts(s.searched()), vec![
        String::from("https://site.edu/a"),
        String::from("https://site.edu/b"),
    ]);
    assert_eq!(s.found(), &vec![String::from("site.edu")]);
}

#[test]
fn a_replay_of_nothing_leaves_the_seeds() {
    let roots = VecDeque::from(vec![address("https://site.edu/"), address("https://site.edu/x")]);
    let (s, results) = Seeker::replay(roots, "site.edu", Vec::new()).expect("the configuration compiles");
    assert!(results.is_empty());
    assert_eq!(frontier(&s), vec![String::from("https://site.edu/"), String::from("https://site.edu/x")]);
}

#[test]
fn what_a_run_pushes_is_pairwise_distinct() {
    let roots = VecDeque::from(vec![address("https://site.edu/")]);
    let body = "<a href=\"/a\">a</a><a href=\"/b\">b</a><a href=\"/c/\">c</a><a href=\"/\">home</a>";
    let fetches = vec![
        page("https://site.edu/", body),
        page("https://site.edu/", body),
        page("https://site.edu/c/", "<a href=\"d\">d</a><a href=\"../a\">a</a>"),
        page("https://site.edu/c/d", body),
        page("https://site.edu/b", body),
        page("https://site.edu/a", body),
    ];
    let (s, _) = Seeker::replay(roots, "site.edu", fetches).expect("the configuration compiles");
    let pushed = texts(s.searched());
    assert_eq!(pushed, vec![
        String::from("https://site.edu/a"),
        String::from("https://site.edu/b"),
        String::from("https://site.edu/c/"),
        String::from("https://site.edu/"),
        String::from("https://site.edu/c/d"),
    ]);
    for i in 0..pushed.len() {
        for j in 0..i {
            assert_ne!(pushed[i], pushed[j]);
        }
    }
}
