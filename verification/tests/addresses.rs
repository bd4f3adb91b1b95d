use seeker::address::{holds, into_mit, Address};
use seeker::redirect::{holds_record, Redirect};

fn address(text: &str) -> Address {
    Address::parse(text).expect("an absolute URL")
}

#[test]
fn parse_gives_the_serialization() {
    let a = address("HTTPS://Web.MIT.edu");
    assert_eq!(a.as_str(), "https://web.mit.edu/");
}

#[test]
fn parse_reads_the_parts() {
    let a = address("https://web.mit.edu/about/index.html?x=1#top");
    assert_eq!(a.as_str(), "https://web.mit.edu/about/index.html?x=1#top");
    assert_eq!(a.scheme(), "https");
    assert_eq!(a.domain(), Some("web.mit.edu"));
    assert_eq!(a.path(), "/about/index.html");
}

#[test]
fn parse_refuses_what_is_no_absolute_url() {
    assert!(Address::parse("/relative/path").is_none());
    assert!(Address::parse("").is_none());
    assert!(Address::parse("http://[::1").is_none());
}

#[test]
fn an_ip_host_is_no_domain() {
    let a = address("https://127.0.0.1/index.html");
    assert_eq!(a.domain(), None);
    assert_eq!(a.path(), "/index.html");
}

#[test]
fn a_mailto_address_has_no_domain() {
    let a = address("mailto:someone@mit.edu");
    assert_eq!(a.scheme(), "mailto");
    assert_eq!(a.domain(), None);
    assert_eq!(a.path(), "someone@mit.edu");
}

#[test]
fn an_absolute_href_stands_for_itself() {
    let base = address("https://web.mit.edu/a/b");
    let a = into_mit(&base, "http://kb.mit.edu/x").expect("resolves");
    assert_eq!(a.as_str(), "http://kb.mit.edu/x");
    assert_eq!(a.domain(), Some("kb.mit.edu"));
}

#[test]
fn an_absolute_path_replaces_the_path_of_the_base() {
    let base = address("https://web.mit.edu/a/b");
    let a = into_mit(&base, "/foo").expect("resolves");
    assert_eq!(a.as_str(), "https://web.mit.edu/foo");
    assert_eq!(a.path(), "/foo");
}

#[test]
fn a_relative_path_resolves_on_the_last_segment() {
    let base = address("https://web.mit.edu/a/b.html");
    let a = into_mit(&base, "c.html").expect("resolves");
    assert_eq!(a.as_str(), "https://web.mit.edu/a/c.html");
    let base = address("https://web.mit.edu/a/b/");
    let a = into_mit(&base, "c.html").expect("resolves");
    assert_eq!(a.as_str(), "https://web.mit.edu/a/b/c.html");
}

#[test]
fn fragment_and_query_are_taken_off() {
    let base = address("https://web.mit.edu/");
    let a = into_mit(&base, "https://web.mit.edu/page?q=v#frag").expect("resolves");
    assert_eq!(a.as_str(), "https://web.mit.edu/page");
    let a = into_mit(&base, "page#frag").expect("resolves");
    assert_eq!(a.as_str(), "https://web.mit.edu/page");
    let a = into_mit(&base, "/page?q=v").expect("resolves");
    assert_eq!(a.as_str(), "https://web.mit.edu/page");
    let a = into_mit(&base, "#frag").expect("resolves");
    assert_eq!(a.as_str(), "https://web.mit.edu/");
}

#[test]
fn a_trailing_slash_tells_addresses_apart() {
    let base = address("https://web.mit.edu/");
    let a = into_mit(&base, "/dir").expect("resolves");
    let b = into_mit(&base, "/dir/").expect("resolves");
    assert!(!a.same(&b));
    assert_ne!(a, b);
}

#[test]
fn an_href_that_cannot_be_joined_gives_nothing() {
    let base = address("mailto:someone@mit.edu");
    assert!(into_mit(&base, "/foo").is_none());
    let base = address("https://web.mit.edu/");
    assert!(into_mit(&base, "http://[::1").is_none());
}

#[test]
fn normalization_is_idempotent() {
    let base = address("https://web.mit.edu/a/");
    for href in ["b/c.html?x=1#y", "/", "https://other.example/p/q/?k#f", "../up"] {
        let a = into_mit(&base, href).expect("resolves");
        let again = into_mit(&a, a.as_str()).expect("resolves");
        assert_eq!(again, a);
        assert!(again.same(&a));
        let elsewhere = into_mit(&base, a.as_str()).expect("resolves");
        assert_eq!(elsewhere, a);
    }
}

#[test]
fn same_goes_by_the_text() {
    let a = address("https://web.mit.edu/x");
    let b = address("https://WEB.mit.edu/x");
    let c = address("https://web.mit.edu/y");
    assert!(a.same(&b));
    assert!(!a.same(&c));
    assert!(a.same_domain(&c));
    assert!(!a.same_domain(&address("https://kb.mit.edu/x")));
    assert!(address("https://127.0.0.1/").same_domain(&address("mailto:x@y.z")));
}

#[test]
fn clone_keeps_the_address() {
    let a = address("https://web.mit.edu/x?y#z");
    let b = a.clone();
    assert_eq!(a, b);
    assert_eq!(b.as_str(), "https://web.mit.edu/x?y#z");
    assert_eq!(b.domain(), Some("web.mit.edu"));
}

#[test]
fn holds_finds_an_address_by_its_text() {
    let list = vec![address("https://web.mit.edu/a"), address("https://web.mit.edu/b")];
    assert!(holds(&list, &address("https://web.mit.edu/b")));
    assert!(!holds(&list, &address("https://web.mit.edu/c")));
    assert!(!holds(&Vec::new(), &address("https://web.mit.edu/a")));
}

#[test]
fn a_redirect_is_written_with_an_arrow() {
    let r = Redirect::new(address("http://a.mit.edu/x"), address("https://b.mit.edu/y"));
    assert_eq!(r.to_text(), "<http://a.mit.edu/x> -> <https://b.mit.edu/y>");
    assert_eq!(r.origin().as_str(), "http://a.mit.edu/x");
    assert_eq!(r.destination().as_str(), "https://b.mit.edu/y");
}

#[test]
fn redirects_are_told_apart_by_both_ends() {
    let r = Redirect::new(address("http://a.mit.edu/x"), address("https://b.mit.edu/y"));
    let same = Redirect::new(address("http://a.mit.edu/x"), address("https://b.mit.edu/y"));
    let other = Redirect::new(address("http://a.mit.edu/x"), address("https://c.mit.edu/y"));
    assert!(r.same(&same));
    assert!(!r.same(&other));
    assert_eq!(r.clone(), r);
    let list = vec![r];
    assert!(holds_record(&list, &same));
    assert!(!holds_record(&list, &other));
}
