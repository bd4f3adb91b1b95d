//! The link filter: which addresses are worth fetching.
//!
//! An address passes when its host is a domain inside the crawl's scope, its scheme is of the
//! HTTP family, its path has no extension or one of the HTML family, the blocklist pattern finds
//! nothing in its text, and its text holds none of the resource markers.

use crate::address::{Address, AddressView};
use crate::text::{
    contains, extension, extension_of, has_substring, has_suffix, lemma_substring_transitive,
    lemma_suffix_is_substring, occurs_at, same_chars, str_contains, to_chars,
};
use vstd::prelude::*;

verus! {

/// The blocklist pattern, in the `regex` crate's syntax: calendar pages, which never end, and
/// the hosts whose pages multiply without leading anywhere new.
pub const BLOCKLIST: &'static str = "calendar|day|year|(solve|kb|wikis)\\.mit\\.edu";

/// What the scheme of a fetchable address contains.
pub const HTTP: &'static str = "http";

/// `regex::Regex::new` accepts `pattern`.
pub uninterp spec fn regex_valid(pattern: Seq<char>) -> bool;

/// What `regex::Regex::is_match` returns on `text` for the regex compiled from `pattern`.
pub uninterp spec fn regex_matches(pattern: Seq<char>, text: Seq<char>) -> bool;

/// Compiles `pattern` with `regex::Regex::new` and searches `text` with
/// `regex::Regex::is_match`.
///
/// Believed: the result is there exactly where the pattern compiles, which `regex_valid` names,
/// and is then what `is_match` returns, which `regex_matches` names.
#[verifier::external_body]
fn search(pattern: &str, text: &str) -> (r: Option<bool>)
    ensures
        r is Some <==> regex_valid(pattern@),
        r matches Some(hit) ==> hit == regex_matches(pattern@, text@),
{
    match regex::Regex::new(pattern) {
        Ok(re) => Some(re.is_match(text)),
        Err(_) => None,
    }
}

/// The extensions of the HTML family. A path with any other extension is no page; a path
/// without one probably is.
pub open spec fn html_extension(e: Seq<char>) -> bool {
    e == "html"@ || e == "htm"@ || e == "shtml"@
}

/// The resource markers: extensions of documents, archives, media and executables. An address
/// whose text holds one of them anywhere is no page.
pub open spec fn markers() -> Seq<Seq<char>> {
    seq![
        ".pdf"@,
        ".doc"@,
        ".ppt"@,
        ".xls"@,
        ".zip"@,
        ".tar"@,
        ".gz"@,
        ".jpg"@,
        ".jpeg"@,
        ".png"@,
        ".gif"@,
        ".mp3"@,
        ".mp4"@,
        ".exe"@,
        ".dmg"@,
    ]
}

/// `text` holds one of the resource markers.
pub open spec fn has_marker(text: Seq<char>) -> bool {
    exists|i: int| 0 <= i < markers().len() && has_substring(text, #[trigger] markers()[i])
}

/// `domain` is there and holds the scope suffix.
pub open spec fn in_scope(domain: Option<Seq<char>>, scope: Seq<char>) -> bool {
    domain matches Some(d) && has_substring(d, scope)
}

/// The filter's decision on an address, given what the blocklist search returned for its text:
/// `Some(true)` for a hit, `Some(false)` for none, `None` where the pattern did not compile.
pub open spec fn passes(a: AddressView, scope: Seq<char>, blocked: Option<bool>) -> bool {
    &&& in_scope(a.domain, scope)
    &&& has_substring(a.scheme, HTTP@)
    &&& (extension_of(a.path) matches Some(e) ==> html_extension(e))
    &&& blocked == Some(false)
    &&& !has_marker(a.text)
}

/// What the blocklist search returns for `text`.
pub open spec fn blocklist_verdict(text: Seq<char>) -> Option<bool> {
    if regex_valid(BLOCKLIST@) {
        Some(regex_matches(BLOCKLIST@, text))
    } else {
        None
    }
}

/// The filter accepts `a` in a crawl bounded by `scope`.
pub open spec fn accepts(a: AddressView, scope: Seq<char>) -> bool {
    passes(a, scope, blocklist_verdict(a.text))
}

/// The resource markers, as strings.
fn resource_markers() -> (v: Vec<&'static str>)
    ensures
        v@.len() == markers().len(),
        forall|i: int| 0 <= i < v@.len() ==> (#[trigger] v@[i])@ == markers()[i],
{
    vec![
        ".pdf",
        ".doc",
        ".ppt",
        ".xls",
        ".zip",
        ".tar",
        ".gz",
        ".jpg",
        ".jpeg",
        ".png",
        ".gif",
        ".mp3",
        ".mp4",
        ".exe",
        ".dmg",
    ]
}

/// Tells whether `text` holds one of the resource markers.
fn holds_marker(text: &Vec<char>) -> (r: bool)
    ensures
        r == has_marker(text@),
{
    let list = resource_markers();
    let mut i: usize = 0;
    while i < list.len()
        invariant
            i <= list.len(),
            list@.len() == markers().len(),
            forall|j: int| 0 <= j < list@.len() ==> (#[trigger] list@[j])@ == markers()[j],
            forall|j: int| 0 <= j < i ==> !has_substring(text@, #[trigger] markers()[j]),
        decreases list.len() - i,
    {
        let marker = to_chars(list[i]);
        if contains(text, &marker) {
            assert(has_substring(text@, markers()[i as int]));
            return true;
        }
        i += 1;
    }
    false
}

/// Tells whether the blocklist pattern compiles.
pub fn blocklist_compiles() -> (r: bool)
    ensures
        r == regex_valid(BLOCKLIST@),
{
    search(BLOCKLIST, "").is_some()
}

/// Tells whether `url` is under a domain that holds the suffix `scope`.
pub fn within(url: &Address, scope: &str) -> (r: bool)
    ensures
        r == in_scope(url@.domain, scope@),
{
    match url.domain() {
        Some(d) => str_contains(d, scope),
        None => false,
    }
}

/// Tells whether `e` is an extension of the HTML family.
fn is_html_extension(e: &Vec<char>) -> (r: bool)
    ensures
        r == html_extension(e@),
{
    let html = to_chars("html");
    let htm = to_chars("htm");
    let shtml = to_chars("shtml");
    same_chars(e, &html) || same_chars(e, &htm) || same_chars(e, &shtml)
}

/// Decides on an address, given what the blocklist search returned for its text.
pub fn filter_decision(url: &Address, scope: &str, blocked: Option<bool>) -> (r: bool)
    ensures
        r == passes(url@, scope@, blocked),
{
    if !within(url, scope) {
        return false;
    }
    if !str_contains(url.scheme(), HTTP) {
        return false;
    }
    match extension(&to_chars(url.path())) {
        Some(e) => {
            if !is_html_extension(&e) {
                return false;
            }
        },
        None => {},
    }
    match blocked {
        Some(false) => {},
        _ => {
            return false;
        },
    }
    !holds_marker(&to_chars(url.as_str()))
}

/// Tells whether `url` is worth fetching in a crawl bounded by the suffix `scope`.
pub fn filter(url: &Address, scope: &str) -> (r: bool)
    ensures
        r == accepts(url@, scope@),
{
    let blocked = search(BLOCKLIST, url.as_str());
    filter_decision(url, scope, blocked)
}

/// An address that the filter accepts has a domain.
pub proof fn lemma_accepted_has_domain(a: AddressView, scope: Seq<char>)
    requires
        accepts(a, scope),
    ensures
        a.domain is Some,
        has_substring(a.domain.unwrap(), scope),
{
}

/// The filter turns away every address whose host lacks the scope suffix, every address whose
/// scheme is `mailto`, every address whose path has an extension outside the HTML family, and
/// every well-formed address whose path ends in a resource marker.
pub proof fn lemma_filter_excludes(a: AddressView, scope: Seq<char>, marker: int)
    ensures
        !in_scope(a.domain, scope) ==> !accepts(a, scope),
        a.scheme == "mailto"@ ==> !accepts(a, scope),
        extension_of(a.path) matches Some(e) && !html_extension(e) ==> !accepts(a, scope),
        a.wf() && 0 <= marker < markers().len() && has_suffix(a.path, markers()[marker])
            ==> !accepts(a, scope),
{
    if a.scheme == "mailto"@ {
        reveal_strlit("mailto");
        reveal_strlit("http");
        assert forall|at: int| !occurs_at(a.scheme, HTTP@, at) by {
            if occurs_at(a.scheme, HTTP@, at) {
                assert(a.scheme.subrange(at, at + 4)[0] == a.scheme[at]);
            }
        }
    }
    if a.wf() && 0 <= marker < markers().len() && has_suffix(a.path, markers()[marker]) {
        lemma_suffix_is_substring(a.path, markers()[marker]);
        lemma_substring_transitive(a.text, a.path, markers()[marker]);
    }
}

} // verus!
