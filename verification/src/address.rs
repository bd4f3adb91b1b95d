//! Addresses: absolute URLs, held as their text together with the parts that the crawl reads,
//! and the normaliser that turns a hyperlink reference into an address.
//!
//! URL syntax is the `url` crate's. Each of its operations is taken as a function on the text of
//! a URL and has a name here; the trusted functions of this module say which call stands behind
//! each name and what is believed of it.

use crate::text::has_substring;
use vstd::prelude::*;

verus! {

/// The serialization of the URL that `url::Url::parse` reads from `input`; `None` where it
/// reports an error.
pub uninterp spec fn url_of(input: Seq<char>) -> Option<Seq<char>>;

/// The serialization of the URL that `url::Url::join` gives for `href`, joined to the URL
/// written `base`; `None` where `base` is no URL or the join reports an error.
pub uninterp spec fn joined_url(base: Seq<char>, href: Seq<char>) -> Option<Seq<char>>;

/// The serialization of the URL written `text` once `url::Url::set_fragment(None)` and
/// `url::Url::set_query(None)` have cleared its fragment and its query; `None` where `text` is
/// no URL.
pub uninterp spec fn bare_url(text: Seq<char>) -> Option<Seq<char>>;

/// What `url::Url::scheme` returns for the URL written `text`; `None` where `text` is no URL.
pub uninterp spec fn url_scheme(text: Seq<char>) -> Option<Seq<char>>;

/// What `url::Url::domain` returns for the URL written `text`; `None` where `text` is no URL.
pub uninterp spec fn url_domain(text: Seq<char>) -> Option<Seq<char>>;

/// What `url::Url::path` returns for the URL written `text`; `None` where `text` is no URL.
pub uninterp spec fn url_path(text: Seq<char>) -> Option<Seq<char>>;

/// The characters of an optional string.
pub open spec fn text_of(s: Option<String>) -> Option<Seq<char>> {
    match s {
        Some(t) => Some(t@),
        None => None,
    }
}

/// `text` is the serialization of a URL: parsing it gives it back.
pub open spec fn is_url(text: Seq<char>) -> bool {
    url_of(text) == Some(text)
}

/// Calls `url::Url::parse` on `input` and hands out the serialization of the URL read.
///
/// Believed: the result is `url_of(input)`, and a serialization parses to itself (the crate
/// keeps this as an invariant of every `Url`).
#[verifier::external_body]
fn parse_url(input: &str) -> (r: Option<String>)
    ensures
        text_of(r) == url_of(input@),
        r matches Some(t) ==> is_url(t@),
{
    match url::Url::parse(input) {
        Ok(u) => Some(String::from(u)),
        Err(_) => None,
    }
}

/// Calls `url::Url::join` with `href` on the URL that `base` parses to, and hands out the
/// serialization of the URL it gives.
///
/// Believed: the result is `joined_url(base, href)`, and a serialization parses to itself.
#[verifier::external_body]
fn join_url(base: &str, href: &str) -> (r: Option<String>)
    ensures
        text_of(r) == joined_url(base@, href@),
        r matches Some(t) ==> is_url(t@),
{
    match url::Url::parse(base) {
        Ok(b) => match b.join(href) {
            Ok(u) => Some(String::from(u)),
            Err(_) => None,
        },
        Err(_) => None,
    }
}

/// Calls `url::Url::set_fragment(None)` and `url::Url::set_query(None)` on the URL that `text`
/// parses to, and hands out the serialization of what is left.
///
/// Believed: the result is `bare_url(text)`; it is there exactly where `text` parses; it parses
/// to itself; and clearing its fragment and query once more changes nothing, since neither is
/// left.
#[verifier::external_body]
fn strip_url(text: &str) -> (r: Option<String>)
    ensures
        text_of(r) == bare_url(text@),
        r is Some <==> url_of(text@) is Some,
        r matches Some(t) ==> is_url(t@) && bare_url(t@) == Some(t@),
{
    match url::Url::parse(text) {
        Ok(mut u) => {
            u.set_fragment(None);
            u.set_query(None);
            Some(String::from(u))
        },
        Err(_) => None,
    }
}

/// Calls `url::Url::scheme` on the URL that `text` parses to.
///
/// Believed: the result is `url_scheme(text)`, and it is there exactly where `text` parses.
#[verifier::external_body]
fn read_scheme(text: &str) -> (r: Option<String>)
    ensures
        text_of(r) == url_scheme(text@),
        r is Some <==> url_of(text@) is Some,
{
    match url::Url::parse(text) {
        Ok(u) => Some(String::from(u.scheme())),
        Err(_) => None,
    }
}

/// Calls `url::Url::domain` on the URL that `text` parses to.
///
/// Believed: the result is `url_domain(text)`.
#[verifier::external_body]
fn read_domain(text: &str) -> (r: Option<String>)
    ensures
        text_of(r) == url_domain(text@),
{
    match url::Url::parse(text) {
        Ok(u) => match u.domain() {
            Some(d) => Some(String::from(d)),
            None => None,
        },
        Err(_) => None,
    }
}

/// Calls `url::Url::path` on the URL that `text` parses to.
///
/// Believed: the result is `url_path(text)`; it is there exactly where `text` parses; and the
/// path is a slice of the URL's serialization.
#[verifier::external_body]
fn read_path(text: &str) -> (r: Option<String>)
    ensures
        text_of(r) == url_path(text@),
        r is Some <==> url_of(text@) is Some,
        r matches Some(p) ==> url_of(text@) matches Some(t) && has_substring(t, p@),
{
    match url::Url::parse(text) {
        Ok(u) => Some(String::from(u.path())),
        Err(_) => None,
    }
}

/// An absolute URL: its text and the parts of it that the crawl reads.
#[derive(Debug, PartialEq, Eq)]
pub struct Address {
    text: String,
    scheme: String,
    domain: Option<String>,
    path: String,
}

/// What an `Address` holds, as plain values.
pub struct AddressView {
    pub text: Seq<char>,
    pub scheme: Seq<char>,
    pub domain: Option<Seq<char>>,
    pub path: Seq<char>,
}

impl AddressView {
    /// The parts are those of the URL that the text writes, and the text is a serialization.
    pub open spec fn wf(self) -> bool {
        &&& is_url(self.text)
        &&& url_scheme(self.text) == Some(self.scheme)
        &&& url_domain(self.text) == self.domain
        &&& url_path(self.text) == Some(self.path)
        &&& has_substring(self.text, self.path)
    }

    /// Normal form: a well-formed address with neither fragment nor query, which is to say that
    /// clearing both leaves its text as it is.
    pub open spec fn is_normal(self) -> bool {
        &&& self.wf()
        &&& bare_url(self.text) == Some(self.text)
    }
}

/// The address that the URL text `text` describes.
pub open spec fn address_of(text: Seq<char>) -> AddressView {
    AddressView {
        text,
        scheme: url_scheme(text).unwrap(),
        domain: url_domain(text),
        path: url_path(text).unwrap(),
    }
}

/// The URL that `href` stands for on a page at `base`: `href` itself where it is an absolute
/// URL, else `href` joined to `base`.
pub open spec fn resolved(base: Seq<char>, href: Seq<char>) -> Option<Seq<char>> {
    if url_of(href) is Some {
        url_of(href)
    } else {
        joined_url(base, href)
    }
}

/// The address that `href` normalises to on a page at `base`: the resolved URL without its
/// fragment and query. `None` where `href` cannot be resolved.
pub open spec fn normalized(base: Seq<char>, href: Seq<char>) -> Option<AddressView> {
    match resolved(base, href) {
        Some(url) => match bare_url(url) {
            Some(bare) => Some(address_of(bare)),
            None => None,
        },
        None => None,
    }
}

/// The view of an optional address.
pub open spec fn view_of(a: Option<Address>) -> Option<AddressView> {
    match a {
        Some(a) => Some(a@),
        None => None,
    }
}

impl View for Address {
    type V = AddressView;

    closed spec fn view(&self) -> AddressView {
        AddressView {
            text: self.text@,
            scheme: self.scheme@,
            domain: text_of(self.domain),
            path: self.path@,
        }
    }
}

impl Clone for Address {
    fn clone(&self) -> (r: Self)
        ensures
            r@ == self@,
    {
        let domain = match &self.domain {
            Some(d) => Some(d.clone()),
            None => None,
        };
        Address {
            text: self.text.clone(),
            scheme: self.scheme.clone(),
            domain,
            path: self.path.clone(),
        }
    }
}

impl Address {
    /// Reads the parts of the URL written `text`.
    fn describe(text: String) -> (r: Option<Address>)
        requires
            is_url(text@),
        ensures
            r matches Some(a) && a@ == address_of(text@) && a@.wf(),
    {
        let scheme = read_scheme(text.as_str());
        let domain = read_domain(text.as_str());
        let path = read_path(text.as_str());
        match (scheme, path) {
            (Some(scheme), Some(path)) => Some(Address { text, scheme, domain, path }),
            _ => None,
        }
    }

    /// Reads an absolute URL from `input`, as it is written: fragment and query stay.
    pub fn parse(input: &str) -> (r: Option<Address>)
        ensures
            r is Some <==> url_of(input@) is Some,
            r matches Some(a) ==> a@.wf() && a@ == address_of(url_of(input@).unwrap()),
    {
        match parse_url(input) {
            Some(text) => Address::describe(text),
            None => None,
        }
    }

    /// The text of the address, by which addresses are told apart.
    pub fn as_str(&self) -> (r: &str)
        ensures
            r@ == self@.text,
    {
        self.text.as_str()
    }

    /// The scheme, without the colon.
    pub fn scheme(&self) -> (r: &str)
        ensures
            r@ == self@.scheme,
    {
        self.scheme.as_str()
    }

    /// The host, where the address has one and it is a domain name.
    pub fn domain(&self) -> (r: Option<&str>)
        ensures
            r is Some <==> self@.domain is Some,
            r matches Some(d) ==> Some(d@) == self@.domain,
    {
        match &self.domain {
            Some(d) => Some(d.as_str()),
            None => None,
        }
    }

    /// The path.
    pub fn path(&self) -> (r: &str)
        ensures
            r@ == self@.path,
    {
        self.path.as_str()
    }

    /// Tells whether two addresses are under the same domain, or both under none.
    pub fn same_domain(&self, other: &Address) -> (r: bool)
        ensures
            r == (self@.domain == other@.domain),
    {
        match (&self.domain, &other.domain) {
            (Some(a), Some(b)) => *a == *b,
            (None, None) => true,
            _ => false,
        }
    }

    /// Tells whether two addresses are the same one, which is to say that their texts are equal.
    pub fn same(&self, other: &Address) -> (r: bool)
        ensures
            r == (self@.text == other@.text),
    {
        self.text == other.text
    }
}

/// The views of a list of addresses.
pub open spec fn views(list: Seq<Address>) -> Seq<AddressView> {
    list.map_values(|a: Address| a@)
}

/// `text` is the text of an address in `list`.
pub open spec fn known(list: Seq<AddressView>, text: Seq<char>) -> bool {
    exists|i: int| 0 <= i < list.len() && (#[trigger] list[i]).text == text
}

/// No two addresses of `list` have the same text.
pub open spec fn distinct(list: Seq<AddressView>) -> bool {
    forall|i: int, j: int| 0 <= i < j < list.len() ==> list[i].text != list[j].text
}

/// Tells whether `list` holds the address `a`, going by the text.
pub fn holds(list: &Vec<Address>, a: &Address) -> (r: bool)
    ensures
        r == known(views(list@), a@.text),
{
    let mut i: usize = 0;
    while i < list.len()
        invariant
            i <= list@.len(),
            forall|j: int| 0 <= j < i ==> (#[trigger] views(list@)[j]).text != a@.text,
        decreases list@.len() - i,
    {
        if list[i].same(a) {
            assert(views(list@)[i as int].text == a@.text);
            return true;
        }
        i += 1;
    }
    false
}

/// Normalises the hyperlink reference `href` found on the page at `base`: an `href` that is an
/// absolute URL stands for itself, any other is joined to `base`; fragment and query are then
/// taken off. `None` where `href` can be resolved neither way.
pub fn into_mit(base: &Address, href: &str) -> (r: Option<Address>)
    ensures
        view_of(r) == normalized(base@.text, href@),
        r is Some <==> resolved(base@.text, href@) is Some,
        r matches Some(a) ==> a@.is_normal(),
{
    let url = match parse_url(href) {
        Some(url) => Some(url),
        None => join_url(base.as_str(), href),
    };
    match url {
        Some(url) => match strip_url(url.as_str()) {
            Some(bare) => Address::describe(bare),
            None => None,
        },
        None => None,
    }
}

/// An address in normal form is a fixed point of the normaliser: its own text normalises to the
/// address itself, on a page at that address and on any other page.
pub proof fn lemma_normal_form_is_fixed(a: AddressView, base: Seq<char>)
    requires
        a.is_normal(),
    ensures
        normalized(a.text, a.text) == Some(a),
        normalized(base, a.text) == Some(a),
{
}

/// Two well-formed addresses with the same text are the same address.
pub proof fn lemma_text_determines_address(a: AddressView, b: AddressView)
    requires
        a.wf(),
        b.wf(),
        a.text == b.text,
    ensures
        a == b,
{
}

} // verus!
