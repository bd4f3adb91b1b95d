//! Pages: the hyperlink references that a fetched page holds, and the candidates among them.
//!
//! HTML is read by the `scraper` crate. What it selects from a page is taken as a function of
//! the page's text and has a name here.

use crate::address::{
    distinct, holds, into_mit, known, normalized, text_of, views, Address, AddressView,
};
use crate::filter::{accepts, filter};
use crate::text::texts;
use vstd::prelude::*;

verus! {

/// The selector of the elements that hold links.
pub const ANCHOR: &'static str = "a";

/// The attribute in which an anchor holds its reference.
pub const HREF: &'static str = "href";

/// `scraper::Selector::parse` accepts `selector`.
pub uninterp spec fn selector_valid(selector: Seq<char>) -> bool;

/// For each element that `scraper::Html::select` yields on the document that
/// `scraper::Html::parse_document` reads from `page`, in the order in which it yields them, what
/// `scraper::node::Element::attr` returns for `attribute`. The selector is the one that
/// `scraper::Selector::parse` reads from `selector`.
pub uninterp spec fn selected(
    page: Seq<char>,
    selector: Seq<char>,
    attribute: Seq<char>,
) -> Seq<Option<Seq<char>>>;

/// The characters of a list of optional strings.
pub open spec fn values_of(list: Seq<Option<String>>) -> Seq<Option<Seq<char>>> {
    list.map_values(|s: Option<String>| text_of(s))
}

/// Compiles `selector` with `scraper::Selector::parse`, reads `page` with
/// `scraper::Html::parse_document`, walks the matching elements with `scraper::Html::select` and
/// asks each for `attribute` with `scraper::node::Element::attr`.
///
/// Believed: the result is there exactly where the selector compiles, which `selector_valid`
/// names, and then holds, element by element, what `selected` names.
#[verifier::external_body]
fn select_attributes(page: &str, selector: &str, attribute: &str) -> (r: Option<
    Vec<Option<String>>,
>)
    ensures
        r is Some <==> selector_valid(selector@),
        r matches Some(v) ==> values_of(v@) == selected(page@, selector@, attribute@),
{
    match scraper::Selector::parse(selector) {
        Ok(s) => {
            let mut values: Vec<Option<String>> = Vec::new();
            for element in scraper::Html::parse_document(page).select(&s) {
                values.push(
                    match element.value().attr(attribute) {
                        Some(v) => Some(String::from(v)),
                        None => None,
                    },
                );
            }
            Some(values)
        },
        Err(_) => None,
    }
}

/// The values that are there, in order.
pub open spec fn present(values: Seq<Option<Seq<char>>>) -> Seq<Seq<char>>
    decreases values.len(),
{
    if values.len() == 0 {
        Seq::empty()
    } else {
        match values.last() {
            Some(v) => present(values.drop_last()).push(v),
            None => present(values.drop_last()),
        }
    }
}

/// The hyperlink references of a page: the `href` of each anchor that has one.
pub open spec fn hrefs_of(page: Seq<char>) -> Seq<Seq<char>> {
    present(selected(page, ANCHOR@, HREF@))
}

/// The candidates among `hrefs`, found on a page at `base`: the normal form of each reference
/// that has one which the filter accepts, once each, in the order of first appearance.
pub open spec fn collect(base: Seq<char>, hrefs: Seq<Seq<char>>, scope: Seq<char>) -> Seq<
    AddressView,
>
    decreases hrefs.len(),
{
    if hrefs.len() == 0 {
        Seq::empty()
    } else {
        let before = collect(base, hrefs.drop_last(), scope);
        match normalized(base, hrefs.last()) {
            Some(a) => if accepts(a, scope) && !known(before, a.text) {
                before.push(a)
            } else {
                before
            },
            None => before,
        }
    }
}

/// The filter accepts every candidate, and no two candidates have the same text.
pub proof fn lemma_candidates(base: Seq<char>, hrefs: Seq<Seq<char>>, scope: Seq<char>)
    ensures
        distinct(collect(base, hrefs, scope)),
        forall|i: int|
            0 <= i < collect(base, hrefs, scope).len() ==> accepts(
                #[trigger] collect(base, hrefs, scope)[i],
                scope,
            ) && collect(base, hrefs, scope)[i].domain is Some,
    decreases hrefs.len(),
{
    if hrefs.len() > 0 {
        lemma_candidates(base, hrefs.drop_last(), scope);
        let before = collect(base, hrefs.drop_last(), scope);
        let all = collect(base, hrefs, scope);
        assert forall|i: int, j: int| 0 <= i < j < all.len() implies all[i].text
            != all[j].text by {
            if j == before.len() {
                assert(before[i].text != all[j].text);
            }
        }
    }
}

/// Keeps the values that are there.
pub fn present_values(values: Vec<Option<String>>) -> (r: Vec<String>)
    ensures
        texts(r@) == present(values_of(values@)),
{
    let mut r: Vec<String> = Vec::new();
    let mut values = values;
    let ghost all = values_of(values@);
    let mut i: usize = 0;
    assert(all.take(0) =~= Seq::empty());
    assert(texts(r@) =~= Seq::empty());
    while i < values.len()
        invariant
            i <= values@.len(),
            values@.len() == all.len(),
            forall|j: int| i <= j < values@.len() ==> text_of(#[trigger] values@[j]) == all[j],
            texts(r@) == present(all.take(i as int)),
        decreases values@.len() - i,
    {
        let mut value: Option<String> = None;
        std::mem::swap(&mut value, &mut values[i]);
        assert(all.take(i + 1).drop_last() =~= all.take(i as int));
        assert(all.take(i + 1).last() == all[i as int]);
        match value {
            Some(v) => {
                assert(texts(r@.push(v)) =~= texts(r@).push(v@));
                r.push(v);
            },
            None => {},
        }
        i += 1;
    }
    assert(all.take(all.len() as int) =~= all);
    r
}

/// The hyperlink references of `page`; `None` where the anchor selector does not compile.
pub fn links(page: &str) -> (r: Option<Vec<String>>)
    ensures
        r is Some <==> selector_valid(ANCHOR@),
        r matches Some(v) ==> texts(v@) == hrefs_of(page@),
{
    match select_attributes(page, ANCHOR, HREF) {
        Some(values) => Some(present_values(values)),
        None => None,
    }
}

/// Tells whether the anchor selector compiles.
pub fn selector_compiles() -> (r: bool)
    ensures
        r == selector_valid(ANCHOR@),
{
    select_attributes("", ANCHOR, HREF).is_some()
}

/// The candidates among `hrefs`, found on a page at `base`, in a crawl bounded by `scope`.
pub fn candidates(base: &Address, hrefs: &Vec<String>, scope: &str) -> (r: Vec<Address>)
    ensures
        views(r@) == collect(base@.text, texts(hrefs@), scope@),
        forall|i: int| 0 <= i < r@.len() ==> (#[trigger] views(r@)[i]).is_normal(),
{
    let mut r: Vec<Address> = Vec::new();
    let ghost all = texts(hrefs@);
    let mut i: usize = 0;
    assert(all.take(0) =~= Seq::empty());
    assert(views(r@) =~= Seq::empty());
    while i < hrefs.len()
        invariant
            i <= hrefs@.len(),
            all == texts(hrefs@),
            views(r@) == collect(base@.text, all.take(i as int), scope@),
            forall|j: int| 0 <= j < r@.len() ==> (#[trigger] views(r@)[j]).is_normal(),
        decreases hrefs@.len() - i,
    {
        assert(all.take(i + 1).drop_last() =~= all.take(i as int));
        assert(all.take(i + 1).last() == hrefs@[i as int]@);
        match into_mit(base, hrefs[i].as_str()) {
            Some(a) => {
                if filter(&a, scope) && !holds(&r, &a) {
                    assert(views(r@.push(a)) =~= views(r@).push(a@));
                    r.push(a);
                }
            },
            None => {},
        }
        i += 1;
    }
    assert(all.take(all.len() as int) =~= all);
    r
}

} // verus!
