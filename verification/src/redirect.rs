//! Redirect records: a fetch that was asked of one domain and answered by another.

use crate::address::{Address, AddressView};
use vstd::prelude::*;
use vstd::string::StringExecFns;

verus! {

/// A redirect: the address that was asked for and the address that answered.
#[derive(Debug, PartialEq, Eq)]
pub struct Redirect {
    from: Address,
    to: Address,
}

/// What a `Redirect` holds, as plain values.
pub struct RedirectView {
    pub from: AddressView,
    pub to: AddressView,
}

impl RedirectView {
    /// Two records are the same one where they join the same two texts.
    pub open spec fn same(self, other: RedirectView) -> bool {
        self.from.text == other.from.text && self.to.text == other.to.text
    }

    /// The record in writing: both texts in angle brackets, an arrow between them.
    pub open spec fn text(self) -> Seq<char> {
        "<"@ + self.from.text + "> -> <"@ + self.to.text + ">"@
    }
}

/// The views of a list of records.
pub open spec fn records(list: Seq<Redirect>) -> Seq<RedirectView> {
    list.map_values(|r: Redirect| r@)
}

/// `redirects` holds the record `r`.
pub open spec fn recorded(redirects: Seq<RedirectView>, r: RedirectView) -> bool {
    exists|i: int| 0 <= i < redirects.len() && (#[trigger] redirects[i]).same(r)
}

/// `redirects` with the record `r` in it.
pub open spec fn with_redirect(redirects: Seq<RedirectView>, r: RedirectView) -> Seq<
    RedirectView,
> {
    if recorded(redirects, r) {
        redirects
    } else {
        redirects.push(r)
    }
}

/// No two records of `redirects` are the same one.
pub open spec fn distinct_redirects(redirects: Seq<RedirectView>) -> bool {
    forall|i: int, j: int| 0 <= i < j < redirects.len() ==> !redirects[i].same(redirects[j])
}

impl View for Redirect {
    type V = RedirectView;

    closed spec fn view(&self) -> RedirectView {
        RedirectView { from: self.from@, to: self.to@ }
    }
}

impl Clone for Redirect {
    fn clone(&self) -> (r: Self)
        ensures
            r@ == self@,
    {
        Redirect { from: self.from.clone(), to: self.to.clone() }
    }
}

impl Redirect {
    /// The record of a fetch asked of `from` and answered by `to`.
    pub fn new(from: Address, to: Address) -> (r: Self)
        ensures
            r@ == (RedirectView { from: from@, to: to@ }),
    {
        Redirect { from, to }
    }

    /// The address that was asked for.
    pub fn origin(&self) -> (r: &Address)
        ensures
            r@ == self@.from,
    {
        &self.from
    }

    /// The address that answered.
    pub fn destination(&self) -> (r: &Address)
        ensures
            r@ == self@.to,
    {
        &self.to
    }

    /// Tells whether two records are the same one.
    pub fn same(&self, other: &Redirect) -> (r: bool)
        ensures
            r == self@.same(other@),
    {
        self.from.same(&other.from) && self.to.same(&other.to)
    }

    /// The record in writing.
    pub fn to_text(&self) -> (r: String)
        ensures
            r@ == self@.text(),
    {
        let mut r = String::from_str("<");
        r.append(self.from.as_str());
        r.append("> -> <");
        r.append(self.to.as_str());
        r.append(">");
        r
    }
}

/// Tells whether `list` holds the record `r`.
pub fn holds_record(list: &Vec<Redirect>, r: &Redirect) -> (found: bool)
    ensures
        found == recorded(records(list@), r@),
{
    let mut i: usize = 0;
    while i < list.len()
        invariant
            i <= list@.len(),
            forall|j: int| 0 <= j < i ==> !(#[trigger] records(list@)[j]).same(r@),
        decreases list@.len() - i,
    {
        if list[i].same(r) {
            assert(records(list@)[i as int].same(r@));
            return true;
        }
        i += 1;
    }
    false
}

} // verus!
