//! The crawl engine: it owns the frontier and the sets of a crawl and runs one discovery cycle
//! at a time.
//!
//! The engine fetches nothing. Whoever drives it asks `upcoming` for the address whose turn it
//! is, fetches it, and hands what the fetch brought to `execute`.

use crate::address::{holds, views, Address, AddressView};
use crate::error::CrawlError;
use crate::filter::{blocklist_compiles, filter, regex_valid, within, BLOCKLIST};
use crate::limiter::{tally, DomainCounters};
use crate::page::{candidates, hrefs_of, links, selector_compiles, selector_valid, ANCHOR};
use crate::redirect::{holds_record, records, Redirect};
use crate::state::{lemma_weigh, lemma_weigh_all_stops, CrawlState, PageView, ReportView};
use crate::text::{holds_text, texts};
use std::collections::VecDeque;
use vstd::prelude::*;

verus! {

/// The suffix that bounds a crawl for which none is given.
pub const SCOPE: &'static str = ".mit.edu";

/// What a fetch brought: the address at which it ended, redirects followed, and the text of
/// the page.
pub struct Page {
    pub destination: Address,
    pub body: String,
}

impl View for Page {
    type V = PageView;

    open spec fn view(&self) -> PageView {
        PageView { destination: self.destination@, body: self.body@ }
    }
}

/// The counts of a cycle that ran to its end: how many links went to the frontier, out of how
/// many candidates.
#[derive(Clone, Copy, Debug, PartialEq, Eq)]
pub struct CycleReport {
    pub new_links: usize,
    pub candidates: usize,
}

impl View for CycleReport {
    type V = ReportView;

    open spec fn view(&self) -> ReportView {
        ReportView { new_links: self.new_links as nat, candidates: self.candidates as nat }
    }
}

/// The view of what a fetch brought, `None` for a fetch that failed.
pub open spec fn page_of(fetched: Option<Page>) -> Option<PageView> {
    match fetched {
        Some(page) => Some(page@),
        None => None,
    }
}

/// The view of a cycle's result.
pub open spec fn report_of(r: Result<CycleReport, CrawlError>) -> Result<ReportView, CrawlError> {
    match r {
        Ok(report) => Ok(report@),
        Err(e) => Err(e),
    }
}

/// The view of the redirect policy's verdict.
pub open spec fn base_of(r: Result<Address, CrawlError>) -> Result<AddressView, CrawlError> {
    match r {
        Ok(base) => Ok(base@),
        Err(e) => Err(e),
    }
}

/// The views of a list of fetches.
pub open spec fn pages_of(fetches: Seq<Option<Page>>) -> Seq<Option<PageView>> {
    fetches.map_values(|f: Option<Page>| page_of(f))
}

/// The crawl engine.
pub struct Seeker {
    scope: String,
    found: Vec<String>,
    redirects: Vec<Redirect>,
    searched: Vec<Address>,
    queue: VecDeque<Address>,
    searches: DomainCounters,
}

impl View for Seeker {
    type V = CrawlState;

    closed spec fn view(&self) -> CrawlState {
        CrawlState {
            scope: self.scope@,
            queue: views(self.queue@),
            searched: views(self.searched@),
            found: texts(self.found@),
            redirects: records(self.redirects@),
            searches: self.searches@,
        }
    }
}

impl Seeker {
    /// The engine holds a well-formed state, and its anchor selector compiled when it was made.
    pub closed spec fn wf(&self) -> bool {
        &&& self@.wf()
        &&& self.searches.wf()
        &&& selector_valid(ANCHOR@)
    }

    /// What `wf` says of the state.
    pub proof fn lemma_wf(&self)
        requires
            self.wf(),
        ensures
            self@.wf(),
            selector_valid(ANCHOR@),
    {
    }

    /// An engine for a crawl that starts at `roots` and stays within `SCOPE`. It fails, with
    /// `Misconfigured`, exactly where the blocklist pattern or the anchor selector does not
    /// compile.
    pub fn new(roots: VecDeque<Address>) -> (r: Result<Seeker, CrawlError>)
        ensures
            r is Ok <==> regex_valid(BLOCKLIST@) && selector_valid(ANCHOR@),
            r matches Ok(s) ==> s.wf() && s@ == CrawlState::start(views(roots@), SCOPE@),
            r matches Err(e) ==> e == CrawlError::Misconfigured,
    {
        Seeker::with_scope(roots, SCOPE)
    }

    /// An engine for a crawl that starts at `roots` and stays within the hosts that hold the
    /// suffix `scope`. It fails, with `Misconfigured`, exactly where the blocklist pattern or
    /// the anchor selector does not compile.
    pub fn with_scope(roots: VecDeque<Address>, scope: &str) -> (r: Result<Seeker, CrawlError>)
        ensures
            r is Ok <==> regex_valid(BLOCKLIST@) && selector_valid(ANCHOR@),
            r matches Ok(s) ==> s.wf() && s@ == CrawlState::start(views(roots@), scope@),
            r matches Err(e) ==> e == CrawlError::Misconfigured,
    {
        if !blocklist_compiles() || !selector_compiles() {
            return Err(CrawlError::Misconfigured);
        }
        let s = Seeker {
            scope: scope.to_owned(),
            found: Vec::new(),
            redirects: Vec::new(),
            searched: Vec::new(),
            queue: roots,
            searches: DomainCounters::new(),
        };
        assert(s@.searched =~= Seq::empty());
        assert(s@.found =~= Seq::empty());
        assert(s@.redirects =~= Seq::empty());
        assert(s@ == CrawlState::start(views(roots@), scope@));
        Ok(s)
    }

    /// The suffix that bounds the crawl.
    pub fn scope(&self) -> (r: &str)
        ensures
            r@ == self@.scope,
    {
        self.scope.as_str()
    }

    /// The domains of the links that were let through, each once.
    pub fn found(&self) -> (r: &Vec<String>)
        ensures
            texts(r@) == self@.found,
    {
        &self.found
    }

    /// The addresses that a cycle has put on the frontier, each once.
    pub fn searched(&self) -> (r: &Vec<Address>)
        ensures
            views(r@) == self@.searched,
    {
        &self.searched
    }

    /// The frontier.
    pub fn queue(&self) -> (r: &VecDeque<Address>)
        ensures
            views(r@) == self@.queue,
    {
        &self.queue
    }

    /// The redirects that were seen, each once.
    pub fn redirects(&self) -> (r: &Vec<Redirect>)
        ensures
            records(r@) == self@.redirects,
    {
        &self.redirects
    }

    /// How often `domain` was scheduled.
    pub fn visits(&self, domain: &str) -> (r: usize)
        requires
            self.wf(),
        ensures
            r == tally(self@.searches, domain@),
    {
        self.searches.count(domain)
    }

    /// The address whose turn it is: the last of the frontier.
    pub fn upcoming(&self) -> (r: Option<&Address>)
        ensures
            r is Some <==> self@.queue.len() > 0,
            r matches Some(a) ==> a@ == self@.queue.last(),
    {
        let n = self.queue.len();
        if n == 0 {
            None
        } else {
            Some(&self.queue[n - 1])
        }
    }

    /// Applies the redirect policy to a fetch that was asked of `requested` and ended at
    /// `destination`. A destination that the filter turns away fails the cycle. A destination
    /// under another domain is recorded as a redirect; it then becomes the base on which the
    /// page's links are resolved, unless `requested` lies outside the scope, which fails the
    /// cycle. Else the base is `requested`.
    pub fn receive(&mut self, requested: &Address, destination: &Address) -> (r: Result<
        Address,
        CrawlError,
    >)
        requires
            old(self).wf(),
        ensures
            final(self).wf(),
            (final(self)@, base_of(r)) == old(self)@.receive(requested@, destination@),
    {
        if !filter(destination, self.scope.as_str()) {
            return Err(CrawlError::InvalidDestination);
        }
        if destination.same_domain(requested) {
            return Ok(requested.clone());
        }
        let record = Redirect::new(requested.clone(), destination.clone());
        if !holds_record(&self.redirects, &record) {
            proof {
                let before = records(self.redirects@);
                let after = records(self.redirects@.push(record));
                assert(after =~= before.push(record@));
                assert forall|i: int, j: int| 0 <= i < j < after.len() implies !after[i].same(
                    after[j],
                ) by {
                    if j == before.len() {
                        assert(!before[i].same(record@));
                    }
                }
            }
            self.redirects.push(record);
        }
        if within(requested, self.scope.as_str()) {
            Ok(destination.clone())
        } else {
            Err(CrawlError::OutOfScopeRedirect)
        }
    }

    /// Weighs the candidate `c`, whose domain is `domain`, and tells whether it went to the
    /// frontier.
    fn weigh(&mut self, c: &Address, domain: &str) -> (fresh: bool)
        requires
            old(self).wf(),
            c@.domain == Some(domain@),
        ensures
            final(self).wf(),
            final(self)@ == old(self)@.weigh(c@),
            fresh == (final(self)@.searched.len() == old(self)@.searched.len() + 1),
            !fresh ==> final(self)@.searched.len() == old(self)@.searched.len(),
    {
        proof {
            lemma_weigh(self@, c@);
        }
        if !self.searches.schedule(domain) {
            return false;
        }
        let key = domain.to_owned();
        if !holds_text(&self.found, &key) {
            assert(texts(self.found@.push(key)) =~= texts(self.found@).push(key@));
            self.found.push(key);
        }
        if holds(&self.searched, c) {
            return false;
        }
        let a = c.clone();
        let b = c.clone();
        assert(views(self.searched@.push(a)) =~= views(self.searched@).push(a@));
        assert(views(self.queue@.push(b)) =~= views(self.queue@).push(b@));
        self.searched.push(a);
        self.queue.push_back(b);
        true
    }

    /// Weighs `candidates` in turn: each asks the limiter for its domain; one that is let
    /// through has its domain found and goes to the frontier if it was never there before. A
    /// candidate without a domain fails the cycle with `DomainExtractionFailure`, and what was
    /// weighed before it stays weighed.
    pub fn enqueue(&mut self, candidates: &Vec<Address>) -> (r: Result<CycleReport, CrawlError>)
        requires
            old(self).wf(),
        ensures
            final(self).wf(),
            (final(self)@, report_of(r)) == old(self)@.enqueue(views(candidates@)),
    {
        let ghost all = views(candidates@);
        let mut new_links: usize = 0;
        let mut i: usize = 0;
        assert(all.take(0) =~= Seq::empty());
        while i < candidates.len()
            invariant
                i <= candidates@.len(),
                all == views(candidates@),
                self.wf(),
                old(self)@.weigh_all(all.take(i as int)) == (self@, true),
                new_links <= i,
                self@.searched.len() == old(self)@.searched.len() + new_links,
            decreases candidates@.len() - i,
        {
            assert(all.take(i + 1).drop_last() =~= all.take(i as int));
            assert(all.take(i + 1).last() == candidates@[i as int]@);
            let c = &candidates[i];
            match c.domain() {
                Some(domain) => {
                    if self.weigh(c, domain) {
                        new_links += 1;
                    }
                },
                None => {
                    proof {
                        lemma_weigh_all_stops(old(self)@, all, i + 1);
                    }
                    return Err(CrawlError::DomainExtractionFailure);
                },
            }
            i += 1;
        }
        assert(all.take(all.len() as int) =~= all);
        Ok(CycleReport { new_links, candidates: candidates.len() })
    }

    /// Gathers the links of the page `body`, found at `base`: the candidates among its
    /// hyperlink references are weighed in turn.
    pub fn gather(&mut self, base: &Address, body: &str) -> (r: Result<CycleReport, CrawlError>)
        requires
            old(self).wf(),
        ensures
            final(self).wf(),
            (final(self)@, report_of(r)) == old(self)@.gather(base@, hrefs_of(body@)),
    {
        match links(body) {
            Some(hrefs) => {
                let list = candidates(base, &hrefs, self.scope.as_str());
                self.enqueue(&list)
            },
            // The selector compiled when the engine was made.
            None => Err(CrawlError::Misconfigured),
        }
    }

    /// Runs one cycle. The last address of the frontier leaves it; `fetched` is what its fetch
    /// brought, `None` where the fetch failed on both transports. The redirect policy decides
    /// whether the page is read, and the links of a page that is read are gathered.
    pub fn execute(&mut self, fetched: Option<Page>) -> (r: Result<CycleReport, CrawlError>)
        requires
            old(self).wf(),
        ensures
            final(self).wf(),
            (final(self)@, report_of(r)) == old(self)@.cycle(page_of(fetched)),
    {
        let requested = match self.queue.pop_back() {
            Some(a) => a,
            None => {
                return Err(CrawlError::EmptyFrontier);
            },
        };
        assert(views(self.queue@) =~= old(self)@.queue.drop_last());
        assert(requested@ == old(self)@.queue.last());
        let page = match fetched {
            Some(page) => page,
            None => {
                return Err(CrawlError::TransportFailure);
            },
        };
        let base = match self.receive(&requested, &page.destination) {
            Ok(base) => base,
            Err(e) => {
                return Err(e);
            },
        };
        self.gather(&base, page.body.as_str())
    }

    /// Runs a recorded crawl: an engine made for `roots` and `scope` runs one cycle for each of
    /// `fetches`, in turn. Hands out the engine as the last cycle leaves it, and what each
    /// cycle returned.
    pub fn replay(roots: VecDeque<Address>, scope: &str, fetches: Vec<Option<Page>>) -> (r: Result<
        (Seeker, Vec<Result<CycleReport, CrawlError>>),
        CrawlError,
    >)
        ensures
            r is Ok <==> regex_valid(BLOCKLIST@) && selector_valid(ANCHOR@),
            r matches Err(e) ==> e == CrawlError::Misconfigured,
            r matches Ok((s, results)) ==> {
                let start = CrawlState::start(views(roots@), scope@);
                let pages = pages_of(fetches@);
                &&& s.wf()
                &&& s@ == start.run(pages)
                &&& results@.len() == pages.len()
                &&& forall|i: int|
                    0 <= i < pages.len() ==> report_of(#[trigger] results@[i]) == start.run(
                        pages.take(i),
                    ).cycle(pages[i]).1
            },
    {
        let mut s = match Seeker::with_scope(roots, scope) {
            Ok(s) => s,
            Err(e) => {
                return Err(e);
            },
        };
        let ghost start = s@;
        let ghost pages = pages_of(fetches@);
        let mut fetches = fetches;
        let mut results: Vec<Result<CycleReport, CrawlError>> = Vec::new();
        let mut i: usize = 0;
        assert(pages.take(0) =~= Seq::empty());
        while i < fetches.len()
            invariant
                i <= fetches@.len(),
                fetches@.len() == pages.len(),
                forall|j: int| i <= j < fetches@.len() ==> page_of(#[trigger] fetches@[j]) == pages[j],
                s.wf(),
                s@ == start.run(pages.take(i as int)),
                results@.len() == i,
                forall|j: int|
                    0 <= j < i ==> report_of(#[trigger] results@[j]) == start.run(
                        pages.take(j),
                    ).cycle(pages[j]).1,
            decreases fetches@.len() - i,
        {
            let mut fetched: Option<Page> = None;
            std::mem::swap(&mut fetched, &mut fetches[i]);
            assert(pages.take(i + 1).drop_last() =~= pages.take(i as int));
            assert(pages.take(i + 1).last() == pages[i as int]);
            let result = s.execute(fetched);
            results.push(result);
            i += 1;
        }
        assert(pages.take(pages.len() as int) =~= pages);
        Ok((s, results))
    }
}

} // verus!
