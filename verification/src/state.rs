//! The state of a crawl and what a cycle makes of it, over plain values; and what holds of every
//! run of cycles.

use crate::address::{distinct, known, AddressView};
use crate::error::CrawlError;
use crate::filter::{accepts, in_scope};
use crate::limiter::{admits, admitted, bounded, lemma_admitted_bounded, tally, DOMAIN_LIMIT};
use crate::page::{collect, hrefs_of, lemma_candidates};
use crate::redirect::{distinct_redirects, with_redirect, RedirectView};
use vstd::prelude::*;

verus! {

/// What a fetch brought: the address at which it ended and the text of the page.
pub struct PageView {
    pub destination: AddressView,
    pub body: Seq<char>,
}

/// The counts of a cycle that ran to its end.
pub struct ReportView {
    pub new_links: nat,
    pub candidates: nat,
}

/// The state of a crawl.
pub struct CrawlState {
    /// The suffix that bounds the hosts of the crawl.
    pub scope: Seq<char>,
    /// The frontier: the addresses that wait for a fetch. The next one is the last.
    pub queue: Seq<AddressView>,
    /// The addresses that a cycle has put on the frontier, in the order in which it did.
    pub searched: Seq<AddressView>,
    /// The domains of the links that were let through, each once.
    pub found: Seq<Seq<char>>,
    /// The redirects that were seen, each once.
    pub redirects: Seq<RedirectView>,
    /// How often each domain was scheduled.
    pub searches: Map<Seq<char>, nat>,
}

/// How many addresses of `list` are under `domain`.
pub open spec fn under(list: Seq<AddressView>, domain: Seq<char>) -> nat
    decreases list.len(),
{
    if list.len() == 0 {
        0
    } else if list.last().domain == Some(domain) {
        under(list.drop_last(), domain) + 1
    } else {
        under(list.drop_last(), domain)
    }
}

/// `found` with `domain` in it.
pub open spec fn with_domain(found: Seq<Seq<char>>, domain: Seq<char>) -> Seq<Seq<char>> {
    if found.contains(domain) {
        found
    } else {
        found.push(domain)
    }
}

impl CrawlState {
    /// The state in which a crawl starts: the seeds on the frontier, and nothing else.
    pub open spec fn start(roots: Seq<AddressView>, scope: Seq<char>) -> CrawlState {
        CrawlState {
            scope,
            queue: roots,
            searched: Seq::empty(),
            found: Seq::empty(),
            redirects: Seq::empty(),
            searches: Map::empty(),
        }
    }

    /// What holds of the state of every crawl: the sets hold nothing twice, no counter has gone
    /// past the limit by more than one, and no more addresses under a domain were put on the
    /// frontier than the domain's counter says.
    pub open spec fn wf(self) -> bool {
        &&& distinct(self.searched)
        &&& self.found.no_duplicates()
        &&& distinct_redirects(self.redirects)
        &&& bounded(self.searches)
        &&& forall|domain: Seq<char>| #[trigger]
            under(self.searched, domain) <= tally(self.searches, domain)
    }

    /// The state once the candidate `c`, which has a domain, was weighed: where the limiter
    /// declines its domain nothing changes; else the domain is counted and found, and `c` goes
    /// to the frontier if it was never there before.
    pub open spec fn weigh(self, c: AddressView) -> CrawlState
        recommends
            c.domain is Some,
    {
        let domain = c.domain.unwrap();
        if !admits(self.searches, domain) {
            self
        } else if known(self.searched, c.text) {
            CrawlState {
                searches: admitted(self.searches, domain),
                found: with_domain(self.found, domain),
                ..self
            }
        } else {
            CrawlState {
                searches: admitted(self.searches, domain),
                found: with_domain(self.found, domain),
                searched: self.searched.push(c),
                queue: self.queue.push(c),
                ..self
            }
        }
    }

    /// The state once `candidates` were weighed in turn, and whether they all were: the first
    /// candidate without a domain stops the work.
    pub open spec fn weigh_all(self, candidates: Seq<AddressView>) -> (CrawlState, bool)
        decreases candidates.len(),
    {
        if candidates.len() == 0 {
            (self, true)
        } else {
            let (before, done) = self.weigh_all(candidates.drop_last());
            if done && candidates.last().domain is Some {
                (before.weigh(candidates.last()), true)
            } else {
                (before, false)
            }
        }
    }

    /// The redirect policy on a fetch that was asked of `requested` and ended at `destination`:
    /// the state after it, and the address on which the page's links are to be resolved or
    /// the reason for which the page is not read.
    pub open spec fn receive(self, requested: AddressView, destination: AddressView) -> (
        CrawlState,
        Result<AddressView, CrawlError>,
    ) {
        if !accepts(destination, self.scope) {
            (self, Err(CrawlError::InvalidDestination))
        } else if destination.domain != requested.domain {
            let noted = CrawlState {
                redirects: with_redirect(
                    self.redirects,
                    RedirectView { from: requested, to: destination },
                ),
                ..self
            };
            if in_scope(requested.domain, self.scope) {
                (noted, Ok(destination))
            } else {
                (noted, Err(CrawlError::OutOfScopeRedirect))
            }
        } else {
            (self, Ok(requested))
        }
    }

    /// The state once `candidates` were weighed in turn, and the counts of the cycle: how many
    /// of them went to the frontier, and how many there were. A candidate without a domain
    /// fails the cycle, and what was weighed before it stays weighed.
    pub open spec fn enqueue(self, candidates: Seq<AddressView>) -> (
        CrawlState,
        Result<ReportView, CrawlError>,
    ) {
        let (after, done) = self.weigh_all(candidates);
        if done {
            (
                after,
                Ok(
                    ReportView {
                        new_links: (after.searched.len() - self.searched.len()) as nat,
                        candidates: candidates.len(),
                    },
                ),
            )
        } else {
            (after, Err(CrawlError::DomainExtractionFailure))
        }
    }

    /// The state once the references `hrefs`, found on a page at `base`, were gathered, and the
    /// counts of the cycle.
    pub open spec fn gather(self, base: AddressView, hrefs: Seq<Seq<char>>) -> (
        CrawlState,
        Result<ReportView, CrawlError>,
    ) {
        self.enqueue(collect(base.text, hrefs, self.scope))
    }

    /// One cycle: the last address leaves the frontier; `fetched` is what its fetch brought,
    /// `None` where it failed; the redirect policy decides whether the page is read; the
    /// page's links are gathered.
    pub open spec fn cycle(self, fetched: Option<PageView>) -> (
        CrawlState,
        Result<ReportView, CrawlError>,
    ) {
        if self.queue.len() == 0 {
            (self, Err(CrawlError::EmptyFrontier))
        } else {
            let requested = self.queue.last();
            let popped = CrawlState { queue: self.queue.drop_last(), ..self };
            match fetched {
                None => (popped, Err(CrawlError::TransportFailure)),
                Some(page) => {
                    let (noted, verdict) = popped.receive(requested, page.destination);
                    match verdict {
                        Ok(base) => noted.gather(base, hrefs_of(page.body)),
                        Err(e) => (noted, Err(e)),
                    }
                },
            }
        }
    }

    /// How many addresses of the frontier a cycle leaves where they are.
    pub open spec fn kept(self) -> int {
        if self.queue.len() == 0 {
            0
        } else {
            self.queue.len() - 1
        }
    }

    /// `after` comes from this state by pushes alone: the first `kept` addresses of the
    /// frontier are where they were, and what follows them is what was added to `searched`.
    pub open spec fn pushes_to(self, after: CrawlState, kept: int) -> bool {
        &&& after.scope == self.scope
        &&& self.searched.len() <= after.searched.len()
        &&& after.searched.take(self.searched.len() as int) == self.searched
        &&& after.queue == self.queue.take(kept) + after.searched.skip(self.searched.len() as int)
    }

    /// Nothing that this state holds is lost in `after`: the sets have grown at their ends, if
    /// at all, and no counter has gone down.
    pub open spec fn grows_to(self, after: CrawlState) -> bool {
        &&& after.scope == self.scope
        &&& self.searched.is_prefix_of(after.searched)
        &&& self.found.is_prefix_of(after.found)
        &&& self.redirects.is_prefix_of(after.redirects)
        &&& forall|domain: Seq<char>| #[trigger]
            tally(self.searches, domain) <= tally(after.searches, domain)
    }

    /// The state after a run of cycles, one for each of `fetches`.
    pub open spec fn run(self, fetches: Seq<Option<PageView>>) -> CrawlState
        decreases fetches.len(),
    {
        if fetches.len() == 0 {
            self
        } else {
            self.run(fetches.drop_last()).cycle(fetches.last()).0
        }
    }

    /// The addresses that the cycle for `fetched` pushes onto the frontier, in order.
    pub open spec fn pushed_by_cycle(self, fetched: Option<PageView>) -> Seq<AddressView> {
        self.cycle(fetched).0.queue.skip(self.kept())
    }

    /// The addresses that the cycles of a run push onto the frontier, in order.
    pub open spec fn pushed(self, fetches: Seq<Option<PageView>>) -> Seq<AddressView>
        decreases fetches.len(),
    {
        if fetches.len() == 0 {
            Seq::empty()
        } else {
            self.pushed(fetches.drop_last()) + self.run(fetches.drop_last()).pushed_by_cycle(
                fetches.last(),
            )
        }
    }
}

/// Counting under a domain goes through a push.
pub proof fn lemma_under_push(list: Seq<AddressView>, a: AddressView, domain: Seq<char>)
    ensures
        under(list.push(a), domain) == under(list, domain) + (if a.domain == Some(domain) {
            1nat
        } else {
            0nat
        }),
{
    assert(list.push(a).drop_last() =~= list);
}

/// Counting under a domain goes through a concatenation.
pub proof fn lemma_under_add(a: Seq<AddressView>, b: Seq<AddressView>, domain: Seq<char>)
    ensures
        under(a + b, domain) == under(a, domain) + under(b, domain),
    decreases b.len(),
{
    if b.len() == 0 {
        assert(a + b =~= a);
    } else {
        lemma_under_add(a, b.drop_last(), domain);
        assert((a + b).drop_last() =~= a + b.drop_last());
    }
}

/// Weighing a candidate keeps the state well-formed and changes the frontier by pushes alone.
pub proof fn lemma_weigh(s: CrawlState, c: AddressView)
    requires
        s.wf(),
        c.domain is Some,
    ensures
        s.weigh(c).wf(),
        s.pushes_to(s.weigh(c), s.queue.len() as int),
        s.weigh(c).redirects == s.redirects,
{
    let t = s.weigh(c);
    let domain = c.domain.unwrap();
    assert(s.queue.take(s.queue.len() as int) =~= s.queue);
    assert(s.searched.take(s.searched.len() as int) =~= s.searched);
    if !admits(s.searches, domain) {
        assert(t.queue =~= s.queue.take(s.queue.len() as int) + t.searched.skip(
            s.searched.len() as int,
        ));
    } else {
        lemma_admitted_bounded(s.searches, domain);
        assert forall|d: Seq<char>| #[trigger] under(t.searched, d) <= tally(t.searches, d) by {
            assert(under(s.searched, d) <= tally(s.searches, d));
            if !known(s.searched, c.text) {
                lemma_under_push(s.searched, c, d);
            }
        }
        if known(s.searched, c.text) {
            assert(t.queue =~= s.queue.take(s.queue.len() as int) + t.searched.skip(
                s.searched.len() as int,
            ));
        } else {
            assert(t.searched.take(s.searched.len() as int) =~= s.searched);
            assert(t.queue =~= s.queue.take(s.queue.len() as int) + t.searched.skip(
                s.searched.len() as int,
            ));
            assert forall|i: int, j: int| 0 <= i < j < t.searched.len() implies t.searched[i].text
                != t.searched[j].text by {
                if j == s.searched.len() {
                    assert(s.searched[i].text != c.text);
                }
            }
        }
    }
}

/// Pushes after pushes are pushes.
pub proof fn lemma_pushes_chain(s: CrawlState, t: CrawlState, u: CrawlState, kept: int)
    requires
        0 <= kept <= s.queue.len(),
        s.pushes_to(t, kept),
        t.pushes_to(u, t.queue.len() as int),
    ensures
        s.pushes_to(u, kept),
{
    assert(t.queue.take(t.queue.len() as int) =~= t.queue);
    assert(u.searched.take(s.searched.len() as int) =~= u.searched.take(
        t.searched.len() as int,
    ).take(s.searched.len() as int));
    assert(u.searched.skip(s.searched.len() as int) =~= t.searched.skip(s.searched.len() as int)
        + u.searched.skip(t.searched.len() as int)) by {
        let a = u.searched.skip(s.searched.len() as int);
        let b = t.searched.skip(s.searched.len() as int) + u.searched.skip(
            t.searched.len() as int,
        );
        assert(a.len() == b.len());
        assert forall|i: int| 0 <= i < a.len() implies a[i] == b[i] by {
            if i < t.searched.len() - s.searched.len() {
                assert(u.searched.take(t.searched.len() as int)[i + s.searched.len()]
                    == t.searched[i + s.searched.len()]);
            }
        }
    }
    assert(u.queue =~= s.queue.take(kept) + u.searched.skip(s.searched.len() as int));
}

/// Weighing candidates in turn keeps the state well-formed and changes the frontier by pushes
/// alone.
pub proof fn lemma_weigh_all(s: CrawlState, candidates: Seq<AddressView>)
    requires
        s.wf(),
    ensures
        s.weigh_all(candidates).0.wf(),
        s.pushes_to(s.weigh_all(candidates).0, s.queue.len() as int),
        s.weigh_all(candidates).0.redirects == s.redirects,
    decreases candidates.len(),
{
    if candidates.len() == 0 {
        assert(s.queue.take(s.queue.len() as int) =~= s.queue);
        assert(s.searched.take(s.searched.len() as int) =~= s.searched);
        assert(s.queue =~= s.queue.take(s.queue.len() as int) + s.searched.skip(
            s.searched.len() as int,
        ));
    } else {
        lemma_weigh_all(s, candidates.drop_last());
        let (before, done) = s.weigh_all(candidates.drop_last());
        if done && candidates.last().domain is Some {
            lemma_weigh(before, candidates.last());
            lemma_pushes_chain(s, before, before.weigh(candidates.last()), s.queue.len() as int);
        }
    }
}

/// A cycle keeps the state well-formed; it takes at most the last address off the frontier, and
/// what it pushes onto the frontier is what it adds to `searched`.
pub proof fn lemma_cycle(s: CrawlState, fetched: Option<PageView>)
    requires
        s.wf(),
    ensures
        s.cycle(fetched).0.wf(),
        s.pushes_to(s.cycle(fetched).0, s.kept()),
        s.cycle(fetched).0.searched == s.searched + s.pushed_by_cycle(fetched),
{
    let t = s.cycle(fetched).0;
    assert(s.searched.take(s.searched.len() as int) =~= s.searched);
    if s.queue.len() == 0 {
        assert(t.queue =~= s.queue.take(0) + t.searched.skip(s.searched.len() as int));
    } else {
        let requested = s.queue.last();
        let popped = CrawlState { queue: s.queue.drop_last(), ..s };
        assert(popped.queue =~= s.queue.take(s.kept()));
        assert(popped.wf());
        match fetched {
            None => {
                assert(t.queue =~= s.queue.take(s.kept()) + t.searched.skip(
                    s.searched.len() as int,
                ));
            },
            Some(page) => {
                let (noted, verdict) = popped.receive(requested, page.destination);
                assert(noted.wf()) by {
                    let r = RedirectView { from: requested, to: page.destination };
                    if noted.redirects != popped.redirects {
                        assert forall|i: int, j: int|
                            0 <= i < j < noted.redirects.len() implies !noted.redirects[i].same(
                            noted.redirects[j],
                        ) by {
                            if j == popped.redirects.len() {
                                assert(!popped.redirects[i].same(r));
                            }
                        }
                    }
                }
                match verdict {
                    Ok(base) => {
                        let candidates = collect(base.text, hrefs_of(page.body), noted.scope);
                        lemma_weigh_all(noted, candidates);
                        assert(noted.queue.take(noted.queue.len() as int) =~= noted.queue);
                    },
                    Err(e) => {
                        assert(t.queue =~= s.queue.take(s.kept()) + t.searched.skip(
                            s.searched.len() as int,
                        ));
                    },
                }
            },
        }
    }
    assert(t.queue.skip(s.kept()) =~= t.searched.skip(s.searched.len() as int));
    assert(t.searched =~= s.searched + s.pushed_by_cycle(fetched));
}

/// In every run of cycles, no address is pushed onto the frontier more than once, and none that
/// was pushed before the run: what the run pushes is what it adds to `searched`, which holds no
/// text twice.
pub proof fn lemma_pushed_once(s: CrawlState, fetches: Seq<Option<PageView>>)
    requires
        s.wf(),
    ensures
        s.run(fetches).wf(),
        s.run(fetches).searched == s.searched + s.pushed(fetches),
        distinct(s.searched + s.pushed(fetches)),
        distinct(s.pushed(fetches)),
        forall|i: int|
            0 <= i < s.pushed(fetches).len() ==> !known(
                s.searched,
                (#[trigger] s.pushed(fetches)[i]).text,
            ),
    decreases fetches.len(),
{
    if fetches.len() == 0 {
        assert(s.searched + s.pushed(fetches) =~= s.searched);
    } else {
        lemma_pushed_once(s, fetches.drop_last());
        let before = s.run(fetches.drop_last());
        lemma_cycle(before, fetches.last());
        assert(s.run(fetches).searched =~= s.searched + s.pushed(fetches));
    }
    let all = s.searched + s.pushed(fetches);
    let n = s.searched.len() as int;
    assert forall|i: int, j: int| 0 <= i < j < s.pushed(fetches).len() implies s.pushed(
        fetches,
    )[i].text != s.pushed(fetches)[j].text by {
        assert(all[n + i].text != all[n + j].text);
    }
    assert forall|i: int| 0 <= i < s.pushed(fetches).len() implies !known(
        s.searched,
        (#[trigger] s.pushed(fetches)[i]).text,
    ) by {
        if known(s.searched, s.pushed(fetches)[i].text) {
            let k = choose|k: int|
                0 <= k < s.searched.len() && (#[trigger] s.searched[k]).text == s.pushed(
                    fetches,
                )[i].text;
            assert(all[k].text != all[n + i].text);
        }
    }
}

/// In every run of cycles, the addresses under one domain that are pushed onto the frontier
/// are no more than the admissions that the domain's counter has counted, and the counter
/// stops one past the limit.
pub proof fn lemma_rate_limit(s: CrawlState, fetches: Seq<Option<PageView>>, domain: Seq<char>)
    requires
        s.wf(),
    ensures
        under(s.searched, domain) + under(s.pushed(fetches), domain) <= tally(
            s.run(fetches).searches,
            domain,
        ),
        tally(s.run(fetches).searches, domain) <= DOMAIN_LIMIT + 1,
        under(s.pushed(fetches), domain) <= DOMAIN_LIMIT + 1,
{
    lemma_pushed_once(s, fetches);
    lemma_under_add(s.searched, s.pushed(fetches), domain);
    let t = s.run(fetches);
    assert(under(t.searched, domain) <= tally(t.searches, domain));
    assert(tally(t.searches, domain) <= DOMAIN_LIMIT + 1);
}

/// Growth after growth is growth.
pub proof fn lemma_grows_chain(s: CrawlState, t: CrawlState, u: CrawlState)
    requires
        s.grows_to(t),
        t.grows_to(u),
    ensures
        s.grows_to(u),
{
    assert forall|domain: Seq<char>| #[trigger]
        tally(s.searches, domain) <= tally(u.searches, domain) by {
        assert(tally(s.searches, domain) <= tally(t.searches, domain));
        assert(tally(t.searches, domain) <= tally(u.searches, domain));
    }
}

/// Weighing candidates loses nothing.
pub proof fn lemma_weigh_all_grows(s: CrawlState, candidates: Seq<AddressView>)
    ensures
        s.grows_to(s.weigh_all(candidates).0),
    decreases candidates.len(),
{
    if candidates.len() > 0 {
        lemma_weigh_all_grows(s, candidates.drop_last());
        let (before, done) = s.weigh_all(candidates.drop_last());
        if done && candidates.last().domain is Some {
            assert(before.grows_to(before.weigh(candidates.last())));
            lemma_grows_chain(s, before, before.weigh(candidates.last()));
        }
    }
}

/// A cycle loses nothing but the address that it takes off the frontier: `searched`, `found`
/// and the redirects grow at their ends, if at all, and no counter goes down.
pub proof fn lemma_cycle_grows(s: CrawlState, fetched: Option<PageView>)
    ensures
        s.grows_to(s.cycle(fetched).0),
{
    if s.queue.len() > 0 {
        let popped = CrawlState { queue: s.queue.drop_last(), ..s };
        assert(s.grows_to(popped));
        if let Some(page) = fetched {
            let (noted, verdict) = popped.receive(s.queue.last(), page.destination);
            assert(popped.grows_to(noted));
            if let Ok(base) = verdict {
                lemma_weigh_all_grows(noted, collect(base.text, hrefs_of(page.body), noted.scope));
                lemma_grows_chain(popped, noted, s.cycle(fetched).0);
            }
            lemma_grows_chain(s, popped, s.cycle(fetched).0);
        }
    }
}

/// A run of cycles loses nothing but the addresses that it takes off the frontier.
pub proof fn lemma_run_grows(s: CrawlState, fetches: Seq<Option<PageView>>)
    ensures
        s.grows_to(s.run(fetches)),
    decreases fetches.len(),
{
    if fetches.len() > 0 {
        lemma_run_grows(s, fetches.drop_last());
        lemma_cycle_grows(s.run(fetches.drop_last()), fetches.last());
        lemma_grows_chain(s, s.run(fetches.drop_last()), s.run(fetches));
    }
}

/// Candidates that all have a domain are all weighed.
pub proof fn lemma_weigh_all_done(s: CrawlState, candidates: Seq<AddressView>)
    requires
        forall|i: int| 0 <= i < candidates.len() ==> (#[trigger] candidates[i]).domain is Some,
    ensures
        s.weigh_all(candidates).1,
    decreases candidates.len(),
{
    if candidates.len() > 0 {
        assert forall|i: int| 0 <= i < candidates.drop_last().len() implies (
        #[trigger] candidates.drop_last()[i]).domain is Some by {
            assert(candidates.drop_last()[i] == candidates[i]);
        }
        lemma_weigh_all_done(s, candidates.drop_last());
        assert(candidates.last() == candidates[candidates.len() - 1]);
    }
}

/// The filter lets no candidate through without a domain, so no cycle fails for want of one;
/// and no cycle fails for a pattern or a selector.
pub proof fn lemma_cycle_failures(s: CrawlState, fetched: Option<PageView>)
    ensures
        s.cycle(fetched).1 != Err::<ReportView, CrawlError>(CrawlError::DomainExtractionFailure),
        s.cycle(fetched).1 != Err::<ReportView, CrawlError>(CrawlError::Misconfigured),
{
    if s.queue.len() > 0 && fetched is Some {
        let page = fetched.unwrap();
        let popped = CrawlState { queue: s.queue.drop_last(), ..s };
        let (noted, verdict) = popped.receive(s.queue.last(), page.destination);
        if let Ok(base) = verdict {
            let candidates = collect(base.text, hrefs_of(page.body), noted.scope);
            lemma_candidates(base.text, hrefs_of(page.body), noted.scope);
            lemma_weigh_all_done(noted, candidates);
        }
    }
}

/// A crawl starts in a well-formed state.
pub proof fn lemma_start(roots: Seq<AddressView>, scope: Seq<char>)
    ensures
        CrawlState::start(roots, scope).wf(),
{
}

/// Once a candidate without a domain has stopped the work, more candidates change nothing.
pub proof fn lemma_weigh_all_stops(s: CrawlState, candidates: Seq<AddressView>, n: int)
    requires
        0 <= n <= candidates.len(),
        !s.weigh_all(candidates.take(n)).1,
    ensures
        s.weigh_all(candidates) == s.weigh_all(candidates.take(n)),
    decreases candidates.len() - n,
{
    if n == candidates.len() {
        assert(candidates.take(n) =~= candidates);
    } else {
        assert(candidates.take(n + 1).drop_last() =~= candidates.take(n));
        lemma_weigh_all_stops(s, candidates, n + 1);
    }
}

/// A cycle on an empty frontier fails and changes nothing.
pub proof fn lemma_empty_frontier(s: CrawlState, fetched: Option<PageView>)
    requires
        s.queue.len() == 0,
    ensures
        s.cycle(fetched) == (s, Err::<ReportView, CrawlError>(CrawlError::EmptyFrontier)),
{
}

} // verus!
