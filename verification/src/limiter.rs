//! The rate limiter: how often each domain has been scheduled in this run.

use vstd::prelude::*;

verus! {

/// A domain is admitted as long as its counter has not gone past this.
pub const DOMAIN_LIMIT: usize = 200;

/// The counter of `domain` in `counters`: zero where the domain has none yet.
pub open spec fn tally(counters: Map<Seq<char>, nat>, domain: Seq<char>) -> nat {
    if counters.dom().contains(domain) {
        counters[domain]
    } else {
        0
    }
}

/// The limiter lets `domain` through.
pub open spec fn admits(counters: Map<Seq<char>, nat>, domain: Seq<char>) -> bool {
    tally(counters, domain) <= DOMAIN_LIMIT
}

/// The counters once `domain` has asked for admission: one more for it where it was let
/// through, nothing changed where it was not.
pub open spec fn admitted(counters: Map<Seq<char>, nat>, domain: Seq<char>) -> Map<
    Seq<char>,
    nat,
> {
    if admits(counters, domain) {
        counters.insert(domain, tally(counters, domain) + 1)
    } else {
        counters
    }
}

/// No counter has gone past the limit by more than the one admission that takes it there.
pub open spec fn bounded(counters: Map<Seq<char>, nat>) -> bool {
    forall|domain: Seq<char>| #[trigger] tally(counters, domain) <= DOMAIN_LIMIT + 1
}

/// Asking for admission keeps the counters bounded.
pub proof fn lemma_admitted_bounded(counters: Map<Seq<char>, nat>, domain: Seq<char>)
    requires
        bounded(counters),
    ensures
        bounded(admitted(counters, domain)),
{
    assert forall|other: Seq<char>| #[trigger]
        tally(admitted(counters, domain), other) <= DOMAIN_LIMIT + 1 by {
        assert(tally(counters, other) <= DOMAIN_LIMIT + 1);
    }
}

/// The counters of the domains seen so far.
pub struct DomainCounters {
    domains: Vec<String>,
    counts: Vec<usize>,
}

impl DomainCounters {
    /// `domain` has a counter, and it is the one at `i`.
    spec fn at(&self, domain: Seq<char>, i: int) -> bool {
        0 <= i < self.domains@.len() && self.domains@[i]@ == domain
    }

    /// Where the counter of `domain` stands.
    spec fn slot(&self, domain: Seq<char>) -> int {
        choose|i: int| self.at(domain, i)
    }

    /// Each domain has one counter, and the counters are bounded.
    pub closed spec fn wf(&self) -> bool {
        &&& self.domains@.len() == self.counts@.len()
        &&& forall|i: int, j: int|
            0 <= i < j < self.domains@.len() ==> self.domains@[i]@ != self.domains@[j]@
        &&& forall|i: int| 0 <= i < self.counts@.len() ==> self.counts@[i] <= DOMAIN_LIMIT + 1
    }

    /// A well-formed limiter holds bounded counters.
    pub proof fn lemma_bounded(&self)
        requires
            self.wf(),
        ensures
            bounded(self@),
    {
        assert forall|domain: Seq<char>| #[trigger] tally(self@, domain) <= DOMAIN_LIMIT + 1 by {
            if self@.dom().contains(domain) {
                assert(self.at(domain, self.slot(domain)));
            }
        }
    }

    /// A limiter that has seen no domain.
    pub fn new() -> (r: Self)
        ensures
            r.wf(),
            r@ == Map::<Seq<char>, nat>::empty(),
    {
        let r = DomainCounters { domains: Vec::new(), counts: Vec::new() };
        assert(r@ =~= Map::<Seq<char>, nat>::empty());
        r
    }

    /// Where the counter of `domain` stands, if it has one.
    fn find(&self, domain: &String) -> (r: Option<usize>)
        requires
            self.wf(),
        ensures
            match r {
                Some(i) => self.at(domain@, i as int),
                None => !self@.dom().contains(domain@),
            },
    {
        let mut i: usize = 0;
        while i < self.domains.len()
            invariant
                i <= self.domains@.len(),
                forall|j: int| 0 <= j < i ==> !self.at(domain@, j),
            decreases self.domains@.len() - i,
        {
            if self.domains[i] == *domain {
                return Some(i);
            }
            i += 1;
        }
        None
    }

    /// The counter of `domain`.
    pub fn count(&self, domain: &str) -> (r: usize)
        requires
            self.wf(),
        ensures
            r == tally(self@, domain@),
    {
        let key = domain.to_owned();
        match self.find(&key) {
            Some(i) => {
                assert(self.at(domain@, self.slot(domain@)));
                self.counts[i]
            },
            None => 0,
        }
    }

    /// Asks for the admission of `domain`: it is let through unless its counter has gone past
    /// the limit, and each admission counts.
    pub fn schedule(&mut self, domain: &str) -> (r: bool)
        requires
            old(self).wf(),
        ensures
            final(self).wf(),
            r == admits(old(self)@, domain@),
            final(self)@ == admitted(old(self)@, domain@),
    {
        let key = domain.to_owned();
        match self.find(&key) {
            Some(i) => {
                assert(self.at(domain@, self.slot(domain@)));
                let count = self.counts[i];
                if count > DOMAIN_LIMIT {
                    return false;
                }
                self.counts.set(i, count + 1);
                proof {
                    assert forall|d: Seq<char>, j: int| self.at(d, j) == old(self).at(d, j) by {}
                    assert forall|d: Seq<char>| #[trigger]
                        self@.dom().contains(d) implies self@[d] == admitted(
                        old(self)@,
                        domain@,
                    )[d] by {
                        assert(self.at(d, self.slot(d)));
                        assert(old(self).at(d, old(self).slot(d)));
                    }
                    assert(self@ =~= admitted(old(self)@, domain@));
                }
                true
            },
            None => {
                self.domains.push(key);
                self.counts.push(1);
                proof {
                    let n = old(self).domains@.len() as int;
                    assert(self.at(domain@, n));
                    assert forall|i: int| 0 <= i < n implies old(self).domains@[i]@ != domain@ by {
                        if old(self).domains@[i]@ == domain@ {
                            assert(old(self).at(domain@, i));
                            assert(old(self)@.dom().contains(domain@));
                        }
                    }
                    assert forall|d: Seq<char>| #[trigger]
                        self@.dom().contains(d) implies admitted(
                        old(self)@,
                        domain@,
                    ).dom().contains(d) && self@[d] == admitted(old(self)@, domain@)[d] by {
                        let j = self.slot(d);
                        assert(self.at(d, j));
                        if j < n {
                            assert(old(self).at(d, j));
                            assert(old(self).at(d, old(self).slot(d)));
                        }
                    }
                    assert forall|d: Seq<char>| #[trigger]
                        admitted(old(self)@, domain@).dom().contains(d) implies self@.dom().contains(
                        d,
                    ) by {
                        if d != domain@ {
                            let j = old(self).slot(d);
                            assert(old(self).at(d, j));
                            assert(self.at(d, j));
                        }
                    }
                    assert(self@ =~= admitted(old(self)@, domain@));
                }
                true
            },
        }
    }
}

impl View for DomainCounters {
    type V = Map<Seq<char>, nat>;

    closed spec fn view(&self) -> Map<Seq<char>, nat> {
        Map::new(
            |domain: Seq<char>| exists|i: int| self.at(domain, i),
            |domain: Seq<char>| self.counts@[self.slot(domain)] as nat,
        )
    }
}

} // verus!
