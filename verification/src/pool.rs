//! Relay-pool bookkeeping: the registry of endpoints and the shape of a
//! broadcast's per-endpoint outcome report.
//!
//! The pool's sockets themselves live outside the library (opening one and
//! writing to one are I/O); the registry decides which endpoints exist,
//! enforces that no endpoint is ever registered twice, and pairs each
//! endpoint with its send outcome so that one relay's failure never
//! erases or reorders another's result.

use vstd::prelude::*;

verus! {

/// Registering an endpoint: a no-op when it is already present, an
/// append otherwise.
pub open spec fn register(s: Seq<Seq<char>>, e: Seq<char>) -> Seq<Seq<char>> {
    if s.contains(e) {
        s
    } else {
        s.push(e)
    }
}

/// No endpoint occurs twice.
pub open spec fn distinct(s: Seq<Seq<char>>) -> bool {
    forall|i: int, j: int| 0 <= i < j < s.len() ==> s[i] != s[j]
}

/// How many positions of `s` hold `e`.
pub open spec fn occurrences(s: Seq<Seq<char>>, e: Seq<char>) -> nat {
    s.filter(|x: Seq<char>| x == e).len()
}

/// The outcome of one relay's send attempt. A failure carries a transport
/// reason rendered by the caller; it affects that relay alone.
#[derive(Clone, Debug)]
pub enum SendOutcome {
    Sent,
    SendError(String),
}

/// One endpoint's entry in a broadcast report.
pub struct RelayOutcome {
    pub endpoint: String,
    pub outcome: SendOutcome,
}

/// The registry of relay endpoints, keyed by endpoint address, each
/// present at most once. Connections are opened by the caller exactly
/// when registration reports the endpoint as fresh, so one live
/// connection exists per registered endpoint.
pub struct RelayPool {
    endpoints: Vec<String>,
}

impl RelayPool {
    /// The registered endpoints, in registration order.
    pub closed spec fn view(&self) -> Seq<Seq<char>> {
        self.endpoints.deep_view()
    }

    /// No endpoint is registered twice.
    pub open spec fn wf(&self) -> bool {
        distinct(self@)
    }

    /// An empty pool.
    pub fn new() -> (r: RelayPool)
        ensures
            r@ == Seq::<Seq<char>>::empty(),
            r.wf(),
    {
        let r = RelayPool { endpoints: Vec::new() };
        proof {
            assert(r@ =~= Seq::<Seq<char>>::empty());
        }
        r
    }

    /// How many endpoints are registered.
    pub fn len(&self) -> (r: usize)
        ensures
            r == self@.len(),
    {
        self.endpoints.len()
    }

    /// Whether `url` is already registered.
    pub fn contains(&self, url: &String) -> (r: bool)
        ensures
            r == self@.contains(url@),
    {
        let mut i: usize = 0;
        while i < self.endpoints.len()
            invariant
                i <= self.endpoints@.len(),
                self@.len() == self.endpoints@.len(),
                forall|j: int| 0 <= j < i ==> self@[j] != url@,
            decreases self.endpoints@.len() - i,
        {
            if self.endpoints[i] == *url {
                assert(self@[i as int] == url@);
                return true;
            }
            assert(self@[i as int] == self.endpoints@[i as int]@);
            i += 1;
        }
        false
    }

    /// Register an endpoint if it is absent; report whether it was fresh.
    /// Idempotent: a second registration of the same endpoint leaves the
    /// registry unchanged, so no duplicate connection is ever opened.
    pub fn ensure_registered(&mut self, url: &String) -> (fresh: bool)
        requires
            old(self).wf(),
        ensures
            final(self)@ == register(old(self)@, url@),
            fresh == !old(self)@.contains(url@),
            final(self).wf(),
            occurrences(final(self)@, url@) == 1,
    {
        proof {
            lemma_register_idempotent(old(self)@, url@);
        }
        if self.contains(url) {
            return false;
        }
        let ghost pre = self@;
        self.endpoints.push(url.clone());
        proof {
            assert(self@ =~= pre.push(url@));
            assert forall|i: int, j: int| 0 <= i < j < self@.len() implies self@[i] != self@[j] by {
                if j < pre.len() {
                } else {
                    assert(self@[j] == url@);
                    assert(!pre.contains(url@));
                    assert(pre[i] != url@);
                }
            }
        }
        true
    }

    /// The registered endpoints, for a broadcast's fan-out.
    pub fn endpoints_snapshot(&self) -> (r: Vec<String>)
        ensures
            r.deep_view() == self@,
    {
        let mut out: Vec<String> = Vec::new();
        let mut i: usize = 0;
        while i < self.endpoints.len()
            invariant
                i <= self.endpoints@.len(),
                self@.len() == self.endpoints@.len(),
                out@.len() == i,
                forall|j: int| 0 <= j < i ==> #[trigger] out@[j]@ == self@[j],
            decreases self.endpoints@.len() - i,
        {
            out.push(self.endpoints[i].clone());
            i += 1;
        }
        proof {
            assert(out.deep_view() =~= self@);
        }
        out
    }
}

/// Registration is idempotent, and under a duplicate-free registry an
/// endpoint registered once — or twice, from two racing callers whose
/// registrations the registry lock serialises — is present exactly once.
pub proof fn lemma_register_idempotent(s: Seq<Seq<char>>, e: Seq<char>)
    requires
        distinct(s),
    ensures
        register(register(s, e), e) == register(s, e),
        occurrences(register(s, e), e) == 1,
        distinct(register(s, e)),
{
    let r = register(s, e);
    assert(r.contains(e)) by {
        if !s.contains(e) {
            assert(r[s.len() as int] == e);
        }
    }
    if !s.contains(e) {
        assert forall|i: int, j: int| 0 <= i < j < r.len() implies r[i] != r[j] by {
            if j < s.len() {
            } else {
                assert(r[j] == e && r[i] == s[i]);
            }
        }
    }
    lemma_occurrences_distinct(r, e);
}

/// In a duplicate-free sequence, a contained element occurs exactly once.
proof fn lemma_occurrences_distinct(s: Seq<Seq<char>>, e: Seq<char>)
    requires
        distinct(s),
        s.contains(e),
    ensures
        occurrences(s, e) == 1,
    decreases s.len(),
{
    if s.len() > 0 {
        let prefix = s.drop_last();
        reveal_with_fuel(Seq::filter, 2);
        if s.last() == e {
            assert(!prefix.contains(e)) by {
                if prefix.contains(e) {
                    let i = choose|i: int| 0 <= i < prefix.len() && prefix[i] == e;
                    assert(s[i] == e && s[s.len() - 1] == e);
                }
            }
            lemma_occurrences_absent(prefix, e);
        } else {
            assert(prefix.contains(e)) by {
                let i = choose|i: int| 0 <= i < s.len() && s[i] == e;
                assert(prefix[i] == e);
            }
            lemma_occurrences_distinct(prefix, e);
        }
    }
}

/// An element not contained in a sequence occurs zero times.
proof fn lemma_occurrences_absent(s: Seq<Seq<char>>, e: Seq<char>)
    requires
        !s.contains(e),
    ensures
        occurrences(s, e) == 0,
    decreases s.len(),
{
    reveal_with_fuel(Seq::filter, 2);
    if s.len() > 0 {
        assert(s.last() != e);
        assert(!s.drop_last().contains(e)) by {
            if s.drop_last().contains(e) {
                let i = choose|i: int| 0 <= i < s.drop_last().len() && s.drop_last()[i] == e;
                assert(s[i] == e);
            }
        }
        lemma_occurrences_absent(s.drop_last(), e);
    }
}

/// Pair every endpoint of a fan-out with its own outcome. The report is
/// complete — one entry per endpoint, in order — whatever mix of
/// successes and failures came back: no failure aborts, drops or delays
/// the rest of the report.
pub fn broadcast_report(endpoints: Vec<String>, outcomes: Vec<SendOutcome>) -> (r: Vec<
    RelayOutcome,
>)
    requires
        endpoints@.len() == outcomes@.len(),
    ensures
        r@.len() == endpoints@.len(),
        forall|i: int|
            0 <= i < r@.len() ==> #[trigger] r@[i].endpoint@ == endpoints@[i]@ && r@[i].outcome
                == outcomes@[i],
{
    let ghost eview = endpoints@;
    let ghost oview = outcomes@;
    let mut rem_endpoints = endpoints;
    let mut rem_outcomes = outcomes;
    let mut r: Vec<RelayOutcome> = Vec::new();
    while rem_endpoints.len() != 0
        invariant
            rem_endpoints@.len() == rem_outcomes@.len(),
            rem_endpoints@ =~= eview.skip(r@.len() as int),
            rem_outcomes@ =~= oview.skip(r@.len() as int),
            r@.len() <= eview.len(),
            eview.len() == oview.len(),
            forall|i: int|
                0 <= i < r@.len() ==> #[trigger] r@[i].endpoint@ == eview[i]@ && r@[i].outcome
                    == oview[i],
        decreases rem_endpoints@.len(),
    {
        let endpoint = rem_endpoints.remove(0);
        let outcome = rem_outcomes.remove(0);
        let ghost k = r@.len() as int;
        proof {
            assert(eview.skip(k)[0] == eview[k]);
            assert(oview.skip(k)[0] == oview[k]);
            assert(eview.skip(k).skip(1) =~= eview.skip(k + 1));
            assert(oview.skip(k).skip(1) =~= oview.skip(k + 1));
        }
        r.push(RelayOutcome { endpoint, outcome });
    }
    proof {
        assert(r@.len() == eview.len());
        assert(forall|i: int|
            0 <= i < r@.len() ==> #[trigger] r@[i].endpoint@ == eview[i]@ && r@[i].outcome
                == oview[i]);
        assert(eview == endpoints@);
    }
    r
}

} // verus!
