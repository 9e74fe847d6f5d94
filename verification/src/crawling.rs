use vstd::prelude::*;

use crate::fetching::UrlState;

verus! {

/// How many workers a crawl runs with by default.
pub const DEFAULT_WORKERS: usize = 10;

/// The shared coordination state of one crawl: the pending queue of raw URL
/// strings awaiting a claim, the set of raw URL strings already claimed for
/// processing, and the count of workers currently between a claim and its
/// published outcome. Callers that share one `Coordinator` between workers
/// must serialize each method call (one mutual-exclusion region per call);
/// each method is a single atomic compound step of the coordination protocol.
pub struct Coordinator {
    pending: Vec<String>,
    visited: Vec<String>,
    in_flight: usize,
    workers: usize,
}

impl Coordinator {
    /// The queue of raw URL strings awaiting a claim, oldest first.
    pub closed spec fn pending_view(&self) -> Seq<Seq<char>> {
        self.pending.deep_view()
    }

    /// The raw URL strings claimed so far, in claim order.
    pub closed spec fn visited_view(&self) -> Seq<Seq<char>> {
        self.visited.deep_view()
    }

    /// The set of raw URL strings claimed so far.
    pub open spec fn visited_set(&self) -> Set<Seq<char>> {
        self.visited_view().to_set()
    }

    /// How many workers currently hold a claimed URL.
    pub closed spec fn in_flight_count(&self) -> nat {
        self.in_flight as nat
    }

    /// The size of the worker pool this coordinator serves.
    pub closed spec fn worker_count(&self) -> nat {
        self.workers as nat
    }

    /// The coordinator's invariant: the in-flight count never exceeds the
    /// pool size, and no URL is recorded as visited twice.
    pub open spec fn wf(&self) -> bool {
        &&& self.in_flight_count() <= self.worker_count()
        &&& self.visited_view().no_duplicates()
    }

    /// A claim of `url` succeeds exactly when no earlier claim of it did.
    pub open spec fn claim_is_fresh(&self, url: Seq<char>) -> bool {
        !self.visited_set().contains(url)
    }

    /// A fresh coordinator: nothing visited, nothing in flight, and the seed
    /// URL as the only pending entry.
    pub fn new(workers: usize, seed: String) -> (c: Coordinator)
        requires
            1 <= workers,
        ensures
            c.wf(),
            c.pending_view() =~= seq![seed@],
            c.visited_view() =~= Seq::<Seq<char>>::empty(),
            c.in_flight_count() == 0,
            c.worker_count() == workers,
    {
        let mut pending: Vec<String> = Vec::new();
        pending.push(seed);
        Coordinator { pending, visited: Vec::new(), in_flight: 0, workers }
    }

    /// Append one raw URL string to the pending queue. Never blocks, never
    /// fails, touches nothing else.
    pub fn enqueue(&mut self, url: String)
        requires
            old(self).wf(),
        ensures
            final(self).wf(),
            final(self).pending_view() =~= old(self).pending_view().push(url@),
            final(self).visited_view() == old(self).visited_view(),
            final(self).in_flight_count() == old(self).in_flight_count(),
            final(self).worker_count() == old(self).worker_count(),
    {
        self.pending.push(url);
    }

    /// Append every link of one expanded page to the pending queue, in order.
    pub fn enqueue_all(&mut self, urls: &Vec<String>)
        requires
            old(self).wf(),
        ensures
            final(self).wf(),
            final(self).pending_view() =~= old(self).pending_view() + urls.deep_view(),
            final(self).visited_view() == old(self).visited_view(),
            final(self).in_flight_count() == old(self).in_flight_count(),
            final(self).worker_count() == old(self).worker_count(),
    {
        let n = urls.len();
        let mut i: usize = 0;
        proof {
            assert(self.pending_view() + urls.deep_view().take(0) =~= self.pending_view());
        }
        while i < n
            invariant
                n == urls.len(),
                0 <= i <= n,
                self.wf(),
                self.pending_view() =~= old(self).pending_view() + urls.deep_view().take(i as int),
                self.visited_view() == old(self).visited_view(),
                self.in_flight_count() == old(self).in_flight_count(),
                self.worker_count() == old(self).worker_count(),
            decreases n - i,
        {
            let url = urls[i].clone();
            proof {
                assert(urls.deep_view()[i as int] == urls@[i as int]@);
                assert(url@ == urls.deep_view()[i as int]);
            }
            self.enqueue(url);
            proof {
                assert((old(self).pending_view() + urls.deep_view().take(i as int)).push(
                    urls.deep_view()[i as int],
                ) =~= old(self).pending_view() + urls.deep_view().take(i as int + 1));
            }
            i = i + 1;
        }
        proof {
            assert(urls.deep_view().take(n as int) =~= urls.deep_view());
        }
    }

    /// One atomic claim step: remove one entry from the pending queue and, in
    /// the same step, mark the claiming worker in flight. Returns nothing when
    /// the queue is empty at the instant of the call, leaving everything
    /// unchanged. Claim and in-flight mark are indivisible here, so no
    /// observer can see the queue empty while a removed entry is not yet
    /// counted.
    pub fn try_claim(&mut self) -> (r: Option<String>)
        requires
            old(self).wf(),
            old(self).in_flight_count() < old(self).worker_count(),
        ensures
            final(self).wf(),
            final(self).worker_count() == old(self).worker_count(),
            final(self).visited_view() == old(self).visited_view(),
            old(self).pending_view().len() == 0 ==> {
                &&& r is None
                &&& final(self).pending_view() == old(self).pending_view()
                &&& final(self).in_flight_count() == old(self).in_flight_count()
            },
            old(self).pending_view().len() > 0 ==> {
                &&& r matches Some(u) && u@ == old(self).pending_view().last()
                &&& final(self).pending_view() =~= old(self).pending_view().drop_last()
                &&& final(self).in_flight_count() == old(self).in_flight_count() + 1
            },
    {
        match self.pending.pop() {
            Some(url) => {
                self.in_flight = self.in_flight + 1;
                Some(url)
            },
            None => None,
        }
    }

    /// One atomic dedup step: test whether `url` was ever claimed before and,
    /// if not, record it, all as one critical section. Returns true exactly
    /// when this call was the first to claim `url`.
    pub fn check_and_mark_visited(&mut self, url: &String) -> (fresh: bool)
        requires
            old(self).wf(),
        ensures
            final(self).wf(),
            fresh == old(self).claim_is_fresh(url@),
            fresh ==> final(self).visited_view() =~= old(self).visited_view().push(url@),
            !fresh ==> final(self).visited_view() == old(self).visited_view(),
            final(self).visited_set() =~= old(self).visited_set().insert(url@),
            final(self).pending_view() == old(self).pending_view(),
            final(self).in_flight_count() == old(self).in_flight_count(),
            final(self).worker_count() == old(self).worker_count(),
    {
        let n = self.visited.len();
        let mut i: usize = 0;
        while i < n
            invariant
                *self == *old(self),
                old(self).wf(),
                n == self.visited.len(),
                0 <= i <= n,
                forall|j: int| 0 <= j < i ==> self.visited.deep_view()[j] != url@,
            decreases n - i,
        {
            let hit = self.visited[i].eq(url);
            proof {
                assert(self.visited.deep_view()[i as int] == self.visited@[i as int]@);
            }
            if hit {
                proof {
                    assert(self.visited_view()[i as int] == url@);
                    assert(self.visited_set().contains(url@));
                    assert(self.visited_set().insert(url@) =~= self.visited_set());
                }
                return false;
            }
            i = i + 1;
        }
        proof {
            assert(forall|j: int| 0 <= j < self.visited_view().len()
                ==> self.visited_view()[j] != url@);
            if self.visited_view().contains(url@) {
                let j = choose|j: int| 0 <= j < self.visited_view().len()
                    && self.visited_view()[j] == url@;
                assert(false);
            }
        }
        let ghost pre = self.visited.deep_view();
        self.visited.push(url.clone());
        proof {
            broadcast use vstd::seq_lib::lemma_seq_contains_after_push;

            assert forall|j: int| 0 <= j < self.visited.deep_view().len() implies
                self.visited.deep_view()[j] == pre.push(url@)[j] by {
                assert(self.visited.deep_view()[j] == self.visited@[j]@);
                if j < pre.len() {
                    assert(self.visited@[j] == old(self).visited@[j]);
                    assert(pre[j] == old(self).visited@[j]@);
                }
            }
            assert(self.visited.deep_view() =~= pre.push(url@));
            assert forall|j: int, k: int|
                0 <= j < k < self.visited_view().len() implies
                self.visited_view()[j] != self.visited_view()[k] by {
                if k == pre.len() {
                    assert(self.visited_view()[j] == pre[j]);
                    assert(pre.contains(pre[j]));
                }
            }
            assert(self.visited_view().no_duplicates());
            Seq::lemma_push_to_set_commute(pre, url@);
            assert(self.visited_set() =~= pre.to_set().insert(url@));
        }
        true
    }

    /// One worker is done with its claimed URL: leave the in-flight state.
    /// The caller must publish the outcome before this decrement, so that an
    /// observer who sees the count at zero and the queue empty can rely on
    /// every outcome of a finished claim having been published already.
    pub fn mark_done(&mut self)
        requires
            old(self).wf(),
            old(self).in_flight_count() > 0,
        ensures
            final(self).wf(),
            final(self).in_flight_count() == old(self).in_flight_count() - 1,
            final(self).pending_view() == old(self).pending_view(),
            final(self).visited_view() == old(self).visited_view(),
            final(self).worker_count() == old(self).worker_count(),
    {
        self.in_flight = self.in_flight - 1;
    }

    /// The termination oracle: no worker holds a claimed URL. A caller that
    /// additionally observed an empty queue (a failed claim) may conclude the
    /// crawl is over: nobody is left who could enqueue more work.
    pub fn is_globally_done(&self) -> (r: bool)
        ensures
            r == (self.in_flight_count() == 0),
    {
        self.in_flight == 0
    }

    /// Whether the pending queue is empty at the instant of the call. An
    /// observer deciding on termination must see this true together with
    /// `is_globally_done` under one mutual-exclusion region.
    pub fn pending_is_empty(&self) -> (r: bool)
        ensures
            r == (self.pending_view().len() == 0),
    {
        self.pending.len() == 0
    }

    /// How many workers currently hold a claimed URL, for callers that must
    /// check the pool bound before a claim.
    pub fn current_in_flight(&self) -> (r: usize)
        ensures
            r == self.in_flight_count(),
    {
        self.in_flight
    }

    /// The size of the worker pool this coordinator serves.
    pub fn pool_size(&self) -> (r: usize)
        ensures
            r == self.worker_count(),
    {
        self.workers
    }
}

/// What a worker that failed to claim must do next: a worker that observes
/// work still in flight must retry, because an in-flight worker may yet
/// enqueue more; one that observes nothing in flight must exit, because
/// provably no producer is left that could enqueue further work. The result
/// stream ends on the identical predicate.
pub fn idle_worker_exits(in_flight: usize) -> (exit: bool)
    ensures
        exit == (in_flight == 0),
{
    in_flight == 0
}

/// A single crawl over one domain, consumed as a pull-based stream: each call
/// of `next` yields the outcome of one more URL, until no work remains
/// anywhere and the stream ends. One crawl produces one exhaustible stream.
pub struct Crawler {
    domain: String,
    coord: Coordinator,
}

impl Crawler {
    /// The crawl's target domain.
    pub closed spec fn domain_view(&self) -> Seq<char> {
        self.domain@
    }

    /// The crawl's coordination state.
    pub closed spec fn coord(&self) -> Coordinator {
        self.coord
    }

    /// Between two pulls nothing is claimed, and the coordination state is
    /// well formed with at least one worker.
    pub open spec fn wf(&self) -> bool {
        &&& self.coord().wf()
        &&& self.coord().in_flight_count() == 0
        &&& self.coord().worker_count() >= 1
    }

    /// Pull the next outcome: claim pending URLs until one is fresh, probe
    /// it, expand it if it calls for expansion, and publish its outcome; or
    /// end the stream once no pending entry is left. Every yielded outcome
    /// belongs to a URL claimed here for the first time — a URL is processed
    /// at most once per crawl — and an outcome that does not call for
    /// expansion never adds pending work.
    pub fn next(&mut self) -> (r: Option<UrlState>)
        requires
            old(self).wf(),
        ensures
            final(self).wf(),
            final(self).domain_view() == old(self).domain_view(),
            final(self).coord().worker_count() == old(self).coord().worker_count(),
            r is None ==> {
                &&& final(self).coord().pending_view().len() == 0
                &&& final(self).coord().visited_view() == old(self).coord().visited_view()
            },
            r is None ==> forall|i: int| 0 <= i < old(self).coord().pending_view().len()
                ==> old(self).coord().visited_set().contains(
                    #[trigger] old(self).coord().pending_view()[i],
                ),
            old(self).coord().pending_view().len() == 0 ==> r is None,
            r matches Some(st) ==> {
                &&& old(self).coord().pending_view().contains(crate::fetching::origin_of(st@))
                &&& !old(self).coord().visited_set().contains(crate::fetching::origin_of(st@))
                &&& final(self).coord().visited_view()
                    =~= old(self).coord().visited_view().push(crate::fetching::origin_of(st@))
                &&& crate::fetching::outcome_consistent(old(self).domain_view(), st@)
            },
            r matches Some(st) && !crate::fetching::should_expand_spec(old(self).domain_view(), st@)
                ==> exists|k: int|
                    0 <= k <= old(self).coord().pending_view().len()
                    && final(self).coord().pending_view()
                        =~= old(self).coord().pending_view().take(k),
    {
        let ghost pending0 = self.coord.pending_view();
        let ghost mut gk: int = pending0.len() as int;
        loop
            invariant
                self.coord.wf(),
                self.coord.in_flight_count() == 0,
                self.coord.worker_count() == old(self).coord().worker_count(),
                self.coord.worker_count() >= 1,
                self.domain == old(self).domain,
                self.coord.visited_view() == old(self).coord().visited_view(),
                0 <= gk <= pending0.len(),
                pending0 == old(self).coord().pending_view(),
                self.coord.pending_view() =~= pending0.take(gk),
                forall|i: int| gk <= i < pending0.len()
                    ==> old(self).coord().visited_set().contains(#[trigger] pending0[i]),
            decreases self.coord.pending_view().len(),
        {
            let claimed = self.coord.try_claim();
            match claimed {
                None => {
                    return None;
                },
                Some(current) => {
                    proof {
                        assert(current@ == pending0.take(gk).last());
                        assert(self.coord.pending_view() =~= pending0.take(gk).drop_last());
                        assert(pending0.take(gk).drop_last() =~= pending0.take(gk - 1));
                        gk = gk - 1;
                    }
                    let fresh = self.coord.check_and_mark_visited(&current);
                    if !fresh {
                        self.coord.mark_done();
                        proof {
                            assert(pending0[gk] == current@);
                        }
                    } else {
                        proof {
                            assert(pending0.contains(current@))
                                by { assert(pending0[gk] == current@); }
                        }
                        let (state, body) = crate::fetching::probe(
                            self.domain.as_str(),
                            current.as_str(),
                            current.as_str(),
                        );
                        proof {
                            crate::fetching::lemma_probe_post_consistent(
                                self.domain@,
                                current@,
                                state@,
                                body,
                            );
                        }
                        let expand = crate::fetching::should_expand(self.domain.as_str(), &state);
                        if expand {
                            if let Some(page_body) = body {
                                let links = crate::parsing::get_urls(page_body.as_str());
                                let mut i: usize = 0;
                                while i < links.len()
                                    invariant
                                        self.coord.wf(),
                                        self.coord.in_flight_count() == 1,
                                        self.coord.worker_count()
                                            == old(self).coord().worker_count(),
                                        self.coord.worker_count() >= 1,
                                        self.domain == old(self).domain,
                                        self.coord.visited_view()
                                            == old(self).coord().visited_view().push(current@),
                                        0 <= i <= links.len(),
                                    decreases links.len() - i,
                                {
                                    let link = links[i].clone();
                                    self.coord.enqueue(link);
                                    i = i + 1;
                                }
                            }
                        }
                        self.coord.mark_done();
                        return Some(state);
                    }
                },
            }
        }
    }
}

/// Start a crawl of `domain` from the seed `start_url`: the seed is the only
/// pending entry, nothing is visited, nothing is in flight, and the default
/// pool size bounds the in-flight count. Outcomes are then pulled one by one
/// from the returned stream.
pub fn crawl(domain: &str, start_url: &str) -> (c: Crawler)
    ensures
        c.wf(),
        c.domain_view() == domain@,
        c.coord().pending_view() =~= seq![start_url@],
        c.coord().visited_view() =~= Seq::<Seq<char>>::empty(),
        c.coord().in_flight_count() == 0,
        c.coord().worker_count() == DEFAULT_WORKERS,
    {
    let coord = Coordinator::new(DEFAULT_WORKERS, start_url.to_owned());
    Crawler { domain: domain.to_owned(), coord }
}

/// Dedup law: claims succeed at most once per URL string. Once some claim of
/// `url` has succeeded — so `url` is in the visited set — every later claim
/// of the same `url` fails, whatever enqueues, claims and completions happen
/// in between, because the visited set only ever grows (every method above
/// keeps or extends it). Of any number of claims of one URL, exactly the
/// first is fresh; all others observe it visited and do no further work.
pub proof fn lemma_claims_succeed_at_most_once(after_success: Coordinator, later: Coordinator, url: Seq<char>)
    requires
        after_success.visited_set().contains(url),
        after_success.visited_set().subset_of(later.visited_set()),
    ensures
        !later.claim_is_fresh(url),
{
}

} // verus!
