use vstd::prelude::*;

use crate::crawling::Coordinator;
use crate::fetching::OutcomeRepr;
use crate::fetching::UrlState;
use crate::fetching::is_in_domain;
use crate::fetching::is_success_status;
use crate::fetching::origin_of;
use crate::fetching::resolved_url_of;
use crate::fetching::should_expand_spec;
use crate::parsing::links_of;

verus! {

/// One page of a finite site model: its HTTP status code and its body text.
pub struct Page {
    pub status: u16,
    pub body: String,
}

/// The mathematical shape of a page: the status and the body's characters.
pub struct PageModel {
    pub status: u16,
    pub body: Seq<char>,
}

impl View for Page {
    type V = PageModel;

    open spec fn view(&self) -> PageModel {
        PageModel { status: self.status, body: self.body@ }
    }
}

/// A finite site model: pages keyed by their absolute URL string. A URL with
/// no entry stands for a host that cannot be reached. The crawl engine runs
/// against such a model exactly as it runs against the live network, with the
/// model answering in place of the network.
pub struct SiteGraph {
    pub pages: Vec<(String, Page)>,
}

/// The page stored under `url`: the first entry whose key equals it.
pub open spec fn lookup_page(entries: Seq<(String, Page)>, url: Seq<char>) -> Option<PageModel>
    decreases entries.len(),
{
    if entries.len() == 0 {
        None
    } else if entries[0].0@ == url {
        Some(entries[0].1@)
    } else {
        lookup_page(entries.drop_first(), url)
    }
}

/// The outcome the crawl owes one raw URL string under a site model: exactly
/// one of `Malformed` (it does not resolve), `ConnectionFailed` (no page under
/// the resolved URL), `Accessible` (a page with a success status) or
/// `BadStatus` (a page with any other status).
pub open spec fn graph_outcome(
    domain: Seq<char>,
    entries: Seq<(String, Page)>,
    raw: Seq<char>,
) -> OutcomeRepr {
    match resolved_url_of(domain, raw) {
        None => OutcomeRepr::Malformed(raw, raw),
        Some(u) => match lookup_page(entries, u) {
            None => OutcomeRepr::ConnectionFailed(raw, u),
            Some(p) => if is_success_status(p.status) {
                OutcomeRepr::Accessible(raw, u)
            } else {
                OutcomeRepr::BadStatus(raw, u, p.status)
            },
        },
    }
}

/// Whether the crawl expands the page behind `raw`: only an accessible page
/// whose resolved URL lies in the target domain.
pub open spec fn graph_expands(
    domain: Seq<char>,
    entries: Seq<(String, Page)>,
    raw: Seq<char>,
) -> bool {
    should_expand_spec(domain, graph_outcome(domain, entries, raw))
}

/// The raw link strings the page behind `raw` contributes when expanded.
pub open spec fn graph_links(
    domain: Seq<char>,
    entries: Seq<(String, Page)>,
    raw: Seq<char>,
) -> Seq<Seq<char>> {
    links_of(lookup_page(entries, resolved_url_of(domain, raw).unwrap()).unwrap().body)
}

/// Every raw string any page of the model can ever contribute as a link.
pub open spec fn all_links(entries: Seq<(String, Page)>) -> Set<Seq<char>>
    decreases entries.len(),
{
    if entries.len() == 0 {
        Set::empty()
    } else {
        links_of(entries[0].1@.body).to_set().union(all_links(entries.drop_first()))
    }
}

/// Every raw string a crawl from `seed` can ever enqueue: the seed itself and
/// any link of any page.
pub open spec fn enqueueable(seed: Seq<char>, entries: Seq<(String, Page)>) -> Set<Seq<char>> {
    all_links(entries).insert(seed)
}

/// The origin references of a sequence of outcomes, in publication order.
pub open spec fn subjects(outs: Seq<UrlState>) -> Seq<Seq<char>> {
    Seq::new(outs.len(), |i: int| origin_of(outs[i]@))
}

proof fn lemma_all_links_finite(entries: Seq<(String, Page)>)
    ensures
        all_links(entries).finite(),
    decreases entries.len(),
{
    broadcast use vstd::seq_lib::seq_to_set_is_finite;

    if entries.len() > 0 {
        lemma_all_links_finite(entries.drop_first());
    }
}

proof fn lemma_lookup_links_in_all(entries: Seq<(String, Page)>, url: Seq<char>)
    requires
        lookup_page(entries, url) is Some,
    ensures
        links_of(lookup_page(entries, url).unwrap().body).to_set().subset_of(all_links(entries)),
    decreases entries.len(),
{
    if entries.len() > 0 && !(entries[0].0@ == url) {
        lemma_lookup_links_in_all(entries.drop_first(), url);
    }
}

proof fn lemma_contains_drop_last<A>(s: Seq<A>, x: A)
    requires
        s.len() > 0,
        s.contains(x),
    ensures
        s.drop_last().contains(x) || x == s.last(),
{
    let i = choose|i: int| 0 <= i < s.len() && s[i] == x;
    if i < s.len() - 1 {
        assert(s.drop_last()[i] == x);
    }
}

proof fn lemma_contains_concat<A>(a: Seq<A>, b: Seq<A>, x: A)
    ensures
        (a + b).contains(x) <==> a.contains(x) || b.contains(x),
{
    if (a + b).contains(x) {
        let i = choose|i: int| 0 <= i < (a + b).len() && (a + b)[i] == x;
        if i < a.len() {
            assert(a[i] == x);
        } else {
            assert(b[i - a.len()] == x);
        }
    }
    if a.contains(x) {
        let i = choose|i: int| 0 <= i < a.len() && a[i] == x;
        assert((a + b)[i] == x);
    }
    if b.contains(x) {
        let i = choose|i: int| 0 <= i < b.len() && b[i] == x;
        assert((a + b)[a.len() + i] == x);
    }
}

impl SiteGraph {
    /// Find the page stored under `url`, if any.
    pub fn lookup(&self, url: &String) -> (r: Option<&Page>)
        ensures
            r matches Some(p) ==> lookup_page(self.pages@, url@) == Some(p@),
            r is None ==> lookup_page(self.pages@, url@) is None,
    {
        let n = self.pages.len();
        let mut i: usize = 0;
        proof {
            assert(self.pages@.skip(0) =~= self.pages@);
        }
        while i < n
            invariant
                n == self.pages.len(),
                0 <= i <= n,
                lookup_page(self.pages@.skip(i as int), url@) == lookup_page(self.pages@, url@),
            decreases n - i,
        {
            proof {
                assert(self.pages@.skip(i as int)[0] == self.pages@[i as int]);
            }
            if self.pages[i].0.eq(url) {
                return Some(&self.pages[i].1);
            }
            proof {
                assert(self.pages@.skip(i as int).drop_first() =~= self.pages@.skip(i as int + 1));
            }
            i = i + 1;
        }
        proof {
            assert(self.pages@.skip(n as int).len() == 0);
        }
        None
    }
}

/// Probe one raw URL string against a site model: resolve it, look the
/// resolved URL up, classify, and hand back the links its page contributes —
/// which are none unless the outcome calls for expansion. The model stands in
/// for the network; resolution and link extraction are the real ones.
pub fn probe_graph(domain: &str, raw: &String, graph: &SiteGraph) -> (r: (UrlState, Vec<String>))
    ensures
        r.0@ == graph_outcome(domain@, graph.pages@, raw@),
        origin_of(r.0@) == raw@,
        graph_expands(domain@, graph.pages@, raw@) ==> r.1.deep_view()
            == graph_links(domain@, graph.pages@, raw@),
        !graph_expands(domain@, graph.pages@, raw@) ==> r.1.deep_view().len() == 0,
{
    match crate::fetching::build_url(domain, raw.as_str()) {
        None => (UrlState::Malformed(raw.clone(), raw.clone()), Vec::new()),
        Some(u) => {
            match graph.lookup(&u) {
                None => (UrlState::ConnectionFailed(raw.clone(), u), Vec::new()),
                Some(p) => {
                    if 200 <= p.status && p.status <= 299 {
                        let links = if is_in_domain(domain, u.as_str()) {
                            crate::parsing::get_urls(p.body.as_str())
                        } else {
                            Vec::new()
                        };
                        (UrlState::Accessible(raw.clone(), u), links)
                    } else {
                        (UrlState::BadStatus(raw.clone(), u, p.status), Vec::new())
                    }
                },
            }
        },
    }
}


/// Crawl a finite site model from `seed`, staying within `domain`. This is
/// the crawl engine run to completion with the model answering in place of
/// the network: exactly one outcome per distinct raw URL string the crawl
/// ever enqueues — the seed, and every link of every expanded page — each
/// being the outcome the model owes that string. No string is reported
/// twice; every link of every expanded page is reported; nothing is reported
/// that is not the seed or a link of an expanded in-domain page; and the
/// loop's decreases measure shows the crawl halts on every finite model.
#[verifier::rlimit(60)]
pub fn crawl_graph(domain: &str, seed: &str, graph: &SiteGraph) -> (outs: Vec<UrlState>)
    ensures
        subjects(outs@).no_duplicates(),
        subjects(outs@).contains(seed@),
        forall|i: int| 0 <= i < outs@.len() ==> (#[trigger] outs@[i])@
            == graph_outcome(domain@, graph.pages@, origin_of(outs@[i]@)),
        forall|i: int, j: int|
            #![trigger graph_links(domain@, graph.pages@, origin_of(outs@[i]@))[j]]
            (0 <= i < outs@.len()
                && graph_expands(domain@, graph.pages@, origin_of(outs@[i]@))
                && 0 <= j < graph_links(domain@, graph.pages@, origin_of(outs@[i]@)).len())
            ==> subjects(outs@).contains(
                graph_links(domain@, graph.pages@, origin_of(outs@[i]@))[j]),
        forall|i: int| 0 <= i < outs@.len() ==> origin_of((#[trigger] outs@[i])@) == seed@
            || exists|k: int| 0 <= k < outs@.len()
                && graph_expands(domain@, graph.pages@, origin_of(#[trigger] outs@[k]@))
                && graph_links(domain@, graph.pages@, origin_of(outs@[k]@)).contains(
                    origin_of(outs@[i]@)),
{
    let mut outs: Vec<UrlState> = Vec::new();
    let mut coord = Coordinator::new(1, seed.to_owned());
    let ghost entries = graph.pages@;
    let ghost poss = enqueueable(seed@, entries);
    proof {
        lemma_all_links_finite(entries);
        assert(coord.pending_view()[0] == seed@);
        assert(coord.pending_view().contains(seed@));
        assert(subjects(outs@) =~= Seq::<Seq<char>>::empty());
    }
    loop
        invariant
            coord.wf(),
            coord.in_flight_count() == 0,
            coord.worker_count() == 1,
            entries == graph.pages@,
            poss == enqueueable(seed@, entries),
            poss.finite(),
            coord.visited_view() == subjects(outs@),
            forall|x: Seq<char>| #[trigger] coord.pending_view().contains(x) ==> poss.contains(x),
            coord.visited_set().subset_of(poss),
            coord.pending_view().contains(seed@) || coord.visited_set().contains(seed@),
            forall|i: int| 0 <= i < outs@.len() ==> (#[trigger] outs@[i])@
                == graph_outcome(domain@, entries, origin_of(outs@[i]@)),
            forall|i: int, j: int|
                #![trigger graph_links(domain@, entries, origin_of(outs@[i]@))[j]]
                (0 <= i < outs@.len()
                    && graph_expands(domain@, entries, origin_of(outs@[i]@))
                    && 0 <= j < graph_links(domain@, entries, origin_of(outs@[i]@)).len())
                ==> {
                    let l = graph_links(domain@, entries, origin_of(outs@[i]@))[j];
                    coord.pending_view().contains(l) || coord.visited_set().contains(l)
                },
            forall|x: Seq<char>| #[trigger] coord.pending_view().contains(x) ==> x == seed@
                || exists|k: int| 0 <= k < outs@.len()
                    && graph_expands(domain@, entries, origin_of(#[trigger] outs@[k]@))
                    && graph_links(domain@, entries, origin_of(outs@[k]@)).contains(x),
            forall|i: int| 0 <= i < outs@.len() ==> origin_of((#[trigger] outs@[i])@) == seed@
                || exists|k: int| 0 <= k < outs@.len()
                    && graph_expands(domain@, entries, origin_of(#[trigger] outs@[k]@))
                    && graph_links(domain@, entries, origin_of(outs@[k]@)).contains(
                        origin_of(outs@[i]@)),
        decreases poss.difference(coord.visited_set()).len(), coord.pending_view().len(),
    {
        let ghost qpre = coord.pending_view();
        let ghost vpre = coord.visited_set();
        let claimed = coord.try_claim();
        match claimed {
            None => {
                proof {
                    assert(coord.pending_view().len() == 0);
                    assert(!coord.pending_view().contains(seed@));
                    assert(coord.visited_set().contains(seed@));
                    assert(subjects(outs@).contains(seed@));
                    assert forall|i: int, j: int|
                        #![trigger graph_links(domain@, entries, origin_of(outs@[i]@))[j]]
                        (0 <= i < outs@.len()
                            && graph_expands(domain@, entries, origin_of(outs@[i]@))
                            && 0 <= j < graph_links(
                                domain@,
                                entries,
                                origin_of(outs@[i]@),
                            ).len()) implies subjects(outs@).contains(
                        graph_links(domain@, entries, origin_of(outs@[i]@))[j],
                    ) by {
                        let l = graph_links(domain@, entries, origin_of(outs@[i]@))[j];
                        assert(coord.pending_view().contains(l)
                            || coord.visited_set().contains(l));
                        assert(coord.visited_view().contains(l));
                    }
                }
                return outs;
            },
            Some(current) => {
                proof {
                    assert(qpre[qpre.len() - 1] == qpre.last());
                    assert(qpre.contains(current@));
                    assert(poss.contains(current@));
                }
                let fresh = coord.check_and_mark_visited(&current);
                if !fresh {
                    coord.mark_done();
                    proof {
                        assert(coord.visited_set() =~= vpre.insert(current@));
                        assert(vpre.insert(current@) =~= vpre);
                        assert(coord.visited_set() == vpre);
                        assert(coord.pending_view() == qpre.drop_last());
                        assert forall|x: Seq<char>| #[trigger] coord.pending_view().contains(x)
                            implies qpre.contains(x) by {
                            let i = choose|i: int| 0 <= i < coord.pending_view().len()
                                && coord.pending_view()[i] == x;
                            assert(qpre[i] == x);
                        }
                        if qpre.contains(seed@) {
                            lemma_contains_drop_last(qpre, seed@);
                        }
                        assert forall|i: int, j: int|
                            #![trigger graph_links(domain@, entries, origin_of(outs@[i]@))[j]]
                            (0 <= i < outs@.len()
                                && graph_expands(domain@, entries, origin_of(outs@[i]@))
                                && 0 <= j < graph_links(
                                    domain@,
                                    entries,
                                    origin_of(outs@[i]@),
                                ).len()) implies {
                            let l = graph_links(domain@, entries, origin_of(outs@[i]@))[j];
                            coord.pending_view().contains(l) || coord.visited_set().contains(l)
                        } by {
                            let l = graph_links(domain@, entries, origin_of(outs@[i]@))[j];
                            if qpre.contains(l) {
                                lemma_contains_drop_last(qpre, l);
                            }
                        }
                        assert(poss.difference(coord.visited_set()).len()
                            == poss.difference(vpre).len());
                    }
                } else {
                    let (state, links) = probe_graph(domain, &current, graph);
                    coord.enqueue_all(&links);
                    coord.mark_done();
                    let ghost outs_pre = outs@;
                    outs.push(state);
                    proof {
                        let ghost linkseq = links.deep_view();
                        let ghost qmid = qpre.drop_last();
                        assert(coord.pending_view() == qmid + linkseq);
                        assert(coord.visited_set() =~= vpre.insert(current@));
                        assert(outs@ == outs_pre.push(state));
                        assert(origin_of(state@) == current@);

                        // the new outcome list matches the new visited list
                        assert forall|i: int| 0 <= i < subjects(outs@).len() implies
                            subjects(outs@)[i] == coord.visited_view()[i] by {
                            if i < outs_pre.len() {
                                assert(outs@[i] == outs_pre[i]);
                                assert(subjects(outs_pre)[i] == origin_of(outs_pre[i]@));
                            }
                        }
                        assert(coord.visited_view() =~= subjects(outs@));

                        // every link the page contributed is an enqueueable string
                        if graph_expands(domain@, entries, current@) {
                            let u = resolved_url_of(domain@, current@).unwrap();
                            lemma_lookup_links_in_all(entries, u);
                            assert(linkseq == graph_links(domain@, entries, current@));
                            assert forall|x: Seq<char>| #[trigger] linkseq.contains(x) implies
                                poss.contains(x) by {
                                assert(links_of(lookup_page(entries, u).unwrap().body).to_set()
                                    .contains(x));
                                assert(all_links(entries).contains(x));
                            }
                        } else {
                            assert(linkseq.len() == 0);
                        }

                        assert forall|x: Seq<char>| #[trigger] coord.pending_view().contains(x)
                            implies poss.contains(x) by {
                            lemma_contains_concat(qmid, linkseq, x);
                            if qmid.contains(x) {
                                let i = choose|i: int| 0 <= i < qmid.len() && qmid[i] == x;
                                assert(qpre[i] == x);
                                assert(qpre.contains(x));
                            } else {
                                assert(linkseq.contains(x));
                                assert(graph_expands(domain@, entries, current@));
                                let u2 = resolved_url_of(domain@, current@).unwrap();
                                lemma_lookup_links_in_all(entries, u2);
                                assert(links_of(lookup_page(entries, u2).unwrap().body).to_set()
                                    .contains(x));
                                assert(all_links(entries).contains(x));
                            }
                        }

                        if qpre.contains(seed@) {
                            lemma_contains_drop_last(qpre, seed@);
                            if qmid.contains(seed@) {
                                lemma_contains_concat(qmid, linkseq, seed@);
                            }
                        }

                        // per-outcome exactness carries over, and holds of the new one
                        assert forall|i: int| 0 <= i < outs@.len() implies (#[trigger] outs@[i])@
                            == graph_outcome(domain@, entries, origin_of(outs@[i]@)) by {
                            if i < outs_pre.len() {
                                assert(outs@[i] == outs_pre[i]);
                            }
                        }

                        // closure: old links stay reachable, new links are pending
                        assert forall|i: int, j: int|
                            #![trigger graph_links(domain@, entries, origin_of(outs@[i]@))[j]]
                            (0 <= i < outs@.len()
                                && graph_expands(domain@, entries, origin_of(outs@[i]@))
                                && 0 <= j < graph_links(
                                    domain@,
                                    entries,
                                    origin_of(outs@[i]@),
                                ).len()) implies {
                            let l = graph_links(domain@, entries, origin_of(outs@[i]@))[j];
                            coord.pending_view().contains(l) || coord.visited_set().contains(l)
                        } by {
                            let l = graph_links(domain@, entries, origin_of(outs@[i]@))[j];
                            lemma_contains_concat(qmid, linkseq, l);
                            if i < outs_pre.len() {
                                assert(outs@[i] == outs_pre[i]);
                                assert(qpre.contains(l) || vpre.contains(l));
                                if qpre.contains(l) {
                                    lemma_contains_drop_last(qpre, l);
                                }
                            } else {
                                assert(origin_of(outs@[i]@) == current@);
                                assert(linkseq[j] == l);
                                assert(linkseq.contains(l));
                            }
                        }

                        // every pending string is justified by the seed or an outcome
                        assert forall|x: Seq<char>| #[trigger] coord.pending_view().contains(x)
                            implies x == seed@ || exists|k: int| 0 <= k < outs@.len()
                                && graph_expands(domain@, entries, origin_of(#[trigger] outs@[k]@))
                                && graph_links(domain@, entries, origin_of(outs@[k]@)).contains(
                                    x) by {
                            lemma_contains_concat(qmid, linkseq, x);
                            if qmid.contains(x) {
                                let i = choose|i: int| 0 <= i < qmid.len() && qmid[i] == x;
                                assert(qpre[i] == x);
                                assert(qpre.contains(x));
                                if x != seed@ {
                                    let k = choose|k: int| 0 <= k < outs_pre.len()
                                        && graph_expands(domain@, entries, origin_of(outs_pre[k]@))
                                        && graph_links(
                                            domain@,
                                            entries,
                                            origin_of(outs_pre[k]@),
                                        ).contains(x);
                                    assert(outs@[k] == outs_pre[k]);
                                }
                            } else {
                                let k = outs_pre.len() as int;
                                assert(outs@[k] == state);
                                assert(graph_expands(domain@, entries, current@));
                                assert(graph_links(domain@, entries, current@).contains(x));
                            }
                        }

                        // every reported subject is justified by the seed or an outcome
                        assert forall|i: int| 0 <= i < outs@.len() implies
                            origin_of((#[trigger] outs@[i])@) == seed@
                            || exists|k: int| 0 <= k < outs@.len()
                                && graph_expands(domain@, entries, origin_of(#[trigger] outs@[k]@))
                                && graph_links(domain@, entries, origin_of(outs@[k]@)).contains(
                                    origin_of(outs@[i]@)) by {
                            if i < outs_pre.len() {
                                assert(outs@[i] == outs_pre[i]);
                                if origin_of(outs_pre[i]@) != seed@ {
                                    let k = choose|k: int| 0 <= k < outs_pre.len()
                                        && graph_expands(domain@, entries, origin_of(outs_pre[k]@))
                                        && graph_links(
                                            domain@,
                                            entries,
                                            origin_of(outs_pre[k]@),
                                        ).contains(origin_of(outs_pre[i]@));
                                    assert(outs@[k] == outs_pre[k]);
                                }
                            } else {
                                assert(origin_of(outs@[i]@) == current@);
                                if current@ != seed@ {
                                    let k = choose|k: int| 0 <= k < outs_pre.len()
                                        && graph_expands(domain@, entries, origin_of(outs_pre[k]@))
                                        && graph_links(
                                            domain@,
                                            entries,
                                            origin_of(outs_pre[k]@),
                                        ).contains(current@);
                                    assert(outs@[k] == outs_pre[k]);
                                }
                            }
                        }

                        // the measure: one fewer enqueueable string is unvisited
                        poss.lemma_set_insert_diff_decreases(vpre, current@);
                        assert(poss.difference(coord.visited_set()).len()
                            < poss.difference(vpre).len());
                    }
                }
            },
        }
    }
}

} // verus!
