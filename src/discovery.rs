//! Discovery of fankits: a breadth-first traversal of the listing pages.
//!
//! The traversal is a state machine. Its driver asks `next_page` for the
//! page to fetch, fetches and reads it, and hands what the page links to
//! back through `record_page`, until `next_page` says the traversal is
//! over. A page is fetched at most once: the set of done pages decides,
//! while the queue of pending pages may hold duplicates.
//!
//! Incremental runs start with `after_first_page`, which stops at once when
//! the first listing page shows no fankit that is not known yet. This rests
//! on the catalog listing its newest fankits first: a fankit added deeper in
//! the catalog only, with none on the first page, goes unnoticed.

use vstd::prelude::*;

use crate::id::FankitId;
use crate::list_page_index::FankitListPageIndex;

verus! {

/// State of one traversal.
pub struct Discovery {
    /// Pages already fetched, in the order they were handed out.
    done: Vec<FankitListPageIndex>,
    /// Pages waiting to be fetched, front first.
    pending: std::collections::VecDeque<FankitListPageIndex>,
    /// Fankits found so far, each once.
    found: Vec<FankitId>,
}

/// What a `Discovery` holds.
pub ghost struct DiscoveryView {
    pub done: Seq<FankitListPageIndex>,
    pub pending: Seq<FankitListPageIndex>,
    pub found: Set<FankitId>,
}

impl DiscoveryView {
    /// No page is done twice.
    pub open spec fn wf(self) -> bool {
        self.done.no_duplicates()
    }
}

impl View for Discovery {
    type V = DiscoveryView;

    closed spec fn view(&self) -> DiscoveryView {
        DiscoveryView { done: self.done@, pending: self.pending@, found: self.found@.to_set() }
    }
}

/// Index of the first pending page from `from` on that is not done yet, or
/// the length of `pending` if there is none.
pub open spec fn first_unvisited(
    done: Seq<FankitListPageIndex>,
    pending: Seq<FankitListPageIndex>,
    from: int,
) -> int
    decreases pending.len() - from,
{
    if from < 0 || from >= pending.len() {
        pending.len() as int
    } else if done.contains(pending[from]) {
        first_unvisited(done, pending, from + 1)
    } else {
        from
    }
}

/// The pages of `links` that are not done, in order.
pub open spec fn unvisited(
    done: Seq<FankitListPageIndex>,
    links: Seq<FankitListPageIndex>,
) -> Seq<FankitListPageIndex>
    decreases links.len(),
{
    if links.len() == 0 {
        links
    } else {
        let p = unvisited(done, links.drop_last());
        if done.contains(links.last()) {
            p
        } else {
            p.push(links.last())
        }
    }
}

/// The state after `next_page`, and the page it hands out: pending pages
/// that are done already are dropped, and the first one that is not is
/// marked done and handed out.
pub open spec fn next_page_step(v: DiscoveryView) -> (DiscoveryView, Option<FankitListPageIndex>) {
    let k = first_unvisited(v.done, v.pending, 0);
    if k < v.pending.len() {
        (
            DiscoveryView {
                done: v.done.push(v.pending[k]),
                pending: v.pending.subrange(k + 1, v.pending.len() as int),
                found: v.found,
            },
            Some(v.pending[k]),
        )
    } else {
        (DiscoveryView { done: v.done, pending: Seq::empty(), found: v.found }, None)
    }
}

/// The state after `record_page` with what a page linked to: the linked
/// pages that are not done join the queue, the fankits join those found.
pub open spec fn record_step(
    v: DiscoveryView,
    items: Seq<FankitId>,
    links: Seq<FankitListPageIndex>,
) -> DiscoveryView {
    DiscoveryView {
        done: v.done,
        pending: v.pending + unvisited(v.done, links),
        found: v.found.union(items.to_set()),
    }
}

/// Whether every fankit on the first listing page is known already.
pub open spec fn nothing_new(known: Seq<FankitId>, first_items: Seq<FankitId>) -> bool {
    forall|i: int| 0 <= i < first_items.len() ==> known.contains(#[trigger] first_items[i])
}

/// Whether `v` holds `p`.
fn contains_page(v: &Vec<FankitListPageIndex>, p: FankitListPageIndex) -> (r: bool)
    ensures
        r == v@.contains(p),
{
    let mut i: usize = 0;
    while i < v.len()
        invariant
            i <= v@.len(),
            forall|m: int| 0 <= m < i ==> v@[m] != p,
        decreases v@.len() - i,
    {
        if v[i] == p {
            assert(v@[i as int] == p);
            return true;
        }
        i += 1;
    }
    false
}

/// Whether `v` holds `id`.
pub fn contains_id(v: &Vec<FankitId>, id: FankitId) -> (r: bool)
    ensures
        r == v@.contains(id),
{
    let mut i: usize = 0;
    while i < v.len()
        invariant
            i <= v@.len(),
            forall|m: int| 0 <= m < i ==> v@[m] != id,
        decreases v@.len() - i,
    {
        if v[i] == id {
            assert(v@[i as int] == id);
            return true;
        }
        i += 1;
    }
    false
}

/// Adds to `found` the fankits of `items` it does not hold yet.
fn add_fankits(found: &mut Vec<FankitId>, items: &Vec<FankitId>)
    requires
        old(found)@.no_duplicates(),
    ensures
        final(found)@.no_duplicates(),
        final(found)@.to_set() == old(found)@.to_set().union(items@.to_set()),
{
    let ghost start = found@;
    let mut i: usize = 0;
    while i < items.len()
        invariant
            i <= items@.len(),
            found@.no_duplicates(),
            forall|x: FankitId|
                #[trigger] found@.contains(x) <==> (start.contains(x) || items@.subrange(
                    0,
                    i as int,
                ).contains(x)),
        decreases items@.len() - i,
    {
        let id = items[i];
        let ghost before = found@;
        let ghost pre = items@.subrange(0, i as int);
        let ghost nxt = items@.subrange(0, i + 1);
        if !contains_id(found, id) {
            found.push(id);
            assert forall|a: int, b: int|
                0 <= a < found@.len() && 0 <= b < found@.len() && a != b implies found@[a]
                != found@[b] by {
                if a < before.len() && b < before.len() {
                    assert(before[a] != before[b]);
                } else if a < before.len() {
                    assert(before[a] == found@[a]);
                } else if b < before.len() {
                    assert(before[b] == found@[b]);
                }
            }
        }
        assert forall|x: FankitId| #[trigger] found@.contains(x) <==> (start.contains(x)
            || nxt.contains(x)) by {
            assert(before.contains(x) <==> (start.contains(x) || pre.contains(x)));
            if found@.contains(x) && x != id {
                let w = choose|w: int| 0 <= w < found@.len() && found@[w] == x;
                assert(w < before.len());
                assert(before[w] == x);
            }
            if x == id {
                assert(nxt[i as int] == id);
                if before.contains(x) {
                    let w = choose|w: int| 0 <= w < before.len() && before[w] == x;
                    assert(found@[w] == x);
                } else {
                    assert(found@[found@.len() - 1] == x);
                }
            }
            if before.contains(x) {
                let w = choose|w: int| 0 <= w < before.len() && before[w] == x;
                assert(found@[w] == x);
            }
            if pre.contains(x) {
                let w = choose|w: int| 0 <= w < pre.len() && #[trigger] pre[w] == x;
                assert(nxt[w] == x);
            }
            if nxt.contains(x) && x != id {
                let w = choose|w: int| 0 <= w < nxt.len() && #[trigger] nxt[w] == x;
                assert(pre[w] == x);
            }
        }
        i += 1;
    }
    assert(items@.subrange(0, i as int) =~= items@);
    assert(found@.to_set() =~= start.to_set().union(items@.to_set()));
}

impl Discovery {
    /// The done pages are distinct and so are the found fankits.
    pub closed spec fn wf(&self) -> bool {
        self@.wf() && self.found@.no_duplicates()
    }

    /// Starts a full traversal, from the first listing page.
    pub fn new() -> (r: Self)
        ensures
            r.wf(),
            r@ == (DiscoveryView {
                done: Seq::empty(),
                pending: seq![FankitListPageIndex(1)],
                found: Set::empty(),
            }),
    {
        let mut pending = std::collections::VecDeque::new();
        pending.push_back(FankitListPageIndex(1));
        let r = Discovery { done: Vec::new(), pending, found: Vec::new() };
        assert(r@.pending =~= seq![FankitListPageIndex(1)]);
        assert(r@.found =~= Set::empty());
        r
    }

    /// Starts an incremental traversal from what the first listing page
    /// linked to. Gives `None` when every fankit on it is known already;
    /// otherwise the traversal goes on with the first page done.
    pub fn after_first_page(
        known: &Vec<FankitId>,
        items: &Vec<FankitId>,
        links: &Vec<FankitListPageIndex>,
    ) -> (r: Option<Self>)
        ensures
            r is None <==> nothing_new(known@, items@),
            r is Some ==> r->0.wf() && r->0@ == (DiscoveryView {
                done: seq![FankitListPageIndex(1)],
                pending: links@,
                found: items@.to_set(),
            }),
    {
        let mut i: usize = 0;
        let mut all_known = true;
        while i < items.len()
            invariant
                i <= items@.len(),
                all_known == forall|m: int| 0 <= m < i ==> known@.contains(#[trigger] items@[m]),
            decreases items@.len() - i,
        {
            if !contains_id(known, items[i]) {
                all_known = false;
            }
            i += 1;
        }
        if all_known {
            return None;
        }
        let mut pending = std::collections::VecDeque::new();
        let mut j: usize = 0;
        while j < links.len()
            invariant
                j <= links@.len(),
                pending@ == links@.subrange(0, j as int),
            decreases links@.len() - j,
        {
            pending.push_back(links[j]);
            assert(pending@ =~= links@.subrange(0, j + 1));
            j += 1;
        }
        assert(links@.subrange(0, j as int) =~= links@);
        let mut done = Vec::new();
        done.push(FankitListPageIndex(1));
        let mut found = Vec::new();
        add_fankits(&mut found, items);
        let r = Discovery { done, pending, found };
        assert(r@.done =~= seq![FankitListPageIndex(1)]);
        assert(Seq::<FankitId>::empty().to_set().union(items@.to_set()) =~= items@.to_set());
        Some(r)
    }

    /// Hands out the next page to fetch and marks it done, or `None` when
    /// no page is left.
    pub fn next_page(&mut self) -> (r: Option<FankitListPageIndex>)
        requires
            old(self).wf(),
        ensures
            final(self).wf(),
            (final(self)@, r) == next_page_step(old(self)@),
    {
        let ghost start = self.pending@;
        let ghost k0 = first_unvisited(self.done@, start, 0);
        let ghost skipped: int = 0;
        loop
            invariant
                self.done@ == old(self).done@,
                self.found@ == old(self).found@,
                self.wf(),
                start == old(self).pending@,
                0 <= skipped <= start.len(),
                self.pending@ == start.subrange(skipped, start.len() as int),
                k0 == first_unvisited(self.done@, start, 0),
                k0 == first_unvisited(self.done@, start, skipped),
            decreases self.pending@.len(),
        {
            match self.pending.pop_front() {
                Some(p) => {
                    assert(p == start[skipped]);
                    if !contains_page(&self.done, p) {
                        let ghost before = self.done@;
                        self.done.push(p);
                        proof {
                            assert forall|a: int, b: int|
                                0 <= a < self.done@.len() && 0 <= b < self.done@.len() && a != b
                                    implies self.done@[a] != self.done@[b] by {
                                if a < before.len() && b < before.len() {
                                    assert(before[a] != before[b]);
                                } else if a < before.len() {
                                    assert(before[a] == self.done@[a]);
                                    assert(before.contains(before[a]));
                                } else if b < before.len() {
                                    assert(before[b] == self.done@[b]);
                                    assert(before.contains(before[b]));
                                }
                            }
                            assert(self.pending@ =~= start.subrange(skipped + 1, start.len() as int));
                        }
                        return Some(p);
                    }
                    proof {
                        skipped = skipped + 1;
                        assert(self.pending@ =~= start.subrange(skipped, start.len() as int));
                    }
                },
                None => {
                    assert(self.pending@ =~= Seq::<FankitListPageIndex>::empty());
                    return None;
                },
            }
        }
    }

    /// Takes in what a fetched page linked to: its fankits and the listing
    /// pages not done yet.
    pub fn record_page(&mut self, items: &Vec<FankitId>, links: &Vec<FankitListPageIndex>)
        requires
            old(self).wf(),
        ensures
            final(self).wf(),
            final(self)@ == record_step(old(self)@, items@, links@),
    {
        let mut j: usize = 0;
        while j < links.len()
            invariant
                j <= links@.len(),
                self.done@ == old(self).done@,
                self.found@ == old(self).found@,
                self.pending@ == old(self).pending@ + unvisited(
                    self.done@,
                    links@.subrange(0, j as int),
                ),
            decreases links@.len() - j,
        {
            let p = links[j];
            assert(links@.subrange(0, j + 1).drop_last() =~= links@.subrange(0, j as int));
            if !contains_page(&self.done, p) {
                self.pending.push_back(p);
            }
            assert(self.pending@ =~= old(self).pending@ + unvisited(
                self.done@,
                links@.subrange(0, j + 1),
            ));
            j += 1;
        }
        assert(links@.subrange(0, j as int) =~= links@);
        add_fankits(&mut self.found, items);
    }

    /// The fankits found so far, each once.
    pub fn found_fankits(&self) -> (r: Vec<FankitId>)
        requires
            self.wf(),
        ensures
            r@.no_duplicates(),
            r@.to_set() == self@.found,
    {
        let mut out: Vec<FankitId> = Vec::new();
        let mut i: usize = 0;
        while i < self.found.len()
            invariant
                i <= self.found@.len(),
                out@ == self.found@.subrange(0, i as int),
            decreases self.found@.len() - i,
        {
            out.push(self.found[i]);
            assert(out@ =~= self.found@.subrange(0, i + 1));
            i += 1;
        }
        assert(out@ =~= self.found@);
        out
    }
}

/// What `first_unvisited` finds: the pages it passes over are done, and
/// the page it stops at, if any, is not.
proof fn lemma_first_unvisited(
    done: Seq<FankitListPageIndex>,
    pending: Seq<FankitListPageIndex>,
    from: int,
)
    requires
        0 <= from <= pending.len(),
    ensures
        from <= first_unvisited(done, pending, from) <= pending.len(),
        first_unvisited(done, pending, from) < pending.len() ==> !done.contains(
            pending[first_unvisited(done, pending, from)],
        ),
        forall|j: int|
            from <= j < first_unvisited(done, pending, from) ==> done.contains(
                #[trigger] pending[j],
            ),
    decreases pending.len() - from,
{
    if from < pending.len() && done.contains(pending[from]) {
        lemma_first_unvisited(done, pending, from + 1);
    }
}

/// When the known fankits are exactly those of the first listing page, the
/// incremental traversal finds nothing new and goes no further than that
/// page.
pub proof fn lemma_known_first_page_stops(known: Seq<FankitId>, first_items: Seq<FankitId>)
    requires
        known.to_set() == first_items.to_set(),
    ensures
        nothing_new(known, first_items),
{
    assert forall|i: int| 0 <= i < first_items.len() implies known.contains(
        #[trigger] first_items[i],
    ) by {
        assert(first_items.to_set().contains(first_items[i]));
        assert(known.to_set().contains(first_items[i]));
    }
}

/// No listing page is fetched twice: a page that the traversal hands out
/// was not done before and is done afterwards, the done pages stay
/// distinct, and recording a page's links leaves the done pages alone.
pub proof fn lemma_no_revisit(
    v: DiscoveryView,
    items: Seq<FankitId>,
    links: Seq<FankitListPageIndex>,
)
    requires
        v.wf(),
    ensures
        next_page_step(v).0.wf(),
        next_page_step(v).1 is Some ==> !v.done.contains(next_page_step(v).1->0) && next_page_step(
            v,
        ).0.done == v.done.push(next_page_step(v).1->0),
        next_page_step(v).1 is None ==> next_page_step(v).0.done == v.done && next_page_step(
            v,
        ).0.pending.len() == 0,
        record_step(v, items, links).wf(),
        record_step(v, items, links).done == v.done,
{
    lemma_first_unvisited(v.done, v.pending, 0);
    let k = first_unvisited(v.done, v.pending, 0);
    if k < v.pending.len() {
        let d = v.done.push(v.pending[k]);
        assert forall|a: int, b: int| 0 <= a < d.len() && 0 <= b < d.len() && a != b implies d[a]
            != d[b] by {
            if a < v.done.len() && b < v.done.len() {
            } else if a < v.done.len() {
                assert(v.done[a] == d[a]);
            } else if b < v.done.len() {
                assert(v.done[b] == d[b]);
            }
        }
    }
}

/// A traversal over a catalog whose listing pages all lie in the finite set
/// `pages` has done at most `pages.len()` pages. Since each page handed out
/// joins the done pages, the traversal fetches at most that many pages and
/// then ends.
pub proof fn lemma_visits_bounded(v: DiscoveryView, pages: Set<FankitListPageIndex>)
    requires
        v.wf(),
        pages.finite(),
        forall|i: int| 0 <= i < v.done.len() ==> pages.contains(#[trigger] v.done[i]),
    ensures
        v.done.len() <= pages.len(),
{
    v.done.unique_seq_to_set();
    assert(v.done.to_set().subset_of(pages));
    vstd::set_lib::lemma_len_subset(v.done.to_set(), pages);
}

/// Every page that a done page links to, in a catalog where page `q` links
/// to `links_of(q)`, is done or pending.
pub open spec fn frontier_closed(
    v: DiscoveryView,
    links_of: spec_fn(FankitListPageIndex) -> Seq<FankitListPageIndex>,
) -> bool {
    forall|i: int, j: int|
        0 <= i < v.done.len() && 0 <= j < links_of(v.done[i]).len() ==> v.done.contains(
            #[trigger] links_of(v.done[i])[j],
        ) || v.pending.contains(links_of(v.done[i])[j])
}

/// `unvisited` keeps every link that is not done.
proof fn lemma_unvisited_keeps(
    done: Seq<FankitListPageIndex>,
    links: Seq<FankitListPageIndex>,
    j: int,
)
    requires
        0 <= j < links.len(),
        !done.contains(links[j]),
    ensures
        unvisited(done, links).contains(links[j]),
    decreases links.len(),
{
    let pre = links.drop_last();
    let p = unvisited(done, pre);
    if j < links.len() - 1 {
        assert(pre[j] == links[j]);
        lemma_unvisited_keeps(done, pre, j);
        let w = choose|w: int| 0 <= w < p.len() && p[w] == links[j];
        if !done.contains(links.last()) {
            assert(p.push(links.last())[w] == links[j]);
        }
    } else {
        let q = p.push(links.last());
        assert(q[q.len() - 1] == links[j]);
    }
}

/// No reachable page is missed: if every page linked from a done page is
/// done or pending, this stays so when the traversal hands out a page and
/// records that page's links, and when the traversal ends every page that a
/// done page links to is done. Started from the first page, the done pages
/// then hold every listing page reachable from it.
pub proof fn lemma_traversal_complete(
    v: DiscoveryView,
    links_of: spec_fn(FankitListPageIndex) -> Seq<FankitListPageIndex>,
    items: Seq<FankitId>,
)
    requires
        frontier_closed(v, links_of),
    ensures
        next_page_step(v).1 is Some ==> frontier_closed(
            record_step(next_page_step(v).0, items, links_of(next_page_step(v).1->0)),
            links_of,
        ),
        next_page_step(v).1 is None ==> forall|i: int, j: int|
            0 <= i < v.done.len() && 0 <= j < links_of(v.done[i]).len() ==> v.done.contains(
                #[trigger] links_of(v.done[i])[j],
            ),
{
    lemma_first_unvisited(v.done, v.pending, 0);
    let k = first_unvisited(v.done, v.pending, 0);
    let (w, r) = next_page_step(v);
    if k < v.pending.len() {
        let p = v.pending[k];
        let u = record_step(w, items, links_of(p));
        assert forall|i: int, j: int|
            0 <= i < u.done.len() && 0 <= j < links_of(u.done[i]).len() implies u.done.contains(
                #[trigger] links_of(u.done[i])[j],
            ) || u.pending.contains(links_of(u.done[i])[j]) by {
            let l = links_of(u.done[i])[j];
            if i < v.done.len() {
                assert(u.done[i] == v.done[i]);
                if v.done.contains(l) {
                    let m = choose|m: int| 0 <= m < v.done.len() && v.done[m] == l;
                    assert(u.done[m] == l);
                } else {
                    let m = choose|m: int| 0 <= m < v.pending.len() && v.pending[m] == l;
                    if m < k {
                        assert(v.done.contains(v.pending[m]));
                    } else if m == k {
                        assert(u.done[v.done.len() as int] == l);
                    } else {
                        assert(w.pending[m - k - 1] == l);
                        assert(u.pending[m - k - 1] == l);
                    }
                }
            } else {
                assert(u.done[i] == p);
                if !w.done.contains(l) {
                    lemma_unvisited_keeps(w.done, links_of(p), j);
                    let x = unvisited(w.done, links_of(p));
                    let m = choose|m: int| 0 <= m < x.len() && x[m] == l;
                    assert(u.pending[w.pending.len() + m] == l);
                }
            }
        }
    } else {
        assert forall|i: int, j: int|
            0 <= i < v.done.len() && 0 <= j < links_of(v.done[i]).len() implies v.done.contains(
                #[trigger] links_of(v.done[i])[j],
            ) by {
            let l = links_of(v.done[i])[j];
            if !v.done.contains(l) {
                let m = choose|m: int| 0 <= m < v.pending.len() && v.pending[m] == l;
                assert(v.done.contains(v.pending[m]));
            }
        }
    }
}

/// Both ways of starting a traversal leave no link of a done page behind:
/// a full traversal has no done page yet, and an incremental one has page 1
/// done with all its links pending.
pub proof fn lemma_start_frontier_closed(
    links_of: spec_fn(FankitListPageIndex) -> Seq<FankitListPageIndex>,
    items: Seq<FankitId>,
)
    ensures
        frontier_closed(
            DiscoveryView {
                done: Seq::empty(),
                pending: seq![FankitListPageIndex(1)],
                found: Set::empty(),
            },
            links_of,
        ),
        frontier_closed(
            DiscoveryView {
                done: seq![FankitListPageIndex(1)],
                pending: links_of(FankitListPageIndex(1)),
                found: items.to_set(),
            },
            links_of,
        ),
{
    let v = DiscoveryView {
        done: seq![FankitListPageIndex(1)],
        pending: links_of(FankitListPageIndex(1)),
        found: items.to_set(),
    };
    assert forall|i: int, j: int|
        0 <= i < v.done.len() && 0 <= j < links_of(v.done[i]).len() implies v.done.contains(
            #[trigger] links_of(v.done[i])[j],
        ) || v.pending.contains(links_of(v.done[i])[j]) by {
        assert(v.done[i] == FankitListPageIndex(1));
        assert(v.pending[j] == links_of(v.done[i])[j]);
    }
}

/// The found fankits are exactly those on the done pages, in a catalog
/// where page `q` lists the fankits `items_of(q)`.
pub open spec fn found_matches(
    v: DiscoveryView,
    items_of: spec_fn(FankitListPageIndex) -> Seq<FankitId>,
) -> bool {
    forall|id: FankitId|
        #[trigger] v.found.contains(id) <==> exists|i: int|
            0 <= i < v.done.len() && #[trigger] items_of(v.done[i]).contains(id)
}

/// The found fankits stay exactly those of the done pages: both ways of
/// starting a traversal begin so, and handing out a page and recording its
/// fankits keeps it so. When the traversal ends, its done pages are every
/// page reachable from the first (`lemma_traversal_complete`), so the
/// result is the union of the fankits of all those pages.
pub proof fn lemma_found_is_union(
    v: DiscoveryView,
    items_of: spec_fn(FankitListPageIndex) -> Seq<FankitId>,
    links: Seq<FankitListPageIndex>,
)
    ensures
        found_matches(
            DiscoveryView {
                done: Seq::empty(),
                pending: seq![FankitListPageIndex(1)],
                found: Set::empty(),
            },
            items_of,
        ),
        found_matches(
            DiscoveryView {
                done: seq![FankitListPageIndex(1)],
                pending: links,
                found: items_of(FankitListPageIndex(1)).to_set(),
            },
            items_of,
        ),
        found_matches(v, items_of) && next_page_step(v).1 is Some ==> found_matches(
            record_step(next_page_step(v).0, items_of(next_page_step(v).1->0), links),
            items_of,
        ),
        found_matches(v, items_of) && next_page_step(v).1 is None ==> found_matches(
            next_page_step(v).0,
            items_of,
        ),
{
    let one = seq![FankitListPageIndex(1)];
    let s = DiscoveryView { done: one, pending: links, found: items_of(FankitListPageIndex(1)).to_set() };
    assert forall|id: FankitId| #[trigger] s.found.contains(id) <==> exists|i: int|
        0 <= i < s.done.len() && #[trigger] items_of(s.done[i]).contains(id) by {
        if s.found.contains(id) {
            assert(items_of(s.done[0]).contains(id));
        }
        if exists|i: int| 0 <= i < s.done.len() && #[trigger] items_of(s.done[i]).contains(id) {
            let i = choose|i: int| 0 <= i < s.done.len() && #[trigger] items_of(s.done[i]).contains(id);
            assert(s.done[i] == FankitListPageIndex(1));
        }
    }
    if found_matches(v, items_of) {
        let (w, r) = next_page_step(v);
        lemma_first_unvisited(v.done, v.pending, 0);
        if r is Some {
            let p = r->0;
            let u = record_step(w, items_of(p), links);
            assert forall|id: FankitId| #[trigger] u.found.contains(id) <==> exists|i: int|
                0 <= i < u.done.len() && #[trigger] items_of(u.done[i]).contains(id) by {
                let last = v.done.len() as int;
                assert(u.done[last] == p);
                if v.found.contains(id) {
                    let i = choose|i: int|
                        0 <= i < v.done.len() && #[trigger] items_of(v.done[i]).contains(id);
                    assert(u.done[i] == v.done[i]);
                }
                if items_of(p).to_set().contains(id) {
                    assert(items_of(u.done[last]).contains(id));
                }
                if exists|i: int| 0 <= i < u.done.len() && #[trigger] items_of(u.done[i]).contains(id) {
                    let i = choose|i: int|
                        0 <= i < u.done.len() && #[trigger] items_of(u.done[i]).contains(id);
                    if i < last {
                        assert(v.done[i] == u.done[i]);
                        assert(v.found.contains(id));
                    }
                }
            }
        } else {
            assert(w.done == v.done && w.found == v.found);
            assert forall|id: FankitId| #[trigger] w.found.contains(id) <==> exists|i: int|
                0 <= i < w.done.len() && #[trigger] items_of(w.done[i]).contains(id) by {
                assert(v.found.contains(id) <==> exists|i: int|
                    0 <= i < v.done.len() && #[trigger] items_of(v.done[i]).contains(id));
            }
        }
    }
}

} // verus!
