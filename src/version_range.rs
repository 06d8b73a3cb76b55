//! Version ranges: an arbitrary set of operations, per peer a set of disjoint
//! counter intervals.
use crate::ids::{CounterSpan, IdSpan, PeerID, ID};
use crate::version_vector::{end, end_in, ends_of, VersionVector};
use vstd::prelude::*;

verus! {

/// One interval `[start, end)` of a peer's counters.
#[derive(Clone, Copy, Debug, PartialEq, Eq, Structural)]
pub struct VersionRangeItem {
    pub peer: PeerID,
    pub start: i32,
    pub end: i32,
}

/// Whether the interval holds counter `c` of peer `p`.
pub open spec fn covers(it: VersionRangeItem, p: PeerID, c: int) -> bool {
    it.peer == p && it.start <= c < it.end
}

/// Two intervals of one peer that overlap or sit side by side.
pub open spec fn touches(a: VersionRangeItem, b: VersionRangeItem) -> bool {
    a.peer == b.peer && a.start <= b.end && b.start <= a.end
}

/// Normalized intervals: none empty, no two overlapping or adjacent.
pub open spec fn items_wf(s: Seq<VersionRangeItem>) -> bool {
    &&& forall|i: int| 0 <= i < s.len() ==> (#[trigger] s[i]).start < s[i].end
    &&& forall|i: int, j: int| 0 <= i < s.len() && 0 <= j < s.len() && i != j ==> !touches(#[trigger] s[i], #[trigger] s[j])
}

/// Whether some interval of `s` holds counter `c` of peer `p`.
pub open spec fn has(s: Seq<VersionRangeItem>, p: PeerID, c: int) -> bool {
    exists|i: int| 0 <= i < s.len() && covers(#[trigger] s[i], p, c)
}

/// The operations that the intervals of `s` hold.
pub open spec fn ids_of(s: Seq<VersionRangeItem>) -> Set<(PeerID, int)> {
    Set::new(|x: (PeerID, int)| has(s, x.0, x.1))
}

/// The operations `[start, end)` of `peer`.
pub open spec fn span_ids(peer: PeerID, start: int, end: int) -> Set<(PeerID, int)> {
    Set::new(|x: (PeerID, int)| x.0 == peer && start <= x.1 < end)
}

proof fn lemma_has_push(s: Seq<VersionRangeItem>, x: VersionRangeItem)
    ensures
        forall|p: PeerID, c: int| #[trigger] has(s.push(x), p, c) == (has(s, p, c) || covers(x, p, c)),
{
    assert forall|p: PeerID, c: int| #[trigger] has(s.push(x), p, c) == (has(s, p, c) || covers(x, p, c)) by {
        if has(s, p, c) {
            let i = choose|i: int| 0 <= i < s.len() && covers(#[trigger] s[i], p, c);
            assert(s.push(x)[i] == s[i]);
        }
        if covers(x, p, c) {
            assert(s.push(x)[s.len() as int] == x);
        }
        if has(s.push(x), p, c) {
            let i = choose|i: int| 0 <= i < s.len() + 1 && covers(#[trigger] s.push(x)[i], p, c);
            if i < s.len() {
                assert(s[i] == s.push(x)[i]);
            }
        }
    }
}

proof fn lemma_ids_push(s: Seq<VersionRangeItem>, x: VersionRangeItem)
    ensures
        ids_of(s.push(x)) == ids_of(s).union(span_ids(x.peer, x.start as int, x.end as int)),
{
    lemma_has_push(s, x);
    assert(ids_of(s.push(x)) =~= ids_of(s).union(span_ids(x.peer, x.start as int, x.end as int)));
}

/// The operations that the first `n` entries hold: counters `[0, end)` of each.
pub open spec fn entry_ids(e: Seq<(PeerID, i32)>, n: int) -> Set<(PeerID, int)> {
    Set::new(|x: (PeerID, int)| exists|j: int| 0 <= j < n && (#[trigger] e[j]).0 == x.0 && 0 <= x.1 < e[j].1)
}

/// The operations that a version vector covers.
pub open spec fn vv_ids(v: Map<PeerID, nat>) -> Set<(PeerID, int)> {
    Set::new(|x: (PeerID, int)| 0 <= x.1 < end(v, x.0))
}

/// The exclusive end counter of `peer` in `vv`.
fn end_for(vv: &VersionVector, peer: PeerID) -> (r: i32)
    ensures
        r == end(vv@, peer),
{
    proof {
        crate::version_vector::lemma_ends_wf(vv.stored());
    }
    match vv.get_last(peer) {
        Some(last) => last + 1,
        None => 0,
    }
}

/// In normalized intervals, when every counter of `p` in `[lo, hi)` is held,
/// the interval that holds `lo` reaches up to `hi`.
proof fn lemma_one_interval_covers(s: Seq<VersionRangeItem>, i: int, p: PeerID, lo: int, hi: int)
    requires
        items_wf(s),
        0 <= i < s.len(),
        covers(s[i], p, lo),
        lo < hi,
        forall|c: int| lo <= c < hi ==> has(s, p, c),
    ensures
        s[i].end >= hi,
{
    if s[i].end < hi {
        let c = s[i].end as int;
        assert(has(s, p, c));
        let j = choose|j: int| 0 <= j < s.len() && covers(#[trigger] s[j], p, c);
        assert(i != j);
        assert(!touches(s[i], s[j]));
    }
}

/// An arbitrary set of operations: per peer, normalized counter intervals.
///
/// Mutation takes `&mut self`; a caller that shares a range between threads
/// puts it behind its own lock.
pub struct VersionRange {
    items: Vec<VersionRangeItem>,
}

impl View for VersionRange {
    type V = Set<(PeerID, int)>;

    /// The operations that the range holds, as (peer, counter) pairs.
    closed spec fn view(&self) -> Set<(PeerID, int)> {
        ids_of(self.items@)
    }
}

impl VersionRange {
    /// The intervals are normalized.
    pub closed spec fn wf(&self) -> bool {
        items_wf(self.items@)
    }

    pub fn new() -> (r: VersionRange)
        ensures
            r.wf(),
            r@ == Set::<(PeerID, int)>::empty(),
    {
        let r = VersionRange { items: Vec::new() };
        assert(r@ =~= Set::<(PeerID, int)>::empty());
        r
    }

    /// Removes every operation.
    pub fn clear(&mut self)
        ensures
            final(self).wf(),
            final(self)@ == Set::<(PeerID, int)>::empty(),
    {
        self.items = Vec::new();
        assert(self@ =~= Set::<(PeerID, int)>::empty());
    }

    /// Adds the operations `[start, end)` of `peer`, merging the intervals that
    /// this overlaps or touches.
    pub fn insert(&mut self, peer: PeerID, start: i32, end: i32)
        requires
            old(self).wf(),
        ensures
            final(self).wf(),
            final(self)@ == old(self)@.union(span_ids(peer, start as int, end as int)),
    {
        if start >= end {
            assert(self@ =~= self@.union(span_ids(peer, start as int, end as int)));
            return;
        }
        let ghost orig = self.items@;
        let ghost added = span_ids(peer, start as int, end as int);
        let mut ns = start;
        let mut ne = end;
        let mut kept: Vec<VersionRangeItem> = Vec::new();
        let mut i: usize = 0;
        proof {
            assert(orig.subrange(0, 0) =~= Seq::<VersionRangeItem>::empty());
            assert(ids_of(orig.subrange(0, 0)) =~= Set::<(PeerID, int)>::empty());
            assert(ids_of(kept@) =~= Set::<(PeerID, int)>::empty());
            assert(ids_of(orig.subrange(0, 0)).union(added) =~= ids_of(kept@).union(span_ids(peer, ns as int, ne as int)));
        }
        while i < self.items.len()
            invariant
                self.items@ == orig,
                items_wf(orig),
                i <= orig.len(),
                ns < ne,
                added == span_ids(peer, start as int, end as int),
                items_wf(kept@),
                forall|k: int| 0 <= k < kept.len() ==> !touches(#[trigger] kept@[k], VersionRangeItem { peer, start: ns, end: ne }),
                forall|k: int, j: int| 0 <= k < kept.len() && i <= j < orig.len() ==> !touches(#[trigger] kept@[k], #[trigger] orig[j]),
                ids_of(orig.subrange(0, i as int)).union(added) == ids_of(kept@).union(span_ids(peer, ns as int, ne as int)),
            decreases orig.len() - i,
        {
            let it = self.items[i];
            let ghost cur = VersionRangeItem { peer, start: ns, end: ne };
            proof {
                assert(orig.subrange(0, i + 1) =~= orig.subrange(0, i as int).push(it));
                lemma_ids_push(orig.subrange(0, i as int), it);
                assert(ids_of(orig.subrange(0, i + 1)) == ids_of(orig.subrange(0, i as int)).union(span_ids(it.peer, it.start as int, it.end as int)));
            }
            if it.peer == peer && it.start <= ne && ns <= it.end {
                let ghost nns: i32 = if it.start < ns { it.start } else { ns };
                let ghost nne: i32 = if it.end > ne { it.end } else { ne };
                proof {
                    let merged = VersionRangeItem { peer, start: nns, end: nne };
                    assert forall|k: int| 0 <= k < kept.len() implies !touches(#[trigger] kept@[k], merged) by {
                        assert(!touches(kept@[k], cur));
                        assert(!touches(kept@[k], orig[i as int]));
                    }
                    assert(span_ids(peer, ns as int, ne as int).union(span_ids(it.peer, it.start as int, it.end as int)) =~= span_ids(peer, nns as int, nne as int));
                    let sn = span_ids(peer, ns as int, ne as int);
                    let si = span_ids(it.peer, it.start as int, it.end as int);
                    assert forall|x: (PeerID, int)| #[trigger] ids_of(orig.subrange(0, i + 1)).union(added).contains(x) == ids_of(kept@).union(span_ids(peer, nns as int, nne as int)).contains(x) by {
                        assert(ids_of(orig.subrange(0, i as int)).union(added).contains(x) == ids_of(kept@).union(sn).contains(x));
                        assert(sn.union(si).contains(x) == span_ids(peer, nns as int, nne as int).contains(x));
                    }
                    assert(ids_of(orig.subrange(0, i + 1)).union(added) =~= ids_of(kept@).union(span_ids(peer, nns as int, nne as int)));
                }
                if it.start < ns {
                    ns = it.start;
                }
                if it.end > ne {
                    ne = it.end;
                }
            } else {
                proof {
                    lemma_ids_push(kept@, it);
                    assert forall|k: int, j: int| 0 <= k < kept.len() + 1 && 0 <= j < kept.len() + 1 && k != j implies !touches(#[trigger] kept@.push(it)[k], #[trigger] kept@.push(it)[j]) by {
                        if k == kept.len() {
                            assert(!touches(kept@[j], orig[i as int]));
                        } else if j == kept.len() {
                            assert(!touches(kept@[k], orig[i as int]));
                        }
                    }
                    assert forall|k: int| 0 <= k < kept.len() + 1 implies (#[trigger] kept@.push(it)[k]).start < kept@.push(it)[k].end by {
                        if k < kept.len() {
                            assert(kept@.push(it)[k] == kept@[k]);
                        }
                    }
                    assert forall|k: int, j: int| 0 <= k < kept.len() + 1 && i + 1 <= j < orig.len() implies !touches(#[trigger] kept@.push(it)[k], #[trigger] orig[j]) by {
                        if k == kept.len() {
                            assert(!touches(orig[i as int], orig[j]));
                        } else {
                            assert(kept@.push(it)[k] == kept@[k]);
                        }
                    }
                    let sn = span_ids(peer, ns as int, ne as int);
                    assert forall|x: (PeerID, int)| #[trigger] ids_of(orig.subrange(0, i + 1)).union(added).contains(x) == ids_of(kept@.push(it)).union(sn).contains(x) by {
                        assert(ids_of(orig.subrange(0, i as int)).union(added).contains(x) == ids_of(kept@).union(sn).contains(x));
                    }
                    assert(ids_of(orig.subrange(0, i + 1)).union(added) =~= ids_of(kept@.push(it)).union(span_ids(peer, ns as int, ne as int)));
                }
                kept.push(it);
            }
            i = i + 1;
        }
        let last = VersionRangeItem { peer, start: ns, end: ne };
        proof {
            assert(orig.subrange(0, orig.len() as int) =~= orig);
            lemma_ids_push(kept@, last);
            assert forall|k: int, j: int| 0 <= k < kept.len() + 1 && 0 <= j < kept.len() + 1 && k != j implies !touches(#[trigger] kept@.push(last)[k], #[trigger] kept@.push(last)[j]) by {
                if k == kept.len() {
                    assert(!touches(kept@[j], last));
                } else if j == kept.len() {
                    assert(!touches(kept@[k], last));
                }
            }
            assert forall|k: int| 0 <= k < kept.len() + 1 implies (#[trigger] kept@.push(last)[k]).start < kept@.push(last)[k].end by {
                if k < kept.len() {
                    assert(kept@.push(last)[k] == kept@[k]);
                }
            }
        }
        kept.push(last);
        self.items = kept;
    }

    /// Whether the range holds the operation `id`.
    pub fn contains_id(&self, id: ID) -> (r: bool)
        ensures
            r == self@.contains((id.peer, id.counter as int)),
    {
        let mut i: usize = 0;
        while i < self.items.len()
            invariant
                i <= self.items.len(),
                forall|k: int| 0 <= k < i ==> !covers(#[trigger] self.items@[k], id.peer, id.counter as int),
            decreases self.items.len() - i,
        {
            let it = self.items[i];
            if it.peer == id.peer && it.start <= id.counter && id.counter < it.end {
                assert(covers(self.items@[i as int], id.peer, id.counter as int));
                return true;
            }
            i = i + 1;
        }
        false
    }

    /// Whether the range holds at least one operation of `span`.
    pub fn has_overlap_with(&self, span: IdSpan) -> (r: bool)
        requires
            self.wf(),
            span.wf(),
        ensures
            r == exists|c: int| span.counter.has(c) && #[trigger] self@.contains((span.peer, c)),
    {
        let mut i: usize = 0;
        while i < self.items.len()
            invariant
                i <= self.items.len(),
                items_wf(self.items@),
                forall|k: int| 0 <= k < i ==> !(#[trigger] self.items@[k].peer == span.peer && self.items@[k].start < span.counter.end && span.counter.start < self.items@[k].end && span.counter.start < span.counter.end),
            decreases self.items.len() - i,
        {
            let it = self.items[i];
            if it.peer == span.peer && it.start < span.counter.end && span.counter.start < it.end && span.counter.start < span.counter.end {
                let c = if it.start < span.counter.start { span.counter.start } else { it.start };
                assert(covers(self.items@[i as int], span.peer, c as int));
                assert(self@.contains((span.peer, c as int)));
                return true;
            }
            i = i + 1;
        }
        assert forall|c: int| span.counter.has(c) implies !(#[trigger] self@.contains((span.peer, c))) by {
            if self@.contains((span.peer, c)) {
                let k = choose|k: int| 0 <= k < self.items.len() && covers(#[trigger] self.items@[k], span.peer, c);
            }
        }
        false
    }

    /// Whether the range holds every operation of `span`.
    pub fn contains_id_span(&self, span: IdSpan) -> (r: bool)
        requires
            self.wf(),
            span.wf(),
        ensures
            r == forall|c: int| span.counter.has(c) ==> #[trigger] self@.contains((span.peer, c)),
    {
        if span.counter.start == span.counter.end {
            return true;
        }
        let mut i: usize = 0;
        while i < self.items.len()
            invariant
                i <= self.items.len(),
                span.counter.start < span.counter.end,
                forall|k: int| 0 <= k < i ==> !(#[trigger] self.items@[k].peer == span.peer && self.items@[k].start <= span.counter.start && span.counter.end <= self.items@[k].end),
            decreases self.items.len() - i,
        {
            let it = self.items[i];
            if it.peer == span.peer && it.start <= span.counter.start && span.counter.end <= it.end {
                assert forall|c: int| span.counter.has(c) implies #[trigger] self@.contains((span.peer, c)) by {
                    assert(covers(self.items@[i as int], span.peer, c));
                }
                return true;
            }
            i = i + 1;
        }
        proof {
            let s = self.items@;
            let lo = span.counter.start as int;
            if forall|c: int| span.counter.has(c) ==> #[trigger] self@.contains((span.peer, c)) {
                assert(self@.contains((span.peer, lo)));
                let j = choose|j: int| 0 <= j < s.len() && covers(#[trigger] s[j], span.peer, lo);
                assert forall|c: int| lo <= c < span.counter.end implies has(s, span.peer, c) by {
                    assert(self@.contains((span.peer, c)));
                }
                lemma_one_interval_covers(s, j, span.peer, lo, span.counter.end as int);
                assert(s[j].peer == span.peer && s[j].start <= span.counter.start && span.counter.end <= s[j].end);
            }
        }
        false
    }

    /// Adds the operations of `span`, so that the range contains it afterwards.
    pub fn extends_to_include_id_span(&mut self, span: IdSpan)
        requires
            old(self).wf(),
            span.wf(),
        ensures
            final(self).wf(),
            final(self)@ == old(self)@.union(span_ids(span.peer, span.counter.start as int, span.counter.end as int)),
    {
        self.insert(span.peer, span.counter.start, span.counter.end);
    }

    /// Whether the range holds no operation.
    pub fn is_empty(&self) -> (r: bool)
        requires
            self.wf(),
        ensures
            r == (self@ == Set::<(PeerID, int)>::empty()),
    {
        if self.items.len() == 0 {
            assert(self@ =~= Set::<(PeerID, int)>::empty());
            true
        } else {
            let it = self.items[0];
            assert(covers(self.items@[0], it.peer, it.start as int));
            assert(self@.contains((it.peer, it.start as int)));
            false
        }
    }

    /// The interval from the first to the last operation of `peer` that the
    /// range holds, or `None` where it holds none of them.
    pub fn get(&self, peer: PeerID) -> (r: Option<CounterSpan>)
        requires
            self.wf(),
        ensures
            r is None ==> forall|c: int| !(#[trigger] self@.contains((peer, c))),
            r matches Some(sp) ==> {
                &&& sp.start < sp.end
                &&& self@.contains((peer, sp.start as int))
                &&& self@.contains((peer, sp.end - 1))
                &&& forall|c: int| #[trigger] self@.contains((peer, c)) ==> sp.start <= c < sp.end
            },
    {
        let mut found = false;
        let mut lo: i32 = 0;
        let mut hi: i32 = 0;
        let mut i: usize = 0;
        while i < self.items.len()
            invariant
                i <= self.items.len(),
                items_wf(self.items@),
                !found ==> forall|k: int| 0 <= k < i ==> (#[trigger] self.items@[k]).peer != peer,
                found ==> lo < hi,
                found ==> has(self.items@, peer, lo as int),
                found ==> has(self.items@, peer, hi - 1),
                found ==> forall|k: int| 0 <= k < i && (#[trigger] self.items@[k]).peer == peer ==> lo <= self.items@[k].start && self.items@[k].end <= hi,
            decreases self.items.len() - i,
        {
            let it = self.items[i];
            if it.peer == peer {
                assert(covers(self.items@[i as int], peer, it.start as int));
                assert(covers(self.items@[i as int], peer, it.end - 1));
                if !found || it.start < lo {
                    lo = it.start;
                }
                if !found || it.end > hi {
                    hi = it.end;
                }
                found = true;
            }
            i = i + 1;
        }
        if found {
            let sp = CounterSpan { start: lo, end: hi };
            assert forall|c: int| #[trigger] self@.contains((peer, c)) implies sp.start <= c < sp.end by {
                let k = choose|k: int| 0 <= k < self.items.len() && covers(#[trigger] self.items@[k], peer, c);
            }
            Some(sp)
        } else {
            assert forall|c: int| !(#[trigger] self@.contains((peer, c))) by {
                if self@.contains((peer, c)) {
                    let k = choose|k: int| 0 <= k < self.items.len() && covers(#[trigger] self.items@[k], peer, c);
                }
            }
            None
        }
    }

    /// The intervals, normalized, in no particular order.
    pub fn get_all_ranges(&self) -> (r: Vec<VersionRangeItem>)
        requires
            self.wf(),
        ensures
            items_wf(r@),
            ids_of(r@) == self@,
    {
        let mut r: Vec<VersionRangeItem> = Vec::new();
        let mut i: usize = 0;
        while i < self.items.len()
            invariant
                i <= self.items.len(),
                r@ == self.items@.subrange(0, i as int),
            decreases self.items.len() - i,
        {
            r.push(self.items[i]);
            i = i + 1;
            assert(r@ =~= self.items@.subrange(0, i as int));
        }
        assert(r@ =~= self.items@);
        r
    }

    /// Each peer of which the range holds an operation, once.
    pub fn get_peers(&self) -> (r: Vec<PeerID>)
        requires
            self.wf(),
        ensures
            forall|i: int, j: int| 0 <= i < j < r.len() ==> r@[i] != r@[j],
            forall|p: PeerID| r@.contains(p) <==> exists|c: int| #[trigger] self@.contains((p, c)),
    {
        let mut r: Vec<PeerID> = Vec::new();
        let mut i: usize = 0;
        while i < self.items.len()
            invariant
                i <= self.items.len(),
                items_wf(self.items@),
                forall|a: int, b: int| 0 <= a < b < r.len() ==> r@[a] != r@[b],
                forall|p: PeerID| r@.contains(p) <==> exists|k: int| 0 <= k < i && (#[trigger] self.items@[k]).peer == p,
            decreases self.items.len() - i,
        {
            let p = self.items[i].peer;
            let mut seen = false;
            let mut j: usize = 0;
            while j < r.len()
                invariant
                    j <= r.len(),
                    seen == exists|a: int| 0 <= a < j && r@[a] == p,
                decreases r.len() - j,
            {
                if r[j] == p {
                    seen = true;
                }
                j = j + 1;
            }
            let ghost r0 = r@;
            if !seen {
                r.push(p);
                assert forall|q: PeerID| r@.contains(q) <==> r0.contains(q) || q == p by {
                    if r@.contains(q) {
                        let a = choose|a: int| 0 <= a < r@.len() && r@[a] == q;
                        if a < r0.len() {
                            assert(r0[a] == q);
                        }
                    }
                    if r0.contains(q) {
                        let a = choose|a: int| 0 <= a < r0.len() && r0[a] == q;
                        assert(r@[a] == q);
                    }
                    if q == p {
                        assert(r@[r0.len() as int] == p);
                    }
                }
            } else {
                assert(r@.contains(p));
            }
            assert forall|q: PeerID| r@.contains(q) <==> exists|k: int| 0 <= k < i + 1 && (#[trigger] self.items@[k]).peer == q by {
                if exists|k: int| 0 <= k < i + 1 && (#[trigger] self.items@[k]).peer == q {
                    let k = choose|k: int| 0 <= k < i + 1 && (#[trigger] self.items@[k]).peer == q;
                    if k < i {
                        assert(r0.contains(q));
                    }
                }
                if r0.contains(q) {
                    let k = choose|k: int| 0 <= k < i && (#[trigger] self.items@[k]).peer == q;
                }
            }
            i = i + 1;
        }
        assert forall|p: PeerID| r@.contains(p) <==> exists|c: int| #[trigger] self@.contains((p, c)) by {
            if r@.contains(p) {
                let k = choose|k: int| 0 <= k < self.items.len() && (#[trigger] self.items@[k]).peer == p;
                assert(covers(self.items@[k], p, self.items@[k].start as int));
                assert(self@.contains((p, self.items@[k].start as int)));
            }
            if exists|c: int| #[trigger] self@.contains((p, c)) {
                let c = choose|c: int| #[trigger] self@.contains((p, c));
                let k = choose|k: int| 0 <= k < self.items.len() && covers(#[trigger] self.items@[k], p, c);
            }
        }
        r
    }

    /// The range of every operation that `vv` covers: `[0, end)` for each peer.
    pub fn from_vv(vv: &VersionVector) -> (r: VersionRange)
        ensures
            r.wf(),
            r@ == vv_ids(vv@),
    {
        let e = vv.entries();
        let mut r = VersionRange::new();
        let mut i: usize = 0;
        while i < e.len()
            invariant
                i <= e.len(),
                r.wf(),
                r@ == entry_ids(e@, i as int),
            decreases e.len() - i,
        {
            let (p, c) = e[i];
            let ghost before = r@;
            r.insert(p, 0, c);
            proof {
                assert(r@ =~= entry_ids(e@, i + 1)) by {
                    assert forall|x: (PeerID, int)| #[trigger] entry_ids(e@, i + 1).contains(x) implies r@.contains(x) by {
                        let j = choose|j: int| 0 <= j < i + 1 && (#[trigger] e@[j]).0 == x.0 && 0 <= x.1 < e@[j].1;
                        if j < i {
                            assert(before.contains(x));
                        }
                    }
                    assert forall|x: (PeerID, int)| r@.contains(x) implies #[trigger] entry_ids(e@, i + 1).contains(x) by {
                        if before.contains(x) {
                            let j = choose|j: int| 0 <= j < i && (#[trigger] e@[j]).0 == x.0 && 0 <= x.1 < e@[j].1;
                        } else {
                            assert(e@[i as int].0 == x.0);
                        }
                    }
                }
            }
            i = i + 1;
        }
        proof {
            crate::version_vector::lemma_ends_wf(vv.stored());
            assert(r@ =~= vv_ids(vv@)) by {
                assert forall|x: (PeerID, int)| #[trigger] vv_ids(vv@).contains(x) implies r@.contains(x) by {
                    assert(end_in(vv.stored(), x.0) > 0);
                    let j = choose|j: int| 0 <= j < e.len() && (#[trigger] e@[j]).0 == x.0;
                    assert(entry_ids(e@, e.len() as int).contains(x));
                }
                assert forall|x: (PeerID, int)| r@.contains(x) implies #[trigger] vv_ids(vv@).contains(x) by {
                    let j = choose|j: int| 0 <= j < e.len() && (#[trigger] e@[j]).0 == x.0 && 0 <= x.1 < e@[j].1;
                }
            }
        }
        r
    }

    /// Whether the range holds an operation that `vv_b` covers and `vv_a` does not.
    pub fn contains_ops_between(&self, vv_a: &VersionVector, vv_b: &VersionVector) -> (r: bool)
        requires
            self.wf(),
        ensures
            r == exists|x: (PeerID, int)| #[trigger] self@.contains(x) && end(vv_a@, x.0) <= x.1 < end(vv_b@, x.0),
    {
        let mut i: usize = 0;
        while i < self.items.len()
            invariant
                i <= self.items.len(),
                items_wf(self.items@),
                forall|k: int, c: int| 0 <= k < i && #[trigger] covers(self.items@[k], self.items@[k].peer, c) ==> !(end(vv_a@, self.items@[k].peer) <= c < end(vv_b@, self.items@[k].peer)),
            decreases self.items.len() - i,
        {
            let it = self.items[i];
            let ea = end_for(vv_a, it.peer);
            let eb = end_for(vv_b, it.peer);
            let lo = if it.start < ea { ea } else { it.start };
            let hi = if it.end < eb { it.end } else { eb };
            if lo < hi {
                let ghost x = (it.peer, lo as int);
                assert(covers(self.items@[i as int], it.peer, lo as int));
                assert(self@.contains(x));
                return true;
            }
            i = i + 1;
        }
        assert forall|x: (PeerID, int)| #[trigger] self@.contains(x) implies !(end(vv_a@, x.0) <= x.1 < end(vv_b@, x.0)) by {
            let k = choose|k: int| 0 <= k < self.items.len() && covers(#[trigger] self.items@[k], x.0, x.1);
            assert(covers(self.items@[k], self.items@[k].peer, x.1));
        }
        false
    }
}

impl Default for VersionRange {
    fn default() -> (r: VersionRange)
        ensures
            r.wf(),
            r@ == Set::<(PeerID, int)>::empty(),
    {
        VersionRange::new()
    }
}

} // verus!
