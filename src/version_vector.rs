//! Version vectors: for each peer, how many of its operations have been seen.
//!
//! The vector itself is loro's; this module states over a mathematical model
//! what each operation does to it and proves the lattice laws of that model.
use crate::ids::{CounterSpan, IdSpan, PeerID, ID};
use vstd::prelude::*;

verus! {

/// loro's version vector, held opaquely: its contents are `vv_entries`.
#[verifier::external_body]
pub struct VvStore(pub loro::VersionVector);

/// loro's error type, returned by its decoders.
#[verifier::external_type_specification]
#[verifier::external_body]
pub struct ExLoroError(loro::LoroError);

/// The entries that a loro version vector stores: peer to exclusive end counter.
pub uninterp spec fn vv_entries(v: VvStore) -> Map<u64, i32>;

/// The entries that decoding `bytes` as a version vector gives, or `None` for
/// bytes that are not such an encoding.
pub uninterp spec fn decoded_vv(bytes: Seq<u8>) -> Option<Map<u64, i32>>;

/// Number of operations of `p` that the stored entries cover: an absent or
/// non-positive entry covers none.
pub open spec fn end_in(m: Map<u64, i32>, p: u64) -> nat {
    if m.contains_key(p) && m[p] > 0 {
        m[p] as nat
    } else {
        0
    }
}

/// The normalized model of stored entries: the peers with at least one
/// operation, each with its exclusive end counter.
pub open spec fn ends_of(m: Map<u64, i32>) -> Map<u64, nat> {
    Map::new(|p: u64| end_in(m, p) > 0, |p: u64| end_in(m, p))
}

/// The end of `p` in a model; 0 for a peer that it does not hold.
pub open spec fn end(v: Map<u64, nat>, p: u64) -> nat {
    if v.contains_key(p) {
        v[p]
    } else {
        0
    }
}

/// A model is well formed when it holds positive ends that fit a counter.
pub open spec fn model_wf(v: Map<u64, nat>) -> bool {
    forall|p: u64| v.contains_key(p) ==> 0 < #[trigger] v[p] <= i32::MAX
}

/// Pointwise maximum of two models.
pub open spec fn merge_spec(a: Map<u64, nat>, b: Map<u64, nat>) -> Map<u64, nat> {
    Map::new(
        |p: u64| a.contains_key(p) || b.contains_key(p),
        |p: u64|
            if end(a, p) >= end(b, p) {
                end(a, p)
            } else {
                end(b, p)
            },
    )
}

/// `a` has seen every operation that `b` has seen.
pub open spec fn includes_spec(a: Map<u64, nat>, b: Map<u64, nat>) -> bool {
    forall|p: u64| end(b, p) <= #[trigger] end(a, p)
}

/// The partial order of models.
pub open spec fn cmp_spec(a: Map<u64, nat>, b: Map<u64, nat>) -> Option<std::cmp::Ordering> {
    if a == b {
        Some(std::cmp::Ordering::Equal)
    } else if includes_spec(a, b) {
        Some(std::cmp::Ordering::Greater)
    } else if includes_spec(b, a) {
        Some(std::cmp::Ordering::Less)
    } else {
        None
    }
}

/// For each peer on which `b` is ahead of `a`, the counters that `b` has and `a` lacks.
pub open spec fn spans_ahead(a: Map<u64, nat>, b: Map<u64, nat>) -> Map<u64, CounterSpan> {
    Map::new(
        |p: u64| end(a, p) < end(b, p),
        |p: u64| CounterSpan { start: end(a, p) as i32, end: end(b, p) as i32 },
    )
}

/// The model after extending each peer of `v` to the end of its span in `spans`.
pub open spec fn advance(v: Map<u64, nat>, spans: Map<u64, CounterSpan>) -> Map<u64, nat> {
    Map::new(
        |p: u64| v.contains_key(p) || (spans.contains_key(p) && spans[p].end > 0),
        |p: u64|
            if spans.contains_key(p) && spans[p].end > end(v, p) {
                spans[p].end as nat
            } else {
                end(v, p)
            },
    )
}

/// The model with the end of `p` set to `e`, or `p` dropped where `e` is not positive.
pub open spec fn with_end(v: Map<u64, nat>, p: u64, e: int) -> Map<u64, nat> {
    if e <= 0 {
        v.remove(p)
    } else {
        v.insert(p, e as nat)
    }
}

/// The exclusive end that makes `c` the last counter seen: `c + 1`, saturating,
/// and never below 0.
pub open spec fn end_after(c: i32) -> int {
    if c == i32::MAX {
        i32::MAX as int
    } else if c + 1 < 0 {
        0
    } else {
        c + 1
    }
}

pub proof fn lemma_ends_wf(m: Map<u64, i32>)
    ensures
        model_wf(ends_of(m)),
        forall|p: u64| #[trigger] end(ends_of(m), p) == end_in(m, p),
{
}

/// Relies on `loro::VersionVector::new`: it starts with no entries.
#[verifier::external_body]
fn lvv_new() -> (r: VvStore)
    ensures
        vv_entries(r).dom() == Set::<u64>::empty(),
{
    VvStore(loro::VersionVector::new())
}

/// Relies on `loro::VersionVector::diff`: per peer, the span by which one side
/// is ahead of the other, over the normalized ends.
#[verifier::external_body]
fn lvv_diff(a: &VvStore, b: &VvStore) -> (r: VersionVectorDiff)
    ensures
        r.forward@ == spans_ahead(ends_of(vv_entries(*a)), ends_of(vv_entries(*b))),
        r.retreat@ == spans_ahead(ends_of(vv_entries(*b)), ends_of(vv_entries(*a))),
{
    let d = a.0.diff(&b.0);
    VersionVectorDiff {
        retreat: d.retreat.into_iter().map(|(p, c)| (p, CounterSpan { start: c.start, end: c.end })).collect(),
        forward: d.forward.into_iter().map(|(p, c)| (p, CounterSpan { start: c.start, end: c.end })).collect(),
    }
}

/// Relies on `loro::VersionVector::get_last`: the last counter seen, from the
/// normalized end.
#[verifier::external_body]
fn lvv_get_last(a: &VvStore, peer: u64) -> (r: Option<i32>)
    ensures
        r == (if end_in(vv_entries(*a), peer) == 0 {
            None
        } else {
            Some((end_in(vv_entries(*a), peer) - 1) as i32)
        }),
{
    a.0.get_last(peer)
}

/// Relies on `loro::VersionVector::set_last`: the end becomes the counter after
/// `id`'s, and a zero end removes the peer.
#[verifier::external_body]
fn lvv_set_last(a: &mut VvStore, id: ID)
    ensures
        ends_of(vv_entries(*final(a))) == with_end(ends_of(vv_entries(*old(a))), id.peer, end_after(id.counter)),
{
    a.0.set_last(loro::ID::new(id.peer, id.counter))
}

/// Relies on `loro::VersionVector::set_end`: the end becomes `id`'s counter, and
/// a non-positive one removes the peer.
#[verifier::external_body]
fn lvv_set_end(a: &mut VvStore, id: ID)
    ensures
        ends_of(vv_entries(*final(a))) == with_end(ends_of(vv_entries(*old(a))), id.peer, id.counter as int),
{
    a.0.set_end(loro::ID::new(id.peer, id.counter))
}

/// Relies on `loro::VersionVector::try_update_last`: the end moves up to the
/// counter after `id`'s only where that is larger.
#[verifier::external_body]
fn lvv_try_update_last(a: &mut VvStore, id: ID) -> (r: bool)
    ensures
        r == (end_after(id.counter) > end_in(vv_entries(*old(a)), id.peer)),
        ends_of(vv_entries(*final(a))) == (if r {
            ends_of(vv_entries(*old(a))).insert(id.peer, end_after(id.counter) as nat)
        } else {
            ends_of(vv_entries(*old(a)))
        }),
{
    a.0.try_update_last(loro::ID::new(id.peer, id.counter))
}

/// Relies on `loro::VersionVector::get_missing_span`: one span per peer on which
/// `target` is ahead, from this vector's end to the target's.
#[verifier::external_body]
fn lvv_get_missing_span(a: &VvStore, target: &VvStore) -> (r: Vec<IdSpan>)
    ensures
        forall|i: int|
            0 <= i < r.len() ==> spans_ahead(ends_of(vv_entries(*a)), ends_of(vv_entries(*target))).contains_key(r@[i].peer)
                && (#[trigger] r@[i]).counter == spans_ahead(ends_of(vv_entries(*a)), ends_of(vv_entries(*target)))[r@[i].peer],
        forall|p: u64|
            spans_ahead(ends_of(vv_entries(*a)), ends_of(vv_entries(*target))).contains_key(p) ==> exists|i: int|
                0 <= i < r.len() && #[trigger] r@[i].peer == p,
        forall|i: int, j: int| 0 <= i < j < r.len() ==> r@[i].peer != r@[j].peer,
{
    a.0.get_missing_span(&target.0).into_iter().map(|s| IdSpan { peer: s.peer, counter: CounterSpan { start: s.counter.start, end: s.counter.end } }).collect()
}

/// Relies on `loro::VersionVector::merge`: the pointwise maximum of normalized ends.
#[verifier::external_body]
fn lvv_merge(a: &mut VvStore, b: &VvStore)
    ensures
        ends_of(vv_entries(*final(a))) == merge_spec(ends_of(vv_entries(*old(a))), ends_of(vv_entries(*b))),
{
    a.0.merge(&b.0)
}

/// Relies on `loro::VersionVector::includes_vv`: every normalized end of `b` is
/// at most that of `a`.
#[verifier::external_body]
fn lvv_includes_vv(a: &VvStore, b: &VvStore) -> (r: bool)
    ensures
        r == includes_spec(ends_of(vv_entries(*a)), ends_of(vv_entries(*b))),
{
    a.0.includes_vv(&b.0)
}

/// Relies on `loro::VersionVector::includes_id`: a non-negative counter below the
/// peer's normalized end.
#[verifier::external_body]
fn lvv_includes_id(a: &VvStore, id: ID) -> (r: bool)
    ensures
        r == (0 <= id.counter < end_in(vv_entries(*a), id.peer)),
{
    a.0.includes_id(loro::ID::new(id.peer, id.counter))
}

/// Relies on `loro::VersionVector::intersect_span`: on a span with
/// `0 <= start < end`, the part of it below the peer's end, if not empty.
#[verifier::external_body]
fn lvv_intersect_span(a: &VvStore, target: IdSpan) -> (r: Option<CounterSpan>)
    requires
        0 <= target.counter.start < target.counter.end,
    ensures
        r == clip(end_in(vv_entries(*a), target.peer), target.counter),
{
    a.0.intersect_span(loro::IdSpan::new(target.peer, target.counter.start, target.counter.end))
        .map(|c| CounterSpan { start: c.start, end: c.end })
}

/// Relies on `loro::VersionVector::extend_to_include_vv`: each peer of `b` moves
/// up to `b`'s normalized end.
#[verifier::external_body]
fn lvv_extend_to_include_vv(a: &mut VvStore, b: &VvStore)
    ensures
        ends_of(vv_entries(*final(a))) == merge_spec(ends_of(vv_entries(*old(a))), ends_of(vv_entries(*b))),
{
    a.0.extend_to_include_vv(b.0.iter())
}

/// Relies on loro's `PartialOrd for VersionVector`: equal, dominating, dominated
/// or incomparable over normalized ends.
#[verifier::external_body]
fn lvv_partial_cmp(a: &VvStore, b: &VvStore) -> (r: Option<std::cmp::Ordering>)
    ensures
        r == cmp_spec(ends_of(vv_entries(*a)), ends_of(vv_entries(*b))),
{
    a.0.partial_cmp(&b.0)
}

/// Relies on loro's `PartialEq for VersionVector`: equal normalized ends.
#[verifier::external_body]
fn lvv_eq(a: &VvStore, b: &VvStore) -> (r: bool)
    ensures
        r == (ends_of(vv_entries(*a)) == ends_of(vv_entries(*b))),
{
    a.0 == b.0
}

/// Relies on `loro::VersionVector::encode`: the bytes decode to the same entries.
#[verifier::external_body]
fn lvv_encode(a: &VvStore) -> (r: Vec<u8>)
    ensures
        decoded_vv(r@) == Some(vv_entries(*a)),
{
    a.0.encode()
}

/// Relies on `loro::VersionVector::decode`: it fails exactly on bytes that are
/// not an encoding, and otherwise holds the decoded entries.
#[verifier::external_body]
fn lvv_decode(bytes: &[u8]) -> (r: Result<VvStore, loro::LoroError>)
    ensures
        match r {
            Ok(v) => decoded_vv(bytes@) == Some(vv_entries(v)),
            Err(_) => decoded_vv(bytes@).is_none(),
        },
{
    loro::VersionVector::decode(bytes).map(VvStore)
}

/// Relies on iterating loro's `VersionVector` (a map): every stored entry, once.
#[verifier::external_body]
fn lvv_to_hashmap(a: &VvStore) -> (r: std::collections::HashMap<u64, i32>)
    ensures
        r@ == vv_entries(*a),
{
    a.0.iter().map(|(p, c)| (*p, *c)).collect()
}

/// Relies on iterating loro's `VersionVector` (a map): every stored entry, once,
/// in the map's order.
#[verifier::external_body]
fn lvv_entry_list(a: &VvStore) -> (r: Vec<(u64, i32)>)
    ensures
        forall|i: int| 0 <= i < r.len() ==> vv_entries(*a).contains_key((#[trigger] r@[i]).0) && vv_entries(*a)[r@[i].0] == r@[i].1,
        forall|p: u64| vv_entries(*a).contains_key(p) ==> exists|i: int| 0 <= i < r.len() && (#[trigger] r@[i]).0 == p,
        forall|i: int, j: int| 0 <= i < j < r.len() ==> r@[i].0 != r@[j].0,
{
    a.0.iter().map(|(p, c)| (*p, *c)).collect()
}

/// The clipped part of a span below `e`, as `intersect_span` returns it.
pub open spec fn clip(e: nat, s: CounterSpan) -> Option<CounterSpan> {
    let lo: int = if s.start < 0 { 0 } else { s.start as int };
    let hi: int = if s.end < 0 { 0 } else { s.end as int };
    if lo < e && lo < hi {
        Some(CounterSpan { start: lo as i32, end: (if e < hi { e as int } else { hi }) as i32 })
    } else {
        None
    }
}

/// Spans that turn one version vector into another.
pub struct VersionVectorDiff {
    /// For each peer, the counters that the left side has and the right side lacks.
    pub retreat: std::collections::HashMap<PeerID, CounterSpan>,
    /// For each peer, the counters that the right side has and the left side lacks.
    pub forward: std::collections::HashMap<PeerID, CounterSpan>,
}

/// Failure to read an encoded value.
#[derive(Clone, Copy, Debug, PartialEq, Eq, Structural)]
pub enum DecodeError {
    /// The bytes are not an encoded version vector.
    VersionVector,
    /// The bytes are not encoded frontiers.
    Frontiers,
}

/// For each peer, the number of its operations that have been seen.
///
/// Mutation takes `&mut self`; a caller that shares a vector between threads
/// puts it behind its own lock.
pub struct VersionVector {
    pub store: VvStore,
}

impl View for VersionVector {
    type V = Map<PeerID, nat>;

    /// Each peer with at least one operation seen, with the counter one past
    /// its last operation seen.
    open spec fn view(&self) -> Map<PeerID, nat> {
        ends_of(self.stored())
    }
}

impl VersionVector {
    /// The entries as stored, before normalization.
    pub closed spec fn stored(&self) -> Map<u64, i32> {
        vv_entries(self.store)
    }

    pub fn new() -> (r: VersionVector)
        ensures
            r@ == Map::<PeerID, nat>::empty(),
    {
        let r = VersionVector { store: lvv_new() };
        assert(r@ =~= Map::<PeerID, nat>::empty());
        r
    }

    /// Spans that take `self` to `rhs` (`forward`) and `rhs` to `self` (`retreat`).
    pub fn diff(&self, rhs: &Self) -> (r: VersionVectorDiff)
        ensures
            r.forward@ == spans_ahead(self@, rhs@),
            r.retreat@ == spans_ahead(rhs@, self@),
    {
        lvv_diff(&self.store, &rhs.store)
    }

    /// The last counter seen of `peer`, or `None` where none is.
    pub fn get_last(&self, peer: PeerID) -> (r: Option<i32>)
        ensures
            r == (if end(self@, peer) == 0 {
                None
            } else {
                Some((end(self@, peer) - 1) as i32)
            }),
    {
        proof {
            lemma_ends_wf(self.stored());
        }
        lvv_get_last(&self.store, peer)
    }

    /// Makes `id` the last operation seen of its peer.
    pub fn set_last(&mut self, id: ID)
        ensures
            final(self)@ == with_end(old(self)@, id.peer, end_after(id.counter)),
    {
        lvv_set_last(&mut self.store, id)
    }

    /// Makes `id` the first operation not seen of its peer.
    pub fn set_end(&mut self, id: ID)
        ensures
            final(self)@ == with_end(old(self)@, id.peer, id.counter as int),
    {
        lvv_set_end(&mut self.store, id)
    }

    /// One span for each peer on which `target` is ahead of `self`, covering
    /// what `self` lacks.
    pub fn get_missing_span(&self, target: &Self) -> (r: Vec<IdSpan>)
        ensures
            forall|i: int|
                0 <= i < r.len() ==> spans_ahead(self@, target@).contains_key(r@[i].peer)
                    && (#[trigger] r@[i]).counter == spans_ahead(self@, target@)[r@[i].peer],
            forall|p: PeerID|
                spans_ahead(self@, target@).contains_key(p) ==> exists|i: int|
                    0 <= i < r.len() && #[trigger] r@[i].peer == p,
            forall|i: int, j: int| 0 <= i < j < r.len() ==> r@[i].peer != r@[j].peer,
    {
        lvv_get_missing_span(&self.store, &target.store)
    }

    /// Pointwise maximum with `other`.
    pub fn merge(&mut self, other: &VersionVector)
        ensures
            final(self)@ == merge_spec(old(self)@, other@),
    {
        lvv_merge(&mut self.store, &other.store)
    }

    /// Whether `self` has seen everything that `other` has.
    pub fn includes_vv(&self, other: &VersionVector) -> (r: bool)
        ensures
            r == includes_spec(self@, other@),
    {
        lvv_includes_vv(&self.store, &other.store)
    }

    /// Whether the operation `id` has been seen.
    pub fn includes_id(&self, id: ID) -> (r: bool)
        ensures
            r == (0 <= id.counter < end(self@, id.peer)),
    {
        proof {
            lemma_ends_wf(self.stored());
        }
        lvv_includes_id(&self.store, id)
    }

    /// The part of `target`, taken from counter 0 up, that has been seen; `None`
    /// where that part is empty.
    pub fn intersect_span(&self, target: IdSpan) -> (r: Option<CounterSpan>)
        requires
            target.wf(),
        ensures
            r == clip(end(self@, target.peer), target.counter),
    {
        proof {
            lemma_ends_wf(self.stored());
        }
        if target.counter.end <= 0 || target.counter.start == target.counter.end {
            return None;
        }
        let start = if target.counter.start < 0 { 0 } else { target.counter.start };
        lvv_intersect_span(&self.store, IdSpan { peer: target.peer, counter: CounterSpan { start, end: target.counter.end } })
    }

    /// Raises each peer to at least its end in `other`.
    pub fn extend_to_include_vv(&mut self, other: &VersionVector)
        ensures
            final(self)@ == merge_spec(old(self)@, other@),
    {
        lvv_extend_to_include_vv(&mut self.store, &other.store)
    }

    /// Equal, greater (dominating), less (dominated), or `None` when incomparable.
    pub fn partial_cmp(&self, other: &VersionVector) -> (r: Option<std::cmp::Ordering>)
        ensures
            r == cmp_spec(self@, other@),
    {
        lvv_partial_cmp(&self.store, &other.store)
    }

    /// The binary encoding; `decode` gives back the same entries.
    pub fn encode(&self) -> (r: Vec<u8>)
        ensures
            decoded_vv(r@) == Some(self.stored()),
    {
        lvv_encode(&self.store)
    }

    /// Reads an encoded vector; fails, with nothing built, on bytes that are
    /// not one.
    pub fn decode(bytes: &[u8]) -> (r: Result<VersionVector, DecodeError>)
        ensures
            match r {
                Ok(v) => decoded_vv(bytes@) == Some(v.stored()),
                Err(e) => decoded_vv(bytes@).is_none() && e == DecodeError::VersionVector,
            },
    {
        match lvv_decode(bytes) {
            Ok(store) => Ok(VersionVector { store }),
            Err(_) => Err(DecodeError::VersionVector),
        }
    }

    /// The stored entries as a map.
    pub fn to_hashmap(&self) -> (r: std::collections::HashMap<u64, i32>)
        ensures
            r@ == self.stored(),
    {
        lvv_to_hashmap(&self.store)
    }

    /// The stored entries, each once, in no particular order.
    pub fn entries(&self) -> (r: Vec<(PeerID, i32)>)
        ensures
            forall|i: int| 0 <= i < r.len() ==> self.stored().contains_key((#[trigger] r@[i]).0) && self.stored()[r@[i].0] == r@[i].1,
            forall|p: PeerID| self.stored().contains_key(p) ==> exists|i: int| 0 <= i < r.len() && (#[trigger] r@[i]).0 == p,
            forall|i: int, j: int| 0 <= i < j < r.len() ==> r@[i].0 != r@[j].0,
    {
        lvv_entry_list(&self.store)
    }

    /// Moves the peer's end up to just past `id`, only where that is an increase;
    /// returns whether it moved.
    pub fn try_update_last(&mut self, id: ID) -> (r: bool)
        ensures
            r == (end_after(id.counter) > end(old(self)@, id.peer)),
            r ==> final(self)@ == old(self)@.insert(id.peer, end_after(id.counter) as nat),
            !r ==> final(self)@ == old(self)@,
            id.counter < end(old(self)@, id.peer) ==> !r && final(self)@ == old(self)@,
            end(old(self)@, id.peer) <= id.counter < i32::MAX ==> r && final(self)@ == old(self)@.insert(
                id.peer,
                (id.counter + 1) as nat,
            ),
    {
        proof {
            lemma_ends_wf(self.stored());
        }
        lvv_try_update_last(&mut self.store, id)
    }
}

impl PartialEq for VersionVector {
    fn eq(&self, other: &Self) -> (r: bool) {
        lvv_eq(&self.store, &other.store)
    }
}

impl vstd::std_specs::cmp::PartialEqSpecImpl for VersionVector {
    open spec fn obeys_eq_spec() -> bool {
        true
    }

    open spec fn eq_spec(&self, other: &Self) -> bool {
        self@ == other@
    }
}

impl Eq for VersionVector {}

impl Default for VersionVector {
    fn default() -> (r: VersionVector)
        ensures
            r@ == Map::<PeerID, nat>::empty(),
    {
        VersionVector::new()
    }
}

/// Merging is commutative: `a` merged with `b` equals `b` merged with `a`.
pub proof fn merge_commutes(a: VersionVector, b: VersionVector)
    ensures
        merge_spec(a@, b@) == merge_spec(b@, a@),
{
    assert(merge_spec(a@, b@) =~= merge_spec(b@, a@));
}

/// Merging is associative: merging `a, b` then `c` equals merging `a` with
/// `b, c` merged.
pub proof fn merge_associates(a: VersionVector, b: VersionVector, c: VersionVector)
    ensures
        merge_spec(merge_spec(a@, b@), c@) == merge_spec(a@, merge_spec(b@, c@)),
{
    assert(merge_spec(merge_spec(a@, b@), c@) =~= merge_spec(a@, merge_spec(b@, c@)));
}

/// Merging is idempotent: a vector merged with itself is unchanged.
pub proof fn merge_idempotent(a: VersionVector)
    ensures
        merge_spec(a@, a@) == a@,
{
    assert(merge_spec(a@, a@) =~= a@);
}

/// Inclusion is reflexive: every vector includes itself.
pub proof fn includes_reflexive(a: VersionVector)
    ensures
        includes_spec(a@, a@),
{
}

/// Inclusion is transitive: if `a` includes `b` and `b` includes `c`, then `a`
/// includes `c`.
pub proof fn includes_transitive(a: VersionVector, b: VersionVector, c: VersionVector)
    requires
        includes_spec(a@, b@),
        includes_spec(b@, c@),
    ensures
        includes_spec(a@, c@),
{
    assert forall|p: u64| end(c@, p) <= #[trigger] end(a@, p) by {
        assert(end(b@, p) <= end(a@, p));
        assert(end(c@, p) <= end(b@, p));
    }
}

/// The diff round trip: advancing `a` by the forward spans of `a.diff(b)`, and
/// `b` by its retreat spans, both give `a` merged with `b`.
pub proof fn diff_round_trip(a: VersionVector, b: VersionVector)
    ensures
        advance(a@, spans_ahead(a@, b@)) == merge_spec(a@, b@),
        advance(b@, spans_ahead(b@, a@)) == merge_spec(a@, b@),
{
    lemma_ends_wf(a.stored());
    lemma_ends_wf(b.stored());
    assert(advance(a@, spans_ahead(a@, b@)) =~= merge_spec(a@, b@));
    assert(advance(b@, spans_ahead(b@, a@)) =~= merge_spec(a@, b@));
}

} // verus!
