//! Frontiers: the tips of the history, the ids that no other recorded id follows.
use crate::ids::{PeerID, ID};
use crate::version_vector::DecodeError;
use vstd::prelude::*;

verus! {

/// The ids that decoding `bytes` as loro frontiers gives, or `None` for bytes
/// that are not such an encoding.
pub uninterp spec fn decoded_frontiers(bytes: Seq<u8>) -> Option<Set<ID>>;

/// The ids that a sequence holds.
pub open spec fn id_set(s: Seq<ID>) -> Set<ID> {
    Set::new(|x: ID| s.contains(x))
}

/// No peer has two ids in `s`: what minimal frontiers satisfy, since of two ids
/// of one peer the smaller comes before the larger.
pub open spec fn one_per_peer(s: Set<ID>) -> bool {
    forall|a: ID, b: ID| s.contains(a) && s.contains(b) && a.peer == b.peer ==> a == b
}

/// No id occurs twice in `s`.
pub open spec fn no_repeats(s: Seq<ID>) -> bool {
    forall|i: int, j: int| 0 <= i < j < s.len() ==> s[i] != s[j]
}

/// Relies on loro's `From<Vec<ID>> for Frontiers` and `Frontiers::encode`:
/// ids of distinct peers are all kept and written, and decode back to the same ids.
#[verifier::external_body]
fn lf_encode(ids: &Vec<ID>) -> (r: Vec<u8>)
    ensures
        one_per_peer(id_set(ids@)) ==> decoded_frontiers(r@) == Some(id_set(ids@)),
{
    let v: Vec<loro::ID> = ids.iter().map(|id| loro::ID::new(id.peer, id.counter)).collect();
    loro::Frontiers::from(v).encode()
}

/// Relies on `loro::Frontiers::decode` and `Frontiers::to_vec`: it fails exactly
/// on bytes that are not an encoding, and otherwise lists the decoded ids, at
/// most one per peer.
#[verifier::external_body]
fn lf_decode(bytes: &[u8]) -> (r: Result<Vec<ID>, loro::LoroError>)
    ensures
        match r {
            Ok(v) => decoded_frontiers(bytes@) == Some(id_set(v@)) && forall|i: int, j: int| 0 <= i < j < v.len() ==> v@[i].peer != v@[j].peer,
            Err(_) => decoded_frontiers(bytes@).is_none(),
        },
{
    loro::Frontiers::decode(bytes).map(|f| f.to_vec().into_iter().map(|id| ID { peer: id.peer, counter: id.counter }).collect())
}

/// Whether `v` holds `id` among its entries.
fn holds(v: &Vec<ID>, id: ID) -> (r: bool)
    ensures
        r == v@.contains(id),
{
    let mut i: usize = 0;
    while i < v.len()
        invariant
            i <= v.len(),
            forall|k: int| 0 <= k < i ==> v@[k] != id,
        decreases v.len() - i,
    {
        if v[i].peer == id.peer && v[i].counter == id.counter {
            assert(v@[i as int] == id);
            return true;
        }
        i = i + 1;
    }
    false
}

/// Whether every entry of `a` is among those of `b`.
fn all_held(a: &Vec<ID>, b: &Vec<ID>) -> (r: bool)
    ensures
        r == forall|i: int| 0 <= i < a.len() ==> b@.contains(#[trigger] a@[i]),
{
    let mut i: usize = 0;
    while i < a.len()
        invariant
            i <= a.len(),
            forall|k: int| 0 <= k < i ==> b@.contains(#[trigger] a@[k]),
        decreases a.len() - i,
    {
        if !holds(b, a[i]) {
            return false;
        }
        i = i + 1;
    }
    true
}

/// The tips of the history, as a set of ids.
///
/// The ids are kept as given: the structure does not drop ids that others
/// follow. Building frontiers that are not minimal is the caller's error.
pub struct Frontiers {
    ids: Vec<ID>,
}

impl View for Frontiers {
    type V = Set<ID>;

    /// The ids.
    closed spec fn view(&self) -> Set<ID> {
        id_set(self.ids@)
    }
}

impl Frontiers {
    /// No id is stored twice.
    pub closed spec fn wf(&self) -> bool {
        no_repeats(self.ids@)
    }

    pub fn new() -> (r: Frontiers)
        ensures
            r.wf(),
            r@ == Set::<ID>::empty(),
    {
        let r = Frontiers { ids: Vec::new() };
        assert(r@ =~= Set::<ID>::empty());
        r
    }

    /// The frontiers of the single id `id`.
    pub fn from_id(id: ID) -> (r: Frontiers)
        ensures
            r.wf(),
            r@ == set![id],
    {
        let mut ids: Vec<ID> = Vec::new();
        ids.push(id);
        let r = Frontiers { ids };
        assert(r.ids@[0] == id);
        assert(r@ =~= set![id]);
        r
    }

    /// The frontiers of exactly the ids given.
    pub fn from_ids(ids: Vec<ID>) -> (r: Frontiers)
        ensures
            r.wf(),
            r@ == id_set(ids@),
    {
        let mut kept: Vec<ID> = Vec::new();
        let mut i: usize = 0;
        while i < ids.len()
            invariant
                i <= ids.len(),
                no_repeats(kept@),
                id_set(kept@) == id_set(ids@.subrange(0, i as int)),
            decreases ids.len() - i,
        {
            let id = ids[i];
            let ghost before = kept@;
            if !holds(&kept, id) {
                kept.push(id);
                assert forall|a: int, b: int| 0 <= a < b < kept.len() implies kept@[a] != kept@[b] by {
                    if b == before.len() {
                        assert(before.contains(before[a]));
                    } else {
                        assert(before[a] != before[b]);
                    }
                }
            }
            assert(id_set(kept@) =~= id_set(ids@.subrange(0, i + 1))) by {
                assert forall|x: ID| kept@.contains(x) implies ids@.subrange(0, i + 1).contains(x) by {
                    let k = choose|k: int| 0 <= k < kept.len() && kept@[k] == x;
                    if k < before.len() {
                        assert(before.contains(x));
                        assert(id_set(before).contains(x));
                        assert(ids@.subrange(0, i as int).contains(x));
                        let j = choose|j: int| 0 <= j < i && #[trigger] ids@.subrange(0, i as int)[j] == x;
                        assert(ids@.subrange(0, i + 1)[j] == x);
                    } else {
                        assert(ids@.subrange(0, i + 1)[i as int] == x);
                    }
                }
                assert forall|x: ID| ids@.subrange(0, i + 1).contains(x) implies kept@.contains(x) by {
                    let j = choose|j: int| 0 <= j < i + 1 && #[trigger] ids@.subrange(0, i + 1)[j] == x;
                    if j < i {
                        assert(ids@.subrange(0, i as int)[j] == x);
                        assert(ids@.subrange(0, i as int).contains(x));
                        assert(id_set(before).contains(x));
                        let k = choose|k: int| 0 <= k < before.len() && before[k] == x;
                        assert(kept@[k] == x);
                    } else if before.contains(x) {
                        let k = choose|k: int| 0 <= k < before.len() && before[k] == x;
                        assert(kept@[k] == x);
                    } else {
                        assert(kept@[before.len() as int] == x);
                    }
                }
            }
            i = i + 1;
        }
        assert(ids@.subrange(0, ids.len() as int) =~= ids@);
        Frontiers { ids: kept }
    }

    /// The binary encoding. For minimal frontiers, at most one id per peer,
    /// `decode` gives back the same ids.
    pub fn encode(&self) -> (r: Vec<u8>)
        ensures
            one_per_peer(self@) ==> decoded_frontiers(r@) == Some(self@),
    {
        lf_encode(&self.ids)
    }

    /// Reads encoded frontiers; fails, with nothing built, on bytes that are not
    /// such an encoding.
    pub fn decode(bytes: &[u8]) -> (r: Result<Frontiers, DecodeError>)
        ensures
            match r {
                Ok(f) => decoded_frontiers(bytes@) == Some(f@) && f.wf() && one_per_peer(f@),
                Err(e) => decoded_frontiers(bytes@).is_none() && e == DecodeError::Frontiers,
            },
    {
        match lf_decode(bytes) {
            Ok(ids) => {
                let f = Frontiers { ids };
                proof {
                    assert forall|a: ID, b: ID| f@.contains(a) && f@.contains(b) && a.peer == b.peer implies a == b by {
                        let i = choose|i: int| 0 <= i < f.ids.len() && f.ids@[i] == a;
                        let j = choose|j: int| 0 <= j < f.ids.len() && f.ids@[j] == b;
                        if i < j {
                            assert(f.ids@[i].peer != f.ids@[j].peer);
                        } else if j < i {
                            assert(f.ids@[j].peer != f.ids@[i].peer);
                        }
                    }
                    assert forall|i: int, j: int| 0 <= i < j < f.ids.len() implies f.ids@[i] != f.ids@[j] by {
                        assert(f.ids@[i].peer != f.ids@[j].peer);
                    }
                }
                Ok(f)
            },
            Err(_) => Err(DecodeError::Frontiers),
        }
    }

    /// Whether there is no tip: the start of history.
    pub fn is_empty(&self) -> (r: bool)
        ensures
            r == (self@ == Set::<ID>::empty()),
    {
        if self.ids.len() == 0 {
            assert(self@ =~= Set::<ID>::empty());
            true
        } else {
            assert(self.ids@.contains(self.ids@[0]));
            assert(self@.contains(self.ids@[0]));
            false
        }
    }

    /// The ids, each once, in no particular order.
    pub fn to_vec(&self) -> (r: Vec<ID>)
        requires
            self.wf(),
        ensures
            id_set(r@) == self@,
            no_repeats(r@),
    {
        self.ids.clone()
    }
}

impl PartialEq for Frontiers {
    /// Set equality of the ids, whatever the order in which they are stored.
    fn eq(&self, other: &Self) -> (r: bool) {
        let ab = all_held(&self.ids, &other.ids);
        let ba = all_held(&other.ids, &self.ids);
        let r = ab && ba;
        proof {
            let a = self.ids@;
            let b = other.ids@;
            if r {
                assert forall|x: ID| a.contains(x) implies b.contains(x) by {
                    let i = choose|i: int| 0 <= i < a.len() && a[i] == x;
                }
                assert forall|x: ID| b.contains(x) implies a.contains(x) by {
                    let i = choose|i: int| 0 <= i < b.len() && b[i] == x;
                }
                assert(self@ =~= other@);
            } else if self@ == other@ {
                if !ab {
                    let i = choose|i: int| 0 <= i < a.len() && !b.contains(#[trigger] a[i]);
                    assert(a.contains(a[i]));
                    assert(self@.contains(a[i]));
                    assert(other@.contains(a[i]));
                } else {
                    let i = choose|i: int| 0 <= i < b.len() && !a.contains(#[trigger] b[i]);
                    assert(b.contains(b[i]));
                    assert(other@.contains(b[i]));
                    assert(self@.contains(b[i]));
                }
            }
        }
        r
    }
}

impl vstd::std_specs::cmp::PartialEqSpecImpl for Frontiers {
    open spec fn obeys_eq_spec() -> bool {
        true
    }

    open spec fn eq_spec(&self, other: &Self) -> bool {
        self@ == other@
    }
}

impl Eq for Frontiers {}

impl Default for Frontiers {
    fn default() -> (r: Frontiers)
        ensures
            r.wf(),
            r@ == Set::<ID>::empty(),
    {
        Frontiers::new()
    }
}

} // verus!
