//! Per-session decode context: what each monitored BGP session negotiated.
use vstd::prelude::*;

use crate::bgp::{caps_view, BgpCapability, CapView};
use crate::peer::{BmpPeerType, PeerHeader};
use crate::wire::{be_value, lemma_be_value_bound, lemma_pow256_facts, read_be};

verus! {

/// Capability code of ADD-PATH.
pub const BGP_CAPABILITY_ADD_PATH: u8 = 69;

/// Capability code of Multiple Labels.
pub const BGP_CAPABILITY_MULTIPLE_LABELS: u8 = 8;

/// The map that inserting the pairs of `s` in order, the later winning, gives.
pub open spec fn map_of<K, V>(s: Seq<(K, V)>) -> Map<K, V>
    decreases s.len(),
{
    if s.len() == 0 {
        Map::empty()
    } else {
        map_of(s.drop_last()).insert(s.last().0, s.last().1)
    }
}

/// Pairs after `i` that do not have the key `k` do not change what the map holds at `k`.
pub proof fn lemma_map_of_prefix<K, V>(s: Seq<(K, V)>, i: int, k: K)
    requires
        0 <= i <= s.len(),
        forall|j: int| i <= j < s.len() ==> s[j].0 != k,
    ensures
        map_of(s).contains_key(k) == map_of(s.take(i)).contains_key(k),
        map_of(s).contains_key(k) ==> map_of(s)[k] == map_of(s.take(i))[k],
    decreases s.len(),
{
    if i == s.len() {
        assert(s.take(i) =~= s);
    } else {
        assert(s.take(i) =~= s.drop_last().take(i));
        lemma_map_of_prefix(s.drop_last(), i, k);
    }
}

/// Overwriting the last pair with key `k` is inserting at `k`.
pub proof fn lemma_map_of_update_last<K, V>(s: Seq<(K, V)>, i: int, v: V)
    requires
        0 <= i < s.len(),
        forall|j: int| i < j < s.len() ==> s[j].0 != s[i].0,
    ensures
        map_of(s.update(i, (s[i].0, v))) == map_of(s).insert(s[i].0, v),
    decreases s.len(),
{
    let k = s[i].0;
    let t = s.update(i, (k, v));
    if i == s.len() - 1 {
        assert(t.drop_last() =~= s.drop_last());
        assert(map_of(t) =~= map_of(s).insert(k, v));
    } else {
        assert(t.drop_last() =~= s.drop_last().update(i, (k, v)));
        lemma_map_of_update_last(s.drop_last(), i, v);
        assert(map_of(t) =~= map_of(s).insert(k, v));
    }
}

/// The address type (AFI and SAFI) of the four-octet entry at `k` of `v`, as `afi << 8 | safi`.
pub open spec fn entry_address_type(v: Seq<u8>, k: int) -> u32 {
    (be_value(v.subrange(k, k + 2)) * 256 + v[k + 2] as nat) as u32
}

/// The ADD-PATH entries of a capability value: address type and whether receiving is on.
pub open spec fn cap_add_path_entries(v: Seq<u8>) -> Seq<(u32, bool)> {
    Seq::new(v.len() / 4, |j: int| (entry_address_type(v, 4 * j), v[4 * j + 3] & 1 != 0))
}

/// The Multiple Labels entries of a capability value: address type and label count.
pub open spec fn cap_label_entries(v: Seq<u8>) -> Seq<(u32, u8)> {
    Seq::new(v.len() / 4, |j: int| (entry_address_type(v, 4 * j), v[4 * j + 3]))
}

/// The ADD-PATH entries of all capabilities, in order.
pub open spec fn add_path_entries(caps: Seq<CapView>) -> Seq<(u32, bool)>
    decreases caps.len(),
{
    if caps.len() == 0 {
        Seq::empty()
    } else {
        add_path_entries(caps.drop_last()) + if caps.last().0 == BGP_CAPABILITY_ADD_PATH {
            cap_add_path_entries(caps.last().1)
        } else {
            Seq::empty()
        }
    }
}

/// The Multiple Labels entries of all capabilities, in order.
pub open spec fn label_entries(caps: Seq<CapView>) -> Seq<(u32, u8)>
    decreases caps.len(),
{
    if caps.len() == 0 {
        Seq::empty()
    } else {
        label_entries(caps.drop_last()) + if caps.last().0 == BGP_CAPABILITY_MULTIPLE_LABELS {
            cap_label_entries(caps.last().1)
        } else {
            Seq::empty()
        }
    }
}

/// A context seen as two maps keyed by address type: ADD-PATH receive flags and label counts.
pub type ContextView = (Map<u32, bool>, Map<u32, u8>);

/// The context that a set of offered capabilities establishes.
pub open spec fn context_of(caps: Seq<CapView>) -> ContextView {
    (map_of(add_path_entries(caps)), map_of(label_entries(caps)))
}

/// The ADD-PATH and Multiple Labels entries of `capabilities`, in the order offered.
pub fn get_caps(capabilities: &Vec<BgpCapability>) -> (r: (Vec<(u32, bool)>, Vec<(u32, u8)>))
    ensures
        r.0@ == add_path_entries(caps_view(capabilities@)),
        r.1@ == label_entries(caps_view(capabilities@)),
{
    let ghost cv = caps_view(capabilities@);
    let mut add_path: Vec<(u32, bool)> = Vec::new();
    let mut labels: Vec<(u32, u8)> = Vec::new();
    let mut i: usize = 0;
    while i < capabilities.len()
        invariant
            i <= capabilities@.len(),
            cv == caps_view(capabilities@),
            add_path@ == add_path_entries(cv.take(i as int)),
            labels@ == label_entries(cv.take(i as int)),
        decreases capabilities@.len() - i,
    {
        let cap = &capabilities[i];
        let v = &cap.value;
        proof {
            assert(cv.take(i + 1).drop_last() =~= cv.take(i as int));
            assert(cv.take(i + 1).last() == cap@);
        }
        let ghost ap0 = add_path@;
        let ghost lb0 = labels@;
        let count = v.len() / 4;
        let mut j: usize = 0;
        while j < count
            invariant
                count == v@.len() / 4,
                v@.len() <= usize::MAX,
                j <= count,
                cap.code == BGP_CAPABILITY_ADD_PATH ==> add_path@ == ap0 + cap_add_path_entries(
                    v@,
                ).take(j as int),
                cap.code != BGP_CAPABILITY_ADD_PATH ==> add_path@ == ap0,
                cap.code == BGP_CAPABILITY_MULTIPLE_LABELS ==> labels@ == lb0 + cap_label_entries(
                    v@,
                ).take(j as int),
                cap.code != BGP_CAPABILITY_MULTIPLE_LABELS ==> labels@ == lb0,
            decreases count - j,
        {
            assert(4 * j + 4 <= v@.len()) by (nonlinear_arith)
                requires
                    j < count,
                    count == v@.len() / 4,
            ;
            let k = 4 * j;
            let afi = read_be(v.as_slice(), k, 2);
            proof {
                lemma_pow256_facts();
                lemma_be_value_bound(v@.subrange(k as int, k + 2));
            }
            let address_type = (afi as u32) * 256 + v[k + 2] as u32;
            if cap.code == BGP_CAPABILITY_ADD_PATH {
                add_path.push((address_type, v[k + 3] & 1 != 0));
                proof {
                    assert(add_path@ =~= ap0 + cap_add_path_entries(v@).take(j + 1));
                }
            } else if cap.code == BGP_CAPABILITY_MULTIPLE_LABELS {
                labels.push((address_type, v[k + 3]));
                proof {
                    assert(labels@ =~= lb0 + cap_label_entries(v@).take(j + 1));
                }
            }
            j += 1;
        }
        proof {
            assert(cap_add_path_entries(v@).take(j as int) =~= cap_add_path_entries(v@));
            assert(cap_label_entries(v@).take(j as int) =~= cap_label_entries(v@));
            assert(ap0 + Seq::<(u32, bool)>::empty() =~= ap0);
            assert(lb0 + Seq::<(u32, u8)>::empty() =~= lb0);
        }
        i += 1;
    }
    assert(cv.take(i as int) =~= cv);
    (add_path, labels)
}

/// What one BGP session negotiated, as pairs keyed by address type; a later pair wins.
#[derive(Clone, Debug, PartialEq, Eq)]
pub struct BgpParsingContext {
    pub add_path: Vec<(u32, bool)>,
    pub multiple_labels: Vec<(u32, u8)>,
}

impl View for BgpParsingContext {
    type V = ContextView;

    open spec fn view(&self) -> ContextView {
        (map_of(self.add_path@), map_of(self.multiple_labels@))
    }
}

impl BgpParsingContext {
    /// The context with nothing negotiated.
    pub fn new() -> (r: BgpParsingContext)
        ensures
            r@ == (Map::<u32, bool>::empty(), Map::<u32, u8>::empty()),
    {
        BgpParsingContext { add_path: Vec::new(), multiple_labels: Vec::new() }
    }

    /// The context that the capabilities of an OPEN message establish.
    pub fn from_capabilities(capabilities: &Vec<BgpCapability>) -> (r: BgpParsingContext)
        ensures
            r@ == context_of(caps_view(capabilities@)),
    {
        let (add_path, multiple_labels) = get_caps(capabilities);
        BgpParsingContext { add_path, multiple_labels }
    }

    /// Whether ADD-PATH receiving is on for `address_type`; off when not negotiated.
    pub fn add_path_receive(&self, address_type: u32) -> (r: bool)
        ensures
            r == (self@.0.contains_key(address_type) && self@.0[address_type]),
    {
        let mut i = self.add_path.len();
        while i > 0
            invariant
                i <= self.add_path@.len(),
                forall|j: int| i <= j < self.add_path@.len() ==> self.add_path@[j].0 != address_type,
            decreases i,
        {
            let ghost t = self.add_path@.take(i as int);
            assert(t.drop_last() =~= self.add_path@.take(i - 1));
            if self.add_path[i - 1].0 == address_type {
                proof {
                    lemma_map_of_prefix(self.add_path@, i as int, address_type);
                }
                return self.add_path[i - 1].1;
            }
            i -= 1;
        }
        proof {
            lemma_map_of_prefix(self.add_path@, 0, address_type);
        }
        assert(self.add_path@.take(0) =~= Seq::<(u32, bool)>::empty());
        false
    }

    /// The number of labels negotiated for `address_type`; none when not negotiated.
    pub fn multiple_labels_count(&self, address_type: u32) -> (r: Option<u8>)
        ensures
            r == (if self@.1.contains_key(address_type) {
                Some(self@.1[address_type])
            } else {
                None
            }),
    {
        let mut i = self.multiple_labels.len();
        while i > 0
            invariant
                i <= self.multiple_labels@.len(),
                forall|j: int| i <= j < self.multiple_labels@.len() ==> self.multiple_labels@[j].0 != address_type,
            decreases i,
        {
            let ghost t = self.multiple_labels@.take(i as int);
            assert(t.drop_last() =~= self.multiple_labels@.take(i - 1));
            if self.multiple_labels[i - 1].0 == address_type {
                proof {
                    lemma_map_of_prefix(self.multiple_labels@, i as int, address_type);
                }
                return Some(self.multiple_labels[i - 1].1);
            }
            i -= 1;
        }
        proof {
            lemma_map_of_prefix(self.multiple_labels@, 0, address_type);
        }
        assert(self.multiple_labels@.take(0) =~= Seq::<(u32, u8)>::empty());
        None
    }
}

/// Identity of a monitored BGP session.
#[derive(Clone, Copy, Debug, PartialEq, Eq, Structural)]
pub struct PeerKey {
    pub address: u128,
    pub peer_type: BmpPeerType,
    pub distinguisher: u64,
    pub peer_as: u32,
    pub bgp_id: u32,
}

/// The key of the session that a peer header describes.
pub open spec fn key_of(h: PeerHeader) -> PeerKey {
    PeerKey {
        address: h.address,
        peer_type: h.peer_type,
        distinguisher: h.distinguisher,
        peer_as: h.peer_as,
        bgp_id: h.bgp_id,
    }
}

impl PeerKey {
    /// A key from its parts.
    pub fn new(
        address: u128,
        peer_type: BmpPeerType,
        distinguisher: u64,
        peer_as: u32,
        bgp_id: u32,
    ) -> (r: PeerKey)
        ensures
            r == (PeerKey { address, peer_type, distinguisher, peer_as, bgp_id }),
    {
        PeerKey { address, peer_type, distinguisher, peer_as, bgp_id }
    }

    /// The key of the session that `h` describes.
    pub fn from_peer_header(h: &PeerHeader) -> (r: PeerKey)
        ensures
            r == key_of(*h),
    {
        PeerKey {
            address: h.address,
            peer_type: h.peer_type,
            distinguisher: h.distinguisher,
            peer_as: h.peer_as,
            bgp_id: h.bgp_id,
        }
    }
}

/// The entries of a context store.
pub type StoreEntries = Seq<(PeerKey, BgpParsingContext)>;

/// The map that a store's entries hold.
pub open spec fn store_view(s: StoreEntries) -> Map<PeerKey, ContextView>
    decreases s.len(),
{
    if s.len() == 0 {
        Map::empty()
    } else {
        store_view(s.drop_last()).insert(s.last().0, s.last().1@)
    }
}

/// No two entries share a key.
pub open spec fn keys_unique(s: StoreEntries) -> bool {
    forall|i: int, j: int| 0 <= i < s.len() && 0 <= j < s.len() && i != j ==> s[i].0 != s[j].0
}

pub proof fn lemma_store_domain(s: StoreEntries, k: PeerKey)
    ensures
        store_view(s).contains_key(k) == (exists|j: int| 0 <= j < s.len() && s[j].0 == k),
    decreases s.len(),
{
    if s.len() > 0 {
        lemma_store_domain(s.drop_last(), k);
        if store_view(s).contains_key(k) && s.last().0 != k {
            let j = choose|j: int| 0 <= j < s.len() - 1 && s.drop_last()[j].0 == k;
            assert(s[j].0 == k);
        }
        if exists|j: int| 0 <= j < s.len() && s[j].0 == k {
            let j = choose|j: int| 0 <= j < s.len() && s[j].0 == k;
            if j < s.len() - 1 {
                assert(s.drop_last()[j].0 == k);
            }
        }
    }
}

pub proof fn lemma_store_lookup(s: StoreEntries, i: int)
    requires
        keys_unique(s),
        0 <= i < s.len(),
    ensures
        store_view(s).contains_key(s[i].0),
        store_view(s)[s[i].0] == s[i].1@,
    decreases s.len(),
{
    if i < s.len() - 1 {
        lemma_store_lookup(s.drop_last(), i);
        assert(s.last().0 != s[i].0);
    }
}

pub proof fn lemma_store_remove(s: StoreEntries, i: int)
    requires
        keys_unique(s),
        0 <= i < s.len(),
    ensures
        store_view(s.remove(i)) == store_view(s).remove(s[i].0),
        keys_unique(s.remove(i)),
    decreases s.len(),
{
    let k = s[i].0;
    let dl = s.drop_last();
    if i == s.len() - 1 {
        assert(s.remove(i) =~= dl);
        lemma_store_domain(dl, k);
        assert(store_view(s).remove(k) =~= store_view(dl));
    } else {
        assert(s.remove(i) =~= dl.remove(i).push(s.last()));
        assert(s.remove(i).drop_last() =~= dl.remove(i));
        lemma_store_remove(dl, i);
        assert(s.last().0 != k);
        assert(store_view(s.remove(i)) =~= store_view(s).remove(k));
    }
}

pub proof fn lemma_store_set(s: StoreEntries, i: int, c: BgpParsingContext)
    requires
        keys_unique(s),
        0 <= i < s.len(),
    ensures
        store_view(s.update(i, (s[i].0, c))) == store_view(s).insert(s[i].0, c@),
        keys_unique(s.update(i, (s[i].0, c))),
    decreases s.len(),
{
    let k = s[i].0;
    let dl = s.drop_last();
    let t = s.update(i, (k, c));
    if i == s.len() - 1 {
        assert(t.drop_last() =~= dl);
        assert(store_view(t) =~= store_view(s).insert(k, c@));
    } else {
        assert(t.drop_last() =~= dl.update(i, (k, c)));
        lemma_store_set(dl, i, c);
        assert(s.last().0 != k);
        assert(store_view(t) =~= store_view(s).insert(k, c@));
    }
}

/// Index of the entry with key `k`, if any.
pub fn find_key(v: &Vec<(PeerKey, BgpParsingContext)>, k: &PeerKey) -> (r: Option<usize>)
    ensures
        r matches Some(i) ==> i < v@.len() && v@[i as int].0 == *k,
        r is None ==> forall|j: int| 0 <= j < v@.len() ==> v@[j].0 != *k,
{
    let mut i: usize = 0;
    while i < v.len()
        invariant
            i <= v@.len(),
            forall|j: int| 0 <= j < i ==> v@[j].0 != *k,
        decreases v@.len() - i,
    {
        if v[i].0 == *k {
            return Some(i);
        }
        i += 1;
    }
    None
}

} // verus!
