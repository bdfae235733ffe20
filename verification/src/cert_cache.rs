//! The certificate cache: hostname to leaf certificate and key.
//!
//! Issuing a leaf certificate is expensive, so the pair produced for a
//! hostname is kept and returned verbatim on every later interception
//! of that hostname. The cache is modelled here as a map from
//! hostnames to byte pairs; the surrounding program mirrors each
//! insertion to persistent storage and seeds the cache from it. The
//! signing itself is the external collaborator's: a miss is served
//! from the freshly signed pair handed in by the caller.

use vstd::prelude::*;

use crate::bytes::{bytes_eq, copy_range, copy_vec};

verus! {

/// One cached pair: PEM certificate bytes and PEM key bytes.
pub struct CertEntry {
    /// The leaf certificate, returned verbatim.
    pub cert: Vec<u8>,
    /// Its private key, returned verbatim.
    pub key: Vec<u8>,
}

struct CacheSlot {
    host: Vec<u8>,
    cert: Vec<u8>,
    key: Vec<u8>,
}

/// The cache itself. Its model is a map from hostname bytes to
/// (certificate bytes, key bytes).
pub struct CertCache {
    slots: Vec<CacheSlot>,
}

/// What `obtain` does to the store: a hit returns the cached pair and
/// changes nothing; a miss stores the freshly signed pair and returns
/// it.
pub open spec fn spec_obtain(
    m: Map<Seq<u8>, (Seq<u8>, Seq<u8>)>,
    h: Seq<u8>,
    fresh: (Seq<u8>, Seq<u8>),
) -> (Map<Seq<u8>, (Seq<u8>, Seq<u8>)>, (Seq<u8>, Seq<u8>)) {
    if m.contains_key(h) {
        (m, m[h])
    } else {
        (m.insert(h, fresh), fresh)
    }
}

/// Idempotence law: for a hostname never seen before, the first
/// `obtain` persists exactly the pair it was handed and returns it,
/// and a second `obtain` — whatever freshly signed pair it is handed —
/// changes nothing and returns the same bytes. Exactly one pair is
/// persisted and both calls agree byte for byte.
pub proof fn lemma_obtain_idempotent(
    m: Map<Seq<u8>, (Seq<u8>, Seq<u8>)>,
    h: Seq<u8>,
    g1: (Seq<u8>, Seq<u8>),
    g2: (Seq<u8>, Seq<u8>),
)
    requires
        !m.contains_key(h),
    ensures
        ({
            let first = spec_obtain(m, h, g1);
            let second = spec_obtain(first.0, h, g2);
            &&& first.0 == m.insert(h, g1)
            &&& first.1 == g1
            &&& second.0 == first.0
            &&& second.1 == g1
        }),
{
}

impl CertCache {
    /// No two slots cache the same hostname.
    pub closed spec fn wf(&self) -> bool {
        forall|i: int, j: int|
            0 <= i < j < self.slots@.len() ==> self.slots@[i].host@ != self.slots@[j].host@
    }

    /// The map this cache holds.
    pub closed spec fn view(&self) -> Map<Seq<u8>, (Seq<u8>, Seq<u8>)> {
        Map::new(
            |h: Seq<u8>|
                exists|i: int| 0 <= i < self.slots@.len() && (#[trigger] self.slots@[i]).host@ == h,
            |h: Seq<u8>|
                {
                    let i = choose|i: int|
                        0 <= i < self.slots@.len() && (#[trigger] self.slots@[i]).host@ == h;
                    (self.slots@[i].cert@, self.slots@[i].key@)
                },
        )
    }

    /// An empty cache.
    pub fn new() -> (r: Self)
        ensures
            r.wf(),
            r@ == Map::<Seq<u8>, (Seq<u8>, Seq<u8>)>::empty(),
    {
        let r = CertCache { slots: Vec::new() };
        proof {
            assert(r@ =~= Map::<Seq<u8>, (Seq<u8>, Seq<u8>)>::empty());
        }
        r
    }

    /// The index of the slot caching `host`, if one does.
    fn find_slot(&self, host: &[u8]) -> (r: Option<usize>)
        requires
            self.wf(),
        ensures
            (match r {
                Some(i) => i < self.slots@.len() && self.slots@[i as int].host@ == host@
                    && self@.contains_key(host@)
                    && self@[host@] == (self.slots@[i as int].cert@, self.slots@[i as int].key@),
                None => !self@.contains_key(host@),
            }),
    {
        let mut i: usize = 0;
        while i < self.slots.len()
            invariant
                i <= self.slots@.len(),
                self.wf(),
                forall|k: int| 0 <= k < i ==> (#[trigger] self.slots@[k]).host@ != host@,
            decreases self.slots@.len() - i,
        {
            if bytes_eq(self.slots[i].host.as_slice(), host) {
                proof {
                    let w = choose|w: int|
                        0 <= w < self.slots@.len() && (#[trigger] self.slots@[w]).host@ == host@;
                    assert(w == i);
                }
                return Some(i);
            }
            i = i + 1;
        }
        proof {
            if self@.contains_key(host@) {
                let w = choose|w: int|
                    0 <= w < self.slots@.len() && (#[trigger] self.slots@[w]).host@ == host@;
                assert(self.slots@[w].host@ != host@);
            }
        }
        None
    }

    /// The cached pair for `host`, if one is stored.
    pub fn lookup(&self, host: &[u8]) -> (r: Option<CertEntry>)
        requires
            self.wf(),
        ensures
            (match r {
                Some(e) => self@.contains_key(host@) && self@[host@] == (e.cert@, e.key@),
                None => !self@.contains_key(host@),
            }),
    {
        match self.find_slot(host) {
            Some(i) => Some(
                CertEntry {
                    cert: copy_vec(&self.slots[i].cert),
                    key: copy_vec(&self.slots[i].key),
                },
            ),
            None => None,
        }
    }

    /// Serve `host`: the cached pair where one is stored, else the
    /// freshly signed pair handed in, which is stored for every later
    /// call. The store changes exactly as `spec_obtain` says.
    pub fn obtain(&mut self, host: &[u8], fresh: CertEntry) -> (r: CertEntry)
        requires
            old(self).wf(),
        ensures
            final(self).wf(),
            (final(self)@, (r.cert@, r.key@)) == spec_obtain(
                old(self)@,
                host@,
                (fresh.cert@, fresh.key@),
            ),
    {
        match self.find_slot(host) {
            Some(i) => CertEntry {
                cert: copy_vec(&self.slots[i].cert),
                key: copy_vec(&self.slots[i].key),
            },
            None => {
                let ghost old_slots = self.slots@;
                let ghost old_map = self@;
                let entry = CertEntry { cert: copy_vec(&fresh.cert), key: copy_vec(&fresh.key) };
                let stored_host = copy_range(host, 0, host.len());
                proof {
                    assert(host@.subrange(0, host@.len() as int) =~= host@);
                }
                self.slots.push(CacheSlot { host: stored_host, cert: fresh.cert, key: fresh.key });
                proof {
                    let slots = self.slots@;
                    // the new slot is the only one caching this hostname
                    assert forall|k: int| 0 <= k < old_slots.len()
                        implies (#[trigger] old_slots[k]).host@ != host@ by {
                        if old_slots[k].host@ == host@ {
                            assert(old_map.dom().contains(host@));
                        }
                    }
                    assert(self.wf());
                    let new_map = old_map.insert(host@, (entry.cert@, entry.key@));
                    assert forall|h: Seq<u8>| #[trigger] self@.dom().contains(h)
                        implies new_map.dom().contains(h) && self@[h] == new_map[h] by {
                        let i = choose|i: int|
                            0 <= i < slots.len() && (#[trigger] slots[i]).host@ == h;
                        if i < old_slots.len() {
                            assert(old_map.dom().contains(h));
                            let j = choose|j: int|
                                0 <= j < old_slots.len() && (#[trigger] old_slots[j]).host@ == h;
                            assert(j == i);
                        }
                    }
                    assert forall|h: Seq<u8>| #[trigger] new_map.dom().contains(h)
                        implies self@.dom().contains(h) by {
                        if h == host@ {
                            assert(slots[old_slots.len() as int].host@ == h);
                        } else {
                            let j = choose|j: int|
                                0 <= j < old_slots.len() && (#[trigger] old_slots[j]).host@ == h;
                            assert(slots[j].host@ == h);
                        }
                    }
                    assert(self@ =~= new_map);
                }
                entry
            },
        }
    }
}

} // verus!
