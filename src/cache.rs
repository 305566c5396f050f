use vstd::prelude::*;
use crate::message::{DnsMessage, MessageModel};

verus! {

/// How long a cached response stays valid, in milliseconds.
pub const CACHE_TTL_MS: u64 = 60_000;

/// The fingerprint of a query: name, type and class of its first question.
pub struct CacheKey {
    pub name: String,
    pub qtype: u16,
    pub qclass: u16,
}

impl View for CacheKey {
    type V = (Seq<char>, u16, u16);

    open spec fn view(&self) -> (Seq<char>, u16, u16) {
        (self.name@, self.qtype, self.qclass)
    }
}

/// The fingerprint of a request, where it has a question.
pub open spec fn key_of(request: MessageModel) -> Option<(Seq<char>, u16, u16)> {
    if request.queries.len() > 0 {
        Some((request.queries[0].name, request.queries[0].qtype, request.queries[0].qclass))
    } else {
        None
    }
}

/// The fingerprint of `request`; none where it has no question.
pub fn cache_key(request: &DnsMessage) -> (r: Option<CacheKey>)
    ensures
        match r {
            Some(k) => key_of(request@) == Some(k@),
            None => key_of(request@) is None,
        },
{
    if request.queries.len() == 0 {
        None
    } else {
        let q = &request.queries[0];
        Some(CacheKey { name: q.name.clone(), qtype: q.qtype, qclass: q.qclass })
    }
}

/// `now + ttl`, or the largest time where that would not fit.
pub open spec fn expiry(now: u64, ttl: u64) -> u64 {
    if now <= u64::MAX - ttl {
        (now + ttl) as u64
    } else {
        u64::MAX
    }
}

pub fn expiry_of(now: u64, ttl: u64) -> (r: u64)
    ensures
        r == expiry(now, ttl),
{
    if now <= u64::MAX - ttl {
        now + ttl
    } else {
        u64::MAX
    }
}

/// One stored response of the cache plugin at index `owner`.
pub struct CacheEntry {
    pub owner: usize,
    pub key: CacheKey,
    pub response: DnsMessage,
    pub valid_until: u64,
}

/// The address of an entry: the owning plugin and the fingerprint.
pub type Slot = (usize, (Seq<char>, u16, u16));

/// The stored responses of every cache plugin, each slot once.
pub struct CacheTable {
    pub entries: Vec<CacheEntry>,
}

impl CacheTable {
    pub open spec fn slots(&self) -> Seq<Slot> {
        self.entries@.map_values(|e: CacheEntry| (e.owner, e.key@))
    }

    pub open spec fn wf(&self) -> bool {
        self.slots().no_duplicates()
    }

    pub open spec fn has(&self, s: Slot) -> bool {
        self.slots().contains(s)
    }

    /// The response stored in slot `s` and the time until which it is valid.
    pub open spec fn stored(&self, s: Slot) -> (MessageModel, u64) {
        let e = self.entries@[self.slots().index_of(s)];
        (e.response@, e.valid_until)
    }

    /// What a lookup of slot `s` at time `now` finds: a stored response still valid.
    pub open spec fn hit(&self, s: Slot, now: u64) -> Option<MessageModel> {
        if self.has(s) && self.stored(s).1 > now {
            Some(self.stored(s).0)
        } else {
            None
        }
    }

    pub fn new() -> (r: CacheTable)
        ensures
            r.wf(),
            forall|s: Slot| !r.has(s),
    {
        CacheTable { entries: Vec::new() }
    }

    fn position(&self, owner: usize, key: &CacheKey) -> (r: Option<usize>)
        requires
            self.wf(),
        ensures
            r matches Some(i) ==> i < self.entries@.len() && self.slots().index_of((owner, key@))
                == i && self.has((owner, key@)),
            r is None ==> !self.has((owner, key@)),
    {
        let mut i: usize = 0;
        while i < self.entries.len()
            invariant
                self.wf(),
                i <= self.entries@.len(),
                forall|j: int| 0 <= j < i ==> self.slots()[j] != (owner, key@),
            decreases self.entries@.len() - i,
        {
            let e = &self.entries[i];
            if e.owner == owner && e.key.qtype == key.qtype && e.key.qclass == key.qclass
                && e.key.name == key.name {
                assert(self.slots()[i as int] == (owner, key@));
                assert(self.slots().contains((owner, key@)));
                let ghost k = self.slots().index_of((owner, key@));
                assert(self.slots()[k] == (owner, key@));
                assert(k == i as int);
                return Some(i);
            }
            i = i + 1;
        }
        None
    }

    /// The response stored for `key` by cache `owner`, if still valid at `now`. An entry
    /// found expired is removed.
    pub fn lookup(&mut self, owner: usize, key: &CacheKey, now: u64) -> (r: Option<DnsMessage>)
        requires
            old(self).wf(),
        ensures
            final(self).wf(),
            match r {
                Some(m) => old(self).hit((owner, key@), now) == Some(m@),
                None => old(self).hit((owner, key@), now) is None,
            },
            r is Some ==> final(self).has((owner, key@)) && final(self).stored((owner, key@))
                == old(self).stored((owner, key@)),
            r is None ==> !final(self).has((owner, key@)),
            forall|s: Slot|
                s != (owner, key@) ==> (#[trigger] final(self).has(s) == old(self).has(s) && (old(
                    self,
                ).has(s) ==> final(self).stored(s) == old(self).stored(s))),
    {
        match self.position(owner, key) {
            None => None,
            Some(i) => {
                if self.entries[i].valid_until > now {
                    Some(self.entries[i].response.duplicate())
                } else {
                    let ghost os = self.slots();
                    let ghost oe = self.entries@;
                    self.entries.remove(i);
                    assert(self.slots() =~= os.remove(i as int));
                    assert forall|a: int, b: int|
                        0 <= a < b < self.slots().len() implies self.slots()[a] != self.slots()[b] by {
                        let oa = if a < i { a } else { a + 1 };
                        let ob = if b < i { b } else { b + 1 };
                        assert(self.slots()[a] == os[oa]);
                        assert(self.slots()[b] == os[ob]);
                    }
                    assert forall|s: Slot| s != (owner, key@) implies (#[trigger] self.has(s) == old(
                        self,
                    ).has(s) && (old(self).has(s) ==> self.stored(s) == old(self).stored(s))) by {
                        if old(self).has(s) {
                            let k = os.index_of(s);
                            assert(os[k] == s);
                            assert(k != i);
                            let nk = if k < i { k } else { k - 1 };
                            assert(self.slots()[nk] == s);
                            assert(self.has(s));
                            let k2 = self.slots().index_of(s);
                            assert(self.slots()[k2] == s);
                            assert(k2 == nk);
                            assert(self.entries@[nk] == oe[k]);
                        }
                        if self.has(s) {
                            let k2 = self.slots().index_of(s);
                            assert(self.slots()[k2] == s);
                            let ok = if k2 < i { k2 } else { k2 + 1 };
                            assert(os[ok] == s);
                        }
                    }
                    assert(!self.has((owner, key@))) by {
                        if self.has((owner, key@)) {
                            let k2 = self.slots().index_of((owner, key@));
                            assert(self.slots()[k2] == (owner, key@));
                            let ok = if k2 < i { k2 } else { k2 + 1 };
                            assert(os[ok] == (owner, key@));
                        }
                    }
                    None
                }
            },
        }
    }

    /// Stores `response` for `key` of cache `owner`, valid until `valid_until`; an earlier
    /// entry of that slot is replaced.
    pub fn insert(&mut self, owner: usize, key: CacheKey, response: DnsMessage, valid_until: u64)
        requires
            old(self).wf(),
        ensures
            final(self).wf(),
            final(self).has((owner, key@)),
            final(self).stored((owner, key@)) == (response@, valid_until),
            forall|s: Slot| s != (owner, key@) ==> #[trigger] final(self).has(s) == old(self).has(s),
            forall|s: Slot|
                s != (owner, key@) && #[trigger] old(self).has(s) ==> final(self).stored(s) == old(
                    self,
                ).stored(s),
    {
        let ghost sl = (owner, key@);
        let ghost os = self.slots();
        let ghost oe = self.entries@;
        let ghost rm = response@;
        let ghost kv = key@;
        match self.position(owner, &key) {
            Some(i) => {
                self.entries.set(i, CacheEntry { owner, key, response, valid_until });
                assert(self.slots() =~= os);
                assert forall|s: Slot| #![trigger self.has(s)] #![trigger old(self).has(s)] s != sl implies self.has(s) == old(self).has(s) && (
                old(self).has(s) ==> self.stored(s) == old(self).stored(s)) by {
                    if old(self).has(s) {
                        let k = os.index_of(s);
                        assert(os[k] == s);
                        assert(k != i);
                        assert(self.slots().index_of(s) == k);
                        assert(self.entries@[k] == oe[k]);
                        assert(self.stored(s) == old(self).stored(s));
                    }
                }
            },
            None => {
                self.entries.push(CacheEntry { owner, key, response, valid_until });
                let ghost last = os.len() as int;
                assert(self.slots() =~= os.push(sl));
                assert(self.slots()[last] == sl);
                assert(self.slots().index_of(sl) == last) by {
                    let k = self.slots().index_of(sl);
                    assert(self.slots()[k] == sl);
                    if k != last {
                        assert(os[k] == sl);
                    }
                }
                assert forall|s: Slot| #![trigger self.has(s)] #![trigger old(self).has(s)] s != sl implies self.has(s) == old(self).has(s) && (
                old(self).has(s) ==> self.stored(s) == old(self).stored(s)) by {
                    if old(self).has(s) {
                        let k = os.index_of(s);
                        assert(os[k] == s);
                        assert(self.slots()[k] == s);
                        let k2 = self.slots().index_of(s);
                        assert(self.slots()[k2] == s);
                        assert(k2 == k);
                        assert(self.entries@[k] == oe[k]);
                        assert(self.stored(s) == old(self).stored(s));
                    }
                    if self.has(s) {
                        let k2 = self.slots().index_of(s);
                        assert(self.slots()[k2] == s);
                        assert(k2 != last);
                        assert(os[k2] == s);
                    }
                }
            },
        }
        assert(sl == (owner, kv));
    }
}

} // verus!
