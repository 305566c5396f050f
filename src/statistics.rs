use vstd::prelude::*;
use crate::message::IpAddress;

verus! {

/// The counters kept for one queried name.
pub struct DomainStats {
    pub count: usize,
    /// Milliseconds since the Unix epoch.
    pub last_resolved_at: i64,
    pub last_resolved_remote: bool,
    pub ips: Vec<IpAddress>,
    pub cache_hits: usize,
}

/// `n + 1`, or `n` where that would not fit.
pub open spec fn bump(n: usize) -> usize {
    if n < usize::MAX {
        (n + 1) as usize
    } else {
        n
    }
}

fn bump_count(n: usize) -> (r: usize)
    ensures
        r == bump(n),
{
    if n < usize::MAX {
        n + 1
    } else {
        n
    }
}

fn copy_ips(v: &Vec<IpAddress>) -> (r: Vec<IpAddress>)
    ensures
        r@ == v@,
{
    let mut r: Vec<IpAddress> = Vec::new();
    let mut i: usize = 0;
    while i < v.len()
        invariant
            i <= v@.len(),
            r@ == v@.subrange(0, i as int),
        decreases v@.len() - i,
    {
        r.push(v[i]);
        i = i + 1;
    }
    assert(r@ =~= v@);
    r
}

/// `after` is `before` with one query of `name` counted at time `now`: a new name starts
/// with count 1 and nothing else; other names and fields stay as they were.
pub open spec fn request_counted(before: Statistics, after: Statistics, name: Seq<char>, now: i64) -> bool {
    &&& after.has(name)
    &&& ({
        let e = after.entry(name);
        &&& e.last_resolved_at == now
        &&& if before.has(name) {
            let o = before.entry(name);
            &&& e.count == bump(o.count)
            &&& e.last_resolved_remote == o.last_resolved_remote
            &&& e.ips@ == o.ips@
            &&& e.cache_hits == o.cache_hits
        } else {
            &&& e.count == 1
            &&& !e.last_resolved_remote
            &&& e.ips@.len() == 0
            &&& e.cache_hits == 0
        }
    })
    &&& forall|n: Seq<char>|
        n != name ==> (#[trigger] after.has(n) == before.has(n) && (before.has(n) ==> after.entry(n) == before.entry(n)))
}

/// `after` is `before` with one cache hit of `name` counted; a new name starts at time
/// `now` with count 0; other names and fields stay as they were.
pub open spec fn hit_counted(before: Statistics, after: Statistics, name: Seq<char>, now: i64) -> bool {
    &&& after.has(name)
    &&& ({
        let e = after.entry(name);
        if before.has(name) {
            let o = before.entry(name);
            &&& e.cache_hits == bump(o.cache_hits)
            &&& e.count == o.count
            &&& e.last_resolved_at == o.last_resolved_at
            &&& e.last_resolved_remote == o.last_resolved_remote
            &&& e.ips@ == o.ips@
        } else {
            &&& e.cache_hits == 1
            &&& e.count == 0
            &&& e.last_resolved_at == now
            &&& !e.last_resolved_remote
            &&& e.ips@.len() == 0
        }
    })
    &&& forall|n: Seq<char>|
        n != name ==> (#[trigger] after.has(n) == before.has(n) && (before.has(n) ==> after.entry(n) == before.entry(n)))
}

/// Per-name counters, each name once.
pub struct Statistics {
    pub domains: Vec<(String, DomainStats)>,
}

impl Statistics {
    pub open spec fn names(&self) -> Seq<Seq<char>> {
        self.domains@.map_values(|p: (String, DomainStats)| p.0@)
    }

    pub open spec fn wf(&self) -> bool {
        &&& self.names().no_duplicates()
        &&& forall|i: int|
            0 <= i < self.domains@.len() ==> (#[trigger] self.domains@[i]).1.ips@.no_duplicates()
    }

    pub open spec fn has(&self, name: Seq<char>) -> bool {
        self.names().contains(name)
    }

    /// The counters of `name`, where it has some.
    pub open spec fn entry(&self, name: Seq<char>) -> DomainStats {
        self.domains@[self.names().index_of(name)].1
    }

    pub fn new() -> (r: Statistics)
        ensures
            r.wf(),
            r.domains@.len() == 0,
    {
        Statistics { domains: Vec::new() }
    }

    /// The position of `name` among the counted names.
    fn position(&self, name: &String) -> (r: Option<usize>)
        requires
            self.wf(),
        ensures
            r matches Some(i) ==> i < self.domains@.len() && self.names().index_of(name@) == i
                && self.has(name@),
            r is None ==> !self.has(name@),
    {
        let mut i: usize = 0;
        while i < self.domains.len()
            invariant
                self.wf(),
                i <= self.domains@.len(),
                forall|j: int| 0 <= j < i ==> self.names()[j] != name@,
            decreases self.domains@.len() - i,
        {
            if self.domains[i].0 == *name {
                assert(self.names()[i as int] == name@);
                assert(self.names().contains(name@));
                let ghost k = self.names().index_of(name@);
                assert(self.names()[k] == name@);
                assert(self.names().no_duplicates());
                assert(k == i as int);
                return Some(i);
            }
            i = i + 1;
        }
        None
    }

    /// Counts one query of `domain` at the time `now` (milliseconds since the Unix epoch).
    pub fn record_request(&mut self, domain: String, now: i64)
        requires
            old(self).wf(),
        ensures
            final(self).wf(),
            request_counted(*old(self), *final(self), domain@, now),
    {
        match self.position(&domain) {
            Some(i) => {
                let o = &self.domains[i].1;
                let st = DomainStats {
                    count: bump_count(o.count),
                    last_resolved_at: now,
                    last_resolved_remote: o.last_resolved_remote,
                    ips: copy_ips(&o.ips),
                    cache_hits: o.cache_hits,
                };
                self.replace(i, domain, st);
            },
            None => {
                let st = DomainStats {
                    count: 1,
                    last_resolved_at: now,
                    last_resolved_remote: false,
                    ips: Vec::new(),
                    cache_hits: 0,
                };
                self.add(domain, st);
            },
        }
    }

    /// Counts one cache hit for `domain`; a name not counted yet starts at time `now`.
    pub fn record_cache_hit(&mut self, domain: String, now: i64)
        requires
            old(self).wf(),
        ensures
            final(self).wf(),
            hit_counted(*old(self), *final(self), domain@, now),
    {
        match self.position(&domain) {
            Some(i) => {
                let o = &self.domains[i].1;
                let st = DomainStats {
                    count: o.count,
                    last_resolved_at: o.last_resolved_at,
                    last_resolved_remote: o.last_resolved_remote,
                    ips: copy_ips(&o.ips),
                    cache_hits: bump_count(o.cache_hits),
                };
                self.replace(i, domain, st);
            },
            None => {
                let st = DomainStats {
                    count: 0,
                    last_resolved_at: now,
                    last_resolved_remote: false,
                    ips: Vec::new(),
                    cache_hits: 1,
                };
                self.add(domain, st);
            },
        }
    }

    /// For a counted `domain`: adds `ip` to its addresses and notes whether it came through
    /// a tunnel. An uncounted name is left alone.
    pub fn record_resolved_ip(&mut self, domain: &str, ip: IpAddress, is_remote: bool)
        requires
            old(self).wf(),
        ensures
            final(self).wf(),
            forall|n: Seq<char>| #[trigger] final(self).has(n) == old(self).has(n),
            !old(self).has(domain@) ==> *final(self) == *old(self),
            old(self).has(domain@) ==> ({
                let e = final(self).entry(domain@);
                let o = old(self).entry(domain@);
                &&& e.ips@.to_set() == o.ips@.to_set().insert(ip)
                &&& e.last_resolved_remote == is_remote
                &&& e.count == o.count
                &&& e.cache_hits == o.cache_hits
                &&& e.last_resolved_at == o.last_resolved_at
            }),
            forall|n: Seq<char>|
                n != domain@ && #[trigger] old(self).has(n) ==> final(self).entry(n) == old(
                    self,
                ).entry(n),
    {
        let name = domain.to_owned();
        match self.position(&name) {
            Some(i) => {
                let o = &self.domains[i].1;
                let mut ips = copy_ips(&o.ips);
                let mut seen = false;
                let mut k: usize = 0;
                while k < ips.len()
                    invariant
                        k <= ips@.len(),
                        seen == (exists|j: int| 0 <= j < k && ips@[j] == ip),
                    decreases ips@.len() - k,
                {
                    if ips[k] == ip {
                        seen = true;
                    }
                    k = k + 1;
                }
                let ghost before = ips@;
                if !seen {
                    ips.push(ip);
                    assert(ips@.no_duplicates()) by {
                        assert forall|a: int, b: int| 0 <= a < b < ips@.len() implies ips@[a] != ips@[b] by {
                            if b == ips@.len() - 1 {
                                assert(!(before[a] == ip));
                            } else {
                                assert(before[a] != before[b]);
                            }
                        }
                    }
                    assert(ips@ =~= before + seq![ip]);
                    proof {
                        Seq::<IpAddress>::lemma_to_set_insert_commutes(before, ip);
                    }
                    assert(ips@.to_set() =~= before.to_set().insert(ip));
                } else {
                    assert(before.to_set() =~= before.to_set().insert(ip));
                }
                let st = DomainStats {
                    count: o.count,
                    last_resolved_at: o.last_resolved_at,
                    last_resolved_remote: is_remote,
                    ips,
                    cache_hits: o.cache_hits,
                };
                self.replace(i, name, st);
            },
            None => {},
        }
    }

    /// The counters of `domain`, where it has some.
    pub fn get(&self, domain: &str) -> (r: Option<&DomainStats>)
        requires
            self.wf(),
        ensures
            r is Some == self.has(domain@),
            r matches Some(e) ==> *e == self.entry(domain@),
    {
        let name = domain.to_owned();
        match self.position(&name) {
            Some(i) => Some(&self.domains[i].1),
            None => None,
        }
    }

    fn replace(&mut self, i: usize, name: String, st: DomainStats)
        requires
            old(self).wf(),
            i < old(self).domains@.len(),
            old(self).domains@[i as int].0@ == name@,
            old(self).names().index_of(name@) == i,
            st.ips@.no_duplicates(),
        ensures
            final(self).wf(),
            final(self).names() == old(self).names(),
            forall|n: Seq<char>| #[trigger] final(self).has(n) == old(self).has(n),
            final(self).entry(name@) == st,
            forall|n: Seq<char>|
                n != name@ && #[trigger] old(self).has(n) ==> final(self).entry(n) == old(
                    self,
                ).entry(n),
    {
        let ghost on = old(self).names();
        self.domains.set(i, (name, st));
        assert(self.names() =~= on);
        assert forall|n: Seq<char>| n != name@ && #[trigger] old(self).has(n) implies self.entry(n)
            == old(self).entry(n) by {
            let k = on.index_of(n);
            assert(on[k] == n);
            assert(k != i);
        }
    }

    fn add(&mut self, name: String, st: DomainStats)
        requires
            old(self).wf(),
            !old(self).has(name@),
            st.ips@.no_duplicates(),
        ensures
            final(self).wf(),
            final(self).has(name@),
            final(self).entry(name@) == st,
            forall|n: Seq<char>|
                n != name@ ==> (#[trigger] final(self).has(n) == old(self).has(n) && (old(
                    self,
                ).has(n) ==> final(self).entry(n) == old(self).entry(n))),
    {
        let ghost on = old(self).names();
        let ghost nm = name@;
        self.domains.push((name, st));
        assert(self.names() =~= on.push(nm));
        let ghost last = on.len() as int;
        assert(self.names()[last] == nm);
        assert(self.names().index_of(nm) == last) by {
            let k = self.names().index_of(nm);
            assert(self.names()[k] == nm);
            if k != last {
                assert(on[k] == nm);
            }
        }
        assert forall|n: Seq<char>| n != nm implies (#[trigger] self.has(n) == old(self).has(n) && (old(
            self,
        ).has(n) ==> self.entry(n) == old(self).entry(n))) by {
            if old(self).has(n) {
                let k = on.index_of(n);
                assert(on[k] == n);
                assert(self.names()[k] == n);
                let k2 = self.names().index_of(n);
                assert(self.names()[k2] == n);
                if k2 != k {
                    assert(self.names().no_duplicates());
                }
            }
            if self.has(n) {
                let k2 = self.names().index_of(n);
                assert(self.names()[k2] == n);
                assert(k2 != last);
                assert(on[k2] == n);
            }
        }
    }
}

} // verus!
