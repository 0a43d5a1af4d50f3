//! The authoritative service registry: the name → record table, the bounded
//! port pool it draws from, and the register / unregister / heartbeat /
//! expiry-sweep operations.
//!
//! Timestamps enter as plain `u64` readings of a monotonic clock (seconds or
//! milliseconds — the registry only compares and subtracts them). The caller
//! supplies `now`; because a monotonic clock never runs backwards, a record's
//! `last_heartbeat` is kept non-decreasing by clamping even if a caller's
//! reading misbehaves.

use vstd::prelude::*;

use crate::network::SockAddr;

verus! {

/// Liveness state of a registered service. A record is created `Ready` and a
/// successful heartbeat forces it back to `Ready`; expiry removes the record
/// outright rather than marking it `Offline` in place.
#[derive(Clone, Copy, Debug, PartialEq, Eq, Structural)]
pub enum ServiceStatus {
    Ready,
    Offline,
}

/// One registered service: its name, the virtual address and pooled port
/// assigned at registration, its creation and last-heartbeat timestamps, and
/// its liveness state.
#[derive(Debug)]
pub struct ServiceInfo {
    pub hostname: String,
    pub ip: u32,
    pub port: u16,
    pub addr: SockAddr,
    pub registered_at: u64,
    pub last_heartbeat: u64,
    pub status: ServiceStatus,
}

impl ServiceInfo {
    /// Internal consistency of one record: the socket address restates the
    /// `ip`/`port` pair, and the heartbeat timestamp never lies before the
    /// registration timestamp.
    pub open spec fn wf(self) -> bool {
        &&& self.addr == (SockAddr { ip: self.ip, port: self.port })
        &&& self.registered_at <= self.last_heartbeat
    }
}

impl Clone for ServiceInfo {
    /// A field-for-field copy of the record.
    fn clone(&self) -> (r: ServiceInfo)
        ensures
            r == *self,
    {
        ServiceInfo {
            hostname: self.hostname.clone(),
            ip: self.ip,
            port: self.port,
            addr: self.addr,
            registered_at: self.registered_at,
            last_heartbeat: self.last_heartbeat,
            status: self.status,
        }
    }
}

/// A bounded pool of TCP ports over an inclusive `[start, end]` range.
/// Allocation hands out the lowest free port; release returns a port to the
/// free set and is a no-op on a port that is already free or out of range.
pub struct PortPool {
    pub start: u16,
    pub end: u16,
    pub used: Vec<bool>,
}

impl PortPool {
    /// How many ports the range `[start, end]` holds.
    pub open spec fn spec_capacity(self) -> int {
        if self.start <= self.end {
            self.end - self.start + 1
        } else {
            0
        }
    }

    /// The usage table covers the range exactly.
    pub open spec fn wf(self) -> bool {
        self.used@.len() == self.spec_capacity()
    }

    /// Whether `p` lies inside the pool's range.
    pub open spec fn spec_in_range(self, p: u16) -> bool {
        self.start <= p <= self.end
    }

    /// Whether `p` is currently marked used.
    pub open spec fn spec_is_used(self, p: u16) -> bool {
        self.spec_in_range(p) && self.used@[p - self.start]
    }

    /// A pool over `[start, end]` with every port free. A reversed range is
    /// empty and can never allocate.
    pub fn new(start: u16, end: u16) -> (pool: PortPool)
        ensures
            pool.wf(),
            pool.start == start,
            pool.end == end,
            forall|p: u16| !pool.spec_is_used(p),
    {
        let cap: usize = if start <= end {
            (end - start) as usize + 1
        } else {
            0
        };
        let used: Vec<bool> = vec![false; cap];
        PortPool { start, end, used }
    }

    /// Takes the lowest free port, or reports exhaustion. On `Some(p)`, `p`
    /// was free, every lower port of the range was already used, and exactly
    /// `p` changes to used; on `None` every port of the range is used and
    /// nothing changes.
    pub fn allocate(&mut self) -> (r: Option<u16>)
        requires
            old(self).wf(),
        ensures
            final(self).wf(),
            final(self).start == old(self).start,
            final(self).end == old(self).end,
            match r {
                Some(p) => {
                    &&& old(self).spec_in_range(p)
                    &&& !old(self).spec_is_used(p)
                    &&& forall|q: u16|
                        old(self).spec_in_range(q) && q < p ==> old(self).spec_is_used(q)
                    &&& forall|q: u16|
                        final(self).spec_is_used(q) == (old(self).spec_is_used(q) || q == p)
                },
                None => {
                    &&& *final(self) == *old(self)
                    &&& forall|q: u16|
                        old(self).spec_in_range(q) ==> old(self).spec_is_used(q)
                },
            },
    {
        let cap = self.used.len();
        let mut i: usize = 0;
        while i < cap
            invariant
                *self == *old(self),
                self.wf(),
                i <= cap,
                cap == self.used@.len(),
                forall|j: int| 0 <= j < i ==> self.used@[j],
            decreases cap - i,
        {
            if !self.used[i] {
                let port = self.start + (i as u16);
                self.used[i] = true;
                proof {
                    assert(self.used@ =~= old(self).used@.update(i as int, true));
                    assert(port - self.start == i);
                    assert forall|q: u16|
                        old(self).spec_in_range(q) && q < port implies old(self).spec_is_used(
                        q,
                    ) by {
                        assert(0 <= q - old(self).start < i);
                        assert(old(self).used@[q - old(self).start]);
                    }
                    assert forall|q: u16|
                        self.spec_is_used(q) == (old(self).spec_is_used(q) || q == port) by {
                        if old(self).spec_in_range(q) {
                            assert(self.used@[q - self.start] == old(self).used@.update(
                                i as int,
                                true,
                            )[q - self.start]);
                        }
                    }
                }
                return Some(port);
            }
            i = i + 1;
        }
        proof {
            assert forall|q: u16| self.spec_in_range(q) implies self.spec_is_used(q) by {
                assert(0 <= q - self.start < cap);
                assert(self.used@[q - self.start]);
            }
        }
        None
    }

    /// Marks `port` free. Releasing a free or out-of-range port changes
    /// nothing.
    pub fn release(&mut self, port: u16)
        requires
            old(self).wf(),
        ensures
            final(self).wf(),
            final(self).start == old(self).start,
            final(self).end == old(self).end,
            forall|q: u16|
                final(self).spec_is_used(q) == (old(self).spec_is_used(q) && q != port),
    {
        if self.start <= port && port <= self.end {
            let i = (port - self.start) as usize;
            self.used[i] = false;
        }
    }
}

/// The registry: the table of live service records and the port pool that
/// backs their port assignments.
pub struct ServiceRegistry {
    pub services: Vec<ServiceInfo>,
    pub port_pool: PortPool,
}

impl ServiceRegistry {
    /// Whether some record carries `name`.
    pub open spec fn spec_contains(self, name: Seq<char>) -> bool {
        exists|i: int|
            0 <= i < self.services@.len() && (#[trigger] self.services@[i]).hostname@ == name
    }

    /// The index of the record carrying `name` (meaningful only when
    /// `spec_contains(name)` holds; under `wf` it is unique).
    pub open spec fn spec_index_of(self, name: Seq<char>) -> int {
        choose|i: int|
            0 <= i < self.services@.len() && (#[trigger] self.services@[i]).hostname@ == name
    }

    /// The record carrying `name`.
    pub open spec fn spec_get(self, name: Seq<char>) -> ServiceInfo {
        self.services@[self.spec_index_of(name)]
    }

    /// The registry's invariant: the pool's table is sound, no two records
    /// share a name or a port, a port is marked used in the pool exactly when
    /// a live record holds it, and every record is internally consistent.
    pub open spec fn wf(self) -> bool {
        &&& self.port_pool.wf()
        &&& forall|i: int, j: int|
            #![trigger self.services@[i], self.services@[j]]
            0 <= i < j < self.services@.len() ==> self.services@[i].hostname@
                != self.services@[j].hostname@ && self.services@[i].port
                != self.services@[j].port
        &&& forall|p: u16|
            #[trigger] self.port_pool.spec_is_used(p) <==> exists|i: int|
                0 <= i < self.services@.len() && (#[trigger] self.services@[i]).port == p
        &&& forall|i: int|
            0 <= i < self.services@.len() ==> (#[trigger] self.services@[i]).wf()
    }

    /// An empty registry over the stock port range `[9000, 9999]`.
    pub fn new() -> (r: ServiceRegistry)
        ensures
            r.wf(),
            r.services@.len() == 0,
            r.port_pool.start == 9000,
            r.port_pool.end == 9999,
            forall|p: u16| !r.port_pool.spec_is_used(p),
    {
        let r = ServiceRegistry { services: Vec::new(), port_pool: PortPool::new(9000, 9999) };
        r
    }

    /// The record index that carries `hostname`, if any.
    fn find_index(&self, hostname: &str) -> (r: Option<usize>)
        ensures
            match r {
                Some(i) => i < self.services@.len() && self.services@[i as int].hostname@
                    == hostname@,
                None => !self.spec_contains(hostname@),
            },
    {
        let n = self.services.len();
        let mut i: usize = 0;
        while i < n
            invariant
                i <= n,
                n == self.services@.len(),
                forall|j: int|
                    0 <= j < i ==> (#[trigger] self.services@[j]).hostname@ != hostname@,
            decreases n - i,
        {
            if crate::text::str_eq(self.services[i].hostname.as_str(), hostname) {
                return Some(i);
            }
            i = i + 1;
        }
        None
    }

    /// In a well-formed registry the record index for a name is the only one
    /// carrying that name.
    pub proof fn lemma_index_of_unique(self, name: Seq<char>, i: int)
        requires
            self.wf(),
            0 <= i < self.services@.len(),
            self.services@[i].hostname@ == name,
        ensures
            self.spec_index_of(name) == i,
            self.spec_contains(name),
    {
        assert(self.spec_contains(name));
        let k = self.spec_index_of(name);
        assert(0 <= k < self.services@.len() && self.services@[k].hostname@ == name);
        if k < i {
            assert(self.services@[k].hostname@ != self.services@[i].hostname@);
        } else if i < k {
            assert(self.services@[i].hostname@ != self.services@[k].hostname@);
        }
    }

    /// Looks up the record registered under `hostname`, as a read-only
    /// snapshot for the proxy dispatcher.
    pub fn get_service(&self, hostname: &str) -> (r: Option<&ServiceInfo>)
        requires
            self.wf(),
        ensures
            match r {
                Some(info) => self.spec_contains(hostname@) && *info == self.spec_get(
                    hostname@,
                ),
                None => !self.spec_contains(hostname@),
            },
    {
        match self.find_index(hostname) {
            Some(i) => {
                proof {
                    self.lemma_index_of_unique(hostname@, i as int);
                }
                Some(&self.services[i])
            },
            None => None,
        }
    }

    /// Registers `hostname` at address `ip`: rejected if the name is already
    /// present or the port pool is exhausted, otherwise a record with the
    /// lowest free port and both timestamps set to `now` is inserted and a
    /// copy of it returned.
    pub fn register(&mut self, hostname: String, ip: u32, now: u64) -> (res: Option<
        ServiceInfo,
    >)
        requires
            old(self).wf(),
        ensures
            final(self).wf(),
            spec_register_effect(*old(self), *final(self), res, hostname@, ip, now),
    {
        let ghost name = hostname@;
        if self.find_index(hostname.as_str()).is_some() {
            return None;
        }
        match self.port_pool.allocate() {
            Some(port) => {
                let addr = SockAddr { ip, port };
                let info = ServiceInfo {
                    hostname,
                    ip,
                    port,
                    addr,
                    registered_at: now,
                    last_heartbeat: now,
                    status: ServiceStatus::Ready,
                };
                let copy = info.clone();
                self.services.push(copy);
                proof {
                    let s0 = old(self).services@;
                    let s1 = self.services@;
                    assert(s1 =~= s0.push(info));
                    assert(forall|k: int|
                        0 <= k < s0.len() ==> (#[trigger] s0[k]).hostname@ != name);
                    assert forall|k: int| 0 <= k < s0.len() implies (#[trigger] s0[k]).port
                        != port by {
                        assert(old(self).port_pool.spec_is_used(s0[k].port));
                    }
                    assert forall|p: u16| self.port_pool.spec_is_used(p) <==> exists|k: int|
                        0 <= k < s1.len() && (#[trigger] s1[k]).port == p by {
                        if p == port {
                            assert(s1[s1.len() - 1].port == p);
                        } else {
                            if self.port_pool.spec_is_used(p) {
                                let k = choose|k: int|
                                    0 <= k < s0.len() && (#[trigger] s0[k]).port == p;
                                assert(s1[k].port == p);
                            }
                            if exists|k: int| 0 <= k < s1.len() && (#[trigger] s1[k]).port
                                == p {
                                let k = choose|k: int|
                                    0 <= k < s1.len() && (#[trigger] s1[k]).port == p;
                                assert(k < s0.len() && s0[k].port == p);
                            }
                        }
                    }
                }
                Some(info)
            },
            None => None,
        }
    }

    /// Removes the record at index `i`, returning its port to the pool.
    fn remove_entry(&mut self, i: usize)
        requires
            old(self).wf(),
            i < old(self).services@.len(),
        ensures
            final(self).wf(),
            final(self).services@ == old(self).services@.remove(i as int),
            final(self).port_pool.start == old(self).port_pool.start,
            final(self).port_pool.end == old(self).port_pool.end,
            forall|q: u16|
                final(self).port_pool.spec_is_used(q) == (old(self).port_pool.spec_is_used(q)
                    && q != old(self).services@[i as int].port),
    {
        let info = self.services.remove(i);
        self.port_pool.release(info.port);
        proof {
            let s0 = old(self).services@;
            let s1 = self.services@;
            let rp = s0[i as int].port;
            assert(forall|k: int|
                0 <= k < s1.len() ==> #[trigger] s1[k] == (if k < i as int {
                    s0[k]
                } else {
                    s0[k + 1]
                }));
            assert forall|p: u16| self.port_pool.spec_is_used(p) <==> exists|k: int|
                0 <= k < s1.len() && (#[trigger] s1[k]).port == p by {
                if self.port_pool.spec_is_used(p) {
                    assert(old(self).port_pool.spec_is_used(p) && p != rp);
                    let k = choose|k: int| 0 <= k < s0.len() && (#[trigger] s0[k]).port == p;
                    assert(k != i as int);
                    if k < i as int {
                        assert(s1[k].port == p);
                    } else {
                        assert(s1[k - 1].port == p);
                    }
                }
                if exists|k: int| 0 <= k < s1.len() && (#[trigger] s1[k]).port == p {
                    let k = choose|k: int| 0 <= k < s1.len() && (#[trigger] s1[k]).port == p;
                    if k < i as int {
                        assert(s0[k].port == p);
                        assert(old(self).port_pool.spec_is_used(p));
                        assert(p != rp);
                    } else {
                        assert(s0[k + 1].port == p);
                        assert(old(self).port_pool.spec_is_used(p));
                        assert(p != rp);
                    }
                }
            }
        }
    }

    /// Removes the record registered under `hostname`, if any, releasing its
    /// port back to the pool; reports whether a record was removed.
    pub fn unregister(&mut self, hostname: &str) -> (removed: bool)
        requires
            old(self).wf(),
        ensures
            final(self).wf(),
            spec_unregister_effect(*old(self), *final(self), removed, hostname@),
    {
        match self.find_index(hostname) {
            Some(i) => {
                proof {
                    old(self).lemma_index_of_unique(hostname@, i as int);
                }
                self.remove_entry(i);
                true
            },
            None => false,
        }
    }

    /// Renews the lease of `hostname`: its `last_heartbeat` moves up to `now`
    /// (never backwards) and its status returns to `Ready`. A heartbeat for
    /// an unknown name reports failure and changes nothing.
    pub fn update_heartbeat(&mut self, hostname: &str, now: u64) -> (found: bool)
        requires
            old(self).wf(),
        ensures
            final(self).wf(),
            spec_heartbeat_effect(*old(self), *final(self), found, hostname@, now),
    {
        match self.find_index(hostname) {
            Some(i) => {
                proof {
                    old(self).lemma_index_of_unique(hostname@, i as int);
                }
                let mut info = self.services[i].clone();
                info.last_heartbeat = if now >= info.last_heartbeat {
                    now
                } else {
                    info.last_heartbeat
                };
                info.status = ServiceStatus::Ready;
                self.services[i] = info;
                proof {
                    let s0 = old(self).services@;
                    let s1 = self.services@;
                    assert(s1 =~= s0.update(i as int, spec_bumped(s0[i as int], now)));
                    assert(forall|k: int|
                        0 <= k < s1.len() ==> (#[trigger] s1[k]).port == s0[k].port
                            && s1[k].hostname@ == s0[k].hostname@);
                    assert forall|p: u16| self.port_pool.spec_is_used(p) <==> exists|k: int|
                        0 <= k < s1.len() && (#[trigger] s1[k]).port == p by {
                        if self.port_pool.spec_is_used(p) {
                            let k = choose|k: int|
                                0 <= k < s0.len() && (#[trigger] s0[k]).port == p;
                            assert(s1[k].port == p);
                        }
                        if exists|k: int| 0 <= k < s1.len() && (#[trigger] s1[k]).port == p {
                            let k = choose|k: int|
                                0 <= k < s1.len() && (#[trigger] s1[k]).port == p;
                            assert(s0[k].port == p);
                        }
                    }
                }
                true
            },
            None => false,
        }
    }

    /// Evicts every record whose heartbeat age exceeds `timeout` at instant
    /// `now`, releasing each evicted record's port; the surviving records
    /// keep their order and are untouched.
    pub fn cleanup_offline(&mut self, timeout: u64, now: u64)
        requires
            old(self).wf(),
        ensures
            final(self).wf(),
            final(self).services@ == spec_survivors(old(self).services@, timeout, now),
            final(self).port_pool.start == old(self).port_pool.start,
            final(self).port_pool.end == old(self).port_pool.end,
            forall|i: int|
                0 <= i < old(self).services@.len() && spec_expired(
                    #[trigger] old(self).services@[i],
                    timeout,
                    now,
                ) ==> !final(self).port_pool.spec_is_used(old(self).services@[i].port),
    {
        let ghost orig = self.services@;
        let ghost mut j: int = 0;
        let mut i: usize = 0;
        while i < self.services.len()
            invariant
                self.wf(),
                self.port_pool.start == old(self).port_pool.start,
                self.port_pool.end == old(self).port_pool.end,
                0 <= j <= orig.len(),
                i <= self.services@.len(),
                self.services@.subrange(0, i as int) == spec_survivors(
                    orig.subrange(0, j),
                    timeout,
                    now,
                ),
                self.services@.skip(i as int) == orig.skip(j),
            decreases orig.len() - j,
        {
            proof {
                assert(self.services@.skip(i as int).len() == orig.skip(j).len());
                assert(j < orig.len());
                assert(self.services@.skip(i as int)[0] == orig.skip(j)[0]);
                assert(self.services@[i as int] == orig[j]);
                assert(orig.subrange(0, j + 1) =~= orig.subrange(0, j).push(orig[j]));
                lemma_survivors_push(orig.subrange(0, j), orig[j], timeout, now);
            }
            let lh = self.services[i].last_heartbeat;
            if now > lh && now - lh > timeout {
                let ghost pre = self.services@;
                self.remove_entry(i);
                proof {
                    assert(self.services@ =~= pre.remove(i as int));
                    assert(self.services@.subrange(0, i as int) =~= pre.subrange(0, i as int));
                    assert(self.services@.skip(i as int) =~= pre.skip(i as int + 1));
                    assert forall|k: int|
                        0 <= k < pre.skip(i as int + 1).len() implies #[trigger] pre.skip(
                        i as int + 1)[k] == orig.skip(j + 1)[k] by {
                        assert(pre.skip(i as int)[k + 1] == orig.skip(j)[k + 1]);
                    }
                    assert(pre.skip(i as int + 1) =~= orig.skip(j + 1));
                    j = j + 1;
                }
            } else {
                proof {
                    assert(!spec_expired(orig[j], timeout, now));
                    assert(self.services@.subrange(0, i as int + 1) =~= self.services@.subrange(
                        0,
                        i as int,
                    ).push(orig[j]));
                    assert forall|k: int|
                        0 <= k < self.services@.skip(i as int + 1).len() implies #[trigger] self.services@.skip(
                        i as int + 1)[k] == orig.skip(j + 1)[k] by {
                        assert(self.services@.skip(i as int)[k + 1] == orig.skip(j)[k + 1]);
                    }
                    assert(self.services@.skip(i as int + 1) =~= orig.skip(j + 1));
                    j = j + 1;
                }
                i = i + 1;
            }
        }
        proof {
            assert(self.services@.skip(i as int).len() == orig.skip(j).len());
            assert(i == self.services@.len());
            assert(j == orig.len());
            assert(orig.subrange(0, orig.len() as int) =~= orig);
            assert(self.services@.subrange(0, i as int) =~= self.services@);
            let survivors = spec_survivors(orig, timeout, now);
            assert(self.services@ == survivors);
            assert forall|k: int|
                0 <= k < orig.len() && spec_expired(#[trigger] orig[k], timeout, now) implies !self.port_pool.spec_is_used(
                orig[k].port,
            ) by {
                let p = orig[k].port;
                if self.port_pool.spec_is_used(p) {
                    let m = choose|m: int|
                        0 <= m < self.services@.len() && (#[trigger] self.services@[m]).port
                            == p;
                    lemma_survivors_membership(orig, timeout, now, m);
                    let w = choose|w: int|
                        0 <= w < orig.len() && #[trigger] orig[w] == survivors[m]
                            && !spec_expired(orig[w], timeout, now);
                    assert(orig[w].port == p);
                    assert(w != k);
                }
            }
        }
    }

    /// The registry never holds two records with the same name, nor two
    /// records with the same port: any two distinct live records differ in
    /// both. Every constructor and mutator of the registry preserves `wf`,
    /// so this holds after any sequence of operations.
    pub proof fn lemma_registry_distinct(self, i: int, j: int)
        requires
            self.wf(),
            0 <= i < self.services@.len(),
            0 <= j < self.services@.len(),
            i != j,
        ensures
            self.services@[i].hostname@ != self.services@[j].hostname@,
            self.services@[i].port != self.services@[j].port,
    {
    }
}

/// Every port of the pool's range is taken.
pub open spec fn spec_pool_exhausted(pool: PortPool) -> bool {
    forall|q: u16| pool.spec_in_range(q) ==> pool.spec_is_used(q)
}

/// What `register` does: a duplicate name or an exhausted pool leaves the
/// registry untouched and yields nothing; otherwise the result is a record
/// carrying the requested name and address, the lowest port that was free,
/// both timestamps at `now` and status `Ready`, appended to the table, with
/// exactly that port newly used.
pub open spec fn spec_register_effect(
    r0: ServiceRegistry,
    r1: ServiceRegistry,
    res: Option<ServiceInfo>,
    name: Seq<char>,
    ip: u32,
    now: u64,
) -> bool {
    if r0.spec_contains(name) || spec_pool_exhausted(r0.port_pool) {
        res is None && r1 == r0
    } else {
        match res {
            Some(info) => {
                &&& info.hostname@ == name
                &&& info.ip == ip
                &&& info.addr == (SockAddr { ip, port: info.port })
                &&& info.registered_at == now
                &&& info.last_heartbeat == now
                &&& info.status == ServiceStatus::Ready
                &&& r0.port_pool.spec_in_range(info.port)
                &&& !r0.port_pool.spec_is_used(info.port)
                &&& forall|q: u16|
                    r0.port_pool.spec_in_range(q) && q < info.port
                        ==> r0.port_pool.spec_is_used(q)
                &&& r1.services@ == r0.services@.push(info)
                &&& r1.port_pool.start == r0.port_pool.start
                &&& r1.port_pool.end == r0.port_pool.end
                &&& forall|q: u16|
                    r1.port_pool.spec_is_used(q) == (r0.port_pool.spec_is_used(q) || q
                        == info.port)
            },
            None => false,
        }
    }
}

/// What `unregister` does: a present name has its record removed, order
/// preserved, and exactly its port freed; an absent name changes nothing.
pub open spec fn spec_unregister_effect(
    r0: ServiceRegistry,
    r1: ServiceRegistry,
    removed: bool,
    name: Seq<char>,
) -> bool {
    if r0.spec_contains(name) {
        &&& removed
        &&& r1.services@ == r0.services@.remove(r0.spec_index_of(name))
        &&& r1.port_pool.start == r0.port_pool.start
        &&& r1.port_pool.end == r0.port_pool.end
        &&& forall|q: u16|
            r1.port_pool.spec_is_used(q) == (r0.port_pool.spec_is_used(q) && q
                != r0.spec_get(name).port)
    } else {
        !removed && r1 == r0
    }
}

/// A record after a successful heartbeat at instant `now`: `last_heartbeat`
/// moves up to `now` (never backwards) and the status returns to `Ready`;
/// every other field is untouched.
pub open spec fn spec_bumped(s: ServiceInfo, now: u64) -> ServiceInfo {
    ServiceInfo {
        hostname: s.hostname,
        ip: s.ip,
        port: s.port,
        addr: s.addr,
        registered_at: s.registered_at,
        last_heartbeat: if now >= s.last_heartbeat {
            now
        } else {
            s.last_heartbeat
        },
        status: ServiceStatus::Ready,
    }
}

/// What `update_heartbeat` does: a present name has exactly its record
/// bumped; an unknown name reports failure and changes nothing.
pub open spec fn spec_heartbeat_effect(
    r0: ServiceRegistry,
    r1: ServiceRegistry,
    found: bool,
    name: Seq<char>,
    now: u64,
) -> bool {
    if r0.spec_contains(name) {
        &&& found
        &&& r1.services@ == r0.services@.update(
            r0.spec_index_of(name),
            spec_bumped(r0.spec_get(name), now),
        )
        &&& r1.port_pool == r0.port_pool
    } else {
        !found && r1 == r0
    }
}

/// Whether a record's heartbeat age exceeds `timeout` at instant `now`.
pub open spec fn spec_expired(s: ServiceInfo, timeout: u64, now: u64) -> bool {
    now - s.last_heartbeat > timeout
}

/// The records of `s` that are not expired at instant `now`, in order.
pub open spec fn spec_survivors(s: Seq<ServiceInfo>, timeout: u64, now: u64) -> Seq<
    ServiceInfo,
> {
    s.filter(|x: ServiceInfo| !spec_expired(x, timeout, now))
}

/// Filtering survivors commutes with appending one record.
proof fn lemma_survivors_push(s: Seq<ServiceInfo>, x: ServiceInfo, timeout: u64, now: u64)
    ensures
        spec_survivors(s.push(x), timeout, now) == if !spec_expired(x, timeout, now) {
            spec_survivors(s, timeout, now).push(x)
        } else {
            spec_survivors(s, timeout, now)
        },
{
    reveal(Seq::filter);
    assert(s.push(x).drop_last() =~= s);
    assert(s.push(x).last() == x);
}

/// Every survivor is one of the original records, unexpired.
proof fn lemma_survivors_membership(s: Seq<ServiceInfo>, timeout: u64, now: u64, k: int)
    requires
        0 <= k < spec_survivors(s, timeout, now).len(),
    ensures
        exists|i: int|
            0 <= i < s.len() && #[trigger] s[i] == spec_survivors(s, timeout, now)[k]
                && !spec_expired(s[i], timeout, now),
    decreases s.len(),
{
    reveal(Seq::filter);
    if s.len() > 0 {
        let head = s.drop_last();
        let sub = spec_survivors(head, timeout, now);
        if k < sub.len() {
            lemma_survivors_membership(head, timeout, now, k);
            let i = choose|i: int|
                0 <= i < head.len() && #[trigger] head[i] == sub[k] && !spec_expired(
                    head[i],
                    timeout,
                    now,
                );
            assert(s[i] == sub[k]);
        } else {
            assert(s[s.len() - 1] == spec_survivors(s, timeout, now)[k]);
        }
    }
}

/// A lookup immediately after a successful registration sees exactly the
/// returned record: status `Ready` and `last_heartbeat` equal to
/// `registered_at`.
pub proof fn lemma_register_then_lookup(
    r0: ServiceRegistry,
    r1: ServiceRegistry,
    info: ServiceInfo,
    name: Seq<char>,
    ip: u32,
    now: u64,
)
    requires
        r1.wf(),
        !r0.spec_contains(name),
        !spec_pool_exhausted(r0.port_pool),
        spec_register_effect(r0, r1, Some(info), name, ip, now),
    ensures
        r1.spec_contains(name),
        r1.spec_get(name) == info,
        info.status == ServiceStatus::Ready,
        info.last_heartbeat == info.registered_at,
{
    assert(r1.services@[r1.services@.len() - 1] == info);
    r1.lemma_index_of_unique(name, r1.services@.len() - 1);
}

/// Port allocation climbs: once the lowest free port `a` of a pool has been
/// taken, whatever port `b` the next allocation finds is strictly greater.
/// Hence a run of allocations with no release in between yields distinct
/// ports in ascending order.
pub proof fn lemma_allocate_ascending(p0: PortPool, p1: PortPool, a: u16, b: u16)
    requires
        p0.start == p1.start,
        p0.end == p1.end,
        p0.spec_in_range(a),
        !p0.spec_is_used(a),
        forall|q: u16| p0.spec_in_range(q) && q < a ==> p0.spec_is_used(q),
        forall|q: u16| p1.spec_is_used(q) == (p0.spec_is_used(q) || q == a),
        p1.spec_in_range(b),
        !p1.spec_is_used(b),
    ensures
        b > a,
{
    assert(b != a);
    if b < a {
        assert(p0.spec_is_used(b));
        assert(p1.spec_is_used(b));
    }
}

} // verus!
