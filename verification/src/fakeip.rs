//! Fake addresses: names that must not be resolved locally get an address of 198.18.0.0/15, and a
//! connection to such an address is turned back into the name.

use vstd::prelude::*;
use vstd::hash_map::StringHashMap;
use std::collections::{BTreeMap, HashMap};
use crate::net::Ipv4Addr;
use crate::text;

verus! {

broadcast use {
    vstd::laws_cmp::group_laws_cmp,
    vstd::std_specs::btree::group_btree_axioms,
    vstd::std_specs::hash::group_hash_axioms,
};

/// 198.18.0.1, the first fake address.
pub const FAKE_IP_START: u32 = 0xC612_0001;

/// 198.19.255.254, the last fake address.
pub const FAKE_IP_END: u32 = 0xC613_FFFE;

/// The number of names that are kept.
pub const MAX_FAKE_IP_ENTRIES: usize = 65536;

/// A name and its fake address.
pub struct Pair {
    pub domain: Seq<char>,
    pub ip: Ipv4Addr,
}

/// The names with their addresses, the one not used for longest first.
pub type Pairs = Seq<Pair>;

// What the table does to its pairs.

/// No name and no address occurs twice.
pub open spec fn distinct(pairs: Pairs) -> bool {
    forall|i: int, j: int|
        #![trigger pairs[i], pairs[j]]
        0 <= i < j < pairs.len() ==> pairs[i].domain != pairs[j].domain && pairs[i].ip != pairs[j].ip
}

pub open spec fn has_domain(pairs: Pairs, domain: Seq<char>) -> bool {
    exists|i: int| 0 <= i < pairs.len() && (#[trigger] pairs[i]).domain == domain
}

pub open spec fn has_ip(pairs: Pairs, ip: Ipv4Addr) -> bool {
    exists|i: int| 0 <= i < pairs.len() && (#[trigger] pairs[i]).ip == ip
}

pub open spec fn place_of_domain(pairs: Pairs, domain: Seq<char>) -> int {
    choose|i: int| 0 <= i < pairs.len() && (#[trigger] pairs[i]).domain == domain
}

pub open spec fn place_of_ip(pairs: Pairs, ip: Ipv4Addr) -> int {
    choose|i: int| 0 <= i < pairs.len() && (#[trigger] pairs[i]).ip == ip
}

/// The name that the address stands for.
pub open spec fn domain_of(pairs: Pairs, ip: Ipv4Addr) -> Option<Seq<char>> {
    if has_ip(pairs, ip) {
        Some(pairs[place_of_ip(pairs, ip)].domain)
    } else {
        None
    }
}

/// The address that the name has.
pub open spec fn ip_of(pairs: Pairs, domain: Seq<char>) -> Option<Ipv4Addr> {
    if has_domain(pairs, domain) {
        Some(pairs[place_of_domain(pairs, domain)].ip)
    } else {
        None
    }
}

/// The pair at `i` becomes the one used last.
pub open spec fn moved_to_end(pairs: Pairs, i: int) -> Pairs {
    pairs.remove(i).push(pairs[i])
}

/// The pairs not used for longest are dropped until there are fewer than `max`, or none.
pub open spec fn trimmed_to(pairs: Pairs, max: nat) -> Pairs {
    if pairs.len() < max {
        pairs
    } else if max == 0 {
        Seq::empty()
    } else {
        pairs.subrange(pairs.len() - max + 1, pairs.len() as int)
    }
}

/// The address is taken from the name that has it.
pub open spec fn without_ip(pairs: Pairs, ip: Ipv4Addr) -> Pairs {
    if has_ip(pairs, ip) {
        pairs.remove(place_of_ip(pairs, ip))
    } else {
        pairs
    }
}

/// The name gets the address.
pub open spec fn with_pair(pairs: Pairs, domain: Seq<char>, max: nat, ip: Ipv4Addr) -> Pairs {
    without_ip(trimmed_to(pairs, max), ip).push(Pair { domain, ip })
}

// The table.

/// A pair with the moment of its last use.
pub struct Use {
    pub pair: Pair,
    pub tick: u64,
}

/// Names and fake addresses, both ways, with the order in which they were used.
pub struct FakeIpTable {
    domain_to_ip: StringHashMap<u32>,
    ip_to_domain: HashMap<u32, (String, u64)>,
    access_order: BTreeMap<u64, u32>,
    current_tick: u64,
    uses: Ghost<Seq<Use>>,
}

/// The least key, with its value.
fn first(m: &BTreeMap<u64, u32>) -> (r: Option<(u64, u32)>)
    ensures
        match r {
            Some((k, v)) => m@.contains_key(k) && m@[k] == v && forall|j: u64| #[trigger] m@.contains_key(j) ==> k <= j,
            None => m@ == Map::<u64, u32>::empty(),
        },
{
    let ghost all = vstd::std_specs::iter::IteratorSpec::remaining(&m.iter());
    let ghost keys = all.map_values(|kv: (&u64, &u32)| *kv.0);
    for e in it: m.iter()
        invariant
            it.index() == 0,
            it.seq() == all,
            keys == all.map_values(|kv: (&u64, &u32)| *kv.0),
            all == vstd::std_specs::iter::IteratorSpec::remaining(&m.iter()),
            vstd::std_specs::btree::increasing_seq(keys),
    {
        let (k, v) = e;
        proof {
            assert(all[0] == (k, v));
            assert(m@.contains_key(*all[0].0) && m@[*all[0].0] == *all[0].1);
            assert forall|j: u64| #[trigger] m@.contains_key(j) implies *k <= j by {
                assert(all.contains((&j, &m@[j])));
                let i = choose|i: int| 0 <= i < all.len() && all[i] == (&j, &m@[j]);
                assert(keys[i] == j);
                assert(keys[0] == *k);
                if i > 0 {
                    assert(vstd::std_specs::cmp::OrdSpec::cmp_spec(&keys[0], &keys[i]) is Less);
                }
            }
        }
        return Some((*k, *v));
    }
    proof {
        assert(all.len() == 0);
        assert(m@ =~= Map::<u64, u32>::empty());
    }
    None
}

impl View for FakeIpTable {
    type V = Pairs;

    closed spec fn view(&self) -> Pairs {
        Seq::new(self.uses@.len(), |i: int| self.uses@[i].pair)
    }
}

impl FakeIpTable {
    /// How often a pair was made or used.
    pub closed spec fn clock(self) -> nat {
        self.current_tick as nat
    }

    /// The three maps say the same as the list of uses.
    pub closed spec fn wf(self) -> bool {
        let uses = self.uses@;
        &&& forall|i: int, j: int|
            #![trigger uses[i], uses[j]]
            0 <= i < j < uses.len() ==> uses[i].tick < uses[j].tick && uses[i].pair.domain != uses[j].pair.domain
                && uses[i].pair.ip != uses[j].pair.ip
        &&& forall|i: int| #![trigger uses[i]] 0 <= i < uses.len() ==> self.records(uses[i])
        &&& forall|t: u64| #[trigger] self.access_order@.contains_key(t) ==> self.tick_used(t)
        &&& forall|n: u32| #[trigger] self.ip_to_domain@.contains_key(n) ==> self.ip_used(n)
        &&& forall|d: Seq<char>| #[trigger] self.domain_to_ip@.contains_key(d) ==> self.domain_used(d)
        &&& self.domain_to_ip@.dom().finite()
        &&& self.domain_to_ip@.len() == uses.len()
    }

    closed spec fn records(self, u: Use) -> bool {
        let n = u.pair.ip.number() as u32;
        &&& u.tick <= self.current_tick
        &&& self.access_order@.contains_key(u.tick)
        &&& self.access_order@[u.tick] == n
        &&& self.ip_to_domain@.contains_key(n)
        &&& self.ip_to_domain@[n].0@ == u.pair.domain
        &&& self.ip_to_domain@[n].1 == u.tick
        &&& self.domain_to_ip@.contains_key(u.pair.domain)
        &&& self.domain_to_ip@[u.pair.domain] == n
    }

    closed spec fn tick_used(self, t: u64) -> bool {
        exists|i: int| 0 <= i < self.uses@.len() && (#[trigger] self.uses@[i]).tick == t
    }

    closed spec fn ip_used(self, n: u32) -> bool {
        exists|i: int| 0 <= i < self.uses@.len() && (#[trigger] self.uses@[i]).pair.ip.number() == n
    }

    closed spec fn domain_used(self, d: Seq<char>) -> bool {
        exists|i: int| 0 <= i < self.uses@.len() && (#[trigger] self.uses@[i]).pair.domain == d
    }

    pub fn new() -> (r: FakeIpTable)
        ensures
            r.wf(),
            r@ == Seq::<Pair>::empty(),
            r.clock() == 0,
    {
        let r = FakeIpTable {
            domain_to_ip: StringHashMap::new(),
            ip_to_domain: HashMap::new(),
            access_order: BTreeMap::new(),
            current_tick: 0,
            uses: Ghost(Seq::empty()),
        };
        assert(r@ =~= Seq::<Pair>::empty());
        r
    }

    /// Takes out the pair at `i`, whose address is `n`.
    fn take_out(&mut self, n: u32, Ghost(i): Ghost<int>) -> (r: String)
        requires
            old(self).wf(),
            0 <= i < old(self)@.len(),
            old(self)@[i].ip.number() == n,
        ensures
            final(self).wf(),
            final(self)@ == old(self)@.remove(i),
            final(self).clock() == old(self).clock(),
            r@ == old(self)@[i].domain,
            final(self).uses@ == old(self).uses@.remove(i),
    {
        let ghost before = *self;
        let ghost gone = self.uses@[i];
        assert(before.records(gone));
        let removed = self.ip_to_domain.remove(&n);
        let (domain, tick) = match removed {
            Some(e) => e,
            None => {
                proof {
                    assert(false);
                }
                (String::new(), 0)
            },
        };
        self.access_order.remove(&tick);
        self.domain_to_ip.remove(&domain);
        proof {
            self.uses@ = before.uses@.remove(i);
            let uses = self.uses@;
            assert(forall|j: int|
                0 <= j < uses.len() ==> #[trigger] uses[j] == (if j < i {
                    before.uses@[j]
                } else {
                    before.uses@[j + 1]
                }));
            assert forall|j: int| #![trigger uses[j]] 0 <= j < uses.len() implies self.records(uses[j]) by {
                let k = if j < i {
                    j
                } else {
                    j + 1
                };
                assert(before.records(before.uses@[k]));
                assert(before.uses@[i] == gone);
                lemma_numbers_differ(uses[j].pair.ip, gone.pair.ip);
            }
            assert forall|t: u64| #[trigger] self.access_order@.contains_key(t) implies self.tick_used(t) by {
                assert(before.access_order@.contains_key(t));
                let k = choose|k: int| 0 <= k < before.uses@.len() && (#[trigger] before.uses@[k]).tick == t;
                let j = if k < i {
                    k
                } else {
                    k - 1
                };
                assert(uses[j].tick == t);
            }
            assert forall|m: u32| #[trigger] self.ip_to_domain@.contains_key(m) implies self.ip_used(m) by {
                assert(before.ip_to_domain@.contains_key(m));
                let k = choose|k: int|
                    0 <= k < before.uses@.len() && (#[trigger] before.uses@[k]).pair.ip.number() == m;
                let j = if k < i {
                    k
                } else {
                    k - 1
                };
                assert(uses[j].pair.ip.number() == m);
            }
            assert forall|d: Seq<char>| #[trigger] self.domain_to_ip@.contains_key(d) implies self.domain_used(d) by {
                assert(before.domain_to_ip@.contains_key(d));
                let k = choose|k: int| 0 <= k < before.uses@.len() && (#[trigger] before.uses@[k]).pair.domain == d;
                let j = if k < i {
                    k
                } else {
                    k - 1
                };
                assert(uses[j].pair.domain == d);
            }
            assert(self@ =~= before@.remove(i));
        }
        domain
    }
}

proof fn lemma_place_of_domain(pairs: Pairs, domain: Seq<char>, i: int)
    requires
        distinct(pairs),
        0 <= i < pairs.len(),
        pairs[i].domain == domain,
    ensures
        has_domain(pairs, domain),
        place_of_domain(pairs, domain) == i,
{
    let k = place_of_domain(pairs, domain);
    assert(0 <= k < pairs.len() && pairs[k].domain == domain);
    if k < i {
        assert(pairs[k].domain != pairs[i].domain);
    } else if i < k {
        assert(pairs[i].domain != pairs[k].domain);
    }
}

proof fn lemma_place_of_ip(pairs: Pairs, ip: Ipv4Addr, i: int)
    requires
        distinct(pairs),
        0 <= i < pairs.len(),
        pairs[i].ip == ip,
    ensures
        has_ip(pairs, ip),
        place_of_ip(pairs, ip) == i,
{
    let k = place_of_ip(pairs, ip);
    assert(0 <= k < pairs.len() && pairs[k].ip == ip);
    if k < i {
        assert(pairs[k].ip != pairs[i].ip);
    } else if i < k {
        assert(pairs[i].ip != pairs[k].ip);
    }
}

impl FakeIpTable {
    proof fn lemma_distinct(self)
        requires
            self.wf(),
        ensures
            distinct(self@),
    {
        assert forall|i: int, j: int|
            #![trigger self@[i], self@[j]]
            0 <= i < j < self@.len() implies self@[i].domain != self@[j].domain && self@[i].ip != self@[j].ip by {
            assert(self@[i] == self.uses@[i].pair && self@[j] == self.uses@[j].pair);
        }
    }

    /// Adds a pair as the one used last.
    fn put_last(&mut self, domain: &str, ip: Ipv4Addr)
        requires
            old(self).wf(),
            old(self).clock() < u64::MAX,
            !has_domain(old(self)@, domain@),
            !has_ip(old(self)@, ip),
        ensures
            final(self).wf(),
            final(self)@ == old(self)@.push(Pair { domain: domain@, ip }),
            final(self).clock() == old(self).clock() + 1,
    {
        let ghost before = *self;
        let n: u32 = ip.to_u32();
        proof {
            if before.domain_to_ip@.contains_key(domain@) {
                assert(before.domain_used(domain@));
                let k = choose|k: int| 0 <= k < before.uses@.len() && (#[trigger] before.uses@[k]).pair.domain == domain@;
                assert(before@[k].domain == domain@);
            }
            if before.ip_to_domain@.contains_key(n) {
                assert(before.ip_used(n));
                let k = choose|k: int| 0 <= k < before.uses@.len() && (#[trigger] before.uses@[k]).pair.ip.number() == n;
                lemma_numbers_differ(before.uses@[k].pair.ip, ip);
                assert(before@[k].ip == ip);
            }
        }
        self.current_tick = self.current_tick + 1;
        self.access_order.insert(self.current_tick, n);
        self.ip_to_domain.insert(n, (text::copy_text(domain), self.current_tick));
        self.domain_to_ip.insert(text::copy_text(domain), n);
        proof {
            let u = Use { pair: Pair { domain: domain@, ip }, tick: self.current_tick };
            self.uses@ = before.uses@.push(u);
            let uses = self.uses@;
            assert forall|j: int| #![trigger uses[j]] 0 <= j < uses.len() implies self.records(uses[j]) by {
                if j < before.uses@.len() {
                    assert(before.records(before.uses@[j]));
                    assert(before@[j].domain != domain@);
                    assert(before@[j].ip != ip);
                    lemma_numbers_differ(uses[j].pair.ip, ip);
                }
            }
            assert forall|i: int, j: int|
                #![trigger uses[i], uses[j]]
                0 <= i < j < uses.len() implies uses[i].tick < uses[j].tick && uses[i].pair.domain
                != uses[j].pair.domain && uses[i].pair.ip != uses[j].pair.ip by {
                assert(before.records(before.uses@[i]));
                assert(before@[i].domain != domain@);
                assert(before@[i].ip != ip);
            }
            assert(uses[before.uses@.len() as int] == u);
            assert forall|t: u64| #[trigger] self.access_order@.contains_key(t) implies self.tick_used(t) by {
                if t != self.current_tick {
                    assert(before.access_order@.contains_key(t));
                    let k = choose|k: int| 0 <= k < before.uses@.len() && (#[trigger] before.uses@[k]).tick == t;
                    assert(uses[k].tick == t);
                }
            }
            assert forall|m: u32| #[trigger] self.ip_to_domain@.contains_key(m) implies self.ip_used(m) by {
                if m != n {
                    assert(before.ip_to_domain@.contains_key(m));
                    let k = choose|k: int|
                        0 <= k < before.uses@.len() && (#[trigger] before.uses@[k]).pair.ip.number() == m;
                    assert(uses[k].pair.ip.number() == m);
                }
            }
            assert forall|d: Seq<char>| #[trigger] self.domain_to_ip@.contains_key(d) implies self.domain_used(d) by {
                if d != domain@ {
                    assert(before.domain_to_ip@.contains_key(d));
                    let k = choose|k: int| 0 <= k < before.uses@.len() && (#[trigger] before.uses@[k]).pair.domain == d;
                    assert(uses[k].pair.domain == d);
                }
            }
            assert(self@ =~= before@.push(Pair { domain: domain@, ip }));
        }
    }

    /// The address that the name has.
    pub fn find(&self, domain: &str) -> (r: Option<Ipv4Addr>)
        requires
            self.wf(),
        ensures
            r == ip_of(self@, domain@),
            r is Some ==> has_ip(self@, r->0) && place_of_ip(self@, r->0) == place_of_domain(self@, domain@),
    {
        proof {
            self.lemma_distinct();
        }
        match self.domain_to_ip.get(domain) {
            Some(n) => {
                let ip = Ipv4Addr::from_u32(*n);
                proof {
                    assert(self.domain_used(domain@));
                    let k = choose|k: int| 0 <= k < self.uses@.len() && (#[trigger] self.uses@[k]).pair.domain == domain@;
                    assert(self.records(self.uses@[k]));
                    assert(self@[k] == self.uses@[k].pair);
                    lemma_numbers_differ(self@[k].ip, ip);
                    crate::net::ipv4_of_its_number(self@[k].ip);
                    lemma_place_of_domain(self@, domain@, k);
                    lemma_place_of_ip(self@, ip, k);
                }
                Some(ip)
            },
            None => {
                proof {
                    if has_domain(self@, domain@) {
                        let k = place_of_domain(self@, domain@);
                        assert(self.records(self.uses@[k]));
                    }
                }
                None
            },
        }
    }

    /// Makes the pair with the address the one used last.
    fn touch(&mut self, ip: Ipv4Addr)
        requires
            old(self).wf(),
            old(self).clock() < u64::MAX,
        ensures
            final(self).wf(),
            has_ip(old(self)@, ip) ==> final(self)@ == moved_to_end(old(self)@, place_of_ip(old(self)@, ip)),
            !has_ip(old(self)@, ip) ==> final(self)@ == old(self)@,
            final(self).clock() == (if has_ip(old(self)@, ip) {
                old(self).clock() + 1
            } else {
                old(self).clock()
            }),
    {
        let n: u32 = ip.to_u32();
        let ghost before = *self;
        if self.ip_to_domain.contains_key(&n) {
            let ghost k = place_of_ip(self@, ip);
            proof {
                before.lemma_distinct();
                assert(before.ip_used(n));
                let j = choose|j: int| 0 <= j < before.uses@.len() && (#[trigger] before.uses@[j]).pair.ip.number() == n;
                lemma_numbers_differ(before.uses@[j].pair.ip, ip);
                assert(before@[j].ip == ip);
                lemma_place_of_ip(before@, ip, j);
            }
            let domain = self.take_out(n, Ghost(k));
            proof {
                assert forall|j: int| 0 <= j < self@.len() implies (#[trigger] self@[j]).domain != domain@ && self@[j].ip
                    != ip by {
                    let i = if j < k {
                        j
                    } else {
                        j + 1
                    };
                    assert(self@[j] == before@[i]);
                }
            }
            self.put_last(&domain, ip);
            assert(self@ =~= moved_to_end(before@, k));
        } else {
            proof {
                if has_ip(before@, ip) {
                    let k = place_of_ip(before@, ip);
                    assert(before.records(before.uses@[k]));
                }
            }
        }
    }

    /// Drops the pair not used for longest; says which it was.
    fn evict_oldest(&mut self) -> (r: Option<(Ipv4Addr, String)>)
        requires
            old(self).wf(),
        ensures
            final(self).wf(),
            final(self).clock() == old(self).clock(),
            match r {
                Some((ip, domain)) => old(self)@.len() > 0 && old(self)@[0] == (Pair { domain: domain@, ip })
                    && final(self)@ == old(self)@.drop_first(),
                None => old(self)@.len() == 0 && *final(self) == *old(self),
            },
    {
        let ghost before = *self;
        match first(&self.access_order) {
            Some((tick, n)) => {
                proof {
                    assert(before.tick_used(tick));
                    let k = choose|k: int| 0 <= k < before.uses@.len() && (#[trigger] before.uses@[k]).tick == tick;
                    assert(before.records(before.uses@[0]));
                    assert(before.uses@[0].tick >= tick);
                    assert(k == 0);
                    crate::net::ipv4_of_its_number(before@[0].ip);
                }
                let domain = self.take_out(n, Ghost(0));
                let ip = Ipv4Addr::from_u32(n);
                proof {
                    lemma_numbers_differ(ip, before@[0].ip);
                    assert(self@ =~= before@.drop_first());
                }
                Some((ip, domain))
            },
            None => {
                proof {
                    if before@.len() > 0 {
                        assert(before.records(before.uses@[0]));
                    }
                }
                None
            },
        }
    }

    /// Drops the pairs not used for longest until there are fewer than `max_entries`, or none.
    fn make_room(&mut self, max_entries: usize)
        requires
            old(self).wf(),
        ensures
            final(self).wf(),
            final(self).clock() == old(self).clock(),
            final(self)@ == trimmed_to(old(self)@, max_entries as nat),
    {
        let ghost before = *self;
        let ghost mut dropped: int = 0;
        assert(before@.subrange(0, before@.len() as int) =~= before@);
        while self.domain_to_ip.len() >= max_entries
            invariant
                self.wf(),
                self.clock() == before.clock(),
                0 <= dropped <= before@.len(),
                self@ == before@.subrange(dropped, before@.len() as int),
                dropped == 0 || before@.len() - dropped + 1 >= max_entries,
            ensures
                self@ == trimmed_to(before@, max_entries as nat),
            decreases self@.len(),
        {
            if self.evict_oldest().is_none() {
                assert(self@ =~= trimmed_to(before@, max_entries as nat));
                break;
            }
            proof {
                dropped = dropped + 1;
                assert(self@ =~= before@.subrange(dropped, before@.len() as int));
            }
        }
    }

    /// Takes the address from the name that has it.
    fn release(&mut self, ip: Ipv4Addr)
        requires
            old(self).wf(),
        ensures
            final(self).wf(),
            final(self).clock() == old(self).clock(),
            final(self)@ == without_ip(old(self)@, ip),
    {
        let n: u32 = ip.to_u32();
        let ghost before = *self;
        if self.ip_to_domain.contains_key(&n) {
            let ghost k = place_of_ip(self@, ip);
            proof {
                before.lemma_distinct();
                assert(before.ip_used(n));
                let j = choose|j: int| 0 <= j < before.uses@.len() && (#[trigger] before.uses@[j]).pair.ip.number() == n;
                lemma_numbers_differ(before.uses@[j].pair.ip, ip);
                assert(before@[j].ip == ip);
                lemma_place_of_ip(before@, ip, j);
            }
            self.take_out(n, Ghost(k));
        } else {
            proof {
                if has_ip(before@, ip) {
                    let k = place_of_ip(before@, ip);
                    assert(before.records(before.uses@[k]));
                }
            }
        }
    }

    /// The address of the name. A name that has none gets the one that `next_ip` gives; before that
    /// the names not used for longest are dropped until there are fewer than `max_entries`, and after
    /// it no other name has the address.
    pub fn get_or_allocate_with_capacity<F: FnOnce() -> Ipv4Addr>(
        &mut self,
        domain_lower: &str,
        max_entries: usize,
        next_ip: F,
    ) -> (r: Ipv4Addr)
        requires
            old(self).wf(),
            old(self).clock() < u64::MAX,
            call_requires(next_ip, ()),
        ensures
            final(self).wf(),
            final(self).clock() == old(self).clock() + 1,
            match ip_of(old(self)@, domain_lower@) {
                Some(ip) => r == ip && final(self)@ == moved_to_end(
                    old(self)@,
                    place_of_domain(old(self)@, domain_lower@),
                ),
                None => call_ensures(next_ip, (), r) && final(self)@ == with_pair(
                    old(self)@,
                    domain_lower@,
                    max_entries as nat,
                    r,
                ),
            },
    {
        match self.find(domain_lower) {
            Some(ip) => {
                self.touch(ip);
                return ip;
            },
            None => {},
        }
        let ghost before = self@;
        proof {
            self.lemma_distinct();
        }
        self.make_room(max_entries);
        let new_ip = next_ip();
        self.release(new_ip);
        proof {
            lemma_allocation_is_clean(before, domain_lower@, max_entries as nat, new_ip);
        }
        self.put_last(domain_lower, new_ip);
        new_ip
    }

    /// The name that the address stands for.
    pub fn lookup(&self, ip: &Ipv4Addr) -> (r: Option<&str>)
        requires
            self.wf(),
        ensures
            match r {
                Some(d) => domain_of(self@, *ip) == Some(d@),
                None => domain_of(self@, *ip) is None,
            },
    {
        let n: u32 = ip.to_u32();
        proof {
            self.lemma_distinct();
        }
        match self.ip_to_domain.get(&n) {
            Some(e) => {
                proof {
                    assert(self.ip_used(n));
                    let j = choose|j: int| 0 <= j < self.uses@.len() && (#[trigger] self.uses@[j]).pair.ip.number() == n;
                    assert(self.records(self.uses@[j]));
                    lemma_numbers_differ(self.uses@[j].pair.ip, *ip);
                    assert(self@[j].ip == *ip);
                    lemma_place_of_ip(self@, *ip, j);
                }
                Some(e.0.as_str())
            },
            None => {
                proof {
                    if has_ip(self@, *ip) {
                        let k = place_of_ip(self@, *ip);
                        assert(self.records(self.uses@[k]));
                    }
                }
                None
            },
        }
    }
}

/// Different addresses have different numbers.
proof fn lemma_numbers_differ(a: Ipv4Addr, b: Ipv4Addr)
    ensures
        a != b ==> a.number() != b.number(),
{
    crate::net::ipv4_of_its_number(a);
    crate::net::ipv4_of_its_number(b);
}

impl Default for FakeIpTable {
    fn default() -> (r: FakeIpTable)
        ensures
            r.wf(),
            r@ == Seq::<Pair>::empty(),
            r.clock() == 0,
    {
        FakeIpTable::new()
    }
}

/// The addresses of 198.18.0.0/15.
pub open spec fn fake(ip: Ipv4Addr) -> bool {
    ip.a == 198 && (ip.b == 18 || ip.b == 19)
}

/// The addresses that names are given: those of 198.18.0.0/15 but for the first and the last.
pub open spec fn assignable(ip: Ipv4Addr) -> bool {
    FAKE_IP_START <= ip.number() <= FAKE_IP_END
}

/// The address is one of 198.18.0.0/15.
pub fn is_fake_ip(ip: &Ipv4Addr) -> (r: bool)
    ensures
        r == fake(*ip),
{
    ip.a == 198 && (ip.b == 18 || ip.b == 19)
}

/// The table of a process, with the number of the address that is handed out next.
pub struct FakeIpPool {
    table: FakeIpTable,
    next: u32,
}

impl View for FakeIpPool {
    type V = Pairs;

    closed spec fn view(&self) -> Pairs {
        self.table@
    }
}

/// The number to hand out where `next` is due: behind the last address comes the first again.
pub open spec fn due(next: u32) -> u32 {
    if next > FAKE_IP_END {
        FAKE_IP_START
    } else {
        next
    }
}

impl FakeIpPool {
    /// How often a name was asked for.
    pub closed spec fn clock(self) -> nat {
        self.table.clock()
    }

    /// The number of the address that is due.
    pub closed spec fn next_number(self) -> u32 {
        self.next
    }

    /// Only addresses that names are given are in use, none of them twice.
    pub closed spec fn wf(self) -> bool {
        &&& self.table.wf()
        &&& FAKE_IP_START <= self.next <= FAKE_IP_END + 1
        &&& forall|i: int| 0 <= i < self.table@.len() ==> assignable((#[trigger] self.table@[i]).ip)
    }

    pub fn new() -> (r: FakeIpPool)
        ensures
            r.wf(),
            r@ == Seq::<Pair>::empty(),
            r.clock() == 0,
            r.next_number() == FAKE_IP_START,
    {
        FakeIpPool { table: FakeIpTable::new(), next: FAKE_IP_START }
    }

    /// Whether another name can be asked for.
    pub fn is_usable(&self) -> (r: bool)
        ensures
            r == (self.clock() < u64::MAX),
    {
        self.table.current_tick < u64::MAX
    }
}

proof fn lemma_assignable_is_fake(ip: Ipv4Addr)
    requires
        assignable(ip),
    ensures
        fake(ip),
{
    let n = ip.number();
    assert(n / 0x100_0000 == ip.a);
    assert(n / 0x1_0000 == ip.a * 256 + ip.b);
}

/// The fake address of the name, whatever case it is written in.
pub fn get_or_allocate_fake_ip(pool: &mut FakeIpPool, domain: &str) -> (r: Ipv4Addr)
    requires
        old(pool).wf(),
        old(pool).clock() < u64::MAX,
    ensures
        final(pool).wf(),
        final(pool).clock() == old(pool).clock() + 1,
        assignable(r),
        fake(r),
        match ip_of(old(pool)@, text::lower(domain@)) {
            Some(ip) => {
                &&& r == ip
                &&& final(pool)@ == moved_to_end(old(pool)@, place_of_domain(old(pool)@, text::lower(domain@)))
                &&& final(pool).next_number() == old(pool).next_number()
            },
            None => {
                &&& r == Ipv4Addr::of_number(due(old(pool).next_number()))
                &&& final(pool)@ == with_pair(old(pool)@, text::lower(domain@), MAX_FAKE_IP_ENTRIES as nat, r)
                &&& final(pool).next_number() == due(old(pool).next_number()) + 1
            },
        },
{
    let domain_lower = text::to_ascii_lowercase(domain);
    let ghost before = pool.table@;
    let known = pool.table.find(&domain_lower).is_some();
    let number: u32 = if pool.next > FAKE_IP_END {
        FAKE_IP_START
    } else {
        pool.next
    };
    if !known {
        pool.next = number + 1;
    }
    let next_ip = || -> (r: Ipv4Addr)
        ensures
            r == Ipv4Addr::of_number(number),
            r.number() == number,
        { Ipv4Addr::from_u32(number) };
    let ip = pool.table.get_or_allocate_with_capacity(&domain_lower, MAX_FAKE_IP_ENTRIES, next_ip);
    proof {
        let after = pool.table@;
        if known {
            let k = place_of_domain(before, text::lower(domain@));
            assert(0 <= k < before.len());
            assert forall|i: int| 0 <= i < after.len() implies assignable((#[trigger] after[i]).ip) by {
                let j = if i == after.len() - 1 {
                    k
                } else if i < k {
                    i
                } else {
                    i + 1
                };
                assert(after[i] == before[j]);
            }
        } else {
            lemma_with_pair_members(before, text::lower(domain@), MAX_FAKE_IP_ENTRIES as nat, ip);
        }
        lemma_assignable_is_fake(ip);
    }
    ip
}

/// Neither the name nor the address is left when the pair is added.
proof fn lemma_allocation_is_clean(pairs: Pairs, domain: Seq<char>, max: nat, ip: Ipv4Addr)
    requires
        distinct(pairs),
        !has_domain(pairs, domain),
    ensures
        !has_domain(without_ip(trimmed_to(pairs, max), ip), domain),
        !has_ip(without_ip(trimmed_to(pairs, max), ip), ip),
        distinct(trimmed_to(pairs, max)),
        distinct(without_ip(trimmed_to(pairs, max), ip)),
{
    let kept = trimmed_to(pairs, max);
    let freed = without_ip(kept, ip);
    let offset = pairs.len() - kept.len();
    assert forall|i: int, j: int|
        #![trigger kept[i], kept[j]]
        0 <= i < j < kept.len() implies kept[i].domain != kept[j].domain && kept[i].ip != kept[j].ip by {
        assert(kept[i] == pairs[i + offset] && kept[j] == pairs[j + offset]);
    }
    let at = if has_ip(kept, ip) {
        place_of_ip(kept, ip)
    } else {
        kept.len() as int
    };
    assert forall|i: int| 0 <= i < freed.len() implies (#[trigger] freed[i]).domain != domain && freed[i].ip != ip by {
        let k = if i < at {
            i
        } else {
            i + 1
        };
        assert(freed[i] == kept[k]);
        assert(kept[k] == pairs[k + offset]);
        if at < kept.len() {
            assert(kept[at].ip == ip);
        }
    }
    assert forall|i: int, j: int|
        #![trigger freed[i], freed[j]]
        0 <= i < j < freed.len() implies freed[i].domain != freed[j].domain && freed[i].ip != freed[j].ip by {
        let k = if i < at {
            i
        } else {
            i + 1
        };
        let l = if j < at {
            j
        } else {
            j + 1
        };
        assert(freed[i] == kept[k] && freed[j] == kept[l]);
    }
}

/// Every pair after the allocation was there before or is the new one.
proof fn lemma_with_pair_members(pairs: Pairs, domain: Seq<char>, max: nat, ip: Ipv4Addr)
    ensures
        forall|i: int|
            0 <= i < with_pair(pairs, domain, max, ip).len() ==> (#[trigger] with_pair(pairs, domain, max, ip)[i] == Pair {
                domain,
                ip,
            }) || exists|j: int| 0 <= j < pairs.len() && with_pair(pairs, domain, max, ip)[i] == #[trigger] pairs[j],
{
    let kept = trimmed_to(pairs, max);
    let freed = without_ip(kept, ip);
    let after = with_pair(pairs, domain, max, ip);
    let offset = pairs.len() - kept.len();
    assert forall|i: int| 0 <= i < after.len() implies (#[trigger] after[i] == Pair { domain, ip }) || exists|j: int|
        0 <= j < pairs.len() && after[i] == #[trigger] pairs[j] by {
        if i < after.len() - 1 {
            let k = if has_ip(kept, ip) && i >= place_of_ip(kept, ip) {
                i + 1
            } else {
                i
            };
            assert(after[i] == kept[k]);
            assert(kept[k] == pairs[k + offset]);
        }
    }
}

/// The name that a fake address stands for.
pub fn lookup_domain_by_ip(pool: &FakeIpPool, ip: &Ipv4Addr) -> (r: Option<String>)
    requires
        pool.wf(),
    ensures
        match r {
            Some(d) => domain_of(pool@, *ip) == Some(d@),
            None => domain_of(pool@, *ip) is None,
        },
{
    if !is_fake_ip(ip) {
        proof {
            if has_ip(pool@, *ip) {
                lemma_assignable_is_fake(pool.table@[place_of_ip(pool@, *ip)].ip);
            }
        }
        return None;
    }
    match pool.table.lookup(ip) {
        Some(d) => Some(text::copy_text(d)),
        None => None,
    }
}

// Laws.

impl FakeIpTable {
    /// No two names ever have the same address.
    pub proof fn addresses_are_not_shared(self)
        requires
            self.wf(),
        ensures
            distinct(self@),
    {
        self.lemma_distinct();
    }
}

impl FakeIpPool {
    /// No two names ever have the same address, and every address is a fake one between the first and the
    /// last that names are given.
    pub proof fn addresses_are_not_shared(self)
        requires
            self.wf(),
        ensures
            distinct(self@),
            forall|i: int| 0 <= i < self@.len() ==> assignable((#[trigger] self@[i]).ip) && fake(self@[i].ip),
    {
        self.table.lemma_distinct();
        assert forall|i: int| 0 <= i < self@.len() implies assignable((#[trigger] self@[i]).ip) && fake(
            self@[i].ip,
        ) by {
            assert(assignable(self.table@[i].ip));
            lemma_assignable_is_fake(self@[i].ip);
        }
    }
}

/// The name of a pair has its address, and the address stands for the name.
pub proof fn pair_leads_both_ways(pairs: Pairs, i: int)
    requires
        distinct(pairs),
        0 <= i < pairs.len(),
    ensures
        ip_of(pairs, pairs[i].domain) == Some(pairs[i].ip),
        domain_of(pairs, pairs[i].ip) == Some(pairs[i].domain),
{
    lemma_place_of_domain(pairs, pairs[i].domain, i);
    lemma_place_of_ip(pairs, pairs[i].ip, i);
}

/// A name that gets an address has it from then on, and the address stands for that name.
pub proof fn allocated_address_leads_back(pairs: Pairs, domain: Seq<char>, max: nat, ip: Ipv4Addr)
    requires
        distinct(pairs),
        !has_domain(pairs, domain),
    ensures
        distinct(with_pair(pairs, domain, max, ip)),
        ip_of(with_pair(pairs, domain, max, ip), domain) == Some(ip),
        domain_of(with_pair(pairs, domain, max, ip), ip) == Some(domain),
{
    lemma_allocation_is_clean(pairs, domain, max, ip);
    let freed = without_ip(trimmed_to(pairs, max), ip);
    let after = with_pair(pairs, domain, max, ip);
    assert forall|i: int, j: int|
        #![trigger after[i], after[j]]
        0 <= i < j < after.len() implies after[i].domain != after[j].domain && after[i].ip != after[j].ip by {
        assert(after[i] == freed[i]);
        if j < freed.len() {
            assert(after[j] == freed[j]);
        }
    }
    lemma_place_of_domain(after, domain, after.len() - 1);
    lemma_place_of_ip(after, ip, after.len() - 1);
}

/// Where the pair at `k` is after the one at `i` was moved to the end of `len` pairs.
spec fn place_after_move(k: int, i: int, len: int) -> int {
    if k == i {
        len - 1
    } else if k < i {
        k
    } else {
        k - 1
    }
}

/// Where the pair was that is at `l` after the one at `i` was moved to the end of `len` pairs.
spec fn place_before_move(l: int, i: int, len: int) -> int {
    if l == len - 1 {
        i
    } else if l < i {
        l
    } else {
        l + 1
    }
}

proof fn lemma_move(pairs: Pairs, i: int)
    requires
        distinct(pairs),
        0 <= i < pairs.len(),
    ensures
        distinct(moved_to_end(pairs, i)),
{
    let after = moved_to_end(pairs, i);
    let n = pairs.len() as int;
    assert forall|k: int, l: int|
        #![trigger after[k], after[l]]
        0 <= k < l < after.len() implies after[k].domain != after[l].domain && after[k].ip != after[l].ip by {
        let a = place_before_move(k, i, n);
        let b = place_before_move(l, i, n);
        assert(after[k] == pairs[a] && after[l] == pairs[b]);
        if a < b {
            assert(pairs[a].domain != pairs[b].domain && pairs[a].ip != pairs[b].ip);
        } else {
            assert(pairs[b].domain != pairs[a].domain && pairs[b].ip != pairs[a].ip);
        }
    }
}

/// Asking for a name that has an address changes no address and no name.
pub proof fn use_keeps_every_pair(pairs: Pairs, i: int, domain: Seq<char>, ip: Ipv4Addr)
    requires
        distinct(pairs),
        0 <= i < pairs.len(),
    ensures
        distinct(moved_to_end(pairs, i)),
        moved_to_end(pairs, i).len() == pairs.len(),
        ip_of(moved_to_end(pairs, i), domain) == ip_of(pairs, domain),
        domain_of(moved_to_end(pairs, i), ip) == domain_of(pairs, ip),
{
    let after = moved_to_end(pairs, i);
    let n = pairs.len() as int;
    lemma_move(pairs, i);
    if has_domain(pairs, domain) {
        let k = place_of_domain(pairs, domain);
        let l = place_after_move(k, i, n);
        assert(after[l] == pairs[k]);
        lemma_place_of_domain(after, domain, l);
    } else if has_domain(after, domain) {
        let l = place_of_domain(after, domain);
        assert(after[l] == pairs[place_before_move(l, i, n)]);
    }
    if has_ip(pairs, ip) {
        let k = place_of_ip(pairs, ip);
        let l = place_after_move(k, i, n);
        assert(after[l] == pairs[k]);
        lemma_place_of_ip(after, ip, l);
    } else if has_ip(after, ip) {
        let l = place_of_ip(after, ip);
        assert(after[l] == pairs[place_before_move(l, i, n)]);
    }
}

/// The table does not outgrow its capacity; it always has room for one name.
pub proof fn table_is_bounded(pairs: Pairs, domain: Seq<char>, max: nat, ip: Ipv4Addr)
    ensures
        with_pair(pairs, domain, max, ip).len() <= (if max == 0 {
            1
        } else {
            max
        }),
{
    let kept = trimmed_to(pairs, max);
    if has_ip(kept, ip) {
        assert(0 <= place_of_ip(kept, ip) < kept.len());
    }
}

/// The name used last is not the one that is dropped for a new name.
pub proof fn name_used_last_stays(pairs: Pairs, domain: Seq<char>, max: nat, ip: Ipv4Addr)
    requires
        distinct(pairs),
        !has_domain(pairs, domain),
        pairs.len() > 0,
        max >= 2,
        pairs.last().ip != ip,
    ensures
        ip_of(with_pair(pairs, domain, max, ip), pairs.last().domain) == Some(pairs.last().ip),
        domain_of(with_pair(pairs, domain, max, ip), pairs.last().ip) == Some(pairs.last().domain),
{
    allocated_address_leads_back(pairs, domain, max, ip);
    let kept = trimmed_to(pairs, max);
    let after = with_pair(pairs, domain, max, ip);
    assert(kept.last() == pairs.last());
    let at = after.len() - 2;
    if has_ip(kept, ip) {
        let k = place_of_ip(kept, ip);
        assert(kept[k].ip == ip);
        assert(k < kept.len() - 1);
        assert(after[at] == kept[at + 1]);
    } else {
        assert(after[at] == kept[at]);
    }
    lemma_place_of_domain(after, pairs.last().domain, at);
    lemma_place_of_ip(after, pairs.last().ip, at);
}

/// A name that keeps an address while another gets one keeps the address that it had.
pub proof fn survivors_keep_their_address(pairs: Pairs, domain: Seq<char>, max: nat, ip: Ipv4Addr, other: Seq<char>)
    requires
        distinct(pairs),
        !has_domain(pairs, domain),
        other != domain,
        has_domain(with_pair(pairs, domain, max, ip), other),
    ensures
        ip_of(with_pair(pairs, domain, max, ip), other) == ip_of(pairs, other),
{
    let after = with_pair(pairs, domain, max, ip);
    let l = place_of_domain(after, other);
    lemma_with_pair_members(pairs, domain, max, ip);
    assert(after[l] != (Pair { domain, ip }));
    let k = choose|k: int| 0 <= k < pairs.len() && after[l] == #[trigger] pairs[k];
    lemma_place_of_domain(pairs, other, k);
}

/// A name that is used goes behind all the others, which keep their order.
pub proof fn use_puts_a_name_last(pairs: Pairs, i: int)
    requires
        0 <= i < pairs.len(),
    ensures
        moved_to_end(pairs, i).len() == pairs.len(),
        moved_to_end(pairs, i).last() == pairs[i],
        forall|k: int| 0 <= k < i ==> moved_to_end(pairs, i)[k] == #[trigger] pairs[k],
        forall|k: int| i < k < pairs.len() ==> moved_to_end(pairs, i)[k - 1] == #[trigger] pairs[k],
{
}

/// A name that gets an address goes behind all the others. Those others stay, in their order, that are among
/// the last used, one fewer than the table holds, but for one that had the address; no other is dropped.
pub proof fn names_not_used_for_longest_are_dropped(
    pairs: Pairs,
    domain: Seq<char>,
    max: nat,
    ip: Ipv4Addr,
    i: int,
    j: int,
)
    requires
        distinct(pairs),
        !has_domain(pairs, domain),
        max >= 1,
        0 <= i < pairs.len(),
        0 <= j < pairs.len(),
    ensures
        ({
            let after = with_pair(pairs, domain, max, ip);
            &&& after.last() == (Pair { domain, ip })
            &&& has_domain(after, pairs[i].domain) <==> pairs[i].ip != ip && i + max > pairs.len()
            &&& i < j && has_domain(after, pairs[i].domain) && has_domain(after, pairs[j].domain) ==> place_of_domain(
                after,
                pairs[i].domain,
            ) < place_of_domain(after, pairs[j].domain)
            &&& forall|k: int|
                0 <= k < after.len() - 1 ==> (#[trigger] after[k]).domain != domain && exists|l: int|
                    0 <= l < pairs.len() && after[k] == #[trigger] pairs[l]
        }),
{
    let after = with_pair(pairs, domain, max, ip);
    let kept = trimmed_to(pairs, max);
    let freed = without_ip(kept, ip);
    let offset = pairs.len() - kept.len();
    allocated_address_leads_back(pairs, domain, max, ip);
    lemma_allocation_is_clean(pairs, domain, max, ip);
    lemma_with_pair_members(pairs, domain, max, ip);
    let at = if has_ip(kept, ip) {
        place_of_ip(kept, ip)
    } else {
        kept.len() as int
    };
    assert(forall|k: int| 0 <= k < kept.len() ==> kept[k] == #[trigger] pairs[k + offset]);
    assert(forall|k: int| 0 <= k < at && k < freed.len() ==> freed[k] == #[trigger] kept[k]);
    assert forall|k: int| at < k < kept.len() implies freed[k - 1] == #[trigger] kept[k] by {
    }
    lemma_survivor(pairs, domain, max, ip, i);
    lemma_survivor(pairs, domain, max, ip, j);
    assert forall|k: int| 0 <= k < after.len() - 1 implies (#[trigger] after[k]).domain != domain && exists|l: int|
        0 <= l < pairs.len() && after[k] == #[trigger] pairs[l] by {
        assert(after[k] == freed[k]);
    }
}

proof fn lemma_survivor(pairs: Pairs, domain: Seq<char>, max: nat, ip: Ipv4Addr, i: int)
    requires
        distinct(pairs),
        !has_domain(pairs, domain),
        max >= 1,
        0 <= i < pairs.len(),
    ensures
        ({
            let after = with_pair(pairs, domain, max, ip);
            let kept = trimmed_to(pairs, max);
            let offset = pairs.len() - kept.len();
            let at = if has_ip(kept, ip) {
                place_of_ip(kept, ip)
            } else {
                kept.len() as int
            };
            &&& has_domain(after, pairs[i].domain) <==> pairs[i].ip != ip && i + max > pairs.len()
            &&& has_domain(after, pairs[i].domain) ==> place_of_domain(after, pairs[i].domain) == (if i - offset < at {
                i - offset
            } else {
                i - offset - 1
            })
        }),
{
    let after = with_pair(pairs, domain, max, ip);
    let kept = trimmed_to(pairs, max);
    let freed = without_ip(kept, ip);
    let offset = pairs.len() - kept.len();
    allocated_address_leads_back(pairs, domain, max, ip);
    lemma_allocation_is_clean(pairs, domain, max, ip);
    let at = if has_ip(kept, ip) {
        place_of_ip(kept, ip)
    } else {
        kept.len() as int
    };
    let d = pairs[i].domain;
    assert(d != domain);
    if pairs[i].ip != ip && i + max > pairs.len() {
        assert(i >= offset);
        assert(kept[i - offset] == pairs[i]);
        assert(at != i - offset);
        let l = if i - offset < at {
            i - offset
        } else {
            i - offset - 1
        };
        assert(freed[l] == pairs[i]);
        assert(after[l] == pairs[i]);
        lemma_place_of_domain(after, d, l);
    }
    if has_domain(after, d) {
        let l = place_of_domain(after, d);
        assert(after[l].domain == d);
        assert(l < freed.len());
        assert(after[l] == freed[l]);
        let k = if l < at {
            l
        } else {
            l + 1
        };
        assert(freed[l] == kept[k]);
        assert(kept[k] == pairs[k + offset]);
        assert(k + offset == i);
        assert(freed[l].ip != ip);
    }
}

/// The fake network and the addresses of it that are given out, by their numbers; behind the last comes the
/// first again. A process keeps 65536 names.
pub proof fn fake_addresses_by_number(ip: Ipv4Addr, next: u32)
    ensures
        fake(ip) <==> 0xC612_0000 <= ip.number() <= 0xC613_FFFF,
        assignable(ip) <==> 0xC612_0001 <= ip.number() <= 0xC613_FFFE,
        next <= 0xC613_FFFE ==> due(next) == next,
        next > 0xC613_FFFE ==> due(next) == 0xC612_0001,
        FAKE_IP_START == 0xC612_0001 && FAKE_IP_END == 0xC613_FFFE && MAX_FAKE_IP_ENTRIES == 65536,
{
    let n = ip.number();
    assert(n / 0x100_0000 == ip.a);
    assert(n / 0x1_0000 == ip.a * 256 + ip.b);
}

/// Only names that stand in the table have an address, and only addresses that stand there have a name.
pub proof fn unknown_names_and_addresses(pairs: Pairs, domain: Seq<char>, ip: Ipv4Addr)
    ensures
        ip_of(pairs, domain) is None <==> forall|i: int| 0 <= i < pairs.len() ==> (#[trigger] pairs[i]).domain != domain,
        domain_of(pairs, ip) is None <==> forall|i: int| 0 <= i < pairs.len() ==> (#[trigger] pairs[i]).ip != ip,
        ip_of(pairs, domain) is Some ==> exists|i: int|
            0 <= i < pairs.len() && (#[trigger] pairs[i]).domain == domain && pairs[i].ip == ip_of(pairs, domain)->0,
        domain_of(pairs, ip) is Some ==> exists|i: int|
            0 <= i < pairs.len() && (#[trigger] pairs[i]).ip == ip && pairs[i].domain == domain_of(pairs, ip)->0,
{
    if has_domain(pairs, domain) {
        let i = place_of_domain(pairs, domain);
        assert(0 <= i < pairs.len() && pairs[i].domain == domain);
    }
    if has_ip(pairs, ip) {
        let i = place_of_ip(pairs, ip);
        assert(0 <= i < pairs.len() && pairs[i].ip == ip);
    }
}

} // verus!
